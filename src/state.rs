//! The shared state: the GTFS-Realtime style entities of every trip, the
//! platform assignments, the rid to trip map and the station messages.

use dashmap::DashMap;
use vstd::prelude::*;

use crate::merge::{carriages_wf, plats_sorted, updates_wf};
use crate::static_data::GTFSManager;

verus! {

#[verifier::external_type_specification]
#[verifier::external_body]
#[verifier::reject_recursive_types(K)]
#[verifier::reject_recursive_types(V)]
#[verifier::reject_recursive_types(S)]
pub struct ExDashMap<K, V, S>(dashmap::DashMap<K, V, S>);

pub open spec fn opt_view(o: Option<String>) -> Option<Seq<char>> {
    match o {
        Some(s) => Some(s@),
        None => None,
    }
}

/// An absolute event time, in seconds since the Unix epoch.
#[derive(Clone, Copy, Debug, PartialEq, Eq, Structural)]
pub struct StopTimeEvent {
    pub time: Option<i64>,
}

#[derive(Clone, Debug)]
pub struct StopTimeUpdate {
    pub stop_sequence: Option<u32>,
    pub stop_id: Option<String>,
    pub arrival: Option<StopTimeEvent>,
    pub departure: Option<StopTimeEvent>,
}

pub struct StopTimeUpdateView {
    pub stop_sequence: Option<u32>,
    pub stop_id: Option<Seq<char>>,
    pub arrival: Option<StopTimeEvent>,
    pub departure: Option<StopTimeEvent>,
}

impl View for StopTimeUpdate {
    type V = StopTimeUpdateView;

    open spec fn view(&self) -> StopTimeUpdateView {
        StopTimeUpdateView {
            stop_sequence: self.stop_sequence,
            stop_id: opt_view(self.stop_id),
            arrival: self.arrival,
            departure: self.departure,
        }
    }
}

#[derive(Clone, Debug)]
pub struct TripDescriptor {
    pub trip_id: Option<String>,
    /// Service day, `YYYYMMDD`.
    pub start_date: Option<String>,
}

pub struct TripDescriptorView {
    pub trip_id: Option<Seq<char>>,
    pub start_date: Option<Seq<char>>,
}

impl View for TripDescriptor {
    type V = TripDescriptorView;

    open spec fn view(&self) -> TripDescriptorView {
        TripDescriptorView { trip_id: opt_view(self.trip_id), start_date: opt_view(self.start_date) }
    }
}

#[derive(Clone, Debug)]
pub struct VehicleDescriptor {
    pub label: Option<String>,
}

pub struct VehicleDescriptorView {
    pub label: Option<Seq<char>>,
}

impl View for VehicleDescriptor {
    type V = VehicleDescriptorView;

    open spec fn view(&self) -> VehicleDescriptorView {
        VehicleDescriptorView { label: opt_view(self.label) }
    }
}

pub open spec fn vehicle_view(o: Option<VehicleDescriptor>) -> Option<VehicleDescriptorView> {
    match o {
        Some(v) => Some(v@),
        None => None,
    }
}

pub open spec fn updates_view(s: Seq<StopTimeUpdate>) -> Seq<StopTimeUpdateView> {
    s.map_values(|u: StopTimeUpdate| u@)
}

#[derive(Clone, Debug)]
pub struct TripUpdate {
    pub trip: TripDescriptor,
    pub vehicle: Option<VehicleDescriptor>,
    pub stop_time_update: Vec<StopTimeUpdate>,
}

pub struct TripUpdateView {
    pub trip: TripDescriptorView,
    pub vehicle: Option<VehicleDescriptorView>,
    pub stop_time_update: Seq<StopTimeUpdateView>,
}

impl View for TripUpdate {
    type V = TripUpdateView;

    open spec fn view(&self) -> TripUpdateView {
        TripUpdateView {
            trip: self.trip@,
            vehicle: vehicle_view(self.vehicle),
            stop_time_update: updates_view(self.stop_time_update@),
        }
    }
}

/// One unit of a consist, ranked by `carriage_sequence`.
#[derive(Clone, Debug)]
pub struct CarriageDetails {
    pub id: Option<String>,
    pub label: Option<String>,
    pub carriage_sequence: Option<u32>,
}

pub struct CarriageDetailsView {
    pub id: Option<Seq<char>>,
    pub label: Option<Seq<char>>,
    pub carriage_sequence: Option<u32>,
}

impl View for CarriageDetails {
    type V = CarriageDetailsView;

    open spec fn view(&self) -> CarriageDetailsView {
        CarriageDetailsView {
            id: opt_view(self.id),
            label: opt_view(self.label),
            carriage_sequence: self.carriage_sequence,
        }
    }
}

pub open spec fn carriages_view(s: Seq<CarriageDetails>) -> Seq<CarriageDetailsView> {
    s.map_values(|c: CarriageDetails| c@)
}

#[derive(Clone, Debug)]
pub struct VehiclePosition {
    pub trip: Option<TripDescriptor>,
    pub vehicle: Option<VehicleDescriptor>,
    pub stop_id: Option<String>,
    pub multi_carriage_details: Vec<CarriageDetails>,
}

pub struct VehiclePositionView {
    pub trip: Option<TripDescriptorView>,
    pub vehicle: Option<VehicleDescriptorView>,
    pub stop_id: Option<Seq<char>>,
    pub multi_carriage_details: Seq<CarriageDetailsView>,
}

impl View for VehiclePosition {
    type V = VehiclePositionView;

    open spec fn view(&self) -> VehiclePositionView {
        VehiclePositionView {
            trip: match self.trip {
                Some(t) => Some(t@),
                None => None,
            },
            vehicle: vehicle_view(self.vehicle),
            stop_id: opt_view(self.stop_id),
            multi_carriage_details: carriages_view(self.multi_carriage_details@),
        }
    }
}

/// One feed entity: the trip update of a trip, or the vehicle position
/// sidecar that carries its consist.
#[derive(Clone, Debug)]
pub struct FeedEntity {
    pub id: String,
    pub trip_update: Option<TripUpdate>,
    pub vehicle: Option<VehiclePosition>,
}

pub struct FeedEntityView {
    pub id: Seq<char>,
    pub trip_update: Option<TripUpdateView>,
    pub vehicle: Option<VehiclePositionView>,
}

impl View for FeedEntity {
    type V = FeedEntityView;

    open spec fn view(&self) -> FeedEntityView {
        FeedEntityView {
            id: self.id@,
            trip_update: match self.trip_update {
                Some(t) => Some(t@),
                None => None,
            },
            vehicle: match self.vehicle {
                Some(v) => Some(v@),
                None => None,
            },
        }
    }
}

/// A platform published for one visit (`sequence`) of a trip.
#[derive(Clone, Debug)]
pub struct PlatformInfo {
    pub stop_id: String,
    pub sequence: u32,
    pub platform: String,
}

pub struct PlatformInfoView {
    pub stop_id: Seq<char>,
    pub sequence: u32,
    pub platform: Seq<char>,
}

impl View for PlatformInfo {
    type V = PlatformInfoView;

    open spec fn view(&self) -> PlatformInfoView {
        PlatformInfoView { stop_id: self.stop_id@, sequence: self.sequence, platform: self.platform@ }
    }
}

pub open spec fn platforms_view(s: Seq<PlatformInfo>) -> Seq<PlatformInfoView> {
    s.map_values(|p: PlatformInfo| p@)
}

pub type EntityMap = DashMap<String, FeedEntity>;

pub type PlatformMap = DashMap<String, Vec<PlatformInfo>>;

pub type TextMap = DashMap<String, String>;

// ---------------------------------------------------------------------------
// The concurrent maps. Each kind of map has a name for what it holds, and a
// wrapper for each DashMap method the logic calls. The wrappers that change a
// map take it by `&mut`, so that their contracts can say how its contents
// change; a caller that shares the state across threads holds it behind a
// lock of its own.
pub uninterp spec fn entity_map(m: EntityMap) -> Map<
    Seq<char>,
    FeedEntityView,
>;

pub uninterp spec fn platform_map(m: PlatformMap) -> Map<
    Seq<char>,
    Seq<PlatformInfoView>,
>;

pub uninterp spec fn text_map(m: TextMap) -> Map<Seq<char>, Seq<char>>;

/// Relies on DashMap::new: a new map is empty.
#[verifier::external_body]
pub(crate) fn new_entity_map() -> (r: EntityMap)
    ensures
        entity_map(r).dom().is_empty(),
{
    DashMap::new()
}

/// Relies on DashMap::get: the entry under the key, cloned (a derived clone
/// keeps every field).
#[verifier::external_body]
pub(crate) fn entity_get(m: &EntityMap, k: &str) -> (r: Option<FeedEntity>)
    ensures
        r.is_some() == entity_map(*m).contains_key(k@),
        r.is_some() ==> r.unwrap()@ == entity_map(*m)[k@],
{
    m.get(k).map(|e| e.value().clone())
}

/// Relies on DashMap::insert: the key now maps to the value, other keys keep
/// theirs.
#[verifier::external_body]
pub(crate) fn entity_insert(m: &mut EntityMap, k: &str, v: FeedEntity)
    ensures
        entity_map(*final(m)) == entity_map(*old(m)).insert(k@, v@),
{
    m.insert(k.to_string(), v);
}

/// Relies on DashMap::remove: the key is gone, other keys keep their values.
#[verifier::external_body]
pub(crate) fn entity_remove(m: &mut EntityMap, k: &str)
    ensures
        entity_map(*final(m)) == entity_map(*old(m)).remove(k@),
{
    m.remove(k);
}

/// Relies on DashMap::iter: every key once, in no particular order.
#[verifier::external_body]
pub(crate) fn entity_keys(m: &EntityMap) -> (r: Vec<String>)
    ensures
        forall|i: int| 0 <= i < r@.len() ==> entity_map(*m).contains_key(#[trigger] r@[i]@),
        forall|k: Seq<char>| #[trigger]
            entity_map(*m).contains_key(k) ==> exists|i: int| 0 <= i < r@.len() && r@[i]@ == k,
        forall|i: int, j: int| 0 <= i < j < r@.len() ==> r@[i]@ != r@[j]@,
{
    m.iter().map(|e| e.key().clone()).collect()
}

/// Relies on DashMap::new: a new map is empty.
#[verifier::external_body]
pub(crate) fn new_platform_map() -> (r: PlatformMap)
    ensures
        platform_map(r).dom().is_empty(),
{
    DashMap::new()
}

/// Relies on DashMap::get: the list under the key, cloned.
#[verifier::external_body]
pub(crate) fn platform_get(m: &PlatformMap, k: &str) -> (r: Option<
    Vec<PlatformInfo>,
>)
    ensures
        r.is_some() == platform_map(*m).contains_key(k@),
        r.is_some() ==> platforms_view(r.unwrap()@) == platform_map(*m)[k@],
{
    m.get(k).map(|e| e.value().clone())
}

/// Relies on DashMap::insert: the key now maps to the list, other keys keep
/// theirs.
#[verifier::external_body]
pub(crate) fn platform_insert(m: &mut PlatformMap, k: &str, v: Vec<PlatformInfo>)
    ensures
        platform_map(*final(m)) == platform_map(*old(m)).insert(k@, platforms_view(v@)),
{
    m.insert(k.to_string(), v);
}

/// Relies on DashMap::remove: the key is gone, other keys keep their lists.
#[verifier::external_body]
pub(crate) fn platform_remove(m: &mut PlatformMap, k: &str)
    ensures
        platform_map(*final(m)) == platform_map(*old(m)).remove(k@),
{
    m.remove(k);
}

/// Relies on DashMap::iter: every key once, in no particular order.
#[verifier::external_body]
pub(crate) fn platform_keys(m: &PlatformMap) -> (r: Vec<String>)
    ensures
        forall|i: int| 0 <= i < r@.len() ==> platform_map(*m).contains_key(#[trigger] r@[i]@),
        forall|k: Seq<char>| #[trigger]
            platform_map(*m).contains_key(k) ==> exists|i: int| 0 <= i < r@.len() && r@[i]@ == k,
        forall|i: int, j: int| 0 <= i < j < r@.len() ==> r@[i]@ != r@[j]@,
{
    m.iter().map(|e| e.key().clone()).collect()
}

/// Relies on DashMap::new: a new map is empty.
#[verifier::external_body]
pub(crate) fn new_text_map() -> (r: TextMap)
    ensures
        text_map(r).dom().is_empty(),
{
    DashMap::new()
}

/// Relies on DashMap::get: the text under the key, cloned.
#[verifier::external_body]
pub(crate) fn text_get(m: &TextMap, k: &str) -> (r: Option<String>)
    ensures
        r.is_some() == text_map(*m).contains_key(k@),
        r.is_some() ==> r.unwrap()@ == text_map(*m)[k@],
{
    m.get(k).map(|e| e.value().clone())
}

/// Relies on DashMap::insert: the key now maps to the text, other keys keep
/// theirs.
#[verifier::external_body]
pub(crate) fn text_insert(m: &mut TextMap, k: &str, v: String)
    ensures
        text_map(*final(m)) == text_map(*old(m)).insert(k@, v@),
{
    m.insert(k.to_string(), v);
}

/// Relies on DashMap::remove: the key is gone, other keys keep their text.
#[verifier::external_body]
pub(crate) fn text_remove(m: &mut TextMap, k: &str)
    ensures
        text_map(*final(m)) == text_map(*old(m)).remove(k@),
{
    m.remove(k);
}

/// Relies on DashMap::iter: every entry once, in no particular order.
#[verifier::external_body]
pub(crate) fn text_entries(m: &TextMap) -> (r: Vec<(String, String)>)
    ensures
        forall|i: int|
            0 <= i < r@.len() ==> text_map(*m).contains_key(#[trigger] r@[i].0@) && text_map(
                *m,
            )[r@[i].0@] == r@[i].1@,
        forall|k: Seq<char>| #[trigger]
            text_map(*m).contains_key(k) ==> exists|i: int| 0 <= i < r@.len() && r@[i].0@ == k,
        forall|i: int, j: int| 0 <= i < j < r@.len() ==> r@[i].0@ != r@[j].0@,
{
    m.iter().map(|e| (e.key().clone(), e.value().clone())).collect()
}

/// An entity is stored under its own id, holds a trip update or a vehicle
/// position (never both), and keeps its lists ordered and keyed.
pub open spec fn entity_wf(k: Seq<char>, e: FeedEntityView) -> bool {
    &&& e.id == k
    &&& (e.trip_update is Some) != (e.vehicle is Some)
    &&& e.trip_update is Some ==> updates_wf(e.trip_update.unwrap().stop_time_update)
    &&& e.vehicle is Some ==> carriages_wf(e.vehicle.unwrap().multi_carriage_details)
}

pub struct StateView {
    pub entities: Map<Seq<char>, FeedEntityView>,
    pub platforms: Map<Seq<char>, Seq<PlatformInfoView>>,
    pub rids: Map<Seq<char>, Seq<char>>,
    pub messages: Map<Seq<char>, Seq<char>>,
}

impl StateView {
    pub open spec fn wf(&self) -> bool {
        &&& forall|k: Seq<char>| #[trigger]
            self.entities.contains_key(k) ==> entity_wf(k, self.entities[k])
        &&& forall|k: Seq<char>| #[trigger]
            self.platforms.contains_key(k) ==> plats_sorted(self.platforms[k])
    }
}

pub struct AppState {
    /// Trip id, or `{trip_id}_VP`, to its entity.
    pub trip_updates: EntityMap,
    /// Trip id to the platforms published for its visits.
    pub platforms_v2: PlatformMap,
    /// Message id to `"{category}: {body}"`.
    pub station_messages: TextMap,
    /// Darwin run id to trip id.
    pub rid_to_trip_id: TextMap,
    pub gtfs: GTFSManager,
}

impl View for AppState {
    type V = StateView;

    open spec fn view(&self) -> StateView {
        StateView {
            entities: entity_map(self.trip_updates),
            platforms: platform_map(self.platforms_v2),
            rids: text_map(self.rid_to_trip_id),
            messages: text_map(self.station_messages),
        }
    }
}

impl AppState {
    pub open spec fn wf(&self) -> bool {
        self@.wf()
    }

    pub fn new(gtfs_url: String) -> (r: Self)
        ensures
            r@.entities.dom().is_empty(),
            r@.platforms.dom().is_empty(),
            r@.rids.dom().is_empty(),
            r@.messages.dom().is_empty(),
            r.gtfs.url@ == gtfs_url@,
            r.gtfs.data.is_empty(),
            r.wf(),
    {
        AppState {
            trip_updates: new_entity_map(),
            platforms_v2: new_platform_map(),
            station_messages: new_text_map(),
            rid_to_trip_id: new_text_map(),
            gtfs: GTFSManager::new(gtfs_url),
        }
    }

    pub fn trip_entity(&self, key: &str) -> (r: Option<FeedEntity>)
        ensures
            r.is_some() == self@.entities.contains_key(key@),
            r.is_some() ==> r.unwrap()@ == self@.entities[key@],
    {
        entity_get(&self.trip_updates, key)
    }

    pub fn platforms_for(&self, trip_id: &str) -> (r: Option<Vec<PlatformInfo>>)
        ensures
            r.is_some() == self@.platforms.contains_key(trip_id@),
            r.is_some() ==> platforms_view(r.unwrap()@) == self@.platforms[trip_id@],
    {
        platform_get(&self.platforms_v2, trip_id)
    }

    pub fn trip_for_rid(&self, rid: &str) -> (r: Option<String>)
        ensures
            r.is_some() == self@.rids.contains_key(rid@),
            r.is_some() ==> r.unwrap()@ == self@.rids[rid@],
    {
        text_get(&self.rid_to_trip_id, rid)
    }

    pub fn station_message(&self, id: &str) -> (r: Option<String>)
        ensures
            r.is_some() == self@.messages.contains_key(id@),
            r.is_some() ==> r.unwrap()@ == self@.messages[id@],
    {
        text_get(&self.station_messages, id)
    }
}

} // verus!
