//! Folds Push Port update records into the shared state.

use chrono::Datelike;
use vstd::prelude::*;
use vstd::string::StringExecFns;

use chrono::TimeZone;

use crate::darwin_types::{
    Coach, Formation, Forecast, Loading, Location, Platform, Pport, StationMessage, TrainOrder,
    TrainOrderItem, TrainStatus,
};
use crate::merge::{
    lemma_put_plat, lemma_sort_updates_wf, lemma_upsert_update_unique, plats_sorted, put_plat,
    put_platform, sort_stop_times, sort_updates, update_visit, upsert_stop_time, upsert_update,
};
use crate::merge::{
    lemma_place_carriage_wf, place_carriage, place_carriage_exec, plat_at, unique_by,
};
use crate::seq_util::{
    first_index, lemma_first_index_is, lemma_split_at_first, lemma_split_at_first_none, split_at_first,
    split_once_char,
};
use crate::state::{
    carriages_view, opt_view, text_get, CarriageDetails, CarriageDetailsView, VehicleDescriptor,
    VehicleDescriptorView, VehiclePosition, VehiclePositionView,
    entity_get, entity_insert, platform_get, platform_insert, platforms_view, text_insert, updates_view,
    AppState, FeedEntity, FeedEntityView, PlatformInfo, PlatformInfoView, StateView, StopTimeEvent,
    StopTimeUpdate, StopTimeUpdateView, TripDescriptor, TripDescriptorView, TripUpdate, TripUpdateView,
};
use crate::static_data::{pairs_view, Date, GTFSManager, GtfsData};

verus! {

// ---------------------------------------------------------------------------
// Dates and clock times.
/// The day that chrono reads from `YYYY-MM-DD` text, if it reads one.
pub uninterp spec fn iso_day_of(s: Seq<char>) -> Option<int>;

/// Relies on chrono's NaiveDate::parse_from_str with `%Y-%m-%d`: the parsed
/// date depends on the text alone.
#[verifier::external_body]
fn parse_iso_date(s: &str) -> (r: Option<Date>)
    ensures
        match r {
            Some(d) => iso_day_of(s@) == Some(d.day as int),
            None => iso_day_of(s@) is None,
        },
{
    chrono::NaiveDate::parse_from_str(s, "%Y-%m-%d").ok().map(|d| Date { day: d.num_days_from_ce() })
}

/// Relies on chrono's Utc::now: the current time in seconds since the Unix
/// epoch, whatever it is.
#[verifier::external_body]
pub(crate) fn now_timestamp() -> i64 {
    chrono::Utc::now().timestamp()
}

/// The UTC day of a Unix time (1970-01-01 is day 719163).
pub open spec fn utc_day(ts: int) -> int {
    ts / 86400 + 719163
}

fn day_of_timestamp(ts: i64) -> (r: Date)
    ensures
        i32::MIN <= utc_day(ts as int) <= i32::MAX ==> r.day == utc_day(ts as int),
{
    let days: i64 = if ts >= 0 {
        ts / 86400
    } else {
        let back: i64 = -(ts + 1);
        proof {
            let k = back as int / 86400;
            let r = back as int % 86400;
            assert(back as int == k * 86400 + r && 0 <= r < 86400);
            assert(ts as int == (-k - 1) * 86400 + (86399 - r));
            vstd::arithmetic::div_mod::lemma_fundamental_div_mod_converse(
                ts as int,
                86400,
                -k - 1,
                86399 - r,
            );
        }
        -(back / 86400) - 1
    };
    let d: i64 = days + 719163;
    let day: i32 = if d > i32::MAX as i64 {
        i32::MAX
    } else if d < i32::MIN as i64 {
        i32::MIN
    } else {
        d as i32
    };
    Date { day }
}

/// Today's date in UTC.
fn today_utc() -> Date {
    day_of_timestamp(now_timestamp())
}

pub open spec fn is_digit(c: char) -> bool {
    48 <= (c as u32) <= 57
}

pub open spec fn digits_value(s: Seq<char>) -> int
    decreases s.len(),
{
    if s.len() == 0 {
        0
    } else {
        digits_value(s.drop_last()) * 10 + (s.last() as u32 - 48)
    }
}

/// What `u32`'s `FromStr` reads: an optional `+`, then one or more decimal
/// digits whose value fits.
pub open spec fn decimal_u32(s: Seq<char>) -> Option<u32> {
    let d = if s.len() > 0 && s[0] == '+' {
        s.drop_first()
    } else {
        s
    };
    if d.len() > 0 && (forall|i: int| 0 <= i < d.len() ==> is_digit(#[trigger] d[i])) && digits_value(d)
        <= u32::MAX {
        Some(digits_value(d) as u32)
    } else {
        None
    }
}

/// Relies on `u32`'s FromStr, as its documentation describes it.
#[verifier::external_body]
pub(crate) fn parse_u32(s: &str) -> (r: Option<u32>)
    ensures
        r == decimal_u32(s@),
{
    s.parse::<u32>().ok()
}

/// Hours and minutes of `HH:MM` text: exactly one `:` between two numbers.
pub open spec fn clock_of(t: Seq<char>) -> Option<(u32, u32)> {
    match split_at_first(t, ':') {
        Some(p) => if p.1.contains(':') {
            None
        } else {
            match (decimal_u32(p.0), decimal_u32(p.1)) {
                (Some(h), Some(m)) => Some((h, m)),
                _ => None,
            }
        },
        None => None,
    }
}

/// The time a forecast reports: the actual time when present, else the
/// estimate.
pub open spec fn forecast_text(f: Forecast) -> Option<Seq<char>> {
    match f.at {
        Some(a) => Some(a@),
        None => match f.et {
            Some(e) => Some(e@),
            None => None,
        },
    }
}

/// Seconds since the Unix epoch of `HH:MM` on a day, read as UTC
/// (1970-01-01 is day 719163).
pub open spec fn epoch_seconds(day: int, h: int, m: int) -> int {
    (day - 719163) * 86400 + h * 3600 + m * 60
}

pub open spec fn event_time(f: Forecast, ssd: Seq<char>) -> Option<i64> {
    match forecast_text(f) {
        Some(t) => match clock_of(t) {
            Some(hm) => match iso_day_of(ssd) {
                Some(d) => if hm.0 < 24 && hm.1 < 60 {
                    Some(epoch_seconds(d, hm.0 as int, hm.1 as int) as i64)
                } else {
                    None
                },
                None => None,
            },
            None => None,
        },
        None => None,
    }
}

pub open spec fn event_of(f: Forecast, ssd: Seq<char>) -> Option<StopTimeEvent> {
    match event_time(f, ssd) {
        Some(t) => Some(StopTimeEvent { time: Some(t) }),
        None => None,
    }
}

/// The event a forecast gives on the schedule day `ssd`: its `HH:MM` on
/// that day, as UTC.
pub fn parse_time(f: &Forecast, ssd: &str) -> (r: Option<StopTimeEvent>)
    ensures
        r == event_of(*f, ssd@),
{
    let text: &String = match &f.at {
        Some(a) => a,
        None => match &f.et {
            Some(e) => e,
            None => {
                return None;
            },
        },
    };
    let (hs, ms) = match split_once_char(text.as_str(), ':') {
        Some(p) => p,
        None => {
            proof {
                lemma_split_at_first_none(text@, ':');
            }
            return None;
        },
    };
    proof {
        lemma_split_at_first(text@, ':', hs@, ms@);
    }
    match split_once_char(ms.as_str(), ':') {
        Some(tail_split) => {
            assert(ms@[tail_split.0@.len() as int] == ':');
            return None;
        },
        None => {},
    }
    let hour = match parse_u32(hs.as_str()) {
        Some(h) => h,
        None => {
            return None;
        },
    };
    let min = match parse_u32(ms.as_str()) {
        Some(m) => m,
        None => {
            return None;
        },
    };
    let date = match parse_iso_date(ssd) {
        Some(d) => d,
        None => {
            return None;
        },
    };
    if hour >= 24 || min >= 60 {
        return None;
    }
    let ts: i64 = (date.day as i64 - 719163) * 86400 + (hour as i64) * 3600 + (min as i64) * 60;
    Some(StopTimeEvent { time: Some(ts) })
}

/// Whether a forecast carries an estimate or an actual time.
pub open spec fn forecast_has_time(f: Option<Forecast>) -> bool {
    match f {
        Some(x) => x.et is Some || x.at is Some,
        None => false,
    }
}

pub open spec fn location_has_time(loc: Location) -> bool {
    forecast_has_time(loc.arr) || forecast_has_time(loc.dep) || forecast_has_time(loc.pass)
}

pub fn check_forecast(f: &Option<Forecast>) -> (r: bool)
    ensures
        r == forecast_has_time(*f),
{
    match f {
        Some(x) => x.et.is_some() || x.at.is_some(),
        None => false,
    }
}

pub fn has_time_data(loc: &Location) -> (r: bool)
    ensures
        r == location_has_time(*loc),
{
    check_forecast(&loc.arr) || check_forecast(&loc.dep) || check_forecast(&loc.pass)
}

pub open spec fn timed(f: Option<Forecast>, ssd: Seq<char>) -> Option<StopTimeEvent> {
    match f {
        Some(x) => event_of(x, ssd),
        None => None,
    }
}

/// The stop-time update a location gives: its stop, its visit, and the
/// arrival and departure parsed from `arr` and `dep` (a pass gives none).
pub open spec fn update_of(loc: Location, stop_id: Seq<char>, ssd: Seq<char>, seq: Option<u32>) -> StopTimeUpdateView {
    StopTimeUpdateView {
        stop_sequence: seq,
        stop_id: Some(stop_id),
        arrival: timed(loc.arr, ssd),
        departure: timed(loc.dep, ssd),
    }
}

pub fn build_stop_time_update(loc: &Location, stop_id: &str, ssd: &str, seq: Option<u32>) -> (r: StopTimeUpdate)
    ensures
        r@ == update_of(*loc, stop_id@, ssd@, seq),
{
    let arrival = match &loc.arr {
        Some(a) => parse_time(a, ssd),
        None => None,
    };
    let departure = match &loc.dep {
        Some(d) => parse_time(d, ssd),
        None => None,
    };
    StopTimeUpdate { stop_sequence: seq, stop_id: Some(stop_id.to_owned()), arrival, departure }
}

// ---------------------------------------------------------------------------
// The service day of a trip.
/// The `YYYYMMDD` text chrono writes for a day.
pub uninterp spec fn compact_date_text(day: int) -> Seq<char>;

/// Relies on chrono's `format("%Y%m%d")`: the text depends on the day alone.
#[verifier::external_body]
fn format_compact_date(d: Date) -> (r: String)
    ensures
        r@ == compact_date_text(d.day as int),
{
    chrono::NaiveDate::from_num_days_from_ce_opt(d.day).map(|x| x.format("%Y%m%d").to_string()).unwrap_or_default()
}

/// Relies on chrono-tz's Europe/London: whichever occurrence of a local time
/// is taken (the later one when it is ambiguous), its local date is the date
/// of that local time; a local time in a gap has none.
#[verifier::external_body]
fn london_local_day(day: i32, secs: u32) -> (r: Option<i32>)
    ensures
        r is Some ==> r.unwrap() == day,
{
    let date = chrono::NaiveDate::from_num_days_from_ce_opt(day)?;
    let time = chrono::NaiveTime::from_num_seconds_from_midnight_opt(secs, 0)?;
    chrono_tz::Europe::London.from_local_datetime(&date.and_time(time)).latest().map(
        |dt| dt.date_naive().num_days_from_ce(),
    )
}

/// The day on which a trip starting `secs` after the schedule day's
/// midnight departs.
pub open spec fn start_day(date: Date, secs: u32) -> int {
    let d = date.day as int + secs as int / 86400;
    if d <= i32::MAX {
        d
    } else {
        date.day as int
    }
}

pub open spec fn start_date_text(date: Date, start: Option<u32>) -> Seq<char> {
    compact_date_text(
        start_day(
            date,
            match start {
                Some(s) => s,
                None => 0,
            },
        ),
    )
}

/// The `YYYYMMDD` label of the service day: the schedule day plus the first
/// departure, taken as Europe/London local time.
fn service_day_label(date: Date, start_secs: u32) -> (r: String)
    ensures
        r@ == compact_date_text(start_day(date, start_secs)),
{
    let whole_days: u32 = start_secs / 86400;
    let rest: u32 = start_secs % 86400;
    let d: i64 = date.day as i64 + whole_days as i64;
    let naive_day: i32 = if d <= i32::MAX as i64 {
        d as i32
    } else {
        date.day
    };
    let local = match london_local_day(naive_day, rest) {
        Some(x) => x,
        None => naive_day,
    };
    format_compact_date(Date { day: local })
}

// ---------------------------------------------------------------------------
// Folding a TrainStatus.
pub open spec fn stop_is(sid: Seq<char>) -> spec_fn((Seq<char>, u32)) -> bool {
    |p: (Seq<char>, u32)| p.0 == sid
}

/// The first static stop at or after the cursor that is `sid`.
pub open spec fn match_from(stops: Seq<(Seq<char>, u32)>, cursor: int, sid: Seq<char>) -> Option<int> {
    match first_index(stops.skip(cursor), stop_is(sid)) {
        Some(i) => Some(cursor + i),
        None => None,
    }
}

pub open spec fn location_stop(g: GtfsData, loc: Location) -> Option<Seq<char>> {
    match loc.tiploc {
        Some(t) => g.stop_id_of(t@),
        None => None,
    }
}

/// A platform is hidden when the platform or its location says so.
pub open spec fn suppressed(loc: Location, p: Platform) -> bool {
    p.platsup == Some(true) || loc.suppr == Some(true)
}

/// The merge's running state: the cursor into the static stops, the
/// stop-time updates, the platform list, and whether a platform was written.
pub type MergeState = (int, Seq<StopTimeUpdateView>, Seq<PlatformInfoView>, bool);

pub open spec fn merge_step(
    g: GtfsData,
    stops: Seq<(Seq<char>, u32)>,
    ssd: Seq<char>,
    st: MergeState,
    loc: Location,
) -> MergeState {
    match location_stop(g, loc) {
        None => st,
        Some(sid) => {
            let m = match_from(stops, st.0, sid);
            let seq: Option<u32> = match m {
                Some(i) => Some(stops[i].1),
                None => None,
            };
            let cursor = match m {
                Some(i) => i + 1,
                None => st.0,
            };
            let write = match loc.platform {
                Some(p) => !suppressed(loc, p) && p.number is Some && seq is Some,
                None => false,
            };
            let plats = if write {
                put_plat(
                    st.2,
                    PlatformInfoView {
                        stop_id: sid,
                        sequence: seq.unwrap(),
                        platform: loc.platform.unwrap().number.unwrap()@,
                    },
                )
            } else {
                st.2
            };
            let updates = if location_has_time(loc) {
                upsert_update(st.1, update_of(loc, sid, ssd, seq))
            } else {
                st.1
            };
            (cursor, updates, plats, st.3 || write)
        },
    }
}

pub open spec fn merge_fold(
    g: GtfsData,
    stops: Seq<(Seq<char>, u32)>,
    ssd: Seq<char>,
    locs: Seq<Location>,
    init: MergeState,
) -> MergeState
    decreases locs.len(),
{
    if locs.len() == 0 {
        init
    } else {
        merge_step(g, stops, ssd, merge_fold(g, stops, ssd, locs.drop_last(), init), locs.last())
    }
}

pub open spec fn fresh_trip_entity(trip_id: Seq<char>, start_date: Seq<char>) -> FeedEntityView {
    FeedEntityView {
        id: trip_id,
        trip_update: Some(
            TripUpdateView {
                trip: TripDescriptorView { trip_id: Some(trip_id), start_date: Some(start_date) },
                vehicle: None,
                stop_time_update: Seq::empty(),
            },
        ),
        vehicle: None,
    }
}

/// The state after folding one TrainStatus, when its trip resolves on
/// `date`: the rid maps to the trip, the locations are merged into the
/// trip's updates (then sorted by sequence) and into its platform list.
pub open spec fn apply_status(m: StateView, g: GtfsData, ts: TrainStatus, date: Date) -> StateView {
    match g.trip_for(ts.uid@, date) {
        None => m,
        Some(tid) => {
            let rids = m.rids.insert(ts.rid@, tid);
            if m.entities.contains_key(tid) && m.entities[tid].trip_update is None {
                StateView { entities: m.entities, platforms: m.platforms, rids, messages: m.messages }
            } else {
                let stops = match g.stops_of(tid) {
                    Some(s) => s,
                    None => Seq::empty(),
                };
                let base = if m.entities.contains_key(tid) {
                    m.entities[tid]
                } else {
                    fresh_trip_entity(tid, start_date_text(date, g.start_time_of(tid)))
                };
                let tu = base.trip_update.unwrap();
                let plats0 = if m.platforms.contains_key(tid) {
                    m.platforms[tid]
                } else {
                    Seq::empty()
                };
                let f = merge_fold(g, stops, ts.ssd@, ts.locations@, (0, tu.stop_time_update, plats0, false));
                let entity = FeedEntityView {
                    id: base.id,
                    trip_update: Some(
                        TripUpdateView {
                            trip: tu.trip,
                            vehicle: tu.vehicle,
                            stop_time_update: sort_updates(f.1),
                        },
                    ),
                    vehicle: base.vehicle,
                };
                StateView {
                    entities: m.entities.insert(tid, entity),
                    platforms: if f.3 {
                        m.platforms.insert(tid, f.2)
                    } else {
                        m.platforms
                    },
                    rids,
                    messages: m.messages,
                }
            }
        },
    }
}

fn match_stop(stops: &Vec<(String, u32)>, from: usize, sid: &String) -> (r: Option<usize>)
    requires
        from <= stops@.len(),
    ensures
        match r {
            Some(i) => from <= i < stops@.len() && match_from(pairs_view(stops@), from as int, sid@) == Some(
                i as int,
            ),
            None => match_from(pairs_view(stops@), from as int, sid@) is None,
        },
{
    let ghost rest = pairs_view(stops@).skip(from as int);
    let mut i: usize = from;
    while i < stops.len()
        invariant
            from <= i <= stops@.len(),
            rest == pairs_view(stops@).skip(from as int),
            forall|j: int| 0 <= j < i - from ==> !stop_is(sid@)(#[trigger] rest[j]),
        decreases stops@.len() - i,
    {
        if stops[i].0 == *sid {
            proof {
                lemma_first_index_is(rest, stop_is(sid@), Some(i - from));
            }
            return Some(i);
        }
        i = i + 1;
    }
    proof {
        lemma_first_index_is(rest, stop_is(sid@), None);
    }
    None
}

fn is_suppressed(loc: &Location, p: &Platform) -> (r: bool)
    ensures
        r == suppressed(*loc, *p),
{
    let a = match p.platsup {
        Some(b) => b,
        None => false,
    };
    let b = match loc.suppr {
        Some(x) => x,
        None => false,
    };
    a || b
}

/// Merges the locations of a TrainStatus, in document order, into the
/// trip's updates and platform list.
fn merge_locations(
    gtfs: &GTFSManager,
    ts: &TrainStatus,
    stops: &Vec<(String, u32)>,
    updates: &mut Vec<StopTimeUpdate>,
    plats: &mut Vec<PlatformInfo>,
) -> (wrote: bool)
    ensures
        merge_fold(
            gtfs.data,
            pairs_view(stops@),
            ts.ssd@,
            ts.locations@,
            (0, updates_view(old(updates)@), platforms_view(old(plats)@), false),
        ) == (
            merge_fold(
                gtfs.data,
                pairs_view(stops@),
                ts.ssd@,
                ts.locations@,
                (0, updates_view(old(updates)@), platforms_view(old(plats)@), false),
            ).0,
            updates_view(final(updates)@),
            platforms_view(final(plats)@),
            wrote,
        ),
{
    let ghost init: MergeState = (0, updates_view(updates@), platforms_view(plats@), false);
    let ghost g = gtfs.data;
    let ghost sv = pairs_view(stops@);
    let mut cursor: usize = 0;
    let mut wrote = false;
    let mut i: usize = 0;
    while i < ts.locations.len()
        invariant
            i <= ts.locations@.len(),
            cursor <= stops@.len(),
            init == (0int, updates_view(old(updates)@), platforms_view(old(plats)@), false),
            g == gtfs.data,
            sv == pairs_view(stops@),
            merge_fold(g, sv, ts.ssd@, ts.locations@.take(i as int), init) == (
                cursor as int,
                updates_view(updates@),
                platforms_view(plats@),
                wrote,
            ),
        decreases ts.locations@.len() - i,
    {
        let loc = &ts.locations[i];
        proof {
            assert(ts.locations@.take(i + 1).drop_last() =~= ts.locations@.take(i as int));
        }
        match &loc.tiploc {
            Some(tpl) => match gtfs.get_stop_id(tpl.as_str()) {
                Some(sid) => {
                    let m = match_stop(stops, cursor, &sid);
                    let seq: Option<u32> = match m {
                        Some(j) => Some(stops[j].1),
                        None => None,
                    };
                    match m {
                        Some(j) => {
                            let n = stops.len();
                            assert(j < n);
                            cursor = j + 1;
                        },
                        None => {},
                    }
                    match &loc.platform {
                        Some(p) => {
                            if !is_suppressed(loc, p) {
                                match &p.number {
                                    Some(num) => match seq {
                                        Some(q) => {
                                            put_platform(
                                                plats,
                                                PlatformInfo {
                                                    stop_id: sid.clone(),
                                                    sequence: q,
                                                    platform: num.clone(),
                                                },
                                            );
                                            wrote = true;
                                        },
                                        None => {},
                                    },
                                    None => {},
                                }
                            }
                        },
                        None => {},
                    }
                    if has_time_data(loc) {
                        let stu = build_stop_time_update(loc, sid.as_str(), ts.ssd.as_str(), seq);
                        upsert_stop_time(updates, stu);
                    }
                },
                None => {},
            },
            None => {},
        }
        i = i + 1;
    }
    proof {
        assert(ts.locations@.take(i as int) =~= ts.locations@);
    }
    wrote
}

pub proof fn lemma_merge_fold_wf(
    g: GtfsData,
    stops: Seq<(Seq<char>, u32)>,
    ssd: Seq<char>,
    locs: Seq<Location>,
    init: MergeState,
)
    requires
        unique_by(init.1, update_visit()),
        plats_sorted(init.2),
    ensures
        unique_by(merge_fold(g, stops, ssd, locs, init).1, update_visit()),
        plats_sorted(merge_fold(g, stops, ssd, locs, init).2),
    decreases locs.len(),
{
    if locs.len() > 0 {
        let prev = merge_fold(g, stops, ssd, locs.drop_last(), init);
        lemma_merge_fold_wf(g, stops, ssd, locs.drop_last(), init);
        let loc = locs.last();
        match location_stop(g, loc) {
            Some(sid) => {
                let m = match_from(stops, prev.0, sid);
                let seq: Option<u32> = match m {
                    Some(i) => Some(stops[i].1),
                    None => None,
                };
                if location_has_time(loc) {
                    lemma_upsert_update_unique(prev.1, update_of(loc, sid, ssd, seq));
                }
                if loc.platform is Some && seq is Some {
                    let p = loc.platform.unwrap();
                    if p.number is Some {
                        lemma_put_plat(
                            prev.2,
                            PlatformInfoView { stop_id: sid, sequence: seq.unwrap(), platform: p.number.unwrap()@ },
                        );
                    }
                }
            },
            None => {},
        }
    }
}

/// Folds one TrainStatus whose schedule day is `date`.
pub fn update_trip_on(ts: &TrainStatus, date: Date, state: &mut AppState)
    requires
        old(state).wf(),
    ensures
        final(state)@ == apply_status(old(state)@, old(state).gtfs.data, *ts, date),
        final(state).gtfs == old(state).gtfs,
        final(state).wf(),
{
    let ghost m0 = state@;
    let trip_id = match state.gtfs.find_trip_id(ts.uid.as_str(), date) {
        Some(t) => t,
        None => {
            return ;
        },
    };
    text_insert(&mut state.rid_to_trip_id, ts.rid.as_str(), trip_id.clone());
    let entity = match entity_get(&state.trip_updates, trip_id.as_str()) {
        Some(e) => e,
        None => {
            let start = match state.gtfs.get_trip_start_time(trip_id.as_str()) {
                Some(x) => x,
                None => 0,
            };
            let label = service_day_label(date, start);
            let empty: Vec<StopTimeUpdate> = Vec::new();
            assert(updates_view(empty@) =~= Seq::<StopTimeUpdateView>::empty());
            FeedEntity {
                id: trip_id.clone(),
                trip_update: Some(
                    TripUpdate {
                        trip: TripDescriptor { trip_id: Some(trip_id.clone()), start_date: Some(label) },
                        vehicle: None,
                        stop_time_update: empty,
                    },
                ),
                vehicle: None,
            }
        },
    };
    let ghost base = entity@;
    let FeedEntity { id, trip_update, vehicle } = entity;
    let tu = match trip_update {
        Some(tu) => tu,
        None => {
            assert(state@.entities =~= m0.entities);
            return ;
        },
    };
    let TripUpdate { trip, vehicle: tu_vehicle, stop_time_update } = tu;
    let trip_stops = match state.gtfs.get_trip_stops(trip_id.as_str()) {
        Some(v) => v,
        None => {
            let v: Vec<(String, u32)> = Vec::new();
            assert(pairs_view(v@) =~= Seq::<(Seq<char>, u32)>::empty());
            v
        },
    };
    let mut updates = stop_time_update;
    assert(updates_view(updates@) == base.trip_update.unwrap().stop_time_update) by {
        if !m0.entities.contains_key(trip_id@) {
            assert(updates_view(updates@) =~= Seq::<StopTimeUpdateView>::empty());
        }
    }
    let mut plats = match platform_get(&state.platforms_v2, trip_id.as_str()) {
        Some(v) => v,
        None => {
            let v: Vec<PlatformInfo> = Vec::new();
            assert(platforms_view(v@) =~= Seq::<PlatformInfoView>::empty());
            v
        },
    };
    let ghost init: MergeState = (0, updates_view(updates@), platforms_view(plats@), false);
    proof {
        lemma_merge_fold_wf(state.gtfs.data, pairs_view(trip_stops@), ts.ssd@, ts.locations@, init);
    }
    let wrote = merge_locations(&state.gtfs, ts, &trip_stops, &mut updates, &mut plats);
    let ghost upd_after = updates_view(updates@);
    let ghost plats_after = platforms_view(plats@);
    let ghost stops_v = pairs_view(trip_stops@);
    proof {
        lemma_sort_updates_wf(updates_view(updates@));
    }
    let sorted = sort_stop_times(updates);
    let new_entity = FeedEntity {
        id,
        trip_update: Some(TripUpdate { trip, vehicle: tu_vehicle, stop_time_update: sorted }),
        vehicle,
    };
    entity_insert(&mut state.trip_updates, trip_id.as_str(), new_entity);
    if wrote {
        platform_insert(&mut state.platforms_v2, trip_id.as_str(), plats);
    }
    proof {
        let e = apply_status(m0, state.gtfs.data, *ts, date);
        let g = state.gtfs.data;
        let tid = trip_id@;
        let stops = match g.stops_of(tid) {
            Some(s) => s,
            None => Seq::empty(),
        };
        assert(stops == stops_v);
        let plats0 = if m0.platforms.contains_key(tid) {
            m0.platforms[tid]
        } else {
            Seq::empty()
        };
        assert(init.2 == plats0);
        assert(init.1 == base.trip_update.unwrap().stop_time_update);
        let f = merge_fold(g, stops, ts.ssd@, ts.locations@, init);
        assert(f.2 == plats_after);
        assert(!(m0.entities.contains_key(tid) && m0.entities[tid].trip_update is None));
        let base_spec = if m0.entities.contains_key(tid) {
            m0.entities[tid]
        } else {
            fresh_trip_entity(tid, start_date_text(date, g.start_time_of(tid)))
        };
        assert(base == base_spec);
        assert(e.platforms == if f.3 { m0.platforms.insert(tid, f.2) } else { m0.platforms });
    }
}

/// Folds one TrainStatus: its schedule day is read from `ssd`, or is today
/// in UTC when `ssd` does not read as a date.
pub fn update_trip(ts: &TrainStatus, state: &mut AppState)
    requires
        old(state).wf(),
    ensures
        final(state).gtfs == old(state).gtfs,
        final(state).wf(),
        exists|d: Date|
            #![auto]
            final(state)@ == apply_status(old(state)@, old(state).gtfs.data, *ts, d) && (iso_day_of(
                ts.ssd@,
            ) is Some ==> iso_day_of(ts.ssd@) == Some(d.day as int)),
{
    let date = match parse_iso_date(ts.ssd.as_str()) {
        Some(d) => d,
        None => today_utc(),
    };
    update_trip_on(ts, date, state);
}

// ---------------------------------------------------------------------------
// Consist sidecars: the vehicle position entity `{trip_id}_VP`.
pub open spec fn vp_key(trip_id: Seq<char>) -> Seq<char> {
    trip_id + "_VP"@
}

pub open spec fn fresh_vp_entity(key: Seq<char>, trip_id: Seq<char>) -> FeedEntityView {
    FeedEntityView {
        id: key,
        trip_update: None,
        vehicle: Some(
            VehiclePositionView {
                trip: Some(TripDescriptorView { trip_id: Some(trip_id), start_date: None }),
                vehicle: None,
                stop_id: None,
                multi_carriage_details: Seq::empty(),
            },
        ),
    }
}

/// The sidecar under `key`: the stored one, or a new one bound to the trip.
pub open spec fn vp_base(m: StateView, key: Seq<char>, trip_id: Seq<char>) -> FeedEntityView {
    if m.entities.contains_key(key) {
        m.entities[key]
    } else {
        fresh_vp_entity(key, trip_id)
    }
}

/// One ranked slot of a TrainOrder: the slot's train gets carriage detail
/// `rank` in its trip's sidecar, and the sidecar's stop becomes the order's.
pub open spec fn apply_slot(
    m: StateView,
    g: GtfsData,
    to: TrainOrder,
    slot: Option<TrainOrderItem>,
    rank: u32,
) -> StateView {
    match slot {
        None => m,
        Some(item) => match item.rid {
            None => m,
            Some(r) => if !m.rids.contains_key(r.value@) {
                m
            } else {
                let tid = m.rids[r.value@];
                let key = vp_key(tid);
                let base = vp_base(m, key, tid);
                match base.vehicle {
                    None => m,
                    Some(vp) => {
                        let stop = match g.stop_id_of(to.tiploc@) {
                            Some(s) => Some(s),
                            None => vp.stop_id,
                        };
                        let cd = CarriageDetailsView {
                            id: Some(r.value@),
                            label: opt_view(item.train_id),
                            carriage_sequence: Some(rank),
                        };
                        let vp2 = VehiclePositionView {
                            trip: vp.trip,
                            vehicle: vp.vehicle,
                            stop_id: stop,
                            multi_carriage_details: place_carriage(vp.multi_carriage_details, cd, rank),
                        };
                        StateView {
                            entities: m.entities.insert(
                                key,
                                FeedEntityView { id: base.id, trip_update: base.trip_update, vehicle: Some(vp2) },
                            ),
                            platforms: m.platforms,
                            rids: m.rids,
                            messages: m.messages,
                        }
                    },
                }
            },
        },
    }
}

pub open spec fn apply_order(m: StateView, g: GtfsData, to: TrainOrder) -> StateView {
    match to.set {
        None => m,
        Some(set) => apply_slot(
            apply_slot(apply_slot(m, g, to, set.first, 1), g, to, set.second, 2),
            g,
            to,
            set.third,
            3,
        ),
    }
}

fn vp_key_of(trip_id: &String) -> (r: String)
    ensures
        r@ == vp_key(trip_id@),
{
    let mut k = trip_id.clone();
    k.append("_VP");
    k
}

fn new_vp_entity(key: String, trip_id: &String) -> (r: FeedEntity)
    ensures
        r@ == fresh_vp_entity(key@, trip_id@),
{
    let cars: Vec<CarriageDetails> = Vec::new();
    assert(carriages_view(cars@) =~= Seq::<CarriageDetailsView>::empty());
    FeedEntity {
        id: key,
        trip_update: None,
        vehicle: Some(
            VehiclePosition {
                trip: Some(TripDescriptor { trip_id: Some(trip_id.clone()), start_date: None }),
                vehicle: None,
                stop_id: None,
                multi_carriage_details: cars,
            },
        ),
    }
}

fn clone_opt(o: &Option<String>) -> (r: Option<String>)
    ensures
        opt_view(r) == opt_view(*o),
{
    match o {
        Some(s) => Some(s.clone()),
        None => None,
    }
}

fn fetch_vp(state: &AppState, trip_id: &String) -> (r: (String, FeedEntity))
    ensures
        r.0@ == vp_key(trip_id@),
        r.1@ == vp_base(state@, vp_key(trip_id@), trip_id@),
{
    let key = vp_key_of(trip_id);
    let entity = match entity_get(&state.trip_updates, key.as_str()) {
        Some(e) => e,
        None => new_vp_entity(key.clone(), trip_id),
    };
    (key, entity)
}

fn apply_order_slot(to: &TrainOrder, slot: &Option<TrainOrderItem>, rank: u32, state: &mut AppState)
    requires
        old(state).wf(),
        1 <= rank <= 3,
    ensures
        final(state)@ == apply_slot(old(state)@, old(state).gtfs.data, *to, *slot, rank),
        final(state).gtfs == old(state).gtfs,
        final(state).wf(),
{
    let item = match slot {
        Some(i) => i,
        None => {
            return ;
        },
    };
    let rid_data = match &item.rid {
        Some(r) => r,
        None => {
            return ;
        },
    };
    let trip_id = match text_get(&state.rid_to_trip_id, rid_data.value.as_str()) {
        Some(t) => t,
        None => {
            return ;
        },
    };
    let (key, entity) = fetch_vp(state, &trip_id);
    let ghost base = entity@;
    let FeedEntity { id, trip_update, vehicle } = entity;
    let vp = match vehicle {
        Some(v) => v,
        None => {
            return ;
        },
    };
    let VehiclePosition { trip, vehicle: descriptor, stop_id, multi_carriage_details } = vp;
    let stop = match state.gtfs.get_stop_id(to.tiploc.as_str()) {
        Some(s) => Some(s),
        None => stop_id,
    };
    let cd = CarriageDetails {
        id: Some(rid_data.value.clone()),
        label: clone_opt(&item.train_id),
        carriage_sequence: Some(rank),
    };
    proof {
        if state@.entities.contains_key(key@) {
            assert(state@.entities[key@] == base);
        }
        lemma_place_carriage_wf(base.vehicle.unwrap().multi_carriage_details, cd@, rank);
    }
    let cars = place_carriage_exec(multi_carriage_details, cd, rank);
    let updated = FeedEntity {
        id,
        trip_update,
        vehicle: Some(
            VehiclePosition { trip, vehicle: descriptor, stop_id: stop, multi_carriage_details: cars },
        ),
    };
    entity_insert(&mut state.trip_updates, key.as_str(), updated);
}

/// Ranks the trains of a TrainOrder: each slot's train gets its rank as a
/// carriage detail of its trip's sidecar. The platform list is not touched.
pub fn update_trip_from_order(to: &TrainOrder, state: &mut AppState)
    requires
        old(state).wf(),
    ensures
        final(state)@ == apply_order(old(state)@, old(state).gtfs.data, *to),
        final(state).gtfs == old(state).gtfs,
        final(state).wf(),
{
    match &to.set {
        Some(set) => {
            apply_order_slot(to, &set.first, 1, state);
            apply_order_slot(to, &set.second, 2, state);
            apply_order_slot(to, &set.third, 3, state);
        },
        None => {},
    }
}

// ---------------------------------------------------------------------------
// Formations.
/// Coach numbers joined by `-`, in declaration order.
pub open spec fn coach_label(cs: Seq<Coach>) -> Seq<char>
    decreases cs.len(),
{
    if cs.len() == 0 {
        Seq::empty()
    } else if cs.len() == 1 {
        cs[0].number@
    } else {
        coach_label(cs.drop_last()) + "-"@ + cs.last().number@
    }
}

pub fn formation_label(cs: &Vec<Coach>) -> (r: String)
    ensures
        r@ == coach_label(cs@),
{
    let mut label = String::new();
    let mut i: usize = 0;
    while i < cs.len()
        invariant
            i <= cs@.len(),
            label@ == coach_label(cs@.take(i as int)),
        decreases cs@.len() - i,
    {
        let ghost before = label@;
        if i > 0 {
            label.append("-");
        }
        label.append(cs[i].number.as_str());
        proof {
            assert(cs@.take(i + 1).drop_last() =~= cs@.take(i as int));
            if i == 0 {
                assert(before =~= Seq::<char>::empty());
                assert(label@ =~= cs@.take(1)[0].number@);
            }
        }
        i = i + 1;
    }
    assert(cs@.take(i as int) =~= cs@);
    label
}

pub open spec fn labelled(label: Seq<char>) -> Option<VehicleDescriptorView> {
    Some(VehicleDescriptorView { label: Some(label) })
}

/// A Formation labels the trip's vehicle, in its trip update and in its
/// sidecar, with the coach numbers joined by `-`.
pub open spec fn apply_formation(m: StateView, f: Formation) -> StateView {
    if !m.rids.contains_key(f.rid@) {
        m
    } else {
        let tid = m.rids[f.rid@];
        let label = coach_label(f.coaches@);
        let entities1 = if m.entities.contains_key(tid) && m.entities[tid].trip_update is Some {
            let e = m.entities[tid];
            let tu = e.trip_update.unwrap();
            m.entities.insert(
                tid,
                FeedEntityView {
                    id: e.id,
                    trip_update: Some(
                        TripUpdateView {
                            trip: tu.trip,
                            vehicle: labelled(label),
                            stop_time_update: tu.stop_time_update,
                        },
                    ),
                    vehicle: e.vehicle,
                },
            )
        } else {
            m.entities
        };
        let m1 = StateView { entities: entities1, platforms: m.platforms, rids: m.rids, messages: m.messages };
        let key = vp_key(tid);
        let base = vp_base(m1, key, tid);
        match base.vehicle {
            None => m1,
            Some(vp) => StateView {
                entities: entities1.insert(
                    key,
                    FeedEntityView {
                        id: base.id,
                        trip_update: base.trip_update,
                        vehicle: Some(
                            VehiclePositionView {
                                trip: vp.trip,
                                vehicle: labelled(label),
                                stop_id: vp.stop_id,
                                multi_carriage_details: vp.multi_carriage_details,
                            },
                        ),
                    },
                ),
                platforms: m.platforms,
                rids: m.rids,
                messages: m.messages,
            },
        }
    }
}

pub fn process_formation(formation: &Formation, state: &mut AppState)
    requires
        old(state).wf(),
    ensures
        final(state)@ == apply_formation(old(state)@, *formation),
        final(state).gtfs == old(state).gtfs,
        final(state).wf(),
{
    let trip_id = match text_get(&state.rid_to_trip_id, formation.rid.as_str()) {
        Some(t) => t,
        None => {
            return ;
        },
    };
    let label = formation_label(&formation.coaches);
    match entity_get(&state.trip_updates, trip_id.as_str()) {
        Some(e) => {
            let FeedEntity { id, trip_update, vehicle } = e;
            match trip_update {
                Some(tu) => {
                    let TripUpdate { trip, vehicle: _, stop_time_update } = tu;
                    let updated = FeedEntity {
                        id,
                        trip_update: Some(
                            TripUpdate {
                                trip,
                                vehicle: Some(VehicleDescriptor { label: Some(label.clone()) }),
                                stop_time_update,
                            },
                        ),
                        vehicle,
                    };
                    entity_insert(&mut state.trip_updates, trip_id.as_str(), updated);
                },
                None => {},
            }
        },
        None => {},
    }
    let (key, entity) = fetch_vp(state, &trip_id);
    let FeedEntity { id, trip_update, vehicle } = entity;
    match vehicle {
        Some(vp) => {
            let VehiclePosition { trip, vehicle: _, stop_id, multi_carriage_details } = vp;
            let updated = FeedEntity {
                id,
                trip_update,
                vehicle: Some(
                    VehiclePosition {
                        trip,
                        vehicle: Some(VehicleDescriptor { label: Some(label) }),
                        stop_id,
                        multi_carriage_details,
                    },
                ),
            };
            entity_insert(&mut state.trip_updates, key.as_str(), updated);
        },
        None => {},
    }
}

// ---------------------------------------------------------------------------
// Station messages and loading.
pub open spec fn message_text(msg: StationMessage) -> Seq<char> {
    msg.category@ + ": "@ + msg.message@
}

pub open spec fn apply_message(m: StateView, msg: StationMessage) -> StateView {
    StateView {
        entities: m.entities,
        platforms: m.platforms,
        rids: m.rids,
        messages: m.messages.insert(msg.id@, message_text(msg)),
    }
}

/// Stores `"{category}: {body}"` under the message id; the last one wins.
pub fn process_station_message(msg: &StationMessage, state: &mut AppState)
    requires
        old(state).wf(),
    ensures
        final(state)@ == apply_message(old(state)@, *msg),
        final(state).gtfs == old(state).gtfs,
        final(state).wf(),
{
    let mut text = msg.category.clone();
    text.append(": ");
    text.append(msg.message.as_str());
    text_insert(&mut state.station_messages, msg.id.as_str(), text);
}

/// Resolves the loading record's train; nothing is stored yet.
pub fn process_loading(load: &Loading, state: &AppState) {
    let _trip = text_get(&state.rid_to_trip_id, load.rid.as_str());
}

// ---------------------------------------------------------------------------
// A whole Push Port document.
/// The schedule day of a TrainStatus: its `ssd`, or `today` when that does
/// not read as a date.
pub open spec fn status_date(ts: TrainStatus, today: Date) -> Date {
    match iso_day_of(ts.ssd@) {
        Some(d) => Date { day: d as i32 },
        None => today,
    }
}

pub open spec fn apply_statuses(m: StateView, g: GtfsData, s: Seq<TrainStatus>, today: Date) -> StateView
    decreases s.len(),
{
    if s.len() == 0 {
        m
    } else {
        apply_status(apply_statuses(m, g, s.drop_last(), today), g, s.last(), status_date(s.last(), today))
    }
}

pub open spec fn apply_orders(m: StateView, g: GtfsData, s: Seq<TrainOrder>) -> StateView
    decreases s.len(),
{
    if s.len() == 0 {
        m
    } else {
        apply_order(apply_orders(m, g, s.drop_last()), g, s.last())
    }
}

pub open spec fn apply_messages(m: StateView, s: Seq<StationMessage>) -> StateView
    decreases s.len(),
{
    if s.len() == 0 {
        m
    } else {
        apply_message(apply_messages(m, s.drop_last()), s.last())
    }
}

pub open spec fn apply_formations(m: StateView, s: Seq<Formation>) -> StateView
    decreases s.len(),
{
    if s.len() == 0 {
        m
    } else {
        apply_formation(apply_formations(m, s.drop_last()), s.last())
    }
}

/// The variants of the update record, in their fixed order: statuses,
/// orders, station messages, loading (which stores nothing), formations.
/// The schedule record is ignored.
pub open spec fn apply_pport(m: StateView, g: GtfsData, p: Pport, today: Date) -> StateView {
    match p.update_record {
        Some(ur) => apply_formations(
            apply_messages(
                apply_orders(apply_statuses(m, g, ur.train_status@, today), g, ur.train_order@),
                ur.station_message@,
            ),
            ur.formation@,
        ),
        None => m,
    }
}

/// Folds a Push Port document, reading a schedule day that does not parse
/// as `today`.
pub fn process_pmap_on(pport: &Pport, today: Date, state: &mut AppState)
    requires
        old(state).wf(),
    ensures
        final(state)@ == apply_pport(old(state)@, old(state).gtfs.data, *pport, today),
        final(state).gtfs == old(state).gtfs,
        final(state).wf(),
{
    let ur = match &pport.update_record {
        Some(u) => u,
        None => {
            return ;
        },
    };
    let ghost g = state.gtfs.data;
    let ghost m0 = state@;
    let mut i: usize = 0;
    while i < ur.train_status.len()
        invariant
            i <= ur.train_status@.len(),
            state.wf(),
            state.gtfs == old(state).gtfs,
            g == old(state).gtfs.data,
            m0 == old(state)@,
            state@ == apply_statuses(m0, g, ur.train_status@.take(i as int), today),
        decreases ur.train_status@.len() - i,
    {
        let ts = &ur.train_status[i];
        let date = match parse_iso_date(ts.ssd.as_str()) {
            Some(d) => d,
            None => today,
        };
        update_trip_on(ts, date, state);
        proof {
            assert(ur.train_status@.take(i + 1).drop_last() =~= ur.train_status@.take(i as int));
        }
        i = i + 1;
    }
    assert(ur.train_status@.take(i as int) =~= ur.train_status@);
    let ghost m1 = state@;
    let mut i: usize = 0;
    while i < ur.train_order.len()
        invariant
            i <= ur.train_order@.len(),
            state.wf(),
            state.gtfs == old(state).gtfs,
            g == old(state).gtfs.data,
            state@ == apply_orders(m1, g, ur.train_order@.take(i as int)),
        decreases ur.train_order@.len() - i,
    {
        update_trip_from_order(&ur.train_order[i], state);
        proof {
            assert(ur.train_order@.take(i + 1).drop_last() =~= ur.train_order@.take(i as int));
        }
        i = i + 1;
    }
    assert(ur.train_order@.take(i as int) =~= ur.train_order@);
    let ghost m2 = state@;
    let mut i: usize = 0;
    while i < ur.station_message.len()
        invariant
            i <= ur.station_message@.len(),
            state.wf(),
            state.gtfs == old(state).gtfs,
            state@ == apply_messages(m2, ur.station_message@.take(i as int)),
        decreases ur.station_message@.len() - i,
    {
        process_station_message(&ur.station_message[i], state);
        proof {
            assert(ur.station_message@.take(i + 1).drop_last() =~= ur.station_message@.take(i as int));
        }
        i = i + 1;
    }
    assert(ur.station_message@.take(i as int) =~= ur.station_message@);
    let mut i: usize = 0;
    while i < ur.loading.len()
        invariant
            i <= ur.loading@.len(),
            state.wf(),
            state.gtfs == old(state).gtfs,
            state@ == apply_messages(m2, ur.station_message@),
        decreases ur.loading@.len() - i,
    {
        process_loading(&ur.loading[i], state);
        i = i + 1;
    }
    let mut i: usize = 0;
    while i < ur.loading_alias.len()
        invariant
            i <= ur.loading_alias@.len(),
            state.wf(),
            state.gtfs == old(state).gtfs,
            state@ == apply_messages(m2, ur.station_message@),
        decreases ur.loading_alias@.len() - i,
    {
        process_loading(&ur.loading_alias[i], state);
        i = i + 1;
    }
    let ghost m3 = state@;
    let mut i: usize = 0;
    while i < ur.formation.len()
        invariant
            i <= ur.formation@.len(),
            state.wf(),
            state.gtfs == old(state).gtfs,
            state@ == apply_formations(m3, ur.formation@.take(i as int)),
        decreases ur.formation@.len() - i,
    {
        process_formation(&ur.formation[i], state);
        proof {
            assert(ur.formation@.take(i + 1).drop_last() =~= ur.formation@.take(i as int));
        }
        i = i + 1;
    }
    assert(ur.formation@.take(i as int) =~= ur.formation@);
}

/// Folds a Push Port document into the state.
pub fn process_pmap(pport: Pport, state: &mut AppState)
    requires
        old(state).wf(),
    ensures
        exists|today: Date| #[trigger]
            apply_pport(old(state)@, old(state).gtfs.data, pport, today) == final(state)@,
        final(state).gtfs == old(state).gtfs,
        final(state).wf(),
{
    let today = today_utc();
    process_pmap_on(&pport, today, state);
}

// ---------------------------------------------------------------------------
// What holds of every fold.
/// Folding a TrainStatus whose trip resolves maps its rid to a trip that has
/// an entity in the resulting state.
pub proof fn lemma_rid_maps_to_entity(m: StateView, g: GtfsData, ts: TrainStatus, date: Date)
    requires
        g.trip_for(ts.uid@, date) is Some,
    ensures
        apply_status(m, g, ts, date).rids == m.rids.insert(ts.rid@, g.trip_for(ts.uid@, date).unwrap()),
        apply_status(m, g, ts, date).entities.contains_key(g.trip_for(ts.uid@, date).unwrap()),
{
}

/// A location whose platform is suppressed writes no platform.
pub proof fn lemma_suppressed_step(
    g: GtfsData,
    stops: Seq<(Seq<char>, u32)>,
    ssd: Seq<char>,
    st: MergeState,
    loc: Location,
)
    requires
        loc.platform is Some,
        suppressed(loc, loc.platform.unwrap()),
    ensures
        merge_step(g, stops, ssd, st, loc).2 == st.2,
        merge_step(g, stops, ssd, st, loc).3 == st.3,
{
}

/// When every platform of a TrainStatus is suppressed, folding it leaves the
/// platform lists as they were.
pub proof fn lemma_suppressed_not_written(m: StateView, g: GtfsData, ts: TrainStatus, date: Date)
    requires
        forall|i: int|
            0 <= i < ts.locations@.len() && (#[trigger] ts.locations@[i]).platform is Some ==> suppressed(
                ts.locations@[i],
                ts.locations@[i].platform.unwrap(),
            ),
    ensures
        apply_status(m, g, ts, date).platforms == m.platforms,
{
    match g.trip_for(ts.uid@, date) {
        Some(tid) => {
            if !(m.entities.contains_key(tid) && m.entities[tid].trip_update is None) {
                let stops = match g.stops_of(tid) {
                    Some(s) => s,
                    None => Seq::empty(),
                };
                let base = if m.entities.contains_key(tid) {
                    m.entities[tid]
                } else {
                    fresh_trip_entity(tid, start_date_text(date, g.start_time_of(tid)))
                };
                let plats0 = if m.platforms.contains_key(tid) {
                    m.platforms[tid]
                } else {
                    Seq::empty()
                };
                lemma_fold_keeps_suppressed(
                    g,
                    stops,
                    ts.ssd@,
                    ts.locations@,
                    (0, base.trip_update.unwrap().stop_time_update, plats0, false),
                );
            }
        },
        None => {},
    }
}

proof fn lemma_fold_keeps_suppressed(
    g: GtfsData,
    stops: Seq<(Seq<char>, u32)>,
    ssd: Seq<char>,
    locs: Seq<Location>,
    init: MergeState,
)
    requires
        forall|i: int|
            0 <= i < locs.len() && (#[trigger] locs[i]).platform is Some ==> suppressed(
                locs[i],
                locs[i].platform.unwrap(),
            ),
    ensures
        merge_fold(g, stops, ssd, locs, init).2 == init.2,
        merge_fold(g, stops, ssd, locs, init).3 == init.3,
    decreases locs.len(),
{
    if locs.len() > 0 {
        assert forall|i: int|
            0 <= i < locs.drop_last().len() && (#[trigger] locs.drop_last()[i]).platform is Some implies suppressed(
            locs.drop_last()[i],
            locs.drop_last()[i].platform.unwrap(),
        ) by {
            assert(locs.drop_last()[i] == locs[i]);
        }
        lemma_fold_keeps_suppressed(g, stops, ssd, locs.drop_last(), init);
        assert(locs.last() == locs[locs.len() - 1]);
    }
}

/// A TrainOrder never changes the platform lists.
pub proof fn lemma_order_keeps_platforms(m: StateView, g: GtfsData, to: TrainOrder)
    ensures
        apply_order(m, g, to).platforms == m.platforms,
{
}

/// After a TrainOrder slot resolves, its trip's sidecar holds a vehicle
/// position and no trip update, unless that key already held a trip update.
pub proof fn lemma_order_sidecar(m: StateView, g: GtfsData, to: TrainOrder, item: TrainOrderItem, rank: u32)
    requires
        m.wf(),
        item.rid is Some,
        m.rids.contains_key(item.rid.unwrap().value@),
    ensures
        ({
            let key = vp_key(m.rids[item.rid.unwrap().value@]);
            let r = apply_slot(m, g, to, Some(item), rank);
            (!m.entities.contains_key(key) || m.entities[key].vehicle is Some) ==> (r.entities.contains_key(key)
                && r.entities[key].vehicle is Some && r.entities[key].trip_update is None)
        }),
{
    let key = vp_key(m.rids[item.rid.unwrap().value@]);
    if m.entities.contains_key(key) {
        assert(crate::state::entity_wf(key, m.entities[key]));
    }
}

/// After a Formation resolves, its trip's sidecar holds a vehicle position
/// and no trip update, unless that key already held a trip update.
pub proof fn lemma_formation_sidecar(m: StateView, f: Formation)
    requires
        m.wf(),
        m.rids.contains_key(f.rid@),
    ensures
        ({
            let key = vp_key(m.rids[f.rid@]);
            let r = apply_formation(m, f);
            (!m.entities.contains_key(key) || m.entities[key].vehicle is Some) ==> (r.entities.contains_key(key)
                && r.entities[key].vehicle is Some && r.entities[key].trip_update is None)
        }),
{
    let tid = m.rids[f.rid@];
    let key = vp_key(tid);
    if m.entities.contains_key(key) {
        assert(crate::state::entity_wf(key, m.entities[key]));
    }
    reveal_strlit("_VP");
    assert(key.len() == tid.len() + 3);
    assert(key != tid);
}

/// The cursor never moves back.
pub proof fn lemma_cursor_monotone(
    g: GtfsData,
    stops: Seq<(Seq<char>, u32)>,
    ssd: Seq<char>,
    locs: Seq<Location>,
    init: MergeState,
    n: int,
)
    requires
        0 <= n <= locs.len(),
        init.0 >= 0,
    ensures
        merge_fold(g, stops, ssd, locs.take(n), init).0 <= merge_fold(g, stops, ssd, locs, init).0,
    decreases locs.len(),
{
    if n < locs.len() {
        let d = locs.drop_last();
        assert(d.take(n) =~= locs.take(n));
        lemma_cursor_monotone(g, stops, ssd, d, init, n);
        lemma_fold_cursor_nonneg(g, stops, ssd, d, init);
        lemma_step_cursor(g, stops, ssd, merge_fold(g, stops, ssd, d, init), locs.last());
    } else {
        assert(locs.take(n) =~= locs);
    }
}

proof fn lemma_step_cursor(
    g: GtfsData,
    stops: Seq<(Seq<char>, u32)>,
    ssd: Seq<char>,
    st: MergeState,
    loc: Location,
)
    requires
        st.0 >= 0,
    ensures
        merge_step(g, stops, ssd, st, loc).0 >= st.0,
        ({
            match location_stop(g, loc) {
                Some(sid) => match match_from(stops, st.0, sid) {
                    Some(i) => st.0 <= i && merge_step(g, stops, ssd, st, loc).0 == i + 1,
                    None => true,
                },
                None => true,
            }
        }),
{
    match location_stop(g, loc) {
        Some(sid) => {
            crate::seq_util::lemma_first_index(stops.skip(st.0), stop_is(sid));
        },
        None => {},
    }
}

proof fn lemma_fold_cursor_nonneg(
    g: GtfsData,
    stops: Seq<(Seq<char>, u32)>,
    ssd: Seq<char>,
    locs: Seq<Location>,
    init: MergeState,
)
    requires
        init.0 >= 0,
    ensures
        merge_fold(g, stops, ssd, locs, init).0 >= 0,
    decreases locs.len(),
{
    if locs.len() > 0 {
        lemma_fold_cursor_nonneg(g, stops, ssd, locs.drop_last(), init);
        lemma_step_cursor(g, stops, ssd, merge_fold(g, stops, ssd, locs.drop_last(), init), locs.last());
    }
}

/// The static stop that location `n` is matched to, if any.
pub open spec fn matched_index(
    g: GtfsData,
    stops: Seq<(Seq<char>, u32)>,
    ssd: Seq<char>,
    locs: Seq<Location>,
    init: MergeState,
    n: int,
) -> Option<int> {
    match location_stop(g, locs[n]) {
        Some(sid) => match_from(stops, merge_fold(g, stops, ssd, locs.take(n), init).0, sid),
        None => None,
    }
}

/// Locations are matched to static stops in document order: a later
/// location is matched strictly further along the route, so two visits of
/// the same stop go to two different stop sequences.
pub proof fn lemma_loop_visits_in_order(
    g: GtfsData,
    stops: Seq<(Seq<char>, u32)>,
    ssd: Seq<char>,
    locs: Seq<Location>,
    init: MergeState,
    a: int,
    b: int,
)
    requires
        0 <= a < b < locs.len(),
        init.0 >= 0,
        matched_index(g, stops, ssd, locs, init, a) is Some,
        matched_index(g, stops, ssd, locs, init, b) is Some,
    ensures
        matched_index(g, stops, ssd, locs, init, a).unwrap() < matched_index(g, stops, ssd, locs, init, b).unwrap(),
{
    let pa = locs.take(a);
    let pa1 = locs.take(a + 1);
    let pb = locs.take(b);
    lemma_fold_cursor_nonneg(g, stops, ssd, pa, init);
    lemma_fold_cursor_nonneg(g, stops, ssd, pb, init);
    assert(pa1.drop_last() =~= pa);
    assert(pa1.last() == locs[a]);
    lemma_step_cursor(g, stops, ssd, merge_fold(g, stops, ssd, pa, init), locs[a]);
    assert(pb.take(a + 1) =~= pa1);
    lemma_cursor_monotone(g, stops, ssd, pb, init, a + 1);
    let sid_b = location_stop(g, locs[b]).unwrap();
    crate::seq_util::lemma_first_index(stops.skip(merge_fold(g, stops, ssd, pb, init).0), stop_is(sid_b));
}

proof fn lemma_fold_keeps_platforms(
    g: GtfsData,
    stops: Seq<(Seq<char>, u32)>,
    ssd: Seq<char>,
    locs: Seq<Location>,
    init: MergeState,
)
    requires
        plats_sorted(init.2),
    ensures
        forall|q: u32| #[trigger] plat_at(init.2, q) is Some ==> plat_at(merge_fold(g, stops, ssd, locs, init).2, q) is Some,
        init.3 ==> merge_fold(g, stops, ssd, locs, init).3,
    decreases locs.len(),
{
    if locs.len() > 0 {
        let prev = merge_fold(g, stops, ssd, locs.drop_last(), init);
        lemma_fold_keeps_platforms(g, stops, ssd, locs.drop_last(), init);
        lemma_merge_fold_wf_plats(g, stops, ssd, locs.drop_last(), init);
        let loc = locs.last();
        match location_stop(g, loc) {
            Some(sid) => {
                let m = match_from(stops, prev.0, sid);
                let seq: Option<u32> = match m {
                    Some(i) => Some(stops[i].1),
                    None => None,
                };
                if loc.platform is Some && seq is Some {
                    let p = loc.platform.unwrap();
                    if p.number is Some {
                        lemma_put_plat(
                            prev.2,
                            PlatformInfoView { stop_id: sid, sequence: seq.unwrap(), platform: p.number.unwrap()@ },
                        );
                    }
                }
            },
            None => {},
        }
    }
}

proof fn lemma_merge_fold_wf_plats(
    g: GtfsData,
    stops: Seq<(Seq<char>, u32)>,
    ssd: Seq<char>,
    locs: Seq<Location>,
    init: MergeState,
)
    requires
        plats_sorted(init.2),
    ensures
        plats_sorted(merge_fold(g, stops, ssd, locs, init).2),
    decreases locs.len(),
{
    if locs.len() > 0 {
        let prev = merge_fold(g, stops, ssd, locs.drop_last(), init);
        lemma_merge_fold_wf_plats(g, stops, ssd, locs.drop_last(), init);
        let loc = locs.last();
        match location_stop(g, loc) {
            Some(sid) => {
                let m = match_from(stops, prev.0, sid);
                let seq: Option<u32> = match m {
                    Some(i) => Some(stops[i].1),
                    None => None,
                };
                if loc.platform is Some && seq is Some {
                    let p = loc.platform.unwrap();
                    if p.number is Some {
                        lemma_put_plat(
                            prev.2,
                            PlatformInfoView { stop_id: sid, sequence: seq.unwrap(), platform: p.number.unwrap()@ },
                        );
                    }
                }
            },
            None => {},
        }
    }
}

/// Folding a TrainStatus never takes a published platform away: a later
/// suppressed platform for the same visit writes nothing, so the visit keeps
/// its platform.
pub proof fn lemma_platforms_never_retracted(m: StateView, g: GtfsData, ts: TrainStatus, date: Date, trip_id: Seq<char>, q: u32)
    requires
        m.wf(),
        m.platforms.contains_key(trip_id),
        plat_at(m.platforms[trip_id], q) is Some,
    ensures
        apply_status(m, g, ts, date).platforms.contains_key(trip_id),
        plat_at(apply_status(m, g, ts, date).platforms[trip_id], q) is Some,
{
    match g.trip_for(ts.uid@, date) {
        Some(tid) => {
            if tid == trip_id && !(m.entities.contains_key(tid) && m.entities[tid].trip_update is None) {
                let stops = match g.stops_of(tid) {
                    Some(s) => s,
                    None => Seq::empty(),
                };
                let base = if m.entities.contains_key(tid) {
                    m.entities[tid]
                } else {
                    fresh_trip_entity(tid, start_date_text(date, g.start_time_of(tid)))
                };
                lemma_fold_keeps_platforms(
                    g,
                    stops,
                    ts.ssd@,
                    ts.locations@,
                    (0, base.trip_update.unwrap().stop_time_update, m.platforms[tid], false),
                );
            }
        },
        None => {},
    }
}

} // verus!
