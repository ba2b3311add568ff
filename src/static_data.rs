//! The static schedule index: stops, trips, service calendars and the
//! secondary lookups derived from them.

use vstd::prelude::*;

use crate::seq_util::{
    find_key, first_index, key_is, lemma_first_index, lemma_first_index_is, lemma_split_at_first,
    lemma_split_at_first_none, lookup, split_at_first, split_once_char, upsert,
};

verus! {

/// A calendar day, counted as chrono counts days from the common era:
/// 0001-01-01 is day 1, a Monday.
#[derive(Clone, Copy, Debug, PartialEq, Eq, Structural)]
pub struct Date {
    pub day: i32,
}

/// Day of the week, Monday = 0 .. Sunday = 6.
pub open spec fn weekday_of(d: Date) -> int {
    (d.day as int - 1) % 7
}

pub fn weekday(d: Date) -> (r: u32)
    ensures
        r as int == weekday_of(d),
        r < 7,
{
    let shifted: i64 = d.day as i64 - 1 + 7 * 400_000_000;
    proof {
        assert((d.day as int - 1 + 7 * 400_000_000) % 7 == (d.day as int - 1) % 7) by (nonlinear_arith);
    }
    (shifted % 7) as u32
}

/// Whether a calendar exception adds or removes service on its date.
#[derive(Clone, Copy, Debug, PartialEq, Eq, Structural)]
pub enum Exception {
    Added,
    Deleted,
}

#[derive(Clone, Debug)]
pub struct StopRecord {
    pub id: String,
    pub code: Option<String>,
}

#[derive(Clone, Debug)]
pub struct StopTimeRecord {
    pub stop_id: String,
    pub stop_sequence: u32,
    /// Seconds after midnight of the service day.
    pub departure_time: Option<u32>,
}

#[derive(Clone, Debug)]
pub struct TripRecord {
    pub id: String,
    pub service_id: String,
    pub stop_times: Vec<StopTimeRecord>,
}

#[derive(Clone, Copy, Debug)]
pub struct CalendarRecord {
    pub monday: bool,
    pub tuesday: bool,
    pub wednesday: bool,
    pub thursday: bool,
    pub friday: bool,
    pub saturday: bool,
    pub sunday: bool,
    pub start_date: Date,
    pub end_date: Date,
}

#[derive(Clone, Copy, Debug)]
pub struct CalendarDateRecord {
    pub date: Date,
    pub exception_type: Exception,
}

pub open spec fn runs_on_weekday(c: CalendarRecord, w: int) -> bool {
    if w == 0 {
        c.monday
    } else if w == 1 {
        c.tuesday
    } else if w == 2 {
        c.wednesday
    } else if w == 3 {
        c.thursday
    } else if w == 4 {
        c.friday
    } else if w == 5 {
        c.saturday
    } else {
        c.sunday
    }
}

pub open spec fn date_is(d: Date) -> spec_fn(CalendarDateRecord) -> bool {
    |e: CalendarDateRecord| e.date == d
}

pub open spec fn trip_id_is(t: Seq<char>) -> spec_fn(TripRecord) -> bool {
    |r: TripRecord| r.id@ == t
}

/// The stops of a trip as (stop id, stop sequence), in stop-time order.
pub open spec fn stop_pairs(sts: Seq<StopTimeRecord>) -> Seq<(Seq<char>, u32)> {
    sts.map_values(|st: StopTimeRecord| (st.stop_id@, st.stop_sequence))
}

pub open spec fn pairs_view(s: Seq<(String, u32)>) -> Seq<(Seq<char>, u32)> {
    s.map_values(|p: (String, u32)| (p.0@, p.1))
}

/// The stop id that `k` names: the last stop, in input order, whose id or
/// code is `k`.
pub open spec fn tiploc_target(stops: Seq<StopRecord>, k: Seq<char>) -> Option<String>
    decreases stops.len(),
{
    if stops.len() == 0 {
        None
    } else {
        let s = stops.last();
        if s.id@ == k || (s.code is Some && s.code.unwrap()@ == k) {
            Some(s.id)
        } else {
            tiploc_target(stops.drop_last(), k)
        }
    }
}

/// Prefix of a trip id before its first `_`: the schedule uid.
pub open spec fn uid_of(s: Seq<char>) -> Seq<char> {
    match split_at_first(s, '_') {
        Some(p) => p.0,
        None => s,
    }
}

/// The ids of the trips whose uid is `u`, in input order.
pub open spec fn uid_trips(trips: Seq<TripRecord>, u: Seq<char>) -> Seq<String>
    decreases trips.len(),
{
    if trips.len() == 0 {
        Seq::empty()
    } else {
        let rest = uid_trips(trips.drop_last(), u);
        if uid_of(trips.last().id@) == u {
            rest.push(trips.last().id)
        } else {
            rest
        }
    }
}

pub open spec fn opt_min(a: Option<u32>, b: Option<u32>) -> Option<u32> {
    match (a, b) {
        (Some(x), Some(y)) => Some(if y < x { y } else { x }),
        (Some(x), None) => Some(x),
        (None, y) => y,
    }
}

/// The earliest departure among the stop times.
pub open spec fn min_departure(sts: Seq<StopTimeRecord>) -> Option<u32>
    decreases sts.len(),
{
    if sts.len() == 0 {
        None
    } else {
        opt_min(min_departure(sts.drop_last()), sts.last().departure_time)
    }
}

/// The earliest departure of the trips with id `k`.
pub open spec fn start_target(trips: Seq<TripRecord>, k: Seq<char>) -> Option<u32>
    decreases trips.len(),
{
    if trips.len() == 0 {
        None
    } else {
        let rest = start_target(trips.drop_last(), k);
        if trips.last().id@ == k {
            opt_min(rest, min_departure(trips.last().stop_times@))
        } else {
            rest
        }
    }
}

/// The schedule uid of a trip id: the text before its first `_`.
pub fn uid_prefix(trip_id: &str) -> (r: String)
    ensures
        r@ == uid_of(trip_id@),
{
    match split_once_char(trip_id, '_') {
        Some(p) => {
            proof {
                lemma_split_at_first(trip_id@, '_', p.0@, p.1@);
            }
            p.0
        },
        None => {
            proof {
                lemma_split_at_first_none(trip_id@, '_');
            }
            trip_id.to_owned()
        },
    }
}

/// The index, rebuilt as a whole and swapped in.
pub struct GtfsData {
    /// Stop id and stop code, each to the stop id.
    pub tiploc_map: Vec<(String, String)>,
    /// Schedule uid to the ids of its trips.
    pub uid_index: Vec<(String, Vec<String>)>,
    pub trips: Vec<TripRecord>,
    /// Service id to its weekly pattern and validity window.
    pub calendar: Vec<(String, CalendarRecord)>,
    /// Service id to its dated exceptions.
    pub calendar_dates: Vec<(String, Vec<CalendarDateRecord>)>,
    /// Trip id to its earliest departure, in seconds after midnight.
    pub trip_start_times: Vec<(String, u32)>,
}

impl GtfsData {
    pub open spec fn stop_id_of(&self, tiploc: Seq<char>) -> Option<Seq<char>> {
        match lookup(self.tiploc_map@, tiploc) {
            Some(s) => Some(s@),
            None => None,
        }
    }

    pub open spec fn trip_of(&self, trip_id: Seq<char>) -> Option<TripRecord> {
        match first_index(self.trips@, trip_id_is(trip_id)) {
            Some(i) => Some(self.trips@[i]),
            None => None,
        }
    }

    pub open spec fn candidates(&self, uid: Seq<char>) -> Seq<String> {
        match lookup(self.uid_index@, uid) {
            Some(v) => v@,
            None => Seq::empty(),
        }
    }

    /// Exceptions decide first; otherwise the weekly pattern within the
    /// validity window.
    pub open spec fn service_runs(&self, service_id: Seq<char>, date: Date) -> bool {
        let exceptions = match lookup(self.calendar_dates@, service_id) {
            Some(v) => v@,
            None => Seq::empty(),
        };
        match first_index(exceptions, date_is(date)) {
            Some(j) => exceptions[j].exception_type == Exception::Added,
            None => match lookup(self.calendar@, service_id) {
                Some(c) => c.start_date.day <= date.day <= c.end_date.day && runs_on_weekday(
                    c,
                    weekday_of(date),
                ),
                None => false,
            },
        }
    }

    pub open spec fn trip_runs(&self, trip_id: Seq<char>, date: Date) -> bool {
        match self.trip_of(trip_id) {
            Some(t) => self.service_runs(t.service_id@, date),
            None => false,
        }
    }

    pub open spec fn runs_pred(&self, date: Date) -> spec_fn(String) -> bool {
        |c: String| self.trip_runs(c@, date)
    }

    /// The first candidate of the uid whose service runs on the date.
    pub open spec fn trip_for(&self, uid: Seq<char>, date: Date) -> Option<Seq<char>> {
        let c = self.candidates(uid);
        match first_index(c, self.runs_pred(date)) {
            Some(i) => Some(c[i]@),
            None => None,
        }
    }

    pub open spec fn start_time_of(&self, trip_id: Seq<char>) -> Option<u32> {
        lookup(self.trip_start_times@, trip_id)
    }

    pub open spec fn stops_of(&self, trip_id: Seq<char>) -> Option<Seq<(Seq<char>, u32)>> {
        match self.trip_of(trip_id) {
            Some(t) => Some(stop_pairs(t.stop_times@)),
            None => None,
        }
    }

    pub open spec fn is_empty(&self) -> bool {
        self.tiploc_map@.len() == 0 && self.uid_index@.len() == 0 && self.trips@.len() == 0
            && self.calendar@.len() == 0 && self.calendar_dates@.len() == 0
            && self.trip_start_times@.len() == 0
    }
}

impl Default for GtfsData {
    fn default() -> (r: Self)
        ensures
            r.is_empty(),
    {
        GtfsData {
            tiploc_map: Vec::new(),
            uid_index: Vec::new(),
            trips: Vec::new(),
            calendar: Vec::new(),
            calendar_dates: Vec::new(),
            trip_start_times: Vec::new(),
        }
    }
}

pub open spec fn list_under(s: Seq<(String, Vec<String>)>, k: Seq<char>) -> Seq<String> {
    match lookup(s, k) {
        Some(v) => v@,
        None => Seq::empty(),
    }
}

/// Appends `v` to the list under `k`, creating the list when absent.
fn append_under(s: &mut Vec<(String, Vec<String>)>, k: String, v: String)
    ensures
        forall|q: Seq<char>| #[trigger]
            list_under(final(s)@, q) == if q == k@ {
                list_under(old(s)@, q).push(v)
            } else {
                list_under(old(s)@, q)
            },
{
    let ghost s0 = s@;
    let ghost kv = k@;
    let found = find_key(s, k.as_str());
    match found {
        Some(i) => {
            let (k0, mut list) = s.remove(i);
            let ghost l0 = list@;
            list.push(v);
            s.insert(i, (k0, list));
            proof {
                lemma_first_index(s0, key_is::<Vec<String>>(kv));
                assert forall|q: Seq<char>| #[trigger]
                    list_under(s@, q) == if q == kv {
                        list_under(s0, q).push(v)
                    } else {
                        list_under(s0, q)
                    } by {
                    lemma_first_index(s0, key_is::<Vec<String>>(q));
                    if q == kv {
                        lemma_first_index_is(s@, key_is::<Vec<String>>(q), Some(i as int));
                    } else {
                        lemma_first_index_is(
                            s@,
                            key_is::<Vec<String>>(q),
                            first_index(s0, key_is::<Vec<String>>(q)),
                        );
                    }
                }
            }
        },
        None => {
            let list = vec![v];
            s.push((k, list));
            proof {
                lemma_first_index(s0, key_is::<Vec<String>>(kv));
                assert forall|q: Seq<char>| #[trigger]
                    list_under(s@, q) == if q == kv {
                        list_under(s0, q).push(v)
                    } else {
                        list_under(s0, q)
                    } by {
                    lemma_first_index(s0, key_is::<Vec<String>>(q));
                    if q == kv {
                        lemma_first_index_is(s@, key_is::<Vec<String>>(q), Some(s0.len() as int));
                        assert(list_under(s@, q) =~= seq![v]);
                    } else {
                        lemma_first_index_is(
                            s@,
                            key_is::<Vec<String>>(q),
                            first_index(s0, key_is::<Vec<String>>(q)),
                        );
                    }
                }
            }
        },
    }
}

fn earliest_departure(sts: &Vec<StopTimeRecord>) -> (r: Option<u32>)
    ensures
        r == min_departure(sts@),
{
    let mut m: Option<u32> = None;
    let mut j: usize = 0;
    while j < sts.len()
        invariant
            j <= sts@.len(),
            m == min_departure(sts@.take(j as int)),
        decreases sts@.len() - j,
    {
        let d = sts[j].departure_time;
        m = match (m, d) {
            (Some(x), Some(y)) => Some(if y < x { y } else { x }),
            (Some(x), None) => Some(x),
            (None, y) => y,
        };
        assert(sts@.take(j + 1).drop_last() =~= sts@.take(j as int));
        j = j + 1;
    }
    assert(sts@.take(j as int) =~= sts@);
    m
}

/// Builds the secondary lookups from the schedule's stops, trips, calendars
/// and calendar exceptions, given as the schedule lists them.
pub fn build_indices(
    stops: Vec<StopRecord>,
    trips: Vec<TripRecord>,
    calendar: Vec<(String, CalendarRecord)>,
    calendar_dates: Vec<(String, Vec<CalendarDateRecord>)>,
) -> (r: GtfsData)
    ensures
        forall|k: Seq<char>| #[trigger] lookup(r.tiploc_map@, k) == tiploc_target(stops@, k),
        forall|u: Seq<char>| #[trigger] r.candidates(u) == uid_trips(trips@, u),
        forall|k: Seq<char>| #[trigger] r.start_time_of(k) == start_target(trips@, k),
        r.trips@ == trips@,
        r.calendar@ == calendar@,
        r.calendar_dates@ == calendar_dates@,
{
    let mut tiploc_map: Vec<(String, String)> = Vec::new();
    let mut i: usize = 0;
    while i < stops.len()
        invariant
            i <= stops@.len(),
            forall|k: Seq<char>| #[trigger]
                lookup(tiploc_map@, k) == tiploc_target(stops@.take(i as int), k),
        decreases stops@.len() - i,
    {
        let stop = &stops[i];
        let ghost m0 = tiploc_map@;
        upsert(&mut tiploc_map, stop.id.clone(), stop.id.clone());
        let ghost m1 = tiploc_map@;
        match &stop.code {
            Some(code) => {
                upsert(&mut tiploc_map, code.clone(), stop.id.clone());
            },
            None => {},
        }
        proof {
            assert(stops@.take(i + 1).drop_last() =~= stops@.take(i as int));
            assert forall|k: Seq<char>| #[trigger]
                lookup(tiploc_map@, k) == tiploc_target(stops@.take(i + 1), k) by {
                assert(lookup(m1, k) == if k == stop.id@ { Some(stop.id) } else { lookup(m0, k) });
            }
        }
        i = i + 1;
    }
    assert(stops@.take(i as int) =~= stops@);

    let mut uid_index: Vec<(String, Vec<String>)> = Vec::new();
    let mut trip_start_times: Vec<(String, u32)> = Vec::new();
    let mut i: usize = 0;
    while i < trips.len()
        invariant
            i <= trips@.len(),
            forall|u: Seq<char>| #[trigger]
                list_under(uid_index@, u) == uid_trips(trips@.take(i as int), u),
            forall|k: Seq<char>| #[trigger]
                lookup(trip_start_times@, k) == start_target(trips@.take(i as int), k),
        decreases trips@.len() - i,
    {
        let trip = &trips[i];
        let uid = uid_prefix(trip.id.as_str());
        append_under(&mut uid_index, uid, trip.id.clone());
        let ghost t0 = trip_start_times@;
        match earliest_departure(&trip.stop_times) {
            Some(t) => {
                let current = match find_key(&trip_start_times, trip.id.as_str()) {
                    Some(j) => {
                        let x = trip_start_times[j].1;
                        if t < x {
                            t
                        } else {
                            x
                        }
                    },
                    None => t,
                };
                upsert(&mut trip_start_times, trip.id.clone(), current);
            },
            None => {},
        }
        proof {
            assert(trips@.take(i + 1).drop_last() =~= trips@.take(i as int));
        }
        i = i + 1;
    }
    assert(trips@.take(i as int) =~= trips@);
    let ghost all_trips = trips@;
    let r = GtfsData { tiploc_map, uid_index, trips, calendar, calendar_dates, trip_start_times };
    assert forall|u: Seq<char>| #[trigger] r.candidates(u) == uid_trips(all_trips, u) by {
        assert(list_under(r.uid_index@, u) == uid_trips(all_trips, u));
    }
    r
}

/// Holds the schedule index in service; a rebuilt index replaces it whole.
pub struct GTFSManager {
    pub url: String,
    pub data: GtfsData,
}

impl GTFSManager {
    pub fn new(url: String) -> (r: Self)
        ensures
            r.url@ == url@,
            r.data.is_empty(),
    {
        GTFSManager { url, data: GtfsData::default() }
    }

    /// Swaps a freshly built index in; lookups from now on read it.
    pub fn replace_data(&mut self, data: GtfsData)
        ensures
            final(self).data == data,
            final(self).url == old(self).url,
    {
        self.data = data;
    }

    pub fn get_stop_id(&self, tiploc: &str) -> (r: Option<String>)
        ensures
            match r {
                Some(s) => self.data.stop_id_of(tiploc@) == Some(s@),
                None => self.data.stop_id_of(tiploc@) is None,
            },
    {
        match find_key(&self.data.tiploc_map, tiploc) {
            Some(i) => Some(self.data.tiploc_map[i].1.clone()),
            None => None,
        }
    }

    /// The stop id of the tiploc, or the tiploc itself when it is unknown.
    pub fn unwrap_stop_id(&self, tiploc: &str) -> (r: String)
        ensures
            r@ == match self.data.stop_id_of(tiploc@) {
                Some(s) => s,
                None => tiploc@,
            },
    {
        match self.get_stop_id(tiploc) {
            Some(s) => s,
            None => tiploc.to_owned(),
        }
    }

    fn find_trip(&self, trip_id: &str) -> (r: Option<usize>)
        ensures
            match r {
                Some(i) => i < self.data.trips@.len() && self.data.trips@[i as int].id@ == trip_id@
                    && first_index(self.data.trips@, trip_id_is(trip_id@)) == Some(i as int),
                None => first_index(self.data.trips@, trip_id_is(trip_id@)) is None,
            },
    {
        let key = trip_id.to_owned();
        let mut i: usize = 0;
        while i < self.data.trips.len()
            invariant
                i <= self.data.trips@.len(),
                key@ == trip_id@,
                forall|j: int| 0 <= j < i ==> !trip_id_is(trip_id@)(#[trigger] self.data.trips@[j]),
            decreases self.data.trips@.len() - i,
        {
            if self.data.trips[i].id == key {
                proof {
                    lemma_first_index_is(self.data.trips@, trip_id_is(trip_id@), Some(i as int));
                }
                return Some(i);
            }
            i = i + 1;
        }
        proof {
            lemma_first_index_is(self.data.trips@, trip_id_is(trip_id@), None);
        }
        None
    }

    fn service_runs_on_date(&self, service_id: &str, date: Date) -> (r: bool)
        ensures
            r == self.data.service_runs(service_id@, date),
    {
        let ghost exceptions = match lookup(self.data.calendar_dates@, service_id@) {
            Some(v) => v@,
            None => Seq::<CalendarDateRecord>::empty(),
        };
        match find_key(&self.data.calendar_dates, service_id) {
            Some(i) => {
                let list = &self.data.calendar_dates[i].1;
                assert(list@ == exceptions);
                let mut j: usize = 0;
                while j < list.len()
                    invariant
                        j <= list@.len(),
                        list@ == exceptions,
                        exceptions == match lookup(self.data.calendar_dates@, service_id@) {
                            Some(v) => v@,
                            None => Seq::<CalendarDateRecord>::empty(),
                        },
                        forall|jj: int| 0 <= jj < j ==> !date_is(date)(#[trigger] list@[jj]),
                    decreases list@.len() - j,
                {
                    if list[j].date == date {
                        proof {
                            lemma_first_index_is(list@, date_is(date), Some(j as int));
                            assert(first_index(exceptions, date_is(date)) == Some(j as int));
                            assert(self.data.service_runs(service_id@, date) == (list@[j as int].exception_type == Exception::Added));
                        }
                        return list[j].exception_type == Exception::Added;
                    }
                    j = j + 1;
                }
                proof {
                    lemma_first_index_is(list@, date_is(date), None);
                }
            },
            None => {
                assert(first_index(exceptions, date_is(date)) is None);
            },
        }
        match find_key(&self.data.calendar, service_id) {
            Some(i) => {
                let c = self.data.calendar[i].1;
                if c.start_date.day <= date.day && date.day <= c.end_date.day {
                    let w = weekday(date);
                    if w == 0 {
                        c.monday
                    } else if w == 1 {
                        c.tuesday
                    } else if w == 2 {
                        c.wednesday
                    } else if w == 3 {
                        c.thursday
                    } else if w == 4 {
                        c.friday
                    } else if w == 5 {
                        c.saturday
                    } else {
                        c.sunday
                    }
                } else {
                    false
                }
            },
            None => false,
        }
    }

    fn trip_runs_on_date(&self, trip_id: &str, date: Date) -> (r: bool)
        ensures
            r == self.data.trip_runs(trip_id@, date),
    {
        match self.find_trip(trip_id) {
            Some(i) => self.service_runs_on_date(self.data.trips[i].service_id.as_str(), date),
            None => false,
        }
    }

    /// The first trip of the uid whose service runs on the date.
    pub fn find_trip_id(&self, uid: &str, date: Date) -> (r: Option<String>)
        ensures
            match r {
                Some(t) => self.data.trip_for(uid@, date) == Some(t@),
                None => self.data.trip_for(uid@, date) is None,
            },
    {
        let ghost c = self.data.candidates(uid@);
        match find_key(&self.data.uid_index, uid) {
            Some(i) => {
                let cands = &self.data.uid_index[i].1;
                assert(cands@ == c);
                let mut j: usize = 0;
                while j < cands.len()
                    invariant
                        j <= cands@.len(),
                        cands@ == c,
                        c == self.data.candidates(uid@),
                        forall|jj: int| 0 <= jj < j ==> !self.data.runs_pred(date)(#[trigger] cands@[jj]),
                    decreases cands@.len() - j,
                {
                    if self.trip_runs_on_date(cands[j].as_str(), date) {
                        proof {
                            lemma_first_index_is(cands@, self.data.runs_pred(date), Some(j as int));
                            assert(c == self.data.candidates(uid@));
                            assert(first_index(c, self.data.runs_pred(date)) == Some(j as int));
                            assert(self.data.trip_for(uid@, date) == Some(cands@[j as int]@));
                        }
                        return Some(cands[j].clone());
                    }
                    j = j + 1;
                }
                proof {
                    lemma_first_index_is(cands@, self.data.runs_pred(date), None);
                }
                None
            },
            None => {
                assert(first_index(c, self.data.runs_pred(date)) is None);
                None
            },
        }
    }

    pub fn get_trip_start_time(&self, trip_id: &str) -> (r: Option<u32>)
        ensures
            r == self.data.start_time_of(trip_id@),
    {
        match find_key(&self.data.trip_start_times, trip_id) {
            Some(i) => Some(self.data.trip_start_times[i].1),
            None => None,
        }
    }

    /// The trip's stops as (stop id, stop sequence), in stop-time order.
    pub fn get_trip_stops(&self, trip_id: &str) -> (r: Option<Vec<(String, u32)>>)
        ensures
            match r {
                Some(v) => self.data.stops_of(trip_id@) == Some(pairs_view(v@)),
                None => self.data.stops_of(trip_id@) is None,
            },
    {
        match self.find_trip(trip_id) {
            Some(i) => {
                let sts = &self.data.trips[i].stop_times;
                let mut out: Vec<(String, u32)> = Vec::new();
                let mut j: usize = 0;
                while j < sts.len()
                    invariant
                        j <= sts@.len(),
                        out@.len() == j,
                        pairs_view(out@) =~= stop_pairs(sts@.take(j as int)),
                    decreases sts@.len() - j,
                {
                    let sid = sts[j].stop_id.clone();
                    let ghost before = out@;
                    out.push((sid, sts[j].stop_sequence));
                    proof {
                        assert forall|k: int| 0 <= k < j + 1 implies #[trigger] pairs_view(out@)[k]
                            == stop_pairs(sts@.take(j + 1))[k] by {
                            if k < j {
                                assert(out@[k] == before[k]);
                                assert(pairs_view(before)[k] == stop_pairs(sts@.take(j as int))[k]);
                            }
                        }
                        assert(pairs_view(out@) =~= stop_pairs(sts@.take(j + 1)));
                    }
                    j = j + 1;
                }
                assert(sts@.take(j as int) =~= sts@);
                Some(out)
            },
            None => None,
        }
    }

    /// Whether an index has been loaded.
    pub fn has_data(&self) -> (r: bool)
        ensures
            r == (self.data.tiploc_map@.len() > 0),
    {
        self.data.tiploc_map.len() > 0
    }
}

} // verus!
