//! Folding the same TrainStatus twice gives the state folding it once gives,
//! when every timed location is matched to a visit of the static route.
//!
//! Without that condition it fails: on a route visiting X once at sequence
//! 3, two timed locations at X merge the first by sequence and the second,
//! which has no later visit, by stop id over the first; folding again
//! re-creates the sequence-3 entry beside the stop-id one.

use vstd::prelude::*;

use crate::darwin_types::{Location, TrainStatus};
use crate::merge::{
    lemma_first_index_free, lemma_put_plat, lemma_sort_by_elems_rev, lemma_sort_updates_wf,
    plat_at, plats_sorted, sort_updates, unique_by, update_key, update_visit, upsert_update,
};
use crate::processor::{
    apply_status, fresh_trip_entity, lemma_merge_fold_wf, location_has_time, location_stop,
    match_from, matched_index, merge_fold, merge_step, start_date_text, update_of, MergeState,
};
use crate::seq_util::{first_index, lemma_first_index, lemma_first_index_is};
use crate::state::{entity_wf, PlatformInfoView, StateView, StopTimeUpdateView};
use crate::static_data::{Date, GtfsData};

verus! {

pub open spec fn empty_start() -> MergeState {
    (0, Seq::empty(), Seq::empty(), false)
}

/// Every location that resolves to a stop and carries a time is matched to
/// a visit of the static route.
pub open spec fn all_timed_matched(g: GtfsData, stops: Seq<(Seq<char>, u32)>, ssd: Seq<char>, locs: Seq<Location>) -> bool {
    forall|i: int|
        0 <= i < locs.len() && location_stop(g, #[trigger] locs[i]) is Some && location_has_time(locs[i])
            ==> matched_index(g, stops, ssd, locs, empty_start(), i) is Some
}

pub open spec fn visit_is(q: u32) -> spec_fn(StopTimeUpdateView) -> bool {
    |u: StopTimeUpdateView| u.stop_sequence == Some(q)
}

/// The entry of visit `q`.
pub open spec fn entry_of(s: Seq<StopTimeUpdateView>, q: u32) -> Option<StopTimeUpdateView> {
    match first_index(s, visit_is(q)) {
        Some(i) => Some(s[i]),
        None => None,
    }
}

proof fn lemma_cursor_independent(
    g: GtfsData,
    stops: Seq<(Seq<char>, u32)>,
    ssd: Seq<char>,
    locs: Seq<Location>,
    a: MergeState,
    b: MergeState,
)
    requires
        a.0 == b.0,
    ensures
        merge_fold(g, stops, ssd, locs, a).0 == merge_fold(g, stops, ssd, locs, b).0,
        merge_fold(g, stops, ssd, locs, a).3 == (a.3 || merge_fold(g, stops, ssd, locs, (a.0, b.1, b.2, false)).3),
        merge_fold(g, stops, ssd, locs, b).3 == (b.3 || merge_fold(g, stops, ssd, locs, (a.0, b.1, b.2, false)).3),
    decreases locs.len(),
{
    if locs.len() > 0 {
        lemma_cursor_independent(g, stops, ssd, locs.drop_last(), a, b);
        lemma_cursor_independent(g, stops, ssd, locs.drop_last(), b, (a.0, b.1, b.2, false));
    }
}

/// Upserting a sequenced update sets that visit and keeps every other.
proof fn lemma_upsert_entry(s: Seq<StopTimeUpdateView>, u: StopTimeUpdateView, q0: u32, q: u32)
    requires
        u.stop_sequence == Some(q0),
    ensures
        entry_of(upsert_update(s, u), q) == if q == q0 {
            Some(u)
        } else {
            entry_of(s, q)
        },
{
    let r = upsert_update(s, u);
    lemma_first_index(s, crate::merge::same_visit(u));
    lemma_first_index(s, visit_is(q));
    lemma_first_index_free(s, crate::merge::same_visit(u), visit_is(q0));
    match first_index(s, visit_is(q0)) {
        Some(k) => {
            if q == q0 {
                lemma_first_index_is(r, visit_is(q), Some(k));
            } else {
                lemma_first_index_is(r, visit_is(q), first_index(s, visit_is(q)));
            }
        },
        None => {
            if q == q0 {
                lemma_first_index_is(r, visit_is(q), Some(s.len() as int));
            } else {
                lemma_first_index_is(r, visit_is(q), first_index(s, visit_is(q)));
            }
        },
    }
}

proof fn lemma_step_shape(
    g: GtfsData,
    stops: Seq<(Seq<char>, u32)>,
    ssd: Seq<char>,
    st: MergeState,
    loc: Location,
)
    ensures
        ({
            let r = merge_step(g, stops, ssd, st, loc);
            match location_stop(g, loc) {
                Some(sid) => match match_from(stops, st.0, sid) {
                    Some(i) => {
                        &&& (location_has_time(loc) ==> r.1 == upsert_update(
                            st.1,
                            update_of(loc, sid, ssd, Some(stops[i].1)),
                        ))
                        &&& (!location_has_time(loc) ==> r.1 == st.1)
                    },
                    None => !location_has_time(loc) ==> r.1 == st.1,
                },
                None => r.1 == st.1 && r.2 == st.2 && r.3 == st.3,
            }
        }),
{
}

/// After folding from any start, the entry of each visit is the last one
/// written (as folding from an empty start shows), else the start's.
proof fn lemma_fold_entries(
    g: GtfsData,
    stops: Seq<(Seq<char>, u32)>,
    ssd: Seq<char>,
    locs: Seq<Location>,
    init: MergeState,
    q: u32,
)
    requires
        init.0 == 0,
        all_timed_matched(g, stops, ssd, locs),
    ensures
        entry_of(merge_fold(g, stops, ssd, locs, init).1, q) == match entry_of(
            merge_fold(g, stops, ssd, locs, empty_start()).1,
            q,
        ) {
            Some(w) => Some(w),
            None => entry_of(init.1, q),
        },
    decreases locs.len(),
{
    if locs.len() > 0 {
        let d = locs.drop_last();
        assert(all_timed_matched(g, stops, ssd, d)) by {
            assert forall|i: int|
                0 <= i < d.len() && location_stop(g, #[trigger] d[i]) is Some && location_has_time(d[i]) implies matched_index(
                g,
                stops,
                ssd,
                d,
                empty_start(),
                i,
            ) is Some by {
                assert(d[i] == locs[i]);
                assert(d.take(i) =~= locs.take(i));
            }
        }
        lemma_fold_entries(g, stops, ssd, d, init, q);
        let a = merge_fold(g, stops, ssd, d, init);
        let b = merge_fold(g, stops, ssd, d, empty_start());
        lemma_cursor_independent(g, stops, ssd, d, init, empty_start());
        let loc = locs.last();
        lemma_step_shape(g, stops, ssd, a, loc);
        lemma_step_shape(g, stops, ssd, b, loc);
        let n = locs.len() - 1;
        assert(locs.take(n) =~= d);
        assert(locs[n] == loc);
        match location_stop(g, loc) {
            Some(sid) => {
                if location_has_time(loc) {
                    let i = match_from(stops, b.0, sid).unwrap();
                    let u = update_of(loc, sid, ssd, Some(stops[i].1));
                    lemma_upsert_entry(a.1, u, stops[i].1, q);
                    lemma_upsert_entry(b.1, u, stops[i].1, q);
                }
            },
            None => {},
        }
    }
}

/// The same for platform lists.
proof fn lemma_fold_plats(
    g: GtfsData,
    stops: Seq<(Seq<char>, u32)>,
    ssd: Seq<char>,
    locs: Seq<Location>,
    init: MergeState,
    q: u32,
)
    requires
        init.0 == 0,
        plats_sorted(init.2),
    ensures
        plat_at(merge_fold(g, stops, ssd, locs, init).2, q) == match plat_at(
            merge_fold(g, stops, ssd, locs, empty_start()).2,
            q,
        ) {
            Some(w) => Some(w),
            None => plat_at(init.2, q),
        },
        plats_sorted(merge_fold(g, stops, ssd, locs, init).2),
    decreases locs.len(),
{
    if locs.len() > 0 {
        let d = locs.drop_last();
        lemma_fold_plats(g, stops, ssd, d, init, q);
        lemma_fold_plats(g, stops, ssd, d, empty_start(), q);
        let a = merge_fold(g, stops, ssd, d, init);
        let b = merge_fold(g, stops, ssd, d, empty_start());
        lemma_cursor_independent(g, stops, ssd, d, init, empty_start());
        let loc = locs.last();
        match location_stop(g, loc) {
            Some(sid) => {
                let m = match_from(stops, a.0, sid);
                if m is Some && loc.platform is Some && loc.platform.unwrap().number is Some {
                    let w = PlatformInfoView {
                        stop_id: sid,
                        sequence: stops[m.unwrap()].1,
                        platform: loc.platform.unwrap().number.unwrap()@,
                    };
                    lemma_put_plat(a.2, w);
                    lemma_put_plat(b.2, w);
                }
            },
            None => {},
        }
    }
}

/// Two strictly sorted platform lists with the same entry for every
/// sequence are the same list.
proof fn lemma_plats_ext(a: Seq<PlatformInfoView>, b: Seq<PlatformInfoView>)
    requires
        plats_sorted(a),
        plats_sorted(b),
        forall|q: u32| #[trigger] plat_at(a, q) == plat_at(b, q),
    ensures
        a == b,
    decreases a.len() + b.len(),
{
    if a.len() > 0 && b.len() > 0 {
        let qa = a[0].sequence;
        let qb = b[0].sequence;
        lemma_first_index(a, |p: PlatformInfoView| p.sequence == qa);
        lemma_first_index(b, |p: PlatformInfoView| p.sequence == qa);
        lemma_first_index(a, |p: PlatformInfoView| p.sequence == qb);
        lemma_first_index(b, |p: PlatformInfoView| p.sequence == qb);
        assert(plat_at(a, qa) == plat_at(b, qa));
        assert(plat_at(a, qb) == plat_at(b, qb));
        lemma_first_index_is(a, |p: PlatformInfoView| p.sequence == qa, Some(0));
        lemma_first_index_is(b, |p: PlatformInfoView| p.sequence == qb, Some(0));
        assert(qa == qb);
        assert(a[0] == b[0]);
        let a1 = a.drop_first();
        let b1 = b.drop_first();
        assert forall|q: u32| #[trigger] plat_at(a1, q) == plat_at(b1, q) by {
            lemma_first_index(a, |p: PlatformInfoView| p.sequence == q);
            lemma_first_index(b, |p: PlatformInfoView| p.sequence == q);
            lemma_first_index(a1, |p: PlatformInfoView| p.sequence == q);
            lemma_first_index(b1, |p: PlatformInfoView| p.sequence == q);
            assert(plat_at(a, q) == plat_at(b, q));
            if q == qa {
                assert forall|j: int| 0 <= j < a1.len() implies !((|p: PlatformInfoView| p.sequence == q)(#[trigger] a1[j])) by {
                    assert(a1[j] == a[j + 1]);
                }
                assert forall|j: int| 0 <= j < b1.len() implies !((|p: PlatformInfoView| p.sequence == q)(#[trigger] b1[j])) by {
                    assert(b1[j] == b[j + 1]);
                }
                lemma_first_index_is(a1, |p: PlatformInfoView| p.sequence == q, None);
                lemma_first_index_is(b1, |p: PlatformInfoView| p.sequence == q, None);
            } else {
                match first_index(a, |p: PlatformInfoView| p.sequence == q) {
                    Some(i) => {
                        lemma_first_index_is(a1, |p: PlatformInfoView| p.sequence == q, Some(i - 1));
                    },
                    None => {
                        lemma_first_index_is(a1, |p: PlatformInfoView| p.sequence == q, None);
                    },
                }
                match first_index(b, |p: PlatformInfoView| p.sequence == q) {
                    Some(i) => {
                        lemma_first_index_is(b1, |p: PlatformInfoView| p.sequence == q, Some(i - 1));
                    },
                    None => {
                        lemma_first_index_is(b1, |p: PlatformInfoView| p.sequence == q, None);
                    },
                }
            }
        }
        lemma_plats_ext(a1, b1);
        assert(a =~= seq![a[0]] + a1);
        assert(b =~= seq![b[0]] + b1);
    } else if a.len() > 0 {
        let qa = a[0].sequence;
        lemma_first_index_is(a, |p: PlatformInfoView| p.sequence == qa, Some(0));
        lemma_first_index(b, |p: PlatformInfoView| p.sequence == qa);
        assert(plat_at(a, qa) == plat_at(b, qa));
    } else if b.len() > 0 {
        let qb = b[0].sequence;
        lemma_first_index_is(b, |p: PlatformInfoView| p.sequence == qb, Some(0));
        lemma_first_index(a, |p: PlatformInfoView| p.sequence == qb);
        assert(plat_at(a, qb) == plat_at(b, qb));
    } else {
        assert(a =~= b);
    }
}

proof fn lemma_entry_seq(s: Seq<StopTimeUpdateView>, q: u32)
    ensures
        entry_of(s, q) is Some ==> entry_of(s, q).unwrap().stop_sequence == Some(q),
        entry_of(s, q) is Some ==> s.contains(entry_of(s, q).unwrap()),
        entry_of(s, q) is None ==> forall|k: int| 0 <= k < s.len() ==> (#[trigger] s[k]).stop_sequence != Some(q),
{
    lemma_first_index(s, visit_is(q));
    match first_index(s, visit_is(q)) {
        Some(i) => {
            assert(s[i] == entry_of(s, q).unwrap());
        },
        None => {
            assert forall|k: int| 0 <= k < s.len() implies (#[trigger] s[k]).stop_sequence != Some(q) by {
                assert(!visit_is(q)(s[k]));
            }
        },
    }
}

/// In a list with unique visits, the entry of a visit is the one element
/// of that visit.
proof fn lemma_entry_unique(s: Seq<StopTimeUpdateView>, q: u32, k: int)
    requires
        unique_by(s, update_visit()),
        0 <= k < s.len(),
        s[k].stop_sequence == Some(q),
    ensures
        entry_of(s, q) == Some(s[k]),
{
    lemma_first_index(s, visit_is(q));
    let i = first_index(s, visit_is(q)).unwrap();
    if i != k {
        assert(update_visit()(s[k]) == update_visit()(s[i]));
    }
}

/// Folding a status onto a list that already holds every visit it writes
/// rewrites those visits in place.
proof fn lemma_fold_positions(
    g: GtfsData,
    stops: Seq<(Seq<char>, u32)>,
    ssd: Seq<char>,
    locs: Seq<Location>,
    t: Seq<StopTimeUpdateView>,
    p: Seq<PlatformInfoView>,
)
    requires
        all_timed_matched(g, stops, ssd, locs),
        unique_by(t, update_visit()),
        forall|q: u32| #[trigger]
            entry_of(merge_fold(g, stops, ssd, locs, empty_start()).1, q) is Some ==> entry_of(t, q) is Some,
    ensures
        merge_fold(g, stops, ssd, locs, (0, t, p, false)).1.len() == t.len(),
        forall|k: int|
            0 <= k < t.len() ==> #[trigger] merge_fold(g, stops, ssd, locs, (0, t, p, false)).1[k] == match t[k].stop_sequence {
                Some(q) => match entry_of(merge_fold(g, stops, ssd, locs, empty_start()).1, q) {
                    Some(w) => w,
                    None => t[k],
                },
                None => t[k],
            },
    decreases locs.len(),
{
    let init: MergeState = (0, t, p, false);
    if locs.len() == 0 {
        assert forall|q: u32| #[trigger] entry_of(Seq::<StopTimeUpdateView>::empty(), q) is None by {
            lemma_first_index(Seq::<StopTimeUpdateView>::empty(), visit_is(q));
        }
    } else {
        let d = locs.drop_last();
        let n = locs.len() - 1;
        assert(locs.take(n) =~= d);
        let loc = locs.last();
        assert(locs[n] == loc);
        assert(all_timed_matched(g, stops, ssd, d)) by {
            assert forall|i: int|
                0 <= i < d.len() && location_stop(g, #[trigger] d[i]) is Some && location_has_time(d[i]) implies matched_index(
                g,
                stops,
                ssd,
                d,
                empty_start(),
                i,
            ) is Some by {
                assert(d[i] == locs[i]);
                assert(d.take(i) =~= locs.take(i));
            }
        }
        let a = merge_fold(g, stops, ssd, d, init);
        let b = merge_fold(g, stops, ssd, d, empty_start());
        let wl = merge_fold(g, stops, ssd, locs, empty_start()).1;
        lemma_cursor_independent(g, stops, ssd, d, init, empty_start());
        lemma_step_shape(g, stops, ssd, a, loc);
        lemma_step_shape(g, stops, ssd, b, loc);
        let timed = location_stop(g, loc) is Some && location_has_time(loc);
        if timed {
            let sid = location_stop(g, loc).unwrap();
            let i = match_from(stops, b.0, sid).unwrap();
            let q0 = stops[i].1;
            let u = update_of(loc, sid, ssd, Some(q0));
            assert forall|q: u32| #[trigger] entry_of(b.1, q) is Some implies entry_of(t, q) is Some by {
                lemma_upsert_entry(b.1, u, q0, q);
            }
            lemma_fold_positions(g, stops, ssd, d, t, p);
            lemma_upsert_entry(b.1, u, q0, q0);
            lemma_entry_seq(t, q0);
            lemma_first_index(t, visit_is(q0));
            let k0 = first_index(t, visit_is(q0)).unwrap();
            // a has the visits of t, position by position
            assert forall|k: int| 0 <= k < a.1.len() implies (#[trigger] a.1[k]).stop_sequence == t[k].stop_sequence by {
                match t[k].stop_sequence {
                    Some(q) => {
                        lemma_entry_seq(b.1, q);
                    },
                    None => {},
                }
            }
            assert forall|k: int| 0 <= k < k0 implies !crate::merge::same_visit(u)(#[trigger] a.1[k]) by {
                assert(!visit_is(q0)(t[k]));
            }
            lemma_first_index_is(a.1, crate::merge::same_visit(u), Some(k0));
            let r = upsert_update(a.1, u);
            assert(r == a.1.update(k0, u));
            assert forall|k: int| 0 <= k < t.len() implies #[trigger] r[k] == match t[k].stop_sequence {
                Some(q) => match entry_of(wl, q) {
                    Some(w) => w,
                    None => t[k],
                },
                None => t[k],
            } by {
                match t[k].stop_sequence {
                    Some(q) => {
                        lemma_upsert_entry(b.1, u, q0, q);
                        if k != k0 && q == q0 {
                            assert(update_visit()(t[k]) == update_visit()(t[k0]));
                        }
                    },
                    None => {},
                }
            }
        } else {
            lemma_fold_positions(g, stops, ssd, d, t, p);
        }
    }
}

/// The static route a TrainStatus is matched against.
pub open spec fn route_of(g: GtfsData, ts: TrainStatus, date: Date) -> Seq<(Seq<char>, u32)> {
    match g.trip_for(ts.uid@, date) {
        Some(tid) => match g.stops_of(tid) {
            Some(s) => s,
            None => Seq::empty(),
        },
        None => Seq::empty(),
    }
}

/// Folding the same TrainStatus a second time changes nothing, provided
/// every timed location is matched to a visit of the route.
pub proof fn lemma_status_idempotent(m: StateView, g: GtfsData, ts: TrainStatus, date: Date)
    requires
        m.wf(),
        all_timed_matched(g, route_of(g, ts, date), ts.ssd@, ts.locations@),
    ensures
        apply_status(apply_status(m, g, ts, date), g, ts, date) == apply_status(m, g, ts, date),
{
    let m1 = apply_status(m, g, ts, date);
    let m2 = apply_status(m1, g, ts, date);
    match g.trip_for(ts.uid@, date) {
        None => {},
        Some(tid) => {
            assert(m1.rids.insert(ts.rid@, tid) =~= m1.rids);
            if m.entities.contains_key(tid) && m.entities[tid].trip_update is None {
                assert(m2 == m1);
            } else {
                let stops = route_of(g, ts, date);
                let ssd = ts.ssd@;
                let locs = ts.locations@;
                let base = if m.entities.contains_key(tid) {
                    m.entities[tid]
                } else {
                    fresh_trip_entity(tid, start_date_text(date, g.start_time_of(tid)))
                };
                let tu = base.trip_update.unwrap();
                let plats0 = if m.platforms.contains_key(tid) {
                    m.platforms[tid]
                } else {
                    Seq::empty()
                };
                if m.entities.contains_key(tid) {
                    assert(entity_wf(tid, m.entities[tid]));
                } else {
                    assert(unique_by(tu.stop_time_update, update_visit()));
                }
                let init1: MergeState = (0, tu.stop_time_update, plats0, false);
                let f1 = merge_fold(g, stops, ssd, locs, init1);
                lemma_merge_fold_wf(g, stops, ssd, locs, init1);
                lemma_sort_updates_wf(f1.1);
                let t = sort_updates(f1.1);
                let plats1 = if f1.3 {
                    f1.2
                } else {
                    plats0
                };
                assert(m1.entities.contains_key(tid));
                assert(m1.entities[tid].trip_update.unwrap().stop_time_update == t);
                assert(m1.platforms.contains_key(tid) ==> m1.platforms[tid] == plats1);
                assert(!m1.platforms.contains_key(tid) ==> plats1 =~= Seq::<PlatformInfoView>::empty());
                let init2: MergeState = (0, t, plats1, false);
                let f2 = merge_fold(g, stops, ssd, locs, init2);
                let w = merge_fold(g, stops, ssd, locs, empty_start()).1;
                // every visit written is in t, with its last written entry
                assert forall|q: u32| #[trigger] entry_of(w, q) is Some implies entry_of(t, q) == entry_of(w, q) by {
                    lemma_fold_entries(g, stops, ssd, locs, init1, q);
                    lemma_entry_seq(w, q);
                    lemma_entry_seq(f1.1, q);
                    let e = entry_of(w, q).unwrap();
                    let k1 = choose|k: int| 0 <= k < f1.1.len() && f1.1[k] == e;
                    lemma_sort_by_elems_rev(f1.1, update_key());
                    assert(t.contains(f1.1[k1]));
                    let k = choose|k: int| 0 <= k < t.len() && t[k] == e;
                    lemma_entry_unique(t, q, k);
                }
                lemma_fold_positions(g, stops, ssd, locs, t, plats1);
                assert forall|k: int| 0 <= k < t.len() implies #[trigger] f2.1[k] == t[k] by {
                    match t[k].stop_sequence {
                        Some(q) => {
                            if entry_of(w, q) is Some {
                                lemma_entry_unique(t, q, k);
                            }
                        },
                        None => {},
                    }
                }
                assert(f2.1 =~= t);
                crate::merge::lemma_sort_by_sorted_id(t, update_key());
                assert(sort_updates(f2.1) == t);
                // the platform list
                lemma_cursor_independent(g, stops, ssd, locs, init1, init2);
                assert(f2.3 == f1.3);
                if f1.3 {
                    assert forall|q: u32| #[trigger] plat_at(f2.2, q) == plat_at(f1.2, q) by {
                        lemma_fold_plats(g, stops, ssd, locs, init1, q);
                        lemma_fold_plats(g, stops, ssd, locs, init2, q);
                    }
                    lemma_fold_plats(g, stops, ssd, locs, init1, 0);
                    lemma_fold_plats(g, stops, ssd, locs, init2, 0);
                    lemma_plats_ext(f2.2, f1.2);
                    assert(m2.platforms =~= m1.platforms);
                }
                assert(m2.entities =~= m1.entities);
            }
        },
    }
}

} // verus!
