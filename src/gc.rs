//! Evicts trips whose last reported event is older than a threshold.

use std::time::Duration;
use vstd::prelude::*;

use crate::processor::now_timestamp;
use crate::state::{
    entity_get, entity_keys, entity_remove, platform_remove, text_entries, text_remove, AppState,
    FeedEntity, FeedEntityView, StateView, StopTimeEvent, StopTimeUpdateView,
    updates_view,
};

verus! {

pub open spec fn opt_max(a: Option<i64>, b: Option<i64>) -> Option<i64> {
    match (a, b) {
        (Some(x), Some(y)) => Some(if y > x { y } else { x }),
        (Some(x), None) => Some(x),
        (None, y) => y,
    }
}

pub open spec fn event_time(e: Option<StopTimeEvent>) -> Option<i64> {
    match e {
        Some(ev) => ev.time,
        None => None,
    }
}

/// The latest arrival or departure time among the updates.
pub open spec fn last_activity(us: Seq<StopTimeUpdateView>) -> Option<i64>
    decreases us.len(),
{
    if us.len() == 0 {
        None
    } else {
        opt_max(
            opt_max(last_activity(us.drop_last()), event_time(us.last().arrival)),
            event_time(us.last().departure),
        )
    }
}

/// A trip update whose last event plus the threshold is before `now`; an
/// entity with no time at all is kept.
pub open spec fn expired(e: FeedEntityView, threshold: u64, now: i64) -> bool {
    match e.trip_update {
        Some(tu) => match last_activity(tu.stop_time_update) {
            Some(t) => t + threshold < now,
            None => false,
        },
        None => false,
    }
}

pub open spec fn expired_keys(m: StateView, threshold: u64, now: i64) -> Set<Seq<char>> {
    Set::new(|k: Seq<char>| m.entities.contains_key(k) && expired(m.entities[k], threshold, now))
}

/// The expired trips leave the entities and the platform lists, and every
/// rid that maps to one of them leaves the rid map.
pub open spec fn gc_result(m: StateView, threshold: u64, now: i64) -> StateView {
    let gone = expired_keys(m, threshold, now);
    StateView {
        entities: m.entities.remove_keys(gone),
        platforms: m.platforms.remove_keys(gone),
        rids: Map::new(
            |r: Seq<char>| m.rids.contains_key(r) && !gone.contains(m.rids[r]),
            |r: Seq<char>| m.rids[r],
        ),
        messages: m.messages,
    }
}

fn max_time(a: Option<i64>, b: Option<i64>) -> (r: Option<i64>)
    ensures
        r == opt_max(a, b),
{
    match (a, b) {
        (Some(x), Some(y)) => Some(if y > x { y } else { x }),
        (Some(x), None) => Some(x),
        (None, y) => y,
    }
}

fn event_secs(e: &Option<StopTimeEvent>) -> (r: Option<i64>)
    ensures
        r == event_time(*e),
{
    match e {
        Some(ev) => ev.time,
        None => None,
    }
}

fn is_expired(e: &FeedEntity, threshold: u64, now: i64) -> (r: bool)
    ensures
        r == expired(e@, threshold, now),
{
    match &e.trip_update {
        Some(tu) => {
            let us = &tu.stop_time_update;
            let mut latest: Option<i64> = None;
            let mut i: usize = 0;
            while i < us.len()
                invariant
                    i <= us@.len(),
                    latest == last_activity(updates_view(us@).take(i as int)),
                decreases us@.len() - i,
            {
                latest = max_time(max_time(latest, event_secs(&us[i].arrival)), event_secs(&us[i].departure));
                assert(updates_view(us@).take(i + 1).drop_last() =~= updates_view(us@).take(i as int));
                i = i + 1;
            }
            assert(updates_view(us@).take(i as int) =~= updates_view(us@));
            match latest {
                Some(t) => (t as i128) + (threshold as i128) < (now as i128),
                None => false,
            }
        },
        None => false,
    }
}

fn contains_text(v: &Vec<String>, s: &String) -> (r: bool)
    ensures
        r == exists|i: int| 0 <= i < v@.len() && v@[i]@ == s@,
{
    let mut i: usize = 0;
    while i < v.len()
        invariant
            i <= v@.len(),
            forall|j: int| 0 <= j < i ==> v@[j]@ != s@,
        decreases v@.len() - i,
    {
        if v[i] == *s {
            return true;
        }
        i = i + 1;
    }
    false
}

/// Removes the trips whose last event plus `threshold` seconds is before
/// `now` (seconds since the Unix epoch).
pub fn cleanup_old_trips_at(state: &mut AppState, threshold: u64, now: i64)
    requires
        old(state).wf(),
    ensures
        final(state)@ == gc_result(old(state)@, threshold, now),
        final(state).gtfs == old(state).gtfs,
        final(state).wf(),
{
    let ghost m = state@;
    let ghost gone = expired_keys(m, threshold, now);
    let keys = entity_keys(&state.trip_updates);
    let mut removed: Vec<String> = Vec::new();
    let mut i: usize = 0;
    while i < keys.len()
        invariant
            i <= keys@.len(),
            state@ == m,
            gone == expired_keys(m, threshold, now),
            forall|j: int| 0 <= j < keys@.len() ==> m.entities.contains_key(#[trigger] keys@[j]@),
            forall|j: int| 0 <= j < removed@.len() ==> gone.contains(#[trigger] removed@[j]@),
            forall|j: int|
                0 <= j < i && gone.contains(#[trigger] keys@[j]@) ==> exists|l: int|
                    0 <= l < removed@.len() && removed@[l]@ == keys@[j]@,
        decreases keys@.len() - i,
    {
        match entity_get(&state.trip_updates, keys[i].as_str()) {
            Some(e) => {
                if is_expired(&e, threshold, now) {
                    let ghost before = removed@;
                    removed.push(keys[i].clone());
                    assert forall|j: int|
                        0 <= j < i + 1 && gone.contains(#[trigger] keys@[j]@) implies exists|l: int|
                        0 <= l < removed@.len() && removed@[l]@ == keys@[j]@ by {
                        if j < i {
                            let l = choose|l: int| 0 <= l < before.len() && before[l]@ == keys@[j]@;
                            assert(removed@[l] == before[l]);
                        } else {
                            assert(removed@[before.len() as int]@ == keys@[j]@);
                        }
                    }
                }
            },
            None => {},
        }
        i = i + 1;
    }
    assert forall|k: Seq<char>| #[trigger] gone.contains(k) implies exists|l: int|
        0 <= l < removed@.len() && removed@[l]@ == k by {
        let j = choose|j: int| 0 <= j < keys@.len() && keys@[j]@ == k;
        assert(gone.contains(keys@[j]@));
    }
    let mut j: usize = 0;
    while j < removed.len()
        invariant
            j <= removed@.len(),
            state.gtfs == old(state).gtfs,
            forall|l: int| 0 <= l < removed@.len() ==> gone.contains(#[trigger] removed@[l]@),
            state@.rids == m.rids,
            state@.messages == m.messages,
            forall|k: Seq<char>| #[trigger]
                state@.entities.contains_key(k) == (m.entities.contains_key(k) && !exists|l: int|
                    0 <= l < j && removed@[l]@ == k),
            forall|k: Seq<char>| #[trigger]
                state@.entities.contains_key(k) ==> state@.entities[k] == m.entities[k],
            forall|k: Seq<char>| #[trigger]
                state@.platforms.contains_key(k) == (m.platforms.contains_key(k) && !exists|l: int|
                    0 <= l < j && removed@[l]@ == k),
            forall|k: Seq<char>| #[trigger]
                state@.platforms.contains_key(k) ==> state@.platforms[k] == m.platforms[k],
        decreases removed@.len() - j,
    {
        let ghost ent0 = state@.entities;
        let ghost plat0 = state@.platforms;
        entity_remove(&mut state.trip_updates, removed[j].as_str());
        platform_remove(&mut state.platforms_v2, removed[j].as_str());
        proof {
            let r = removed@[j as int]@;
            assert forall|k: Seq<char>| #[trigger]
                state@.entities.contains_key(k) == (m.entities.contains_key(k) && !exists|l: int|
                    0 <= l < j + 1 && removed@[l]@ == k) by {
                if exists|l: int| 0 <= l < j + 1 && removed@[l]@ == k {
                    let l = choose|l: int| 0 <= l < j + 1 && removed@[l]@ == k;
                    if l < j {
                        assert(!ent0.contains_key(k));
                    }
                } else {
                    assert(k != r);
                    assert(ent0.contains_key(k) == state@.entities.contains_key(k));
                }
            }
            assert forall|k: Seq<char>| #[trigger]
                state@.platforms.contains_key(k) == (m.platforms.contains_key(k) && !exists|l: int|
                    0 <= l < j + 1 && removed@[l]@ == k) by {
                if exists|l: int| 0 <= l < j + 1 && removed@[l]@ == k {
                    let l = choose|l: int| 0 <= l < j + 1 && removed@[l]@ == k;
                    if l < j {
                        assert(!plat0.contains_key(k));
                    }
                } else {
                    assert(k != r);
                    assert(plat0.contains_key(k) == state@.platforms.contains_key(k));
                }
            }
            assert forall|k: Seq<char>| #[trigger]
                state@.entities.contains_key(k) implies state@.entities[k] == m.entities[k] by {
                assert(ent0.contains_key(k));
            }
        }
        j = j + 1;
    }
    let entries = text_entries(&state.rid_to_trip_id);
    let mut j: usize = 0;
    while j < entries.len()
        invariant
            j <= entries@.len(),
            state.gtfs == old(state).gtfs,
            forall|l: int| 0 <= l < removed@.len() ==> gone.contains(#[trigger] removed@[l]@),
            forall|k: Seq<char>| #[trigger] gone.contains(k) ==> exists|l: int|
                0 <= l < removed@.len() && removed@[l]@ == k,
            forall|l: int|
                0 <= l < entries@.len() ==> m.rids.contains_key(#[trigger] entries@[l].0@) && m.rids[entries@[l].0@]
                    == entries@[l].1@,
            forall|a: int, b: int| 0 <= a < b < entries@.len() ==> entries@[a].0@ != entries@[b].0@,
            forall|k: Seq<char>| #[trigger]
                state@.rids.contains_key(k) == (m.rids.contains_key(k) && !exists|l: int|
                    0 <= l < j && entries@[l].0@ == k && gone.contains(entries@[l].1@)),
            forall|k: Seq<char>| #[trigger] state@.rids.contains_key(k) ==> state@.rids[k] == m.rids[k],
            state@.messages == m.messages,
            state@.entities == m.entities.remove_keys(gone),
            state@.platforms == m.platforms.remove_keys(gone),
        decreases entries@.len() - j,
    {
        let ghost rid0 = state@.rids;
        let hit = contains_text(&removed, &entries[j].1);
        if hit {
            text_remove(&mut state.rid_to_trip_id, entries[j].0.as_str());
        }
        proof {
            let key = entries@[j as int].0@;
            assert(hit == gone.contains(entries@[j as int].1@)) by {
                if gone.contains(entries@[j as int].1@) {
                    let l = choose|l: int| 0 <= l < removed@.len() && removed@[l]@ == entries@[j as int].1@;
                    assert(removed@[l]@ == entries@[j as int].1@);
                }
            }
            assert forall|k: Seq<char>| #[trigger]
                state@.rids.contains_key(k) == (m.rids.contains_key(k) && !exists|l: int|
                    0 <= l < j + 1 && entries@[l].0@ == k && gone.contains(entries@[l].1@)) by {
                if exists|l: int| 0 <= l < j + 1 && entries@[l].0@ == k && gone.contains(entries@[l].1@) {
                    let l = choose|l: int|
                        0 <= l < j + 1 && entries@[l].0@ == k && gone.contains(entries@[l].1@);
                    if l < j {
                        assert(!rid0.contains_key(k));
                    }
                } else {
                    if k == key {
                        assert(!gone.contains(entries@[j as int].1@));
                    }
                    assert(rid0.contains_key(k) == state@.rids.contains_key(k));
                }
            }
            assert forall|k: Seq<char>| #[trigger]
                state@.rids.contains_key(k) implies state@.rids[k] == m.rids[k] by {
                assert(rid0.contains_key(k));
            }
        }
        j = j + 1;
    }
    proof {
        let target = gc_result(m, threshold, now);
        assert forall|k: Seq<char>| #[trigger]
            state@.rids.contains_key(k) == target.rids.contains_key(k) by {
            if m.rids.contains_key(k) {
                let l = choose|l: int| 0 <= l < entries@.len() && entries@[l].0@ == k;
                assert(entries@[l].1@ == m.rids[k]);
            }
        }
        assert(state@.rids =~= target.rids);
    }
}

/// Relies on Duration::as_secs: the whole seconds of the duration.
#[verifier::external_body]
fn whole_seconds(d: &Duration) -> u64 {
    d.as_secs()
}

/// Removes the trips whose last event is older than `threshold` now.
pub fn cleanup_old_trips(state: &mut AppState, threshold: Duration)
    requires
        old(state).wf(),
    ensures
        exists|secs: u64, now: i64| #[trigger] gc_result(old(state)@, secs, now) == final(state)@,
        final(state).gtfs == old(state).gtfs,
        final(state).wf(),
{
    let now = now_timestamp();
    let secs = whole_seconds(&threshold);
    cleanup_old_trips_at(state, secs, now);
}

} // verus!
