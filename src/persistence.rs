//! What a snapshot holds and how it is restored: every entity under its own
//! id, and every platform list under its trip. Writing and reading the files
//! is left to the caller.

use vstd::prelude::*;

use crate::merge::{
    carriage_key, carriage_rank, carriages_wf, plats_sorted, update_key,
    update_visit, updates_wf,
};
use crate::state::{
    carriages_view, entity_get, entity_insert, entity_keys, entity_wf, platform_get, platform_insert,
    platform_keys, platforms_view, updates_view, AppState, CarriageDetails, FeedEntity,
    FeedEntityView, PlatformInfo, PlatformInfoView, StateView, StopTimeUpdate,
};

verus! {

fn update_key_of(u: &StopTimeUpdate) -> (r: u32)
    ensures
        r as int == update_key()(u@),
{
    match u.stop_sequence {
        Some(q) => q,
        None => 0,
    }
}

fn updates_ok(us: &Vec<StopTimeUpdate>) -> (r: bool)
    ensures
        r == updates_wf(updates_view(us@)),
{
    let ghost s = updates_view(us@);
    let mut i: usize = 0;
    while i < us.len()
        invariant
            i <= us@.len(),
            s == updates_view(us@),
            forall|a: int, b: int| 0 <= a < i && a < b < s.len() ==> update_key()(s[a]) <= update_key()(s[b]),
            forall|a: int, b: int|
                0 <= a < i && 0 <= b < s.len() && a != b && update_visit()(s[a]) is Some ==> update_visit()(
                    s[a],
                ) != update_visit()(s[b]),
        decreases us@.len() - i,
    {
        let mut j: usize = 0;
        while j < us.len()
            invariant
                i < us@.len(),
                j <= us@.len(),
                s == updates_view(us@),
                forall|b: int| i < b < j ==> update_key()(s[i as int]) <= update_key()(#[trigger] s[b]),
                forall|b: int|
                    0 <= b < j && b != i && update_visit()(s[i as int]) is Some ==> update_visit()(s[i as int])
                        != update_visit()(#[trigger] s[b]),
            decreases us@.len() - j,
        {
            if j > i && update_key_of(&us[i]) > update_key_of(&us[j]) {
                proof {
                    assert(s[i as int] == us@[i as int]@ && s[j as int] == us@[j as int]@);
                    assert(!(update_key()(s[i as int]) <= update_key()(s[j as int])));
                }
                return false;
            }
            if j != i {
                match (us[i].stop_sequence, us[j].stop_sequence) {
                    (Some(x), Some(y)) => {
                        if x == y {
                            proof {
                                assert(s[i as int] == us@[i as int]@ && s[j as int] == us@[j as int]@);
                                assert(update_visit()(s[i as int]) == update_visit()(s[j as int]));
                            }
                            return false;
                        }
                    },
                    _ => {},
                }
            }
            j = j + 1;
        }
        i = i + 1;
    }
    true
}

fn carriage_key_of(c: &CarriageDetails) -> (r: u32)
    ensures
        r as int == carriage_key()(c@),
{
    match c.carriage_sequence {
        Some(q) => q,
        None => 0,
    }
}

fn carriages_ok(cs: &Vec<CarriageDetails>) -> (r: bool)
    ensures
        r == carriages_wf(carriages_view(cs@)),
{
    let ghost s = carriages_view(cs@);
    let mut i: usize = 0;
    while i < cs.len()
        invariant
            i <= cs@.len(),
            s == carriages_view(cs@),
            forall|a: int, b: int| 0 <= a < i && a < b < s.len() ==> carriage_key()(s[a]) <= carriage_key()(s[b]),
            forall|a: int, b: int|
                0 <= a < i && 0 <= b < s.len() && a != b && carriage_rank()(s[a]) is Some ==> carriage_rank()(
                    s[a],
                ) != carriage_rank()(s[b]),
        decreases cs@.len() - i,
    {
        let mut j: usize = 0;
        while j < cs.len()
            invariant
                i < cs@.len(),
                j <= cs@.len(),
                s == carriages_view(cs@),
                forall|b: int| i < b < j ==> carriage_key()(s[i as int]) <= carriage_key()(#[trigger] s[b]),
                forall|b: int|
                    0 <= b < j && b != i && carriage_rank()(s[i as int]) is Some ==> carriage_rank()(
                        s[i as int],
                    ) != carriage_rank()(#[trigger] s[b]),
            decreases cs@.len() - j,
        {
            if j > i && carriage_key_of(&cs[i]) > carriage_key_of(&cs[j]) {
                proof {
                    assert(s[i as int] == cs@[i as int]@ && s[j as int] == cs@[j as int]@);
                    assert(!(carriage_key()(s[i as int]) <= carriage_key()(s[j as int])));
                }
                return false;
            }
            if j != i {
                match (cs[i].carriage_sequence, cs[j].carriage_sequence) {
                    (Some(x), Some(y)) => {
                        if x == y {
                            proof {
                                assert(s[i as int] == cs@[i as int]@ && s[j as int] == cs@[j as int]@);
                                assert(carriage_rank()(s[i as int]) == carriage_rank()(s[j as int]));
                            }
                            return false;
                        }
                    },
                    _ => {},
                }
            }
            j = j + 1;
        }
        i = i + 1;
    }
    true
}

fn platforms_ok(ps: &Vec<PlatformInfo>) -> (r: bool)
    ensures
        r == plats_sorted(platforms_view(ps@)),
{
    let ghost s = platforms_view(ps@);
    let mut i: usize = 0;
    while i < ps.len()
        invariant
            i <= ps@.len(),
            s == platforms_view(ps@),
            forall|a: int, b: int| 0 <= a < i && a < b < s.len() ==> s[a].sequence < s[b].sequence,
        decreases ps@.len() - i,
    {
        let mut j: usize = i + 1;
        while j < ps.len()
            invariant
                i < ps@.len(),
                i < j <= ps@.len(),
                s == platforms_view(ps@),
                forall|b: int| i < b < j ==> s[i as int].sequence < (#[trigger] s[b]).sequence,
            decreases ps@.len() - j,
        {
            if ps[i].sequence >= ps[j].sequence {
                proof {
                    assert(s[i as int] == ps@[i as int]@ && s[j as int] == ps@[j as int]@);
                }
                return false;
            }
            j = j + 1;
        }
        i = i + 1;
    }
    true
}

/// Whether an entity may be stored under its own id.
pub fn entity_ok(e: &FeedEntity) -> (r: bool)
    ensures
        r == entity_wf(e.id@, e@),
{
    if e.trip_update.is_some() == e.vehicle.is_some() {
        return false;
    }
    let a = match &e.trip_update {
        Some(tu) => updates_ok(&tu.stop_time_update),
        None => true,
    };
    let b = match &e.vehicle {
        Some(vp) => carriages_ok(&vp.multi_carriage_details),
        None => true,
    };
    a && b
}

/// A snapshot: each entity once, each platform list once with its trip.
pub open spec fn is_snapshot(
    m: StateView,
    es: Seq<FeedEntityView>,
    ps: Seq<(Seq<char>, Seq<PlatformInfoView>)>,
) -> bool {
    &&& forall|i: int| 0 <= i < es.len() ==> m.entities.contains_key(#[trigger] es[i].id) && m.entities[es[i].id] == es[i]
    &&& forall|k: Seq<char>| #[trigger] m.entities.contains_key(k) ==> exists|i: int| 0 <= i < es.len() && es[i].id == k
    &&& forall|i: int, j: int| 0 <= i < j < es.len() ==> es[i].id != es[j].id
    &&& forall|i: int| 0 <= i < ps.len() ==> m.platforms.contains_key(#[trigger] ps[i].0) && m.platforms[ps[i].0] == ps[i].1
    &&& forall|k: Seq<char>| #[trigger] m.platforms.contains_key(k) ==> exists|i: int| 0 <= i < ps.len() && ps[i].0 == k
    &&& forall|i: int, j: int| 0 <= i < j < ps.len() ==> ps[i].0 != ps[j].0
}

pub open spec fn entities_view(s: Seq<FeedEntity>) -> Seq<FeedEntityView> {
    s.map_values(|e: FeedEntity| e@)
}

pub open spec fn platform_lists_view(s: Seq<(String, Vec<PlatformInfo>)>) -> Seq<(Seq<char>, Seq<PlatformInfoView>)> {
    s.map_values(|p: (String, Vec<PlatformInfo>)| (p.0@, platforms_view(p.1@)))
}

/// Every entity of the state, each once, in no particular order.
pub fn snapshot_entities(state: &AppState) -> (r: Vec<FeedEntity>)
    requires
        state.wf(),
    ensures
        forall|i: int| 0 <= i < r@.len() ==> state@.entities.contains_key(#[trigger] entities_view(r@)[i].id)
            && state@.entities[entities_view(r@)[i].id] == entities_view(r@)[i],
        forall|k: Seq<char>| #[trigger]
            state@.entities.contains_key(k) ==> exists|i: int| 0 <= i < r@.len() && entities_view(r@)[i].id == k,
        forall|i: int, j: int| 0 <= i < j < r@.len() ==> entities_view(r@)[i].id != entities_view(r@)[j].id,
{
    let keys = entity_keys(&state.trip_updates);
    let mut out: Vec<FeedEntity> = Vec::new();
    let mut i: usize = 0;
    while i < keys.len()
        invariant
            i <= keys@.len(),
            state.wf(),
            out@.len() == i,
            forall|j: int| 0 <= j < keys@.len() ==> state@.entities.contains_key(#[trigger] keys@[j]@),
            forall|a: int, b: int| 0 <= a < b < keys@.len() ==> keys@[a]@ != keys@[b]@,
            forall|j: int| 0 <= j < i ==> #[trigger] out@[j]@ == state@.entities[keys@[j]@],
        decreases keys@.len() - i,
    {
        match entity_get(&state.trip_updates, keys[i].as_str()) {
            Some(e) => {
                out.push(e);
            },
            None => {
                assert(false);
                return out;
            },
        }
        i = i + 1;
    }
    proof {
        assert forall|j: int| 0 <= j < out@.len() implies #[trigger] entities_view(out@)[j].id == keys@[j]@ by {
            assert(entity_wf(keys@[j]@, state@.entities[keys@[j]@]));
        }
        assert forall|k: Seq<char>| #[trigger] state@.entities.contains_key(k) implies exists|j: int|
            0 <= j < out@.len() && entities_view(out@)[j].id == k by {
            let j = choose|j: int| 0 <= j < keys@.len() && keys@[j]@ == k;
            assert(entities_view(out@)[j].id == keys@[j]@);
        }
    }
    out
}

/// Every platform list of the state with its trip, each once.
pub fn snapshot_platforms(state: &AppState) -> (r: Vec<(String, Vec<PlatformInfo>)>)
    ensures
        forall|i: int|
            0 <= i < r@.len() ==> state@.platforms.contains_key(#[trigger] platform_lists_view(r@)[i].0)
                && state@.platforms[platform_lists_view(r@)[i].0] == platform_lists_view(r@)[i].1,
        forall|k: Seq<char>| #[trigger]
            state@.platforms.contains_key(k) ==> exists|i: int| 0 <= i < r@.len() && platform_lists_view(r@)[i].0 == k,
        forall|i: int, j: int| 0 <= i < j < r@.len() ==> platform_lists_view(r@)[i].0 != platform_lists_view(r@)[j].0,
{
    let keys = platform_keys(&state.platforms_v2);
    let mut out: Vec<(String, Vec<PlatformInfo>)> = Vec::new();
    let mut i: usize = 0;
    while i < keys.len()
        invariant
            i <= keys@.len(),
            out@.len() == i,
            forall|j: int| 0 <= j < keys@.len() ==> state@.platforms.contains_key(#[trigger] keys@[j]@),
            forall|a: int, b: int| 0 <= a < b < keys@.len() ==> keys@[a]@ != keys@[b]@,
            forall|j: int|
                0 <= j < i ==> #[trigger] platform_lists_view(out@)[j] == (keys@[j]@, state@.platforms[keys@[j]@]),
        decreases keys@.len() - i,
    {
        match platform_get(&state.platforms_v2, keys[i].as_str()) {
            Some(v) => {
                let ghost before = out@;
                let kc = keys[i].clone();
                let ghost vv = platforms_view(v@);
                out.push((kc, v));
                assert(platform_lists_view(out@)[i as int] == (kc@, vv));
                assert forall|j: int| 0 <= j < i + 1 implies #[trigger] platform_lists_view(out@)[j] == (
                    keys@[j]@,
                    state@.platforms[keys@[j]@],
                ) by {
                    if j < i {
                        assert(out@[j] == before[j]);
                        assert(platform_lists_view(out@)[j] == platform_lists_view(before)[j]);
                    }
                }
            },
            None => {
                assert(false);
                return out;
            },
        }
        i = i + 1;
    }
    proof {
        assert forall|k: Seq<char>| #[trigger] state@.platforms.contains_key(k) implies exists|j: int|
            0 <= j < out@.len() && platform_lists_view(out@)[j].0 == k by {
            let j = choose|j: int| 0 <= j < keys@.len() && keys@[j]@ == k;
            assert(platform_lists_view(out@)[j].0 == keys@[j]@);
        }
    }
    out
}

/// Restoring stores each well-formed entity under its own id, and each
/// sorted platform list under its trip; anything else is skipped.
pub open spec fn restore_entities(m: Map<Seq<char>, FeedEntityView>, es: Seq<FeedEntityView>) -> Map<Seq<char>, FeedEntityView>
    decreases es.len(),
{
    if es.len() == 0 {
        m
    } else {
        let prev = restore_entities(m, es.drop_last());
        let e = es.last();
        if entity_wf(e.id, e) {
            prev.insert(e.id, e)
        } else {
            prev
        }
    }
}

pub open spec fn restore_platforms(
    m: Map<Seq<char>, Seq<PlatformInfoView>>,
    ps: Seq<(Seq<char>, Seq<PlatformInfoView>)>,
) -> Map<Seq<char>, Seq<PlatformInfoView>>
    decreases ps.len(),
{
    if ps.len() == 0 {
        m
    } else {
        let prev = restore_platforms(m, ps.drop_last());
        let p = ps.last();
        if plats_sorted(p.1) {
            prev.insert(p.0, p.1)
        } else {
            prev
        }
    }
}

pub fn restore_state(state: &mut AppState, entities: Vec<FeedEntity>, platforms: Vec<(String, Vec<PlatformInfo>)>)
    requires
        old(state).wf(),
    ensures
        final(state)@.entities == restore_entities(old(state)@.entities, entities_view(entities@)),
        final(state)@.platforms == restore_platforms(old(state)@.platforms, platform_lists_view(platforms@)),
        final(state)@.rids == old(state)@.rids,
        final(state)@.messages == old(state)@.messages,
        final(state).gtfs == old(state).gtfs,
        final(state).wf(),
{
    let ghost ev = entities_view(entities@);
    let ghost pv = platform_lists_view(platforms@);
    let mut rest = entities;
    let mut n: usize = 0;
    let total = rest.len();
    while rest.len() > 0
        invariant
            ev.len() == total,
            n + rest@.len() == total,
            entities_view(rest@) == ev.skip(n as int),
            state.wf(),
            state.gtfs == old(state).gtfs,
            state@.rids == old(state)@.rids,
            state@.messages == old(state)@.messages,
            state@.platforms == old(state)@.platforms,
            state@.entities == restore_entities(old(state)@.entities, ev.take(n as int)),
        decreases rest@.len(),
    {
        let ghost r0 = entities_view(rest@);
        let e = rest.remove(0);
        assert(entities_view(rest@) =~= r0.subrange(1, r0.len() as int));
        assert(r0.subrange(1, r0.len() as int) =~= ev.skip(n + 1));
        assert(e@ == ev[n as int]) by {
            assert(ev.skip(n as int)[0] == ev[n as int]);
        }
        assert(ev.take(n + 1).drop_last() =~= ev.take(n as int));
        if entity_ok(&e) {
            let id = e.id.clone();
            entity_insert(&mut state.trip_updates, id.as_str(), e);
        }
        n = n + 1;
    }
    assert(ev.take(n as int) =~= ev);
    let mut rest = platforms;
    let mut n: usize = 0;
    let total = rest.len();
    while rest.len() > 0
        invariant
            pv.len() == total,
            n + rest@.len() == total,
            platform_lists_view(rest@) == pv.skip(n as int),
            state.wf(),
            state.gtfs == old(state).gtfs,
            state@.rids == old(state)@.rids,
            state@.messages == old(state)@.messages,
            state@.entities == restore_entities(old(state)@.entities, ev),
            state@.platforms == restore_platforms(old(state)@.platforms, pv.take(n as int)),
        decreases rest@.len(),
    {
        let ghost r0 = platform_lists_view(rest@);
        let (k, list) = rest.remove(0);
        assert(platform_lists_view(rest@) =~= r0.subrange(1, r0.len() as int));
        assert(r0.subrange(1, r0.len() as int) =~= pv.skip(n + 1));
        assert((k@, platforms_view(list@)) == pv[n as int]) by {
            assert(pv.skip(n as int)[0] == pv[n as int]);
        }
        assert(pv.take(n + 1).drop_last() =~= pv.take(n as int));
        if platforms_ok(&list) {
            platform_insert(&mut state.platforms_v2, k.as_str(), list);
        }
        n = n + 1;
    }
    assert(pv.take(n as int) =~= pv);
}

proof fn lemma_restore_entities_prefix(m: StateView, es: Seq<FeedEntityView>, n: int)
    requires
        m.wf(),
        0 <= n <= es.len(),
        forall|i: int| 0 <= i < es.len() ==> m.entities.contains_key(#[trigger] es[i].id) && m.entities[es[i].id] == es[i],
    ensures
        forall|k: Seq<char>| #[trigger]
            restore_entities(Map::empty(), es.take(n)).contains_key(k) == exists|i: int| 0 <= i < n && es[i].id == k,
        forall|k: Seq<char>| #[trigger]
            restore_entities(Map::empty(), es.take(n)).contains_key(k) ==> restore_entities(Map::empty(), es.take(n))[k]
                == m.entities[k],
    decreases n,
{
    if n > 0 {
        lemma_restore_entities_prefix(m, es, n - 1);
        assert(es.take(n).drop_last() =~= es.take(n - 1));
        let e = es[n - 1];
        assert(es.take(n).last() == e);
        assert(entity_wf(e.id, m.entities[e.id]));
        let prev = restore_entities(Map::empty(), es.take(n - 1));
        let r = restore_entities(Map::empty(), es.take(n));
        assert(r == prev.insert(e.id, e));
        assert forall|k: Seq<char>| #[trigger] r.contains_key(k) == exists|i: int| 0 <= i < n && es[i].id == k by {
            if exists|i: int| 0 <= i < n && es[i].id == k {
                let i = choose|i: int| 0 <= i < n && es[i].id == k;
                if i < n - 1 {
                    assert(prev.contains_key(k));
                }
            } else {
                assert(k != e.id);
                assert(!prev.contains_key(k));
            }
        }
    }
}

proof fn lemma_restore_platforms_prefix(m: StateView, ps: Seq<(Seq<char>, Seq<PlatformInfoView>)>, n: int)
    requires
        m.wf(),
        0 <= n <= ps.len(),
        forall|i: int| 0 <= i < ps.len() ==> m.platforms.contains_key(#[trigger] ps[i].0) && m.platforms[ps[i].0] == ps[i].1,
    ensures
        forall|k: Seq<char>| #[trigger]
            restore_platforms(Map::empty(), ps.take(n)).contains_key(k) == exists|i: int| 0 <= i < n && ps[i].0 == k,
        forall|k: Seq<char>| #[trigger]
            restore_platforms(Map::empty(), ps.take(n)).contains_key(k) ==> restore_platforms(Map::empty(), ps.take(n))[k]
                == m.platforms[k],
    decreases n,
{
    if n > 0 {
        lemma_restore_platforms_prefix(m, ps, n - 1);
        assert(ps.take(n).drop_last() =~= ps.take(n - 1));
        let p = ps[n - 1];
        assert(ps.take(n).last() == p);
        assert(plats_sorted(m.platforms[p.0]));
        let prev = restore_platforms(Map::empty(), ps.take(n - 1));
        let r = restore_platforms(Map::empty(), ps.take(n));
        assert(r == prev.insert(p.0, p.1));
        assert forall|k: Seq<char>| #[trigger] r.contains_key(k) == exists|i: int| 0 <= i < n && ps[i].0 == k by {
            if exists|i: int| 0 <= i < n && ps[i].0 == k {
                let i = choose|i: int| 0 <= i < n && ps[i].0 == k;
                if i < n - 1 {
                    assert(prev.contains_key(k));
                }
            } else {
                assert(k != p.0);
                assert(!prev.contains_key(k));
            }
        }
    }
}

/// Restoring a snapshot of a well-formed state into an empty one gives back
/// the same entities (keys, stop-time updates and all) and the same platform
/// lists.
pub proof fn lemma_snapshot_round_trip(
    m: StateView,
    es: Seq<FeedEntityView>,
    ps: Seq<(Seq<char>, Seq<PlatformInfoView>)>,
)
    requires
        m.wf(),
        is_snapshot(m, es, ps),
    ensures
        restore_entities(Map::empty(), es) == m.entities,
        restore_platforms(Map::empty(), ps) == m.platforms,
{
    lemma_restore_entities_prefix(m, es, es.len() as int);
    lemma_restore_platforms_prefix(m, ps, ps.len() as int);
    assert(es.take(es.len() as int) =~= es);
    assert(ps.take(ps.len() as int) =~= ps);
    assert(restore_entities(Map::empty(), es) =~= m.entities);
    assert(restore_platforms(Map::empty(), ps) =~= m.platforms);
}

} // verus!
