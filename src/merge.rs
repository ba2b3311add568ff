//! The list operations of the merge: upsert of a stop-time update by visit,
//! the stable sort by sequence, and the keyed platform and consist lists.

use vstd::prelude::*;

use crate::seq_util::{first_index, lemma_first_index, lemma_first_index_is};
use crate::state::{
    opt_view, platforms_view, updates_view, CarriageDetails, CarriageDetailsView, PlatformInfo,
    PlatformInfoView, StopTimeUpdate, StopTimeUpdateView, carriages_view,
};

verus! {

// ---------------------------------------------------------------------------
// Stable insertion sort by an integer key, and what it preserves.
pub open spec fn insert_by<T>(s: Seq<T>, x: T, key: spec_fn(T) -> int) -> Seq<T>
    decreases s.len(),
{
    if s.len() == 0 {
        seq![x]
    } else if key(s.last()) <= key(x) {
        s.push(x)
    } else {
        insert_by(s.drop_last(), x, key).push(s.last())
    }
}

/// Stable sort: equal keys keep their order.
pub open spec fn sort_by<T>(s: Seq<T>, key: spec_fn(T) -> int) -> Seq<T>
    decreases s.len(),
{
    if s.len() == 0 {
        s
    } else {
        insert_by(sort_by(s.drop_last(), key), s.last(), key)
    }
}

pub open spec fn sorted_by<T>(s: Seq<T>, key: spec_fn(T) -> int) -> bool {
    forall|i: int, j: int| 0 <= i < j < s.len() ==> key(s[i]) <= key(s[j])
}

/// No two positions share an identity; positions without one are free.
pub open spec fn unique_by<T>(s: Seq<T>, id: spec_fn(T) -> Option<int>) -> bool {
    forall|i: int, j: int|
        0 <= i < s.len() && 0 <= j < s.len() && i != j && (#[trigger] id(s[i])) is Some ==> id(s[i])
            != #[trigger] id(s[j])
}

pub proof fn lemma_insert_by_at<T>(s: Seq<T>, x: T, key: spec_fn(T) -> int, p: int)
    requires
        0 <= p <= s.len(),
        forall|j: int| p <= j < s.len() ==> key(#[trigger] s[j]) > key(x),
        p == 0 || key(s[p - 1]) <= key(x),
    ensures
        insert_by(s, x, key) == s.insert(p, x),
    decreases s.len(),
{
    if s.len() == 0 {
        assert(s.insert(p, x) =~= seq![x]);
    } else if p == s.len() {
        assert(s.insert(p, x) =~= s.push(x));
    } else {
        assert(key(s[s.len() - 1]) > key(x));
        lemma_insert_by_at(s.drop_last(), x, key, p);
        assert(s.drop_last().insert(p, x).push(s.last()) =~= s.insert(p, x));
    }
}

pub proof fn lemma_insert_by_is_insert<T>(s: Seq<T>, x: T, key: spec_fn(T) -> int)
    ensures
        exists|p: int| 0 <= p <= s.len() && insert_by(s, x, key) == s.insert(p, x),
    decreases s.len(),
{
    if s.len() == 0 {
        assert(insert_by(s, x, key) == s.insert(0, x));
    } else if key(s.last()) <= key(x) {
        assert(insert_by(s, x, key) == s.insert(s.len() as int, x));
    } else {
        lemma_insert_by_is_insert(s.drop_last(), x, key);
        let p = choose|p: int|
            0 <= p <= s.drop_last().len() && insert_by(s.drop_last(), x, key) == s.drop_last().insert(
                p,
                x,
            );
        assert(s.drop_last().insert(p, x).push(s.last()) =~= s.insert(p, x));
    }
}

pub proof fn lemma_sort_by_elems<T>(s: Seq<T>, key: spec_fn(T) -> int)
    ensures
        sort_by(s, key).len() == s.len(),
        forall|i: int| 0 <= i < s.len() ==> s.contains(#[trigger] sort_by(s, key)[i]),
    decreases s.len(),
{
    if s.len() > 0 {
        let t = sort_by(s.drop_last(), key);
        lemma_sort_by_elems(s.drop_last(), key);
        lemma_insert_by_is_insert(t, s.last(), key);
        let p = choose|p: int| 0 <= p <= t.len() && insert_by(t, s.last(), key) == t.insert(p, s.last());
        assert forall|i: int| 0 <= i < s.len() implies s.contains(#[trigger] sort_by(s, key)[i]) by {
            let r = sort_by(s, key);
            if i < p {
                assert(r[i] == t[i]);
                assert(s.drop_last().contains(t[i]));
                let k = choose|k: int| 0 <= k < s.drop_last().len() && s.drop_last()[k] == t[i];
                assert(s[k] == t[i]);
            } else if i == p {
                assert(r[i] == s[s.len() - 1]);
            } else {
                assert(r[i] == t[i - 1]);
                assert(s.drop_last().contains(t[i - 1]));
                let k = choose|k: int| 0 <= k < s.drop_last().len() && s.drop_last()[k] == t[i - 1];
                assert(s[k] == t[i - 1]);
            }
        }
    }
}

pub proof fn lemma_insert_by_sorted<T>(s: Seq<T>, x: T, key: spec_fn(T) -> int)
    requires
        sorted_by(s, key),
    ensures
        sorted_by(insert_by(s, x, key), key),
    decreases s.len(),
{
    if s.len() > 0 && key(s.last()) > key(x) {
        let d = s.drop_last();
        lemma_insert_by_sorted(d, x, key);
        lemma_insert_by_is_insert(d, x, key);
        let t = insert_by(d, x, key);
        let p = choose|p: int| 0 <= p <= d.len() && t == d.insert(p, x);
        assert forall|i: int| 0 <= i < t.len() implies key(#[trigger] t[i]) <= key(s.last()) by {
            if i < p {
                assert(t[i] == s[i]);
            } else if i > p {
                assert(t[i] == s[i - 1]);
            }
        }
        let r = insert_by(s, x, key);
        assert forall|i: int, j: int| 0 <= i < j < r.len() implies key(r[i]) <= key(r[j]) by {
            if j == r.len() - 1 {
                assert(r[i] == t[i]);
            } else {
                assert(r[i] == t[i] && r[j] == t[j]);
            }
        }
    }
}

pub proof fn lemma_sort_by_elems_rev<T>(s: Seq<T>, key: spec_fn(T) -> int)
    ensures
        forall|i: int| 0 <= i < s.len() ==> sort_by(s, key).contains(#[trigger] s[i]),
    decreases s.len(),
{
    if s.len() > 0 {
        let d = s.drop_last();
        let t = sort_by(d, key);
        lemma_sort_by_elems_rev(d, key);
        lemma_insert_by_is_insert(t, s.last(), key);
        let p = choose|p: int| 0 <= p <= t.len() && insert_by(t, s.last(), key) == t.insert(p, s.last());
        let r = sort_by(s, key);
        assert forall|i: int| 0 <= i < s.len() implies r.contains(#[trigger] s[i]) by {
            if i == s.len() - 1 {
                assert(r[p] == s[i]);
            } else {
                assert(s[i] == d[i]);
                assert(t.contains(d[i]));
                let k = choose|k: int| 0 <= k < t.len() && t[k] == d[i];
                if k < p {
                    assert(r[k] == t[k]);
                } else {
                    assert(r[k + 1] == t[k]);
                }
            }
        }
    }
}

/// Sorting what is already sorted changes nothing.
pub proof fn lemma_sort_by_sorted_id<T>(s: Seq<T>, key: spec_fn(T) -> int)
    requires
        sorted_by(s, key),
    ensures
        sort_by(s, key) == s,
    decreases s.len(),
{
    if s.len() > 0 {
        let d = s.drop_last();
        assert(sorted_by(d, key));
        lemma_sort_by_sorted_id(d, key);
        if d.len() > 0 {
            assert(key(d.last()) <= key(s.last()));
        }
        assert(d.push(s.last()) =~= s);
    }
}

/// First indices under two predicates that agree on every element agree.
pub proof fn lemma_first_index_free<T>(s: Seq<T>, pa: spec_fn(T) -> bool, pb: spec_fn(T) -> bool)
    requires
        forall|x: T| #[trigger] pa(x) == pb(x),
    ensures
        first_index(s, pa) == first_index(s, pb),
{
    lemma_first_index(s, pa);
    match first_index(s, pa) {
        Some(i) => {
            assert forall|j: int| 0 <= j < i implies !pb(#[trigger] s[j]) by {
                assert(!pa(s[j]));
            }
            lemma_first_index_is(s, pb, Some(i));
        },
        None => {
            assert forall|j: int| 0 <= j < s.len() implies !pb(#[trigger] s[j]) by {
                assert(!pa(s[j]));
            }
            lemma_first_index_is(s, pb, None);
        },
    }
}

pub proof fn lemma_sort_by_sorted<T>(s: Seq<T>, key: spec_fn(T) -> int)
    ensures
        sorted_by(sort_by(s, key), key),
    decreases s.len(),
{
    if s.len() > 0 {
        lemma_sort_by_sorted(s.drop_last(), key);
        lemma_insert_by_sorted(sort_by(s.drop_last(), key), s.last(), key);
    }
}

pub proof fn lemma_insert_unique<T>(s: Seq<T>, x: T, p: int, id: spec_fn(T) -> Option<int>)
    requires
        0 <= p <= s.len(),
        unique_by(s, id),
        id(x) is Some ==> forall|j: int| 0 <= j < s.len() ==> id(#[trigger] s[j]) != id(x),
    ensures
        unique_by(s.insert(p, x), id),
{
    let r = s.insert(p, x);
    assert forall|i: int, j: int|
        0 <= i < r.len() && 0 <= j < r.len() && i != j && (#[trigger] id(r[i])) is Some implies id(r[i])
        != #[trigger] id(r[j]) by {
        let si = if i < p { i } else { i - 1 };
        let sj = if j < p { j } else { j - 1 };
        if i == p {
            assert(r[j] == s[sj]);
        } else if j == p {
            assert(r[i] == s[si]);
        } else {
            assert(r[i] == s[si] && r[j] == s[sj]);
        }
    }
}

pub proof fn lemma_sort_by_unique<T>(s: Seq<T>, key: spec_fn(T) -> int, id: spec_fn(T) -> Option<int>)
    requires
        unique_by(s, id),
    ensures
        unique_by(sort_by(s, key), id),
    decreases s.len(),
{
    if s.len() > 0 {
        let d = s.drop_last();
        let x = s.last();
        assert(unique_by(d, id)) by {
            assert forall|i: int, j: int|
                0 <= i < d.len() && 0 <= j < d.len() && i != j && (#[trigger] id(d[i])) is Some implies id(
                d[i],
            ) != #[trigger] id(d[j]) by {
                assert(d[i] == s[i] && d[j] == s[j]);
            }
        }
        lemma_sort_by_unique(d, key, id);
        lemma_sort_by_elems(d, key);
        let t = sort_by(d, key);
        lemma_insert_by_is_insert(t, x, key);
        let p = choose|p: int| 0 <= p <= t.len() && insert_by(t, x, key) == t.insert(p, x);
        assert forall|j: int| id(x) is Some && 0 <= j < t.len() implies id(#[trigger] t[j]) != id(x) by {
            assert(d.contains(t[j]));
            let k = choose|k: int| 0 <= k < d.len() && d[k] == t[j];
            assert(s[k] == t[j]);
            assert(s[s.len() - 1] == x);
        }
        lemma_insert_unique(t, x, p, id);
    }
}

// ---------------------------------------------------------------------------
// Stop-time updates.
pub open spec fn seq_key(u: StopTimeUpdateView) -> int {
    match u.stop_sequence {
        Some(q) => q as int,
        None => 0,
    }
}

pub open spec fn update_key() -> spec_fn(StopTimeUpdateView) -> int {
    |u: StopTimeUpdateView| seq_key(u)
}

pub open spec fn update_visit() -> spec_fn(StopTimeUpdateView) -> Option<int> {
    |u: StopTimeUpdateView|
        match u.stop_sequence {
            Some(q) => Some(q as int),
            None => None,
        }
}

/// The entry an update replaces: the one of its visit when it has a
/// sequence, else the one of its stop.
pub open spec fn same_visit(u: StopTimeUpdateView) -> spec_fn(StopTimeUpdateView) -> bool {
    |x: StopTimeUpdateView|
        match u.stop_sequence {
            Some(q) => x.stop_sequence == Some(q),
            None => x.stop_id == u.stop_id,
        }
}

/// Replace the first entry of the same visit, else append.
pub open spec fn upsert_update(s: Seq<StopTimeUpdateView>, u: StopTimeUpdateView) -> Seq<StopTimeUpdateView> {
    match first_index(s, same_visit(u)) {
        Some(i) => s.update(i, u),
        None => s.push(u),
    }
}

pub open spec fn sort_updates(s: Seq<StopTimeUpdateView>) -> Seq<StopTimeUpdateView> {
    sort_by(s, update_key())
}

/// Sorted by sequence (an absent one counts as 0), no visit twice.
pub open spec fn updates_wf(s: Seq<StopTimeUpdateView>) -> bool {
    sorted_by(s, update_key()) && unique_by(s, update_visit())
}

pub proof fn lemma_upsert_update_unique(s: Seq<StopTimeUpdateView>, u: StopTimeUpdateView)
    requires
        unique_by(s, update_visit()),
    ensures
        unique_by(upsert_update(s, u), update_visit()),
{
    lemma_first_index(s, same_visit(u));
    let r = upsert_update(s, u);
    match first_index(s, same_visit(u)) {
        Some(k) => {
            assert forall|i: int, j: int|
                0 <= i < r.len() && 0 <= j < r.len() && i != j && (#[trigger] update_visit()(r[i])) is Some
                    implies update_visit()(r[i]) != #[trigger] update_visit()(r[j]) by {
                if i == k {
                    assert(update_visit()(s[k]) == update_visit()(u));
                    assert(r[j] == s[j]);
                } else if j == k {
                    assert(r[i] == s[i]);
                    if u.stop_sequence is Some {
                        assert(update_visit()(s[k]) == update_visit()(u));
                    }
                } else {
                    assert(r[i] == s[i] && r[j] == s[j]);
                }
            }
        },
        None => {
            assert forall|i: int, j: int|
                0 <= i < r.len() && 0 <= j < r.len() && i != j && (#[trigger] update_visit()(r[i])) is Some
                    implies update_visit()(r[i]) != #[trigger] update_visit()(r[j]) by {
                if i == s.len() {
                    assert(r[j] == s[j]);
                    assert(!same_visit(u)(s[j]));
                } else if j == s.len() {
                    assert(r[i] == s[i]);
                    assert(!same_visit(u)(s[i]));
                } else {
                    assert(r[i] == s[i] && r[j] == s[j]);
                }
            }
        },
    }
}

pub proof fn lemma_sort_updates_wf(s: Seq<StopTimeUpdateView>)
    requires
        unique_by(s, update_visit()),
    ensures
        updates_wf(sort_updates(s)),
{
    lemma_sort_by_sorted(s, update_key());
    lemma_sort_by_unique(s, update_key(), update_visit());
}

fn opt_str_eq(a: &Option<String>, b: &Option<String>) -> (r: bool)
    ensures
        r == (opt_view(*a) == opt_view(*b)),
{
    match (a, b) {
        (Some(x), Some(y)) => *x == *y,
        (None, None) => true,
        _ => false,
    }
}

fn is_same_visit(x: &StopTimeUpdate, u: &StopTimeUpdate) -> (r: bool)
    ensures
        r == same_visit(u@)(x@),
{
    match u.stop_sequence {
        Some(q) => match x.stop_sequence {
            Some(p) => p == q,
            None => false,
        },
        None => opt_str_eq(&x.stop_id, &u.stop_id),
    }
}

fn find_same_visit(v: &Vec<StopTimeUpdate>, u: &StopTimeUpdate) -> (r: Option<usize>)
    ensures
        match r {
            Some(i) => i < v@.len() && first_index(updates_view(v@), same_visit(u@)) == Some(i as int),
            None => first_index(updates_view(v@), same_visit(u@)) is None,
        },
{
    let mut i: usize = 0;
    while i < v.len()
        invariant
            i <= v@.len(),
            forall|j: int| 0 <= j < i ==> !same_visit(u@)(#[trigger] updates_view(v@)[j]),
        decreases v@.len() - i,
    {
        if is_same_visit(&v[i], u) {
            proof {
                lemma_first_index_is(updates_view(v@), same_visit(u@), Some(i as int));
            }
            return Some(i);
        }
        i = i + 1;
    }
    proof {
        lemma_first_index_is(updates_view(v@), same_visit(u@), None);
    }
    None
}

pub fn upsert_stop_time(v: &mut Vec<StopTimeUpdate>, u: StopTimeUpdate)
    ensures
        updates_view(final(v)@) == upsert_update(updates_view(old(v)@), u@),
{
    let ghost s0 = updates_view(v@);
    let ghost uv = u@;
    match find_same_visit(v, &u) {
        Some(i) => {
            v.remove(i);
            v.insert(i, u);
            assert(updates_view(v@) =~= s0.update(i as int, uv));
        },
        None => {
            v.push(u);
            assert(updates_view(v@) =~= s0.push(uv));
        },
    }
}

fn update_seq_key(u: &StopTimeUpdate) -> (r: u32)
    ensures
        r as int == seq_key(u@),
{
    match u.stop_sequence {
        Some(q) => q,
        None => 0,
    }
}

/// Stable sort of the updates by sequence, an absent sequence counting as 0.
pub fn sort_stop_times(v: Vec<StopTimeUpdate>) -> (r: Vec<StopTimeUpdate>)
    ensures
        updates_view(r@) == sort_updates(updates_view(v@)),
{
    let ghost all = updates_view(v@);
    let total = v.len();
    let mut rest = v;
    let mut out: Vec<StopTimeUpdate> = Vec::new();
    let mut n: usize = 0;
    while rest.len() > 0
        invariant
            all.len() == total,
            n + rest@.len() == all.len(),
            updates_view(rest@) == all.skip(n as int),
            updates_view(out@) == sort_updates(all.take(n as int)),
        decreases rest@.len(),
    {
        let ghost r0 = updates_view(rest@);
        let x = rest.remove(0);
        let ghost xv = x@;
        assert(updates_view(rest@) =~= r0.subrange(1, r0.len() as int));
        assert(r0.subrange(1, r0.len() as int) =~= all.skip(n + 1));
        assert(xv == all[n as int]) by {
            assert(all.skip(n as int)[0] == all[n as int]);
        }
        let k = update_seq_key(&x);
        let ghost o = updates_view(out@);
        let mut p: usize = out.len();
        while p > 0 && update_seq_key(&out[p - 1]) > k
            invariant
                p <= out@.len(),
                updates_view(out@) == o,
                k as int == seq_key(xv),
                forall|j: int| p <= j < o.len() ==> seq_key(#[trigger] o[j]) > seq_key(xv),
            decreases p,
        {
            p = p - 1;
        }
        proof {
            lemma_insert_by_at(o, xv, update_key(), p as int);
            assert(all.take(n + 1).drop_last() =~= all.take(n as int));
        }
        out.insert(p, x);
        assert(updates_view(out@) =~= o.insert(p as int, xv));
        n = n + 1;
    }
    assert(all.take(n as int) =~= all);
    out
}

// ---------------------------------------------------------------------------
// Consist: carriage details ranked by carriage sequence.
pub open spec fn carriage_key() -> spec_fn(CarriageDetailsView) -> int {
    |c: CarriageDetailsView|
        match c.carriage_sequence {
            Some(q) => q as int,
            None => 0,
        }
}

pub open spec fn carriage_rank() -> spec_fn(CarriageDetailsView) -> Option<int> {
    |c: CarriageDetailsView|
        match c.carriage_sequence {
            Some(q) => Some(q as int),
            None => None,
        }
}

pub open spec fn carriages_wf(s: Seq<CarriageDetailsView>) -> bool {
    sorted_by(s, carriage_key()) && unique_by(s, carriage_rank())
}

pub open spec fn rank_is(q: u32) -> spec_fn(CarriageDetailsView) -> bool {
    |c: CarriageDetailsView| c.carriage_sequence == Some(q)
}

/// Replace the carriage of rank `q`, else append.
pub open spec fn upsert_carriage(s: Seq<CarriageDetailsView>, c: CarriageDetailsView, q: u32) -> Seq<
    CarriageDetailsView,
> {
    match first_index(s, rank_is(q)) {
        Some(i) => s.update(i, c),
        None => s.push(c),
    }
}

pub open spec fn place_carriage(s: Seq<CarriageDetailsView>, c: CarriageDetailsView, q: u32) -> Seq<
    CarriageDetailsView,
> {
    sort_by(upsert_carriage(s, c, q), carriage_key())
}

pub proof fn lemma_place_carriage_wf(s: Seq<CarriageDetailsView>, c: CarriageDetailsView, q: u32)
    requires
        carriages_wf(s),
        c.carriage_sequence == Some(q),
    ensures
        carriages_wf(place_carriage(s, c, q)),
{
    lemma_first_index(s, rank_is(q));
    let r = upsert_carriage(s, c, q);
    let rk = carriage_rank();
    assert forall|i: int, j: int|
        0 <= i < r.len() && 0 <= j < r.len() && i != j && (#[trigger] rk(r[i])) is Some implies rk(r[i])
        != #[trigger] rk(r[j]) by {
        match first_index(s, rank_is(q)) {
            Some(k) => {
                if i == k {
                    assert(r[j] == s[j]);
                    assert(rk(s[k]) == rk(c));
                } else if j == k {
                    assert(r[i] == s[i]);
                    assert(rk(s[k]) == rk(c));
                } else {
                    assert(r[i] == s[i] && r[j] == s[j]);
                }
            },
            None => {
                if i == s.len() {
                    assert(r[j] == s[j]);
                    assert(!rank_is(q)(s[j]));
                } else if j == s.len() {
                    assert(r[i] == s[i]);
                    assert(!rank_is(q)(s[i]));
                } else {
                    assert(r[i] == s[i] && r[j] == s[j]);
                }
            },
        }
    }
    lemma_sort_by_sorted(r, carriage_key());
    lemma_sort_by_unique(r, carriage_key(), carriage_rank());
}

fn find_rank(v: &Vec<CarriageDetails>, q: u32) -> (r: Option<usize>)
    ensures
        match r {
            Some(i) => i < v@.len() && first_index(carriages_view(v@), rank_is(q)) == Some(i as int),
            None => first_index(carriages_view(v@), rank_is(q)) is None,
        },
{
    let mut i: usize = 0;
    while i < v.len()
        invariant
            i <= v@.len(),
            forall|j: int| 0 <= j < i ==> !rank_is(q)(#[trigger] carriages_view(v@)[j]),
        decreases v@.len() - i,
    {
        let hit = match v[i].carriage_sequence {
            Some(x) => x == q,
            None => false,
        };
        if hit {
            proof {
                lemma_first_index_is(carriages_view(v@), rank_is(q), Some(i as int));
            }
            return Some(i);
        }
        i = i + 1;
    }
    proof {
        lemma_first_index_is(carriages_view(v@), rank_is(q), None);
    }
    None
}

fn carriage_seq_key(c: &CarriageDetails) -> (r: u32)
    ensures
        r as int == carriage_key()(c@),
{
    match c.carriage_sequence {
        Some(q) => q,
        None => 0,
    }
}

/// Puts a carriage at rank `q` (replacing the one there), then keeps the
/// consist sorted by rank.
pub fn place_carriage_exec(v: Vec<CarriageDetails>, c: CarriageDetails, q: u32) -> (r: Vec<CarriageDetails>)
    ensures
        carriages_view(r@) == place_carriage(carriages_view(v@), c@, q),
{
    let ghost s0 = carriages_view(v@);
    let ghost cv = c@;
    let mut v = v;
    match find_rank(&v, q) {
        Some(i) => {
            v.remove(i);
            v.insert(i, c);
            assert(carriages_view(v@) =~= s0.update(i as int, cv));
        },
        None => {
            v.push(c);
            assert(carriages_view(v@) =~= s0.push(cv));
        },
    }
    let ghost all = carriages_view(v@);
    let total = v.len();
    let mut rest = v;
    let mut out: Vec<CarriageDetails> = Vec::new();
    let mut n: usize = 0;
    while rest.len() > 0
        invariant
            all.len() == total,
            n + rest@.len() == all.len(),
            carriages_view(rest@) == all.skip(n as int),
            carriages_view(out@) == sort_by(all.take(n as int), carriage_key()),
        decreases rest@.len(),
    {
        let ghost r0 = carriages_view(rest@);
        let x = rest.remove(0);
        let ghost xv = x@;
        assert(carriages_view(rest@) =~= r0.subrange(1, r0.len() as int));
        assert(r0.subrange(1, r0.len() as int) =~= all.skip(n + 1));
        assert(xv == all[n as int]) by {
            assert(all.skip(n as int)[0] == all[n as int]);
        }
        let k = carriage_seq_key(&x);
        let ghost o = carriages_view(out@);
        let mut p: usize = out.len();
        while p > 0 && carriage_seq_key(&out[p - 1]) > k
            invariant
                p <= out@.len(),
                carriages_view(out@) == o,
                k as int == carriage_key()(xv),
                forall|j: int| p <= j < o.len() ==> carriage_key()(#[trigger] o[j]) > carriage_key()(xv),
            decreases p,
        {
            p = p - 1;
        }
        proof {
            lemma_insert_by_at(o, xv, carriage_key(), p as int);
            assert(all.take(n + 1).drop_last() =~= all.take(n as int));
        }
        out.insert(p, x);
        assert(carriages_view(out@) =~= o.insert(p as int, xv));
        n = n + 1;
    }
    assert(all.take(n as int) =~= all);
    out
}

// ---------------------------------------------------------------------------
// Platforms: strictly sorted by sequence.
pub open spec fn plats_sorted(s: Seq<PlatformInfoView>) -> bool {
    forall|i: int, j: int| 0 <= i < j < s.len() ==> s[i].sequence < s[j].sequence
}

pub open spec fn at_or_after(q: u32) -> spec_fn(PlatformInfoView) -> bool {
    |p: PlatformInfoView| p.sequence >= q
}

/// Writes the platform of a visit: replaces the entry of that sequence, or
/// inserts it where the order by sequence puts it.
pub open spec fn put_plat(s: Seq<PlatformInfoView>, w: PlatformInfoView) -> Seq<PlatformInfoView> {
    match first_index(s, at_or_after(w.sequence)) {
        Some(i) => if s[i].sequence == w.sequence {
            s.update(i, w)
        } else {
            s.insert(i, w)
        },
        None => s.push(w),
    }
}

/// The entry of sequence `q`.
pub open spec fn plat_at(s: Seq<PlatformInfoView>, q: u32) -> Option<PlatformInfoView> {
    match first_index(s, |p: PlatformInfoView| p.sequence == q) {
        Some(i) => Some(s[i]),
        None => None,
    }
}

pub proof fn lemma_put_plat(s: Seq<PlatformInfoView>, w: PlatformInfoView)
    requires
        plats_sorted(s),
    ensures
        plats_sorted(put_plat(s, w)),
        forall|q: u32| #[trigger] plat_at(put_plat(s, w), q) == if q == w.sequence {
            Some(w)
        } else {
            plat_at(s, q)
        },
{
    lemma_first_index(s, at_or_after(w.sequence));
    let r = put_plat(s, w);
    let is_q = |q: u32| |p: PlatformInfoView| p.sequence == q;
    assert forall|q: u32| #[trigger] plat_at(r, q) == if q == w.sequence {
        Some(w)
    } else {
        plat_at(s, q)
    } by {
        lemma_first_index(s, |p: PlatformInfoView| p.sequence == q);
        lemma_first_index(r, |p: PlatformInfoView| p.sequence == q);
        match first_index(s, at_or_after(w.sequence)) {
            Some(i) => {
                if s[i].sequence == w.sequence {
                    if q == w.sequence {
                        lemma_first_index_is(r, |p: PlatformInfoView| p.sequence == q, Some(i));
                    } else {
                        lemma_first_index_is(
                            r,
                            |p: PlatformInfoView| p.sequence == q,
                            first_index(s, |p: PlatformInfoView| p.sequence == q),
                        );
                    }
                } else {
                    if q == w.sequence {
                        lemma_first_index_is(r, |p: PlatformInfoView| p.sequence == q, Some(i));
                    } else {
                        match first_index(s, |p: PlatformInfoView| p.sequence == q) {
                            Some(k) => {
                                if k < i {
                                    lemma_first_index_is(r, |p: PlatformInfoView| p.sequence == q, Some(k));
                                } else {
                                    lemma_first_index_is(r, |p: PlatformInfoView| p.sequence == q, Some(k + 1));
                                }
                            },
                            None => {
                                lemma_first_index_is(r, |p: PlatformInfoView| p.sequence == q, None);
                            },
                        }
                    }
                }
            },
            None => {
                if q == w.sequence {
                    lemma_first_index_is(r, |p: PlatformInfoView| p.sequence == q, Some(s.len() as int));
                } else {
                    lemma_first_index_is(
                        r,
                        |p: PlatformInfoView| p.sequence == q,
                        first_index(s, |p: PlatformInfoView| p.sequence == q),
                    );
                }
            },
        }
    }
}

fn find_at_or_after(v: &Vec<PlatformInfo>, q: u32) -> (r: Option<usize>)
    ensures
        match r {
            Some(i) => i < v@.len() && first_index(platforms_view(v@), at_or_after(q)) == Some(i as int),
            None => first_index(platforms_view(v@), at_or_after(q)) is None,
        },
{
    let mut i: usize = 0;
    while i < v.len()
        invariant
            i <= v@.len(),
            forall|j: int| 0 <= j < i ==> !at_or_after(q)(#[trigger] platforms_view(v@)[j]),
        decreases v@.len() - i,
    {
        if v[i].sequence >= q {
            proof {
                lemma_first_index_is(platforms_view(v@), at_or_after(q), Some(i as int));
            }
            return Some(i);
        }
        i = i + 1;
    }
    proof {
        lemma_first_index_is(platforms_view(v@), at_or_after(q), None);
    }
    None
}

pub fn put_platform(v: &mut Vec<PlatformInfo>, w: PlatformInfo)
    ensures
        platforms_view(final(v)@) == put_plat(platforms_view(old(v)@), w@),
{
    let ghost s0 = platforms_view(v@);
    let ghost wv = w@;
    match find_at_or_after(v, w.sequence) {
        Some(i) => {
            if v[i].sequence == w.sequence {
                v.remove(i);
                v.insert(i, w);
                assert(platforms_view(v@) =~= s0.update(i as int, wv));
            } else {
                v.insert(i, w);
                assert(platforms_view(v@) =~= s0.insert(i as int, wv));
            }
        },
        None => {
            v.push(w);
            assert(platforms_view(v@) =~= s0.push(wv));
        },
    }
}

} // verus!
