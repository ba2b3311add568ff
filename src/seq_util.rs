//! Sequence helpers shared by the index and the merge logic: the first
//! position that satisfies a predicate, and lookups in keyed lists.

use vstd::prelude::*;

verus! {

/// The first position in `s` whose element satisfies `p`.
pub open spec fn first_index<T>(s: Seq<T>, p: spec_fn(T) -> bool) -> Option<int>
    decreases s.len(),
{
    if s.len() == 0 {
        None
    } else if p(s[0]) {
        Some(0)
    } else {
        match first_index(s.drop_first(), p) {
            Some(i) => Some(i + 1),
            None => None,
        }
    }
}

pub proof fn lemma_first_index<T>(s: Seq<T>, p: spec_fn(T) -> bool)
    ensures
        match first_index(s, p) {
            Some(i) => 0 <= i < s.len() && p(s[i]) && forall|j: int| 0 <= j < i ==> !p(#[trigger] s[j]),
            None => forall|j: int| 0 <= j < s.len() ==> !p(#[trigger] s[j]),
        },
    decreases s.len(),
{
    if s.len() > 0 {
        lemma_first_index(s.drop_first(), p);
        if !p(s[0]) {
            match first_index(s.drop_first(), p) {
                Some(i) => {
                    assert forall|j: int| 0 <= j < i + 1 implies !p(#[trigger] s[j]) by {
                        if j > 0 {
                            assert(s[j] == s.drop_first()[j - 1]);
                        }
                    }
                },
                None => {
                    assert forall|j: int| 0 <= j < s.len() implies !p(#[trigger] s[j]) by {
                        if j > 0 {
                            assert(s[j] == s.drop_first()[j - 1]);
                        }
                    }
                },
            }
        }
    }
}

/// The characterisation of `first_index` determines it.
pub proof fn lemma_first_index_is<T>(s: Seq<T>, p: spec_fn(T) -> bool, r: Option<int>)
    requires
        match r {
            Some(i) => 0 <= i < s.len() && p(s[i]) && forall|j: int| 0 <= j < i ==> !p(#[trigger] s[j]),
            None => forall|j: int| 0 <= j < s.len() ==> !p(#[trigger] s[j]),
        },
    ensures
        first_index(s, p) == r,
{
    lemma_first_index(s, p);
    match first_index(s, p) {
        Some(i) => {
            match r {
                Some(k) => {
                    if i < k {
                        assert(!p(s[i]));
                    } else if k < i {
                        assert(!p(s[k]));
                    }
                },
                None => {
                    assert(!p(s[i]));
                },
            }
        },
        None => {
            match r {
                Some(k) => {
                    assert(!p(s[k]));
                },
                None => {},
            }
        },
    }
}

pub open spec fn is_char(c: char) -> spec_fn(char) -> bool {
    |x: char| x == c
}

/// The text before and after the first `c`, when `c` occurs.
pub open spec fn split_at_first(t: Seq<char>, c: char) -> Option<(Seq<char>, Seq<char>)> {
    match first_index(t, is_char(c)) {
        Some(i) => Some((t.take(i), t.skip(i + 1))),
        None => None,
    }
}

pub proof fn lemma_split_at_first(t: Seq<char>, c: char, a: Seq<char>, b: Seq<char>)
    requires
        t == a + seq![c] + b,
        !a.contains(c),
    ensures
        split_at_first(t, c) == Some((a, b)),
{
    let n = a.len() as int;
    assert(t[n] == c);
    assert forall|j: int| 0 <= j < n implies !is_char(c)(#[trigger] t[j]) by {
        assert(t[j] == a[j]);
    }
    lemma_first_index_is(t, is_char(c), Some(n));
    assert(t.take(n) =~= a);
    assert(t.skip(n + 1) =~= b);
}

pub proof fn lemma_split_at_first_none(t: Seq<char>, c: char)
    requires
        !t.contains(c),
    ensures
        split_at_first(t, c) is None,
{
    assert forall|j: int| 0 <= j < t.len() implies !is_char(c)(#[trigger] t[j]) by {
        assert(t.contains(t[j]));
    }
    lemma_first_index_is(t, is_char(c), None);
}

/// Relies on str::split_once: the text before and after the first
/// occurrence of the separator, or nothing when it does not occur.
#[verifier::external_body]
pub(crate) fn split_once_char(s: &str, sep: char) -> (r: Option<(String, String)>)
    ensures
        match r {
            Some(p) => s@ == p.0@ + seq![sep] + p.1@ && !p.0@.contains(sep),
            None => !s@.contains(sep),
        },
{
    s.split_once(sep).map(|(a, b)| (a.to_string(), b.to_string()))
}

/// The predicate "the entry's key has these characters".
pub open spec fn key_is<V>(k: Seq<char>) -> spec_fn((String, V)) -> bool {
    |e: (String, V)| e.0@ == k
}

/// The value under the first entry with key `k`.
pub open spec fn lookup<V>(s: Seq<(String, V)>, k: Seq<char>) -> Option<V> {
    match first_index(s, key_is::<V>(k)) {
        Some(i) => Some(s[i].1),
        None => None,
    }
}

/// The position of the first entry whose key is `k`.
pub fn find_key<V>(s: &Vec<(String, V)>, k: &str) -> (r: Option<usize>)
    ensures
        match r {
            Some(i) => i < s@.len() && s@[i as int].0@ == k@ && first_index(s@, key_is::<V>(k@))
                == Some(i as int),
            None => first_index(s@, key_is::<V>(k@)) is None,
        },
{
    let key = k.to_owned();
    let mut i: usize = 0;
    while i < s.len()
        invariant
            i <= s@.len(),
            key@ == k@,
            forall|j: int| 0 <= j < i ==> !key_is::<V>(k@)(#[trigger] s@[j]),
        decreases s@.len() - i,
    {
        if s[i].0 == key {
            proof {
                lemma_first_index_is(s@, key_is::<V>(k@), Some(i as int));
            }
            return Some(i);
        }
        i = i + 1;
    }
    proof {
        lemma_first_index_is(s@, key_is::<V>(k@), None);
    }
    None
}

/// Replaces the value of the first entry with key `k`, or appends the entry.
pub fn upsert<V>(s: &mut Vec<(String, V)>, k: String, v: V)
    ensures
        forall|q: Seq<char>| #[trigger]
            lookup(final(s)@, q) == if q == k@ {
                Some(v)
            } else {
                lookup(old(s)@, q)
            },
{
    let ghost s0 = s@;
    let ghost kv = k@;
    let found = find_key(s, k.as_str());
    match found {
        Some(i) => {
            proof {
                lemma_first_index(s0, key_is::<V>(kv));
            }
            s.remove(i);
            s.insert(i, (k, v));
            proof {
                assert(s@ == s0.update(i as int, (s@[i as int].0, v)));
                assert forall|q: Seq<char>| #[trigger]
                    lookup(s@, q) == if q == kv {
                        Some(v)
                    } else {
                        lookup(s0, q)
                    } by {
                    lemma_first_index(s0, key_is::<V>(q));
                    if q == kv {
                        lemma_first_index_is(s@, key_is::<V>(q), Some(i as int));
                    } else {
                        lemma_first_index_is(s@, key_is::<V>(q), first_index(s0, key_is::<V>(q)));
                    }
                }
            }
        },
        None => {
            proof {
                lemma_first_index(s0, key_is::<V>(kv));
            }
            s.push((k, v));
            proof {
                assert forall|q: Seq<char>| #[trigger]
                    lookup(s@, q) == if q == kv {
                        Some(v)
                    } else {
                        lookup(s0, q)
                    } by {
                    lemma_first_index(s0, key_is::<V>(q));
                    if q == kv {
                        lemma_first_index_is(s@, key_is::<V>(q), Some(s0.len() as int));
                    } else {
                        lemma_first_index_is(s@, key_is::<V>(q), first_index(s0, key_is::<V>(q)));
                    }
                }
            }
        },
    }
}

} // verus!
