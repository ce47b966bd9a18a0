//! The history of funds opened: the most recently opened funds, with how
//! often each was opened, held in a least-recently-used cache.
use lru::LruCache;
use std::collections::hash_map::RandomState;
use vstd::prelude::*;

verus! {

#[verifier::external_type_specification]
#[verifier::external_body]
#[verifier::reject_recursive_types(K)]
#[verifier::reject_recursive_types(V)]
#[verifier::reject_recursive_types(S)]
pub struct ExLruCache<K, V, S>(LruCache<K, V, S>);

/// An entry of the history: identifier, name and number of visits.
pub type Visit = (Seq<char>, Seq<char>, u32);

/// What the cache holds, most recently used first.
pub uninterp spec fn lru_entries(c: LruCache<String, (String, u32), RandomState>) -> Seq<Visit>;

/// The capacity the cache was made with.
pub uninterp spec fn lru_capacity(c: LruCache<String, (String, u32), RandomState>) -> nat;

/// Whether some entry has this key.
pub open spec fn has_key(s: Seq<Visit>, k: Seq<char>) -> bool {
    exists|i: int| 0 <= i < s.len() && (#[trigger] s[i]).0 == k
}

/// The entries whose key is not `k`, in order.
pub open spec fn without_key(s: Seq<Visit>, k: Seq<char>) -> Seq<Visit>
    decreases s.len(),
{
    if s.len() == 0 {
        s
    } else if s.last().0 == k {
        without_key(s.drop_last(), k)
    } else {
        without_key(s.drop_last(), k).push(s.last())
    }
}

pub proof fn lemma_without_key_len(s: Seq<Visit>, k: Seq<char>)
    ensures
        without_key(s, k).len() <= s.len(),
        has_key(s, k) ==> without_key(s, k).len() < s.len(),
    decreases s.len(),
{
    if s.len() > 0 {
        lemma_without_key_len(s.drop_last(), k);
        if has_key(s, k) && s.last().0 != k {
            let i = choose|i: int| 0 <= i < s.len() && (#[trigger] s[i]).0 == k;
            assert(s.drop_last()[i] == s[i]);
        }
    }
}

/// The entry with key `k`.
pub open spec fn entry_for(s: Seq<Visit>, k: Seq<char>) -> Visit {
    s[choose|i: int| 0 <= i < s.len() && (#[trigger] s[i]).0 == k]
}

/// The entries after `k` is put with `v`: it goes first; an entry of the
/// same key leaves, or else the least recently used one when the cache is full.
pub open spec fn put_result(s: Seq<Visit>, k: Seq<char>, v: (Seq<char>, u32), cap: nat) -> Seq<Visit> {
    if has_key(s, k) {
        seq![(k, v.0, v.1)] + without_key(s, k)
    } else if s.len() == cap {
        seq![(k, v.0, v.1)] + s.drop_last()
    } else {
        seq![(k, v.0, v.1)] + s
    }
}

/// A stored value as values.
pub open spec fn value_view(v: Option<(String, u32)>) -> Option<(Seq<char>, u32)> {
    match v {
        Some((name, n)) => Some((name@, n)),
        None => None,
    }
}

/// Relies on `lru::LruCache::with_hasher`: an empty cache of this capacity.
#[verifier::external_body]
fn lru_new(cap: usize) -> (r: LruCache<String, (String, u32), RandomState>)
    requires
        cap > 0,
    ensures
        lru_entries(r) == Seq::<Visit>::empty(),
        lru_capacity(r) == cap,
{
    LruCache::with_hasher(std::num::NonZeroUsize::new(cap).unwrap(), RandomState::new())
}

/// Relies on `lru::LruCache::get`: the value of the key, which becomes the
/// most recently used.
#[verifier::external_body]
fn lru_get(c: &mut LruCache<String, (String, u32), RandomState>, k: &String) -> (r: Option<(String, u32)>)
    ensures
        lru_capacity(*final(c)) == lru_capacity(*old(c)),
        has_key(lru_entries(*old(c)), k@) ==> {
            let e = entry_for(lru_entries(*old(c)), k@);
            &&& value_view(r) == Some((e.1, e.2))
            &&& lru_entries(*final(c)) == seq![e] + without_key(lru_entries(*old(c)), k@)
        },
        !has_key(lru_entries(*old(c)), k@) ==> value_view(r) is None && lru_entries(*final(c)) == lru_entries(
            *old(c),
        ),
{
    c.get(k).cloned()
}

/// Relies on `lru::LruCache::put`: the entry becomes the most recently
/// used, replacing the one of the same key or, when full, the least
/// recently used.
#[verifier::external_body]
fn lru_put(c: &mut LruCache<String, (String, u32), RandomState>, k: String, v: (String, u32))
    ensures
        lru_capacity(*final(c)) == lru_capacity(*old(c)),
        lru_entries(*final(c)) == put_result(
            lru_entries(*old(c)),
            k@,
            (v.0@, v.1),
            lru_capacity(*old(c)),
        ),
{
    c.put(k, v);
}

/// Relies on `lru::LruCache::iter`: the entries, most recently used first.
#[verifier::external_body]
fn lru_items(c: &LruCache<String, (String, u32), RandomState>) -> (r: Vec<(String, String, u32)>)
    ensures
        r@.map_values(|e: (String, String, u32)| (e.0@, e.1@, e.2)) == lru_entries(*c),
{
    c.iter().map(|(k, v)| (k.clone(), v.0.clone(), v.1)).collect()
}

/// How many funds the history keeps.
pub const HISTORY_SIZE: usize = 10;

/// The entries after a visit to `cnpj` named `name`: a known fund moves
/// first with one more visit (and its first name); a new one enters first
/// with one visit.
pub open spec fn visited(s: Seq<Visit>, cnpj: Seq<char>, name: Seq<char>, cap: nat) -> Seq<Visit> {
    if has_key(s, cnpj) {
        let e = entry_for(s, cnpj);
        let n: u32 = if e.2 < u32::MAX {
            (e.2 + 1) as u32
        } else {
            e.2
        };
        put_result(seq![e] + without_key(s, cnpj), cnpj, (e.1, n), cap)
    } else {
        put_result(s, cnpj, (name, 1), cap)
    }
}

/// The funds opened most recently, with how often each was opened.
pub struct History {
    cache: LruCache<String, (String, u32), RandomState>,
}

impl History {
    /// What the history holds, most recently opened first.
    pub closed spec fn entries(&self) -> Seq<Visit> {
        lru_entries(self.cache)
    }

    /// The most funds the history keeps.
    pub closed spec fn capacity(&self) -> nat {
        lru_capacity(self.cache)
    }

    /// An empty history of `HISTORY_SIZE` funds.
    pub fn new() -> (r: History)
        ensures
            r.entries() == Seq::<Visit>::empty(),
            r.capacity() == HISTORY_SIZE,
            0 < r.capacity(),
            r.entries().len() <= r.capacity(),
    {
        History { cache: lru_new(HISTORY_SIZE) }
    }

    /// Records a visit to the fund `cnpj` named `name`.
    pub fn add(&mut self, cnpj: String, name: String)
        requires
            0 < old(self).capacity(),
            old(self).entries().len() <= old(self).capacity(),
        ensures
            final(self).entries().len() <= final(self).capacity(),
            final(self).capacity() == old(self).capacity(),
            final(self).entries() == visited(old(self).entries(), cnpj@, name@, old(self).capacity()),
    {
        proof {
            lemma_without_key_len(lru_entries(self.cache), cnpj@);
        }
        match lru_get(&mut self.cache, &cnpj) {
            Some((first_name, count)) => {
                let n = if count < u32::MAX {
                    count + 1
                } else {
                    count
                };
                proof {
                    let s1 = lru_entries(self.cache);
                    lemma_without_key_len(s1, cnpj@);
                    assert(s1[0].0 == cnpj@);
                    assert(has_key(s1, cnpj@));
                }
                lru_put(&mut self.cache, cnpj, (first_name, n));
            },
            None => {
                lru_put(&mut self.cache, cnpj, (name, 1));
            },
        }
    }

    /// The identifiers and names of the funds in the history, most
    /// recently opened first.
    pub fn get_most_accesseds(&self) -> (r: Vec<(String, String)>)
        ensures
            r@.len() == self.entries().len(),
            forall|i: int|
                0 <= i < r@.len() ==> (#[trigger] r@[i]).0@ == self.entries()[i].0 && r@[i].1@
                    == self.entries()[i].1,
    {
        let items = lru_items(&self.cache);
        let mut r: Vec<(String, String)> = Vec::new();
        let mut i: usize = 0;
        while i < items.len()
            invariant
                0 <= i <= items@.len(),
                items@.map_values(|e: (String, String, u32)| (e.0@, e.1@, e.2)) == lru_entries(
                    self.cache,
                ),
                r@.len() == i,
                forall|k: int|
                    0 <= k < i ==> (#[trigger] r@[k]).0@ == items@[k].0@ && r@[k].1@
                        == items@[k].1@,
            decreases items@.len() - i,
        {
            r.push((items[i].0.clone(), items[i].1.clone()));
            i += 1;
        }
        proof {
            assert forall|k: int| 0 <= k < r@.len() implies (#[trigger] r@[k]).0@
                == self.entries()[k].0 && r@[k].1@ == self.entries()[k].1 by {
                assert(items@.map_values(|e: (String, String, u32)| (e.0@, e.1@, e.2))[k] == (
                    items@[k].0@,
                    items@[k].1@,
                    items@[k].2,
                ));
            }
        }
        r
    }
}

} // verus!
