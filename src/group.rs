//! Grouping of items by an optional text key, with a sum per group, and the
//! order of groups by descending sum.
use crate::order::{is_permutation, lex_le, sort_order, sorted_by};
use crate::table::cell_view;
use vstd::prelude::*;

verus! {

/// The bound on each summed value.
pub const VALUE_BOUND: i128 = 1_000_000_000_000_000_000_000_000;

/// The most items summed.
pub const MAX_ITEMS: u64 = 1_000_000_000_000;

/// The sum of the first `n` values whose key is `k`.
pub open spec fn key_sum(keys: Seq<Option<Seq<char>>>, vals: Seq<i128>, k: Option<Seq<char>>, n: int) -> int
    decreases n,
{
    if n <= 0 {
        0
    } else {
        key_sum(keys, vals, k, n - 1) + if keys[n - 1] == k {
            vals[n - 1] as int
        } else {
            0
        }
    }
}


pub proof fn lemma_key_sum_bound(keys: Seq<Option<Seq<char>>>, vals: Seq<i128>, k: Option<Seq<char>>, n: int)
    requires
        0 <= n <= vals.len(),
        forall|i: int| 0 <= i < vals.len() ==> -VALUE_BOUND <= #[trigger] vals[i] <= VALUE_BOUND,
    ensures
        -n * VALUE_BOUND <= key_sum(keys, vals, k, n) <= n * VALUE_BOUND,
    decreases n,
{
    if n > 0 {
        lemma_key_sum_bound(keys, vals, k, n - 1);
        assert(-VALUE_BOUND <= vals[n - 1] <= VALUE_BOUND);
        assert((n - 1) * VALUE_BOUND + VALUE_BOUND == n * VALUE_BOUND) by (nonlinear_arith);
    }
}

/// The texts of some optional keys.
pub open spec fn key_views(keys: Seq<Option<String>>) -> Seq<Option<Seq<char>>> {
    keys.map_values(|k: Option<String>| cell_view(k))
}

/// A group of items sharing a key, with the sum of their values.
#[derive(Clone, Debug)]
pub struct Group {
    pub key: Option<String>,
    pub total: i128,
}

/// The keys of some groups.
pub open spec fn group_keys(gs: Seq<Group>) -> Seq<Option<Seq<char>>> {
    gs.map_values(|g: Group| cell_view(g.key))
}

/// What grouping `keys` with `vals` yields: one group per distinct key, each
/// with the sum of its values.
pub open spec fn groups_of(gs: Seq<Group>, keys: Seq<Option<Seq<char>>>, vals: Seq<i128>) -> bool {
    &&& group_keys(gs).no_duplicates()
    &&& forall|i: int| 0 <= i < keys.len() ==> group_keys(gs).contains(#[trigger] keys[i])
    &&& forall|g: int|
        0 <= g < gs.len() ==> exists|i: int|
            0 <= i < keys.len() && #[trigger] keys[i] == cell_view((#[trigger] gs[g]).key)
    &&& forall|g: int|
        0 <= g < gs.len() ==> (#[trigger] gs[g]).total == key_sum(
            keys,
            vals,
            cell_view(gs[g].key),
            keys.len() as int,
        )
}

fn same_key(a: &Option<String>, b: &Option<String>) -> (r: bool)
    ensures
        r == (cell_view(*a) == cell_view(*b)),
{
    match (a, b) {
        (Some(x), Some(y)) => *x == *y,
        (None, None) => true,
        _ => false,
    }
}

fn clone_key(a: &Option<String>) -> (r: Option<String>)
    ensures
        cell_view(r) == cell_view(*a),
{
    match a {
        Some(x) => Some(x.clone()),
        None => None,
    }
}

/// The groups of items by key, in order of first appearance, with the sum
/// of each group's values.
pub fn group_sums(keys: &Vec<Option<String>>, vals: &Vec<i128>) -> (r: Vec<Group>)
    requires
        keys@.len() == vals@.len(),
        keys@.len() <= MAX_ITEMS,
        forall|i: int| 0 <= i < vals@.len() ==> -VALUE_BOUND <= #[trigger] vals@[i] <= VALUE_BOUND,
    ensures
        groups_of(r@, key_views(keys@), vals@),
{
    let mut gs: Vec<Group> = Vec::new();
    let mut i: usize = 0;
    while i < keys.len()
        invariant
            keys@.len() == vals@.len(),
            keys@.len() <= MAX_ITEMS,
            forall|i: int| 0 <= i < vals@.len() ==> -VALUE_BOUND <= #[trigger] vals@[i] <= VALUE_BOUND,
            0 <= i <= keys@.len(),
            group_keys(gs@).no_duplicates(),
            forall|k: int| 0 <= k < i ==> group_keys(gs@).contains(#[trigger] key_views(keys@)[k]),
            forall|g: int|
                0 <= g < gs@.len() ==> exists|k: int|
                    0 <= k < i && #[trigger] key_views(keys@)[k] == cell_view((#[trigger] gs@[g]).key),
            forall|g: int|
                0 <= g < gs@.len() ==> (#[trigger] gs@[g]).total == key_sum(
                    key_views(keys@),
                    vals@,
                    cell_view(gs@[g].key),
                    i as int,
                ),
        decreases keys@.len() - i,
    {
        let mut m: usize = 0;
        while m < gs.len() && !same_key(&gs[m].key, &keys[i])
            invariant
                i < keys@.len(),
                0 <= m <= gs@.len(),
                forall|q: int| 0 <= q < m ==> cell_view(#[trigger] gs@[q].key) != cell_view(keys@[i as int]),
            decreases gs@.len() - m,
        {
            m += 1;
        }
        let ghost before = gs@;
        let v = vals[i];
        proof {
            assert forall|g: int| 0 <= g < gs@.len() implies -(i as int) * VALUE_BOUND <= (
            #[trigger] gs@[g]).total <= (i as int) * VALUE_BOUND by {
                lemma_key_sum_bound(key_views(keys@), vals@, cell_view(gs@[g].key), i as int);
            }
            assert((i as int) * VALUE_BOUND <= MAX_ITEMS * VALUE_BOUND) by (nonlinear_arith)
                requires
                    i <= MAX_ITEMS,
            ;
        }
        if m < gs.len() {
            let t = gs[m].total + v;
            let key = clone_key(&gs[m].key);
            gs.set(m, Group { key, total: t });
            proof {
                assert(group_keys(gs@) =~= group_keys(before));
                assert forall|g: int| 0 <= g < gs@.len() implies (#[trigger] gs@[g]).total
                    == key_sum(key_views(keys@), vals@, cell_view(gs@[g].key), i + 1) by {
                    if g != m {
                        assert(gs@[g] == before[g]);
                        assert(group_keys(before)[g] != group_keys(before)[m as int]);
                    }
                }
                assert forall|g: int| 0 <= g < gs@.len() implies exists|k: int|
                    0 <= k < i + 1 && #[trigger] key_views(keys@)[k] == cell_view((#[trigger] gs@[g]).key) by {
                    if g != m {
                        assert(gs@[g] == before[g]);
                    } else {
                        assert(key_views(keys@)[i as int] == cell_view(gs@[g].key));
                    }
                }
                assert forall|k: int| 0 <= k < i + 1 implies group_keys(gs@).contains(
                    #[trigger] key_views(keys@)[k],
                ) by {
                    if k == i {
                        assert(group_keys(gs@)[m as int] == key_views(keys@)[k]);
                    }
                }
            }
        } else {
            let key = clone_key(&keys[i]);
            gs.push(Group { key, total: v });
            proof {
                assert(group_keys(gs@) =~= group_keys(before).push(cell_view(keys@[i as int])));
                assert(!group_keys(before).contains(cell_view(keys@[i as int])));
                lemma_key_sum_absent(key_views(keys@), vals@, cell_view(keys@[i as int]), i as int);
                assert forall|g: int| 0 <= g < gs@.len() implies (#[trigger] gs@[g]).total
                    == key_sum(key_views(keys@), vals@, cell_view(gs@[g].key), i + 1) by {
                    if g < before.len() {
                        assert(gs@[g] == before[g]);
                        assert(group_keys(before)[g] != cell_view(keys@[i as int]));
                    }
                }
                assert forall|g: int| 0 <= g < gs@.len() implies exists|k: int|
                    0 <= k < i + 1 && #[trigger] key_views(keys@)[k] == cell_view((#[trigger] gs@[g]).key) by {
                    if g < before.len() {
                        assert(gs@[g] == before[g]);
                    } else {
                        assert(key_views(keys@)[i as int] == cell_view(gs@[g].key));
                    }
                }
                assert forall|k: int| 0 <= k < i + 1 implies group_keys(gs@).contains(
                    #[trigger] key_views(keys@)[k],
                ) by {
                    if k == i {
                        assert(group_keys(gs@)[before.len() as int] == key_views(keys@)[k]);
                    } else {
                        let q = choose|q: int|
                            0 <= q < group_keys(before).len() && group_keys(before)[q] == key_views(
                                keys@,
                            )[k];
                        assert(group_keys(gs@)[q] == key_views(keys@)[k]);
                    }
                }
            }
        }
        i += 1;
    }
    proof {
        let kv = key_views(keys@);
        assert(kv.len() == keys@.len());
        assert(group_keys(gs@).no_duplicates());
        assert(forall|i: int| 0 <= i < kv.len() ==> group_keys(gs@).contains(#[trigger] kv[i]));
        assert forall|g: int| 0 <= g < gs@.len() implies exists|i: int|
            0 <= i < kv.len() && #[trigger] kv[i] == cell_view((#[trigger] gs@[g]).key) by {
            let k = choose|k: int|
                0 <= k < i && #[trigger] key_views(keys@)[k] == cell_view(gs@[g].key);
            assert(kv[k] == cell_view(gs@[g].key));
        }
        assert(forall|g: int|
            0 <= g < gs@.len() ==> (#[trigger] gs@[g]).total == key_sum(
                kv,
                vals@,
                cell_view(gs@[g].key),
                kv.len() as int,
            ));
    }
    gs
}

/// A key that appears nowhere in the first `n` keys sums to zero.
pub proof fn lemma_key_sum_absent(keys: Seq<Option<Seq<char>>>, vals: Seq<i128>, k: Option<Seq<char>>, n: int)
    requires
        0 <= n <= keys.len(),
        forall|g: int| 0 <= g < n ==> #[trigger] keys[g] != k,
    ensures
        key_sum(keys, vals, k, n) == 0,
    decreases n,
{
    if n > 0 {
        lemma_key_sum_absent(keys, vals, k, n - 1);
    }
}

/// The groups ordered by descending total; groups with equal totals keep
/// their order.
pub fn by_total_desc(gs: Vec<Group>) -> (r: Vec<Group>)
    requires
        forall|g: int| 0 <= g < gs@.len() ==> -VALUE_BOUND * MAX_ITEMS <= (#[trigger] gs@[g]).total
            <= VALUE_BOUND * MAX_ITEMS,
    ensures
        r@.len() == gs@.len(),
        exists|order: Seq<usize>|
            is_permutation(order, gs@.len()) && forall|i: int|
                0 <= i < r@.len() ==> cell_view((#[trigger] r@[i]).key) == cell_view(
                    gs@[order[i] as int].key,
                ) && r@[i].total == gs@[order[i] as int].total,
        forall|a: int, b: int| 0 <= a < b < r@.len() ==> (#[trigger] r@[a]).total >= (
        #[trigger] r@[b]).total,
{
    let mut keys: Vec<Vec<i128>> = Vec::new();
    let mut k: usize = 0;
    while k < gs.len()
        invariant
            0 <= k <= gs@.len(),
            keys@.len() == k,
            forall|g: int| 0 <= g < gs@.len() ==> -VALUE_BOUND * MAX_ITEMS <= (
            #[trigger] gs@[g]).total <= VALUE_BOUND * MAX_ITEMS,
            forall|m: int| 0 <= m < k ==> (#[trigger] keys@[m])@ == seq![(-gs@[m].total) as i128],
        decreases gs@.len() - k,
    {
        let neg = -gs[k].total;
        keys.push(vec![neg]);
        k += 1;
    }
    let order = sort_order(&keys);
    let mut r: Vec<Group> = Vec::new();
    let mut i: usize = 0;
    while i < order.len()
        invariant
            is_permutation(order@, keys@.len()),
            sorted_by(keys@, order@),
            keys@.len() == gs@.len(),
            forall|g: int| 0 <= g < gs@.len() ==> -VALUE_BOUND * MAX_ITEMS <= (
            #[trigger] gs@[g]).total <= VALUE_BOUND * MAX_ITEMS,
            forall|m: int| 0 <= m < gs@.len() ==> (#[trigger] keys@[m])@ == seq![(-gs@[m].total) as i128],
            0 <= i <= order@.len(),
            r@.len() == i,
            forall|m: int|
                0 <= m < i ==> cell_view((#[trigger] r@[m]).key) == cell_view(
                    gs@[order@[m] as int].key,
                ) && r@[m].total == gs@[order@[m] as int].total,
        decreases order@.len() - i,
    {
        let g = &gs[order[i]];
        r.push(Group { key: clone_key(&g.key), total: g.total });
        i += 1;
    }
    proof {
        assert forall|a: int, b: int| 0 <= a < b < r@.len() implies (#[trigger] r@[a]).total >= (
        #[trigger] r@[b]).total by {
            let ka = keys@[order@[a] as int]@;
            let kb = keys@[order@[b] as int]@;
            assert(lex_le(ka, kb));
            assert(ka.drop_first() =~= Seq::<i128>::empty());
            assert(ka[0] <= kb[0]) by {
                reveal_with_fuel(lex_le, 2);
            }
            assert(ka[0] == -gs@[order@[a] as int].total);
            assert(kb[0] == -gs@[order@[b] as int].total);
        }
    }
    r
}

} // verus!
