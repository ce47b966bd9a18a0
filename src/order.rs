//! Ordering of rows by keys: lexicographic comparison of integer sequences,
//! and a stable sort that returns the order of the rows.
use vstd::prelude::*;

verus! {

/// Whether `a` comes before `b` or equals it, comparing element by element.
pub open spec fn lex_le(a: Seq<i128>, b: Seq<i128>) -> bool
    decreases a.len(),
{
    if a.len() == 0 {
        true
    } else if b.len() == 0 {
        false
    } else if a[0] < b[0] {
        true
    } else if a[0] > b[0] {
        false
    } else {
        lex_le(a.drop_first(), b.drop_first())
    }
}

pub proof fn lemma_lex_total(a: Seq<i128>, b: Seq<i128>)
    ensures
        lex_le(a, b) || lex_le(b, a),
    decreases a.len(),
{
    if a.len() > 0 && b.len() > 0 && a[0] == b[0] {
        lemma_lex_total(a.drop_first(), b.drop_first());
    }
}

pub proof fn lemma_lex_refl(a: Seq<i128>)
    ensures
        lex_le(a, a),
    decreases a.len(),
{
    if a.len() > 0 {
        lemma_lex_refl(a.drop_first());
    }
}

pub proof fn lemma_lex_trans(a: Seq<i128>, b: Seq<i128>, c: Seq<i128>)
    requires
        lex_le(a, b),
        lex_le(b, c),
    ensures
        lex_le(a, c),
    decreases a.len(),
{
    if a.len() > 0 && b.len() > 0 && c.len() > 0 && a[0] == b[0] && b[0] == c[0] {
        lemma_lex_trans(a.drop_first(), b.drop_first(), c.drop_first());
    }
}

/// Whether `a` comes before `b` or equals it.
pub fn key_le(a: &Vec<i128>, b: &Vec<i128>) -> (r: bool)
    ensures
        r == lex_le(a@, b@),
{
    let mut i: usize = 0;
    proof {
        assert(a@.subrange(0, a@.len() as int) =~= a@);
        assert(b@.subrange(0, b@.len() as int) =~= b@);
    }
    while i < a.len()
        invariant
            0 <= i <= a@.len(),
            i <= b@.len(),
            forall|k: int| 0 <= k < i ==> a@[k] == b@[k],
            lex_le(a@, b@) == lex_le(a@.subrange(i as int, a@.len() as int), b@.subrange(
                i as int,
                b@.len() as int,
            )),
        decreases a@.len() - i,
    {
        if i >= b.len() {
            proof {
                assert(b@.subrange(i as int, b@.len() as int).len() == 0);
            }
            return false;
        }
        if a[i] < b[i] {
            return true;
        }
        if a[i] > b[i] {
            return false;
        }
        proof {
            let sa = a@.subrange(i as int, a@.len() as int);
            let sb = b@.subrange(i as int, b@.len() as int);
            assert(sa.drop_first() =~= a@.subrange(i + 1, a@.len() as int));
            assert(sb.drop_first() =~= b@.subrange(i + 1, b@.len() as int));
        }
        i += 1;
    }
    true
}

/// The rows in the order the permutation gives are sorted by their keys.
pub open spec fn sorted_by(keys: Seq<Vec<i128>>, order: Seq<usize>) -> bool {
    forall|a: int, b: int|
        0 <= a < b < order.len() ==> lex_le(
            #[trigger] keys[order[a] as int]@,
            #[trigger] keys[order[b] as int]@,
        )
}

/// `order` lists each of `0..n` once.
pub open spec fn is_permutation(order: Seq<usize>, n: nat) -> bool {
    &&& order.len() == n
    &&& order.no_duplicates()
    &&& forall|k: int| 0 <= k < order.len() ==> #[trigger] order[k] < n
    &&& forall|k: usize| k < n ==> #[trigger] order.contains(k)
}

/// The order that sorts rows by their keys, ascending; rows with equal keys
/// keep their relative order.
pub fn sort_order(keys: &Vec<Vec<i128>>) -> (r: Vec<usize>)
    ensures
        is_permutation(r@, keys@.len()),
        sorted_by(keys@, r@),
        forall|a: int, b: int|
            0 <= a < b < r@.len() && keys@[r@[a] as int]@ == keys@[r@[b] as int]@ ==> #[trigger] r@[a]
                < #[trigger] r@[b],
{
    let mut out: Vec<usize> = Vec::new();
    let mut i: usize = 0;
    while i < keys.len()
        invariant
            0 <= i <= keys@.len(),
            is_permutation(out@, i as nat),
            sorted_by(keys@, out@),
            forall|a: int, b: int|
                0 <= a < b < out@.len() && keys@[out@[a] as int]@ == keys@[out@[b] as int]@
                    ==> #[trigger] out@[a] < #[trigger] out@[b],
        decreases keys@.len() - i,
    {
        let mut p: usize = 0;
        while p < out.len() && key_le(&keys[out[p]], &keys[i])
            invariant
                0 <= p <= out@.len(),
                i < keys@.len(),
                is_permutation(out@, i as nat),
                forall|k: int| 0 <= k < p ==> lex_le(keys@[out@[k] as int]@, keys@[i as int]@),
            decreases out@.len() - p,
        {
            p += 1;
        }
        let ghost before = out@;
        proof {
            if p < out@.len() {
                assert(!lex_le(keys@[out@[p as int] as int]@, keys@[i as int]@));
                lemma_lex_total(keys@[out@[p as int] as int]@, keys@[i as int]@);
            }
        }
        out.insert(p, i);
        proof {
            assert forall|k: int| 0 <= k < out@.len() implies #[trigger] out@[k] < i + 1 by {
                if k < p {
                    assert(out@[k] == before[k]);
                } else if k > p {
                    assert(out@[k] == before[k - 1]);
                }
            }
            assert forall|k: usize| k < i + 1 implies #[trigger] out@.contains(k) by {
                if k == i {
                    assert(out@[p as int] == i);
                } else {
                    assert(before.contains(k));
                    let m = choose|m: int| 0 <= m < before.len() && before[m] == k;
                    if m < p {
                        assert(out@[m] == k);
                    } else {
                        assert(out@[m + 1] == k);
                    }
                }
            }
            assert(out@.no_duplicates()) by {
                assert forall|a: int, b: int|
                    0 <= a < out@.len() && 0 <= b < out@.len() && a != b implies out@[a]
                    != out@[b] by {
                    if a != p as int && b != p as int {
                        let aa = if a < p { a } else { a - 1 };
                        let bb = if b < p { b } else { b - 1 };
                        assert(out@[a] == before[aa]);
                        assert(out@[b] == before[bb]);
                    } else if a == p as int {
                        let bb = if b < p { b } else { b - 1 };
                        assert(out@[b] == before[bb]);
                    } else {
                        let aa = if a < p { a } else { a - 1 };
                        assert(out@[a] == before[aa]);
                    }
                }
            }
            assert forall|a: int, b: int| 0 <= a < b < out@.len() implies lex_le(
                #[trigger] keys@[out@[a] as int]@,
                #[trigger] keys@[out@[b] as int]@,
            ) by {
                if b < p {
                    assert(out@[a] == before[a] && out@[b] == before[b]);
                } else if a > p {
                    assert(out@[a] == before[a - 1] && out@[b] == before[b - 1]);
                } else if a == p {
                    assert(out@[b] == before[b - 1]);
                    if b - 1 > p {
                        assert(lex_le(
                            keys@[before[p as int] as int]@,
                            keys@[before[b - 1] as int]@,
                        ));
                    } else {
                        lemma_lex_refl(keys@[before[p as int] as int]@);
                    }
                    lemma_lex_trans(
                        keys@[i as int]@,
                        keys@[before[p as int] as int]@,
                        keys@[before[b - 1] as int]@,
                    );
                } else if b == p {
                    assert(out@[a] == before[a]);
                } else {
                    assert(out@[a] == before[a] && out@[b] == before[b - 1]);
                }
            }
            assert forall|a: int, b: int|
                0 <= a < b < out@.len() && keys@[out@[a] as int]@ == keys@[out@[b] as int]@
                    implies #[trigger] out@[a] < #[trigger] out@[b] by {
                if b < p {
                    assert(out@[a] == before[a] && out@[b] == before[b]);
                } else if a > p {
                    assert(out@[a] == before[a - 1] && out@[b] == before[b - 1]);
                } else if a == p {
                    assert(out@[b] == before[b - 1]);
                    assert(out@[a] == i);
                    assert(!lex_le(keys@[before[p as int] as int]@, keys@[i as int]@));
                    if b - 1 == p {
                        lemma_lex_refl(keys@[i as int]@);
                    } else {
                        assert(lex_le(
                            keys@[before[p as int] as int]@,
                            keys@[before[b - 1] as int]@,
                        ));
                    }
                } else if b == p {
                    assert(out@[a] == before[a]);
                } else {
                    assert(out@[a] == before[a] && out@[b] == before[b - 1]);
                }
            }
        }
        i += 1;
    }
    out
}

} // verus!
