//! Nearest-rank percentile selection over `f32` depth samples, held as their
//! IEEE-754 bit patterns and ordered by the IEEE total order (the order of
//! `f32::total_cmp`: negative NaNs, negative infinity, negative numbers,
//! `-0`, `+0`, positive numbers, positive infinity, positive NaNs).

use vstd::prelude::*;

verus! {

/// The unsigned key whose order is the IEEE total order of the bit patterns:
/// negative patterns are inverted, positive ones get the top bit set.
pub open spec fn total_key(b: u32) -> u32 {
    if b >= 0x8000_0000 {
        !b
    } else {
        b | 0x8000_0000
    }
}

/// The total-order key of a bit pattern.
pub fn key_of(b: u32) -> (k: u32)
    ensures
        k == total_key(b),
{
    if b >= 0x8000_0000 {
        !b
    } else {
        b | 0x8000_0000
    }
}

/// Distinct bit patterns have distinct keys.
pub proof fn lemma_total_key_injective(a: u32, b: u32)
    ensures
        total_key(a) == total_key(b) ==> a == b,
{
    assert((if a >= 0x8000_0000u32 { !a } else { a | 0x8000_0000u32 }) == (if b >= 0x8000_0000u32 {
        !b
    } else {
        b | 0x8000_0000u32
    }) ==> a == b) by (bit_vector);
}

/// The key order is the IEEE total order of `f32::total_cmp` on bit patterns:
/// non-negative patterns (sign bit clear) rise with their bits, negative
/// patterns fall with their bits, and every negative pattern lies below every
/// non-negative one.
pub proof fn law_total_key_is_total_order(a: u32, b: u32)
    ensures
        a < b < 0x8000_0000 ==> total_key(a) < total_key(b),
        0x8000_0000 <= a < b ==> total_key(b) < total_key(a),
        b < 0x8000_0000 <= a ==> total_key(a) < total_key(b),
{
    assert(a < b && b < 0x8000_0000u32 ==> (a | 0x8000_0000u32) < (b | 0x8000_0000u32))
        by (bit_vector);
    assert(0x8000_0000u32 <= a && a < b ==> !b < !a) by (bit_vector);
    assert(b < 0x8000_0000u32 && 0x8000_0000u32 <= a ==> !a < (b | 0x8000_0000u32))
        by (bit_vector);
}

/// In samples sorted by the total order, the sample at position `k` has rank
/// `k`: nearest-rank selection picks `sorted[rank]`.
pub proof fn law_rank_of_sorted(s: Seq<u32>, k: int)
    requires
        0 <= k < s.len(),
        forall|i: int, j: int| 0 <= i < j < s.len() ==> total_key(s[i]) <= total_key(s[j]),
    ensures
        has_rank(s, k, s[k]),
{
    let kr = total_key(s[k]);
    assert(s =~= s.take(k) + s.skip(k));
    lemma_counts_concat(s.take(k), s.skip(k), kr);
    lemma_counts_bounded(s.take(k), kr);
    lemma_counts_none_below(s.skip(k), kr);
    assert(s =~= s.take(k + 1) + s.skip(k + 1));
    lemma_counts_concat(s.take(k + 1), s.skip(k + 1), kr);
    lemma_counts_all_at_most(s.take(k + 1), kr);
    assert(s.contains(s[k]));
}

/// How many samples of `s` order strictly below key `k`.
pub open spec fn count_below(s: Seq<u32>, k: u32) -> nat
    decreases s.len(),
{
    if s.len() == 0 {
        0
    } else {
        count_below(s.drop_last(), k) + if total_key(s.last()) < k {
            1nat
        } else {
            0nat
        }
    }
}

/// How many samples of `s` order at or below key `k`.
pub open spec fn count_at_most(s: Seq<u32>, k: u32) -> nat
    decreases s.len(),
{
    if s.len() == 0 {
        0
    } else {
        count_at_most(s.drop_last(), k) + if total_key(s.last()) <= k {
            1nat
        } else {
            0nat
        }
    }
}

/// `r` is a sample of `s` of rank `k`: at most `k` samples order below it and
/// more than `k` order at or below it.
pub open spec fn has_rank(s: Seq<u32>, k: int, r: u32) -> bool {
    &&& s.contains(r)
    &&& count_below(s, total_key(r)) <= k < count_at_most(s, total_key(r))
}

proof fn lemma_counts_concat(a: Seq<u32>, b: Seq<u32>, k: u32)
    ensures
        count_below(a + b, k) == count_below(a, k) + count_below(b, k),
        count_at_most(a + b, k) == count_at_most(a, k) + count_at_most(b, k),
    decreases b.len(),
{
    if b.len() == 0 {
        assert(a + b =~= a);
    } else {
        lemma_counts_concat(a, b.drop_last(), k);
        assert((a + b).drop_last() =~= a + b.drop_last());
    }
}

proof fn lemma_counts_bounded(s: Seq<u32>, k: u32)
    ensures
        count_below(s, k) <= count_at_most(s, k) <= s.len(),
    decreases s.len(),
{
    if s.len() > 0 {
        lemma_counts_bounded(s.drop_last(), k);
    }
}

proof fn lemma_counts_all_at_most(s: Seq<u32>, k: u32)
    requires
        forall|i: int| 0 <= i < s.len() ==> total_key(s[i]) <= k,
    ensures
        count_at_most(s, k) == s.len(),
    decreases s.len(),
{
    if s.len() > 0 {
        lemma_counts_all_at_most(s.drop_last(), k);
    }
}

proof fn lemma_counts_none_below(s: Seq<u32>, k: u32)
    requires
        forall|i: int| 0 <= i < s.len() ==> total_key(s[i]) >= k,
    ensures
        count_below(s, k) == 0,
    decreases s.len(),
{
    if s.len() > 0 {
        lemma_counts_none_below(s.drop_last(), k);
    }
}

proof fn lemma_counts_monotone(s: Seq<u32>, ka: u32, kb: u32)
    requires
        ka < kb,
    ensures
        count_at_most(s, ka) <= count_below(s, kb),
    decreases s.len(),
{
    if s.len() > 0 {
        lemma_counts_monotone(s.drop_last(), ka, kb);
    }
}

proof fn lemma_counts_insert(s: Seq<u32>, p: int, x: u32, k: u32)
    requires
        0 <= p <= s.len(),
    ensures
        count_below(s.insert(p, x), k) == count_below(s, k) + if total_key(x) < k {
            1nat
        } else {
            0nat
        },
        count_at_most(s.insert(p, x), k) == count_at_most(s, k) + if total_key(x) <= k {
            1nat
        } else {
            0nat
        },
{
    let pre = s.subrange(0, p);
    let post = s.subrange(p, s.len() as int);
    assert(s =~= pre + post);
    assert(s.insert(p, x) =~= (pre + seq![x]) + post);
    lemma_counts_concat(pre, post, k);
    lemma_counts_concat(pre + seq![x], post, k);
    lemma_counts_concat(pre, seq![x], k);
    assert(seq![x].drop_last() =~= Seq::<u32>::empty());
    assert(count_below(Seq::<u32>::empty(), k) == 0);
    assert(count_at_most(Seq::<u32>::empty(), k) == 0);
}

/// The sorted copy of `s` under the total order (stable), with the counts of
/// `s` preserved.
fn sort_by_total_order(s: &[u32]) -> (r: Vec<u32>)
    ensures
        r@.len() == s@.len(),
        forall|a: int, b: int| 0 <= a < b < r@.len() ==> total_key(r@[a]) <= total_key(r@[b]),
        forall|k: u32|
            count_below(r@, k) == count_below(s@, k) && count_at_most(r@, k) == count_at_most(
                s@,
                k,
            ),
        forall|x: u32| r@.contains(x) ==> s@.contains(x),
{
    let mut sorted: Vec<u32> = Vec::new();
    let mut i: usize = 0;
    while i < s.len()
        invariant
            i <= s@.len(),
            sorted@.len() == i,
            forall|a: int, b: int|
                0 <= a < b < sorted@.len() ==> total_key(sorted@[a]) <= total_key(sorted@[b]),
            forall|k: u32|
                count_below(sorted@, k) == count_below(s@.take(i as int), k) && count_at_most(
                    sorted@,
                    k,
                ) == count_at_most(s@.take(i as int), k),
            forall|x: u32| sorted@.contains(x) ==> s@.take(i as int).contains(x),
        decreases s@.len() - i,
    {
        let x = s[i];
        let kx = key_of(x);
        let mut p: usize = 0;
        while p < sorted.len() && key_of(sorted[p]) <= kx
            invariant
                p <= sorted@.len(),
                kx == total_key(x),
                forall|a: int| 0 <= a < p ==> total_key(sorted@[a]) <= kx,
            decreases sorted@.len() - p,
        {
            p = p + 1;
        }
        let ghost old_sorted = sorted@;
        sorted.insert(p, x);
        proof {
            assert(s@.take(i + 1).drop_last() =~= s@.take(i as int));
            assert(s@.take(i + 1).last() == x);
            assert forall|k: u32|
                count_below(sorted@, k) == count_below(s@.take(i + 1), k) && count_at_most(
                    sorted@,
                    k,
                ) == count_at_most(s@.take(i + 1), k) by {
                lemma_counts_insert(old_sorted, p as int, x, k);
            }
            assert forall|a: int, b: int|
                0 <= a < b < sorted@.len() implies total_key(sorted@[a]) <= total_key(
                sorted@[b],
            ) by {
                if p < old_sorted.len() {
                    assert(total_key(old_sorted[p as int]) > kx);
                }
                if b < p {
                } else if b == p {
                } else if a < p {
                    assert(total_key(old_sorted[a]) <= kx);
                    assert(total_key(old_sorted[p as int]) <= total_key(old_sorted[b - 1]));
                } else if a == p {
                    assert(total_key(old_sorted[p as int]) <= total_key(old_sorted[b - 1]));
                } else {
                    assert(total_key(old_sorted[a - 1]) <= total_key(old_sorted[b - 1]));
                }
            }
            assert forall|y: u32| sorted@.contains(y) implies s@.take(i + 1).contains(y) by {
                let j = choose|j: int| 0 <= j < sorted@.len() && sorted@[j] == y;
                if j < p {
                    assert(old_sorted.contains(y));
                    let m = choose|m: int| 0 <= m < i && s@.take(i as int)[m] == y;
                    assert(s@.take(i + 1)[m] == y);
                } else if j == p {
                    assert(s@.take(i + 1)[i as int] == y);
                } else {
                    assert(old_sorted[j - 1] == y);
                    assert(old_sorted.contains(y));
                    let m = choose|m: int| 0 <= m < i && s@.take(i as int)[m] == y;
                    assert(s@.take(i + 1)[m] == y);
                }
            }
        }
        i = i + 1;
    }
    assert(s@.take(s@.len() as int) =~= s@);
    sorted
}

/// The sample of nearest rank `rank` (cut to the last rank) under the total
/// order: the element at `rank` of the samples sorted by `f32::total_cmp`.
pub fn nearest_rank(samples: &[u32], rank: usize) -> (r: u32)
    requires
        samples@.len() > 0,
    ensures
        has_rank(
            samples@,
            if rank < samples@.len() {
                rank as int
            } else {
                samples@.len() - 1
            },
            r,
        ),
{
    let sorted = sort_by_total_order(samples);
    let k = if rank < samples.len() {
        rank
    } else {
        samples.len() - 1
    };
    let r = sorted[k];
    proof {
        let s = sorted@;
        let kr = total_key(r);
        assert(s =~= s.take(k as int) + s.skip(k as int));
        lemma_counts_concat(s.take(k as int), s.skip(k as int), kr);
        lemma_counts_bounded(s.take(k as int), kr);
        lemma_counts_none_below(s.skip(k as int), kr);
        assert(s =~= s.take(k + 1) + s.skip(k + 1));
        lemma_counts_concat(s.take(k + 1), s.skip(k + 1), kr);
        lemma_counts_all_at_most(s.take(k + 1), kr);
        assert(s.contains(r));
    }
    r
}

proof fn lemma_counts_permutation(s: Seq<u32>, t: Seq<u32>, k: u32)
    requires
        s.to_multiset() == t.to_multiset(),
    ensures
        count_below(s, k) == count_below(t, k),
        count_at_most(s, k) == count_at_most(t, k),
    decreases s.len(),
{
    broadcast use vstd::multiset::group_multiset_axioms;

    s.to_multiset_ensures();
    t.to_multiset_ensures();
    if s.len() == 0 {
        assert(t.len() == 0);
    } else {
        let x = s.last();
        let s1 = s.drop_last();
        s1.to_multiset_ensures();
        assert(s1.push(x) =~= s);
        assert(s1.push(x).to_multiset() == s1.to_multiset().insert(x));
        assert(s.to_multiset().count(x) > 0);
        assert(t.to_multiset().count(x) > 0);
        assert(t.contains(x));
        let i = choose|i: int| 0 <= i < t.len() && t[i] == x;
        let t1 = t.remove(i);
        assert(t1.to_multiset() == t.to_multiset().remove(x));
        assert(s1.to_multiset() =~= t1.to_multiset());
        lemma_counts_permutation(s1, t1, k);
        assert(t =~= t1.insert(i, x));
        lemma_counts_insert(t1, i, x, k);
    }
}

/// Reordering the samples does not change which sample has a given rank.
pub proof fn law_rank_ignores_order(s: Seq<u32>, t: Seq<u32>, k: int, a: u32)
    requires
        s.to_multiset() == t.to_multiset(),
        has_rank(s, k, a),
    ensures
        has_rank(t, k, a),
{
    s.to_multiset_ensures();
    t.to_multiset_ensures();
    lemma_counts_permutation(s, t, total_key(a));
    assert(s.to_multiset().count(a) > 0);
    assert(t.to_multiset().count(a) > 0);
}

/// A rank names one sample: two samples of the same rank are equal.
pub proof fn law_rank_is_unique(s: Seq<u32>, k: int, a: u32, b: u32)
    requires
        has_rank(s, k, a),
        has_rank(s, k, b),
    ensures
        a == b,
{
    if total_key(a) < total_key(b) {
        lemma_counts_monotone(s, total_key(a), total_key(b));
    } else if total_key(b) < total_key(a) {
        lemma_counts_monotone(s, total_key(b), total_key(a));
    } else {
        lemma_total_key_injective(a, b);
    }
}

/// Higher ranks select samples no lower in the total order.
pub proof fn law_rank_is_monotone(s: Seq<u32>, j: int, k: int, a: u32, b: u32)
    requires
        j <= k,
        has_rank(s, j, a),
        has_rank(s, k, b),
    ensures
        total_key(a) <= total_key(b),
{
    if total_key(b) < total_key(a) {
        lemma_counts_monotone(s, total_key(b), total_key(a));
    }
}

} // verus!
