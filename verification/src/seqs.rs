//! Sequence facts shared by the buffered calculators: sums of samples, the
//! bounds that keep running sums inside machine integers, and how one write
//! to a circular buffer moves its oldest-first reading.

use vstd::prelude::*;

verus! {

use crate::fixed::tdiv;
use vstd::arithmetic::div_mod::lemma_mod_self_0;
use vstd::arithmetic::div_mod::lemma_small_mod;

/// Sum of a sequence of integers.
pub open spec fn seq_sum(s: Seq<int>) -> int
    decreases s.len(),
{
    if s.len() == 0 {
        0
    } else {
        seq_sum(s.drop_last()) + s.last()
    }
}

/// Arithmetic mean of a non-empty sequence, truncated toward zero.
pub open spec fn mean(s: Seq<int>) -> int
    recommends
        s.len() >= 1,
{
    tdiv(seq_sum(s), s.len() as int)
}

/// Appending one element adds it to the sum.
pub proof fn lemma_seq_sum_push(s: Seq<int>, v: int)
    ensures
        seq_sum(s.push(v)) == seq_sum(s) + v,
{
    assert(s.push(v).drop_last() =~= s);
}

/// The sum splits off its first element as well as its last.
pub proof fn lemma_seq_sum_drop_first(s: Seq<int>)
    requires
        s.len() >= 1,
    ensures
        seq_sum(s) == s.first() + seq_sum(s.drop_first()),
    decreases s.len(),
{
    if s.len() == 1 {
        assert(s.drop_first() =~= Seq::<int>::empty());
        assert(s.drop_last() =~= Seq::<int>::empty());
    } else {
        lemma_seq_sum_drop_first(s.drop_last());
        assert(s.drop_first().drop_last() =~= s.drop_last().drop_first());
    }
}

/// Sums add over concatenation.
pub proof fn lemma_seq_sum_append(a: Seq<int>, b: Seq<int>)
    ensures
        seq_sum(a + b) == seq_sum(a) + seq_sum(b),
    decreases b.len(),
{
    if b.len() == 0 {
        assert(a + b =~= a);
    } else {
        lemma_seq_sum_append(a, b.drop_last());
        assert((a + b).drop_last() =~= a + b.drop_last());
        assert((a + b).last() == b.last());
    }
}

/// The sum of a sequence whose members all lie in `[lo, hi]` lies between
/// `len * lo` and `len * hi`.
pub proof fn lemma_seq_sum_bounds(s: Seq<int>, lo: int, hi: int)
    requires
        forall|i: int| 0 <= i < s.len() ==> lo <= #[trigger] s[i] <= hi,
    ensures
        s.len() * lo <= seq_sum(s) <= s.len() * hi,
    decreases s.len(),
{
    if s.len() == 0 {
    } else {
        lemma_seq_sum_bounds(s.drop_last(), lo, hi);
        assert((s.len() - 1) * lo + lo == s.len() * lo) by (nonlinear_arith);
        assert((s.len() - 1) * hi + hi == s.len() * hi) by (nonlinear_arith);
    }
}

/// A sequence of at most `2^64 - 1` values from the `i64` range sums to
/// something strictly inside the `i128` range.
pub proof fn lemma_seq_sum_i64_fits(s: Seq<int>)
    requires
        forall|i: int| 0 <= i < s.len() ==> i64::MIN <= #[trigger] s[i] <= i64::MAX,
        s.len() <= 0xFFFF_FFFF_FFFF_FFFF,
    ensures
        i128::MIN < seq_sum(s) < i128::MAX,
{
    lemma_seq_sum_bounds(s, i64::MIN as int, i64::MAX as int);
    assert(s.len() * (i64::MIN as int) >= 0xFFFF_FFFF_FFFF_FFFF * (i64::MIN as int))
        by (nonlinear_arith)
        requires
            s.len() <= 0xFFFF_FFFF_FFFF_FFFF,
    ;
    assert(s.len() * (i64::MAX as int) <= 0xFFFF_FFFF_FFFF_FFFF * (i64::MAX as int))
        by (nonlinear_arith)
        requires
            s.len() <= 0xFFFF_FFFF_FFFF_FFFF,
    ;
}

/// A constant sequence sums to its length times the constant.
pub proof fn lemma_seq_sum_constant(s: Seq<int>, v: int)
    requires
        forall|i: int| 0 <= i < s.len() ==> #[trigger] s[i] == v,
    ensures
        seq_sum(s) == s.len() * v,
    decreases s.len(),
{
    if s.len() == 0 {
    } else {
        lemma_seq_sum_constant(s.drop_last(), v);
        assert((s.len() - 1) * v + v == s.len() * v) by (nonlinear_arith);
    }
}

/// Reading a circular buffer oldest-first from cursor `i`.
pub open spec fn rotation(s: Seq<int>, i: int) -> Seq<int>
    recommends
        0 <= i <= s.len(),
{
    s.skip(i) + s.take(i)
}

/// Writing the new sample over the slot at the cursor and advancing the
/// cursor drops the oldest sample and appends the new one, as read
/// oldest-first.
pub proof fn lemma_rotation_advance(s: Seq<int>, i: int, v: int)
    requires
        s.len() >= 1,
        0 <= i < s.len(),
    ensures
        rotation(s.update(i, v), (i + 1) % (s.len() as int))
            == rotation(s, i).drop_first().push(v),
{
    let n = s.len() as int;
    let s2 = s.update(i, v);
    let i2 = (i + 1) % n;
    assert(rotation(s2, i2) =~= rotation(s, i).drop_first().push(v)) by {
        assert forall|k: int| 0 <= k < n implies rotation(s2, i2)[k]
            == rotation(s, i).drop_first().push(v)[k] by {
            if i + 1 < n {
                lemma_small_mod((i + 1) as nat, n as nat);
                assert(i2 == i + 1);
            } else {
                lemma_mod_self_0(n);
                assert(i2 == 0);
            }
        }
    }
}

} // verus!
