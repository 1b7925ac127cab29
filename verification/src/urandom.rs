//! Unbiased numbers from random bytes.
//!
//! Eight random bytes make a number; it is used only if that leaves every value
//! of the range asked for equally likely. Otherwise fresh bytes are needed.

use vstd::arithmetic::div_mod::{
    lemma_fundamental_div_mod, lemma_fundamental_div_mod_converse, lemma_mod_bound,
};
use vstd::prelude::*;

use crate::bytes::{read_i64, signed64, u64_at};

verus! {

/// Random bytes needed for one attempt.
pub const RANDOM_BYTES: usize = 8;

/// The number that eight random bytes stand for: their magnitude as a signed
/// number, 0 for the one whose magnitude does not fit.
pub open spec fn folded(raw: i64) -> int {
    if raw == i64::MIN {
        0
    } else if raw < 0 {
        -raw
    } else {
        raw as int
    }
}

/// How many values there are in `lower..=upper`.
pub open spec fn range_size(lower: i64, upper: i64) -> int {
    upper - lower + 1
}

/// Numbers from here on are refused: the largest multiple of `size` up to
/// `i64::MAX`.
pub open spec fn refused_from(size: int) -> int {
    i64::MAX - i64::MAX as int % size
}

/// The value of `lower..=upper` that `raw` gives, or `None` if it is refused.
pub open spec fn drawn(raw: i64, lower: i64, upper: i64) -> Option<i64> {
    let size = range_size(lower, upper);
    if folded(raw) < refused_from(size) {
        Some((lower + folded(raw) % size) as i64)
    } else {
        None
    }
}

/// There is something to choose, and the size of the range is a proper number.
pub open spec fn drawable(lower: i64, upper: i64) -> bool {
    0 <= lower < upper && upper - lower < i64::MAX
}

/// The value of `lower..=upper` that `raw` gives, or `None` if it is refused
/// and another one is needed.
pub fn draw(raw: i64, lower: i64, upper: i64) -> (r: Option<i64>)
    requires
        drawable(lower, upper),
    ensures
        r == drawn(raw, lower, upper),
        r matches Some(v) ==> lower <= v <= upper,
{
    let v: i64 = if raw == i64::MIN {
        0
    } else if raw < 0 {
        -raw
    } else {
        raw
    };
    let size: i64 = upper - lower + 1;
    let threshold: i64 = i64::MAX - i64::MAX % size;
    if v < threshold {
        proof {
            lemma_mod_bound(v as int, size as int);
        }
        Some(lower + v % size)
    } else {
        None
    }
}

/// [`draw`] on the number that eight random bytes stand for.
pub fn draw_from_bytes(bytes: &[u8], lower: i64, upper: i64) -> (r: Option<i64>)
    requires
        bytes@.len() == RANDOM_BYTES,
        drawable(lower, upper),
    ensures
        r == drawn(signed64(u64_at(bytes@, 0)) as i64, lower, upper),
        r matches Some(v) ==> lower <= v <= upper,
{
    draw(read_i64(bytes, 0), lower, upper)
}

/// What is returned without any randomness, where there is nothing to choose.
pub fn only_choice(lower: i64, upper: i64) -> (r: Option<i64>)
    ensures
        r == (if lower >= upper {
            Some(upper)
        } else {
            None
        }),
{
    if lower >= upper {
        Some(upper)
    } else {
        None
    }
}

/// One of the two raw numbers that fold to `v`.
pub open spec fn unfolded(v: int, second: bool) -> i64 {
    if !second {
        v as i64
    } else if v == 0 {
        i64::MIN
    } else {
        (-v) as i64
    }
}

/// Exactly two raw numbers fold to each number.
pub proof fn law_two_raws_each(raw: i64, v: int)
    requires
        0 <= v <= i64::MAX,
    ensures
        folded(raw) == v <==> raw == unfolded(v, false) || raw == unfolded(v, true),
        unfolded(v, false) != unfolded(v, true),
{
}

/// The raw numbers that give the value `lower + k`, numbered by `q` and
/// `second`.
pub open spec fn raw_giving(size: int, k: int, q: int, second: bool) -> i64 {
    unfolded(q * size + k, second)
}

/// Every value is equally likely: the raw numbers that give the value
/// `lower + k` are `raw_giving(size, k, q, second)` for `q` below the same bound
/// for all `k`.
pub proof fn law_values_equally_likely(raw: i64, lower: i64, upper: i64, k: int)
    requires
        drawable(lower, upper),
        0 <= k <= upper - lower,
    ensures
        ({
            let size = range_size(lower, upper);
            let rounds = refused_from(size) / size;
            &&& refused_from(size) == rounds * size
            &&& rounds >= 1
            &&& drawn(raw, lower, upper) == Some((lower + k) as i64) <==> exists|
                q: int,
                second: bool,
            |
                0 <= q < rounds && raw == #[trigger] raw_giving(size, k, q, second)
        }),
{
    let size = range_size(lower, upper);
    let limit = refused_from(size);
    let top = i64::MAX as int;
    lemma_fundamental_div_mod(top, size);
    lemma_mod_bound(top, size);
    let whole = top / size;
    assert(limit == whole * size) by (nonlinear_arith)
        requires
            top == size * whole + top % size,
            limit == top - top % size,
    ;
    lemma_fundamental_div_mod_converse(limit, size, whole, 0);
    let rounds = limit / size;
    assert(rounds == whole);
    assert(rounds >= 1) by (nonlinear_arith)
        requires
            limit == rounds * size,
            limit > 0,
            size > 0,
    ;
    let v = folded(raw);
    lemma_fundamental_div_mod(v, size);
    lemma_mod_bound(v, size);
    if drawn(raw, lower, upper) == Some((lower + k) as i64) {
        let q = v / size;
        assert(v % size == k);
        assert(q * size + k == v) by (nonlinear_arith)
            requires
                v == size * q + v % size,
                v % size == k,
        ;
        assert(0 <= q < rounds) by (nonlinear_arith)
            requires
                q * size + k == v,
                0 <= v < rounds * size,
                0 <= k < size,
                rounds >= 1,
        ;
        law_two_raws_each(raw, v);
        let second = raw != unfolded(v, false);
        assert(raw == raw_giving(size, k, q, second));
    }
    assert forall|q: int, second: bool|
        0 <= q < rounds && raw == #[trigger] raw_giving(size, k, q, second) implies drawn(
        raw,
        lower,
        upper,
    ) == Some((lower + k) as i64) by {
        let w = q * size + k;
        assert(0 <= w < rounds * size) by (nonlinear_arith)
            requires
                w == q * size + k,
                0 <= q < rounds,
                0 <= k < size,
        ;
        law_two_raws_each(raw, w);
        lemma_fundamental_div_mod_converse(w, size, q, k);
    }
}

/// The numbering counts no raw number twice.
pub proof fn law_numbering_is_one_to_one(
    size: int,
    k: int,
    rounds: int,
    q1: int,
    second1: bool,
    q2: int,
    second2: bool,
)
    requires
        size > 0,
        0 <= k < size,
        0 <= q1 < rounds,
        0 <= q2 < rounds,
        rounds * size <= i64::MAX,
        raw_giving(size, k, q1, second1) == raw_giving(size, k, q2, second2),
    ensures
        q1 == q2,
        second1 == second2,
{
    let v1 = q1 * size + k;
    let v2 = q2 * size + k;
    assert(0 <= v1 < rounds * size && 0 <= v2 < rounds * size) by (nonlinear_arith)
        requires
            v1 == q1 * size + k,
            v2 == q2 * size + k,
            0 <= q1 < rounds,
            0 <= q2 < rounds,
            0 <= k < size,
    ;
    law_two_raws_each(raw_giving(size, k, q1, second1), v1);
    law_two_raws_each(raw_giving(size, k, q2, second2), v2);
    lemma_fundamental_div_mod_converse(v1, size, q1, k);
    lemma_fundamental_div_mod_converse(v2, size, q2, k);
}

/// Hardly any number is refused: fewer than there are values in the range, all of
/// them at the very top.
pub proof fn law_few_refused(raw: i64, lower: i64, upper: i64)
    requires
        drawable(lower, upper),
    ensures
        drawn(raw, lower, upper) is None ==> folded(raw) > i64::MAX - (upper - lower + 1),
        raw != i64::MIN ==> (folded(raw) == raw || folded(raw) == -raw) && folded(raw) >= 0,
        drawn(raw, lower, upper) matches Some(v) ==> lower <= v <= upper,
{
    lemma_mod_bound(i64::MAX as int, range_size(lower, upper));
    lemma_mod_bound(folded(raw), range_size(lower, upper));
}

} // verus!
