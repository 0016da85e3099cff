//! Relevance scores are `f32` values produced by the vector index. The library
//! handles them through their IEEE-754 total-order key: the bit pattern read as
//! an `i32`, with the magnitude bits of negative values flipped. The
//! application computes the keys; that keys compare as `i32` the way
//! `f32::total_cmp` compares the scores, so that the float comparison below
//! agrees with `<` on the scores, is IEEE-754 arithmetic outside what is
//! verified here: `tests/score_and_text.rs` checks it on the special values
//! and a spread of ordinary ones, and nothing proves it.
use vstd::prelude::*;

verus! {

/// Key of `f32::INFINITY`.
pub const POS_INF_KEY: i32 = 2139095040i32;

/// Key of `f32::NEG_INFINITY`.
pub const NEG_INF_KEY: i32 = -2139095041i32;

/// Key of `-0.0f32`; it compares equal to `+0.0f32`, whose key is `0`.
pub const NEG_ZERO_KEY: i32 = -1i32;

/// The key of a NaN lies outside the range of keys of ordered values.
pub open spec fn key_is_nan(k: i32) -> bool {
    k > POS_INF_KEY || k < NEG_INF_KEY
}

/// The numeric rank of a non-NaN key: `-0.0` ranks with `+0.0`.
pub open spec fn key_rank(k: i32) -> int {
    if k == NEG_ZERO_KEY { 0 } else { k as int }
}

/// The float comparison `a < b` on the scores with keys `a` and `b`.
pub open spec fn score_lt(a: i32, b: i32) -> bool {
    !key_is_nan(a) && !key_is_nan(b) && key_rank(a) < key_rank(b)
}

/// `a.partial_cmp(&b) == Some(Equal)` on the scores with keys `a` and `b`.
pub open spec fn score_eq(a: i32, b: i32) -> bool {
    !key_is_nan(a) && !key_is_nan(b) && key_rank(a) == key_rank(b)
}

/// Whether the score with key `k` is NaN.
pub fn is_nan_score(k: i32) -> (r: bool)
    ensures
        r == key_is_nan(k),
{
    k > POS_INF_KEY || k < NEG_INF_KEY
}

/// Computes the float comparison `a < b` on two score keys.
pub fn score_less_than(a: i32, b: i32) -> (r: bool)
    ensures
        r == score_lt(a, b),
{
    if is_nan_score(a) || is_nan_score(b) {
        false
    } else {
        let ra: i32 = if a == NEG_ZERO_KEY { 0 } else { a };
        let rb: i32 = if b == NEG_ZERO_KEY { 0 } else { b };
        ra < rb
    }
}

/// Float `<` on scores is a strict order: irreflexive and transitive, and
/// NaN compares below or above nothing.
pub proof fn lemma_score_lt_strict_order(a: i32, b: i32, c: i32)
    ensures
        !score_lt(a, a),
        score_lt(a, b) && score_lt(b, c) ==> score_lt(a, c),
        score_lt(a, b) ==> !score_lt(b, a),
        key_is_nan(a) ==> !score_lt(a, b) && !score_lt(b, a),
{
}

/// Between two non-NaN scores exactly one of `a < b`, `a == b`, `b < a` holds.
pub proof fn lemma_score_trichotomy(a: i32, b: i32)
    requires
        !key_is_nan(a),
        !key_is_nan(b),
    ensures
        score_lt(a, b) || score_eq(a, b) || score_lt(b, a),
        !(score_lt(a, b) && score_eq(a, b)),
        !(score_lt(b, a) && score_eq(a, b)),
{
}

} // verus!
