//! The calls into `bbt`, the rating crate, and the declarations of its types.

use vstd::prelude::*;

verus! {

/// `bbt::Rating`, a player's skill estimate; opaque here.
#[verifier::external_type_specification]
#[verifier::external_body]
pub struct ExRating(bbt::Rating);

/// `bbt::Rater`, the rating model with its beta parameter; opaque here.
#[verifier::external_type_specification]
#[verifier::external_body]
pub struct ExRater(bbt::Rater);

/// Holds when `r` is a rating that `bbt::Rater::duel` through `rater` may give a player
/// rated `own` who won (`won`) or lost against a player rated `other`. It is a relation,
/// not a function: bbt computes in floating point with `exp`, whose precision Rust
/// leaves unspecified, so two equal calls are not promised to agree.
pub uninterp spec fn duel_gives(rater: bbt::Rater, own: bbt::Rating, other: bbt::Rating, won: bool, r: bbt::Rating) -> bool;

/// Calls `bbt::Rater::duel` on `own` against `other`, with the outcome seen from
/// `own`'s side (`Win` when `won`, `Loss` otherwise), and hands back `own`'s new rating.
/// The contract claims only that the rating came from that call on these inputs
/// ([`duel_gives`]); its value is left unsaid.
#[verifier::external_body]
pub(crate) fn duel_rating(
    rater: &bbt::Rater,
    own: bbt::Rating,
    other: bbt::Rating,
    won: bool,
) -> (r: bbt::Rating)
    ensures
        duel_gives(*rater, own, other, won, r),
{
    let outcome = if won { bbt::Outcome::Win } else { bbt::Outcome::Loss };
    rater.duel(own, other, outcome).0
}

/// Calls the derived `Clone` of `bbt::Rating`, which copies its three numbers, so the
/// copy is the same value as the original.
#[verifier::external_body]
pub(crate) fn copy_rating(r: &bbt::Rating) -> (c: bbt::Rating)
    ensures
        c == *r,
{
    r.clone()
}

} // verus!
