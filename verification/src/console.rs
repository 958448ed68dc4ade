//! What the game asks of the console itself, beyond its physics: chance.

use vstd::prelude::*;
use pixel8::Context;

verus! {

/// `Context::random_integer` over `lo..hi`: a draw from the console's random sequence. Claimed:
/// for a non-empty range, an integer in it (the draw is mapped from `[0, 1)` onto the range's
/// integers). Which one is chance, and nothing more is said of it.
#[verifier::external_body]
pub(crate) fn random_integer(ctx: &mut Context, lo: i32, hi: i32) -> (r: i32)
    requires
        lo < hi,
    ensures
        lo <= r < hi,
{
    ctx.random_integer(lo..hi)
}

} // verus!
