//! Random choice of mine positions.

use rand::seq::IteratorRandom;
use rand::thread_rng;
use vstd::prelude::*;

verus! {

/// The largest number of indices that one draw may ask for. The sampler
/// reserves room for all of them before it draws, and a vector holds no more
/// than `isize::MAX` bytes: this many indices stay below that on every
/// machine.
pub const MAX_SAMPLE: usize = 0x0FFF_FFFF;

/// Draws `amount` of the indices `0..total` at random.
///
/// Trusted: the body calls `rand::seq::IteratorRandom::choose_multiple` on
/// the range `0..total` with `rand::thread_rng()`. Which indices come back
/// is left open. What is claimed holds of every draw: the sampler fills a
/// reservoir with the first `amount` items of the range and then only ever
/// replaces one of them by a later item, so it returns `amount` items when
/// the range has that many, each an item of the range, and none twice since
/// the range yields none twice.
#[verifier::external_body]
pub(crate) fn choose_indices(total: usize, amount: usize) -> (picked: Vec<usize>)
    requires
        amount <= total,
        amount <= MAX_SAMPLE,
    ensures
        picked@.len() == amount,
        forall|k: int| 0 <= k < picked@.len() ==> #[trigger] picked@[k] < total,
        picked@.no_duplicates(),
{
    (0..total).choose_multiple(&mut thread_rng(), amount)
}

} // verus!
