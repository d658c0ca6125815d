//! The source of random cells.
//!
//! Nothing here is proved. The generator is that of the `rand` crate, and
//! these declarations say of it only that it hands out a `bool`. It asks the
//! operating system for a seed, the first time it is used on a thread and
//! after every 64 KiB it has handed out, and stops the program with a panic
//! if the operating system refuses.

use rand::rngs::ThreadRng;
use rand::Rng;
use vstd::prelude::*;

verus! {

/// `rand::rngs::ThreadRng`, a handle to the random number generator of the
/// calling thread. Nothing is known of what it holds.
#[verifier::external_type_specification]
#[verifier::external_body]
pub struct ExThreadRng(ThreadRng);

/// `rand::thread_rng` hands out the generator of the calling thread.
/// Nothing is claimed of the generator.
pub assume_specification[ rand::thread_rng ]() -> (rng: ThreadRng)
;

/// `rand::Rng::gen` at type `bool` draws one cell from `rng`: the top bit
/// of the next 32 bits. Nothing is claimed of the cell: it may be live or
/// dead, whatever was drawn before.
#[verifier::external_body]
pub(crate) fn random_cell(rng: &mut ThreadRng) -> (alive: bool) {
    rng.gen()
}

} // verus!
