//! The decision at the heart of the take/put protocol.
//!
//! A thread takes the handle out of a cell by exchanging the cell's word for the
//! reserved word. The exchange is a compare-and-exchange, so it can fail, and it can
//! succeed on a word that is itself the reserved one, put there by a thread that holds
//! the handle at that moment. What the thread does next depends only on what the
//! exchange reported.

use vstd::prelude::*;

verus! {

/// What one attempt to claim the cell's word came to.
#[derive(Clone, Copy, PartialEq, Eq, Debug)]
pub enum Claim {
    /// The word was taken out and the reserved word put in its place.
    Claimed(usize),
    /// Nothing was taken out; the next attempt expects this word.
    Retry(usize),
}

/// What a thread makes of the result of exchanging the word it expected for `taken`.
///
/// `Ok` carries the word that was replaced: the thread has claimed it, unless it is
/// `taken` itself, in which case the handle is with another thread and this one waits
/// for `taken` to go. `Err` carries the word that was found instead of the expected
/// one, which is what the next attempt expects.
pub open spec fn claim_outcome(taken: usize, exchanged: Result<usize, usize>) -> Claim {
    match exchanged {
        Ok(previous) => if previous != taken {
            Claim::Claimed(previous)
        } else {
            Claim::Retry(taken)
        },
        Err(seen) => Claim::Retry(seen),
    }
}

/// Decides what follows an exchange; see [`claim_outcome`].
pub fn claim_step(taken: usize, exchanged: Result<usize, usize>) -> (claim: Claim)
    ensures
        claim == claim_outcome(taken, exchanged),
{
    match exchanged {
        Ok(previous) => if previous != taken {
            Claim::Claimed(previous)
        } else {
            Claim::Retry(taken)
        },
        Err(seen) => Claim::Retry(seen),
    }
}

/// One attempt to claim the word: the word that the exchange expected to find, and what
/// the exchange reported.
pub struct Attempt {
    pub expected: usize,
    pub reported: Result<usize, usize>,
}

/// Whether `attempts` are the attempts of one claim, in their order: the first expects
/// the word `first`, and every other one expects the word that the outcome of the
/// attempt before it said to try again with. So no attempt but the last has claimed.
pub open spec fn follows_protocol(taken: usize, first: usize, attempts: Seq<Attempt>) -> bool {
    &&& attempts.len() > 0 ==> attempts[0].expected == first
    &&& forall|i: int|
        0 < i < attempts.len() ==> claim_outcome(taken, attempts[i - 1].reported) == Claim::Retry(
            (#[trigger] attempts[i]).expected,
        )
}

/// Whether the outcome of every one of `attempts` was to try again.
pub open spec fn none_claimed(taken: usize, attempts: Seq<Attempt>) -> bool {
    forall|i: int|
        0 <= i < attempts.len() ==> claim_outcome(taken, (#[trigger] attempts[i]).reported) is Retry
}

} // verus!
