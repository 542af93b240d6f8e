//! The cell.

use crate::protocol::claim_outcome;
use crate::protocol::claim_step;
use crate::protocol::follows_protocol;
use crate::protocol::none_claimed;
use crate::protocol::Attempt;
use crate::protocol::Claim;
use crate::storable::decode;
use crate::storable::decodes_to;
use crate::storable::AtomicCellConstInit;
use crate::storable::AtomicCellStorable;
use std::marker::PhantomData;
use std::sync::atomic::AtomicUsize;
use std::sync::atomic::Ordering;
use vstd::prelude::*;

verus! {

/// `std::hint::spin_loop` tells the processor that the caller is busy-waiting. It
/// returns nothing and changes nothing that the program can see, so nothing is claimed
/// of it.
pub assume_specification[ std::hint::spin_loop ]();

/// How many times an operation on a cell made by `new` tries to claim the word before
/// it gives up.
///
/// A claim is refused only while another thread is between its take and its put, a
/// window of a few instructions, or when another thread changed the word first. An
/// operation that gives up after this many attempts has, in practice, met a cell that
/// a dead or suspended thread left in transfer.
pub const SPIN_LIMIT: usize = usize::MAX;

/// An atomic cell that holds one handle, encoded in one machine word.
///
/// At any instant the word is either the encoding of the handle that the cell owns, or
/// `T::TAKEN_VALUE` while one thread is between taking the handle out and putting one
/// back. A thread that finds the reserved word spins until the other thread has put its
/// handle; there is no lock, no queue and no fairness.
///
/// Nothing about the word can be told from a shared reference to the cell, since other
/// threads change it at any time. The contracts below say which atomic operations on
/// the word an operation of the cell went by, what it handed to them, and how its
/// result follows from what they gave back: `created_with`, `took`, `put`, `read` and
/// `took_nothing` are their words for it. They do not say in which order the
/// operations on the word were made, nor that an operation of the cell made no other
/// store than the one they name: nothing that is known of the atomic operations would
/// let a contract say so. What the protocol guarantees of the cell's contents over
/// time is proved in [`crate::model`].
///
/// Dropping a cell forgets the handle inside without releasing it; `into_inner` gives it
/// back to be released.
pub struct AtomicCell<T: AtomicCellStorable> {
    value: AtomicUsize,
    spin_limit: usize,
    _marker: PhantomData<T>,
}

impl<T: AtomicCellStorable> AtomicCell<T> {
    /// How many times an operation on this cell tries to claim the word.
    pub closed spec fn spin_limit(&self) -> usize {
        self.spin_limit
    }

    /// Creates a cell that owns `value`: its word starts as the encoding of `value`,
    /// which is moved in.
    pub fn new(value: T) -> (cell: Self)
        ensures
            cell.created_with(value),
            cell.spin_limit() == SPIN_LIMIT,
    {
        AtomicCell::with_spin_limit(value, SPIN_LIMIT)
    }

    /// Creates a cell that owns `value` and whose operations give up after `spin_limit`
    /// attempts to claim the word.
    pub fn with_spin_limit(value: T, spin_limit: usize) -> (cell: Self)
        ensures
            cell.created_with(value),
            cell.spin_limit() == spin_limit,
    {
        let word = value.into_value();
        let cell = AtomicCell { value: AtomicUsize::new(word), spin_limit, _marker: PhantomData };
        assert(value.encodes(word) && cell.made_from(word));
        cell
    }

    /// Creates a cell that owns the default handle: its word starts as
    /// `T::DEFAULT_VALUE`, the known encoding of that handle.
    pub fn const_new() -> (cell: Self) where T: AtomicCellConstInit
        ensures
            cell.made_from(T::DEFAULT_VALUE),
            cell.spin_limit() == SPIN_LIMIT,
    {
        AtomicCell {
            value: AtomicUsize::new(T::DEFAULT_VALUE),
            spin_limit: SPIN_LIMIT,
            _marker: PhantomData,
        }
    }

    /// Replaces the handle in the cell and returns the one that was there: the handle
    /// that a claim took out, after which `value` was put in.
    ///
    /// The contract names the claim and the put. That the put is the last thing the
    /// call does to the word, so that the cell is left with the encoding of `value`,
    /// is what the body does and the model describes; no clause states it.
    ///
    /// Gives `value` back as `Err` if no handle could be taken out: the word could not
    /// be claimed in `spin_limit` attempts, or it encodes no handle. The cell is then
    /// as it was.
    pub fn set(&self, value: T) -> (previous: Result<T, T>)
        ensures
            match previous {
                Ok(old) => self.took(old) && self.put(value) && self.spin_limit() > 0,
                Err(back) => back == value && self.took_nothing(),
            },
    {
        match self.internal_take() {
            Some(old) => {
                self.internal_put(value);
                Ok(old)
            },
            None => Err(value),
        }
    }

    /// Takes the handle out of the cell and leaves `T::TAKEN_VALUE` in the word. The
    /// caller owns the handle and the cell until it puts a handle back.
    ///
    /// Returns `None` if the word could not be claimed in `spin_limit` attempts, or if
    /// the word that was claimed is reserved and so encodes no handle; that word is put
    /// back as it was found.
    fn internal_take(&self) -> (held: Option<T>)
        ensures
            match held {
                Some(handle) => self.took(handle) && self.spin_limit() > 0,
                None => self.took_nothing(),
            },
    {
        match self.claim() {
            Some(word) => {
                if T::is_reserved(word) {
                    let replaced = self.value.swap(word, Ordering::SeqCst);
                    assert(self.claimed(word) && T::reserved(word) && self.swapped(
                        word,
                        replaced,
                    ));
                    None
                } else {
                    let handle = T::from_value(word);
                    assert(self.claimed(word) && handle.encodes(word));
                    Some(handle)
                }
            },
            None => None,
        }
    }

    /// Claims the word: exchanges it for `T::TAKEN_VALUE` and returns the word that was
    /// there, which is never `T::TAKEN_VALUE` itself.
    ///
    /// An exchange that finds `T::TAKEN_VALUE` or another word than it expected is tried
    /// again, up to `spin_limit` attempts in all.
    fn claim(&self) -> (claimed: Option<usize>)
        ensures
            match claimed {
                Some(word) => self.claimed(word) && word != T::TAKEN_VALUE && self.spin_limit()
                    > 0,
                None => self.gave_up(),
            },
    {
        let first: usize = self.value.load(Ordering::SeqCst);
        let mut current: usize = first;
        let mut attempts: usize = 0;
        let ghost mut made: Seq<Attempt> = Seq::empty();
        while attempts < self.spin_limit
            invariant
                attempts <= self.spin_limit,
                made.len() == attempts,
                self.attempted(first, made),
                none_claimed(T::TAKEN_VALUE, made),
                made.len() == 0 ==> current == first,
                made.len() > 0 ==> claim_outcome(T::TAKEN_VALUE, made.last().reported)
                    == Claim::Retry(current),
            decreases self.spin_limit - attempts,
        {
            let exchanged = self.value.compare_exchange_weak(
                current,
                T::TAKEN_VALUE,
                Ordering::SeqCst,
                Ordering::SeqCst,
            );
            let ghost before = made;
            proof {
                made = before.push(Attempt { expected: current, reported: exchanged });
                assert forall|i: int| 0 <= i < made.len() implies self.exchanged(
                    (#[trigger] made[i]).expected,
                    made[i].reported,
                ) by {
                    if i < before.len() {
                        assert(made[i] == before[i]);
                    }
                }
                assert forall|i: int| 0 < i < made.len() implies claim_outcome(
                    T::TAKEN_VALUE,
                    made[i - 1].reported,
                ) == Claim::Retry((#[trigger] made[i]).expected) by {
                    if i < before.len() {
                        assert(made[i] == before[i]);
                        assert(made[i - 1] == before[i - 1]);
                    }
                }
                assert(self.attempted(first, made));
            }
            match claim_step(T::TAKEN_VALUE, exchanged) {
                Claim::Claimed(word) => {
                    assert(claim_outcome(T::TAKEN_VALUE, made.last().reported) == Claim::Claimed(
                        word,
                    ));
                    return Some(word);
                },
                Claim::Retry(expected) => {
                    current = expected;
                },
            }
            proof {
                assert forall|i: int| 0 <= i < made.len() implies claim_outcome(
                    T::TAKEN_VALUE,
                    (#[trigger] made[i]).reported,
                ) is Retry by {
                    if i < before.len() {
                        assert(made[i] == before[i]);
                    }
                }
            }
            std::hint::spin_loop();
            attempts = attempts + 1;
        }
        None
    }

    /// Puts a handle into a cell whose word the caller has claimed. The word it stores
    /// is the handle's encoding, never `T::TAKEN_VALUE`.
    ///
    /// The word that it replaces is `T::TAKEN_VALUE`, which the caller's claim left
    /// there and no other thread can have replaced; see `lemma_mutual_exclusion` in
    /// [`crate::model`]. It is not looked at.
    fn internal_put(&self, value: T)
        ensures
            self.put(value),
    {
        let word = value.into_value();
        assert(word != T::TAKEN_VALUE) by {
            T::lemma_taken_reserved();
        }
        let replaced = self.value.swap(word, Ordering::SeqCst);
        assert(value.encodes(word) && self.swapped(word, replaced));
    }

    /// Ends the cell and returns the handle it owned: the decoding of the word that was
    /// in the cell.
    ///
    /// Returns `None` exactly if that word is reserved, as `T::TAKEN_VALUE` is in a
    /// cell that was left in transfer.
    pub fn into_inner(self) -> (held: Option<T>)
        ensures
            self.ended_with(held),
    {
        let word = self.value.load(Ordering::SeqCst);
        let held: Option<T> = decode(word);
        assert(self.loaded(word) && decodes_to(word, held));
        held
    }
}

impl<T: AtomicCellStorable + Clone> AtomicCell<T> {
    /// Returns a clone of the handle in the cell, which stays as it is: the handle that
    /// was taken out is the one that is put back.
    ///
    /// Returns `None` if no handle could be taken out: the word could not be claimed in
    /// `spin_limit` attempts, or it encodes no handle. The cell is then as it was.
    pub fn get(&self) -> (copy: Option<T>)
        ensures
            match copy {
                Some(handle) => self.read(handle) && self.spin_limit() > 0,
                None => self.took_nothing(),
            },
    {
        match self.internal_take() {
            Some(value) => {
                let copy = value.clone();
                self.internal_put(value);
                assert(self.took(value) && self.put(value) && cloned(value, copy));
                Some(copy)
            },
            None => None,
        }
    }

    /// Whether `copy` is what `get` made: a clone of the handle that a claim took out
    /// and that was then put back.
    pub open spec fn read(&self, copy: T) -> bool {
        exists|held: T| self.took(held) && self.put(held) && #[trigger] cloned(held, copy)
    }
}

impl<T: AtomicCellStorable + Default> AtomicCell<T> {
    /// Takes the handle out of the cell and leaves the default handle in its place.
    ///
    /// Returns `None` if no handle could be taken out: the word could not be claimed in
    /// `spin_limit` attempts, or it encodes no handle. The cell is then as it was.
    pub fn take(&self) -> (previous: Option<T>)
        ensures
            match previous {
                Some(old) => self.took(old) && self.put_default() && self.spin_limit() > 0,
                None => self.took_nothing(),
            },
    {
        // The new handle is built first: nothing that can fail may stand between the
        // take and the put.
        let new_value = T::default();
        match self.internal_take() {
            Some(old) => {
                self.internal_put(new_value);
                assert(call_ensures(T::default, (), new_value) && self.put(new_value));
                Some(old)
            },
            None => None,
        }
    }

    /// Whether a handle that `T::default` made was put into the cell.
    pub open spec fn put_default(&self) -> bool {
        exists|new: T| #[trigger] call_ensures(T::default, (), new) && self.put(new)
    }
}

impl<T: AtomicCellStorable + Default> Default for AtomicCell<T> {
    /// A cell that owns the default handle: its word starts as the encoding of what
    /// `T::default` gave.
    fn default() -> (cell: Self)
        ensures
            cell.created_default(),
            cell.spin_limit() == SPIN_LIMIT,
    {
        let value = T::default();
        let cell = AtomicCell::new(value);
        assert(call_ensures(T::default, (), value) && cell.created_with(value));
        cell
    }
}

impl<T: AtomicCellStorable + Default> AtomicCell<T> {
    /// Whether the cell was created with a handle that `T::default` made.
    pub open spec fn created_default(&self) -> bool {
        exists|new: T| #[trigger] call_ensures(T::default, (), new) && self.created_with(new)
    }
}

/// What the operations did to the cell's word, told by what the atomic operations on
/// it were given and what they gave back. Nothing is known of what such an operation
/// gives back, since other threads decide it; these predicates say which results an
/// operation of the cell went by.
impl<T: AtomicCellStorable> AtomicCell<T> {
    /// Whether the cell's word was created holding `word`.
    pub closed spec fn made_from(&self, word: usize) -> bool {
        call_ensures(AtomicUsize::new, (word,), self.value)
    }

    /// Whether the cell was created with `handle`: its word was created holding a word
    /// that encodes it.
    pub open spec fn created_with(&self, handle: T) -> bool {
        exists|word: usize| handle.encodes(word) && #[trigger] self.made_from(word)
    }

    /// Whether a load of the cell's word gave `word`.
    pub closed spec fn loaded(&self, word: usize) -> bool {
        call_ensures(AtomicUsize::load, (&self.value, Ordering::SeqCst), word)
    }

    /// Whether an exchange of `expected` for `T::TAKEN_VALUE` in the cell's word
    /// reported `reported`.
    pub closed spec fn exchanged(&self, expected: usize, reported: Result<usize, usize>) -> bool {
        call_ensures(
            AtomicUsize::compare_exchange_weak,
            (&self.value, expected, T::TAKEN_VALUE, Ordering::SeqCst, Ordering::SeqCst),
            reported,
        )
    }

    /// Whether a swap that stored `word` in the cell's word gave `replaced`.
    pub closed spec fn swapped(&self, word: usize, replaced: usize) -> bool {
        call_ensures(AtomicUsize::swap, (&self.value, word, Ordering::SeqCst), replaced)
    }

    /// Whether a claim loaded the word `first` and then made `attempts`, each an
    /// exchange on the cell's word, in the order and with the expected words that the
    /// protocol asks for, and no more of them than the cell's limit.
    pub open spec fn attempted(&self, first: usize, attempts: Seq<Attempt>) -> bool {
        &&& self.loaded(first)
        &&& follows_protocol(T::TAKEN_VALUE, first, attempts)
        &&& forall|i: int|
            0 <= i < attempts.len() ==> self.exchanged(
                (#[trigger] attempts[i]).expected,
                attempts[i].reported,
            )
        &&& attempts.len() <= self.spin_limit()
    }

    /// Whether a claim took `word` out of the cell: the last of its attempts replaced
    /// `word`, which is not the reserved word, by the reserved word.
    pub open spec fn claimed(&self, word: usize) -> bool {
        exists|first: usize, attempts: Seq<Attempt>|
            {
                &&& #[trigger] self.attempted(first, attempts)
                &&& attempts.len() > 0
                &&& claim_outcome(T::TAKEN_VALUE, attempts.last().reported) == Claim::Claimed(word)
            }
    }

    /// Whether a claim gave up: it made as many attempts as the cell's limit allows,
    /// and none of them claimed a word.
    pub open spec fn gave_up(&self) -> bool {
        exists|first: usize, attempts: Seq<Attempt>|
            {
                &&& #[trigger] self.attempted(first, attempts)
                &&& attempts.len() == self.spin_limit()
                &&& none_claimed(T::TAKEN_VALUE, attempts)
            }
    }

    /// Whether an operation claimed a word that encodes no handle and put it back as
    /// it was found.
    pub open spec fn refused(&self) -> bool {
        exists|word: usize, replaced: usize|
            self.claimed(word) && T::reserved(word) && #[trigger] self.swapped(word, replaced)
    }

    /// Whether an operation took no handle out of the cell: its claim gave up, or the
    /// word that it claimed encodes no handle and was put back.
    pub open spec fn took_nothing(&self) -> bool {
        self.gave_up() || self.refused()
    }

    /// Whether `handle` was taken out of the cell: it is the decoding of a word that a
    /// claim took out.
    pub open spec fn took(&self, handle: T) -> bool {
        exists|word: usize| self.claimed(word) && #[trigger] handle.encodes(word)
    }

    /// Whether `handle` was put into the cell: a word that encodes it, and so not the
    /// reserved one, was stored in the cell's word.
    pub open spec fn put(&self, handle: T) -> bool {
        exists|word: usize, replaced: usize|
            handle.encodes(word) && #[trigger] self.swapped(word, replaced)
    }

    /// Whether `held` is what the cell ended with: the decoding of the word that a load
    /// of the cell's word gave.
    pub open spec fn ended_with(&self, held: Option<T>) -> bool {
        exists|word: usize| #[trigger] self.loaded(word) && decodes_to(word, held)
    }
}

} // verus!
