//! The encoding contract between a handle type and the cell.

use vstd::prelude::*;

verus! {

/// The word that stands for "no handle held" in a cell of optional handles.
pub const EMPTY_OPTION: usize = 0;

/// A handle that can be moved into a machine word and back.
///
/// A handle type sets some words aside: `TAKEN_VALUE`, which the cell parks in its word
/// while a handle is being transferred, and any other word that can never stand for a
/// handle of the type. Encoding never gives a reserved word. Decoding is owed only on
/// a word that is not reserved, and the cell tests every word with `is_reserved`
/// before it decodes it.
///
/// An implementation that turns a word into an address needs more than that: the word
/// must have come from `into_value` and must not have been decoded since. The cell
/// stores only words that `into_value` gave, or `DEFAULT_VALUE`, and decodes a word
/// only after it has exchanged it for `TAKEN_VALUE`; the model in [`crate::model`]
/// shows that this hands every stored word out exactly once. The contract of
/// `from_value` cannot ask for it, since nothing is known of what an atomic operation
/// gives back: such an implementation rests on the model, and nobody but the cell may
/// call its `from_value`.
pub trait AtomicCellStorable: Sized {
    /// A word that no handle of this type encodes to. The cell parks it in the word
    /// while a handle is being transferred.
    const TAKEN_VALUE: usize;

    /// Whether `word` is set aside: no handle of this type encodes to it.
    spec fn reserved(word: usize) -> bool;

    /// Whether `word` is an encoding of this handle.
    spec fn encodes(&self, word: usize) -> bool;

    /// `TAKEN_VALUE` is reserved.
    proof fn lemma_taken_reserved()
        ensures
            Self::reserved(Self::TAKEN_VALUE),
    ;

    /// No handle encodes to a reserved word.
    proof fn lemma_encoding_not_reserved(&self, word: usize)
        requires
            self.encodes(word),
        ensures
            !Self::reserved(word),
    ;

    /// Tells whether `word` is reserved.
    fn is_reserved(word: usize) -> (reserved: bool)
        ensures
            reserved == Self::reserved(word),
    ;

    /// Gives the handle up for the word that encodes it.
    fn into_value(self) -> (word: usize)
        ensures
            self.encodes(word),
            !Self::reserved(word),
    ;

    /// Takes the handle back out of a word.
    fn from_value(value: usize) -> (handle: Self)
        requires
            !Self::reserved(value),
        ensures
            handle.encodes(value),
    ;
}

/// A handle type that reserves the word `EMPTY_OPTION` beside `TAKEN_VALUE`, so that
/// an optional handle can use it for "absent".
pub trait AtomicCellNonZero: AtomicCellStorable {
    /// The empty word is reserved.
    proof fn lemma_empty_reserved()
        ensures
            Self::reserved(EMPTY_OPTION),
    ;

    /// The two reserved words differ.
    proof fn lemma_taken_not_empty()
        ensures
            Self::TAKEN_VALUE != EMPTY_OPTION,
    ;
}

/// A handle type with a default whose encoding is known without building the handle.
pub trait AtomicCellConstInit: AtomicCellStorable {
    /// The encoding of the default handle.
    const DEFAULT_VALUE: usize;

    /// The default word is not reserved.
    proof fn lemma_default_not_reserved()
        ensures
            !Self::reserved(Self::DEFAULT_VALUE),
    ;
}

/// What decoding gives for `word`: nothing for a reserved word, else a handle that
/// `word` encodes.
pub open spec fn decodes_to<T: AtomicCellStorable>(word: usize, handle: Option<T>) -> bool {
    &&& handle is None <==> T::reserved(word)
    &&& handle matches Some(owned) ==> owned.encodes(word)
}

/// Decodes a word that was read from a cell nobody else can reach: the handle that the
/// cell owned, or nothing if the word is reserved and so encodes no handle.
pub(crate) fn decode<T: AtomicCellStorable>(word: usize) -> (handle: Option<T>)
    ensures
        decodes_to(word, handle),
{
    if T::is_reserved(word) {
        None
    } else {
        Some(T::from_value(word))
    }
}

/// The word of an optional handle: `EMPTY_OPTION` for an absent handle, else a word of
/// the handle inside.
pub open spec fn option_encodes<H: AtomicCellStorable>(handle: Option<H>, word: usize) -> bool {
    match handle {
        None => word == EMPTY_OPTION,
        Some(inner) => word != EMPTY_OPTION && inner.encodes(word),
    }
}

impl<H: AtomicCellNonZero> AtomicCellStorable for Option<H> {
    const TAKEN_VALUE: usize = H::TAKEN_VALUE;

    /// The words that the handle inside reserves, but for the empty word.
    open spec fn reserved(word: usize) -> bool {
        word != EMPTY_OPTION && H::reserved(word)
    }

    open spec fn encodes(&self, word: usize) -> bool {
        option_encodes(*self, word)
    }

    proof fn lemma_taken_reserved() {
        H::lemma_taken_not_empty();
        H::lemma_taken_reserved();
    }

    proof fn lemma_encoding_not_reserved(&self, word: usize) {
        match self {
            None => {},
            Some(inner) => {
                inner.lemma_encoding_not_reserved(word);
            },
        }
    }

    fn is_reserved(word: usize) -> (reserved: bool) {
        word != EMPTY_OPTION && H::is_reserved(word)
    }

    fn into_value(self) -> (word: usize)
        ensures
            self is None <==> word == EMPTY_OPTION,
    {
        match self {
            None => EMPTY_OPTION,
            Some(inner) => {
                let word = inner.into_value();
                proof {
                    H::lemma_empty_reserved();
                }
                word
            },
        }
    }

    fn from_value(value: usize) -> (handle: Self)
        ensures
            handle is None <==> value == EMPTY_OPTION,
    {
        if value == EMPTY_OPTION {
            None
        } else {
            Some(H::from_value(value))
        }
    }
}

impl<H: AtomicCellNonZero> AtomicCellConstInit for Option<H> {
    const DEFAULT_VALUE: usize = EMPTY_OPTION;

    proof fn lemma_default_not_reserved() {
    }
}

/// The default word of an optional handle encodes the absent handle, and nothing else
/// does.
pub proof fn lemma_default_is_absent<H: AtomicCellNonZero>(handle: Option<H>)
    ensures
        handle.encodes(<Option<H> as AtomicCellConstInit>::DEFAULT_VALUE) <==> handle is None,
{
}

} // verus!
