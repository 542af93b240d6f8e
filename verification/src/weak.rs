//! Cells of handles that observe a resource without keeping it alive.

use crate::cell::AtomicCell;
use crate::cell::SPIN_LIMIT;
use crate::storable::AtomicCellNonZero;
use crate::storable::AtomicCellStorable;
use vstd::prelude::*;

verus! {

/// A handle that observes a resource and can be promoted to one that owns it, for as
/// long as the resource lives.
///
/// Whether a promotion succeeds depends on the owners that exist when it is tried, so
/// nothing is promised of its result.
pub trait AtomicCellWeak: AtomicCellStorable + Clone {
    /// The owning handle.
    type Strong;

    /// A handle that observes nothing.
    fn dangling() -> Self;

    /// Promotes the handle, if its resource is still alive.
    fn upgrade(&self) -> Option<Self::Strong>;

    /// A handle that observes the resource of `strong`.
    fn downgrade(strong: &Self::Strong) -> Self;
}

impl<W: AtomicCellWeak + AtomicCellNonZero> AtomicCellWeak for Option<W> {
    type Strong = W::Strong;

    /// The absent handle.
    fn dangling() -> (handle: Self)
        ensures
            handle is None,
    {
        None
    }

    /// Promotes the handle inside; the absent handle promotes to nothing.
    fn upgrade(&self) -> (strong: Option<Self::Strong>)
        ensures
            match *self {
                None => strong is None,
                Some(weak) => call_ensures(W::upgrade, (&weak,), strong),
            },
    {
        match self {
            None => None,
            Some(weak) => weak.upgrade(),
        }
    }

    /// A present handle that observes the resource of `strong`.
    fn downgrade(strong: &Self::Strong) -> (handle: Self)
        ensures
            handle matches Some(weak) && call_ensures(W::downgrade, (strong,), weak),
    {
        Some(W::downgrade(strong))
    }
}

impl<W: AtomicCellWeak> AtomicCell<W> {
    /// Creates a cell whose handle observes nothing: its word starts as the encoding
    /// of what `dangling` gave.
    pub fn empty() -> (cell: Self)
        ensures
            cell.created_dangling(),
            cell.spin_limit() == SPIN_LIMIT,
    {
        let weak = W::dangling();
        let cell = AtomicCell::new(weak);
        assert(call_ensures(W::dangling, (), weak) && cell.created_with(weak));
        cell
    }

    /// Promotes a clone of the handle in the cell: `Some` of what promoting the handle
    /// that `get` made gave, which is nothing if the resource is gone or the handle
    /// observes none.
    ///
    /// Returns `None` if `get` took no handle out: the word could not be claimed in
    /// `spin_limit` attempts, or it encodes no handle.
    pub fn upgrade(&self) -> (strong: Option<Option<W::Strong>>)
        ensures
            match strong {
                Some(promotion) => self.promoted(promotion) && self.spin_limit() > 0,
                None => self.took_nothing(),
            },
    {
        match self.get() {
            Some(weak) => {
                let promotion = weak.upgrade();
                assert(self.read(weak) && call_ensures(W::upgrade, (&weak,), promotion));
                Some(promotion)
            },
            None => None,
        }
    }

    /// Stores a handle that observes the resource of `strong`, and releases the handle
    /// that was in the cell: on `true` a handle was taken out of the cell and what
    /// `downgrade` made of `strong` was put in.
    ///
    /// Returns `false`, with the cell as it was, if no handle could be taken out: the
    /// word could not be claimed in `spin_limit` attempts, or it encodes no handle.
    pub fn store(&self, strong: &W::Strong) -> (stored: bool)
        ensures
            if stored {
                self.observes(strong) && self.spin_limit() > 0
            } else {
                self.took_nothing()
            },
    {
        let weak = W::downgrade(strong);
        match self.set(weak) {
            Ok(old) => {
                assert(call_ensures(W::downgrade, (strong,), weak) && self.took(old) && self.put(
                    weak,
                ));
                true
            },
            Err(_) => false,
        }
    }

    /// Whether the cell was created with a handle that `dangling` made.
    pub open spec fn created_dangling(&self) -> bool {
        exists|weak: W| #[trigger] call_ensures(W::dangling, (), weak) && self.created_with(weak)
    }

    /// Whether `strong` is what promoting a handle that `get` made gave.
    pub open spec fn promoted(&self, strong: Option<W::Strong>) -> bool {
        exists|weak: W| self.read(weak) && #[trigger] call_ensures(W::upgrade, (&weak,), strong)
    }

    /// Whether a handle was taken out of the cell and a handle that `downgrade` made of
    /// `strong` was put in.
    pub open spec fn observes(&self, strong: &W::Strong) -> bool {
        exists|weak: W, old: W|
            #[trigger] call_ensures(W::downgrade, (strong,), weak) && #[trigger] self.took(old)
                && self.put(weak)
    }
}

} // verus!
