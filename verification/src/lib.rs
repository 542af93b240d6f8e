//! A lock-free cell for one ownership-bearing handle.
//!
//! An [`AtomicCell`] keeps a handle (a counted reference, or anything else that owns a
//! resource) encoded in a single atomic machine word. Any number of threads may read a
//! clone of the handle or replace it; ownership is moved in and out of the word by a
//! take/put protocol that parks a reserved *taken* word in the cell while one thread
//! holds the handle.
//!
//! * [`storable`] states what a handle type owes the cell: the encoding into a word and
//!   the words it reserves.
//! * [`protocol`] holds the decision that the take/put protocol turns on.
//! * [`model`] is a model of one cell shared by any number of threads, with what is
//!   proved of every interleaving of their steps.
//! * [`cell`] is the cell itself.
//! * [`weak`] adds the operations for handles that observe a resource without owning it.

pub mod cell;
pub mod model;
pub mod protocol;
pub mod storable;
pub mod weak;

pub use cell::AtomicCell;
pub use cell::SPIN_LIMIT;
pub use protocol::claim_step;
pub use protocol::Claim;
pub use storable::AtomicCellConstInit;
pub use storable::AtomicCellNonZero;
pub use storable::AtomicCellStorable;
pub use storable::EMPTY_OPTION;
pub use weak::AtomicCellWeak;
