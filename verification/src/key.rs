//! The underlying generational handle shared by vertex and edge ids.

use vstd::prelude::*;

verus! {

/// A generational handle: a slot index paired with the generation the
/// slot carried when the handle was handed out. A handle stays valid
/// until its slot is removed; after that the slot's generation is bumped,
/// so a stale handle can never alias the slot's next occupant.
///
/// The all-zero handle is reserved: stores never hand it out (live slots
/// always carry a generation of at least 1), so it can serve as a
/// "not a real element" default value.
#[derive(Debug, Clone, Copy, PartialEq, Eq, Hash, Structural)]
pub struct SlotKey {
    /// Index of the slot inside the store's slot array.
    pub index: usize,
    /// Generation the slot carried when this handle was created.
    pub generation: u64,
}

impl SlotKey {
    /// Build a handle from its two components.
    pub fn new(index: usize, generation: u64) -> (r: Self)
        ensures
            r == (SlotKey { index, generation }),
    {
        SlotKey { index, generation }
    }

    /// True of the reserved all-zero handle, which never names a live slot.
    pub fn is_null(&self) -> (r: bool)
        ensures
            r == (*self == (SlotKey { index: 0, generation: 0 })),
    {
        self.index == 0 && self.generation == 0
    }
}

impl Default for SlotKey {
    /// The reserved all-zero handle.
    fn default() -> (r: Self)
        ensures
            r == (SlotKey { index: 0, generation: 0 }),
    {
        SlotKey { index: 0, generation: 0 }
    }
}

} // verus!
