//! The finalized mapping from stack slots to absolute frame offsets.

use vstd::prelude::*;
use crate::entry::StackSlotRef;

verus! {

/// The mapping from each stack slot to its final absolute byte offset within
/// the frame, produced once by the frame-layout pass after all slot
/// allocation is frozen, and read-only thereafter.
///
/// Slots are keyed densely: the slot returned by the `n`-th [`Self::push`]
/// is `StackSlotRef(n)`. A lookup of any other slot fails, which a stack
/// map build reports as a defect.
pub struct StackSlotOffsetTable {
    offsets: Vec<u32>,
}

impl View for StackSlotOffsetTable {
    type V = Seq<u32>;

    closed spec fn view(&self) -> Seq<u32> {
        self.offsets@
    }
}

/// Whether `slot` has an offset recorded in a table whose view is `table`.
pub open spec fn slot_in_table(table: Seq<u32>, slot: StackSlotRef) -> bool {
    (slot.0 as int) < table.len()
}

impl StackSlotOffsetTable {
    /// Create an empty table, with no slots located yet.
    pub fn new() -> (t: Self)
        ensures
            t@ == Seq::<u32>::empty(),
    {
        StackSlotOffsetTable { offsets: Vec::new() }
    }

    /// Record the absolute byte offset of the next stack slot, assigning and
    /// returning its reference.
    pub fn push(&mut self, offset: u32) -> (slot: StackSlotRef)
        requires
            old(self)@.len() < u32::MAX,
        ensures
            final(self)@ == old(self)@.push(offset),
            slot.0 as int == old(self)@.len(),
    {
        let slot = StackSlotRef(self.offsets.len() as u32);
        self.offsets.push(offset);
        slot
    }

    /// The absolute byte offset of `slot`, or `None` if the slot was never
    /// located by frame layout.
    pub fn get(&self, slot: StackSlotRef) -> (r: Option<u32>)
        ensures
            match r {
                Some(offset) => slot_in_table(self@, slot) && offset == self@[slot.0 as int],
                None => !slot_in_table(self@, slot),
            },
    {
        if (slot.0 as usize) < self.offsets.len() {
            Some(self.offsets[slot.0 as usize])
        } else {
            None
        }
    }

    /// How many slots have been located.
    pub fn len(&self) -> (n: usize)
        ensures
            n == self@.len(),
    {
        self.offsets.len()
    }
}

} // verus!
