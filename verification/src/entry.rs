//! Raw stack map entries and the per-safepoint entry accumulator.

use vstd::prelude::*;

verus! {

/// An opaque tag identifying the kind of GC-managed value stored at some
/// location (for example a reference, or a tagged integer). The meaning of
/// the tag is owned by the surrounding type system; stack maps only compare
/// tags for equality and group by them.
#[derive(Clone, Copy, Debug, PartialEq, Eq, Hash, Structural)]
pub struct ValueType(pub u16);

/// An opaque identifier naming a stack slot: a storage region in a
/// function's frame whose absolute byte offset is not known until frame
/// layout runs. Slots are numbered densely from zero, in the order the
/// frame-layout pass records their offsets.
#[derive(Clone, Copy, Debug, PartialEq, Eq, Hash, Structural)]
pub struct StackSlotRef(pub u32);

/// A stack map entry describes a single GC-managed value and its location on
/// the stack: the value's type, the stack slot it lives in, and the byte
/// offset within that slot.
///
/// An entry is associated with a particular safepoint instruction, and the
/// value must be stored in the described location across that instruction.
#[derive(Clone, Copy, Debug, PartialEq, Eq, Hash, Structural)]
pub struct UserStackMapEntry {
    /// The type of the value stored in this stack map entry.
    pub ty: ValueType,

    /// The stack slot that this stack map entry is within.
    pub slot: StackSlotRef,

    /// The offset within the stack slot where this entry's value can be found.
    pub offset: u32,
}

/// A per-safepoint, append-only accumulator of raw stack map entries.
///
/// The producer of the intermediate representation appends one entry per
/// live GC-managed value while the function body is built; nothing is
/// validated or deduplicated on append. Entry counts are typically at most
/// four, so the storage is a `smallvec::SmallVec` optimized for a few
/// inline elements; the vector is hidden behind [`entry_vec_contents`]. One
/// accumulator must be scoped to exactly one safepoint instruction.
#[verifier::external_body]
pub struct UserStackMapEntryVec {
    entries: smallvec::SmallVec<[UserStackMapEntry; 4]>,
}

/// What an entry accumulator holds, in insertion order.
pub uninterp spec fn entry_vec_contents(v: UserStackMapEntryVec) -> Seq<UserStackMapEntry>;

/// Relies on smallvec::SmallVec::new: a freshly constructed vector is empty.
#[verifier::external_body]
fn entry_vec_new() -> (v: UserStackMapEntryVec)
    ensures
        entry_vec_contents(v) == Seq::<UserStackMapEntry>::empty(),
{
    UserStackMapEntryVec { entries: smallvec::SmallVec::new() }
}

/// Relies on smallvec::SmallVec::push: appends one element at the end.
#[verifier::external_body]
fn entry_vec_push(v: &mut UserStackMapEntryVec, e: UserStackMapEntry)
    requires
        entry_vec_contents(*old(v)).len() < usize::MAX,
    ensures
        entry_vec_contents(*final(v)) == entry_vec_contents(*old(v)).push(e),
{
    v.entries.push(e)
}

/// Relies on smallvec::SmallVec::as_slice: a slice of the entire vector.
#[verifier::external_body]
fn entry_vec_as_slice(v: &UserStackMapEntryVec) -> (r: &[UserStackMapEntry])
    ensures
        r@ == entry_vec_contents(*v),
{
    v.entries.as_slice()
}

impl View for UserStackMapEntryVec {
    type V = Seq<UserStackMapEntry>;

    open spec fn view(&self) -> Seq<UserStackMapEntry> {
        entry_vec_contents(*self)
    }
}

impl Default for UserStackMapEntryVec {
    /// An empty accumulator.
    fn default() -> (v: Self)
        ensures
            v@ == Seq::<UserStackMapEntry>::empty(),
    {
        entry_vec_new()
    }
}

impl UserStackMapEntryVec {
    /// Create an empty accumulator.
    pub fn new() -> (v: Self)
        ensures
            v@ == Seq::<UserStackMapEntry>::empty(),
    {
        entry_vec_new()
    }

    /// Record one entry at the end, in insertion order.
    pub fn push(&mut self, e: UserStackMapEntry)
        requires
            old(self)@.len() < usize::MAX,
        ensures
            final(self)@ == old(self)@.push(e),
    {
        entry_vec_push(self, e)
    }

    /// All recorded entries, in insertion order.
    pub fn as_slice(&self) -> (r: &[UserStackMapEntry])
        ensures
            r@ == self@,
    {
        entry_vec_as_slice(self)
    }

    /// How many entries have been recorded.
    pub fn len(&self) -> (n: usize)
        ensures
            n == self@.len(),
    {
        self.as_slice().len()
    }
}

} // verus!
