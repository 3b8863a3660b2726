//! Construction of per-safepoint stack maps for a garbage-collected host.
//!
//! A *safepoint* is a program point where it must be safe to pause execution
//! and run a garbage collection. A *stack map* records, for one safepoint,
//! where every live GC-managed value sits in the native stack frame, by type,
//! so a collector can find roots without scanning memory conservatively.
//!
//! The producer of the intermediate representation records raw
//! [`UserStackMapEntry`] values (type, stack slot, offset within the slot)
//! while the function body is built. Once frame layout has assigned every
//! stack slot its absolute byte offset (a [`StackSlotOffsetTable`]), the
//! entries of one safepoint are coalesced exactly once into an immutable
//! [`UserStackMap`]: an ordered list of (type, set-of-absolute-offsets)
//! pairs, grouped by type in first-seen order.

pub mod entry;
pub mod offsets;
pub mod bitset;
pub mod stack_map;
pub mod laws;
pub mod frame_walk;

pub use entry::StackSlotRef;
pub use entry::UserStackMapEntry;
pub use entry::UserStackMapEntryVec;
pub use entry::ValueType;
pub use offsets::StackSlotOffsetTable;
pub use stack_map::StackMapError;
pub use stack_map::UserStackMap;
