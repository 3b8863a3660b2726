//! Frame-pointer predicates for a stack walker.
//!
//! A collector that consumes finished stack maps walks the native stack at a
//! paused safepoint, frame by frame, from the newest frame pointer towards
//! the entry frame. These small predicates are the portable part of that
//! walk: where the walk stops, and the alignment every visited frame must
//! satisfy. Reading live machine registers is left to the embedder.

use vstd::prelude::*;

verus! {

/// Stack and frame pointers are required to stay aligned to this many bytes
/// while a frame walk is in progress.
pub const FRAME_POINTER_ALIGNMENT: usize = 16;

/// Offset, in bytes, from a frame pointer to the saved frame pointer of the
/// next older frame.
pub const NEXT_OLDER_FP_FROM_FP_OFFSET: usize = 0;

/// Whether a frame walk that has reached frame pointer `fp` has walked past
/// the stack pointer `entry_sp` at which the walked activation was entered,
/// and so must stop. Stacks grow downward: every frame inside the
/// activation lies strictly below its entry stack pointer.
pub fn reached_entry_sp(fp: usize, entry_sp: usize) -> (r: bool)
    ensures
        r == (fp >= entry_sp),
{
    fp >= entry_sp
}

/// Check that an entry stack pointer is aligned as a frame walk requires.
/// The check is discharged statically: callers must prove the alignment.
pub fn assert_entry_sp_is_aligned(sp: usize)
    requires
        sp % FRAME_POINTER_ALIGNMENT == 0,
{
    assert(sp % FRAME_POINTER_ALIGNMENT == 0);
}

/// Check that a frame pointer is aligned as a frame walk requires.
/// The check is discharged statically: callers must prove the alignment.
pub fn assert_fp_is_aligned(fp: usize)
    requires
        fp % FRAME_POINTER_ALIGNMENT == 0,
{
    assert(fp % FRAME_POINTER_ALIGNMENT == 0);
}

} // verus!
