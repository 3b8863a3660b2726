use stack_maps::frame_walk::FRAME_POINTER_ALIGNMENT;
use stack_maps::frame_walk::NEXT_OLDER_FP_FROM_FP_OFFSET;
use stack_maps::frame_walk::assert_entry_sp_is_aligned;
use stack_maps::frame_walk::assert_fp_is_aligned;
use stack_maps::frame_walk::reached_entry_sp;

#[test]
fn walk_stops_at_the_entry_stack_pointer() {
    assert!(reached_entry_sp(16, 16));
    assert!(reached_entry_sp(64, 16));
    assert!(!reached_entry_sp(8, 16));
}

#[test]
fn aligned_pointers_pass_the_alignment_checks() {
    assert_entry_sp_is_aligned(0);
    assert_entry_sp_is_aligned(32);
    assert_fp_is_aligned(16 * 1024);
    assert_eq!(FRAME_POINTER_ALIGNMENT, 16);
}

#[test]
fn next_older_frame_pointer_sits_at_the_frame_pointer() {
    assert_eq!(NEXT_OLDER_FP_FROM_FP_OFFSET, 0);
}
