use stack_maps::StackMapError;
use stack_maps::StackSlotOffsetTable;
use stack_maps::StackSlotRef;
use stack_maps::UserStackMap;
use stack_maps::UserStackMapEntry;
use stack_maps::UserStackMapEntryVec;
use stack_maps::ValueType;

const REF: ValueType = ValueType(1);
const I31: ValueType = ValueType(2);

fn entry(ty: ValueType, slot: StackSlotRef, offset: u32) -> UserStackMapEntry {
    UserStackMapEntry { ty, slot, offset }
}

#[test]
fn scenario_one_type_three_offsets() {
    let mut table = StackSlotOffsetTable::new();
    let s0 = table.push(16);
    let s1 = table.push(40);
    let entries = [entry(REF, s0, 0), entry(REF, s0, 8), entry(REF, s1, 0)];
    let map = UserStackMap::new(&entries, &table).unwrap();
    assert_eq!(map.len(), 1);
    assert_eq!(map.type_at(0), REF);
    assert_eq!(map.offsets_at(0), vec![16, 24, 40]);
    assert_eq!(map.root_count(), 3);
    assert!(map.contains(REF, 16));
    assert!(map.contains(REF, 24));
    assert!(map.contains(REF, 40));
    assert!(!map.contains(REF, 8));
}

#[test]
fn scenario_two_types_same_offset() {
    let mut table = StackSlotOffsetTable::new();
    let s0 = table.push(0);
    let entries = [entry(REF, s0, 0), entry(I31, s0, 0)];
    let map = UserStackMap::new(&entries, &table).unwrap();
    assert_eq!(map.len(), 2);
    assert_eq!(map.type_at(0), REF);
    assert_eq!(map.type_at(1), I31);
    assert_eq!(map.offsets_at(0), vec![0]);
    assert_eq!(map.offsets_at(1), vec![0]);
    assert!(map.contains(REF, 0));
    assert!(map.contains(I31, 0));
    assert_eq!(map.root_count(), 2);
}

#[test]
fn empty_entries_yield_empty_map() {
    let mut table = StackSlotOffsetTable::new();
    table.push(8);
    let map = UserStackMap::new(&[], &table).unwrap();
    assert_eq!(map.len(), 0);
    assert_eq!(map.root_count(), 0);
    assert!(!map.contains(REF, 8));
}

#[test]
fn duplicate_entries_collapse() {
    let mut table = StackSlotOffsetTable::new();
    let s0 = table.push(8);
    let entries = [entry(REF, s0, 4), entry(REF, s0, 4), entry(REF, s0, 4)];
    let map = UserStackMap::new(&entries, &table).unwrap();
    assert_eq!(map.len(), 1);
    assert_eq!(map.offsets_at(0), vec![12]);
    assert_eq!(map.root_count(), 1);
}

#[test]
fn equal_offsets_from_different_slots_collapse() {
    let mut table = StackSlotOffsetTable::new();
    let s0 = table.push(0);
    let s1 = table.push(8);
    let entries = [entry(REF, s0, 8), entry(REF, s1, 0)];
    let map = UserStackMap::new(&entries, &table).unwrap();
    assert_eq!(map.len(), 1);
    assert_eq!(map.offsets_at(0), vec![8]);
    assert_eq!(map.root_count(), 1);
}

#[test]
fn permuting_entries_within_a_type_changes_nothing() {
    let mut table = StackSlotOffsetTable::new();
    let s0 = table.push(16);
    let s1 = table.push(32);
    let first = [entry(REF, s0, 0), entry(REF, s1, 0), entry(I31, s0, 4)];
    let second = [entry(REF, s1, 0), entry(REF, s0, 0), entry(I31, s0, 4)];
    let a = UserStackMap::new(&first, &table).unwrap();
    let b = UserStackMap::new(&second, &table).unwrap();
    assert_eq!(a.len(), b.len());
    for i in 0..a.len() {
        assert_eq!(a.type_at(i), b.type_at(i));
        assert_eq!(a.offsets_at(i), b.offsets_at(i));
    }
}

#[test]
fn pair_order_follows_first_seen_type() {
    let mut table = StackSlotOffsetTable::new();
    let s0 = table.push(0);
    let entries = [entry(I31, s0, 0), entry(REF, s0, 4), entry(I31, s0, 8)];
    let map = UserStackMap::new(&entries, &table).unwrap();
    assert_eq!(map.len(), 2);
    assert_eq!(map.type_at(0), I31);
    assert_eq!(map.type_at(1), REF);
    assert_eq!(map.offsets_at(0), vec![0, 8]);
    assert_eq!(map.offsets_at(1), vec![4]);
}

#[test]
fn offset_overflow_fails_the_build() {
    let mut table = StackSlotOffsetTable::new();
    let s0 = table.push(u32::MAX);
    let entries = [entry(REF, s0, 1)];
    let err = UserStackMap::new(&entries, &table).unwrap_err();
    assert_eq!(err, StackMapError::OffsetOverflow { slot: s0, base: u32::MAX, offset: 1 });
}

#[test]
fn offset_at_the_width_limit_still_builds() {
    let mut table = StackSlotOffsetTable::new();
    let s0 = table.push(u32::MAX - 8);
    let entries = [entry(REF, s0, 8)];
    let map = UserStackMap::new(&entries, &table).unwrap();
    assert_eq!(map.offsets_at(0), vec![u32::MAX as usize]);
    assert!(map.contains(REF, u32::MAX));
}

#[test]
fn missing_slot_fails_the_build() {
    let mut table = StackSlotOffsetTable::new();
    table.push(8);
    let ghost_slot = StackSlotRef(5);
    let entries = [entry(REF, ghost_slot, 0)];
    let err = UserStackMap::new(&entries, &table).unwrap_err();
    assert_eq!(err, StackMapError::MissingSlot { slot: ghost_slot });
}

#[test]
fn first_defective_entry_decides_the_error() {
    let mut table = StackSlotOffsetTable::new();
    let s0 = table.push(u32::MAX);
    let missing = StackSlotRef(7);
    let entries = [entry(REF, missing, 0), entry(REF, s0, 1)];
    let err = UserStackMap::new(&entries, &table).unwrap_err();
    assert_eq!(err, StackMapError::MissingSlot { slot: missing });
}

#[test]
fn accumulator_records_in_insertion_order() {
    let mut table = StackSlotOffsetTable::new();
    let s0 = table.push(16);
    let mut acc = UserStackMapEntryVec::new();
    assert_eq!(acc.len(), 0);
    acc.push(entry(REF, s0, 0));
    acc.push(entry(I31, s0, 4));
    acc.push(entry(REF, s0, 8));
    assert_eq!(acc.len(), 3);
    let slice = acc.as_slice();
    assert_eq!(slice[0], entry(REF, s0, 0));
    assert_eq!(slice[1], entry(I31, s0, 4));
    assert_eq!(slice[2], entry(REF, s0, 8));
    let map = UserStackMap::new(acc.as_slice(), &table).unwrap();
    assert_eq!(map.len(), 2);
    assert_eq!(map.offsets_at(0), vec![16, 24]);
    assert_eq!(map.offsets_at(1), vec![20]);
}

#[test]
fn offset_table_assigns_dense_slots() {
    let mut table = StackSlotOffsetTable::new();
    assert_eq!(table.len(), 0);
    let s0 = table.push(0);
    let s1 = table.push(16);
    assert_eq!(s0, StackSlotRef(0));
    assert_eq!(s1, StackSlotRef(1));
    assert_eq!(table.len(), 2);
    assert_eq!(table.get(s0), Some(0));
    assert_eq!(table.get(s1), Some(16));
    assert_eq!(table.get(StackSlotRef(2)), None);
}

#[test]
fn membership_is_per_type() {
    let mut table = StackSlotOffsetTable::new();
    let s0 = table.push(24);
    let entries = [entry(REF, s0, 0)];
    let map = UserStackMap::new(&entries, &table).unwrap();
    assert!(map.contains(REF, 24));
    assert!(!map.contains(I31, 24));
    assert!(!map.contains(REF, 0));
}
