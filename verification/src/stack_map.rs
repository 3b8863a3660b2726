//! Coalescing raw entries into a compact per-safepoint stack map.

use vstd::prelude::*;
use crate::bitset::bitset_contains;
use crate::bitset::bitset_elems;
use crate::bitset::bitset_insert;
use crate::bitset::bitset_len;
use crate::bitset::bitset_to_sorted_vec;
use crate::bitset::bitset_with_capacity;
use crate::entry::StackSlotRef;
use crate::entry::UserStackMapEntry;
use crate::entry::ValueType;
use crate::offsets::StackSlotOffsetTable;
use crate::offsets::slot_in_table;

verus! {

/// One (type, set-of-absolute-offsets) pair of a compact stack map, as a
/// mathematical value: a type tag together with the set of absolute frame
/// offsets at which live values of that type sit.
pub type SpecPair = (ValueType, Set<usize>);

/// The absolute frame offset an entry resolves to: the base offset of its
/// slot plus its offset within the slot.
pub open spec fn resolved_offset(table: Seq<u32>, e: UserStackMapEntry) -> int {
    table[e.slot.0 as int] + e.offset
}

/// Whether an entry can be resolved at all: its slot has a recorded base
/// offset, and the resolved absolute offset fits the platform's
/// frame-offset width — both the 32-bit offset arithmetic and the machine
/// word that indexes an offset set.
pub open spec fn entry_resolvable(table: Seq<u32>, e: UserStackMapEntry) -> bool {
    &&& slot_in_table(table, e.slot)
    &&& resolved_offset(table, e) <= u32::MAX
    &&& resolved_offset(table, e) < usize::MAX
}

/// Whether every entry of a sequence resolves.
pub open spec fn all_resolvable(table: Seq<u32>, entries: Seq<UserStackMapEntry>) -> bool {
    forall|i: int| 0 <= i < entries.len() ==> entry_resolvable(table, entries[i])
}

/// Why a stack map build failed. Both causes are defects of the surrounding
/// pipeline, not user-facing input errors: compilation of the whole function
/// must be aborted, and no partial map is ever produced.
#[derive(Clone, Copy, Debug, PartialEq, Eq, Hash, Structural)]
pub enum StackMapError {
    /// An entry referenced `slot`, but the offset table never located it:
    /// the entry was recorded before or outside layout finalization.
    MissingSlot { slot: StackSlotRef },
    /// Resolving an entry within `slot` overflowed the frame-offset width:
    /// `base + offset` exceeds `u32::MAX`, so the frame is oversized or the
    /// entry corrupt.
    OffsetOverflow { slot: StackSlotRef, base: u32, offset: u32 },
}

/// The failure the builder reports for `entries` against `table`: the defect
/// of the first entry, in insertion order, that does not resolve, or `None`
/// if every entry resolves. A missing slot is detected before the overflow
/// check, since without a base offset there is nothing to add.
pub open spec fn first_failure(table: Seq<u32>, entries: Seq<UserStackMapEntry>) -> Option<
    StackMapError,
>
    decreases entries.len(),
{
    if entries.len() == 0 {
        None
    } else if !slot_in_table(table, entries[0].slot) {
        Some(StackMapError::MissingSlot { slot: entries[0].slot })
    } else if resolved_offset(table, entries[0]) > u32::MAX || resolved_offset(table, entries[0])
        >= usize::MAX {
        Some(
            StackMapError::OffsetOverflow {
                slot: entries[0].slot,
                base: table[entries[0].slot.0 as int],
                offset: entries[0].offset,
            },
        )
    } else {
        first_failure(table, entries.drop_first())
    }
}

/// Whether some pair of `m` carries the type `ty`.
pub open spec fn has_type(m: Seq<SpecPair>, ty: ValueType) -> bool {
    exists|i: int| 0 <= i < m.len() && m[i].0 == ty
}

/// The index of the first pair of `m` carrying `ty`, or `m.len()` if none
/// does.
pub open spec fn type_index(m: Seq<SpecPair>, ty: ValueType) -> int
    decreases m.len(),
{
    if m.len() == 0 {
        0
    } else if m[0].0 == ty {
        0
    } else {
        1 + type_index(m.drop_first(), ty)
    }
}

/// Whether `m` contains `off` under `ty`: some pair carries the type and
/// holds the offset.
pub open spec fn map_contains(m: Seq<SpecPair>, ty: ValueType, off: usize) -> bool {
    exists|i: int| 0 <= i < m.len() && m[i].0 == ty && m[i].1.contains(off)
}

/// Well-formedness of a compact stack map: at most one pair per distinct
/// type, and every offset set finite.
pub open spec fn map_wf(m: Seq<SpecPair>) -> bool {
    &&& forall|i: int, j: int| 0 <= i < j < m.len() ==> (#[trigger] m[i]).0 != (#[trigger] m[j]).0
    &&& forall|i: int| 0 <= i < m.len() ==> (#[trigger] m[i]).1.finite()
}

/// One coalescing step: insert `off` into the pair carrying `ty`, appending
/// a new pair at the end if no pair carries it yet.
pub open spec fn coalesce_step(m: Seq<SpecPair>, ty: ValueType, off: usize) -> Seq<SpecPair> {
    if has_type(m, ty) {
        m.update(type_index(m, ty), (ty, m[type_index(m, ty)].1.insert(off)))
    } else {
        m.push((ty, Set::<usize>::empty().insert(off)))
    }
}

/// The compact stack map that coalescing `entries` against `table` yields:
/// entries are processed in insertion order, each resolved to its absolute
/// offset and inserted into the pair of its type.
pub open spec fn coalesce(table: Seq<u32>, entries: Seq<UserStackMapEntry>) -> Seq<SpecPair>
    decreases entries.len(),
{
    if entries.len() == 0 {
        Seq::<SpecPair>::empty()
    } else {
        coalesce_step(
            coalesce(table, entries.drop_last()),
            entries.last().ty,
            resolved_offset(table, entries.last()) as usize,
        )
    }
}

/// The total number of described roots: the sizes of all offset sets, added
/// up.
pub open spec fn total_roots(m: Seq<SpecPair>) -> int
    decreases m.len(),
{
    if m.len() == 0 {
        0
    } else {
        total_roots(m.drop_last()) + m.last().1.len()
    }
}

/// `type_index` is the first index carrying `ty`, within bounds, and equals
/// `m.len()` exactly when no pair carries `ty`.
pub proof fn lemma_type_index_props(m: Seq<SpecPair>, ty: ValueType)
    ensures
        0 <= type_index(m, ty) <= m.len(),
        has_type(m, ty) ==> type_index(m, ty) < m.len() && m[type_index(m, ty)].0 == ty,
        forall|k: int| 0 <= k < type_index(m, ty) ==> m[k].0 != ty,
        !has_type(m, ty) ==> type_index(m, ty) == m.len(),
    decreases m.len(),
{
    if m.len() == 0 {
    } else if m[0].0 == ty {
        assert(has_type(m, ty));
    } else {
        let rest = m.drop_first();
        lemma_type_index_props(rest, ty);
        assert forall|k: int| 0 <= k < type_index(m, ty) implies m[k].0 != ty by {
            if k > 0 {
                assert(m[k] == rest[k - 1]);
            }
        }
        if has_type(m, ty) {
            let w = choose|i: int| 0 <= i < m.len() && m[i].0 == ty;
            assert(rest[w - 1] == m[w]);
            assert(has_type(rest, ty));
            assert(m[type_index(m, ty)] == rest[type_index(rest, ty)]);
        } else {
            if has_type(rest, ty) {
                let w = choose|i: int| 0 <= i < rest.len() && rest[i].0 == ty;
                assert(m[w + 1] == rest[w]);
                assert(has_type(m, ty));
            }
        }
    }
}

/// Coalescing always yields a well-formed map: one pair per type, finite
/// sets.
pub proof fn lemma_coalesce_wf(table: Seq<u32>, entries: Seq<UserStackMapEntry>)
    ensures
        map_wf(coalesce(table, entries)),
    decreases entries.len(),
{
    if entries.len() == 0 {
    } else {
        lemma_coalesce_wf(table, entries.drop_last());
        let m = coalesce(table, entries.drop_last());
        let ty = entries.last().ty;
        let off = resolved_offset(table, entries.last()) as usize;
        lemma_type_index_props(m, ty);
        let stepped = coalesce_step(m, ty, off);
        if has_type(m, ty) {
            let ti = type_index(m, ty);
            assert forall|i: int| 0 <= i < stepped.len() implies (#[trigger] stepped[i]).1.finite() by {
                if i == ti {
                    assert(m[ti].1.finite());
                }
            }
            assert forall|i: int, j: int| 0 <= i < j < stepped.len() implies (#[trigger] stepped[i]).0
                != (#[trigger] stepped[j]).0 by {
                assert(stepped[i].0 == m[i].0);
                assert(stepped[j].0 == m[j].0);
            }
        } else {
            assert forall|i: int, j: int| 0 <= i < j < stepped.len() implies (#[trigger] stepped[i]).0
                != (#[trigger] stepped[j]).0 by {
                if j == m.len() {
                    assert(stepped[i].0 == m[i].0);
                    assert(!(m[i].0 == ty));
                }
            }
        }
        assert(map_wf(stepped));
    }
}

/// A failure-free prefix does not affect which failure the rest reports.
pub proof fn lemma_first_failure_skip(table: Seq<u32>, entries: Seq<UserStackMapEntry>, i: int)
    requires
        0 <= i <= entries.len(),
        first_failure(table, entries.take(i)) is None,
    ensures
        first_failure(table, entries) == first_failure(table, entries.skip(i)),
    decreases i,
{
    if i > 0 {
        assert(entries.take(i)[0] == entries[0]);
        assert(entry_resolvable(table, entries[0]));
        assert(entries.take(i).drop_first() =~= entries.drop_first().take(i - 1));
        lemma_first_failure_skip(table, entries.drop_first(), i - 1);
        assert(entries.drop_first().skip(i - 1) =~= entries.skip(i));
    } else {
        assert(entries.skip(0) =~= entries);
    }
}

/// The builder fails exactly on the inputs where some entry does not
/// resolve.
pub proof fn lemma_first_failure_none_iff_resolvable(
    table: Seq<u32>,
    entries: Seq<UserStackMapEntry>,
)
    ensures
        first_failure(table, entries) is None <==> all_resolvable(table, entries),
    decreases entries.len(),
{
    if entries.len() == 0 {
    } else {
        let rest = entries.drop_first();
        lemma_first_failure_none_iff_resolvable(table, rest);
        if entry_resolvable(table, entries[0]) && all_resolvable(table, rest) {
            assert forall|i: int| 0 <= i < entries.len() implies entry_resolvable(
                table,
                entries[i],
            ) by {
                if i > 0 {
                    assert(entries[i] == rest[i - 1]);
                }
            }
        }
        if all_resolvable(table, entries) {
            assert(entry_resolvable(table, entries[0]));
            assert forall|i: int| 0 <= i < rest.len() implies entry_resolvable(table, rest[i]) by {
                assert(rest[i] == entries[i + 1]);
            }
        }
    }
}

/// The root total of a prefix of the pairs never exceeds the total of all
/// of them: set sizes are never negative.
proof fn lemma_total_roots_take_le(m: Seq<SpecPair>, i: int)
    requires
        0 <= i <= m.len(),
    ensures
        total_roots(m.take(i)) <= total_roots(m.take(m.len() as int)),
    decreases m.len() - i,
{
    if i < m.len() {
        assert(m.take(i + 1).drop_last() =~= m.take(i));
        assert(m.take(i + 1).last() == m[i]);
        lemma_total_roots_take_le(m, i + 1);
    }
}

/// Updating one pair changes the total root count exactly by the change of
/// that pair's set size.
proof fn lemma_total_roots_update(m: Seq<SpecPair>, k: int, p: SpecPair)
    requires
        0 <= k < m.len(),
    ensures
        total_roots(m.update(k, p)) == total_roots(m) - m[k].1.len() + p.1.len(),
    decreases m.len(),
{
    let u = m.update(k, p);
    if k == m.len() - 1 {
        assert(u.drop_last() =~= m.drop_last());
        assert(u.last() == p);
        assert(m.last() == m[k]);
    } else {
        assert(u.drop_last() =~= m.drop_last().update(k, p));
        assert(u.last() == m.last());
        lemma_total_roots_update(m.drop_last(), k, p);
        assert(m.drop_last()[k] == m[k]);
    }
}

/// A built map never describes more roots than there were entries: each
/// entry contributes at most one offset to one set.
pub proof fn lemma_total_roots_bounded(table: Seq<u32>, entries: Seq<UserStackMapEntry>)
    ensures
        total_roots(coalesce(table, entries)) <= entries.len(),
    decreases entries.len(),
{
    if entries.len() > 0 {
        let prefix = entries.drop_last();
        lemma_total_roots_bounded(table, prefix);
        lemma_coalesce_wf(table, prefix);
        let m = coalesce(table, prefix);
        let ty = entries.last().ty;
        let off = resolved_offset(table, entries.last()) as usize;
        lemma_type_index_props(m, ty);
        if has_type(m, ty) {
            let ti = type_index(m, ty);
            lemma_total_roots_update(m, ti, (ty, m[ti].1.insert(off)));
            assert(m[ti].1.finite());
            assert(m[ti].1.insert(off).len() <= m[ti].1.len() + 1);
        } else {
            let pushed = m.push((ty, Set::<usize>::empty().insert(off)));
            assert(coalesce(table, entries) == pushed);
            assert(pushed.drop_last() =~= m);
            assert(Set::<usize>::empty().insert(off).len() == 1);
        }
    }
}

/// The view of a sequence of (type, bit set) pairs: each bit set replaced by
/// the set of offsets it holds.
pub(crate) open spec fn pairs_view(
    v: Seq<(ValueType, cranelift_bitset::CompoundBitSet)>,
) -> Seq<SpecPair> {
    v.map_values(|p: (ValueType, cranelift_bitset::CompoundBitSet)| (p.0, bitset_elems(p.1)))
}

/// Find the first pair of `by_type` carrying `ty`, if any. Distinct GC types
/// per safepoint are almost always one or two, so a linear scan is cheaper
/// and simpler than a hashed structure.
fn find_type(by_type: &Vec<(ValueType, cranelift_bitset::CompoundBitSet)>, ty: ValueType) -> (r:
    Option<usize>)
    ensures
        match r {
            Some(j) => j < by_type@.len() && by_type@[j as int].0 == ty && forall|k: int|
                0 <= k < j ==> by_type@[k].0 != ty,
            None => forall|k: int| 0 <= k < by_type@.len() ==> by_type@[k].0 != ty,
        },
{
    let mut j: usize = 0;
    while j < by_type.len()
        invariant
            j <= by_type@.len(),
            forall|k: int| 0 <= k < j ==> by_type@[k].0 != ty,
        decreases by_type@.len() - j,
    {
        if by_type[j].0 == ty {
            return Some(j);
        }
        j += 1;
    }
    None
}

/// A compiled stack map, describing the location of many GC-managed values:
/// an ordered list of (type, set-of-absolute-offsets) pairs, one pair per
/// distinct type, in the order the types were first seen among the entries.
///
/// A stack map is associated with a particular safepoint instruction, built
/// exactly once after frame layout, and never mutated afterwards; it is safe
/// to share by immutable reference with any number of readers.
#[derive(Debug)]
pub struct UserStackMap {
    by_type: Vec<(ValueType, cranelift_bitset::CompoundBitSet)>,
}

impl View for UserStackMap {
    type V = Seq<SpecPair>;

    closed spec fn view(&self) -> Seq<SpecPair> {
        pairs_view(self.by_type@)
    }
}

impl UserStackMap {
    #[verifier::type_invariant]
    spec fn inv(&self) -> bool {
        map_wf(pairs_view(self.by_type@))
    }

    /// Coalesce the given entries into a new `UserStackMap`.
    ///
    /// Each entry is resolved to the absolute frame offset
    /// `stack_slot_offsets[entry.slot] + entry.offset` and recorded under
    /// the entry's type; duplicate offsets of one type collapse. An entry
    /// whose slot the table never located, or whose resolved offset
    /// overflows the frame-offset width, aborts the build with the defect of
    /// the first such entry, and no map is produced.
    pub fn new(
        entries: &[UserStackMapEntry],
        stack_slot_offsets: &StackSlotOffsetTable,
    ) -> (r: Result<UserStackMap, StackMapError>)
        ensures
            r is Ok <==> all_resolvable(stack_slot_offsets@, entries@),
            match r {
                Ok(m) => m@ == coalesce(stack_slot_offsets@, entries@) && map_wf(m@),
                Err(e) => first_failure(stack_slot_offsets@, entries@) == Some(e),
            },
    {
        let ghost table = stack_slot_offsets@;
        let mut by_type: Vec<(ValueType, cranelift_bitset::CompoundBitSet)> = Vec::new();
        let n: usize = entries.len();
        let mut i: usize = 0;

        proof {
            assert(entries@.take(0) =~= Seq::<UserStackMapEntry>::empty());
        }
        while i < n
            invariant
                n == entries@.len(),
                i <= n,
                first_failure(table, entries@.take(i as int)) is None,
                pairs_view(by_type@) == coalesce(table, entries@.take(i as int)),
                table == stack_slot_offsets@,
            decreases n - i,
        {
            let entry = entries[i];
            proof {
                lemma_first_failure_skip(table, entries@, i as int);
                lemma_first_failure_none_iff_resolvable(table, entries@);
                assert(entries@.skip(i as int)[0] == entry);
            }

            let base: u32 = match stack_slot_offsets.get(entry.slot) {
                Some(b) => b,
                None => {
                    return Err(StackMapError::MissingSlot { slot: entry.slot });
                },
            };

            if entry.offset > u32::MAX - base {
                return Err(
                    StackMapError::OffsetOverflow {
                        slot: entry.slot,
                        base,
                        offset: entry.offset,
                    },
                );
            }
            let abs: u32 = base + entry.offset;
            let off: usize = abs as usize;
            if off == usize::MAX {
                return Err(
                    StackMapError::OffsetOverflow {
                        slot: entry.slot,
                        base,
                        offset: entry.offset,
                    },
                );
            }
            proof {
                assert(entry_resolvable(table, entry));
                assert(off == resolved_offset(table, entry) as usize);
            }

            let ghost prev = pairs_view(by_type@);
            match find_type(&by_type, entry.ty) {
                Some(j) => {
                    let mut pair = by_type.remove(j);
                    bitset_insert(&mut pair.1, off);
                    by_type.insert(j, pair);
                    proof {
                        lemma_type_index_props(prev, entry.ty);
                        assert(prev[j as int].0 == entry.ty);
                        assert(has_type(prev, entry.ty));
                        let ti = type_index(prev, entry.ty);
                        assert(prev[ti].0 == entry.ty);
                        assert(ti == j as int);
                        assert(pairs_view(by_type@) =~= coalesce_step(prev, entry.ty, off));
                    }
                },
                None => {
                    // The set is sized to hold at least this first offset.
                    let mut set = bitset_with_capacity(off + 1);
                    bitset_insert(&mut set, off);
                    by_type.push((entry.ty, set));
                    proof {
                        assert(!has_type(prev, entry.ty));
                        assert(pairs_view(by_type@) =~= coalesce_step(prev, entry.ty, off));
                    }
                },
            }

            proof {
                let next = entries@.take(i as int + 1);
                assert(next.drop_last() =~= entries@.take(i as int));
                assert(next.last() == entry);
                assert(pairs_view(by_type@) == coalesce(table, next));
                assert(next.take(i as int) =~= entries@.take(i as int));
                lemma_first_failure_skip(table, next, i as int);
                assert(next.skip(i as int) =~= seq![entry]);
                assert(seq![entry].drop_first() =~= Seq::<UserStackMapEntry>::empty());
                assert(seq![entry][0] == entry);
                assert(first_failure(table, Seq::<UserStackMapEntry>::empty()) is None);
                assert(first_failure(table, next) is None);
            }
            i += 1;
        }

        proof {
            assert(entries@.take(n as int) =~= entries@);
            lemma_first_failure_none_iff_resolvable(table, entries@);
            lemma_coalesce_wf(table, entries@);
        }
        Ok(UserStackMap { by_type })
    }

    /// The number of (type, offsets) pairs: the count of distinct types
    /// among the coalesced entries.
    pub fn len(&self) -> (n: usize)
        ensures
            n == self@.len(),
    {
        self.by_type.len()
    }

    /// The type of the pair at position `i`, in first-seen order.
    pub fn type_at(&self, i: usize) -> (ty: ValueType)
        requires
            i < self@.len(),
        ensures
            ty == self@[i as int].0,
    {
        self.by_type[i].0
    }

    /// The absolute offsets of the pair at position `i`, deduplicated and in
    /// ascending order.
    pub fn offsets_at(&self, i: usize) -> (r: Vec<usize>)
        requires
            i < self@.len(),
        ensures
            forall|x: usize| r@.contains(x) <==> self@[i as int].1.contains(x),
            forall|a: int, b: int| 0 <= a < b < r@.len() ==> r@[a] < r@[b],
    {
        bitset_to_sorted_vec(&self.by_type[i].1)
    }

    /// Whether the map records a root of type `ty` at absolute frame offset
    /// `offset`.
    pub fn contains(&self, ty: ValueType, offset: u32) -> (r: bool)
        ensures
            r == map_contains(self@, ty, offset as usize),
    {
        proof {
            use_type_invariant(self);
        }
        match find_type(&self.by_type, ty) {
            Some(j) => {
                let r = bitset_contains(&self.by_type[j].1, offset as usize);
                proof {
                    if r {
                        assert(self@[j as int].0 == ty && self@[j as int].1.contains(
                            offset as usize,
                        ));
                    } else if map_contains(self@, ty, offset as usize) {
                        let w = choose|k: int|
                            0 <= k < self@.len() && self@[k].0 == ty && self@[k].1.contains(
                                offset as usize,
                            );
                        assert(self@[j as int].0 == self.by_type@[j as int].0);
                        assert(self@[w].0 == ty && self@[j as int].0 == ty);
                        assert(w == j as int);
                    }
                }
                r
            },
            None => {
                proof {
                    if map_contains(self@, ty, offset as usize) {
                        let w = choose|k: int|
                            0 <= k < self@.len() && self@[k].0 == ty && self@[k].1.contains(
                                offset as usize,
                            );
                        assert(self@[w].0 == ty);
                    }
                }
                false
            },
        }
    }

    /// The total count of described roots: the sizes of all offset sets,
    /// added up. The count is bounded by the number of coalesced entries
    /// ([`lemma_total_roots_bounded`]), so a map built by
    /// [`UserStackMap::new`] always satisfies the precondition.
    pub fn root_count(&self) -> (n: usize)
        requires
            total_roots(self@) <= usize::MAX,
        ensures
            n == total_roots(self@),
    {
        proof {
            use_type_invariant(self);
        }
        let mut n: usize = 0;
        let mut i: usize = 0;
        let len: usize = self.by_type.len();
        proof {
            assert(self@.take(0) =~= Seq::<SpecPair>::empty());
        }
        while i < len
            invariant
                len == self@.len(),
                i <= len,
                n == total_roots(self@.take(i as int)),
                map_wf(self@),
                total_roots(self@) <= usize::MAX,
            decreases len - i,
        {
            proof {
                assert(self@.take(i as int + 1).drop_last() =~= self@.take(i as int));
                assert(self@.take(i as int + 1).last() == self@[i as int]);
                lemma_total_roots_take_le(self@, i as int + 1);
                assert(self@.take(self@.len() as int) =~= self@);
            }
            let c: usize = bitset_len(&self.by_type[i].1);
            n += c;
            i += 1;
        }
        proof {
            assert(self@.take(len as int) =~= self@);
        }
        n
    }
}

} // verus!
