//! Properties of stack map construction, stated and proved once for all
//! entry sequences and offset tables.

use vstd::prelude::*;
use crate::entry::UserStackMapEntry;
use crate::entry::ValueType;
use crate::stack_map::SpecPair;
use crate::stack_map::all_resolvable;
use crate::stack_map::coalesce;
use crate::stack_map::coalesce_step;
use crate::stack_map::entry_resolvable;
use crate::stack_map::has_type;
use crate::stack_map::lemma_coalesce_wf;
use crate::stack_map::lemma_type_index_props;
use crate::stack_map::map_contains;
use crate::stack_map::resolved_offset;
use crate::stack_map::type_index;

verus! {

/// The types of a pair sequence, in pair order.
pub open spec fn pair_types(m: Seq<SpecPair>) -> Seq<ValueType> {
    m.map_values(|p: SpecPair| p.0)
}

/// The distinct types among the entries, each in the position where it was
/// first seen.
pub open spec fn first_seen_types(entries: Seq<UserStackMapEntry>) -> Seq<ValueType>
    decreases entries.len(),
{
    if entries.len() == 0 {
        Seq::<ValueType>::empty()
    } else {
        let prev = first_seen_types(entries.drop_last());
        if prev.contains(entries.last().ty) {
            prev
        } else {
            prev.push(entries.last().ty)
        }
    }
}

/// The set of absolute offsets that the entries of type `ty` resolve to.
pub open spec fn offsets_of_type(
    table: Seq<u32>,
    entries: Seq<UserStackMapEntry>,
    ty: ValueType,
) -> Set<usize> {
    Set::new(
        |off: usize|
            exists|i: int|
                0 <= i < entries.len() && entries[i].ty == ty && resolved_offset(
                    table,
                    entries[i],
                ) == off,
    )
}

proof fn lemma_contains_after_push<A>(s: Seq<A>, x: A, t: A)
    requires
        s.contains(x),
    ensures
        s.push(t).contains(x),
{
    let w = choose|i: int| 0 <= i < s.len() && s[i] == x;
    assert(s.push(t)[w] == x);
}

/// Every entry's type appears among the first-seen types.
pub proof fn lemma_first_seen_types_complete(entries: Seq<UserStackMapEntry>, i: int)
    requires
        0 <= i < entries.len(),
    ensures
        first_seen_types(entries).contains(entries[i].ty),
    decreases entries.len(),
{
    let prev = first_seen_types(entries.drop_last());
    let last_ty = entries.last().ty;
    if i == entries.len() - 1 {
        if !prev.contains(last_ty) {
            assert(prev.push(last_ty)[prev.len() as int] == last_ty);
        }
    } else {
        lemma_first_seen_types_complete(entries.drop_last(), i);
        assert(entries.drop_last()[i] == entries[i]);
        if !prev.contains(last_ty) {
            lemma_contains_after_push(prev, entries[i].ty, last_ty);
        }
    }
}

/// A type outside the first-seen types belongs to no entry.
proof fn lemma_type_absent(entries: Seq<UserStackMapEntry>, ty: ValueType)
    requires
        !first_seen_types(entries).contains(ty),
    ensures
        forall|i: int| 0 <= i < entries.len() ==> (#[trigger] entries[i]).ty != ty,
{
    assert forall|i: int| 0 <= i < entries.len() implies (#[trigger] entries[i]).ty != ty by {
        if entries[i].ty == ty {
            lemma_first_seen_types_complete(entries, i);
        }
    }
}

proof fn lemma_has_type_iff_contains(m: Seq<SpecPair>, ty: ValueType)
    ensures
        has_type(m, ty) <==> pair_types(m).contains(ty),
{
    if has_type(m, ty) {
        let k = choose|k: int| 0 <= k < m.len() && m[k].0 == ty;
        assert(pair_types(m)[k] == ty);
    }
    if pair_types(m).contains(ty) {
        let k = choose|k: int| 0 <= k < pair_types(m).len() && pair_types(m)[k] == ty;
        assert(m[k].0 == ty);
    }
}

/// Appending one resolvable entry extends exactly its own type's offset
/// set, by its resolved offset; every other type's set is untouched.
proof fn lemma_offsets_of_type_step(
    table: Seq<u32>,
    entries: Seq<UserStackMapEntry>,
    t: ValueType,
)
    requires
        entries.len() > 0,
        entry_resolvable(table, entries.last()),
    ensures
        entries.last().ty != t ==> offsets_of_type(table, entries, t) == offsets_of_type(
            table,
            entries.drop_last(),
            t,
        ),
        entries.last().ty == t ==> offsets_of_type(table, entries, t) == offsets_of_type(
            table,
            entries.drop_last(),
            t,
        ).insert(resolved_offset(table, entries.last()) as usize),
{
    let prefix = entries.drop_last();
    let e = entries.last();
    let off = resolved_offset(table, e) as usize;
    assert(entries[entries.len() - 1] == e);
    if e.ty != t {
        assert forall|o: usize| offsets_of_type(table, entries, t).contains(o) implies
            offsets_of_type(table, prefix, t).contains(o) by {
            let i = choose|i: int|
                0 <= i < entries.len() && entries[i].ty == t && resolved_offset(table, entries[i])
                    == o;
            assert(i < prefix.len());
            assert(prefix[i] == entries[i]);
        }
        assert forall|o: usize| offsets_of_type(table, prefix, t).contains(o) implies
            offsets_of_type(table, entries, t).contains(o) by {
            let i = choose|i: int|
                0 <= i < prefix.len() && prefix[i].ty == t && resolved_offset(table, prefix[i])
                    == o;
            assert(entries[i] == prefix[i]);
        }
        assert(offsets_of_type(table, entries, t) =~= offsets_of_type(table, prefix, t));
    } else {
        assert forall|o: usize| offsets_of_type(table, entries, t).contains(o) implies
            offsets_of_type(table, prefix, t).insert(off).contains(o) by {
            let i = choose|i: int|
                0 <= i < entries.len() && entries[i].ty == t && resolved_offset(table, entries[i])
                    == o;
            if i == entries.len() - 1 {
                assert(o == off);
            } else {
                assert(prefix[i] == entries[i]);
            }
        }
        assert forall|o: usize| offsets_of_type(table, prefix, t).insert(off).contains(o) implies
            offsets_of_type(table, entries, t).contains(o) by {
            if o == off {
                assert(entries[entries.len() - 1].ty == t && resolved_offset(
                    table,
                    entries[entries.len() - 1],
                ) == o);
            } else {
                let i = choose|i: int|
                    0 <= i < prefix.len() && prefix[i].ty == t && resolved_offset(table, prefix[i])
                        == o;
                assert(entries[i] == prefix[i]);
            }
        }
        assert(offsets_of_type(table, entries, t) =~= offsets_of_type(table, prefix, t).insert(
            off,
        ));
    }
}

/// What a built stack map holds, pair by pair: the pair types are exactly
/// the entry types in first-seen order, and the set under each type holds
/// exactly the absolute offsets that the entries of that type resolve to.
pub proof fn lemma_coalesce_characterization(table: Seq<u32>, entries: Seq<UserStackMapEntry>)
    requires
        all_resolvable(table, entries),
    ensures
        pair_types(coalesce(table, entries)) == first_seen_types(entries),
        forall|k: int| 0 <= k < coalesce(table, entries).len() ==> (#[trigger] coalesce(
            table,
            entries,
        )[k]).1 == offsets_of_type(table, entries, coalesce(table, entries)[k].0),
    decreases entries.len(),
{
    let res = coalesce(table, entries);
    if entries.len() == 0 {
        assert(pair_types(res) =~= first_seen_types(entries));
    } else {
        let prefix = entries.drop_last();
        let e = entries.last();
        let ty = e.ty;
        assert(entries[entries.len() - 1] == e);
        assert(entry_resolvable(table, e));
        let off = resolved_offset(table, e) as usize;
        assert(off as int == resolved_offset(table, e));
        assert forall|i: int| 0 <= i < prefix.len() implies entry_resolvable(
            table,
            prefix[i],
        ) by {
            assert(prefix[i] == entries[i]);
        }
        lemma_coalesce_characterization(table, prefix);
        lemma_coalesce_wf(table, prefix);
        let m = coalesce(table, prefix);
        lemma_type_index_props(m, ty);
        lemma_has_type_iff_contains(m, ty);
        assert(res == coalesce_step(m, ty, off));

        if has_type(m, ty) {
            let ti = type_index(m, ty);
            assert(first_seen_types(prefix).contains(ty));
            assert(first_seen_types(entries) == first_seen_types(prefix));
            assert forall|k: int| 0 <= k < pair_types(res).len() implies pair_types(res)[k]
                == pair_types(m)[k] by {
                assert(res[k].0 == m[k].0);
            }
            assert(pair_types(res) =~= pair_types(m));
            assert forall|k: int| 0 <= k < res.len() implies (#[trigger] res[k]).1
                == offsets_of_type(table, entries, res[k].0) by {
                lemma_offsets_of_type_step(table, entries, res[k].0);
                if k == ti {
                    assert(res[k].0 == ty);
                    assert(res[k].1 == m[ti].1.insert(off));
                    assert(coalesce(table, prefix)[ti] == m[ti]);
                    assert(m[ti].1 == offsets_of_type(table, prefix, ty));
                } else {
                    assert(res[k] == m[k]);
                    assert(m[ti].0 == ty);
                    assert(m[k].0 != ty);
                    assert(coalesce(table, prefix)[k] == m[k]);
                    assert(m[k].1 == offsets_of_type(table, prefix, m[k].0));
                }
            }
        } else {
            assert(!first_seen_types(prefix).contains(ty));
            assert(first_seen_types(entries) == first_seen_types(prefix).push(ty));
            assert(res == m.push((ty, Set::<usize>::empty().insert(off))));
            assert forall|k: int| 0 <= k < pair_types(res).len() implies pair_types(res)[k]
                == first_seen_types(entries)[k] by {
                if k < m.len() {
                    assert(res[k] == m[k]);
                    assert(pair_types(m)[k] == m[k].0);
                } else {
                    assert(res[k].0 == ty);
                }
            }
            assert(pair_types(res) =~= first_seen_types(entries));
            lemma_type_absent(prefix, ty);
            assert forall|o: usize| !offsets_of_type(table, prefix, ty).contains(o) by {
                if offsets_of_type(table, prefix, ty).contains(o) {
                    let i = choose|i: int|
                        0 <= i < prefix.len() && prefix[i].ty == ty && resolved_offset(
                            table,
                            prefix[i],
                        ) == o;
                    assert(prefix[i].ty != ty);
                }
            }
            assert(offsets_of_type(table, prefix, ty) =~= Set::<usize>::empty());
            assert forall|k: int| 0 <= k < res.len() implies (#[trigger] res[k]).1
                == offsets_of_type(table, entries, res[k].0) by {
                lemma_offsets_of_type_step(table, entries, res[k].0);
                if k < m.len() {
                    assert(res[k] == m[k]);
                    assert(m[k].0 != ty);
                    assert(coalesce(table, prefix)[k] == m[k]);
                    assert(m[k].1 == offsets_of_type(table, prefix, m[k].0));
                } else {
                    assert(res[k] == (ty, Set::<usize>::empty().insert(off)));
                    assert(offsets_of_type(table, entries, ty) == offsets_of_type(
                        table,
                        prefix,
                        ty,
                    ).insert(off));
                    assert(offsets_of_type(table, prefix, ty).insert(off)
                        =~= Set::<usize>::empty().insert(off));
                }
            }
        }
    }
}

/// Coverage: every entry's resolved (type, absolute-offset) pair is present
/// in the built map.
pub proof fn lemma_entry_coverage(table: Seq<u32>, entries: Seq<UserStackMapEntry>, i: int)
    requires
        all_resolvable(table, entries),
        0 <= i < entries.len(),
    ensures
        map_contains(
            coalesce(table, entries),
            entries[i].ty,
            resolved_offset(table, entries[i]) as usize,
        ),
{
    lemma_coalesce_characterization(table, entries);
    lemma_first_seen_types_complete(entries, i);
    let m = coalesce(table, entries);
    let ty = entries[i].ty;
    let off = resolved_offset(table, entries[i]) as usize;
    assert(entry_resolvable(table, entries[i]));
    assert(off as int == resolved_offset(table, entries[i]));
    let k = choose|k: int| 0 <= k < pair_types(m).len() && pair_types(m)[k] == ty;
    assert(m[k].0 == ty);
    assert(m[k].1 == offsets_of_type(table, entries, ty));
    assert(offsets_of_type(table, entries, ty).contains(off));
    assert(0 <= k < m.len() && m[k].0 == ty && m[k].1.contains(off));
}

/// Building from no entries yields a map with no pairs.
pub proof fn lemma_empty_entries_empty_map(table: Seq<u32>)
    ensures
        coalesce(table, Seq::<UserStackMapEntry>::empty()) == Seq::<SpecPair>::empty(),
{
}

/// Idempotent insertion: appending an entry identical to one already
/// processed leaves the built map unchanged, because the duplicate's offset
/// is already stored in its type's set.
pub proof fn lemma_duplicate_entry_collapses(
    table: Seq<u32>,
    entries: Seq<UserStackMapEntry>,
    e: UserStackMapEntry,
)
    requires
        all_resolvable(table, entries),
        exists|i: int| 0 <= i < entries.len() && entries[i] == e,
    ensures
        coalesce(table, entries.push(e)) == coalesce(table, entries),
{
    let pushed = entries.push(e);
    assert(pushed.drop_last() =~= entries);
    assert(pushed.last() == e);
    let w = choose|i: int| 0 <= i < entries.len() && entries[i] == e;
    assert(entry_resolvable(table, e));
    lemma_coalesce_characterization(table, entries);
    lemma_coalesce_wf(table, entries);
    let m = coalesce(table, entries);
    let ty = e.ty;
    let off = resolved_offset(table, e) as usize;
    lemma_first_seen_types_complete(entries, w);
    lemma_has_type_iff_contains(m, ty);
    lemma_type_index_props(m, ty);
    let ti = type_index(m, ty);
    assert(coalesce(table, entries)[ti] == m[ti]);
    assert(m[ti].1 == offsets_of_type(table, entries, ty));
    assert(offsets_of_type(table, entries, ty).contains(off));
    assert(m[ti].1.insert(off) =~= m[ti].1);
    assert(coalesce(table, pushed) == coalesce_step(m, ty, off));
    assert((ty, m[ti].1.insert(off)) == m[ti]);
    assert(m.update(ti, (ty, m[ti].1.insert(off))) =~= m);
}

/// No cross-type collision: two entries of different types that resolve to
/// the same absolute offset both remain present, each under its own type.
pub proof fn lemma_cross_type_no_collision(
    table: Seq<u32>,
    entries: Seq<UserStackMapEntry>,
    i: int,
    j: int,
)
    requires
        all_resolvable(table, entries),
        0 <= i < entries.len(),
        0 <= j < entries.len(),
        entries[i].ty != entries[j].ty,
        resolved_offset(table, entries[i]) == resolved_offset(table, entries[j]),
    ensures
        map_contains(
            coalesce(table, entries),
            entries[i].ty,
            resolved_offset(table, entries[i]) as usize,
        ),
        map_contains(
            coalesce(table, entries),
            entries[j].ty,
            resolved_offset(table, entries[i]) as usize,
        ),
{
    lemma_entry_coverage(table, entries, i);
    lemma_entry_coverage(table, entries, j);
}

/// The built map is determined by the first-seen order of the types and the
/// per-type sets of resolved offsets, and by nothing else about the entry
/// order.
pub proof fn lemma_map_determined_by_types_and_offsets(
    table: Seq<u32>,
    e1: Seq<UserStackMapEntry>,
    e2: Seq<UserStackMapEntry>,
)
    requires
        all_resolvable(table, e1),
        all_resolvable(table, e2),
        first_seen_types(e1) == first_seen_types(e2),
        forall|ty: ValueType| #[trigger] offsets_of_type(table, e1, ty) == offsets_of_type(
            table,
            e2,
            ty,
        ),
    ensures
        coalesce(table, e1) == coalesce(table, e2),
{
    lemma_coalesce_characterization(table, e1);
    lemma_coalesce_characterization(table, e2);
    let m1 = coalesce(table, e1);
    let m2 = coalesce(table, e2);
    assert(pair_types(m1).len() == m1.len());
    assert(pair_types(m2).len() == m2.len());
    assert(m1.len() == m2.len());
    assert forall|k: int| 0 <= k < m1.len() implies m1[k] == m2[k] by {
        assert(pair_types(m1)[k] == m1[k].0);
        assert(pair_types(m2)[k] == m2[k].0);
        assert(m1[k].0 == m2[k].0);
        assert(m1[k].1 == offsets_of_type(table, e1, m1[k].0));
        assert(m2[k].1 == offsets_of_type(table, e2, m2[k].0));
        assert(offsets_of_type(table, e1, m1[k].0) == offsets_of_type(table, e2, m1[k].0));
        assert((m1[k].0, m1[k].1) == (m2[k].0, m2[k].1));
        assert(m1[k] == m2[k]);
    }
    assert(m1 =~= m2);
}

/// Permuting entries within the same type — any reordering that keeps the
/// multiset of entries and the first-seen order of the types — does not
/// change the built map at all, and in particular not the set contents.
pub proof fn lemma_within_type_permutation(
    table: Seq<u32>,
    e1: Seq<UserStackMapEntry>,
    e2: Seq<UserStackMapEntry>,
)
    requires
        all_resolvable(table, e1),
        e1.to_multiset() == e2.to_multiset(),
        first_seen_types(e1) == first_seen_types(e2),
    ensures
        coalesce(table, e1) == coalesce(table, e2),
{
    broadcast use vstd::seq_lib::group_to_multiset_ensures;

    assert forall|v: UserStackMapEntry| #[trigger] e2.contains(v) implies e1.contains(v) by {
        assert(e2.to_multiset().count(v) > 0);
        assert(e1.to_multiset().count(v) > 0);
    }
    assert forall|v: UserStackMapEntry| #[trigger] e1.contains(v) implies e2.contains(v) by {
        assert(e1.to_multiset().count(v) > 0);
        assert(e2.to_multiset().count(v) > 0);
    }
    assert forall|i: int| 0 <= i < e2.len() implies entry_resolvable(table, e2[i]) by {
        assert(e2[i] == e2[i]);
        assert(e2.contains(e2[i]));
        assert(e1.contains(e2[i]));
        let j = choose|j: int| 0 <= j < e1.len() && e1[j] == e2[i];
        assert(entry_resolvable(table, e1[j]));
    }
    assert forall|ty: ValueType| #[trigger] offsets_of_type(table, e1, ty) == offsets_of_type(
        table,
        e2,
        ty,
    ) by {
        assert forall|o: usize| offsets_of_type(table, e1, ty).contains(o) implies
            offsets_of_type(table, e2, ty).contains(o) by {
            let i = choose|i: int|
                0 <= i < e1.len() && e1[i].ty == ty && resolved_offset(table, e1[i]) == o;
            assert(e1.contains(e1[i]));
            assert(e2.contains(e1[i]));
            let j = choose|j: int| 0 <= j < e2.len() && e2[j] == e1[i];
            assert(e2[j].ty == ty && resolved_offset(table, e2[j]) == o);
        }
        assert forall|o: usize| offsets_of_type(table, e2, ty).contains(o) implies
            offsets_of_type(table, e1, ty).contains(o) by {
            let i = choose|i: int|
                0 <= i < e2.len() && e2[i].ty == ty && resolved_offset(table, e2[i]) == o;
            assert(e2.contains(e2[i]));
            assert(e1.contains(e2[i]));
            let j = choose|j: int| 0 <= j < e1.len() && e1[j] == e2[i];
            assert(e1[j].ty == ty && resolved_offset(table, e1[j]) == o);
        }
        assert(offsets_of_type(table, e1, ty) =~= offsets_of_type(table, e2, ty));
    }
    lemma_map_determined_by_types_and_offsets(table, e1, e2);
}

} // verus!
