//! The duplicate pass: grouping directory entries by fingerprint.
//!
//! The pass works on the marks of a directory listing, one per entry and in
//! listing order. Entries are named by their index in that listing. Which
//! file of a group counts as the original therefore depends on the order in
//! which the directory was listed, and that order is up to the file system.

use crate::fingerprint::mark_of;
use std::collections::HashMap;
use vstd::prelude::*;

verus! {

/// The indices of the entries whose mark is `fingerprint`, in listing order.
pub open spec fn positions(marks: Seq<Option<u64>>, fingerprint: u64) -> Seq<usize>
    decreases marks.len(),
{
    if marks.len() == 0 {
        Seq::empty()
    } else {
        let earlier = positions(marks.drop_last(), fingerprint);
        if marks.last() == Some(fingerprint) {
            earlier.push((marks.len() - 1) as usize)
        } else {
            earlier
        }
    }
}

/// Two or more entries that share a fingerprint.
#[derive(Debug)]
pub struct DuplicateGroup {
    /// The fingerprint that all members share.
    pub fingerprint: u64,
    /// The member that was listed first. It is kept.
    pub original: usize,
    /// The other members, in listing order. They are to be removed.
    pub duplicates: Vec<usize>,
}

impl DuplicateGroup {
    /// All members of the group, the original first.
    pub open spec fn members(&self) -> Seq<usize> {
        seq![self.original] + self.duplicates@
    }
}

/// Whether some group of `groups` is the group of `fingerprint`.
pub open spec fn has_group(groups: Seq<DuplicateGroup>, fingerprint: u64) -> bool {
    exists|g: int| 0 <= g < groups.len() && (#[trigger] groups[g]).fingerprint == fingerprint
}

/// What `group_duplicates` returns for `marks`: one group for each
/// fingerprint that two or more entries carry, holding every entry with that
/// fingerprint, the groups in the order in which their originals were listed.
pub open spec fn groups_of(marks: Seq<Option<u64>>, groups: Seq<DuplicateGroup>) -> bool {
    &&& forall|g: int|
        0 <= g < groups.len() ==> {
            &&& (#[trigger] groups[g]).members() == positions(marks, groups[g].fingerprint)
            &&& groups[g].duplicates@.len() >= 1
        }
    &&& forall|g: int, h: int|
        0 <= g < h < groups.len() ==> (#[trigger] groups[g]).original < (
        #[trigger] groups[h]).original
    &&& forall|fingerprint: u64| #[trigger]
        positions(marks, fingerprint).len() >= 2 ==> has_group(groups, fingerprint)
}

/// Every position holds the fingerprint asked for, positions come in
/// strictly increasing order, and no entry with the fingerprint is left out.
pub proof fn lemma_positions(marks: Seq<Option<u64>>, fingerprint: u64)
    requires
        marks.len() <= usize::MAX,
    ensures
        forall|k: int|
            0 <= k < positions(marks, fingerprint).len() ==> {
                &&& (#[trigger] positions(marks, fingerprint)[k]) < marks.len()
                &&& marks[positions(marks, fingerprint)[k] as int] == Some(fingerprint)
            },
        forall|k: int, l: int|
            0 <= k < l < positions(marks, fingerprint).len() ==> (#[trigger] positions(
                marks,
                fingerprint,
            )[k]) < (#[trigger] positions(marks, fingerprint)[l]),
        forall|i: int|
            0 <= i < marks.len() && #[trigger] marks[i] == Some(fingerprint) ==> positions(
                marks,
                fingerprint,
            ).contains(i as usize),
    decreases marks.len(),
{
    if marks.len() > 0 {
        let front = marks.drop_last();
        lemma_positions(front, fingerprint);
        let earlier = positions(front, fingerprint);
        let all = positions(marks, fingerprint);
        assert forall|i: int|
            0 <= i < marks.len() && #[trigger] marks[i] == Some(fingerprint) implies all.contains(
            i as usize,
        ) by {
            if i < marks.len() - 1 {
                assert(front[i] == Some(fingerprint));
                assert(earlier.contains(i as usize));
                let k = choose|k: int| 0 <= k < earlier.len() && earlier[k] == i as usize;
                assert(all[k] == i as usize);
            } else {
                assert(all[all.len() - 1] == i as usize);
            }
        }
    }
}

/// Whether entry `entry` is among the duplicates of some group.
pub open spec fn is_removed(groups: Seq<DuplicateGroup>, entry: usize) -> bool {
    exists|g: int| 0 <= g < groups.len() && (#[trigger] groups[g]).duplicates@.contains(entry)
}

/// Whether entry `entry` is the original of some group.
pub open spec fn is_kept_original(groups: Seq<DuplicateGroup>, entry: usize) -> bool {
    exists|g: int| 0 <= g < groups.len() && (#[trigger] groups[g]).original == entry
}

/// Whether an entry listed before `entry` carries the same mark.
pub open spec fn has_earlier_twin(marks: Seq<Option<u64>>, entry: int) -> bool {
    exists|i: int| 0 <= i < entry && #[trigger] marks[i] == marks[entry]
}

/// Whether an entry listed after `entry` carries the same mark.
pub open spec fn has_later_twin(marks: Seq<Option<u64>>, entry: int) -> bool {
    exists|i: int| entry < i < marks.len() && #[trigger] marks[i] == marks[entry]
}

/// An entry is to be removed exactly if it is marked and an earlier entry
/// carries the same fingerprint. It is the kept original of a group exactly
/// if it is marked, no earlier entry carries its fingerprint and a later one
/// does. So of the entries that share a fingerprint, the first is kept and
/// all others go; an entry without a mark, such as an empty file, is in no
/// group whatever the other entries are.
pub proof fn lemma_removed_iff_earlier_twin(
    marks: Seq<Option<u64>>,
    groups: Seq<DuplicateGroup>,
    entry: usize,
)
    requires
        marks.len() <= usize::MAX,
        groups_of(marks, groups),
        entry < marks.len(),
    ensures
        is_removed(groups, entry) <==> marks[entry as int] is Some && has_earlier_twin(
            marks,
            entry as int,
        ),
        is_kept_original(groups, entry) <==> marks[entry as int] is Some && !has_earlier_twin(
            marks,
            entry as int,
        ) && has_later_twin(marks, entry as int),
        marks[entry as int] is None ==> !is_removed(groups, entry) && !is_kept_original(
            groups,
            entry,
        ),
{
    if is_removed(groups, entry) {
        let g = choose|g: int|
            0 <= g < groups.len() && (#[trigger] groups[g]).duplicates@.contains(entry);
        let found = positions(marks, groups[g].fingerprint);
        lemma_positions(marks, groups[g].fingerprint);
        let k = choose|k: int|
            0 <= k < groups[g].duplicates@.len() && groups[g].duplicates@[k] == entry;
        assert(groups[g].members()[k + 1] == entry);
        assert(found[k + 1] == entry);
        assert(found[0] < found[k + 1]);
        assert(marks[found[0] as int] == marks[entry as int]);
    }
    if is_kept_original(groups, entry) {
        let g = choose|g: int| 0 <= g < groups.len() && (#[trigger] groups[g]).original == entry;
        let fingerprint = groups[g].fingerprint;
        let found = positions(marks, fingerprint);
        lemma_positions(marks, fingerprint);
        assert(groups[g].members()[0] == entry);
        assert(groups[g].members()[1] == found[1]);
        assert(found[0] < found[1]);
        assert(marks[found[1] as int] == marks[entry as int]);
        if has_earlier_twin(marks, entry as int) {
            let i = choose|i: int| 0 <= i < entry && #[trigger] marks[i] == marks[entry as int];
            assert(found.contains(i as usize));
            let k = choose|k: int| 0 <= k < found.len() && found[k] == i as usize;
            assert(found[0] <= found[k]);
        }
    }
    if let Some(fingerprint) = marks[entry as int] {
        let found = positions(marks, fingerprint);
        lemma_positions(marks, fingerprint);
        assert(found.contains(entry));
        let k = choose|k: int| 0 <= k < found.len() && found[k] == entry;
        if has_earlier_twin(marks, entry as int) {
            let i = choose|i: int| 0 <= i < entry && #[trigger] marks[i] == marks[entry as int];
            assert(found.contains(i as usize));
            let m = choose|m: int| 0 <= m < found.len() && found[m] == i as usize;
            assert(m < k) by {
                if k < m {
                    assert(found[k] < found[m]);
                }
            }
            assert(has_group(groups, fingerprint));
            let g = choose|g: int|
                0 <= g < groups.len() && (#[trigger] groups[g]).fingerprint == fingerprint;
            assert(groups[g].members()[k] == entry);
            assert(groups[g].duplicates@[k - 1] == entry);
        } else if has_later_twin(marks, entry as int) {
            let i = choose|i: int|
                entry < i < marks.len() && #[trigger] marks[i] == marks[entry as int];
            assert(found.contains(i as usize));
            let m = choose|m: int| 0 <= m < found.len() && found[m] == i as usize;
            assert(k == 0) by {
                if k > 0 {
                    assert(found[0] < found[k]);
                    assert(marks[found[0] as int] == marks[entry as int]);
                }
            }
            assert(has_group(groups, fingerprint));
            let g = choose|g: int|
                0 <= g < groups.len() && (#[trigger] groups[g]).fingerprint == fingerprint;
            assert(groups[g].members()[0] == entry);
        }
    }
}

/// Two entries land in the same group exactly if their fingerprints are
/// equal: a group holds the entries that carry its fingerprint and no
/// others. Whether their contents are equal is not looked at.
pub proof fn lemma_group_holds_its_fingerprint(
    marks: Seq<Option<u64>>,
    groups: Seq<DuplicateGroup>,
    g: int,
    entry: usize,
)
    requires
        marks.len() <= usize::MAX,
        groups_of(marks, groups),
        0 <= g < groups.len(),
        entry < marks.len(),
    ensures
        groups[g].members().contains(entry) <==> marks[entry as int] == Some(
            groups[g].fingerprint,
        ),
{
    lemma_positions(marks, groups[g].fingerprint);
    let found = positions(marks, groups[g].fingerprint);
    if found.contains(entry) {
        let k = choose|k: int| 0 <= k < found.len() && found[k] == entry;
        assert(marks[found[k] as int] == Some(groups[g].fingerprint));
    }
}

/// Empty files are exempt: an entry of size zero is neither kept as an
/// original nor removed as a duplicate, whatever else the directory holds.
pub proof fn lemma_empty_files_exempt(
    marks: Seq<Option<u64>>,
    groups: Seq<DuplicateGroup>,
    entry: usize,
    is_file: bool,
    content: Seq<u8>,
)
    requires
        marks.len() <= usize::MAX,
        groups_of(marks, groups),
        entry < marks.len(),
        marks[entry as int] == mark_of(is_file, 0, content),
    ensures
        !is_removed(groups, entry),
        !is_kept_original(groups, entry),
{
    lemma_removed_iff_earlier_twin(marks, groups, entry);
}

/// Listing one more entry adds its index to the positions of its
/// fingerprint and leaves those of every other fingerprint as they were.
proof fn lemma_positions_step(marks: Seq<Option<u64>>, listed: int)
    requires
        0 <= listed < marks.len(),
    ensures
        forall|fingerprint: u64| #[trigger]
            positions(marks.take(listed + 1), fingerprint) == if marks[listed] == Some(
                fingerprint,
            ) {
                positions(marks.take(listed), fingerprint).push(listed as usize)
            } else {
                positions(marks.take(listed), fingerprint)
            },
{
    assert(marks.take(listed + 1).drop_last() =~= marks.take(listed));
}

/// The index kept in `slot` for each fingerprint is that of its group in
/// `table`, and every group of `table` is indexed.
spec fn indexes(slot: Map<u64, usize>, table: Seq<DuplicateGroup>) -> bool {
    &&& forall|fingerprint: u64| #[trigger]
        slot.contains_key(fingerprint) ==> slot[fingerprint] < table.len()
            && table[slot[fingerprint] as int].fingerprint == fingerprint
    &&& forall|k: int|
        0 <= k < table.len() ==> slot.contains_key((#[trigger] table[k]).fingerprint)
            && slot[table[k].fingerprint] == k
}

/// The groups of `table` are those of the fingerprints listed in `marks`:
/// each holds all entries with its fingerprint, and the groups stand in the
/// order in which their first members were listed.
spec fn tabulates(marks: Seq<Option<u64>>, table: Seq<DuplicateGroup>) -> bool {
    &&& forall|k: int|
        0 <= k < table.len() ==> (#[trigger] table[k]).members() == positions(
            marks,
            table[k].fingerprint,
        )
    &&& forall|k: int, h: int|
        0 <= k < h < table.len() ==> (#[trigger] table[k]).original < (
        #[trigger] table[h]).original
    &&& forall|k: int| 0 <= k < table.len() ==> (#[trigger] table[k]).original < marks.len()
    &&& forall|fingerprint: u64|
        (#[trigger] positions(marks, fingerprint)).len() > 0 ==> has_group(table, fingerprint)
}

/// Builds the mapping from fingerprint to the entries that carry it: one
/// group for each fingerprint listed, whether it has duplicates or not.
fn tabulate(marks: &Vec<Option<u64>>) -> (table: Vec<DuplicateGroup>)
    ensures
        tabulates(marks@, table@),
{
    broadcast use vstd::std_specs::hash::group_hash_axioms;

    let mut slot: HashMap<u64, usize> = HashMap::new();
    let mut table: Vec<DuplicateGroup> = Vec::new();
    let mut i: usize = 0;
    while i < marks.len()
        invariant
            i <= marks.len(),
            indexes(slot@, table@),
            forall|k: int|
                0 <= k < table.len() ==> (#[trigger] table@[k]).members() == positions(
                    marks@.take(i as int),
                    table@[k].fingerprint,
                ),
            forall|k: int, h: int|
                0 <= k < h < table.len() ==> (#[trigger] table@[k]).original < (
                #[trigger] table@[h]).original,
            forall|k: int| 0 <= k < table.len() ==> (#[trigger] table@[k]).original < i,
            forall|fingerprint: u64|
                !slot@.contains_key(fingerprint) ==> (#[trigger] positions(
                    marks@.take(i as int),
                    fingerprint,
                )).len() == 0,
        decreases marks.len() - i,
    {
        proof {
            lemma_positions_step(marks@, i as int);
        }
        let ghost before = table@;
        match marks[i] {
            Some(fingerprint) => {
                let known = match slot.get(&fingerprint) {
                    Some(k) => Some(*k),
                    None => None,
                };
                match known {
                    Some(k) => {
                        table[k].duplicates.push(i);
                        proof {
                            assert(table@[k as int].fingerprint == fingerprint);
                            assert(table@[k as int].members() =~= before[k as int].members().push(
                                i,
                            ));
                            assert forall|h: int| 0 <= h < table.len() implies (
                            #[trigger] table@[h]).fingerprint == before[h].fingerprint
                                && table@[h].original == before[h].original by {}
                            assert forall|h: int| 0 <= h < table.len() implies (
                            #[trigger] table@[h]).members() == positions(
                                marks@.take(i + 1),
                                table@[h].fingerprint,
                            ) by {
                                if h != k {
                                    assert(table@[h] == before[h]);
                                    assert(before[h].fingerprint != fingerprint);
                                }
                            }
                        }
                    },
                    None => {
                        slot.insert(fingerprint, table.len());
                        table.push(
                            DuplicateGroup { fingerprint, original: i, duplicates: Vec::new() },
                        );
                        proof {
                            let added = table@[table.len() - 1];
                            assert(added.members() =~= Seq::<usize>::empty().push(i));
                            assert forall|h: int| 0 <= h < table.len() implies (
                            #[trigger] table@[h]).members() == positions(
                                marks@.take(i + 1),
                                table@[h].fingerprint,
                            ) by {
                                if h < table.len() - 1 {
                                    assert(table@[h] == before[h]);
                                    assert(before[h].fingerprint != fingerprint);
                                }
                            }
                        }
                    },
                }
            },
            None => {},
        }
        i += 1;
    }
    proof {
        assert(marks@.take(marks.len() as int) =~= marks@);
        assert forall|fingerprint: u64|
            (#[trigger] positions(marks@, fingerprint)).len() > 0 implies has_group(
            table@,
            fingerprint,
        ) by {
            assert(slot@.contains_key(fingerprint));
            assert(table@[slot@[fingerprint] as int].fingerprint == fingerprint);
        }
    }
    table
}

/// Copies a list of entries.
fn copy_entries(entries: &Vec<usize>) -> (copy: Vec<usize>)
    ensures
        copy@ == entries@,
{
    let mut copy: Vec<usize> = Vec::new();
    let mut i: usize = 0;
    while i < entries.len()
        invariant
            i <= entries.len(),
            copy@ == entries@.take(i as int),
        decreases entries.len() - i,
    {
        copy.push(entries[i]);
        proof {
            assert(copy@ =~= entries@.take(i + 1));
        }
        i += 1;
    }
    proof {
        assert(entries@.take(entries.len() as int) =~= entries@);
    }
    copy
}

/// Groups the entries of a listing by fingerprint and returns the groups
/// with two or more members.
///
/// The first-listed member of a group is its original; all later members
/// are its duplicates. Entries without a mark belong to no group.
pub fn group_duplicates(marks: &Vec<Option<u64>>) -> (groups: Vec<DuplicateGroup>)
    ensures
        groups_of(marks@, groups@),
{
    let table = tabulate(marks);
    let mut groups: Vec<DuplicateGroup> = Vec::new();
    let mut k: usize = 0;
    while k < table.len()
        invariant
            k <= table.len(),
            tabulates(marks@, table@),
            forall|g: int|
                0 <= g < groups.len() ==> {
                    &&& (#[trigger] groups@[g]).members() == positions(
                        marks@,
                        groups@[g].fingerprint,
                    )
                    &&& groups@[g].duplicates@.len() >= 1
                },
            forall|g: int, h: int|
                0 <= g < h < groups.len() ==> (#[trigger] groups@[g]).original < (
                #[trigger] groups@[h]).original,
            forall|g: int, t: int|
                0 <= g < groups.len() && k <= t < table.len() ==> (#[trigger] groups@[g]).original
                    < (#[trigger] table@[t]).original,
            forall|t: int|
                0 <= t < k && positions(marks@, (#[trigger] table@[t]).fingerprint).len() >= 2
                    ==> has_group(groups@, table@[t].fingerprint),
        decreases table.len() - k,
    {
        let ghost before = groups@;
        let group = &table[k];
        if group.duplicates.len() > 0 {
            groups.push(
                DuplicateGroup {
                    fingerprint: group.fingerprint,
                    original: group.original,
                    duplicates: copy_entries(&group.duplicates),
                },
            );
            proof {
                let added = groups@[groups.len() - 1];
                assert(added.members() =~= table@[k as int].members());
            }
        }
        proof {
            assert forall|t: int|
                0 <= t < k + 1 && positions(marks@, (#[trigger] table@[t]).fingerprint).len()
                    >= 2 implies has_group(groups@, table@[t].fingerprint) by {
                if t < k {
                    let g = choose|g: int|
                        0 <= g < before.len() && (#[trigger] before[g]).fingerprint
                            == table@[t].fingerprint;
                    assert(groups@[g].fingerprint == table@[t].fingerprint);
                } else {
                    assert(table@[k as int].members().len() >= 2);
                    assert(groups@[groups.len() - 1].fingerprint == table@[t].fingerprint);
                }
            }
        }
        k += 1;
    }
    proof {
        assert forall|fingerprint: u64| #[trigger]
            positions(marks@, fingerprint).len() >= 2 implies has_group(
            groups@,
            fingerprint,
        ) by {
            assert(has_group(table@, fingerprint));
            let t = choose|t: int|
                0 <= t < table.len() && (#[trigger] table@[t]).fingerprint == fingerprint;
        }
    }
    groups
}

} // verus!
