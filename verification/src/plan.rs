//! Steps: what a pass tells its caller to report and to do, and the tally
//! of what was done.

use crate::duplicates::DuplicateGroup;
use vstd::prelude::*;

verus! {

/// A change to the file system.
#[derive(Clone, Copy, Debug, PartialEq, Eq, Structural)]
pub enum Change {
    /// A duplicate file is deleted.
    Removal,
    /// The archive subdirectory is created.
    Creation,
    /// A file is moved into the archive subdirectory.
    Move,
}

/// One step of a pass. The caller reports every step and carries out those
/// whose `perform` flag is set. Entries are named by their index in the
/// listing that the pass was planned from.
#[derive(Clone, Copy, Debug, PartialEq, Eq, Structural)]
pub enum Step {
    /// A group of duplicates with this fingerprint follows.
    FoundDuplicates { fingerprint: u64 },
    /// This entry is the original of the group and stays.
    KeepOriginal { entry: usize },
    /// This entry is a duplicate; it is deleted if `perform` is set.
    DeleteDuplicate { entry: usize, perform: bool },
    /// The archive subdirectory is missing; it is created if `perform` is set.
    CreateArchive { perform: bool },
    /// This entry is old; it is moved into the archive if `perform` is set.
    MoveToArchive { entry: usize, perform: bool },
}

impl Step {
    /// The change that carrying out this step makes to the file system, if any.
    pub open spec fn change(self) -> Option<Change> {
        match self {
            Step::DeleteDuplicate { perform: true, .. } => Some(Change::Removal),
            Step::CreateArchive { perform: true } => Some(Change::Creation),
            Step::MoveToArchive { perform: true, .. } => Some(Change::Move),
            _ => None,
        }
    }

    /// The change that carrying out this step makes to the file system, if any.
    pub fn effect(&self) -> (change: Option<Change>)
        ensures
            change == self.change(),
    {
        match self {
            Step::DeleteDuplicate { perform, .. } => if *perform {
                Some(Change::Removal)
            } else {
                None
            },
            Step::CreateArchive { perform } => if *perform {
                Some(Change::Creation)
            } else {
                None
            },
            Step::MoveToArchive { perform, .. } => if *perform {
                Some(Change::Move)
            } else {
                None
            },
            _ => None,
        }
    }
}

/// How many steps of `steps` make the given change.
pub open spec fn count_changes(steps: Seq<Step>, change: Change) -> nat
    decreases steps.len(),
{
    if steps.len() == 0 {
        0
    } else {
        let earlier = count_changes(steps.drop_last(), change);
        if steps.last().change() == Some(change) {
            earlier + 1
        } else {
            earlier
        }
    }
}

/// The steps for one group: its announcement, its original, and one
/// deletion for each duplicate, carried out unless this is a dry run.
pub open spec fn group_steps(group: DuplicateGroup, dry_run: bool) -> Seq<Step> {
    seq![
        Step::FoundDuplicates { fingerprint: group.fingerprint },
        Step::KeepOriginal { entry: group.original },
    ] + group.duplicates@.map_values(
        |entry: usize| Step::DeleteDuplicate { entry, perform: !dry_run },
    )
}

/// The steps of the duplicate pass: those of each group, group after group.
pub open spec fn removal_steps(groups: Seq<DuplicateGroup>, dry_run: bool) -> Seq<Step>
    decreases groups.len(),
{
    if groups.len() == 0 {
        Seq::empty()
    } else {
        removal_steps(groups.drop_last(), dry_run) + group_steps(groups.last(), dry_run)
    }
}

/// The number of duplicates in all groups together.
pub open spec fn total_duplicates(groups: Seq<DuplicateGroup>) -> nat
    decreases groups.len(),
{
    if groups.len() == 0 {
        0
    } else {
        total_duplicates(groups.drop_last()) + groups.last().duplicates@.len()
    }
}

/// Lays out the duplicate pass as steps.
pub fn plan_removals(groups: &Vec<DuplicateGroup>, dry_run: bool) -> (steps: Vec<Step>)
    ensures
        steps@ == removal_steps(groups@, dry_run),
{
    let mut steps: Vec<Step> = Vec::new();
    let mut g: usize = 0;
    while g < groups.len()
        invariant
            g <= groups.len(),
            steps@ == removal_steps(groups@.take(g as int), dry_run),
        decreases groups.len() - g,
    {
        let group = &groups[g];
        let ghost done = steps@;
        steps.push(Step::FoundDuplicates { fingerprint: group.fingerprint });
        steps.push(Step::KeepOriginal { entry: group.original });
        let mut d: usize = 0;
        while d < group.duplicates.len()
            invariant
                d <= group.duplicates.len(),
                steps@ == done + group_steps(*group, dry_run).take(2 + d),
            decreases group.duplicates.len() - d,
        {
            steps.push(Step::DeleteDuplicate { entry: group.duplicates[d], perform: !dry_run });
            d += 1;
        }
        proof {
            assert(group_steps(*group, dry_run).take(2 + d) =~= group_steps(*group, dry_run));
            assert(groups@.take(g + 1).drop_last() =~= groups@.take(g as int));
        }
        g += 1;
    }
    proof {
        assert(groups@.take(groups.len() as int) =~= groups@);
    }
    steps
}

/// The counts that a run reports when it is over.
#[derive(Clone, Copy, Debug, PartialEq, Eq, Structural)]
pub struct Summary {
    /// The number of duplicate files that were deleted.
    pub deleted: usize,
    /// The number of old files that were moved into the archive.
    pub moved: usize,
}

/// Counts the deletions and moves that `steps` carry out.
pub fn tally(steps: &Vec<Step>) -> (summary: Summary)
    ensures
        summary.deleted == count_changes(steps@, Change::Removal),
        summary.moved == count_changes(steps@, Change::Move),
{
    let mut deleted: usize = 0;
    let mut moved: usize = 0;
    let mut i: usize = 0;
    while i < steps.len()
        invariant
            i <= steps.len(),
            deleted == count_changes(steps@.take(i as int), Change::Removal),
            moved == count_changes(steps@.take(i as int), Change::Move),
            deleted <= i,
            moved <= i,
        decreases steps.len() - i,
    {
        proof {
            assert(steps@.take(i + 1).drop_last() =~= steps@.take(i as int));
        }
        match steps[i].effect() {
            Some(Change::Removal) => {
                deleted += 1;
            },
            Some(Change::Move) => {
                moved += 1;
            },
            _ => {},
        }
        i += 1;
    }
    proof {
        assert(steps@.take(steps.len() as int) =~= steps@);
    }
    Summary { deleted, moved }
}

/// Counting the changes of two runs of steps, one after the other, gives
/// the sum of their counts.
pub proof fn lemma_count_changes_concat(first: Seq<Step>, second: Seq<Step>, change: Change)
    ensures
        count_changes(first + second, change) == count_changes(first, change) + count_changes(
            second,
            change,
        ),
    decreases second.len(),
{
    if second.len() == 0 {
        assert(first + second =~= first);
    } else {
        assert((first + second).drop_last() =~= first + second.drop_last());
        lemma_count_changes_concat(first, second.drop_last(), change);
    }
}

/// A dry run changes nothing: no step of its duplicate pass makes a change
/// to the file system, and so none is counted.
pub proof fn lemma_dry_run_removes_nothing(groups: Seq<DuplicateGroup>)
    ensures
        forall|k: int|
            0 <= k < removal_steps(groups, true).len() ==> (#[trigger] removal_steps(
                groups,
                true,
            )[k]).change() is None,
        forall|change: Change| #[trigger] count_changes(removal_steps(groups, true), change) == 0,
    decreases groups.len(),
{
    if groups.len() > 0 {
        lemma_dry_run_removes_nothing(groups.drop_last());
        let last = group_steps(groups.last(), true);
        assert forall|change: Change| #[trigger]
            count_changes(removal_steps(groups, true), change) == 0 by {
            lemma_count_changes_concat(removal_steps(groups.drop_last(), true), last, change);
            lemma_unchanging_steps_count(last, change);
        }
    }
}

/// Steps that make no change are not counted.
pub proof fn lemma_unchanging_steps_count(steps: Seq<Step>, change: Change)
    requires
        forall|k: int| 0 <= k < steps.len() ==> (#[trigger] steps[k]).change() is None,
    ensures
        count_changes(steps, change) == 0,
    decreases steps.len(),
{
    if steps.len() > 0 {
        lemma_unchanging_steps_count(steps.drop_last(), change);
    }
}

/// A real run deletes all members of every group but its original: the
/// number of deletions is the number of duplicates, and nothing is moved or
/// created by the duplicate pass.
pub proof fn lemma_real_run_removes_duplicates(groups: Seq<DuplicateGroup>)
    ensures
        count_changes(removal_steps(groups, false), Change::Removal) == total_duplicates(groups),
        count_changes(removal_steps(groups, false), Change::Move) == 0,
        count_changes(removal_steps(groups, false), Change::Creation) == 0,
    decreases groups.len(),
{
    if groups.len() > 0 {
        let earlier = removal_steps(groups.drop_last(), false);
        let last = group_steps(groups.last(), false);
        lemma_real_run_removes_duplicates(groups.drop_last());
        lemma_count_changes_concat(earlier, last, Change::Removal);
        lemma_count_changes_concat(earlier, last, Change::Move);
        lemma_count_changes_concat(earlier, last, Change::Creation);
        lemma_group_steps_count(groups.last(), last.len() as int);
        assert(last.take(last.len() as int) =~= last);
    }
}

/// Among the first `upto` steps of a group in a real run, every step after
/// the first two is a deletion, and no step is anything else.
proof fn lemma_group_steps_count(group: DuplicateGroup, upto: int)
    requires
        2 <= upto <= group_steps(group, false).len(),
    ensures
        count_changes(group_steps(group, false).take(upto), Change::Removal) == upto - 2,
        count_changes(group_steps(group, false).take(upto), Change::Move) == 0,
        count_changes(group_steps(group, false).take(upto), Change::Creation) == 0,
    decreases upto,
{
    let steps = group_steps(group, false);
    let prefix = steps.take(upto);
    if upto == 2 {
        assert(prefix.drop_last().drop_last().len() == 0);
        assert(prefix.drop_last().last().change() is None);
        assert(prefix.last().change() is None);
        assert(count_changes(prefix.drop_last().drop_last(), Change::Removal) == 0);
        assert(count_changes(prefix.drop_last(), Change::Removal) == 0);
        assert(count_changes(prefix.drop_last().drop_last(), Change::Move) == 0);
        assert(count_changes(prefix.drop_last(), Change::Move) == 0);
        assert(count_changes(prefix.drop_last().drop_last(), Change::Creation) == 0);
        assert(count_changes(prefix.drop_last(), Change::Creation) == 0);
    } else {
        lemma_group_steps_count(group, upto - 1);
        assert(prefix.drop_last() =~= steps.take(upto - 1));
        assert(prefix.last() == steps[upto - 1]);
        assert(prefix.last().change() == Some(Change::Removal));
    }
}

} // verus!
