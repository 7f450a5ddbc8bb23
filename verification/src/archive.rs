//! The archival pass: finding the files that were last modified more than a
//! fixed-length year ago.

use crate::plan::Change;
use crate::plan::Step;
use crate::plan::count_changes;
use vstd::prelude::*;

verus! {

/// The length of the year that the cutoff lies back: 365 days of 24 hours,
/// in seconds. No calendar or leap-year adjustment is made.
pub const YEAR_SECONDS: i64 = 31_536_000;

/// The name of the archive subdirectory under the target directory.
pub fn archive_name() -> (name: &'static str)
    ensures
        name@ == "old_files"@,
{
    "old_files"
}

/// A point in time: whole seconds since the Unix epoch, negative before it,
/// and the nanoseconds past that second.
#[derive(Clone, Copy, Debug, PartialEq, Eq, Structural)]
pub struct Timestamp {
    pub secs: i64,
    pub nanos: u32,
}

impl Timestamp {
    /// The nanoseconds are less than one second.
    pub open spec fn well_formed(self) -> bool {
        self.nanos < 1_000_000_000
    }

    /// The point in time as nanoseconds since the Unix epoch.
    pub open spec fn instant(self) -> int {
        self.secs * 1_000_000_000 + self.nanos
    }

    /// Makes a timestamp, unless `nanos` is a second or more.
    pub fn new(secs: i64, nanos: u32) -> (made: Option<Timestamp>)
        ensures
            made == if nanos < 1_000_000_000 {
                Some(Timestamp { secs, nanos })
            } else {
                None
            },
            made matches Some(t) ==> t.well_formed(),
    {
        if nanos < 1_000_000_000 {
            Some(Timestamp { secs, nanos })
        } else {
            None
        }
    }

    /// The point in time that lies `secs` seconds and `nanos` nanoseconds
    /// after the Unix epoch, where `nanos` is less than a second and the
    /// seconds can be represented.
    pub fn after_epoch(secs: u64, nanos: u32) -> (made: Option<Timestamp>)
        ensures
            made is Some <==> nanos < 1_000_000_000 && secs <= i64::MAX,
            made matches Some(t) ==> t.well_formed() && t.instant() == secs * 1_000_000_000
                + nanos,
    {
        if nanos < 1_000_000_000 && secs <= i64::MAX as u64 {
            Some(Timestamp { secs: secs as i64, nanos })
        } else {
            None
        }
    }

    /// The point in time that lies `secs` seconds and `nanos` nanoseconds
    /// before the Unix epoch, where `nanos` is less than a second and the
    /// seconds can be represented.
    pub fn before_epoch(secs: u64, nanos: u32) -> (made: Option<Timestamp>)
        ensures
            made is Some <==> nanos < 1_000_000_000 && secs * 1_000_000_000 + nanos
                <= 0x8000_0000_0000_0000 * 1_000_000_000,
            made matches Some(t) ==> t.well_formed() && t.instant() == -(secs * 1_000_000_000
                + nanos),
    {
        if nanos >= 1_000_000_000 {
            None
        } else if nanos == 0 {
            if secs <= i64::MAX as u64 {
                Some(Timestamp { secs: -(secs as i64), nanos: 0 })
            } else if secs == 0x8000_0000_0000_0000 {
                Some(Timestamp { secs: i64::MIN, nanos: 0 })
            } else {
                None
            }
        } else if secs <= i64::MAX as u64 {
            Some(Timestamp { secs: -(secs as i64) - 1, nanos: 1_000_000_000 - nanos })
        } else {
            None
        }
    }

    /// Whether this point in time lies strictly before `other`.
    pub fn is_before(&self, other: &Timestamp) -> (before: bool)
        requires
            self.well_formed(),
            other.well_formed(),
        ensures
            before == (self.instant() < other.instant()),
    {
        self.secs < other.secs || (self.secs == other.secs && self.nanos < other.nanos)
    }
}

/// The cutoff for a run at `now`: one fixed-length year earlier.
pub open spec fn cutoff_of(now: Timestamp) -> Timestamp {
    Timestamp { secs: (now.secs - YEAR_SECONDS) as i64, nanos: now.nanos }
}

/// Whether the cutoff for a run at `now` can be represented.
pub open spec fn has_cutoff(now: Timestamp) -> bool {
    now.secs - YEAR_SECONDS >= i64::MIN
}

/// Computes the cutoff for a run at `now`. Files last modified strictly
/// before it are old.
pub fn cutoff(now: Timestamp) -> (limit: Timestamp)
    requires
        now.well_formed(),
        has_cutoff(now),
    ensures
        limit == cutoff_of(now),
        limit.well_formed(),
        limit.instant() == now.instant() - YEAR_SECONDS * 1_000_000_000,
{
    Timestamp { secs: now.secs - YEAR_SECONDS, nanos: now.nanos }
}

/// Computes the cutoff for a run at `now` where it can be represented.
pub fn checked_cutoff(now: Timestamp) -> (limit: Option<Timestamp>)
    requires
        now.well_formed(),
    ensures
        limit == if has_cutoff(now) {
            Some(cutoff_of(now))
        } else {
            None
        },
{
    if now.secs >= i64::MIN + YEAR_SECONDS {
        Some(cutoff(now))
    } else {
        None
    }
}

/// What the archival pass knows of one directory entry.
#[derive(Clone, Copy, Debug, PartialEq, Eq, Structural)]
pub struct ArchiveEntry {
    /// Whether the entry is a regular file.
    pub is_file: bool,
    /// When the file was last modified; `None` where that cannot be read.
    pub modified: Option<Timestamp>,
}

impl ArchiveEntry {
    /// A modification time, where there is one, is well formed.
    pub open spec fn well_formed(self) -> bool {
        self.modified matches Some(t) ==> t.well_formed()
    }

    /// The entry is a regular file that was last modified strictly before
    /// `limit`. An entry whose modification time cannot be read is not old.
    pub open spec fn is_old(self, limit: Timestamp) -> bool {
        self.is_file && (self.modified matches Some(t) && t.instant() < limit.instant())
    }

    /// Whether the entry is to be archived under the cutoff `limit`.
    pub fn old_at(&self, limit: &Timestamp) -> (old: bool)
        requires
            self.well_formed(),
            limit.well_formed(),
        ensures
            old == self.is_old(*limit),
    {
        match &self.modified {
            Some(t) => self.is_file && t.is_before(limit),
            None => false,
        }
    }
}

/// The indices of the old entries of a listing, in listing order.
pub open spec fn old_positions(entries: Seq<ArchiveEntry>, limit: Timestamp) -> Seq<usize>
    decreases entries.len(),
{
    if entries.len() == 0 {
        Seq::empty()
    } else {
        let earlier = old_positions(entries.drop_last(), limit);
        if entries.last().is_old(limit) {
            earlier.push((entries.len() - 1) as usize)
        } else {
            earlier
        }
    }
}

/// The steps that move the old entries of a listing: one for each, in
/// listing order, carried out unless this is a dry run.
pub open spec fn move_steps(entries: Seq<ArchiveEntry>, limit: Timestamp, dry_run: bool) -> Seq<
    Step,
> {
    old_positions(entries, limit).map_values(
        |entry: usize| Step::MoveToArchive { entry, perform: !dry_run },
    )
}

/// Says what to do about the archive subdirectory before the directory is
/// listed for the archival pass: nothing where it exists, and else one step
/// that creates it, carried out unless this is a dry run.
pub fn plan_archive(archive_exists: bool, dry_run: bool) -> (step: Option<Step>)
    ensures
        step == if archive_exists {
            None
        } else {
            Some(Step::CreateArchive { perform: !dry_run })
        },
        dry_run ==> (step matches Some(s) ==> s.change() is None),
{
    if archive_exists {
        None
    } else {
        Some(Step::CreateArchive { perform: !dry_run })
    }
}

/// Lays out the moves of the archival pass as steps.
///
/// `entries` is a listing of the directory taken after `plan_archive`'s step
/// was carried out. The archive subdirectory may be among them: it is no
/// regular file and so never old.
pub fn plan_moves(entries: &Vec<ArchiveEntry>, limit: Timestamp, dry_run: bool) -> (steps: Vec<
    Step,
>)
    requires
        limit.well_formed(),
        forall|i: int| 0 <= i < entries.len() ==> (#[trigger] entries@[i]).well_formed(),
    ensures
        steps@ == move_steps(entries@, limit, dry_run),
{
    let mut steps: Vec<Step> = Vec::new();
    let mut i: usize = 0;
    while i < entries.len()
        invariant
            i <= entries.len(),
            limit.well_formed(),
            forall|k: int| 0 <= k < entries.len() ==> (#[trigger] entries@[k]).well_formed(),
            steps@ == move_steps(entries@.take(i as int), limit, dry_run),
        decreases entries.len() - i,
    {
        proof {
            assert(entries@.take(i + 1).drop_last() =~= entries@.take(i as int));
        }
        if entries[i].old_at(&limit) {
            steps.push(Step::MoveToArchive { entry: i, perform: !dry_run });
            proof {
                assert(steps@ =~= move_steps(entries@.take(i + 1), limit, dry_run));
            }
        }
        i += 1;
    }
    proof {
        assert(entries@.take(entries.len() as int) =~= entries@);
    }
    steps
}

/// The listing that a real run leaves at the top level: the entries that
/// were not old, in their order. The old ones are in the archive.
pub open spec fn remaining(entries: Seq<ArchiveEntry>, limit: Timestamp) -> Seq<ArchiveEntry>
    decreases entries.len(),
{
    if entries.len() == 0 {
        Seq::empty()
    } else {
        let earlier = remaining(entries.drop_last(), limit);
        if entries.last().is_old(limit) {
            earlier
        } else {
            earlier.push(entries.last())
        }
    }
}

/// A file last modified exactly at the cutoff is not old; a file last
/// modified one second before the cutoff is.
pub proof fn lemma_cutoff_boundary(now: Timestamp)
    requires
        now.well_formed(),
        now.secs - YEAR_SECONDS - 1 >= i64::MIN,
    ensures
        !(ArchiveEntry { is_file: true, modified: Some(cutoff_of(now)) }).is_old(cutoff_of(now)),
        (ArchiveEntry {
            is_file: true,
            modified: Some(
                Timestamp { secs: (cutoff_of(now).secs - 1) as i64, nanos: cutoff_of(now).nanos },
            ),
        }).is_old(cutoff_of(now)),
{
}

/// The order of timestamps is that of their instants: earlier seconds come
/// first, and within one second, earlier nanoseconds.
pub proof fn lemma_instant_order(a: Timestamp, b: Timestamp)
    requires
        a.well_formed(),
        b.well_formed(),
    ensures
        a.instant() < b.instant() <==> (a.secs < b.secs || (a.secs == b.secs && a.nanos < b.nanos)),
        a.instant() == b.instant() <==> a == b,
{
}

/// Archival is idempotent: once a real run has moved the old entries away,
/// a second run with the same cutoff finds none and moves nothing.
pub proof fn lemma_second_run_moves_nothing(
    entries: Seq<ArchiveEntry>,
    limit: Timestamp,
    dry_run: bool,
)
    ensures
        old_positions(remaining(entries, limit), limit).len() == 0,
        move_steps(remaining(entries, limit), limit, dry_run).len() == 0,
        count_changes(move_steps(remaining(entries, limit), limit, dry_run), Change::Move) == 0,
    decreases entries.len(),
{
    if entries.len() > 0 {
        lemma_second_run_moves_nothing(entries.drop_last(), limit, dry_run);
        if !entries.last().is_old(limit) {
            let earlier = remaining(entries.drop_last(), limit);
            assert(earlier.push(entries.last()).drop_last() =~= earlier);
        }
    }
}

/// A real run moves every old entry, and a dry run moves none.
pub proof fn lemma_moved_count(entries: Seq<ArchiveEntry>, limit: Timestamp, dry_run: bool)
    ensures
        move_steps(entries, limit, dry_run).len() == old_positions(entries, limit).len(),
        count_changes(move_steps(entries, limit, dry_run), Change::Move) == if dry_run {
            0
        } else {
            old_positions(entries, limit).len()
        },
        count_changes(move_steps(entries, limit, dry_run), Change::Removal) == 0,
        dry_run ==> forall|k: int|
            0 <= k < move_steps(entries, limit, dry_run).len() ==> (#[trigger] move_steps(
                entries,
                limit,
                dry_run,
            )[k]).change() is None,
{
    let steps = move_steps(entries, limit, dry_run);
    lemma_moves_count(steps, dry_run);
}

/// Counts the changes of a run of move steps that share their `perform` flag.
proof fn lemma_moves_count(steps: Seq<Step>, dry_run: bool)
    requires
        forall|k: int|
            0 <= k < steps.len() ==> ((#[trigger] steps[k]) matches Step::MoveToArchive {
                perform,
                ..
            } && perform == !dry_run),
    ensures
        count_changes(steps, Change::Move) == if dry_run {
            0
        } else {
            steps.len()
        },
        count_changes(steps, Change::Removal) == 0,
    decreases steps.len(),
{
    if steps.len() > 0 {
        lemma_moves_count(steps.drop_last(), dry_run);
        assert(steps.last() == steps[steps.len() - 1]);
    }
}

} // verus!
