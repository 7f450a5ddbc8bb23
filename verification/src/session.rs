//! The order of a run.
//!
//! A run alternates between work on the file system, which the caller does,
//! and decisions, which are made here. The caller starts with
//! `Run::begin`, looks at the target, and from then on answers each request
//! with the event that reports its outcome until the run is over.
//!
//! The archive subdirectory is created before the directory is listed for
//! the archival pass, and that listing is taken anew: the listing of the
//! duplicate pass is stale once duplicates have been deleted.

use crate::archive::cutoff;
use crate::archive::cutoff_of;
use crate::archive::has_cutoff;
use crate::archive::lemma_moved_count;
use crate::archive::move_steps;
use crate::archive::plan_archive;
use crate::archive::plan_moves;
use crate::archive::ArchiveEntry;
use crate::archive::Timestamp;
use crate::duplicates::group_duplicates;
use crate::duplicates::groups_of;
use crate::duplicates::DuplicateGroup;
use crate::plan::count_changes;
use crate::plan::lemma_dry_run_removes_nothing;
use crate::plan::plan_removals;
use crate::plan::removal_steps;
use crate::plan::tally;
use crate::plan::Change;
use crate::plan::Step;
use crate::plan::Summary;
use vstd::prelude::*;

verus! {

/// Where a run stands.
#[derive(Clone, Copy, Debug, PartialEq, Eq, Structural)]
pub enum Phase {
    /// The caller is looking at the target path.
    Start,
    /// The caller is listing the directory and marking its entries.
    Scanning,
    /// The caller is carrying out the steps of the duplicate pass.
    Removing,
    /// The caller is reading the clock and looking for the archive.
    Probing,
    /// The caller is carrying out the step that creates the archive.
    Creating,
    /// The caller is listing the directory for the archival pass.
    Listing,
    /// The caller is carrying out the steps of the archival pass.
    Moving,
    /// The run has ended.
    Over,
}

/// What the caller reports back.
#[derive(Debug)]
pub enum Event {
    /// Whether the target path exists, and whether it is a directory.
    Target { exists: bool, is_dir: bool },
    /// The marks of the directory's entries, in listing order.
    Scanned { marks: Vec<Option<u64>> },
    /// Every step of the last request was reported and carried out.
    Carried,
    /// The current time, and whether the archive subdirectory exists.
    Probed { now: Timestamp, archive_exists: bool },
    /// The directory's entries, in listing order.
    Listed { entries: Vec<ArchiveEntry> },
    /// An operation on the file system failed.
    Failed,
}

/// What the caller is to do next.
#[derive(Debug, PartialEq, Eq)]
pub enum Request {
    /// List the directory and mark each entry; answer with `Scanned`.
    Scan,
    /// Report and carry out these steps in order, stopping at the first
    /// failure; answer with `Carried`, or with `Failed`.
    Carry(Vec<Step>),
    /// Read the clock and look for the archive; answer with `Probed`.
    Probe,
    /// List the directory with modification times; answer with `Listed`.
    List,
    /// The run is complete; report the summary.
    Finish(Summary),
    /// The target is missing or no directory: say so. Nothing was changed,
    /// and this is no failure.
    Reject,
    /// The run has failed, or an event came out of turn. No summary is
    /// given, and what was done stays done.
    Abort,
}

impl Event {
    /// The timestamps that the event carries are well formed, and the
    /// cutoff for the time it reports can be represented.
    pub open spec fn well_formed(self) -> bool {
        match self {
            Event::Probed { now, .. } => now.well_formed() && has_cutoff(now),
            Event::Listed { entries } => forall|i: int|
                0 <= i < entries@.len() ==> (#[trigger] entries@[i]).well_formed(),
            _ => true,
        }
    }
}

/// The state of a run.
#[derive(Clone, Copy, Debug)]
pub struct Run {
    /// Whether the run only reports and changes nothing.
    pub dry_run: bool,
    /// Where the run stands.
    pub phase: Phase,
    /// The cutoff of the archival pass, once the clock has been read.
    pub limit: Option<Timestamp>,
    /// What the passes planned so far will have deleted and moved.
    pub summary: Summary,
}

/// The steps are those of the duplicate pass for a listing with these
/// marks: the steps of its duplicate groups.
pub open spec fn plans_removals(marks: Seq<Option<u64>>, dry_run: bool, steps: Seq<Step>) -> bool {
    exists|groups: Seq<DuplicateGroup>| #[trigger]
        groups_of(marks, groups) && steps == removal_steps(groups, dry_run)
}

impl Run {
    /// Once the clock has been read the cutoff is known, and it is well formed.
    pub open spec fn well_formed(self) -> bool {
        &&& self.limit matches Some(t) ==> t.well_formed()
        &&& (self.phase == Phase::Creating || self.phase == Phase::Listing)
            ==> self.limit is Some
    }

    /// This state at another phase.
    pub open spec fn at(self, phase: Phase) -> Run {
        Run { dry_run: self.dry_run, phase, limit: self.limit, summary: self.summary }
    }

    /// The transition relation: a run in state `self` that receives `event`
    /// goes to state `after` and answers with `request`.
    pub open spec fn follows(self, event: Event, after: Run, request: Request) -> bool {
        match (self.phase, event) {
            (Phase::Start, Event::Target { exists, is_dir }) => if exists && is_dir {
                after == self.at(Phase::Scanning) && request is Scan
            } else {
                after == self.at(Phase::Over) && request is Reject
            },
            (Phase::Scanning, Event::Scanned { marks }) => {
                &&& request matches Request::Carry(steps)
                &&& plans_removals(marks@, self.dry_run, steps@)
                &&& after.dry_run == self.dry_run
                &&& after.phase == Phase::Removing
                &&& after.limit == self.limit
                &&& after.summary.deleted == count_changes(steps@, Change::Removal)
                &&& after.summary.moved == self.summary.moved
            },
            (Phase::Removing, Event::Carried) => {
                after == self.at(Phase::Probing) && request is Probe
            },
            (Phase::Probing, Event::Probed { now, archive_exists }) => {
                &&& after.dry_run == self.dry_run
                &&& after.limit == Some(cutoff_of(now))
                &&& after.summary == self.summary
                &&& if archive_exists {
                    after.phase == Phase::Listing && request is List
                } else {
                    &&& after.phase == Phase::Creating
                    &&& request matches Request::Carry(steps)
                    &&& steps@ == seq![Step::CreateArchive { perform: !self.dry_run }]
                }
            },
            (Phase::Creating, Event::Carried) => {
                after == self.at(Phase::Listing) && request is List
            },
            (Phase::Listing, Event::Listed { entries }) => {
                &&& request matches Request::Carry(steps)
                &&& self.limit matches Some(limit)
                &&& steps@ == move_steps(entries@, limit, self.dry_run)
                &&& after.dry_run == self.dry_run
                &&& after.phase == Phase::Moving
                &&& after.limit == self.limit
                &&& after.summary.deleted == self.summary.deleted
                &&& after.summary.moved == count_changes(steps@, Change::Move)
            },
            (Phase::Moving, Event::Carried) => {
                &&& after == self.at(Phase::Over)
                &&& request matches Request::Finish(summary)
                &&& summary == self.summary
            },
            _ => after == self.at(Phase::Over) && request is Abort,
        }
    }

    /// Starts a run. The caller looks at the target path and answers with
    /// `Event::Target`.
    pub fn begin(dry_run: bool) -> (run: Run)
        ensures
            run == (Run {
                dry_run,
                phase: Phase::Start,
                limit: None,
                summary: Summary { deleted: 0, moved: 0 },
            }),
            run.well_formed(),
    {
        Run { dry_run, phase: Phase::Start, limit: None, summary: Summary { deleted: 0, moved: 0 } }
    }

    /// Whether the run has ended.
    pub fn is_over(&self) -> (over: bool)
        ensures
            over == (self.phase == Phase::Over),
    {
        match self.phase {
            Phase::Over => true,
            _ => false,
        }
    }

    /// Ends the run without a summary.
    fn abort(&mut self) -> (request: Request)
        ensures
            *final(self) == old(self).at(Phase::Over),
            request is Abort,
    {
        self.phase = Phase::Over;
        Request::Abort
    }

    /// Takes the outcome of the last request and says what to do next.
    ///
    /// A failure ends the run at once, whatever the phase, and so does an
    /// event that the phase does not expect.
    pub fn advance(&mut self, event: Event) -> (request: Request)
        requires
            old(self).well_formed(),
            event.well_formed(),
        ensures
            old(self).follows(event, *final(self), request),
            final(self).well_formed(),
    {
        let phase = self.phase;
        match (phase, event) {
            (Phase::Start, Event::Target { exists, is_dir }) => {
                if exists && is_dir {
                    self.phase = Phase::Scanning;
                    Request::Scan
                } else {
                    self.phase = Phase::Over;
                    Request::Reject
                }
            },
            (Phase::Scanning, Event::Scanned { marks }) => {
                let groups = group_duplicates(&marks);
                let steps = plan_removals(&groups, self.dry_run);
                let counted = tally(&steps);
                self.phase = Phase::Removing;
                self.summary = Summary { deleted: counted.deleted, moved: self.summary.moved };
                proof {
                    assert(groups_of(marks@, groups@));
                }
                Request::Carry(steps)
            },
            (Phase::Removing, Event::Carried) => {
                self.phase = Phase::Probing;
                Request::Probe
            },
            (Phase::Probing, Event::Probed { now, archive_exists }) => {
                self.limit = Some(cutoff(now));
                match plan_archive(archive_exists, self.dry_run) {
                    Some(step) => {
                        self.phase = Phase::Creating;
                        let mut steps: Vec<Step> = Vec::new();
                        steps.push(step);
                        proof {
                            assert(steps@ =~= seq![Step::CreateArchive { perform: !self.dry_run }]);
                        }
                        Request::Carry(steps)
                    },
                    None => {
                        self.phase = Phase::Listing;
                        Request::List
                    },
                }
            },
            (Phase::Creating, Event::Carried) => {
                self.phase = Phase::Listing;
                Request::List
            },
            (Phase::Listing, Event::Listed { entries }) => {
                match self.limit {
                    Some(limit) => {
                        let steps = plan_moves(&entries, limit, self.dry_run);
                        let counted = tally(&steps);
                        self.phase = Phase::Moving;
                        self.summary = Summary {
                            deleted: self.summary.deleted,
                            moved: counted.moved,
                        };
                        Request::Carry(steps)
                    },
                    None => self.abort(),
                }
            },
            (Phase::Moving, Event::Carried) => {
                self.phase = Phase::Over;
                Request::Finish(self.summary)
            },
            _ => self.abort(),
        }
    }
}

/// A dry run changes nothing on the file system: whatever the state and
/// the event, no step that a dry run hands out makes a change, and the
/// counts of the summary that come from those steps are zero.
pub proof fn lemma_dry_run_changes_nothing(before: Run, event: Event, after: Run, request: Request)
    requires
        before.dry_run,
        before.follows(event, after, request),
    ensures
        after.dry_run,
        request matches Request::Carry(steps) ==> {
            &&& forall|k: int| 0 <= k < steps@.len() ==> (#[trigger] steps@[k]).change() is None
            &&& before.phase == Phase::Scanning ==> after.summary.deleted == 0
            &&& before.phase == Phase::Listing ==> after.summary.moved == 0
        },
{
    match (before.phase, event) {
        (Phase::Scanning, Event::Scanned { marks }) => {
            if let Request::Carry(steps) = request {
                let groups = choose|groups: Seq<DuplicateGroup>| #[trigger]
                    groups_of(marks@, groups) && steps@ == removal_steps(groups, true);
                lemma_dry_run_removes_nothing(groups);
            }
        },
        (Phase::Listing, Event::Listed { entries }) => {
            lemma_moved_count(entries@, before.limit.unwrap(), true);
        },
        _ => {},
    }
}

/// A target that is missing or no directory ends the run at once: the
/// answer is the informational rejection, which carries no step, and every
/// later event is answered by `Abort`, which carries none either.
pub proof fn lemma_rejected_target_changes_nothing(
    run: Run,
    exists: bool,
    is_dir: bool,
    after: Run,
    request: Request,
    later: Event,
    last: Run,
    answer: Request,
)
    requires
        run.phase == Phase::Start,
        !(exists && is_dir),
        run.follows(Event::Target { exists, is_dir }, after, request),
        after.follows(later, last, answer),
    ensures
        request is Reject,
        after == run.at(Phase::Over),
        answer is Abort,
        last == after,
{
}

/// The directory is listed for the archival pass only once the archive
/// subdirectory has been seen to exist or the step that creates it has been
/// carried out.
pub proof fn lemma_archive_comes_before_listing(
    before: Run,
    event: Event,
    after: Run,
    request: Request,
)
    requires
        before.follows(event, after, request),
        request is List,
    ensures
        after.phase == Phase::Listing,
        (before.phase == Phase::Probing && event matches Event::Probed {
            archive_exists: true,
            ..
        }) || (before.phase == Phase::Creating && event is Carried),
{
}

/// A failure ends the run at once and without a summary, whatever the phase.
pub proof fn lemma_failure_gives_no_summary(before: Run, after: Run, request: Request)
    requires
        before.follows(Event::Failed, after, request),
    ensures
        request is Abort,
        after == before.at(Phase::Over),
{
}

/// A summary is handed out only when the steps of the archival pass have
/// all been carried out, and it holds the counts taken from the steps of
/// the two passes.
pub proof fn lemma_summary_comes_last(before: Run, event: Event, after: Run, request: Request)
    requires
        before.follows(event, after, request),
        request is Finish,
    ensures
        before.phase == Phase::Moving,
        event is Carried,
        request == Request::Finish(before.summary),
        after.phase == Phase::Over,
{
}

} // verus!
