use file_organizer::archive::{ArchiveEntry, Timestamp};
use file_organizer::fingerprint::mark_entry;
use file_organizer::plan::{Step, Summary};
use file_organizer::session::{Event, Phase, Request, Run};

fn at(secs: i64) -> Timestamp {
    Timestamp::new(secs, 0).unwrap()
}

fn file(secs: i64) -> ArchiveEntry {
    ArchiveEntry { is_file: true, modified: Some(at(secs)) }
}

const NOW: i64 = 1_700_000_000;
const YEAR: i64 = 31_536_000;

#[test]
fn a_run_begins_at_the_start() {
    let run = Run::begin(true);
    assert!(run.dry_run);
    assert_eq!(run.phase, Phase::Start);
    assert_eq!(run.limit, None);
    assert_eq!(run.summary, Summary { deleted: 0, moved: 0 });
    assert!(!run.is_over());
    assert!(!Run::begin(false).dry_run);
}

#[test]
fn a_full_run_goes_through_both_passes() {
    let mut run = Run::begin(false);
    assert_eq!(run.advance(Event::Target { exists: true, is_dir: true }), Request::Scan);
    assert_eq!(run.phase, Phase::Scanning);

    let marks = vec![
        mark_entry(true, 5, b"alpha"),
        mark_entry(true, 5, b"alpha"),
        mark_entry(true, 5, b"gamma"),
    ];
    let fp = marks[0].unwrap();
    assert_eq!(
        run.advance(Event::Scanned { marks }),
        Request::Carry(vec![
            Step::FoundDuplicates { fingerprint: fp },
            Step::KeepOriginal { entry: 0 },
            Step::DeleteDuplicate { entry: 1, perform: true },
        ])
    );
    assert_eq!(run.phase, Phase::Removing);
    assert_eq!(run.summary, Summary { deleted: 1, moved: 0 });

    assert_eq!(run.advance(Event::Carried), Request::Probe);
    assert_eq!(run.phase, Phase::Probing);

    assert_eq!(
        run.advance(Event::Probed { now: at(NOW), archive_exists: false }),
        Request::Carry(vec![Step::CreateArchive { perform: true }])
    );
    assert_eq!(run.phase, Phase::Creating);
    assert_eq!(run.limit, Some(at(NOW - YEAR)));

    assert_eq!(run.advance(Event::Carried), Request::List);
    assert_eq!(run.phase, Phase::Listing);

    let entries = vec![
        file(NOW - YEAR - 1),
        file(NOW - YEAR),
        ArchiveEntry { is_file: false, modified: Some(at(0)) },
    ];
    assert_eq!(
        run.advance(Event::Listed { entries }),
        Request::Carry(vec![Step::MoveToArchive { entry: 0, perform: true }])
    );
    assert_eq!(run.phase, Phase::Moving);

    assert_eq!(
        run.advance(Event::Carried),
        Request::Finish(Summary { deleted: 1, moved: 1 })
    );
    assert!(run.is_over());
}

#[test]
fn three_identical_files_give_a_deleted_count_of_two() {
    let mut run = Run::begin(false);
    run.advance(Event::Target { exists: true, is_dir: true });
    let marks = vec![mark_entry(true, 1, b"x"), mark_entry(true, 1, b"x"), mark_entry(true, 1, b"x")];
    run.advance(Event::Scanned { marks });
    run.advance(Event::Carried);
    assert_eq!(run.advance(Event::Probed { now: at(NOW), archive_exists: true }), Request::List);
    assert_eq!(run.advance(Event::Listed { entries: vec![file(NOW)] }), Request::Carry(vec![]));
    assert_eq!(run.advance(Event::Carried), Request::Finish(Summary { deleted: 2, moved: 0 }));
}

#[test]
fn a_missing_target_is_rejected() {
    let mut run = Run::begin(false);
    assert_eq!(run.advance(Event::Target { exists: false, is_dir: false }), Request::Reject);
    assert!(run.is_over());
    assert_eq!(run.summary, Summary { deleted: 0, moved: 0 });
    assert_eq!(run.advance(Event::Carried), Request::Abort);
    assert_eq!(run.advance(Event::Scanned { marks: vec![Some(1), Some(1)] }), Request::Abort);
}

#[test]
fn a_regular_file_as_target_is_rejected() {
    let mut run = Run::begin(true);
    assert_eq!(run.advance(Event::Target { exists: true, is_dir: false }), Request::Reject);
    assert!(run.is_over());
}

#[test]
fn an_existing_archive_is_not_created_again() {
    let mut run = Run::begin(false);
    run.advance(Event::Target { exists: true, is_dir: true });
    assert_eq!(run.advance(Event::Scanned { marks: vec![] }), Request::Carry(vec![]));
    assert_eq!(run.advance(Event::Carried), Request::Probe);
    assert_eq!(run.advance(Event::Probed { now: at(NOW), archive_exists: true }), Request::List);
    assert_eq!(run.phase, Phase::Listing);
}

#[test]
fn a_dry_run_hands_out_no_change() {
    let mut run = Run::begin(true);
    let mut handed: Vec<Step> = Vec::new();
    run.advance(Event::Target { exists: true, is_dir: true });
    if let Request::Carry(steps) = run.advance(Event::Scanned { marks: vec![Some(4), Some(4)] }) {
        handed.extend(steps);
    }
    run.advance(Event::Carried);
    if let Request::Carry(steps) = run.advance(Event::Probed { now: at(NOW), archive_exists: false })
    {
        handed.extend(steps);
    }
    run.advance(Event::Carried);
    if let Request::Carry(steps) = run.advance(Event::Listed { entries: vec![file(0), file(NOW)] }) {
        handed.extend(steps);
    }
    assert_eq!(
        handed,
        vec![
            Step::FoundDuplicates { fingerprint: 4 },
            Step::KeepOriginal { entry: 0 },
            Step::DeleteDuplicate { entry: 1, perform: false },
            Step::CreateArchive { perform: false },
            Step::MoveToArchive { entry: 0, perform: false },
        ]
    );
    assert!(handed.iter().all(|s| s.effect().is_none()));
    assert_eq!(run.advance(Event::Carried), Request::Finish(Summary { deleted: 0, moved: 0 }));
}

#[test]
fn a_failure_ends_the_run_without_a_summary() {
    let mut run = Run::begin(false);
    run.advance(Event::Target { exists: true, is_dir: true });
    run.advance(Event::Scanned { marks: vec![Some(4), Some(4)] });
    assert_eq!(run.advance(Event::Failed), Request::Abort);
    assert!(run.is_over());
    assert_eq!(run.advance(Event::Carried), Request::Abort);

    let mut early = Run::begin(false);
    assert_eq!(early.advance(Event::Failed), Request::Abort);
    assert!(early.is_over());
}

#[test]
fn an_event_out_of_turn_ends_the_run() {
    let mut run = Run::begin(false);
    assert_eq!(run.advance(Event::Carried), Request::Abort);
    assert!(run.is_over());

    let mut run = Run::begin(false);
    run.advance(Event::Target { exists: true, is_dir: true });
    assert_eq!(run.advance(Event::Listed { entries: vec![] }), Request::Abort);

    let mut run = Run::begin(false);
    assert_eq!(run.advance(Event::Probed { now: at(NOW), archive_exists: true }), Request::Abort);
    assert_eq!(run.limit, None);
}

#[test]
fn a_second_run_moves_nothing() {
    let listing = vec![file(NOW - YEAR - 10), file(NOW - 5), file(NOW - 2 * YEAR)];
    let mut first = Run::begin(false);
    first.advance(Event::Target { exists: true, is_dir: true });
    first.advance(Event::Scanned { marks: vec![Some(1), Some(2), Some(3)] });
    first.advance(Event::Carried);
    first.advance(Event::Probed { now: at(NOW), archive_exists: false });
    first.advance(Event::Carried);
    let moves = first.advance(Event::Listed { entries: listing.clone() });
    assert_eq!(
        moves,
        Request::Carry(vec![
            Step::MoveToArchive { entry: 0, perform: true },
            Step::MoveToArchive { entry: 2, perform: true },
        ])
    );
    assert_eq!(first.advance(Event::Carried), Request::Finish(Summary { deleted: 0, moved: 2 }));

    // The top level now holds the one young file and the archive.
    let left = vec![listing[1], ArchiveEntry { is_file: false, modified: Some(at(NOW)) }];
    let mut second = Run::begin(false);
    second.advance(Event::Target { exists: true, is_dir: true });
    second.advance(Event::Scanned { marks: vec![Some(2), None] });
    second.advance(Event::Carried);
    assert_eq!(second.advance(Event::Probed { now: at(NOW), archive_exists: true }), Request::List);
    assert_eq!(second.advance(Event::Listed { entries: left }), Request::Carry(vec![]));
    assert_eq!(second.advance(Event::Carried), Request::Finish(Summary { deleted: 0, moved: 0 }));
}
