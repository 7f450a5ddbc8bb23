use file_organizer::archive::{
    archive_name, checked_cutoff, cutoff, plan_archive, plan_moves, ArchiveEntry, Timestamp,
    YEAR_SECONDS,
};
use file_organizer::plan::{tally, Step, Summary};

fn at(secs: i64, nanos: u32) -> Timestamp {
    Timestamp::new(secs, nanos).unwrap()
}

fn file(secs: i64, nanos: u32) -> ArchiveEntry {
    ArchiveEntry { is_file: true, modified: Some(at(secs, nanos)) }
}

#[test]
fn a_year_is_365_days() {
    assert_eq!(YEAR_SECONDS, 365 * 24 * 60 * 60);
    assert_eq!(YEAR_SECONDS, 31_536_000);
}

#[test]
fn archive_is_called_old_files() {
    assert_eq!(archive_name(), "old_files");
}

#[test]
fn timestamp_needs_nanos_under_a_second() {
    assert_eq!(Timestamp::new(5, 999_999_999), Some(Timestamp { secs: 5, nanos: 999_999_999 }));
    assert_eq!(Timestamp::new(5, 1_000_000_000), None);
    assert_eq!(Timestamp::new(-5, 0), Some(Timestamp { secs: -5, nanos: 0 }));
}

#[test]
fn order_of_timestamps() {
    assert!(at(1, 0).is_before(&at(2, 0)));
    assert!(at(1, 999_999_999).is_before(&at(2, 0)));
    assert!(at(2, 3).is_before(&at(2, 4)));
    assert!(!at(2, 4).is_before(&at(2, 4)));
    assert!(!at(2, 5).is_before(&at(2, 4)));
    assert!(!at(3, 0).is_before(&at(2, 999_999_999)));
    assert!(at(-1, 500).is_before(&at(0, 0)));
}

#[test]
fn cutoff_lies_one_year_back() {
    assert_eq!(cutoff(at(1_700_000_000, 123)), at(1_668_464_000, 123));
    assert_eq!(cutoff(at(0, 0)), at(-31_536_000, 0));
    assert_eq!(checked_cutoff(at(1_700_000_000, 123)), Some(at(1_668_464_000, 123)));
    assert_eq!(checked_cutoff(at(i64::MIN + 31_536_000, 0)), Some(at(i64::MIN, 0)));
    assert_eq!(checked_cutoff(at(i64::MIN + 31_535_999, 0)), None);
    assert_eq!(checked_cutoff(at(i64::MIN, 0)), None);
}

#[test]
fn age_cutoff_boundary() {
    let now = at(1_700_000_000, 250);
    let limit = cutoff(now);
    assert!(!file(1_700_000_000 - 31_536_000, 250).old_at(&limit));
    assert!(file(1_700_000_000 - 31_536_000 - 1, 250).old_at(&limit));
    assert!(file(1_700_000_000 - 31_536_000, 249).old_at(&limit));
    assert!(!file(1_700_000_000 - 31_536_000, 251).old_at(&limit));
    assert!(!file(1_700_000_000, 0).old_at(&limit));
}

#[test]
fn only_regular_files_with_a_known_time_are_old() {
    let limit = at(1_000, 0);
    let dir = ArchiveEntry { is_file: false, modified: Some(at(1, 0)) };
    let unknown = ArchiveEntry { is_file: true, modified: None };
    assert!(!dir.old_at(&limit));
    assert!(!unknown.old_at(&limit));
    assert!(file(1, 0).old_at(&limit));
}

#[test]
fn archive_is_created_only_where_missing() {
    assert_eq!(plan_archive(true, false), None);
    assert_eq!(plan_archive(true, true), None);
    assert_eq!(plan_archive(false, false), Some(Step::CreateArchive { perform: true }));
    assert_eq!(plan_archive(false, true), Some(Step::CreateArchive { perform: false }));
}

#[test]
fn old_files_are_moved_in_listing_order() {
    let limit = at(1_000, 0);
    let entries = vec![
        file(999, 999_999_999),
        file(1_000, 0),
        ArchiveEntry { is_file: false, modified: Some(at(0, 0)) },
        file(-40, 0),
        ArchiveEntry { is_file: true, modified: None },
        file(2_000, 0),
    ];
    let steps = plan_moves(&entries, limit, false);
    assert_eq!(
        steps,
        vec![
            Step::MoveToArchive { entry: 0, perform: true },
            Step::MoveToArchive { entry: 3, perform: true },
        ]
    );
    assert_eq!(tally(&steps), Summary { deleted: 0, moved: 2 });
}

#[test]
fn dry_run_moves_nothing() {
    let limit = at(1_000, 0);
    let entries = vec![file(1, 0), file(5_000, 0), file(2, 0)];
    let steps = plan_moves(&entries, limit, true);
    assert_eq!(
        steps,
        vec![
            Step::MoveToArchive { entry: 0, perform: false },
            Step::MoveToArchive { entry: 2, perform: false },
        ]
    );
    assert!(steps.iter().all(|s| s.effect().is_none()));
    assert_eq!(tally(&steps), Summary { deleted: 0, moved: 0 });
    assert_eq!(plan_archive(false, true).unwrap().effect(), None);
}

#[test]
fn second_run_finds_nothing_to_move() {
    let limit = at(1_000, 0);
    let entries = vec![file(1, 0), file(5_000, 0), file(2, 0), file(1_000, 0)];
    let first = plan_moves(&entries, limit, false);
    assert_eq!(tally(&first).moved, 2);
    // What the first run left at the top level, and the archive beside it.
    let mut left: Vec<ArchiveEntry> = Vec::new();
    for (i, e) in entries.iter().enumerate() {
        if !first.contains(&Step::MoveToArchive { entry: i, perform: true }) {
            left.push(*e);
        }
    }
    left.push(ArchiveEntry { is_file: false, modified: Some(at(0, 0)) });
    assert_eq!(left.len(), 3);
    let second = plan_moves(&left, limit, false);
    assert!(second.is_empty());
    assert_eq!(tally(&second).moved, 0);
}

#[test]
fn empty_listing_has_no_moves() {
    assert!(plan_moves(&Vec::new(), at(0, 0), false).is_empty());
}

#[test]
fn timestamps_from_offsets_to_the_epoch() {
    assert_eq!(Timestamp::after_epoch(10, 5), Some(at(10, 5)));
    assert_eq!(Timestamp::after_epoch(0, 0), Some(at(0, 0)));
    assert_eq!(Timestamp::after_epoch(i64::MAX as u64, 1), Some(at(i64::MAX, 1)));
    assert_eq!(Timestamp::after_epoch(i64::MAX as u64 + 1, 0), None);
    assert_eq!(Timestamp::after_epoch(1, 1_000_000_000), None);
    assert_eq!(Timestamp::before_epoch(10, 0), Some(at(-10, 0)));
    assert_eq!(Timestamp::before_epoch(0, 0), Some(at(0, 0)));
    assert_eq!(Timestamp::before_epoch(0, 1), Some(at(-1, 999_999_999)));
    assert_eq!(Timestamp::before_epoch(10, 250_000_000), Some(at(-11, 750_000_000)));
    assert_eq!(Timestamp::before_epoch(1 << 63, 0), Some(at(i64::MIN, 0)));
    assert_eq!(Timestamp::before_epoch(1 << 63, 1), None);
    assert_eq!(Timestamp::before_epoch((1 << 63) - 1, 1), Some(at(i64::MIN, 999_999_999)));
    assert_eq!(Timestamp::before_epoch(u64::MAX, 0), None);
    assert_eq!(Timestamp::before_epoch(3, 1_000_000_000), None);
    assert!(Timestamp::before_epoch(0, 1).unwrap().is_before(&at(0, 0)));
}
