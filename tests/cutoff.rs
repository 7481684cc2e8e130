use target_sweep::{
    check_target_dir_date, cutoff_from_days, CutoffDecision, CutoffWalk, EntryReport, Evaluation,
    ModTime,
};

fn file(t: i128, len: u64) -> EntryReport {
    EntryReport::Meta { modified: ModTime::At(t), is_file: true, len }
}

fn dir(t: i128) -> EntryReport {
    EntryReport::Meta { modified: ModTime::At(t), is_file: false, len: 4096 }
}

#[test]
fn old_tree_is_eligible_with_file_bytes() {
    let entries = vec![dir(5), file(10, 100), dir(8), file(50, 23)];
    assert_eq!(
        check_target_dir_date(&entries, 50),
        Evaluation::Decided(CutoffDecision::Eligible(123))
    );
}

#[test]
fn empty_walk_is_eligible_with_no_bytes() {
    assert_eq!(check_target_dir_date(&vec![], 0), Evaluation::Decided(CutoffDecision::Eligible(0)));
}

#[test]
fn one_newer_file_blocks() {
    let entries = vec![file(10, 100), file(51, 1), file(10, 7)];
    assert_eq!(check_target_dir_date(&entries, 50), Evaluation::Decided(CutoffDecision::NotEligible));
}

#[test]
fn newer_directory_does_not_block() {
    let entries = vec![dir(99), file(10, 7)];
    assert_eq!(check_target_dir_date(&entries, 50), Evaluation::Decided(CutoffDecision::Eligible(7)));
}

#[test]
fn unreadable_metadata_blocks() {
    let entries = vec![file(10, 100), EntryReport::MetaFailed, file(10, 7)];
    assert_eq!(check_target_dir_date(&entries, 50), Evaluation::Decided(CutoffDecision::NotEligible));
}

#[test]
fn walk_failure_is_skipped() {
    let entries = vec![file(10, 100), EntryReport::WalkFailed, file(10, 7)];
    assert_eq!(check_target_dir_date(&entries, 50), Evaluation::Decided(CutoffDecision::Eligible(107)));
}

#[test]
fn unavailable_time_still_counts_the_file() {
    let entries = vec![EntryReport::Meta { modified: ModTime::Unavailable, is_file: true, len: 9 }];
    assert_eq!(check_target_dir_date(&entries, 50), Evaluation::Decided(CutoffDecision::Eligible(9)));
}

#[test]
fn unsupported_metadata_is_fatal() {
    let entries = vec![file(10, 100), EntryReport::MetaUnsupported];
    assert_eq!(check_target_dir_date(&entries, 50), Evaluation::Fatal);
}

#[test]
fn unsupported_time_is_fatal() {
    let entries = vec![EntryReport::Meta { modified: ModTime::Unsupported, is_file: false, len: 0 }];
    assert_eq!(check_target_dir_date(&entries, 50), Evaluation::Fatal);
}

#[test]
fn first_settling_entry_decides() {
    let entries = vec![file(60, 1), EntryReport::MetaUnsupported];
    assert_eq!(check_target_dir_date(&entries, 50), Evaluation::Decided(CutoffDecision::NotEligible));
}

#[test]
fn file_at_cutoff_is_not_newer() {
    let entries = vec![file(50, 3)];
    assert_eq!(check_target_dir_date(&entries, 50), Evaluation::Decided(CutoffDecision::Eligible(3)));
}

#[test]
fn byte_total_saturates() {
    let entries = vec![file(1, u64::MAX), file(1, 5)];
    assert_eq!(
        check_target_dir_date(&entries, 50),
        Evaluation::Decided(CutoffDecision::Eligible(u64::MAX))
    );
}

#[test]
fn walk_stops_at_first_newer_file() {
    let mut walk = CutoffWalk::new(50);
    assert_eq!(walk.feed(file(10, 4)), None);
    assert_eq!(walk.feed(file(70, 4)), Some(Evaluation::Decided(CutoffDecision::NotEligible)));
    assert_eq!(walk.feed(file(10, 4)), Some(Evaluation::Decided(CutoffDecision::NotEligible)));
    assert_eq!(walk.finish(), Evaluation::Decided(CutoffDecision::NotEligible));
}

#[test]
fn walk_finishes_with_total() {
    let mut walk = CutoffWalk::new(50);
    assert_eq!(walk.feed(file(10, 4)), None);
    assert_eq!(walk.feed(dir(10)), None);
    assert_eq!(walk.feed(file(20, 6)), None);
    assert_eq!(walk.finish(), Evaluation::Decided(CutoffDecision::Eligible(10)));
}

#[test]
fn zero_days_disables_the_cutoff() {
    assert_eq!(cutoff_from_days(0, 1_000), None);
}

#[test]
fn days_count_back_from_now() {
    assert_eq!(cutoff_from_days(1, 100_000_000_000_000), Some(13_600_000_000_000));
    assert_eq!(cutoff_from_days(2, 0), Some(-172_800_000_000_000));
}

#[test]
fn cutoff_saturates_at_earliest_time() {
    assert_eq!(cutoff_from_days(u64::MAX, i128::MIN + 5), Some(i128::MIN));
}
