use dir_purge::purge::{
    build_report, candidate_listing, collect_failures, failure_listing, join_parts,
    plan_deletions, Deletion, DeletionFailure,
};
use dir_purge::select::{
    is_candidate, is_past_threshold, select, Candidate, DirEntryInfo, EntryKind, EntryMetadata,
    ScanError,
};

const MS: i128 = 1_000_000;
const NOW: i128 = 1_700_000_000_000 * MS;

fn entry(path: &str, kind: EntryKind, age_ms: i128) -> DirEntryInfo {
    DirEntryInfo {
        path: Some(path.to_string()),
        metadata: Some(EntryMetadata { kind, created: Some(NOW - age_ms * MS) }),
    }
}

fn unreadable(path: &str) -> DirEntryInfo {
    DirEntryInfo { path: Some(path.to_string()), metadata: None }
}

fn paths(cs: &[Candidate]) -> Vec<String> {
    cs.iter().map(|c| c.path.clone()).collect()
}

fn two_files() -> Vec<DirEntryInfo> {
    vec![entry("old.txt", EntryKind::File, 10000), entry("new.txt", EntryKind::File, 100)]
}

#[test]
fn live_run_lists_and_removes_only_old_file() {
    let cands = select(&two_files(), NOW, 5000).unwrap();
    assert_eq!(paths(&cands), vec!["old.txt".to_string()]);
    assert_eq!(candidate_listing(&cands), "old.txt");
    let plan = plan_deletions(&cands, false);
    assert_eq!(plan.len(), 1);
    assert_eq!(plan[0].path, "old.txt");
    assert!(!plan[0].recursive);
    assert!(plan.iter().all(|d| d.path != "new.txt"));
}

#[test]
fn dry_run_lists_old_file_and_removes_nothing() {
    let cands = select(&two_files(), NOW, 5000).unwrap();
    assert_eq!(candidate_listing(&cands), "old.txt");
    let plan = plan_deletions(&cands, true);
    assert!(plan.is_empty());
    let report = build_report(&cands, &plan, &Vec::new());
    assert_eq!(report.listing, "old.txt");
    assert!(report.failures.is_empty());
}

#[test]
fn dry_run_twice_gives_same_listing() {
    let entries = two_files();
    let first = select(&entries, NOW, 5000).unwrap();
    assert!(plan_deletions(&first, true).is_empty());
    let second = select(&entries, NOW, 5000).unwrap();
    assert!(plan_deletions(&second, true).is_empty());
    assert_eq!(candidate_listing(&first), candidate_listing(&second));
}

#[test]
fn age_equal_to_ttl_is_kept() {
    let e = entry("a", EntryKind::File, 5000);
    assert!(!is_candidate(&e, NOW, 5000));
    let e = entry("a", EntryKind::File, 5001);
    assert!(is_candidate(&e, NOW, 5000));
}

#[test]
fn age_is_counted_in_whole_milliseconds() {
    // 5000.999 ms old is still 5000 whole milliseconds.
    assert!(!is_past_threshold(NOW, NOW - 5000 * MS - 999_999, 5000));
    assert!(is_past_threshold(NOW, NOW - 5001 * MS, 5000));
}

#[test]
fn zero_ttl_selects_anything_a_millisecond_old() {
    assert!(!is_past_threshold(NOW, NOW, 0));
    assert!(!is_past_threshold(NOW, NOW - MS + 1, 0));
    assert!(is_past_threshold(NOW, NOW - MS, 0));
}

#[test]
fn future_creation_is_not_selected() {
    assert!(!is_past_threshold(NOW, NOW + 1, 0));
    let e = entry("later", EntryKind::File, -10);
    assert!(!is_candidate(&e, NOW, 0));
}

#[test]
fn extreme_instants_do_not_overflow() {
    assert!(is_past_threshold(i128::MAX, i128::MIN, usize::MAX));
    assert!(!is_past_threshold(i128::MIN, i128::MAX, 0));
}

#[test]
fn missing_creation_time_is_not_selected() {
    let e = DirEntryInfo {
        path: Some("x".to_string()),
        metadata: Some(EntryMetadata { kind: EntryKind::File, created: None }),
    };
    assert!(!is_candidate(&e, NOW, 0));
}

#[test]
fn unreadable_entry_is_skipped_and_scan_goes_on() {
    let entries = vec![
        entry("a", EntryKind::File, 9000),
        unreadable("b"),
        entry("c", EntryKind::Directory, 9000),
    ];
    let cands = select(&entries, NOW, 5000).unwrap();
    assert_eq!(paths(&cands), vec!["a".to_string(), "c".to_string()]);
    assert_eq!(cands[1].kind, EntryKind::Directory);
}

#[test]
fn selected_entry_without_text_path_fails_scan() {
    let entries = vec![
        entry("a", EntryKind::File, 9000),
        DirEntryInfo {
            path: None,
            metadata: Some(EntryMetadata { kind: EntryKind::File, created: Some(NOW - 9000 * MS) }),
        },
    ];
    assert!(matches!(select(&entries, NOW, 5000), Err(ScanError::PathNotText)));
}

#[test]
fn unselected_entry_without_text_path_is_ignored() {
    let entries = vec![
        entry("a", EntryKind::File, 9000),
        DirEntryInfo {
            path: None,
            metadata: Some(EntryMetadata { kind: EntryKind::File, created: Some(NOW - 10 * MS) }),
        },
    ];
    let cands = select(&entries, NOW, 5000).unwrap();
    assert_eq!(paths(&cands), vec!["a".to_string()]);
}

#[test]
fn empty_directory_gives_empty_listing() {
    let cands = select(&Vec::new(), NOW, 0).unwrap();
    assert!(cands.is_empty());
    assert_eq!(candidate_listing(&cands), "");
    assert!(plan_deletions(&cands, false).is_empty());
}

#[test]
fn plan_removes_directories_recursively_and_skips_other_entries() {
    let cands = vec![
        Candidate { path: "d".to_string(), kind: EntryKind::Directory },
        Candidate { path: "link".to_string(), kind: EntryKind::Other },
        Candidate { path: "f".to_string(), kind: EntryKind::File },
    ];
    let plan = plan_deletions(&cands, false);
    assert_eq!(plan.len(), 2);
    assert_eq!(plan[0].path, "d");
    assert!(plan[0].recursive);
    assert_eq!(plan[1].path, "f");
    assert!(!plan[1].recursive);
    assert_eq!(candidate_listing(&cands), "d, link, f");
}

#[test]
fn failed_removal_does_not_hide_others() {
    let plan = vec![
        Deletion { path: "a".to_string(), recursive: false },
        Deletion { path: "b".to_string(), recursive: true },
        Deletion { path: "c".to_string(), recursive: false },
    ];
    let outcomes = vec![Err("permission denied".to_string()), Ok(()), Err("gone".to_string())];
    let failures = collect_failures(&plan, &outcomes);
    assert_eq!(failures.len(), 2);
    assert_eq!(failures[0].path, "a");
    assert_eq!(failures[0].reason, "permission denied");
    assert_eq!(failures[1].path, "c");
    assert_eq!(failures[1].reason, "gone");
    assert_eq!(failure_listing(&failures), "a: permission denied, c: gone");
}

#[test]
fn report_of_live_run_without_failures() {
    let cands = vec![Candidate { path: "x".to_string(), kind: EntryKind::File }];
    let plan = plan_deletions(&cands, false);
    let report = build_report(&cands, &plan, &vec![Ok(())]);
    assert_eq!(report.listing, "x");
    assert!(report.failures.is_empty());
}

#[test]
fn failure_listing_of_nothing_is_empty() {
    let none: Vec<DeletionFailure> = Vec::new();
    assert_eq!(failure_listing(&none), "");
}

#[test]
fn join_parts_separates_with_comma() {
    assert_eq!(join_parts(&vec!["p".to_string()]), "p");
    assert_eq!(join_parts(&vec!["p".to_string(), "q".to_string(), "r".to_string()]), "p, q, r");
}
