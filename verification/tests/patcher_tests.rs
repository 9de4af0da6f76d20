use agent_core::patcher::{apply_delta, is_safe_path, PatchOutcome};

#[test]
fn create_then_patch_round_trip() {
    let (outcome, write) = apply_delta("src/lib.rs", None, "", "pub fn old() {}");
    assert!(matches!(outcome, PatchOutcome::Created { .. }));
    let written = write.expect("a created file has content to write");
    assert_eq!(written, "pub fn old() {}");

    let (outcome, write) = apply_delta("src/lib.rs", Some(&written), &written, "pub fn new() {}");
    assert!(matches!(outcome, PatchOutcome::Patched { .. }));
    assert_eq!(write.unwrap(), "pub fn new() {}");
}

#[test]
fn traversal_and_absolute_paths_are_rejected() {
    assert!(!is_safe_path("../../etc/passwd"));
    assert!(!is_safe_path("/etc/passwd"));

    let (outcome, write) = apply_delta("../../etc/passwd", None, "", "x");
    match outcome {
        PatchOutcome::IoError { path, reason } => {
            assert_eq!(path, "../../etc/passwd");
            assert_eq!(reason, "Error: Unsafe target file path");
        }
        _ => panic!("expected a safety rejection"),
    }
    assert!(write.is_none());

    let (outcome, write) = apply_delta("/etc/passwd", Some("root"), "root", "x");
    assert!(matches!(outcome, PatchOutcome::IoError { .. }));
    assert!(write.is_none());
}

#[test]
fn ordinary_relative_paths_are_safe() {
    assert!(is_safe_path("src/lib.rs"));
    assert!(is_safe_path("a/b/c.txt"));
    assert!(is_safe_path(""));
    assert!(!is_safe_path("a/../b"));
    assert!(!is_safe_path(".."));
}

#[test]
fn empty_old_content_replaces_whole_file() {
    let (outcome, write) = apply_delta("f.txt", Some("anything at all"), "", "fresh");
    assert!(matches!(outcome, PatchOutcome::Replaced { .. }));
    assert_eq!(write.unwrap(), "fresh");
}

#[test]
fn only_the_first_occurrence_is_replaced() {
    let existing = "aaa bbb aaa";
    let (outcome, write) = apply_delta("f.txt", Some(existing), "aaa", "X");
    assert!(matches!(outcome, PatchOutcome::Patched { .. }));
    assert_eq!(write.unwrap(), "X bbb aaa");
}

#[test]
fn splice_keeps_surrounding_text() {
    let existing = "prefix MIDDLE suffix";
    let (_, write) = apply_delta("f.txt", Some(existing), "MIDDLE", "CORE");
    assert_eq!(write.unwrap(), "prefix CORE suffix");
}

#[test]
fn missing_old_content_reports_not_found() {
    let (outcome, write) = apply_delta("f.txt", Some("actual content"), "ghost", "x");
    match outcome {
        PatchOutcome::NotFound { path, old_content } => {
            assert_eq!(path, "f.txt");
            assert_eq!(old_content, "ghost");
        }
        _ => panic!("expected NotFound"),
    }
    assert!(write.is_none());
}

#[test]
fn missing_file_is_created() {
    let (outcome, write) = apply_delta("new/dir/f.txt", None, "old", "content");
    match outcome {
        PatchOutcome::Created { path } => assert_eq!(path, "new/dir/f.txt"),
        _ => panic!("expected Created"),
    }
    assert_eq!(write.unwrap(), "content");
}
