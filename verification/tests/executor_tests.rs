use agent_core::executor::{
    join_path, render_command_result, render_patch_outcome, ToolAction, ToolExecutor,
};
use agent_core::patcher::{apply_delta, PatchOutcome};
use agent_core::session::extract_tools;

fn executor() -> ToolExecutor {
    ToolExecutor::new("/proj".to_string())
}

#[test]
fn read_file_with_a_safe_path() {
    match executor().execute("read_file", "src/main.rs") {
        ToolAction::ReadFile { path } => assert_eq!(path, "src/main.rs"),
        _ => panic!("expected a read action"),
    }
}

#[test]
fn read_file_with_an_unsafe_path_is_rejected() {
    match executor().execute("read_file", "../secrets") {
        ToolAction::Reply { text } => assert_eq!(text, "Error: Unsafe file path"),
        _ => panic!("expected a rejection"),
    }
    match executor().execute("read_file", "/etc/passwd") {
        ToolAction::Reply { text } => assert_eq!(text, "Error: Unsafe file path"),
        _ => panic!("expected a rejection"),
    }
}

#[test]
fn write_file_delta_parameter_is_split_verbatim() {
    match executor().execute("write_file_delta", "src/lib.rs:::old text\nnew text") {
        ToolAction::ApplyPatch { path, old_content, new_content } => {
            assert_eq!(path, "src/lib.rs");
            assert_eq!(old_content, "old text");
            assert_eq!(new_content, "new text");
        }
        _ => panic!("expected a patch action"),
    }
    // indentation in the contents is exact-match material and survives
    match executor().execute("write_file_delta", "src/lib.rs:::  old text \n  new text ") {
        ToolAction::ApplyPatch { path, old_content, new_content } => {
            assert_eq!(path, "src/lib.rs");
            assert_eq!(old_content, "  old text ");
            assert_eq!(new_content, "  new text ");
        }
        _ => panic!("expected a patch action"),
    }
}

#[test]
fn write_file_delta_rejects_malformed_parameters() {
    match executor().execute("write_file_delta", "no separator here") {
        ToolAction::Reply { text } => assert_eq!(text, "Error: Invalid delta format"),
        _ => panic!("expected a rejection"),
    }
    match executor().execute("write_file_delta", "../x:::old\nnew") {
        ToolAction::Reply { text } => assert_eq!(text, "Error: Unsafe target file path"),
        _ => panic!("expected a rejection"),
    }
    match executor().execute("write_file_delta", "src/x.rs:::no newline") {
        ToolAction::Reply { text } => assert_eq!(text, "Error: Invalid delta content"),
        _ => panic!("expected a rejection"),
    }
}

#[test]
fn execute_command_passes_the_command_through() {
    match executor().execute("execute_command", "cargo check") {
        ToolAction::RunCommand { command } => assert_eq!(command, "cargo check"),
        _ => panic!("expected a command action"),
    }
}

#[test]
fn unknown_tools_are_reported() {
    match executor().execute("frobnicate", "x") {
        ToolAction::Reply { text } => assert_eq!(text, "Unknown tool: frobnicate"),
        _ => panic!("expected a rejection"),
    }
}

#[test]
fn command_result_report_format() {
    assert_eq!(
        render_command_result("ok\n", "", 0),
        "stdout:\nok\n\nstderr:\n\nexit_code: 0"
    );
    assert_eq!(
        render_command_result("", "boom", -1),
        "stdout:\n\nstderr:\nboom\nexit_code: -1"
    );
    assert_eq!(
        render_command_result("a", "b", 127),
        "stdout:\na\nstderr:\nb\nexit_code: 127"
    );
}

#[test]
fn path_joining() {
    assert_eq!(join_path("/proj", "src/lib.rs"), "/proj/src/lib.rs");
    assert_eq!(join_path("/proj/", "src/lib.rs"), "/proj/src/lib.rs");
    assert_eq!(join_path("", "src/lib.rs"), "src/lib.rs");
}

#[test]
fn patch_outcomes_render_as_the_executor_reports() {
    let created = PatchOutcome::Created { path: "a.txt".to_string() };
    assert_eq!(render_patch_outcome("/p", &created), "Created new file: /p/a.txt");
    let replaced = PatchOutcome::Replaced { path: "a.txt".to_string() };
    assert_eq!(render_patch_outcome("/p", &replaced), "Replaced entire file: /p/a.txt");
    let patched = PatchOutcome::Patched { path: "a.txt".to_string() };
    assert_eq!(render_patch_outcome("/p", &patched), "Applied delta to: /p/a.txt");
    let missing = PatchOutcome::NotFound {
        path: "a.txt".to_string(),
        old_content: "x".to_string(),
    };
    assert_eq!(
        render_patch_outcome("/p", &missing),
        "Error: Could not find specified content in /p/a.txt"
    );
    let unsafe_path = PatchOutcome::IoError {
        path: "../a".to_string(),
        reason: "Error: Unsafe target file path".to_string(),
    };
    assert_eq!(render_patch_outcome("/p", &unsafe_path), "Error: Unsafe target file path");
}

#[test]
fn end_to_end_patch_scenario() {
    let response = "CHANGE: src/lib.rs\n\
                    <<<<<<< CURRENT\n\
                    pub fn old() {}\n\
                    =======\n\
                    pub fn new() {}\n\
                    >>>>>>> NEW\n";
    let tools = extract_tools(response);
    assert_eq!(tools.len(), 1);
    let (tool, param) = &tools[0];
    assert_eq!(tool, "write_file_delta");

    let action = executor().execute(tool, param);
    let (path, old_content, new_content) = match action {
        ToolAction::ApplyPatch { path, old_content, new_content } => {
            (path, old_content, new_content)
        }
        _ => panic!("expected a patch action"),
    };
    assert_eq!(path, "src/lib.rs");

    let existing = "pub fn old() {}".to_string();
    let (outcome, write) = apply_delta(&path, Some(&existing), &old_content, &new_content);
    assert!(matches!(outcome, PatchOutcome::Patched { .. }));
    assert_eq!(write.unwrap(), "pub fn new() {}");
    assert_eq!(
        render_patch_outcome("/proj", &outcome),
        "Applied delta to: /proj/src/lib.rs"
    );
}
