//! Dispatch of extracted tool calls, confined to a project root.
//!
//! The executor decides; the surrounding application acts.  `execute` turns a
//! `(tool, parameter)` pair into a `ToolAction`: either an immediate reply
//! (rejections, unknown tools) or a description of the read, patch or command
//! the application must perform.  The render functions build the exact result
//! texts handed back to the model.

use vstd::prelude::*;
use vstd::string::*;
use crate::parser::{name_execute_command, name_read_file, name_write_file_delta};
use crate::patcher::{safe_path, is_safe_path, PatchOutcome};
use crate::text::{dec_int, find, find_char, find_char_from, find_sub, i32_to_dec,
    lemma_find_char_from, lemma_find_from, str_eq};

verus! {

/// What a tool call asks the application to do.
pub enum ToolAction {
    /// Nothing to perform: hand this text back (errors, unknown tools).
    Reply { text: String },
    /// Read the file at this safe relative path and return its content.
    ReadFile { path: String },
    /// Apply an exact-match patch to the file at this safe relative path.
    ApplyPatch { path: String, old_content: String, new_content: String },
    /// Run this command through the system shell in the project root.
    RunCommand { command: String },
}

/// What `execute` decides for a `write_file_delta` parameter: split on the
/// first `:::` into path and content, the content on its first newline into
/// old and new (taken verbatim), with the path checked before anything else
/// is looked at.
pub open spec fn delta_action_ok(param: Seq<char>, r: ToolAction) -> bool {
    let f = find_sub(param, ":::"@);
    if f < 0 {
        r matches ToolAction::Reply { text } && text@ == "Error: Invalid delta format"@
    } else {
        let path = param.subrange(0, f);
        if !safe_path(path) {
            r matches ToolAction::Reply { text }
                && text@ == "Error: Unsafe target file path"@
        } else {
            let nl = find_char_from(param, '\n', f + 3);
            if nl < 0 {
                r matches ToolAction::Reply { text }
                    && text@ == "Error: Invalid delta content"@
            } else {
                r matches ToolAction::ApplyPatch { path: p, old_content, new_content }
                    && p@ == path
                    && old_content@ == param.subrange(f + 3, nl)
                    && new_content@ == param.subrange(nl + 1, param.len() as int)
            }
        }
    }
}

/// Dispatches tool calls against one project root.
pub struct ToolExecutor {
    project_root: String,
}

impl ToolExecutor {
    /// The root all relative paths and commands are confined to.
    pub closed spec fn root_view(&self) -> Seq<char> {
        self.project_root@
    }

    pub fn new(project_root: String) -> (r: ToolExecutor)
        ensures
            r.root_view() == project_root@,
    {
        ToolExecutor { project_root }
    }

    pub fn project_root(&self) -> (r: &str)
        ensures
            r@ == self.root_view(),
    {
        self.project_root.as_str()
    }

    /// Decide what one tool call asks for.  Unsafe paths and malformed patch
    /// parameters are rejected here, before anything touches the filesystem.
    pub fn execute(&self, tool: &str, param: &str) -> (r: ToolAction)
        ensures
            tool@ == name_read_file() ==> (if safe_path(param@) {
                r matches ToolAction::ReadFile { path } && path@ == param@
            } else {
                r matches ToolAction::Reply { text } && text@ == "Error: Unsafe file path"@
            }),
            tool@ == name_write_file_delta() ==> delta_action_ok(param@, r),
            tool@ == name_execute_command() ==> ({
                r matches ToolAction::RunCommand { command } && command@ == param@
            }),
            tool@ != name_read_file() && tool@ != name_write_file_delta()
                && tool@ != name_execute_command() ==> ({
                r matches ToolAction::Reply { text }
                    && text@ == "Unknown tool: "@ + tool@
            }),
    {
        if str_eq(tool, "read_file") {
            proof {
                reveal_strlit("read_file");
                reveal_strlit("write_file_delta");
                reveal_strlit("execute_command");
                assert("read_file"@.len() == 9);
                assert("write_file_delta"@.len() == 16);
                assert("execute_command"@.len() == 15);
                assert(tool@ != name_write_file_delta());
                assert(tool@ != name_execute_command());
            }
            if is_safe_path(param) {
                ToolAction::ReadFile { path: String::from_str(param) }
            } else {
                ToolAction::Reply { text: String::from_str("Error: Unsafe file path") }
            }
        } else if str_eq(tool, "write_file_delta") {
            proof {
                reveal_strlit(":::");
                reveal_strlit("write_file_delta");
                reveal_strlit("execute_command");
                assert("write_file_delta"@.len() == 16);
                assert("execute_command"@.len() == 15);
                assert(tool@ != name_execute_command());
            }
            let param_len = param.unicode_len();
            let res = match find(param, ":::", 0) {
                None => ToolAction::Reply {
                    text: String::from_str("Error: Invalid delta format"),
                },
                Some(f) => {
                    proof {
                        lemma_find_from(param@, ":::"@, 0);
                        assert(f + 3 <= param_len);
                    }
                    let path = param.substring_char(0, f);
                    if !is_safe_path(path) {
                        ToolAction::Reply {
                            text: String::from_str("Error: Unsafe target file path"),
                        }
                    } else {
                        match find_char(param, '\n', f + 3) {
                            None => ToolAction::Reply {
                                text: String::from_str("Error: Invalid delta content"),
                            },
                            Some(nl) => {
                                proof {
                                    lemma_find_char_from(param@, '\n', f + 3);
                                }
                                let old_part = param.substring_char(f + 3, nl);
                                let new_part = param.substring_char(nl + 1, param_len);
                                ToolAction::ApplyPatch {
                                    path: String::from_str(path),
                                    old_content: String::from_str(old_part),
                                    new_content: String::from_str(new_part),
                                }
                            },
                        }
                    }
                },
            };
            res
        } else if str_eq(tool, "execute_command") {
            ToolAction::RunCommand { command: String::from_str(param) }
        } else {
            let prefix = String::from_str("Unknown tool: ");
            ToolAction::Reply { text: prefix.concat(tool) }
        }
    }
}

/// `root` and `rel` joined with a single path separator, as `Path::join` does
/// for a relative right-hand side.
pub open spec fn join_path_spec(root: Seq<char>, rel: Seq<char>) -> Seq<char> {
    if root.len() == 0 {
        rel
    } else if root.last() == '/' {
        root + rel
    } else {
        root + seq!['/'] + rel
    }
}

pub fn join_path(root: &str, rel: &str) -> (r: String)
    ensures
        r@ == join_path_spec(root@, rel@),
{
    let n = root.unicode_len();
    if n == 0 {
        String::from_str(rel)
    } else if root.get_char(n - 1) == '/' {
        String::from_str(root).concat(rel)
    } else {
        proof {
            reveal_strlit("/");
            assert("/"@ =~= seq!['/']);
        }
        let s = String::from_str(root).concat("/");
        s.concat(rel)
    }
}

/// The exact result text for a patch outcome, naming the file under `root`.
pub fn render_patch_outcome(root: &str, outcome: &PatchOutcome) -> (r: String)
    ensures
        match outcome {
            PatchOutcome::Created { path } =>
                r@ == "Created new file: "@ + join_path_spec(root@, path@),
            PatchOutcome::Replaced { path } =>
                r@ == "Replaced entire file: "@ + join_path_spec(root@, path@),
            PatchOutcome::Patched { path } =>
                r@ == "Applied delta to: "@ + join_path_spec(root@, path@),
            PatchOutcome::NotFound { path, old_content } =>
                r@ == "Error: Could not find specified content in "@
                    + join_path_spec(root@, path@),
            PatchOutcome::IoError { path, reason } => r@ == reason@,
        },
{
    match outcome {
        PatchOutcome::Created { path } => {
            let p = join_path(root, path.as_str());
            String::from_str("Created new file: ").concat(p.as_str())
        },
        PatchOutcome::Replaced { path } => {
            let p = join_path(root, path.as_str());
            String::from_str("Replaced entire file: ").concat(p.as_str())
        },
        PatchOutcome::Patched { path } => {
            let p = join_path(root, path.as_str());
            String::from_str("Applied delta to: ").concat(p.as_str())
        },
        PatchOutcome::NotFound { path, old_content } => {
            let p = join_path(root, path.as_str());
            String::from_str("Error: Could not find specified content in ").concat(p.as_str())
        },
        PatchOutcome::IoError { path, reason } => reason.clone(),
    }
}

/// The exact three-section report for a completed shell command.
pub fn render_command_result(stdout_text: &str, stderr_text: &str, exit_code: i32)
    -> (r: String)
    ensures
        r@ == "stdout:\n"@ + stdout_text@ + "\nstderr:\n"@ + stderr_text@
            + "\nexit_code: "@ + dec_int(exit_code as int),
{
    let mut out = String::from_str("stdout:\n");
    out.append(stdout_text);
    out.append("\nstderr:\n");
    out.append(stderr_text);
    out.append("\nexit_code: ");
    let code = i32_to_dec(exit_code);
    out.append(code.as_str());
    out
}

} // verus!
