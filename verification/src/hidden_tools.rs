//! The tools that are registered but not shown to the model by default.
use vstd::prelude::*;
use vstd::string::*;

use crate::text::{same_text, split, split_on, texts, trim, trimmed};

verus! {

/// The names of the tools that are hidden by default.
pub open spec fn hidden_names() -> Seq<Seq<char>> {
    seq![
        "task_create"@, "task_list"@, "task_read"@, "task_cancel"@, "task_gate_run"@,
        "task_shell_start"@, "task_shell_wait"@, "pr_attempt_record"@, "pr_attempt_list"@,
        "pr_attempt_read"@, "pr_attempt_preflight"@, "agent_open"@, "agent_spawn"@, "agent_eval"@,
        "agent_result"@, "agent_cancel"@, "agent_close"@, "agent_list"@, "resume_agent"@,
        "delegate_to_agent"@, "rlm_open"@, "rlm_eval"@, "rlm_configure"@, "rlm_close"@,
        "create_goal"@, "get_goal"@, "update_goal"@, "git_log"@, "git_show"@, "git_blame"@,
        "apply_patch"@, "fim_edit"@, "pandoc_convert"@, "image_ocr"@, "todo_write"@, "todo_add"@,
        "todo_update"@, "todo_list"@, "exec_shell_cancel"@, "exec_shell_interact"@, "exec_wait"@,
        "exec_interact"@, "automation_create"@, "automation_delete"@, "automation_list"@,
        "automation_pause"@, "automation_read"@, "automation_resume"@, "automation_run"@,
        "automation_update"@, "github_issue_context"@, "github_pr_context"@, "github_comment"@,
        "github_close_issue"@, "finance"@, "web.run"@, "multi_tool_use.parallel"@, "note"@,
        "validate_data"@, "run_tests"@, "handle_read"@, "retrieve_tool_result"@, "project_map"@,
        "recall_archive"@, "review"@, "notify"@, "remember"@, "web_run"@, "speech"@, "tts"@,
        "rlm_session_objects"@, "github_close_pr"@, "run_verifiers"@, "slop_ledger_append"@,
        "slop_ledger_export"@, "slop_ledger_query"@, "slop_ledger_update"@,
    ]
}

/// The names of the tools that are hidden by default.
pub fn hidden_tools() -> (r: Vec<&'static str>)
    ensures
        r@.len() == hidden_names().len(),
        forall|i: int| 0 <= i < r@.len() ==> (#[trigger] r@[i])@ == hidden_names()[i],
{
    vec![
        "task_create", "task_list", "task_read", "task_cancel", "task_gate_run",
        "task_shell_start", "task_shell_wait", "pr_attempt_record", "pr_attempt_list",
        "pr_attempt_read", "pr_attempt_preflight", "agent_open", "agent_spawn", "agent_eval",
        "agent_result", "agent_cancel", "agent_close", "agent_list", "resume_agent",
        "delegate_to_agent", "rlm_open", "rlm_eval", "rlm_configure", "rlm_close", "create_goal",
        "get_goal", "update_goal", "git_log", "git_show", "git_blame", "apply_patch", "fim_edit",
        "pandoc_convert", "image_ocr", "todo_write", "todo_add", "todo_update", "todo_list",
        "exec_shell_cancel", "exec_shell_interact", "exec_wait", "exec_interact",
        "automation_create", "automation_delete", "automation_list", "automation_pause",
        "automation_read", "automation_resume", "automation_run", "automation_update",
        "github_issue_context", "github_pr_context", "github_comment", "github_close_issue",
        "finance", "web.run", "multi_tool_use.parallel", "note", "validate_data", "run_tests",
        "handle_read", "retrieve_tool_result", "project_map", "recall_archive", "review", "notify",
        "remember", "web_run", "speech", "tts", "rlm_session_objects", "github_close_pr",
        "run_verifiers", "slop_ledger_append", "slop_ledger_export", "slop_ledger_query",
        "slop_ledger_update",
    ]
}

/// A comma-separated list names the tool.
pub open spec fn list_names(list: Seq<char>, name: Seq<char>) -> bool {
    exists|i: int|
        0 <= i < split_on(list, ',').len() && trimmed(#[trigger] split_on(list, ',')[i]) == name
}

/// A tool is hidden if it is one of those that are by default, and the list that makes
/// exceptions does not name it.
pub open spec fn is_hidden(name: Seq<char>, exceptions: Option<Seq<char>>) -> bool {
    hidden_names().contains(name) && !(exceptions is Some && list_names(exceptions->Some_0, name))
}

fn is_hidden_by_default(name: &str) -> (r: bool)
    ensures
        r == hidden_names().contains(name@),
{
    let tools = hidden_tools();
    let mut i: usize = 0;
    while i < tools.len()
        invariant
            i <= tools@.len(),
            tools@.len() == hidden_names().len(),
            forall|k: int| 0 <= k < tools@.len() ==> (#[trigger] tools@[k])@ == hidden_names()[k],
            forall|k: int| 0 <= k < i ==> #[trigger] hidden_names()[k] != name@,
        decreases tools@.len() - i,
    {
        if same_text(tools[i], name) {
            assert(hidden_names()[i as int] == name@);
            return true;
        }
        i += 1;
    }
    false
}

fn is_named(list: &str, name: &str) -> (r: bool)
    ensures
        r == list_names(list@, name@),
{
    let parts = split(list, ',');
    let ghost all = split_on(list@, ',');
    let mut i: usize = 0;
    while i < parts.len()
        invariant
            i <= parts@.len(),
            texts(parts@) == all,
            all == split_on(list@, ','),
            forall|k: int| 0 <= k < i ==> trimmed(#[trigger] all[k]) != name@,
        decreases parts@.len() - i,
    {
        assert(texts(parts@)[i as int] == parts@[i as int]@);
        if same_text(trim(parts[i].as_str()).as_str(), name) {
            assert(trimmed(split_on(list@, ',')[i as int]) == name@);
            return true;
        }
        i += 1;
    }
    false
}

/// Whether the tool is hidden, given the list of exceptions, if there is one.
pub fn is_pinvou3_hidden(name: &str, exceptions: Option<&str>) -> (r: bool)
    ensures
        r == is_hidden(
            name@,
            match exceptions {
                Some(list) => Some(list@),
                None => None,
            },
        ),
{
    if !is_hidden_by_default(name) {
        return false;
    }
    match exceptions {
        None => true,
        Some(list) => !is_named(list, name),
    }
}

/// Exceptions hide nothing: with them, fewer tools are hidden.
pub proof fn exceptions_only_reveal(name: Seq<char>, exceptions: Option<Seq<char>>)
    ensures
        is_hidden(name, exceptions) ==> is_hidden(name, None),
{
}

} // verus!
