//! Who serves a tool call, which calls may run side by side, what they come to, and which tools are
//! not shown.
use vstd::prelude::*;
use vstd::string::*;

use crate::hidden_tools::{hidden_names, is_hidden, list_names};
use crate::route::is_auto;
use crate::text::{lower, split_on, trimmed};
use crate::tool_calls::{
    call_refusal, calls_mcp, calls_refusal, is_call_plan, is_entry, is_verdict, present, CallPlan,
    CallSetting, Dispatch, ParallelCall, ParallelToolResultEntry, Route, ToolErrorKind, ToolFault,
    ToolOutput,
};
use crate::tool_output::{
    forwarder_step, is_appended, FlushCause, ForwarderAction, ForwarderEvent, ForwarderStage,
    OutputBatch, OutputForwarder, ToolOutputStream,
};

verus! {

// One call -------------------------------------------------------------------
/// A call goes to the MCP servers where the tool is theirs, else to an interpreter where the tool
/// is one, else to the registry; what cannot be served there is refused as not available. Calls
/// that may run beside others share the lock, and only the shell tools show their output as it
/// comes.
pub proof fn calls_go_to_who_serves_them(call: CallSetting, plan: CallPlan)
    requires
        is_call_plan(call, plan),
    ensures
        call.is_mcp && call.has_mcp_pool ==> plan.route is McpPool && plan.dispatch is Mcp,
        call.is_mcp && !call.has_mcp_pool ==> plan.route is Refuse && plan.dispatch is Mcp,
        !call.is_mcp ==> (call.interpreter matches Some(which) ==> plan.route
            == Route::Interpreter(which) && plan.dispatch is Interpreter),
        !call.is_mcp && call.interpreter is None && call.has_registry ==> plan.route is Registry
            && plan.dispatch is Registry,
        !call.is_mcp && call.interpreter is None && !call.has_registry ==> plan.route is Refuse
            && plan.dispatch is Missing,
        plan.route matches Route::Refuse(fault) ==> fault.kind is NotAvailable && fault.message@
            == "tool '"@ + call.tool_name@ + "' is not registered"@,
        call.supports_parallel ==> plan.lock is Shared,
        !call.supports_parallel ==> plan.lock is Exclusive,
        plan.pauses_terminal == call.interactive,
        plan.streams_output ==> call.has_registry && call.has_call_id && (call.tool_name@
            == "exec_shell"@ || call.tool_name@ == "exec_shell_wait"@ || call.tool_name@
            == "exec_wait"@ || call.tool_name@ == "task_shell_wait"@),
        call.has_registry && call.has_call_id && (call.tool_name@ == "exec_shell"@
            || call.tool_name@ == "exec_shell_wait"@ || call.tool_name@ == "exec_wait"@
            || call.tool_name@ == "task_shell_wait"@) ==> plan.streams_output,
{
}

// Calls side by side -----------------------------------------------------------
/// A call may run beside others just where it is not the call for many itself, and either is one of
/// the MCP tools that may, or is known, reads only, needs no approval and allows it.
pub proof fn harmless_calls_may_run_side_by_side(call: ParallelCall)
    ensures
        call_refusal(call) is None <==> call.tool_name@ != "multi_tool_use.parallel"@ && (
        (call.is_mcp && call.mcp_parallel_safe) || (!call.is_mcp && (
        call.registered matches Some(tool) && tool.read_only && !tool.needs_approval
            && tool.supports_parallel))),
        call.tool_name@ != "multi_tool_use.parallel"@ && !call.is_mcp && call.registered is None
            ==> (call_refusal(call) matches Some((kind, _)) && kind is NotAvailable),
        call_refusal(call) matches Some((kind, _)) ==> kind is NotAvailable || kind is InvalidInput,
        call_refusal(call) matches Some((kind, _)) && kind is NotAvailable ==> !call.is_mcp
            && call.registered is None,
{
}

/// Calls are refused together where one of them is refused, with what is said of the first of
/// these.
pub proof fn the_first_refused_call_counts(calls: Seq<ParallelCall>)
    ensures
        calls_refusal(calls) is None <==> forall|i: int|
            0 <= i < calls.len() ==> call_refusal(#[trigger] calls[i]) is None,
        calls_refusal(calls) is Some ==> exists|i: int|
            0 <= i < calls.len() && call_refusal(#[trigger] calls[i]) == calls_refusal(calls)
                && forall|j: int| 0 <= j < i ==> call_refusal(#[trigger] calls[j]) is None,
    decreases calls.len(),
{
    if calls.len() > 0 {
        let rest = calls.drop_first();
        the_first_refused_call_counts(rest);
        if call_refusal(calls[0]) is None {
            if calls_refusal(rest) is None {
                assert forall|i: int| 0 <= i < calls.len() implies call_refusal(
                    #[trigger] calls[i],
                ) is None by {
                    if i > 0 {
                        assert(rest[i - 1] == calls[i]);
                    }
                }
            } else {
                let i = choose|i: int|
                    0 <= i < rest.len() && call_refusal(#[trigger] rest[i]) == calls_refusal(rest)
                        && forall|j: int| 0 <= j < i ==> call_refusal(#[trigger] rest[j]) is None;
                assert(calls[i + 1] == rest[i]);
                assert forall|j: int| 0 <= j < i + 1 implies call_refusal(
                    #[trigger] calls[j],
                ) is None by {
                    if j > 0 {
                        assert(rest[j - 1] == calls[j]);
                    }
                }
            }
        } else {
            assert(call_refusal(calls[0]) is Some);
        }
    }
}

/// The MCP servers are needed just where one of the calls goes to them, and a refusal is handed on
/// as it is.
pub proof fn refusals_are_handed_on(
    calls: Seq<ParallelCall>,
    i: int,
    refusal: Option<(ToolErrorKind, Seq<char>)>,
    r: Result<(), ToolFault>,
)
    ensures
        0 <= i < calls.len() && calls[i].is_mcp ==> calls_mcp(calls),
        (forall|j: int| 0 <= j < calls.len() ==> !(#[trigger] calls[j]).is_mcp) ==> !calls_mcp(calls),
        is_verdict(refusal, r) && r is Ok ==> refusal is None,
        is_verdict(refusal, r) ==> (r matches Err(fault) ==> refusal == Some(
            (fault.kind, fault.message@),
        )),
{
}

/// The entry of a call holds what the tool handed back; what it handed back of a failure is its
/// error, and where it could not be run, the reason is.
pub proof fn entries_hold_what_came_back(
    name: Seq<char>,
    result: Result<ToolOutput, String>,
    entry: ParallelToolResultEntry,
)
    requires
        is_entry(name, result, entry),
    ensures
        entry.tool_name@ == name,
        result matches Ok(output) ==> entry.content@ == output.content@ && entry.success
            == output.success && (output.success ==> entry.error is None) && (!output.success ==> (
        entry.error matches Some(e) && e@ == output.content@)),
        result matches Err(why) ==> !entry.success && entry.content@ == "Error: "@ + why@ && (
        entry.error matches Some(e) && e@ == why@),
{
}

/// The results that are there come in the order of their calls, and what is missing is left out.
pub proof fn results_leave_out_what_is_missing(
    slots: Seq<Option<ParallelToolResultEntry>>,
    entry: ParallelToolResultEntry,
)
    ensures
        present(Seq::empty()).len() == 0,
        present(slots.push(Some(entry))) == present(slots).push(entry),
        present(slots.push(None)) == present(slots),
{
    assert(slots.push(Some(entry)).drop_last() =~= slots);
    assert(slots.push(None).drop_last() =~= slots);
}

// Output ---------------------------------------------------------------------
/// A chunk joins the last piece where that is of its stream, and else is a piece of its own; an
/// empty one changes nothing.
pub proof fn chunks_join_their_stream(
    old: Seq<OutputBatch>,
    stream: ToolOutputStream,
    content: Seq<char>,
    new: Seq<OutputBatch>,
)
    requires
        is_appended(old, stream, content, new),
    ensures
        content.len() == 0 ==> new == old,
        content.len() > 0 && old.len() > 0 && old[old.len() - 1].stream == stream ==> new.len()
            == old.len() && new.take(old.len() - 1) == old.take(old.len() - 1) && new[old.len()
            - 1].stream == stream && new[old.len() - 1].content@ == old[old.len() - 1].content@
            + content,
        content.len() > 0 && (old.len() == 0 || old[old.len() - 1].stream != stream) ==> new.len()
            == old.len() + 1 && new.take(old.len() as int) == old && new[old.len() as int].stream
            == stream && new[old.len() as int].content@ == content,
{
    if new.len() > 0 {
        assert(new.take(new.len() - 1) =~= new.drop_last());
    }
    if old.len() > 0 {
        assert(old.take(old.len() - 1) =~= old.drop_last());
    }
}

/// What follows each event of an output on its way: what waits is sent from its first piece on;
/// once nothing waits, a request is answered, and the end of the output or of its receiver stops
/// it.
pub proof fn output_takes_one_course(
    f: OutputForwarder,
    event: ForwarderEvent,
    next: OutputForwarder,
    action: ForwarderAction,
)
    requires
        f.expects(event),
        forwarder_step(f, event, next, action),
    ensures
        event is Chunk ==> action is Wait && next.stage is Idle,
        event matches ForwarderEvent::Flush(cause) ==> (if f.batches@.len() > 0 {
            action == ForwarderAction::Send(f.batches@[0]) && next.batches@ == f.batches@.skip(1)
        } else {
            match cause {
                FlushCause::Asked => action == (ForwarderAction::Acknowledge { stop: false }),
                FlushCause::Ticked => action is Wait,
                FlushCause::Closed => action is Stop,
            }
        }),
        event == (ForwarderEvent::Sent { delivered: true }) && f.batches@.len() > 0 ==> action
            == ForwarderAction::Send(f.batches@[0]) && next.batches@ == f.batches@.skip(1),
        event == (ForwarderEvent::Sent { delivered: true }) && f.batches@.len() == 0 ==> match f.stage {
            ForwarderStage::Sending(FlushCause::Asked) => action == (ForwarderAction::Acknowledge {
                stop: false,
            }) && next.stage is Idle,
            ForwarderStage::Sending(FlushCause::Ticked) => action is Wait && next.stage is Idle,
            ForwarderStage::Sending(FlushCause::Closed) => action is Stop && next.stage is Stopped,
            _ => false,
        },
        event == (ForwarderEvent::Sent { delivered: false }) ==> next.stage is Stopped && match f.stage {
            ForwarderStage::Sending(FlushCause::Asked) => action == (ForwarderAction::Acknowledge {
                stop: true,
            }),
            _ => action is Stop,
        },
{
    if f.batches@.len() > 0 {
        assert(f.batches@.drop_first() =~= f.batches@.skip(1));
    }
}

// Hidden tools -----------------------------------------------------------------
/// The hidden tools for the durable tasks.
pub open spec fn task_tools() -> Seq<Seq<char>> {
    seq![
        "task_create"@, "task_list"@, "task_read"@, "task_cancel"@, "task_gate_run"@,
        "task_shell_start"@, "task_shell_wait"@,
    ]
}

/// The hidden tools for attempts at a change.
pub open spec fn attempt_tools() -> Seq<Seq<char>> {
    seq![
        "pr_attempt_record"@, "pr_attempt_list"@, "pr_attempt_read"@, "pr_attempt_preflight"@,
    ]
}

/// The hidden tools for helpers.
pub open spec fn helper_tools() -> Seq<Seq<char>> {
    seq![
        "agent_open"@, "agent_spawn"@, "agent_eval"@, "agent_result"@, "agent_cancel"@,
        "agent_close"@, "agent_list"@, "resume_agent"@, "delegate_to_agent"@,
    ]
}

/// The hidden tools for sessions of the language model.
pub open spec fn session_tools() -> Seq<Seq<char>> {
    seq![
        "rlm_open"@, "rlm_eval"@, "rlm_configure"@, "rlm_close"@, "rlm_session_objects"@,
    ]
}

/// The hidden tools for goals.
pub open spec fn goal_tools() -> Seq<Seq<char>> {
    seq![
        "create_goal"@, "get_goal"@, "update_goal"@,
    ]
}

/// The hidden tools for the history of the code.
pub open spec fn history_tools() -> Seq<Seq<char>> {
    seq![
        "git_log"@, "git_show"@, "git_blame"@,
    ]
}

/// The hidden tools for everything else.
pub open spec fn other_tools() -> Seq<Seq<char>> {
    seq![
        "apply_patch"@, "fim_edit"@, "pandoc_convert"@, "image_ocr"@, "finance"@, "web.run"@,
        "multi_tool_use.parallel"@, "note"@, "validate_data"@, "run_tests"@, "handle_read"@,
        "retrieve_tool_result"@, "project_map"@, "recall_archive"@, "review"@, "notify"@,
        "remember"@, "web_run"@, "speech"@, "tts"@, "run_verifiers"@,
    ]
}

/// The hidden tools for lists of things to do.
pub open spec fn todo_tools() -> Seq<Seq<char>> {
    seq![
        "todo_write"@, "todo_add"@, "todo_update"@, "todo_list"@,
    ]
}

/// The hidden tools for running commands.
pub open spec fn command_tools() -> Seq<Seq<char>> {
    seq![
        "exec_shell_cancel"@, "exec_shell_interact"@, "exec_wait"@, "exec_interact"@,
    ]
}

/// The hidden tools for automations.
pub open spec fn automation_tools() -> Seq<Seq<char>> {
    seq![
        "automation_create"@, "automation_delete"@, "automation_list"@, "automation_pause"@,
        "automation_read"@, "automation_resume"@, "automation_run"@, "automation_update"@,
    ]
}

/// The hidden tools for GitHub.
pub open spec fn github_tools() -> Seq<Seq<char>> {
    seq![
        "github_issue_context"@, "github_pr_context"@, "github_comment"@, "github_close_issue"@,
        "github_close_pr"@,
    ]
}

/// The hidden tools for the ledger.
pub open spec fn ledger_tools() -> Seq<Seq<char>> {
    seq![
        "slop_ledger_append"@, "slop_ledger_export"@, "slop_ledger_query"@,
        "slop_ledger_update"@,
    ]
}

/// A tool is hidden just where it is one of the families above: those for tasks, helpers, sessions,
/// automations and so on.
pub proof fn hidden_tools_come_in_families(name: Seq<char>)
    ensures
        is_hidden(name, None) <==> {
            ||| task_tools().contains(name)
            ||| attempt_tools().contains(name)
            ||| helper_tools().contains(name)
            ||| session_tools().contains(name)
            ||| goal_tools().contains(name)
            ||| history_tools().contains(name)
            ||| other_tools().contains(name)
            ||| todo_tools().contains(name)
            ||| command_tools().contains(name)
            ||| automation_tools().contains(name)
            ||| github_tools().contains(name)
            ||| ledger_tools().contains(name)
        },
{
    let all = hidden_names();
    assert(task_tools().contains(name) ==> all.contains(name)) by {
        let own = task_tools();
        assert(own[0] == all[0]);
        assert(own[1] == all[1]);
        assert(own[2] == all[2]);
        assert(own[3] == all[3]);
        assert(own[4] == all[4]);
        assert(own[5] == all[5]);
        assert(own[6] == all[6]);
        if own.contains(name) {
            let i = choose|i: int| 0 <= i < own.len() && own[i] == name;
            assert(all.contains(own[i]));
        }
    }
    assert(attempt_tools().contains(name) ==> all.contains(name)) by {
        let own = attempt_tools();
        assert(own[0] == all[7]);
        assert(own[1] == all[8]);
        assert(own[2] == all[9]);
        assert(own[3] == all[10]);
        if own.contains(name) {
            let i = choose|i: int| 0 <= i < own.len() && own[i] == name;
            assert(all.contains(own[i]));
        }
    }
    assert(helper_tools().contains(name) ==> all.contains(name)) by {
        let own = helper_tools();
        assert(own[0] == all[11]);
        assert(own[1] == all[12]);
        assert(own[2] == all[13]);
        assert(own[3] == all[14]);
        assert(own[4] == all[15]);
        assert(own[5] == all[16]);
        assert(own[6] == all[17]);
        assert(own[7] == all[18]);
        assert(own[8] == all[19]);
        if own.contains(name) {
            let i = choose|i: int| 0 <= i < own.len() && own[i] == name;
            assert(all.contains(own[i]));
        }
    }
    assert(session_tools().contains(name) ==> all.contains(name)) by {
        let own = session_tools();
        assert(own[0] == all[20]);
        assert(own[1] == all[21]);
        assert(own[2] == all[22]);
        assert(own[3] == all[23]);
        assert(own[4] == all[70]);
        if own.contains(name) {
            let i = choose|i: int| 0 <= i < own.len() && own[i] == name;
            assert(all.contains(own[i]));
        }
    }
    assert(goal_tools().contains(name) ==> all.contains(name)) by {
        let own = goal_tools();
        assert(own[0] == all[24]);
        assert(own[1] == all[25]);
        assert(own[2] == all[26]);
        if own.contains(name) {
            let i = choose|i: int| 0 <= i < own.len() && own[i] == name;
            assert(all.contains(own[i]));
        }
    }
    assert(history_tools().contains(name) ==> all.contains(name)) by {
        let own = history_tools();
        assert(own[0] == all[27]);
        assert(own[1] == all[28]);
        assert(own[2] == all[29]);
        if own.contains(name) {
            let i = choose|i: int| 0 <= i < own.len() && own[i] == name;
            assert(all.contains(own[i]));
        }
    }
    assert(other_tools().contains(name) ==> all.contains(name)) by {
        let own = other_tools();
        assert(own[0] == all[30]);
        assert(own[1] == all[31]);
        assert(own[2] == all[32]);
        assert(own[3] == all[33]);
        assert(own[4] == all[54]);
        assert(own[5] == all[55]);
        assert(own[6] == all[56]);
        assert(own[7] == all[57]);
        assert(own[8] == all[58]);
        assert(own[9] == all[59]);
        assert(own[10] == all[60]);
        assert(own[11] == all[61]);
        assert(own[12] == all[62]);
        assert(own[13] == all[63]);
        assert(own[14] == all[64]);
        assert(own[15] == all[65]);
        assert(own[16] == all[66]);
        assert(own[17] == all[67]);
        assert(own[18] == all[68]);
        assert(own[19] == all[69]);
        assert(own[20] == all[72]);
        if own.contains(name) {
            let i = choose|i: int| 0 <= i < own.len() && own[i] == name;
            assert(all.contains(own[i]));
        }
    }
    assert(todo_tools().contains(name) ==> all.contains(name)) by {
        let own = todo_tools();
        assert(own[0] == all[34]);
        assert(own[1] == all[35]);
        assert(own[2] == all[36]);
        assert(own[3] == all[37]);
        if own.contains(name) {
            let i = choose|i: int| 0 <= i < own.len() && own[i] == name;
            assert(all.contains(own[i]));
        }
    }
    assert(command_tools().contains(name) ==> all.contains(name)) by {
        let own = command_tools();
        assert(own[0] == all[38]);
        assert(own[1] == all[39]);
        assert(own[2] == all[40]);
        assert(own[3] == all[41]);
        if own.contains(name) {
            let i = choose|i: int| 0 <= i < own.len() && own[i] == name;
            assert(all.contains(own[i]));
        }
    }
    assert(automation_tools().contains(name) ==> all.contains(name)) by {
        let own = automation_tools();
        assert(own[0] == all[42]);
        assert(own[1] == all[43]);
        assert(own[2] == all[44]);
        assert(own[3] == all[45]);
        assert(own[4] == all[46]);
        assert(own[5] == all[47]);
        assert(own[6] == all[48]);
        assert(own[7] == all[49]);
        if own.contains(name) {
            let i = choose|i: int| 0 <= i < own.len() && own[i] == name;
            assert(all.contains(own[i]));
        }
    }
    assert(github_tools().contains(name) ==> all.contains(name)) by {
        let own = github_tools();
        assert(own[0] == all[50]);
        assert(own[1] == all[51]);
        assert(own[2] == all[52]);
        assert(own[3] == all[53]);
        assert(own[4] == all[71]);
        if own.contains(name) {
            let i = choose|i: int| 0 <= i < own.len() && own[i] == name;
            assert(all.contains(own[i]));
        }
    }
    assert(ledger_tools().contains(name) ==> all.contains(name)) by {
        let own = ledger_tools();
        assert(own[0] == all[73]);
        assert(own[1] == all[74]);
        assert(own[2] == all[75]);
        assert(own[3] == all[76]);
        if own.contains(name) {
            let i = choose|i: int| 0 <= i < own.len() && own[i] == name;
            assert(all.contains(own[i]));
        }
    }
    if all.contains(name) {
        let i = choose|i: int| 0 <= i < all.len() && all[i] == name;
        let own_task_tools = task_tools();
        assert(i == 0 ==> own_task_tools[0] == name);
        assert(i == 1 ==> own_task_tools[1] == name);
        assert(i == 2 ==> own_task_tools[2] == name);
        assert(i == 3 ==> own_task_tools[3] == name);
        assert(i == 4 ==> own_task_tools[4] == name);
        assert(i == 5 ==> own_task_tools[5] == name);
        assert(i == 6 ==> own_task_tools[6] == name);
        let own_attempt_tools = attempt_tools();
        assert(i == 7 ==> own_attempt_tools[0] == name);
        assert(i == 8 ==> own_attempt_tools[1] == name);
        assert(i == 9 ==> own_attempt_tools[2] == name);
        assert(i == 10 ==> own_attempt_tools[3] == name);
        let own_helper_tools = helper_tools();
        assert(i == 11 ==> own_helper_tools[0] == name);
        assert(i == 12 ==> own_helper_tools[1] == name);
        assert(i == 13 ==> own_helper_tools[2] == name);
        assert(i == 14 ==> own_helper_tools[3] == name);
        assert(i == 15 ==> own_helper_tools[4] == name);
        assert(i == 16 ==> own_helper_tools[5] == name);
        assert(i == 17 ==> own_helper_tools[6] == name);
        assert(i == 18 ==> own_helper_tools[7] == name);
        assert(i == 19 ==> own_helper_tools[8] == name);
        let own_session_tools = session_tools();
        assert(i == 20 ==> own_session_tools[0] == name);
        assert(i == 21 ==> own_session_tools[1] == name);
        assert(i == 22 ==> own_session_tools[2] == name);
        assert(i == 23 ==> own_session_tools[3] == name);
        assert(i == 70 ==> own_session_tools[4] == name);
        let own_goal_tools = goal_tools();
        assert(i == 24 ==> own_goal_tools[0] == name);
        assert(i == 25 ==> own_goal_tools[1] == name);
        assert(i == 26 ==> own_goal_tools[2] == name);
        let own_history_tools = history_tools();
        assert(i == 27 ==> own_history_tools[0] == name);
        assert(i == 28 ==> own_history_tools[1] == name);
        assert(i == 29 ==> own_history_tools[2] == name);
        let own_other_tools = other_tools();
        assert(i == 30 ==> own_other_tools[0] == name);
        assert(i == 31 ==> own_other_tools[1] == name);
        assert(i == 32 ==> own_other_tools[2] == name);
        assert(i == 33 ==> own_other_tools[3] == name);
        assert(i == 54 ==> own_other_tools[4] == name);
        assert(i == 55 ==> own_other_tools[5] == name);
        assert(i == 56 ==> own_other_tools[6] == name);
        assert(i == 57 ==> own_other_tools[7] == name);
        assert(i == 58 ==> own_other_tools[8] == name);
        assert(i == 59 ==> own_other_tools[9] == name);
        assert(i == 60 ==> own_other_tools[10] == name);
        assert(i == 61 ==> own_other_tools[11] == name);
        assert(i == 62 ==> own_other_tools[12] == name);
        assert(i == 63 ==> own_other_tools[13] == name);
        assert(i == 64 ==> own_other_tools[14] == name);
        assert(i == 65 ==> own_other_tools[15] == name);
        assert(i == 66 ==> own_other_tools[16] == name);
        assert(i == 67 ==> own_other_tools[17] == name);
        assert(i == 68 ==> own_other_tools[18] == name);
        assert(i == 69 ==> own_other_tools[19] == name);
        assert(i == 72 ==> own_other_tools[20] == name);
        let own_todo_tools = todo_tools();
        assert(i == 34 ==> own_todo_tools[0] == name);
        assert(i == 35 ==> own_todo_tools[1] == name);
        assert(i == 36 ==> own_todo_tools[2] == name);
        assert(i == 37 ==> own_todo_tools[3] == name);
        let own_command_tools = command_tools();
        assert(i == 38 ==> own_command_tools[0] == name);
        assert(i == 39 ==> own_command_tools[1] == name);
        assert(i == 40 ==> own_command_tools[2] == name);
        assert(i == 41 ==> own_command_tools[3] == name);
        let own_automation_tools = automation_tools();
        assert(i == 42 ==> own_automation_tools[0] == name);
        assert(i == 43 ==> own_automation_tools[1] == name);
        assert(i == 44 ==> own_automation_tools[2] == name);
        assert(i == 45 ==> own_automation_tools[3] == name);
        assert(i == 46 ==> own_automation_tools[4] == name);
        assert(i == 47 ==> own_automation_tools[5] == name);
        assert(i == 48 ==> own_automation_tools[6] == name);
        assert(i == 49 ==> own_automation_tools[7] == name);
        let own_github_tools = github_tools();
        assert(i == 50 ==> own_github_tools[0] == name);
        assert(i == 51 ==> own_github_tools[1] == name);
        assert(i == 52 ==> own_github_tools[2] == name);
        assert(i == 53 ==> own_github_tools[3] == name);
        assert(i == 71 ==> own_github_tools[4] == name);
        let own_ledger_tools = ledger_tools();
        assert(i == 73 ==> own_ledger_tools[0] == name);
        assert(i == 74 ==> own_ledger_tools[1] == name);
        assert(i == 75 ==> own_ledger_tools[2] == name);
        assert(i == 76 ==> own_ledger_tools[3] == name);
    }
}

/// Without exceptions the tools of the list are hidden and no other; a list of exceptions shows
/// again each tool that it names between commas, with or without white space round it.
pub proof fn exceptions_show_what_they_name(name: Seq<char>, list: Seq<char>, i: int)
    ensures
        is_hidden(name, None) <==> hidden_names().contains(name),
        0 <= i < split_on(list, ',').len() && trimmed(split_on(list, ',')[i]) == name ==> !is_hidden(
            name,
            Some(list),
        ),
        (forall|k: int|
            0 <= k < split_on(list, ',').len() ==> trimmed(#[trigger] split_on(list, ',')[k])
                != name) ==> (is_hidden(name, Some(list)) <==> hidden_names().contains(name)),
{
    if 0 <= i < split_on(list, ',').len() && trimmed(split_on(list, ',')[i]) == name {
        assert(list_names(list, name));
    }
}

// The model ------------------------------------------------------------------
/// The model is picked for a request just where it is called `auto`, in any case and with or
/// without white space round it.
pub proof fn models_are_picked_where_asked(model: Seq<char>)
    ensures
        is_auto(model) <==> lower(trimmed(model)) == "auto"@,
        model == "auto"@ ==> is_auto(model),
        model == "AUTO"@ ==> is_auto(model),
        model.len() < 4 ==> !is_auto(model),
{
    reveal_strlit("auto");
    reveal_strlit("AUTO");
    if model == "auto"@ || model == "AUTO"@ {
        assert(model[0] == 'a' || model[0] == 'A');
        assert(!crate::text::is_white(model[0]) && !crate::text::is_white(model[3]));
        assert(trimmed(model) == model);
        assert(lower(model) =~= "auto"@);
    }
    crate::text_laws::trimming_cuts_off_white_space_alone(model);
    assert(trimmed(model).len() <= model.len());
    assert(lower(trimmed(model)).len() == trimmed(model).len());
}

/// The words for each kind of failure of a tool, and for who serves a call.
pub proof fn failures_and_services_have_their_names(kind: ToolErrorKind, dispatch: Dispatch)
    ensures
        match kind {
            ToolErrorKind::InvalidInput => kind.label() == "invalid_input"@,
            ToolErrorKind::MissingField => kind.label() == "missing_field"@,
            ToolErrorKind::PathEscape => kind.label() == "path_escape"@,
            ToolErrorKind::ExecutionFailed => kind.label() == "execution_failed"@,
            ToolErrorKind::Timeout => kind.label() == "timeout"@,
            ToolErrorKind::NotAvailable => kind.label() == "not_available"@,
            ToolErrorKind::PermissionDenied => kind.label() == "permission_denied"@,
        },
        match dispatch {
            Dispatch::Mcp => dispatch.label() == "mcp"@,
            Dispatch::Interpreter => dispatch.label() == "interpreter"@,
            Dispatch::Registry => dispatch.label() == "registry"@,
            Dispatch::Missing => dispatch.label() == "missing"@,
        },
{
}

} // verus!
