//! Hidden tools, calls of tools, their output, and the choice of a model.
use codewhale::hidden_tools::{hidden_tools, is_pinvou3_hidden};
use codewhale::json::{Json, Member};
use codewhale::route::{resolve_cli_auto_route, wants_auto_route, CliAutoRoute, RouteSelection};
use codewhale::tool_calls::{
    admit_parallel_call, admit_parallel_calls, audit_line, mcp_outcome, needs_mcp_pool,
    needs_shell_permit, plan_call, plan_resume, CallSetting, Dispatch, Interpreter, LockMode,
    ParallelCall, ParallelResults, RegisteredTool, ResumePlan, Route, ToolErrorKind, ToolOutput,
    TrySend,
};
use codewhale::tool_output::{
    append_tool_output_batch, FlushCause, ForwarderAction, ForwarderEvent, OutputForwarder,
    ToolOutputStream,
};
use std::collections::VecDeque;

// Hidden tools ---------------------------------------------------------------
fn hidden(name: &str) -> bool {
    is_pinvou3_hidden(name, None)
}

#[test]
fn hides_known_state_management_tools() {
    assert!(hidden("task_create"));
    assert!(hidden("agent_open"));
    assert!(hidden("rlm_eval"));
    assert!(hidden("pr_attempt_record"));
}

#[test]
fn keeps_core_tools_visible() {
    assert!(!hidden("read_file"));
    assert!(!hidden("write_file"));
    assert!(!hidden("append_file"));
    assert!(!hidden("exec_shell"));
    assert!(!hidden("web_search"));
    assert!(!hidden("checklist_write"));
    assert!(!hidden("update_plan"));
    assert!(!hidden("image_analyze"));
}

#[test]
fn hides_legacy_todo_aliases_keeps_checklist() {
    assert!(hidden("todo_write"));
    assert!(hidden("todo_add"));
    assert!(!hidden("checklist_write"));
    assert!(!hidden("checklist_add"));
}

#[test]
fn env_override_unhides_listed_tools() {
    assert!(is_pinvou3_hidden("agent_spawn", None));
    let listed = Some("agent_spawn, agent_eval");
    assert!(!is_pinvou3_hidden("agent_spawn", listed));
    assert!(!is_pinvou3_hidden("agent_eval", listed));
    assert!(is_pinvou3_hidden("task_create", listed));
    assert!(!is_pinvou3_hidden("write_file", listed));
}

#[test]
fn hidden_tools_are_listed_once() {
    let mut names = hidden_tools();
    assert_eq!(names.len(), 77);
    names.sort();
    names.dedup();
    assert_eq!(names.len(), 77);
    assert!(names.into_iter().all(hidden));
}

// Output ---------------------------------------------------------------------
#[test]
fn forkguard_tool_output_forwarder_coalesces_without_dropping_on_backpressure() {
    let expected_stdout = (0..100).map(|i| format!("out-{i};")).collect::<String>();
    let expected_stderr = (0..50).map(|i| format!("err-{i};")).collect::<String>();
    let mut batches = VecDeque::new();
    for i in 0..100 {
        append_tool_output_batch(&mut batches, ToolOutputStream::Stdout, format!("out-{i};"));
    }
    for i in 0..50 {
        append_tool_output_batch(&mut batches, ToolOutputStream::Stderr, format!("err-{i};"));
    }
    assert_eq!(batches.len(), 2, "adjacent chunks should be coalesced");
    assert_eq!(batches[0].content, expected_stdout);
    assert_eq!(batches[1].content, expected_stderr);
}

#[test]
fn forwarders_send_what_waits_before_they_answer() {
    let mut forwarder = OutputForwarder::new();
    for (stream, content) in [
        (ToolOutputStream::Stdout, "a"),
        (ToolOutputStream::Stdout, "b"),
        (ToolOutputStream::Stderr, ""),
        (ToolOutputStream::Stderr, "c"),
    ] {
        let event = ForwarderEvent::Chunk { stream, content: content.to_string() };
        assert!(matches!(forwarder.step(event), ForwarderAction::Wait));
    }
    assert!(forwarder.has_output());
    match forwarder.step(ForwarderEvent::Flush(FlushCause::Asked)) {
        ForwarderAction::Send(batch) => assert_eq!(batch.content, "ab"),
        other => panic!("unexpected action {other:?}"),
    }
    match forwarder.step(ForwarderEvent::Sent { delivered: true }) {
        ForwarderAction::Send(batch) => {
            assert_eq!(batch.content, "c");
            assert_eq!(batch.stream, ToolOutputStream::Stderr);
        }
        other => panic!("unexpected action {other:?}"),
    }
    assert!(matches!(
        forwarder.step(ForwarderEvent::Sent { delivered: true }),
        ForwarderAction::Acknowledge { stop: false }
    ));
    assert!(!forwarder.has_output());
}

#[test]
fn forwarders_stop_when_nobody_listens() {
    let waiting = || {
        let mut forwarder = OutputForwarder::new();
        let content = "x".to_string();
        forwarder.step(ForwarderEvent::Chunk { stream: ToolOutputStream::Stdout, content });
        forwarder
    };
    let mut forwarder = waiting();
    forwarder.step(ForwarderEvent::Flush(FlushCause::Ticked));
    let gone = ForwarderEvent::Sent { delivered: false };
    assert!(matches!(forwarder.step(gone), ForwarderAction::Stop));
    let mut forwarder = waiting();
    forwarder.step(ForwarderEvent::Flush(FlushCause::Asked));
    let gone = ForwarderEvent::Sent { delivered: false };
    assert!(matches!(forwarder.step(gone), ForwarderAction::Acknowledge { stop: true }));
    let mut forwarder = OutputForwarder::new();
    assert!(matches!(
        forwarder.step(ForwarderEvent::Flush(FlushCause::Closed)),
        ForwarderAction::Stop
    ));
}

// Calls ----------------------------------------------------------------------
fn setting(name: &str) -> CallSetting {
    CallSetting {
        tool_name: name.to_string(),
        is_mcp: false,
        has_mcp_pool: false,
        interpreter: None,
        has_registry: true,
        has_call_id: true,
        supports_parallel: false,
        interactive: false,
    }
}

#[test]
fn calls_go_their_way() {
    let plan = plan_call(&setting("exec_shell"));
    assert_eq!(plan.dispatch.name(), "registry");
    assert!(matches!(plan.route, Route::Registry));
    assert!(plan.streams_output);
    assert_eq!(plan.lock, LockMode::Exclusive);
    assert!(!plan.pauses_terminal);

    let mut call = setting("mcp_thing");
    call.is_mcp = true;
    call.supports_parallel = true;
    call.interactive = true;
    let plan = plan_call(&call);
    assert_eq!(plan.dispatch, Dispatch::Mcp);
    assert_eq!(plan.lock, LockMode::Shared);
    assert!(plan.pauses_terminal);
    match plan.route {
        Route::Refuse(fault) => {
            assert_eq!(fault.kind.name(), "not_available");
            assert_eq!(fault.message, "tool 'mcp_thing' is not registered");
        }
        other => panic!("unexpected route {other:?}"),
    }
    call.has_mcp_pool = true;
    assert!(matches!(plan_call(&call).route, Route::McpPool));

    let mut call = setting("code");
    call.interpreter = Some(Interpreter::Js);
    assert!(matches!(plan_call(&call).route, Route::Interpreter(Interpreter::Js)));

    let mut call = setting("exec_shell");
    call.has_registry = false;
    let plan = plan_call(&call);
    assert_eq!(plan.dispatch.name(), "missing");
    assert!(!plan.streams_output);
}

#[test]
fn mcp_results_are_written_out() {
    let members = vec![Member { key: "ok".to_string(), value: Json::Bool(true) }];
    let output = mcp_outcome(Ok(Json::Object(members))).expect("output");
    assert!(output.success);
    assert_eq!(output.content, "{\n  \"ok\": true\n}");
    let fault = mcp_outcome(Err("gone".to_string())).expect_err("fault");
    assert_eq!(fault.kind, ToolErrorKind::ExecutionFailed);
    assert_eq!(fault.message, "MCP tool failed: gone");
}

#[test]
fn audit_lines_are_json() {
    let event = Json::Object(vec![
        Member { key: "event".to_string(), value: Json::Text("tool.result".to_string()) },
        Member { key: "success".to_string(), value: Json::Bool(true) },
    ]);
    assert_eq!(audit_line(&event), "{\"event\":\"tool.result\",\"success\":true}\n");
}

#[test]
fn terminal_guard_queues_resume_when_event_channel_is_full() {
    assert_eq!(plan_resume(TrySend::Full, true), ResumePlan::Queue);
    assert_eq!(plan_resume(TrySend::Full, false), ResumePlan::Lost);
    assert_eq!(plan_resume(TrySend::Sent, true), ResumePlan::Done);
    assert_eq!(plan_resume(TrySend::Closed, true), ResumePlan::Done);
}

// Calls side by side ---------------------------------------------------------
fn call(name: &str) -> ParallelCall {
    ParallelCall {
        tool_name: name.to_string(),
        is_mcp: false,
        mcp_parallel_safe: false,
        registered: Some(RegisteredTool {
            read_only: true,
            needs_approval: false,
            supports_parallel: true,
        }),
    }
}

fn refusal(call: &ParallelCall) -> (ToolErrorKind, String) {
    let fault = admit_parallel_call(call).expect_err("refused");
    (fault.kind, fault.message)
}

#[test]
fn only_harmless_calls_run_side_by_side() {
    assert!(admit_parallel_call(&call("read_file")).is_ok());
    assert_eq!(
        refusal(&call("multi_tool_use.parallel")),
        (ToolErrorKind::InvalidInput, "multi_tool_use.parallel cannot call itself".to_string())
    );
    let mut unknown = call("nope");
    unknown.registered = None;
    assert_eq!(
        refusal(&unknown),
        (ToolErrorKind::NotAvailable, "tool 'nope' is not registered".to_string())
    );
    let tool = |read_only, needs_approval, supports_parallel| {
        let mut c = call("t");
        c.registered = Some(RegisteredTool { read_only, needs_approval, supports_parallel });
        refusal(&c).1
    };
    assert_eq!(tool(false, true, false), "Tool 't' is not read-only and cannot run in parallel");
    assert_eq!(tool(true, true, false), "Tool 't' requires approval and cannot run in parallel");
    assert_eq!(tool(true, false, false), "Tool 't' does not support parallel execution");
    let mut mcp = call("mcp_x");
    mcp.is_mcp = true;
    assert_eq!(
        refusal(&mcp).1,
        "Tool 'mcp_x' is an MCP tool and cannot run in parallel. Allowed MCP tools: \
         list_mcp_resources, list_mcp_resource_templates, mcp_read_resource, read_mcp_resource, \
         mcp_get_prompt."
    );
    mcp.mcp_parallel_safe = true;
    assert!(admit_parallel_call(&mcp).is_ok());
}

#[test]
fn one_refused_call_refuses_all() {
    let mut bad = call("bad");
    bad.registered = None;
    let calls = vec![call("a"), bad, call("multi_tool_use.parallel")];
    let fault = admit_parallel_calls(&calls, true).expect_err("refused");
    assert_eq!(fault.message, "tool 'bad' is not registered");
    let fault = admit_parallel_calls(&Vec::new(), false).expect_err("refused");
    assert_eq!(fault.message, "tool registry unavailable for multi_tool_use.parallel");
    assert!(admit_parallel_calls(&vec![call("a")], true).is_ok());
    assert!(!needs_mcp_pool(&calls));
    let mut mcp = call("m");
    mcp.is_mcp = true;
    assert!(needs_mcp_pool(&vec![call("a"), mcp]));
    assert!(needs_shell_permit("exec_shell"));
    assert!(!needs_shell_permit("exec_shell_wait"));
}

#[test]
fn results_are_in_call_order() {
    let mut results = ParallelResults::new(3);
    let output = |content: &str, success| Ok(ToolOutput { content: content.to_string(), success });
    results.settle(2, "third".to_string(), Err("boom".to_string()));
    results.settle(0, "first".to_string(), output("fine", true));
    results.settle(1, "second".to_string(), output("bad", false));
    let entries = results.finish();
    assert_eq!(entries.len(), 3);
    assert_eq!(entries[0].tool_name, "first");
    assert!(entries[0].success);
    assert_eq!(entries[0].error, None);
    assert_eq!(entries[1].error.as_deref(), Some("bad"));
    assert_eq!(entries[1].content, "bad");
    assert_eq!(entries[2].content, "Error: boom");
    assert_eq!(entries[2].error.as_deref(), Some("boom"));
}

// Routes ---------------------------------------------------------------------
#[test]
fn models_are_picked_on_request() {
    assert!(wants_auto_route(" Auto "));
    assert!(!wants_auto_route("autox"));
    let selection = || RouteSelection {
        model: "deepseek-v4-flash".to_string(),
        reasoning_effort: Some("high".to_string()),
    };
    let route = resolve_cli_auto_route("AUTO", Some(selection()));
    assert_eq!(route.model, "deepseek-v4-flash");
    assert_eq!(route.reasoning_effort.as_deref(), Some("high"));
    assert!(route.auto_model);
    let route = resolve_cli_auto_route("deepseek-v4", Some(selection()));
    assert_eq!(route.model, "deepseek-v4");
    assert_eq!(route.reasoning_effort, None);
    assert!(!route.auto_model);
    let fixed = CliAutoRoute::fixed(" deepseek-v4 ");
    assert_eq!(fixed.model, " deepseek-v4 ");
    assert_eq!(fixed.reasoning_effort, None);
    assert!(!fixed.auto_model);
    let picked = CliAutoRoute::picked(RouteSelection {
        model: "m".to_string(),
        reasoning_effort: Some("high".to_string()),
    });
    assert_eq!((picked.model.as_str(), picked.reasoning_effort.as_deref()), ("m", Some("high")));
    assert!(picked.auto_model);
}
