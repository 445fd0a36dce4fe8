//! Calls of tools: which way a call goes, which calls may run side by side, and how
//! their results come together.
use vstd::prelude::*;
use vstd::string::*;

use crate::json::{json_pretty, json_text, render, render_pretty, Json};
use crate::text::{copy_text, join2, join3, same_text};

verus! {

/// The tool that runs others side by side.
pub const MULTI_TOOL_PARALLEL_NAME: &'static str = "multi_tool_use.parallel";

// Failures -------------------------------------------------------------------
/// The kinds of failure of a tool.
#[derive(Debug, Clone, Copy, PartialEq, Eq, Structural)]
pub enum ToolErrorKind {
    InvalidInput,
    MissingField,
    PathEscape,
    ExecutionFailed,
    Timeout,
    NotAvailable,
    PermissionDenied,
}

impl ToolErrorKind {
    pub open spec fn label(self) -> Seq<char> {
        match self {
            ToolErrorKind::InvalidInput => "invalid_input"@,
            ToolErrorKind::MissingField => "missing_field"@,
            ToolErrorKind::PathEscape => "path_escape"@,
            ToolErrorKind::ExecutionFailed => "execution_failed"@,
            ToolErrorKind::Timeout => "timeout"@,
            ToolErrorKind::NotAvailable => "not_available"@,
            ToolErrorKind::PermissionDenied => "permission_denied"@,
        }
    }

    /// The name of the kind, as logs have it.
    pub fn name(&self) -> (r: &'static str)
        ensures
            r@ == self.label(),
    {
        match self {
            ToolErrorKind::InvalidInput => "invalid_input",
            ToolErrorKind::MissingField => "missing_field",
            ToolErrorKind::PathEscape => "path_escape",
            ToolErrorKind::ExecutionFailed => "execution_failed",
            ToolErrorKind::Timeout => "timeout",
            ToolErrorKind::NotAvailable => "not_available",
            ToolErrorKind::PermissionDenied => "permission_denied",
        }
    }
}

/// A failure of a tool.
#[derive(Debug)]
pub struct ToolFault {
    pub kind: ToolErrorKind,
    pub message: String,
}

impl ToolFault {
    pub open spec fn says(self, kind: ToolErrorKind, message: Seq<char>) -> bool {
        self.kind == kind && self.message@ == message
    }
}

/// What a tool hands back.
#[derive(Debug)]
pub struct ToolOutput {
    pub content: String,
    pub success: bool,
}

/// The words for a tool that nobody knows.
pub open spec fn not_registered(name: Seq<char>) -> Seq<char> {
    "tool '"@ + name + "' is not registered"@
}

fn unregistered(name: &str) -> (r: ToolFault)
    ensures
        r.says(ToolErrorKind::NotAvailable, not_registered(name@)),
{
    ToolFault {
        kind: ToolErrorKind::NotAvailable,
        message: join3("tool '", name, "' is not registered"),
    }
}

// The way of a call ----------------------------------------------------------
/// The interpreters that run code themselves.
#[derive(Debug, Clone, Copy, PartialEq, Eq, Structural)]
pub enum Interpreter {
    Code,
    Js,
}

/// What is known of a call before it is made.
#[derive(Debug)]
pub struct CallSetting {
    pub tool_name: String,
    /// The tool belongs to an MCP server.
    pub is_mcp: bool,
    /// There is a connection to the MCP servers.
    pub has_mcp_pool: bool,
    /// The tool is one of the interpreters.
    pub interpreter: Option<Interpreter>,
    /// There is a registry of tools.
    pub has_registry: bool,
    /// The call has an identifier.
    pub has_call_id: bool,
    /// The call may run beside others.
    pub supports_parallel: bool,
    /// The tool needs the terminal for itself.
    pub interactive: bool,
}

/// Who serves a call.
#[derive(Debug, Clone, Copy, PartialEq, Eq, Structural)]
pub enum Dispatch {
    Mcp,
    Interpreter,
    Registry,
    Missing,
}

impl Dispatch {
    pub open spec fn label(self) -> Seq<char> {
        match self {
            Dispatch::Mcp => "mcp"@,
            Dispatch::Interpreter => "interpreter"@,
            Dispatch::Registry => "registry"@,
            Dispatch::Missing => "missing"@,
        }
    }

    /// The name of the way, as logs have it.
    pub fn name(&self) -> (r: &'static str)
        ensures
            r@ == self.label(),
    {
        match self {
            Dispatch::Mcp => "mcp",
            Dispatch::Interpreter => "interpreter",
            Dispatch::Registry => "registry",
            Dispatch::Missing => "missing",
        }
    }
}

/// Where a call is made.
#[derive(Debug)]
pub enum Route {
    McpPool,
    Interpreter(Interpreter),
    Registry,
    /// Nowhere.
    Refuse(ToolFault),
}

/// How the lock on tools is taken.
#[derive(Debug, Clone, Copy, PartialEq, Eq, Structural)]
pub enum LockMode {
    Shared,
    Exclusive,
}

/// How a call is made.
#[derive(Debug)]
pub struct CallPlan {
    pub dispatch: Dispatch,
    pub route: Route,
    /// Whether the tool's output is shown while it runs.
    pub streams_output: bool,
    pub lock: LockMode,
    /// Whether the terminal is handed over.
    pub pauses_terminal: bool,
}

/// The tools whose output is shown while they run.
pub open spec fn streaming(name: Seq<char>) -> bool {
    name == "exec_shell"@ || name == "exec_shell_wait"@ || name == "exec_wait"@ || name
        == "task_shell_wait"@
}

pub open spec fn dispatch_of(call: CallSetting) -> Dispatch {
    if call.is_mcp {
        Dispatch::Mcp
    } else if call.interpreter is Some {
        Dispatch::Interpreter
    } else if call.has_registry {
        Dispatch::Registry
    } else {
        Dispatch::Missing
    }
}

/// Where a call is made.
pub open spec fn is_route(call: CallSetting, route: Route) -> bool {
    match dispatch_of(call) {
        Dispatch::Mcp if call.has_mcp_pool => route is McpPool,
        Dispatch::Interpreter => route == Route::Interpreter(call.interpreter->Some_0),
        Dispatch::Registry => route is Registry,
        _ => route matches Route::Refuse(fault) && fault.says(
            ToolErrorKind::NotAvailable,
            not_registered(call.tool_name@),
        ),
    }
}

/// How a call is made.
pub open spec fn is_call_plan(call: CallSetting, plan: CallPlan) -> bool {
    &&& plan.dispatch == dispatch_of(call)
    &&& is_route(call, plan.route)
    &&& plan.streams_output == (streaming(call.tool_name@) && call.has_registry
        && call.has_call_id)
    &&& plan.lock == if call.supports_parallel {
        LockMode::Shared
    } else {
        LockMode::Exclusive
    }
    &&& plan.pauses_terminal == call.interactive
}

fn is_streaming(name: &str) -> (r: bool)
    ensures
        r == streaming(name@),
{
    same_text(name, "exec_shell") || same_text(name, "exec_shell_wait") || same_text(
        name,
        "exec_wait",
    ) || same_text(name, "task_shell_wait")
}

/// Plans a call.
pub fn plan_call(call: &CallSetting) -> (r: CallPlan)
    ensures
        is_call_plan(*call, r),
{
    let (dispatch, route) = if call.is_mcp {
        (
            Dispatch::Mcp,
            if call.has_mcp_pool {
                Route::McpPool
            } else {
                Route::Refuse(unregistered(call.tool_name.as_str()))
            },
        )
    } else if let Some(interpreter) = call.interpreter {
        (Dispatch::Interpreter, Route::Interpreter(interpreter))
    } else if call.has_registry {
        (Dispatch::Registry, Route::Registry)
    } else {
        (Dispatch::Missing, Route::Refuse(unregistered(call.tool_name.as_str())))
    };
    CallPlan {
        dispatch,
        route,
        streams_output: is_streaming(call.tool_name.as_str()) && call.has_registry
            && call.has_call_id,
        lock: if call.supports_parallel {
            LockMode::Shared
        } else {
            LockMode::Exclusive
        },
        pauses_terminal: call.interactive,
    }
}

/// What a call of an MCP tool comes to.
pub fn mcp_outcome(result: Result<Json, String>) -> (r: Result<ToolOutput, ToolFault>)
    ensures
        match result {
            Ok(value) => r matches Ok(output) && output.success && output.content@ == json_pretty(
                value,
            ),
            Err(why) => r matches Err(fault) && fault.says(
                ToolErrorKind::ExecutionFailed,
                "MCP tool failed: "@ + why@,
            ),
        },
{
    match result {
        Ok(value) => Ok(ToolOutput { content: render_pretty(&value), success: true }),
        Err(why) => Err(
            ToolFault {
                kind: ToolErrorKind::ExecutionFailed,
                message: join2("MCP tool failed: ", why.as_str()),
            },
        ),
    }
}

// The terminal ---------------------------------------------------------------
/// What became of the word that the terminal is free again.
#[derive(Debug, Clone, Copy, PartialEq, Eq, Structural)]
pub enum TrySend {
    Sent,
    /// There is no room for it now.
    Full,
    /// Nobody is there to receive it.
    Closed,
}

/// What is still to be done about it.
#[derive(Debug, Clone, Copy, PartialEq, Eq, Structural)]
pub enum ResumePlan {
    Done,
    /// Send it as soon as there is room.
    Queue,
    /// Nobody can send it.
    Lost,
}

/// What is still to be done so that the terminal is taken back.
pub fn plan_resume(sent: TrySend, has_runtime: bool) -> (r: ResumePlan)
    ensures
        r == match sent {
            TrySend::Full if has_runtime => ResumePlan::Queue,
            TrySend::Full => ResumePlan::Lost,
            _ => ResumePlan::Done,
        },
{
    match sent {
        TrySend::Full => if has_runtime {
            ResumePlan::Queue
        } else {
            ResumePlan::Lost
        },
        _ => ResumePlan::Done,
    }
}

// The audit log --------------------------------------------------------------
/// The line of the audit log that tells of an event.
pub fn audit_line(event: &Json) -> (r: String)
    ensures
        r@ == json_text(*event) + "\n"@,
{
    join2(render(event).as_str(), "\n")
}

// Calls side by side ---------------------------------------------------------
/// What the registry says of a call.
#[derive(Debug, Clone, Copy, PartialEq, Eq, Structural)]
pub struct RegisteredTool {
    pub read_only: bool,
    pub needs_approval: bool,
    pub supports_parallel: bool,
}

/// A call that is to run beside others.
#[derive(Debug)]
pub struct ParallelCall {
    pub tool_name: String,
    /// The tool belongs to an MCP server.
    pub is_mcp: bool,
    /// The tool is one of the MCP tools that may run side by side.
    pub mcp_parallel_safe: bool,
    /// What the registry says of it, where it knows the tool.
    pub registered: Option<RegisteredTool>,
}

/// Why a call may not run beside others.
pub open spec fn call_refusal(call: ParallelCall) -> Option<(ToolErrorKind, Seq<char>)> {
    let name = call.tool_name@;
    if name == MULTI_TOOL_PARALLEL_NAME@ {
        Some((ToolErrorKind::InvalidInput, "multi_tool_use.parallel cannot call itself"@))
    } else if call.is_mcp {
        if call.mcp_parallel_safe {
            None
        } else {
            Some(
                (
                    ToolErrorKind::InvalidInput,
                    "Tool '"@ + name
                        + "' is an MCP tool and cannot run in parallel. Allowed MCP tools: list_mcp_resources, list_mcp_resource_templates, mcp_read_resource, read_mcp_resource, mcp_get_prompt."@,
                ),
            )
        }
    } else {
        match call.registered {
            None => Some((ToolErrorKind::NotAvailable, not_registered(name))),
            Some(tool) => if !tool.read_only {
                Some(
                    (
                        ToolErrorKind::InvalidInput,
                        "Tool '"@ + name + "' is not read-only and cannot run in parallel"@,
                    ),
                )
            } else if tool.needs_approval {
                Some(
                    (
                        ToolErrorKind::InvalidInput,
                        "Tool '"@ + name + "' requires approval and cannot run in parallel"@,
                    ),
                )
            } else if !tool.supports_parallel {
                Some(
                    (
                        ToolErrorKind::InvalidInput,
                        "Tool '"@ + name + "' does not support parallel execution"@,
                    ),
                )
            } else {
                None
            },
        }
    }
}

/// The refusal of the first call that is refused.
pub open spec fn calls_refusal(calls: Seq<ParallelCall>) -> Option<(ToolErrorKind, Seq<char>)>
    decreases calls.len(),
{
    if calls.len() == 0 {
        None
    } else if call_refusal(calls[0]) is Some {
        call_refusal(calls[0])
    } else {
        calls_refusal(calls.drop_first())
    }
}

/// The result of a test whose refusal is known.
pub open spec fn is_verdict(
    refusal: Option<(ToolErrorKind, Seq<char>)>,
    r: Result<(), ToolFault>,
) -> bool {
    match refusal {
        None => r is Ok,
        Some((kind, message)) => r matches Err(fault) && fault.says(kind, message),
    }
}

fn invalid(name: &str, why: &str) -> (r: ToolFault)
    ensures
        r.says(ToolErrorKind::InvalidInput, "Tool '"@ + name@ + why@),
{
    ToolFault { kind: ToolErrorKind::InvalidInput, message: join3("Tool '", name, why) }
}

/// Whether a call may run beside others.
pub fn admit_parallel_call(call: &ParallelCall) -> (r: Result<(), ToolFault>)
    ensures
        is_verdict(call_refusal(*call), r),
{
    let name = call.tool_name.as_str();
    if same_text(name, MULTI_TOOL_PARALLEL_NAME) {
        return Err(
            ToolFault {
                kind: ToolErrorKind::InvalidInput,
                message: copy_text("multi_tool_use.parallel cannot call itself"),
            },
        );
    }
    if call.is_mcp {
        if !call.mcp_parallel_safe {
            return Err(
                invalid(
                    name,
                    "' is an MCP tool and cannot run in parallel. Allowed MCP tools: list_mcp_resources, list_mcp_resource_templates, mcp_read_resource, read_mcp_resource, mcp_get_prompt.",
                ),
            );
        }
        return Ok(());
    }
    match &call.registered {
        None => Err(unregistered(name)),
        Some(tool) => if !tool.read_only {
            Err(invalid(name, "' is not read-only and cannot run in parallel"))
        } else if tool.needs_approval {
            Err(invalid(name, "' requires approval and cannot run in parallel"))
        } else if !tool.supports_parallel {
            Err(invalid(name, "' does not support parallel execution"))
        } else {
            Ok(())
        },
    }
}

/// Whether the calls may run side by side: none is made before all are admitted.
pub fn admit_parallel_calls(calls: &Vec<ParallelCall>, has_registry: bool) -> (r: Result<
    (),
    ToolFault,
>)
    ensures
        if has_registry {
            is_verdict(calls_refusal(calls@), r)
        } else {
            r matches Err(fault) && fault.says(
                ToolErrorKind::NotAvailable,
                "tool registry unavailable for multi_tool_use.parallel"@,
            )
        },
{
    if !has_registry {
        return Err(
            ToolFault {
                kind: ToolErrorKind::NotAvailable,
                message: copy_text("tool registry unavailable for multi_tool_use.parallel"),
            },
        );
    }
    let mut i: usize = 0;
    assert(calls@.skip(0) == calls@);
    while i < calls.len()
        invariant
            i <= calls@.len(),
            has_registry,
            calls_refusal(calls@) == calls_refusal(calls@.skip(i as int)),
        decreases calls@.len() - i,
    {
        assert(calls@.skip(i as int)[0] == calls@[i as int]);
        assert(calls@.skip(i as int).drop_first() == calls@.skip(i + 1));
        let verdict = admit_parallel_call(&calls[i]);
        if verdict.is_err() {
            return verdict;
        }
        i += 1;
    }
    Ok(())
}

/// One of the calls goes to an MCP server.
pub open spec fn calls_mcp(calls: Seq<ParallelCall>) -> bool {
    exists|i: int| 0 <= i < calls.len() && (#[trigger] calls[i]).is_mcp
}

/// Whether a connection to the MCP servers is needed.
pub fn needs_mcp_pool(calls: &Vec<ParallelCall>) -> (r: bool)
    ensures
        r == calls_mcp(calls@),
{
    let mut i: usize = 0;
    while i < calls.len()
        invariant
            i <= calls@.len(),
            forall|k: int| 0 <= k < i ==> !(#[trigger] calls@[k]).is_mcp,
        decreases calls@.len() - i,
    {
        if calls[i].is_mcp {
            return true;
        }
        i += 1;
    }
    false
}

/// Whether a call takes one of the few places for shells.
pub fn needs_shell_permit(name: &str) -> (r: bool)
    ensures
        r == (name@ == "exec_shell"@),
{
    same_text(name, "exec_shell")
}

/// The result of a call that ran beside others.
#[derive(Debug)]
pub struct ParallelToolResultEntry {
    pub tool_name: String,
    pub success: bool,
    pub content: String,
    pub error: Option<String>,
}

/// What a call came to, as an entry.
pub open spec fn is_entry(
    tool_name: Seq<char>,
    result: Result<ToolOutput, String>,
    entry: ParallelToolResultEntry,
) -> bool {
    &&& entry.tool_name@ == tool_name
    &&& match result {
        Ok(output) => {
            &&& entry.success == output.success
            &&& entry.content@ == output.content@
            &&& match entry.error {
                None => output.success,
                Some(e) => !output.success && e@ == output.content@,
            }
        },
        Err(message) => {
            &&& !entry.success
            &&& entry.content@ == "Error: "@ + message@
            &&& entry.error matches Some(e) && e@ == message@
        },
    }
}

/// Makes an entry of what a call came to.
pub fn result_entry(tool_name: String, result: Result<ToolOutput, String>) -> (r:
    ParallelToolResultEntry)
    ensures
        is_entry(tool_name@, result, r),
{
    match result {
        Ok(output) => {
            let error = if output.success {
                None
            } else {
                Some(copy_text(output.content.as_str()))
            };
            ParallelToolResultEntry {
                tool_name,
                success: output.success,
                content: output.content,
                error,
            }
        },
        Err(message) => ParallelToolResultEntry {
            tool_name,
            success: false,
            content: join2("Error: ", message.as_str()),
            error: Some(message),
        },
    }
}

/// The results of calls that run side by side, each at the place of its call.
#[derive(Debug)]
pub struct ParallelResults {
    pub slots: Vec<Option<ParallelToolResultEntry>>,
}

/// The results that are there, in the order of their calls.
pub open spec fn present(slots: Seq<Option<ParallelToolResultEntry>>) -> Seq<
    ParallelToolResultEntry,
>
    decreases slots.len(),
{
    if slots.len() == 0 {
        Seq::empty()
    } else {
        match slots.last() {
            Some(entry) => present(slots.drop_last()).push(entry),
            None => present(slots.drop_last()),
        }
    }
}

impl ParallelResults {
    /// No results yet.
    pub fn new(count: usize) -> (r: Self)
        ensures
            r.slots@.len() == count,
            forall|i: int| 0 <= i < count ==> #[trigger] r.slots@[i] is None,
    {
        let mut slots: Vec<Option<ParallelToolResultEntry>> = Vec::new();
        let mut i: usize = 0;
        while i < count
            invariant
                i <= count,
                slots@.len() == i,
                forall|k: int| 0 <= k < i ==> #[trigger] slots@[k] is None,
            decreases count - i,
        {
            slots.push(None);
            i += 1;
        }
        ParallelResults { slots }
    }

    /// Takes the result of the call at `index`.
    pub fn settle(&mut self, index: usize, tool_name: String, result: Result<ToolOutput, String>)
        requires
            index < old(self).slots@.len(),
        ensures
            exists|entry: ParallelToolResultEntry| #[trigger]
                is_entry(tool_name@, result, entry) && final(self).slots@ == old(
                    self,
                ).slots@.update(index as int, Some(entry)),
    {
        let entry = result_entry(tool_name, result);
        assert(is_entry(tool_name@, result, entry));
        self.slots.set(index, Some(entry));
    }

    /// The results that are there, in the order of their calls.
    pub fn finish(self) -> (r: Vec<ParallelToolResultEntry>)
        ensures
            r@ == present(self.slots@),
    {
        let mut rest = self.slots;
        let ghost all = rest@;
        let mut out: Vec<ParallelToolResultEntry> = Vec::new();
        assert(all.take(0) == Seq::<Option<ParallelToolResultEntry>>::empty());
        let ghost mut taken: int = 0;
        while rest.len() > 0
            invariant
                0 <= taken <= all.len(),
                rest@ == all.skip(taken),
                out@ == present(all.take(taken)),
            decreases rest@.len(),
        {
            let slot = rest.remove(0);
            proof {
                assert(slot == all[taken]);
                assert(all.take(taken + 1).drop_last() == all.take(taken));
                assert(all.take(taken + 1).last() == all[taken]);
                assert(rest@ == all.skip(taken + 1));
            }
            if let Some(entry) = slot {
                out.push(entry);
            }
            proof {
                taken = taken + 1;
            }
        }
        assert(all.take(taken) == all);
        out
    }
}

// Laws -----------------------------------------------------------------------
/// Calls run side by side only if every one of them may.
pub proof fn only_harmless_calls_run_side_by_side(calls: Seq<ParallelCall>, i: int)
    requires
        calls_refusal(calls) is None,
        0 <= i < calls.len(),
    ensures
        calls[i].tool_name@ != MULTI_TOOL_PARALLEL_NAME@,
        calls[i].is_mcp ==> calls[i].mcp_parallel_safe,
        !calls[i].is_mcp ==> (calls[i].registered matches Some(tool) && tool.read_only
            && !tool.needs_approval && tool.supports_parallel),
    decreases calls.len(),
{
    if i > 0 {
        assert(calls.drop_first()[i - 1] == calls[i]);
        only_harmless_calls_run_side_by_side(calls.drop_first(), i - 1);
    }
}

/// The order in which two calls end does not matter.
pub proof fn results_come_in_any_order(
    slots: Seq<Option<ParallelToolResultEntry>>,
    i: int,
    a: ParallelToolResultEntry,
    j: int,
    b: ParallelToolResultEntry,
)
    requires
        0 <= i < slots.len(),
        0 <= j < slots.len(),
        i != j,
    ensures
        slots.update(i, Some(a)).update(j, Some(b)) == slots.update(j, Some(b)).update(i, Some(a)),
{
    assert(slots.update(i, Some(a)).update(j, Some(b)) =~= slots.update(j, Some(b)).update(
        i,
        Some(a),
    ));
}

/// Once every call has ended, there is one result for each, in the order of the calls.
pub proof fn results_are_in_call_order(slots: Seq<Option<ParallelToolResultEntry>>)
    requires
        forall|i: int| 0 <= i < slots.len() ==> #[trigger] slots[i] is Some,
    ensures
        present(slots).len() == slots.len(),
        forall|i: int| 0 <= i < slots.len() ==> #[trigger] slots[i] == Some(present(slots)[i]),
    decreases slots.len(),
{
    if slots.len() > 0 {
        let fewer = slots.drop_last();
        assert forall|i: int| 0 <= i < fewer.len() implies #[trigger] fewer[i] is Some by {
            assert(slots[i] is Some);
        }
        results_are_in_call_order(fewer);
        assert(slots.last() == slots[slots.len() - 1]);
        assert forall|i: int| 0 <= i < slots.len() implies #[trigger] slots[i] == Some(
            present(slots)[i],
        ) by {
            if i < fewer.len() {
                assert(fewer[i] == slots[i]);
            }
        }
    }
}

} // verus!
