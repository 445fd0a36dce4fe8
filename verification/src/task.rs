//! Background tasks: what is stored of them and what is said about them.
use vstd::prelude::*;
use vstd::string::*;

use crate::failure::{failure, Failure};
use crate::json::{json_text, render, Json};
use crate::storage_id::{ensure_safe_storage_id, storage_id_fault};
use crate::text::{
    byte_len, chars_of, copy_text, is_control_char, join2, join3, lower, same_text, text_opt,
    to_lower, trim, trimmed, utf8_len,
};
use crate::time::Timestamp;

verus! {

/// The newest layout of a task record that is understood.
pub const CURRENT_TASK_SCHEMA_VERSION: u32 = 3;

/// How long a line of a task's timeline may be.
pub const TIMELINE_SUMMARY_LIMIT: usize = 240;

/// From how many bytes on an output is kept in a file of its own.
pub const ARTIFACT_THRESHOLD: usize = 1200;

/// How many workers run tasks unless asked otherwise.
pub const DEFAULT_WORKERS: usize = 2;

/// How many workers run tasks at most.
pub const MAX_WORKERS: usize = 8;

/// Durable task status.
#[derive(Debug, Clone, Copy, PartialEq, Eq, Structural)]
pub enum TaskStatus {
    Queued,
    Running,
    Completed,
    Failed,
    Canceled,
}

impl TaskStatus {
    pub open spec fn terminal(self) -> bool {
        self is Completed || self is Failed || self is Canceled
    }

    /// Whether a task with this status has come to its end.
    pub fn is_terminal(self) -> (r: bool)
        ensures
            r == self.terminal(),
    {
        match self {
            TaskStatus::Completed | TaskStatus::Failed | TaskStatus::Canceled => true,
            TaskStatus::Queued | TaskStatus::Running => false,
        }
    }

    pub open spec fn name_spec(self) -> Seq<char> {
        match self {
            TaskStatus::Queued => "Queued"@,
            TaskStatus::Running => "Running"@,
            TaskStatus::Completed => "Completed"@,
            TaskStatus::Failed => "Failed"@,
            TaskStatus::Canceled => "Canceled"@,
        }
    }

    /// The status in a word.
    pub fn name(self) -> (r: &'static str)
        ensures
            r@ == self.name_spec(),
    {
        match self {
            TaskStatus::Queued => "Queued",
            TaskStatus::Running => "Running",
            TaskStatus::Completed => "Completed",
            TaskStatus::Failed => "Failed",
            TaskStatus::Canceled => "Canceled",
        }
    }
}

/// Durable tool-call status within a task timeline.
#[derive(Debug, Clone, Copy, PartialEq, Eq, Structural)]
pub enum TaskToolStatus {
    Running,
    Success,
    Failed,
    Canceled,
}

/// Timeline entry for a task execution.
#[derive(Debug, Clone)]
pub struct TaskTimelineEntry {
    pub timestamp: Timestamp,
    pub kind: String,
    pub summary: String,
    pub detail_path: Option<String>,
}

/// Tool call summary for a task.
#[derive(Debug, Clone)]
pub struct TaskToolCallSummary {
    pub id: String,
    pub name: String,
    pub status: TaskToolStatus,
    pub started_at: Timestamp,
    pub ended_at: Option<Timestamp>,
    pub duration_ms: Option<u64>,
    pub input_summary: Option<String>,
    pub output_summary: Option<String>,
    pub detail_path: Option<String>,
    pub patch_ref: Option<String>,
}

/// Checklist item stored on durable tasks.
#[derive(Debug, Clone)]
pub struct TaskChecklistItem {
    pub id: u32,
    pub content: String,
    pub status: String,
}

/// Checklist state associated with a task.
#[derive(Debug, Clone)]
pub struct TaskChecklistState {
    pub items: Vec<TaskChecklistItem>,
    pub completion_pct: u8,
    pub in_progress_id: Option<u32>,
    pub updated_at: Option<Timestamp>,
}

impl Default for TaskChecklistState {
    fn default() -> (r: Self)
        ensures
            r.items@.len() == 0,
            r.completion_pct == 0,
            r.in_progress_id is None,
            r.updated_at is None,
    {
        TaskChecklistState {
            items: Vec::new(),
            completion_pct: 0,
            in_progress_id: None,
            updated_at: None,
        }
    }
}

/// Structured verification evidence attached to a task.
#[derive(Debug, Clone)]
pub struct TaskGateRecord {
    pub id: String,
    pub gate: String,
    pub command: String,
    pub cwd: String,
    pub exit_code: Option<i32>,
    pub status: String,
    pub classification: String,
    pub duration_ms: u64,
    pub summary: String,
    pub log_path: Option<String>,
    pub recorded_at: Timestamp,
}

/// Metadata of one attempt at a change, attached to a task.
#[derive(Debug, Clone)]
pub struct TaskAttemptRecord {
    pub id: String,
    pub attempt_group_id: String,
    pub attempt_index: u32,
    pub attempt_count: u32,
    pub base_ref: Option<String>,
    pub base_sha: Option<String>,
    pub head_ref: Option<String>,
    pub head_sha: Option<String>,
    pub summary: String,
    pub changed_files: Vec<String>,
    pub patch_path: Option<String>,
    pub verification: Vec<String>,
    pub selected: bool,
    pub recorded_at: Timestamp,
}

/// Durable artifact reference produced by task-aware tools.
#[derive(Debug, Clone)]
pub struct TaskArtifactRef {
    pub label: String,
    pub path: String,
    pub summary: String,
    pub created_at: Timestamp,
}

/// GitHub write/read evidence attached to a task timeline.
#[derive(Debug, Clone)]
pub struct TaskGithubEvent {
    pub id: String,
    pub action: String,
    pub target: String,
    pub number: u64,
    pub summary: String,
    pub url: Option<String>,
    pub recorded_at: Timestamp,
}

/// Durable task record.
#[derive(Debug, Clone)]
pub struct TaskRecord {
    pub schema_version: u32,
    pub id: String,
    pub prompt: String,
    pub model: String,
    pub workspace: String,
    pub mode: String,
    pub allow_shell: bool,
    pub trust_mode: bool,
    pub auto_approve: bool,
    pub idempotency_key: Option<String>,
    pub status: TaskStatus,
    pub created_at: Timestamp,
    pub started_at: Option<Timestamp>,
    pub ended_at: Option<Timestamp>,
    pub duration_ms: Option<u64>,
    pub result_summary: Option<String>,
    pub result_detail_path: Option<String>,
    pub error: Option<String>,
    pub thread_id: Option<String>,
    pub turn_id: Option<String>,
    pub runtime_event_count: usize,
    pub checklist: TaskChecklistState,
    pub gates: Vec<TaskGateRecord>,
    pub attempts: Vec<TaskAttemptRecord>,
    pub artifacts: Vec<TaskArtifactRef>,
    pub github_events: Vec<TaskGithubEvent>,
    pub tool_calls: Vec<TaskToolCallSummary>,
    pub timeline: Vec<TaskTimelineEntry>,
}

/// Lightweight task view.
#[derive(Debug, Clone)]
pub struct TaskSummary {
    pub id: String,
    pub status: TaskStatus,
    pub prompt_summary: String,
    pub model: String,
    pub mode: String,
    pub created_at: Timestamp,
    pub started_at: Option<Timestamp>,
    pub ended_at: Option<Timestamp>,
    pub duration_ms: Option<u64>,
    pub error: Option<String>,
    pub thread_id: Option<String>,
    pub turn_id: Option<String>,
}

/// Count totals by status for task dashboards.
#[derive(Debug, Clone, Copy, PartialEq, Eq, Structural)]
pub struct TaskCounts {
    pub queued: usize,
    pub running: usize,
    pub completed: usize,
    pub failed: usize,
    pub canceled: usize,
}

impl Default for TaskCounts {
    fn default() -> (r: Self)
        ensures
            r.queued == 0 && r.running == 0 && r.completed == 0 && r.failed == 0 && r.canceled == 0,
    {
        TaskCounts { queued: 0, running: 0, completed: 0, failed: 0, canceled: 0 }
    }
}

/// Request to enqueue a new task.
#[derive(Debug, Clone)]
pub struct NewTaskRequest {
    pub prompt: String,
    pub model: Option<String>,
    pub workspace: Option<String>,
    pub mode: Option<String>,
    pub allow_shell: Option<bool>,
    pub trust_mode: Option<bool>,
    pub auto_approve: Option<bool>,
}

impl NewTaskRequest {
    /// A request for `prompt` that leaves everything else to the defaults and
    /// approves its own tool calls.
    pub fn from_prompt(prompt: String) -> (r: Self)
        ensures
            r.prompt == prompt,
            r.model is None && r.workspace is None && r.mode is None,
            r.allow_shell is None && r.trust_mode is None,
            r.auto_approve == Some(true),
    {
        NewTaskRequest {
            prompt,
            model: None,
            workspace: None,
            mode: None,
            allow_shell: None,
            trust_mode: None,
            auto_approve: Some(true),
        }
    }
}

/// What the configuration of the agent says about tasks.
#[derive(Debug, Clone)]
pub struct RuntimeSettings {
    /// The model that the user chose.
    pub default_text_model: Option<String>,
    /// The model to use where the user chose none.
    pub fallback_model: String,
    pub allow_shell: bool,
    /// How many helpers the provider allows.
    pub provider_subagents: usize,
    /// How many helpers are allowed at all.
    pub max_subagents: usize,
}

/// Task manager startup options.
#[derive(Debug, Clone)]
pub struct TaskManagerConfig {
    pub data_dir: String,
    pub worker_count: usize,
    pub default_workspace: String,
    pub default_model: String,
    pub default_mode: String,
    pub allow_shell: bool,
    pub trust_mode: bool,
    pub max_subagents: usize,
}

/// `n` brought into the range from `low` to `high`.
pub open spec fn clamped(n: int, low: int, high: int) -> int {
    if n < low {
        low
    } else if n > high {
        high
    } else {
        n
    }
}

impl TaskManagerConfig {
    /// The options that follow from the agent's configuration.
    pub fn from_runtime(
        config: &RuntimeSettings,
        data_dir: String,
        workspace: String,
        default_model: Option<String>,
        worker_count: Option<usize>,
    ) -> (r: Self)
        requires
            config.max_subagents >= 1,
        ensures
            r.data_dir == data_dir,
            r.worker_count == match worker_count {
                Some(n) => n,
                None => DEFAULT_WORKERS,
            },
            r.default_workspace == workspace,
            r.default_model@ == match default_model {
                Some(model) => model@,
                None => match config.default_text_model {
                    Some(model) => model@,
                    None => config.fallback_model@,
                },
            },
            r.default_mode@ == "agent"@,
            r.allow_shell == config.allow_shell,
            !r.trust_mode,
            r.max_subagents == clamped(
                config.provider_subagents as int,
                1,
                config.max_subagents as int,
            ),
    {
        TaskManagerConfig {
            data_dir,
            worker_count: match worker_count {
                Some(n) => n,
                None => DEFAULT_WORKERS,
            },
            default_workspace: workspace,
            default_model: match default_model {
                Some(model) => model,
                None => match &config.default_text_model {
                    Some(model) => copy_text(model.as_str()),
                    None => copy_text(config.fallback_model.as_str()),
                },
            },
            default_mode: copy_text("agent"),
            allow_shell: config.allow_shell,
            trust_mode: false,
            max_subagents: if config.provider_subagents < 1 {
                1
            } else if config.provider_subagents > config.max_subagents {
                config.max_subagents
            } else {
                config.provider_subagents
            },
        }
    }

    /// How many workers to start.
    pub fn workers(&self) -> (r: usize)
        ensures
            r == clamped(self.worker_count as int, 1, MAX_WORKERS as int),
    {
        if self.worker_count < 1 {
            1
        } else if self.worker_count > MAX_WORKERS {
            MAX_WORKERS
        } else {
            self.worker_count
        }
    }
}

/// A task as its executor sees it.
#[derive(Debug, Clone)]
pub struct ExecutionTask {
    pub id: String,
    pub prompt: String,
    pub model: String,
    pub workspace: String,
    pub mode_label: String,
    pub allow_shell: bool,
    pub trust_mode: bool,
    pub auto_approve: bool,
}

/// Whether a task's calls need no approval: only where that was asked for. What is not said,
/// in a request or in a stored record, is not asked for.
pub fn approval_of(asked: Option<bool>) -> (r: bool)
    ensures
        r == (asked == Some(true)),
{
    match asked {
        Some(b) => b,
        None => false,
    }
}

/// `request` is what the executor of `task` is handed.
pub open spec fn is_request_for(request: ExecutionTask, task: TaskRecord) -> bool {
    &&& request.id@ == task.id@
    &&& request.prompt@ == task.prompt@
    &&& request.model@ == task.model@
    &&& request.workspace@ == task.workspace@
    &&& request.mode_label@ == task.mode@
    &&& request.allow_shell == task.allow_shell
    &&& request.trust_mode == task.trust_mode
    &&& request.auto_approve == task.auto_approve
}

impl ExecutionTask {
    /// What the executor of `task` is handed.
    pub fn for_record(task: &TaskRecord) -> (r: Self)
        ensures
            is_request_for(r, *task),
    {
        ExecutionTask {
            id: copy_text(task.id.as_str()),
            prompt: copy_text(task.prompt.as_str()),
            model: copy_text(task.model.as_str()),
            workspace: copy_text(task.workspace.as_str()),
            mode_label: copy_text(task.mode.as_str()),
            allow_shell: task.allow_shell,
            trust_mode: task.trust_mode,
            auto_approve: task.auto_approve,
        }
    }

    pub fn id(&self) -> (r: &str)
        ensures
            r@ == self.id@,
    {
        self.id.as_str()
    }

    pub fn prompt(&self) -> (r: &str)
        ensures
            r@ == self.prompt@,
    {
        self.prompt.as_str()
    }

    pub fn model(&self) -> (r: &str)
        ensures
            r@ == self.model@,
    {
        self.model.as_str()
    }

    pub fn workspace(&self) -> (r: &str)
        ensures
            r@ == self.workspace@,
    {
        self.workspace.as_str()
    }

    pub fn mode_label(&self) -> (r: &str)
        ensures
            r@ == self.mode_label@,
    {
        self.mode_label.as_str()
    }

    pub fn allow_shell(&self) -> (r: bool)
        ensures
            r == self.allow_shell,
    {
        self.allow_shell
    }

    pub fn trust_mode(&self) -> (r: bool)
        ensures
            r == self.trust_mode,
    {
        self.trust_mode
    }

    pub fn auto_approve(&self) -> (r: bool)
        ensures
            r == self.auto_approve,
    {
        self.auto_approve
    }
}

/// Event stream produced by an executor while a task runs.
#[derive(Debug)]
pub enum TaskExecutionEvent {
    ThreadCreated { thread_id: String },
    ThreadLinked { thread_id: String, turn_id: String },
    Status { message: String },
    MessageDelta { content: String },
    ToolStarted { id: String, name: String, input: Json },
    ToolProgress { id: String, output: String },
    ToolCompleted {
        id: String,
        name: String,
        success: bool,
        output: String,
        metadata: Option<Json>,
    },
    Error { message: String },
    RuntimeEvent { seq: u64, event: String, summary: String },
}

/// Failure to durably report an executor event.
#[derive(Debug, Clone, PartialEq, Eq)]
pub enum TaskExecutionReportError {
    Closed,
    AcknowledgementDropped,
    Rejected(String),
}

impl TaskExecutionReportError {
    pub open spec fn text(self) -> Seq<char> {
        match self {
            TaskExecutionReportError::Closed => "task execution reporter is closed"@,
            TaskExecutionReportError::AcknowledgementDropped =>
                "task execution event acknowledgement was dropped"@,
            TaskExecutionReportError::Rejected(why) =>
                "task execution event persistence failed: "@ + why@,
        }
    }

    /// The error in words.
    pub fn message(&self) -> (r: String)
        ensures
            r@ == self.text(),
    {
        match self {
            TaskExecutionReportError::Closed => copy_text("task execution reporter is closed"),
            TaskExecutionReportError::AcknowledgementDropped => copy_text(
                "task execution event acknowledgement was dropped",
            ),
            TaskExecutionReportError::Rejected(why) => join2(
                "task execution event persistence failed: ",
                why.as_str(),
            ),
        }
    }
}

/// What became of a report.
#[derive(Debug)]
pub struct Reported {
    pub result: Result<(), TaskExecutionReportError>,
    /// Whether the execution is to be canceled.
    pub cancels: bool,
}

/// What became of a report: whether the manager could be reached, and its answer, where
/// there was one. An execution that cannot report is canceled.
pub fn report_outcome(reached: bool, answer: Option<Result<(), String>>) -> (r: Reported)
    ensures
        match answer {
            _ if !reached => r.result == Err::<(), _>(TaskExecutionReportError::Closed),
            None => r.result == Err::<(), _>(TaskExecutionReportError::AcknowledgementDropped),
            Some(Ok(_)) => r.result is Ok,
            Some(Err(why)) => r.result == Err::<(), _>(TaskExecutionReportError::Rejected(why)),
        },
        r.cancels == (r.result is Err),
{
    let result = if !reached {
        Err(TaskExecutionReportError::Closed)
    } else {
        match answer {
            None => Err(TaskExecutionReportError::AcknowledgementDropped),
            Some(Ok(_)) => Ok(()),
            Some(Err(why)) => Err(TaskExecutionReportError::Rejected(why)),
        }
    };
    let cancels = result.is_err();
    Reported { result, cancels }
}

/// Final executor result.
#[derive(Debug, Clone)]
pub struct TaskExecutionResult {
    pub status: TaskStatus,
    pub result_text: Option<String>,
    pub error: Option<String>,
}

/// A captured text, or nothing where it is blank.
pub open spec fn if_not_blank(text: Seq<char>) -> Option<Seq<char>> {
    if trimmed(text).len() == 0 {
        None
    } else {
        Some(text)
    }
}

/// A captured text, or nothing where it is blank.
pub fn keep_if_not_blank(text: &str) -> (r: Option<String>)
    ensures
        text_opt(r) == if_not_blank(text@),
{
    if trim(text).as_str().unicode_len() == 0 {
        None
    } else {
        Some(copy_text(text))
    }
}

/// The result of a task whose events could no longer be reported.
pub open spec fn is_reporting_failure(
    r: TaskExecutionResult,
    error: TaskExecutionReportError,
    captured: Seq<char>,
) -> bool {
    &&& r.status is Failed
    &&& text_opt(r.result_text) == if_not_blank(captured)
    &&& text_opt(r.error) == Some("Failed to persist task execution event: "@ + error.text())
}

impl TaskExecutionResult {
    /// The result of a task whose events could no longer be reported.
    pub fn reporting_failed(error: &TaskExecutionReportError, captured_text: &str) -> (r: Self)
        ensures
            is_reporting_failure(r, *error, captured_text@),
    {
        TaskExecutionResult {
            status: TaskStatus::Failed,
            result_text: keep_if_not_blank(captured_text),
            error: Some(
                join2("Failed to persist task execution event: ", error.message().as_str()),
            ),
        }
    }
}

/// Engine-backed executor: it runs tasks on the threads of a runtime.
pub struct EngineTaskExecutor<R> {
    pub runtime_threads: R,
}

impl<R> EngineTaskExecutor<R> {
    pub fn new(runtime_threads: R) -> (r: Self)
        ensures
            r.runtime_threads == runtime_threads,
    {
        EngineTaskExecutor { runtime_threads }
    }
}

// Short texts ----------------------------------------------------------------
/// A character that a summary leaves out: a control character other than a line
/// break or a tab.
pub open spec fn left_out(c: char) -> bool {
    is_control_char(c) && c != '\n' && c != '\t'
}

/// `text` cut to `room` characters, with dots where anything follows.
pub open spec fn summary_within(text: Seq<char>, room: int) -> Seq<char>
    decreases text.len(),
{
    if text.len() == 0 {
        Seq::empty()
    } else if room <= 0 {
        "..."@
    } else if left_out(text[0]) {
        summary_within(text.drop_first(), room)
    } else {
        seq![text[0]] + summary_within(text.drop_first(), room - 1)
    }
}

/// `text` in at most `limit` characters, counting the dots.
pub open spec fn summary_of(text: Seq<char>, limit: usize) -> Seq<char> {
    summary_within(text, if limit < 3 { 0 } else { limit - 3 })
}

/// `text` in at most `limit` characters, with dots where it was cut.
pub fn summarize_text(text: &str, limit: usize) -> (r: String)
    ensures
        r@ == summary_of(text@, limit),
{
    let room: usize = if limit < 3 {
        0
    } else {
        limit - 3
    };
    let chars = chars_of(text);
    let mut out = String::new();
    let mut count: usize = 0;
    let mut i: usize = 0;
    assert(chars@.skip(0) =~= chars@);
    assert(out@ =~= Seq::empty());
    assert(out@ + summary_within(chars@, room as int) =~= summary_within(chars@, room as int));
    while i < chars.len()
        invariant
            i <= chars@.len(),
            chars@ == text@,
            room == (if limit < 3 {
                0
            } else {
                limit - 3
            }),
            count <= room,
            out@ + summary_within(chars@.skip(i as int), room - count) == summary_within(
                chars@,
                room as int,
            ),
        decreases chars@.len() - i,
    {
        proof {
            assert(chars@.skip(i as int).drop_first() =~= chars@.skip(i + 1));
        }
        if count >= room {
            out.append("...");
            return out;
        }
        let c: char = chars[i];
        let code: u32 = c as u32;
        let control = code <= 0x1f || (0x7f <= code && code <= 0x9f);
        if !(control && c != '\n' && c != '\t') {
            let ghost before = out@;
            out.push(c);
            count = count + 1;
            assert(out@ + summary_within(chars@.skip(i + 1), room - count) =~= before + (seq![c]
                + summary_within(chars@.skip(i + 1), room - count)));
        }
        i += 1;
    }
    assert(out@ + Seq::empty() =~= out@);
    out
}

/// A JSON value on one short line.
pub fn summarize_json(value: &Json) -> (r: String)
    ensures
        r@ == summary_of(json_text(*value), TIMELINE_SUMMARY_LIMIT),
{
    summarize_text(render(value).as_str(), TIMELINE_SUMMARY_LIMIT)
}

/// A summary is never longer than its limit allows.
pub proof fn summaries_are_short(text: Seq<char>, limit: usize)
    ensures
        summary_of(text, limit).len() <= if limit < 3 {
            3
        } else {
            limit as int
        },
{
    lemma_summary_within(text, if limit < 3 { 0 } else { limit - 3 });
}

proof fn lemma_summary_within(text: Seq<char>, room: int)
    requires
        room >= 0,
    ensures
        summary_within(text, room).len() <= room + 3,
    decreases text.len(),
{
    reveal_strlit("...");
    if text.len() > 0 && room > 0 {
        if left_out(text[0]) {
            lemma_summary_within(text.drop_first(), room);
        } else {
            lemma_summary_within(text.drop_first(), room - 1);
        }
    }
}

/// A text that is short and plain is its own summary.
pub proof fn short_texts_are_kept(text: Seq<char>, limit: usize)
    requires
        limit >= 3,
        text.len() <= limit - 3,
        forall|i: int| 0 <= i < text.len() ==> !left_out(#[trigger] text[i]),
    ensures
        summary_of(text, limit) == text,
{
    lemma_short_texts_are_kept(text, limit - 3);
}

proof fn lemma_short_texts_are_kept(text: Seq<char>, room: int)
    requires
        text.len() <= room,
        forall|i: int| 0 <= i < text.len() ==> !left_out(#[trigger] text[i]),
    ensures
        summary_within(text, room) == text,
    decreases text.len(),
{
    if text.len() > 0 {
        let rest = text.drop_first();
        assert forall|i: int| 0 <= i < rest.len() implies !left_out(#[trigger] rest[i]) by {
            assert(rest[i] == text[i + 1]);
        }
        lemma_short_texts_are_kept(rest, room - 1);
        assert(seq![text[0]] + rest =~= text);
    } else {
        assert(summary_within(text, room) =~= text);
    }
}

// File names -----------------------------------------------------------------
/// A character that may stand in the name of an artifact.
pub open spec fn is_name_char(c: char) -> bool {
    '0' <= c <= '9' || 'a' <= c <= 'z' || 'A' <= c <= 'Z' || c == '_' || c == '-'
}

/// A label as part of a file name: underscores for what may not stand there.
pub open spec fn sanitized(label: Seq<char>) -> Seq<char> {
    if label.len() == 0 {
        "artifact"@
    } else {
        Seq::new(
            label.len(),
            |i: int|
                if is_name_char(label[i]) {
                    label[i]
                } else {
                    '_'
                },
        )
    }
}

/// A label as part of a file name.
pub fn sanitize_filename(input: &str) -> (r: String)
    ensures
        r@ == sanitized(input@),
{
    let chars = chars_of(input);
    let mut out = String::new();
    let mut i: usize = 0;
    if chars.len() == 0 {
        return copy_text("artifact");
    }
    while i < chars.len()
        invariant
            i <= chars@.len(),
            chars@ == input@,
            chars@.len() > 0,
            out@ == sanitized(chars@).take(i as int),
        decreases chars@.len() - i,
    {
        let c: char = chars[i];
        if ('0' <= c && c <= '9') || ('a' <= c && c <= 'z') || ('A' <= c && c <= 'Z') || c == '_' || c
            == '-' {
            out.push(c);
        } else {
            out.push('_');
        }
        assert(out@ =~= sanitized(chars@).take(i + 1));
        i += 1;
    }
    assert(out@ =~= sanitized(input@));
    out
}

/// Whether an output is large enough for a file of its own.
pub fn needs_artifact(content: &str) -> (r: bool)
    ensures
        r == (utf8_len(content@) >= ARTIFACT_THRESHOLD),
{
    byte_len(content) >= ARTIFACT_THRESHOLD
}

/// How the instant stands in an artifact's name: to the millisecond.
pub const ARTIFACT_STAMP_PATTERN: &'static str = "%Y%m%dT%H%M%S%.3fZ";

/// How `chrono` writes an instant after a pattern.
pub uninterp spec fn formatted_time(at: Timestamp, pattern: Seq<char>) -> Seq<char>;

/// Calls `chrono::DateTime::format` and writes out what it gives. The contract gives what
/// comes back a name: it depends on the instant and the pattern alone. A pattern that
/// `chrono` cannot read makes the writing panic, so only the one of artifact names is handed
/// in.
#[verifier::external_body]
fn format_time(at: Timestamp, pattern: &str) -> (r: String)
    requires
        at.wf(),
        pattern@ == ARTIFACT_STAMP_PATTERN@,
    ensures
        r@ == formatted_time(at, pattern@),
{
    chrono::DateTime::from_timestamp(at.secs, at.nanos).unwrap().format(pattern).to_string()
}

/// The name of the file that an output is kept in.
pub open spec fn artifact_name(stamp: Seq<char>, label: Seq<char>) -> Seq<char> {
    stamp + "_"@ + sanitized(label) + ".txt"@
}

/// The name of an artifact, given its stamp.
pub fn artifact_filename_stamped(stamp: &str, label: &str) -> (r: String)
    ensures
        r@ == artifact_name(stamp@, label@),
{
    let mut name = join3(stamp, "_", sanitize_filename(label).as_str());
    name.append(".txt");
    name
}

/// The name of the file that an output with this label, made at `at`, is kept in.
pub fn artifact_filename(at: Timestamp, label: &str) -> (r: String)
    requires
        at.wf(),
    ensures
        r@ == artifact_name(formatted_time(at, ARTIFACT_STAMP_PATTERN@), label@),
{
    artifact_filename_stamped(format_time(at, ARTIFACT_STAMP_PATTERN).as_str(), label)
}

/// The directory of artifacts, below the directory of tasks.
pub const ARTIFACTS_DIR: &'static str = "artifacts";

/// What a task's record says of where an artifact is, below the directory of tasks.
pub open spec fn artifact_reference_spec(task_id: Seq<char>, filename: Seq<char>) -> Seq<char> {
    ARTIFACTS_DIR@ + "/"@ + task_id + "/"@ + filename
}

/// Where an artifact of a task is kept, below the directory of tasks.
pub fn artifact_reference(task_id: &str, filename: &str) -> (r: Result<String, Failure>)
    ensures
        match storage_id_fault("task id"@, task_id@) {
            Some(words) => r matches Err(e) && e@ == words,
            None => r matches Ok(path) && path@ == artifact_reference_spec(task_id@, filename@),
        },
{
    if let Err(e) = ensure_safe_storage_id("task id", task_id) {
        return Err(e);
    }
    let mut path = join3(ARTIFACTS_DIR, "/", task_id);
    path.append("/");
    path.append(filename);
    Ok(path)
}

// Modes and keys -------------------------------------------------------------
pub open spec fn is_task_mode(mode: Seq<char>) -> bool {
    mode == "agent"@ || mode == "plan"@ || mode == "yolo"@
}

/// Reads a requested mode, whatever its case.
pub fn normalize_task_mode(mode: &str) -> (r: Result<String, Failure>)
    ensures
        if is_task_mode(lower(trimmed(mode@))) {
            r matches Ok(m) && m@ == lower(trimmed(mode@))
        } else {
            r matches Err(e) && e@ == "Invalid task mode '"@ + mode@
                + "'. Expected one of: agent, plan, yolo"@
        },
{
    let normalized = to_lower(trim(mode).as_str());
    if same_text(normalized.as_str(), "agent") || same_text(normalized.as_str(), "plan")
        || same_text(normalized.as_str(), "yolo") {
        Ok(normalized)
    } else {
        Err(
            Failure {
                message: join3(
                    "Invalid task mode '",
                    mode,
                    "'. Expected one of: agent, plan, yolo",
                ),
            },
        )
    }
}

/// The mode that a stored word or number stands for.
pub open spec fn stored_task_mode(mode: Seq<char>) -> Option<Seq<char>> {
    let word = lower(trimmed(mode));
    if word == "agent"@ || word == "1"@ {
        Some("agent"@)
    } else if word == "plan"@ || word == "2"@ {
        Some("plan"@)
    } else if word == "yolo"@ || word == "3"@ {
        Some("yolo"@)
    } else {
        None
    }
}

pub open spec fn stored_mode_refusal(mode: Seq<char>) -> Seq<char> {
    "Invalid persisted task mode '"@ + mode + "'. Expected one of: agent, plan, yolo"@
}

/// Reads a stored mode.
pub fn normalize_persisted_task_mode(mode: &str) -> (r: Result<String, Failure>)
    ensures
        match stored_task_mode(mode@) {
            Some(word) => r matches Ok(m) && m@ == word,
            None => r matches Err(e) && e@ == stored_mode_refusal(mode@),
        },
{
    let word = to_lower(trim(mode).as_str());
    if same_text(word.as_str(), "agent") || same_text(word.as_str(), "1") {
        Ok(copy_text("agent"))
    } else if same_text(word.as_str(), "plan") || same_text(word.as_str(), "2") {
        Ok(copy_text("plan"))
    } else if same_text(word.as_str(), "yolo") || same_text(word.as_str(), "3") {
        Ok(copy_text("yolo"))
    } else {
        Err(
            Failure {
                message: join3(
                    "Invalid persisted task mode '",
                    mode,
                    "'. Expected one of: agent, plan, yolo",
                ),
            },
        )
    }
}

/// Reads a key that a task is to be queued under once.
pub fn normalize_idempotency_key(key: &str) -> (r: Result<String, Failure>)
    ensures
        if trimmed(key@).len() == 0 {
            r matches Err(e) && e@ == "Task idempotency key cannot be empty"@
        } else if utf8_len(trimmed(key@)) > 512 {
            r matches Err(e) && e@ == "Task idempotency key cannot exceed 512 bytes"@
        } else {
            r matches Ok(k) && k@ == trimmed(key@)
        },
{
    let normalized = trim(key);
    if normalized.as_str().unicode_len() == 0 {
        return Err(failure("Task idempotency key cannot be empty"));
    }
    if byte_len(normalized.as_str()) > 512 {
        return Err(failure("Task idempotency key cannot exceed 512 bytes"));
    }
    Ok(normalized)
}

// Summaries ------------------------------------------------------------------
/// The short view of a task.
pub open spec fn is_summary_of(summary: TaskSummary, task: TaskRecord) -> bool {
    &&& summary.id@ == task.id@
    &&& summary.status == task.status
    &&& summary.prompt_summary@ == summary_of(task.prompt@, TIMELINE_SUMMARY_LIMIT)
    &&& summary.model@ == task.model@
    &&& summary.mode@ == task.mode@
    &&& summary.created_at == task.created_at
    &&& summary.started_at == task.started_at
    &&& summary.ended_at == task.ended_at
    &&& summary.duration_ms == task.duration_ms
    &&& text_opt(summary.error) == text_opt(task.error)
    &&& text_opt(summary.thread_id) == text_opt(task.thread_id)
    &&& text_opt(summary.turn_id) == text_opt(task.turn_id)
}

/// A copy of an optional text.
pub fn copy_text_opt(value: &Option<String>) -> (r: Option<String>)
    ensures
        text_opt(r) == text_opt(*value),
{
    match value {
        Some(s) => Some(copy_text(s.as_str())),
        None => None,
    }
}

impl TaskSummary {
    /// The short view of a task.
    pub fn of(task: &TaskRecord) -> (r: Self)
        ensures
            is_summary_of(r, *task),
    {
        TaskSummary {
            id: copy_text(task.id.as_str()),
            status: task.status,
            prompt_summary: summarize_text(task.prompt.as_str(), TIMELINE_SUMMARY_LIMIT),
            model: copy_text(task.model.as_str()),
            mode: copy_text(task.mode.as_str()),
            created_at: task.created_at,
            started_at: task.started_at,
            ended_at: task.ended_at,
            duration_ms: task.duration_ms,
            error: copy_text_opt(&task.error),
            thread_id: copy_text_opt(&task.thread_id),
            turn_id: copy_text_opt(&task.turn_id),
        }
    }
}

} // verus!
