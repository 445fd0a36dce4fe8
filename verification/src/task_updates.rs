//! Updates that tools attach to their results: checklists, gates, attempts,
//! artifacts and GitHub events.
use vstd::prelude::*;
use vstd::string::*;

use crate::failure::{failure, Failure};
use crate::json::{field, member, Json, Member};
use crate::task::{
    copy_text_opt, summarize_text, summary_of, TaskArtifactRef, TaskAttemptRecord,
    TaskChecklistState, TaskGateRecord, TaskGithubEvent, TaskRecord, TaskTimelineEntry,
    TIMELINE_SUMMARY_LIMIT,
};
use crate::text::{copy_text, dec, decimal, join3, same_text, text_opt};
use crate::time::Timestamp;

verus! {

/// The parts of an update, as the tool gave them.
#[derive(Debug)]
pub struct UpdateParts {
    pub checklist: Option<Json>,
    pub gate: Option<Json>,
    pub attempt: Option<Json>,
    pub artifacts: Vec<Json>,
    pub github_event: Option<Json>,
}

/// A part of an update once it has been read.
#[derive(Debug)]
pub enum Parsed<T> {
    /// The update has no such part.
    Absent,
    /// The part does not have the form that it should have.
    Invalid,
    Value(T),
}

/// An update once it has been read. No entry of `artifacts` is absent.
#[derive(Debug)]
pub struct TaskUpdates {
    pub checklist: Parsed<TaskChecklistState>,
    pub gate: Parsed<TaskGateRecord>,
    pub attempt: Parsed<TaskAttemptRecord>,
    pub artifacts: Vec<Parsed<TaskArtifactRef>>,
    pub github_event: Parsed<TaskGithubEvent>,
}

impl TaskUpdates {
    /// An update that changes nothing.
    pub fn none() -> (r: Self)
        ensures
            r.checklist is Absent && r.gate is Absent && r.attempt is Absent,
            r.artifacts@.len() == 0,
            r.github_event is Absent,
    {
        TaskUpdates {
            checklist: Parsed::Absent,
            gate: Parsed::Absent,
            attempt: Parsed::Absent,
            artifacts: Vec::new(),
            github_event: Parsed::Absent,
        }
    }
}

/// The update that a tool's metadata holds.
pub open spec fn update_of(metadata: Option<Json>) -> Option<Json> {
    match metadata {
        Some(value) => field(value, "task_updates"@),
        None => None,
    }
}

/// The part of an update under `key`.
pub open spec fn part(metadata: Option<Json>, key: Seq<char>) -> Option<Json> {
    match update_of(metadata) {
        Some(updates) => field(updates, key),
        None => None,
    }
}

/// The items of a list, and nothing where the value is no list.
pub open spec fn items_of(value: Option<Json>) -> Seq<Json> {
    match value {
        Some(Json::Array(items)) => items@,
        _ => Seq::empty(),
    }
}

/// A slot that is filled from the first member of a list with a given key.
pub open spec fn fills(slot: Option<Json>, rest: Seq<Member>, key: Seq<char>, all: Seq<Member>) -> bool {
    member(all, key) == if slot is Some {
        slot
    } else {
        member(rest, key)
    }
}

proof fn lemma_key_names()
    ensures
        "checklist"@ != "gate"@ && "checklist"@ != "attempt"@ && "checklist"@ != "artifacts"@
            && "checklist"@ != "github_event"@,
        "gate"@ != "attempt"@ && "gate"@ != "artifacts"@ && "gate"@ != "github_event"@,
        "attempt"@ != "artifacts"@ && "attempt"@ != "github_event"@,
        "artifacts"@ != "github_event"@,
{
    reveal_strlit("checklist");
    reveal_strlit("gate");
    reveal_strlit("attempt");
    reveal_strlit("artifacts");
    reveal_strlit("github_event");
    assert("checklist"@.len() == 9 && "gate"@.len() == 4 && "attempt"@.len() == 7
        && "artifacts"@.len() == 9 && "github_event"@.len() == 12);
    assert("checklist"@[0] == 'c' && "artifacts"@[0] == 'a');
}

/// Splits the update in a tool's metadata into its parts.
pub fn task_update_parts(metadata: Option<Json>) -> (r: UpdateParts)
    ensures
        r.checklist == part(metadata, "checklist"@),
        r.gate == part(metadata, "gate"@),
        r.attempt == part(metadata, "attempt"@),
        r.artifacts@ == items_of(part(metadata, "artifacts"@)),
        r.github_event == part(metadata, "github_event"@),
{
    let mut checklist: Option<Json> = None;
    let mut gate: Option<Json> = None;
    let mut attempt: Option<Json> = None;
    let mut artifacts: Option<Json> = None;
    let mut github_event: Option<Json> = None;
    let updates = match metadata {
        Some(value) => value.take("task_updates"),
        None => None,
    };
    let ghost given = updates;
    if let Some(Json::Object(members)) = updates {
        let ghost all = members@;
        let mut rest = members;
        while rest.len() > 0
            invariant
                fills(checklist, rest@, "checklist"@, all),
                fills(gate, rest@, "gate"@, all),
                fills(attempt, rest@, "attempt"@, all),
                fills(artifacts, rest@, "artifacts"@, all),
                fills(github_event, rest@, "github_event"@, all),
            decreases rest@.len(),
        {
            let ghost before = rest@;
            let first = rest.remove(0);
            proof {
                lemma_key_names();
                assert(rest@ =~= before.drop_first());
            }
            if same_text(first.key.as_str(), "checklist") {
                if checklist.is_none() {
                    checklist = Some(first.value);
                }
            } else if same_text(first.key.as_str(), "gate") {
                if gate.is_none() {
                    gate = Some(first.value);
                }
            } else if same_text(first.key.as_str(), "attempt") {
                if attempt.is_none() {
                    attempt = Some(first.value);
                }
            } else if same_text(first.key.as_str(), "artifacts") {
                if artifacts.is_none() {
                    artifacts = Some(first.value);
                }
            } else if same_text(first.key.as_str(), "github_event") {
                if github_event.is_none() {
                    github_event = Some(first.value);
                }
            }
        }
        assert(rest@ =~= Seq::empty());
    }
    let items = match artifacts {
        Some(Json::Array(items)) => items,
        _ => Vec::new(),
    };
    assert(items@ =~= items_of(artifacts));
    UpdateParts { checklist, gate, attempt, artifacts: items, github_event }
}

// Timeline -------------------------------------------------------------------
/// A line of a timeline.
pub open spec fn is_entry(
    entry: TaskTimelineEntry,
    at: Timestamp,
    kind: Seq<char>,
    summary: Seq<char>,
    detail: Option<Seq<char>>,
) -> bool {
    &&& entry.timestamp == at
    &&& entry.kind@ == kind
    &&& entry.summary@ == summary
    &&& text_opt(entry.detail_path) == detail
}

/// `after` is `before` with one line more.
pub open spec fn adds_entry(
    before: Seq<TaskTimelineEntry>,
    after: Seq<TaskTimelineEntry>,
    at: Timestamp,
    kind: Seq<char>,
    summary: Seq<char>,
    detail: Option<Seq<char>>,
) -> bool {
    &&& after.len() == before.len() + 1
    &&& after.drop_last() == before
    &&& is_entry(after.last(), at, kind, summary, detail)
}

/// Adds a line to a task's timeline.
pub fn add_entry(
    task: &mut TaskRecord,
    at: Timestamp,
    kind: &str,
    summary: String,
    detail_path: Option<String>,
)
    ensures
        *final(task) == (TaskRecord { timeline: final(task).timeline, ..*old(task) }),
        adds_entry(
            old(task).timeline@,
            final(task).timeline@,
            at,
            kind@,
            summary@,
            text_opt(detail_path),
        ),
{
    let ghost before = task.timeline@;
    task.timeline.push(
        TaskTimelineEntry { timestamp: at, kind: copy_text(kind), summary, detail_path },
    );
    assert(task.timeline@.drop_last() =~= before);
}

// Parts ----------------------------------------------------------------------
/// What becomes of a task when a checklist is attached.
pub open spec fn checklist_applied(
    old: TaskRecord,
    value: TaskChecklistState,
    now: Timestamp,
    new: TaskRecord,
) -> bool {
    &&& new == (TaskRecord { checklist: new.checklist, timeline: new.timeline, ..old })
    &&& new.checklist == (TaskChecklistState {
        updated_at: match value.updated_at {
            Some(t) => Some(t),
            None => Some(now),
        },
        ..value
    })
    &&& adds_entry(
        old.timeline@,
        new.timeline@,
        now,
        "checklist"@,
        "Checklist updated: "@ + dec(value.items@.len()) + " item(s), "@ + dec(
            value.completion_pct as nat,
        ) + "% complete"@,
        None,
    )
}

fn apply_checklist(task: &mut TaskRecord, value: TaskChecklistState, now: Timestamp)
    ensures
        checklist_applied(*old(task), value, now, *final(task)),
{
    let mut checklist = value;
    if checklist.updated_at.is_none() {
        checklist.updated_at = Some(now);
    }
    let mut summary = join3(
        "Checklist updated: ",
        decimal(checklist.items.len() as u64).as_str(),
        " item(s), ",
    );
    summary.append(decimal(checklist.completion_pct as u64).as_str());
    summary.append("% complete");
    task.checklist = checklist;
    add_entry(task, now, "checklist", summary, None);
}

/// The gates whose identifier is not `id`.
pub open spec fn other_gates(gates: Seq<TaskGateRecord>, id: Seq<char>) -> Seq<TaskGateRecord> {
    gates.filter(|g: TaskGateRecord| g.id@ != id)
}

/// What becomes of a task when a gate is recorded: it takes the place of an earlier
/// record of the same gate.
pub open spec fn gate_applied(
    old: TaskRecord,
    gate: TaskGateRecord,
    now: Timestamp,
    new: TaskRecord,
) -> bool {
    &&& new == (TaskRecord { gates: new.gates, timeline: new.timeline, ..old })
    &&& new.gates@ == other_gates(old.gates@, gate.id@).push(gate)
    &&& adds_entry(
        old.timeline@,
        new.timeline@,
        now,
        "gate"@,
        summary_of(
            "Gate "@ + gate.gate@ + " "@ + gate.status@ + ": "@ + gate.summary@,
            TIMELINE_SUMMARY_LIMIT,
        ),
        text_opt(gate.log_path),
    )
}

fn drop_gate(gates: Vec<TaskGateRecord>, id: &str) -> (r: Vec<TaskGateRecord>)
    ensures
        r@ == other_gates(gates@, id@),
{
    let ghost all = gates@;
    let ghost keep = |g: TaskGateRecord| g.id@ != id@;
    let mut rest = gates;
    let mut out: Vec<TaskGateRecord> = Vec::new();
    proof {
        reveal(Seq::filter);
        assert(all.take(0).filter(keep) =~= Seq::empty());
    }
    while rest.len() > 0
        invariant
            rest@.len() <= all.len(),
            rest@ == all.skip(all.len() - rest@.len()),
            keep == (|g: TaskGateRecord| g.id@ != id@),
            out@ == all.take(all.len() - rest@.len()).filter(keep),
        decreases rest@.len(),
    {
        let ghost done = all.len() - rest@.len();
        let first = rest.remove(0);
        proof {
            reveal(Seq::filter);
            assert(all.take(done + 1).drop_last() =~= all.take(done));
            assert(rest@ =~= all.skip(done + 1));
        }
        if !same_text(first.id.as_str(), id) {
            out.push(first);
        }
    }
    assert(all.take(all.len() as int) =~= all);
    out
}

fn apply_gate(task: &mut TaskRecord, gate: TaskGateRecord, now: Timestamp)
    ensures
        gate_applied(*old(task), gate, now, *final(task)),
{
    let mut line = join3("Gate ", gate.gate.as_str(), " ");
    line.append(gate.status.as_str());
    line.append(": ");
    line.append(gate.summary.as_str());
    let summary = summarize_text(line.as_str(), TIMELINE_SUMMARY_LIMIT);
    let detail = copy_text_opt(&gate.log_path);
    let mut gates: Vec<TaskGateRecord> = Vec::new();
    std::mem::swap(&mut gates, &mut task.gates);
    let mut kept = drop_gate(gates, gate.id.as_str());
    kept.push(gate);
    task.gates = kept;
    add_entry(task, now, "gate", summary, detail);
}

/// The attempts whose identifier is not `id`.
pub open spec fn other_attempts(attempts: Seq<TaskAttemptRecord>, id: Seq<char>) -> Seq<
    TaskAttemptRecord,
> {
    attempts.filter(|a: TaskAttemptRecord| a.id@ != id)
}

/// What becomes of a task when an attempt is recorded: it takes the place of an
/// earlier record of the same attempt.
pub open spec fn attempt_applied(
    old: TaskRecord,
    attempt: TaskAttemptRecord,
    now: Timestamp,
    new: TaskRecord,
) -> bool {
    &&& new == (TaskRecord { attempts: new.attempts, timeline: new.timeline, ..old })
    &&& new.attempts@ == other_attempts(old.attempts@, attempt.id@).push(attempt)
    &&& adds_entry(
        old.timeline@,
        new.timeline@,
        now,
        "pr_attempt"@,
        "Attempt "@ + dec(attempt.attempt_index as nat) + "/"@ + dec(attempt.attempt_count as nat)
            + " recorded for "@ + attempt.attempt_group_id@,
        text_opt(attempt.patch_path),
    )
}

fn drop_attempt(attempts: Vec<TaskAttemptRecord>, id: &str) -> (r: Vec<TaskAttemptRecord>)
    ensures
        r@ == other_attempts(attempts@, id@),
{
    let ghost all = attempts@;
    let ghost keep = |a: TaskAttemptRecord| a.id@ != id@;
    let mut rest = attempts;
    let mut out: Vec<TaskAttemptRecord> = Vec::new();
    proof {
        reveal(Seq::filter);
        assert(all.take(0).filter(keep) =~= Seq::empty());
    }
    while rest.len() > 0
        invariant
            rest@.len() <= all.len(),
            rest@ == all.skip(all.len() - rest@.len()),
            keep == (|a: TaskAttemptRecord| a.id@ != id@),
            out@ == all.take(all.len() - rest@.len()).filter(keep),
        decreases rest@.len(),
    {
        let ghost done = all.len() - rest@.len();
        let first = rest.remove(0);
        proof {
            reveal(Seq::filter);
            assert(all.take(done + 1).drop_last() =~= all.take(done));
            assert(rest@ =~= all.skip(done + 1));
        }
        if !same_text(first.id.as_str(), id) {
            out.push(first);
        }
    }
    assert(all.take(all.len() as int) =~= all);
    out
}

fn apply_attempt(task: &mut TaskRecord, attempt: TaskAttemptRecord, now: Timestamp)
    ensures
        attempt_applied(*old(task), attempt, now, *final(task)),
{
    let mut summary = join3("Attempt ", decimal(attempt.attempt_index as u64).as_str(), "/");
    summary.append(decimal(attempt.attempt_count as u64).as_str());
    summary.append(" recorded for ");
    summary.append(attempt.attempt_group_id.as_str());
    let detail = copy_text_opt(&attempt.patch_path);
    let mut attempts: Vec<TaskAttemptRecord> = Vec::new();
    std::mem::swap(&mut attempts, &mut task.attempts);
    let mut kept = drop_attempt(attempts, attempt.id.as_str());
    kept.push(attempt);
    task.attempts = kept;
    add_entry(task, now, "pr_attempt", summary, detail);
}

/// What becomes of a task when an artifact is attached.
pub open spec fn artifact_applied(
    old: TaskRecord,
    artifact: TaskArtifactRef,
    now: Timestamp,
    new: TaskRecord,
) -> bool {
    &&& new == (TaskRecord { artifacts: new.artifacts, timeline: new.timeline, ..old })
    &&& new.artifacts@ == old.artifacts@.push(artifact)
    &&& adds_entry(
        old.timeline@,
        new.timeline@,
        now,
        "artifact"@,
        artifact.label@ + ": "@ + artifact.summary@,
        Some(artifact.path@),
    )
}

fn apply_artifact(task: &mut TaskRecord, artifact: TaskArtifactRef, now: Timestamp)
    ensures
        artifact_applied(*old(task), artifact, now, *final(task)),
{
    let summary = join3(artifact.label.as_str(), ": ", artifact.summary.as_str());
    let detail = Some(copy_text(artifact.path.as_str()));
    add_entry(task, now, "artifact", summary, detail);
    task.artifacts.push(artifact);
}

/// The records that a task passes through while artifacts are attached.
pub open spec fn artifact_steps(
    steps: Seq<TaskRecord>,
    artifacts: Seq<Parsed<TaskArtifactRef>>,
    now: Timestamp,
) -> bool {
    &&& steps.len() == artifacts.len() + 1
    &&& forall|i: int|
        0 <= i < artifacts.len() ==> match #[trigger] artifacts[i] {
            Parsed::Value(artifact) => artifact_applied(steps[i], artifact, now, steps[i + 1]),
            _ => steps[i + 1] == steps[i],
        }
}

/// What becomes of a task when artifacts are attached one after the other.
pub open spec fn artifacts_applied(
    old: TaskRecord,
    artifacts: Seq<Parsed<TaskArtifactRef>>,
    now: Timestamp,
    new: TaskRecord,
) -> bool {
    exists|steps: Seq<TaskRecord>| #[trigger]
        artifact_steps(steps, artifacts, now) && steps[0] == old && steps.last() == new
}

/// What becomes of a task when a GitHub event is recorded.
pub open spec fn github_applied(
    old: TaskRecord,
    event: TaskGithubEvent,
    now: Timestamp,
    new: TaskRecord,
) -> bool {
    &&& new == (TaskRecord { github_events: new.github_events, timeline: new.timeline, ..old })
    &&& new.github_events@ == old.github_events@.push(event)
    &&& adds_entry(
        old.timeline@,
        new.timeline@,
        now,
        "github"@,
        event.action@ + " "@ + event.target@ + "#"@ + dec(event.number as nat) + ": "@
            + event.summary@,
        None,
    )
}

fn apply_github(task: &mut TaskRecord, event: TaskGithubEvent, now: Timestamp)
    ensures
        github_applied(*old(task), event, now, *final(task)),
{
    let mut summary = join3(event.action.as_str(), " ", event.target.as_str());
    summary.append("#");
    summary.append(decimal(event.number).as_str());
    summary.append(": ");
    summary.append(event.summary.as_str());
    add_entry(task, now, "github", summary, None);
    task.github_events.push(event);
}

// The whole update -----------------------------------------------------------
/// An artifact of an update that could not be read.
pub open spec fn has_invalid(artifacts: Seq<Parsed<TaskArtifactRef>>) -> bool {
    exists|i: int| 0 <= i < artifacts.len() && #[trigger] artifacts[i] is Invalid
}

/// The words for the first part of an update that could not be read.
pub open spec fn update_fault(updates: TaskUpdates) -> Option<Seq<char>> {
    if updates.checklist is Invalid {
        Some("Failed to parse checklist task update"@)
    } else if updates.gate is Invalid {
        Some("Failed to parse gate task update"@)
    } else if updates.attempt is Invalid {
        Some("Failed to parse attempt task update"@)
    } else if has_invalid(updates.artifacts@) {
        Some("Failed to parse artifact task update"@)
    } else if updates.github_event is Invalid {
        Some("Failed to parse GitHub task update"@)
    } else {
        None
    }
}

pub open spec fn with_checklist(
    old: TaskRecord,
    value: Parsed<TaskChecklistState>,
    now: Timestamp,
    new: TaskRecord,
) -> bool {
    match value {
        Parsed::Value(v) => checklist_applied(old, v, now, new),
        _ => new == old,
    }
}

pub open spec fn with_gate(
    old: TaskRecord,
    value: Parsed<TaskGateRecord>,
    now: Timestamp,
    new: TaskRecord,
) -> bool {
    match value {
        Parsed::Value(v) => gate_applied(old, v, now, new),
        _ => new == old,
    }
}

pub open spec fn with_attempt(
    old: TaskRecord,
    value: Parsed<TaskAttemptRecord>,
    now: Timestamp,
    new: TaskRecord,
) -> bool {
    match value {
        Parsed::Value(v) => attempt_applied(old, v, now, new),
        _ => new == old,
    }
}

pub open spec fn with_github(
    old: TaskRecord,
    value: Parsed<TaskGithubEvent>,
    now: Timestamp,
    new: TaskRecord,
) -> bool {
    match value {
        Parsed::Value(v) => github_applied(old, v, now, new),
        _ => new == old,
    }
}

/// What becomes of a task when every part of an update can be read: the parts are
/// applied in order.
pub open spec fn update_applied(
    old: TaskRecord,
    updates: TaskUpdates,
    now: Timestamp,
    new: TaskRecord,
) -> bool {
    exists|a: TaskRecord, b: TaskRecord, c: TaskRecord, d: TaskRecord|
        #![trigger with_checklist(old, updates.checklist, now, a), with_gate(a, updates.gate, now, b), with_attempt(b, updates.attempt, now, c), artifacts_applied(c, updates.artifacts@, now, d)]
        with_checklist(old, updates.checklist, now, a) && with_gate(a, updates.gate, now, b)
            && with_attempt(b, updates.attempt, now, c) && artifacts_applied(
            c,
            updates.artifacts@,
            now,
            d,
        ) && with_github(d, updates.github_event, now, new)
}

fn any_invalid(artifacts: &Vec<Parsed<TaskArtifactRef>>) -> (r: bool)
    ensures
        r == has_invalid(artifacts@),
{
    let mut i: usize = 0;
    while i < artifacts.len()
        invariant
            i <= artifacts@.len(),
            forall|k: int| 0 <= k < i ==> !(#[trigger] artifacts@[k] is Invalid),
        decreases artifacts@.len() - i,
    {
        if let Parsed::Invalid = &artifacts[i] {
            assert(artifacts@[i as int] is Invalid);
            return true;
        }
        i += 1;
    }
    false
}

fn check_update(updates: &TaskUpdates) -> (r: Result<(), Failure>)
    ensures
        crate::failure::fault_of(r) == update_fault(*updates),
{
    if let Parsed::Invalid = &updates.checklist {
        return Err(failure("Failed to parse checklist task update"));
    }
    if let Parsed::Invalid = &updates.gate {
        return Err(failure("Failed to parse gate task update"));
    }
    if let Parsed::Invalid = &updates.attempt {
        return Err(failure("Failed to parse attempt task update"));
    }
    if any_invalid(&updates.artifacts) {
        return Err(failure("Failed to parse artifact task update"));
    }
    if let Parsed::Invalid = &updates.github_event {
        return Err(failure("Failed to parse GitHub task update"));
    }
    Ok(())
}

fn apply_artifacts(task: &mut TaskRecord, artifacts: Vec<Parsed<TaskArtifactRef>>, now: Timestamp)
    ensures
        artifacts_applied(*old(task), artifacts@, now, *final(task)),
{
    let ghost all = artifacts@;
    let ghost start = *task;
    let ghost mut steps: Seq<TaskRecord> = seq![*task];
    let mut rest = artifacts;
    while rest.len() > 0
        invariant
            rest@.len() <= all.len(),
            rest@ == all.skip(all.len() - rest@.len()),
            artifact_steps(steps, all.take(all.len() - rest@.len()), now),
            steps[0] == start,
            steps.last() == *task,
        decreases rest@.len(),
    {
        let ghost done = all.len() - rest@.len();
        let ghost before = steps;
        let first = rest.remove(0);
        let ghost item = first;
        if let Parsed::Value(artifact) = first {
            apply_artifact(task, artifact, now);
        }
        proof {
            steps = steps.push(*task);
            let list = all.take(done + 1);
            assert(list.last() == item);
            assert forall|i: int| 0 <= i < list.len() implies match #[trigger] list[i] {
                Parsed::Value(artifact) => artifact_applied(steps[i], artifact, now, steps[i + 1]),
                _ => steps[i + 1] == steps[i],
            } by {
                if i < done {
                    assert(all.take(done)[i] == list[i]);
                    assert(steps[i] == before[i] && steps[i + 1] == before[i + 1]);
                }
            }
            assert(rest@ =~= all.skip(done + 1));
        }
    }
    assert(all.take(all.len() as int) =~= all);
}

/// Applies an update to a task. A part that could not be read leaves the task alone.
pub fn apply_task_updates(task: TaskRecord, updates: TaskUpdates, now: Timestamp) -> (r: Result<
    TaskRecord,
    Failure,
>)
    ensures
        match update_fault(updates) {
            Some(words) => r matches Err(e) && e@ == words,
            None => r matches Ok(new) && update_applied(task, updates, now, new),
        },
{
    if let Err(e) = check_update(&updates) {
        return Err(e);
    }
    let mut out = task;
    if let Parsed::Value(checklist) = updates.checklist {
        apply_checklist(&mut out, checklist, now);
    }
    let ghost a = out;
    if let Parsed::Value(gate) = updates.gate {
        apply_gate(&mut out, gate, now);
    }
    let ghost b = out;
    if let Parsed::Value(attempt) = updates.attempt {
        apply_attempt(&mut out, attempt, now);
    }
    let ghost c = out;
    let ghost list = updates.artifacts@;
    apply_artifacts(&mut out, updates.artifacts, now);
    let ghost d = out;
    if let Parsed::Value(event) = updates.github_event {
        apply_github(&mut out, event, now);
    }
    proof {
        assert(with_checklist(task, updates.checklist, now, a));
        assert(with_gate(a, updates.gate, now, b));
        assert(with_attempt(b, updates.attempt, now, c));
        assert(artifacts_applied(c, list, now, d));
        assert(with_github(d, updates.github_event, now, out));
    }
    Ok(out)
}

// Laws -----------------------------------------------------------------------
proof fn lemma_artifacts_keep_the_task(
    steps: Seq<TaskRecord>,
    artifacts: Seq<Parsed<TaskArtifactRef>>,
    now: Timestamp,
    k: int,
)
    requires
        artifact_steps(steps, artifacts, now),
        0 <= k < steps.len(),
    ensures
        same_task(steps[0], steps[k]),
    decreases k,
{
    if k > 0 {
        lemma_artifacts_keep_the_task(steps, artifacts, now, k - 1);
        match artifacts[k - 1] {
            Parsed::Value(artifact) => {
                assert(artifact_applied(steps[k - 1], artifact, now, steps[k]));
            },
            _ => {},
        }
        lemma_grown(steps[k - 1], steps[k]);
        lemma_same_task_again(steps[0], steps[k - 1], steps[k]);
    } else {
        lemma_as_long(steps[0].timeline@);
    }
}

/// The records are of one task, which has come equally far: nothing that tells what it is,
/// how it ended or what came of it differs, and the timeline has only grown.
pub open spec fn same_task(a: TaskRecord, b: TaskRecord) -> bool {
    &&& b.schema_version == a.schema_version
    &&& b.id == a.id
    &&& b.status == a.status
    &&& b.prompt == a.prompt
    &&& b.model == a.model
    &&& b.workspace == a.workspace
    &&& b.mode == a.mode
    &&& b.allow_shell == a.allow_shell
    &&& b.trust_mode == a.trust_mode
    &&& b.auto_approve == a.auto_approve
    &&& b.idempotency_key == a.idempotency_key
    &&& b.created_at == a.created_at
    &&& b.started_at == a.started_at
    &&& b.ended_at == a.ended_at
    &&& b.duration_ms == a.duration_ms
    &&& b.result_summary == a.result_summary
    &&& b.result_detail_path == a.result_detail_path
    &&& b.error == a.error
    &&& a.timeline@.is_prefix_of(b.timeline@)
}

pub(crate) proof fn lemma_same_task_again(a: TaskRecord, b: TaskRecord, c: TaskRecord)
    requires
        same_task(a, b),
        same_task(b, c),
    ensures
        same_task(a, c),
{
    assert forall|i: int| 0 <= i < a.timeline@.len() implies c.timeline@[i] == a.timeline@[i] by {
        assert(b.timeline@.subrange(0, a.timeline@.len() as int)[i] == b.timeline@[i]);
        assert(c.timeline@.subrange(0, b.timeline@.len() as int)[i] == c.timeline@[i]);
    }
    assert(a.timeline@ =~= c.timeline@.subrange(0, a.timeline@.len() as int));
}

/// A timeline that is one entry longer begins as it did.
pub(crate) proof fn lemma_longer(before: Seq<TaskTimelineEntry>, after: Seq<TaskTimelineEntry>)
    requires
        after.len() == before.len() + 1,
        after.drop_last() == before,
    ensures
        before.is_prefix_of(after),
{
    assert(before =~= after.subrange(0, before.len() as int));
}

/// A timeline that is as it was begins as it did.
pub(crate) proof fn lemma_as_long(timeline: Seq<TaskTimelineEntry>)
    ensures
        timeline.is_prefix_of(timeline),
{
    assert(timeline =~= timeline.subrange(0, timeline.len() as int));
}

proof fn lemma_grown(a: TaskRecord, b: TaskRecord)
    requires
        b.timeline == a.timeline || (b.timeline@.len() == a.timeline@.len() + 1
            && b.timeline@.drop_last() == a.timeline@),
    ensures
        a.timeline@.is_prefix_of(b.timeline@),
{
    if b.timeline == a.timeline {
        lemma_as_long(a.timeline@);
    } else {
        lemma_longer(a.timeline@, b.timeline@);
    }
}

/// An update never changes what a task is or how far it has come, and adds to its timeline
/// only at the end.
pub proof fn updates_keep_the_task(
    old: TaskRecord,
    updates: TaskUpdates,
    now: Timestamp,
    new: TaskRecord,
)
    requires
        update_applied(old, updates, now, new),
    ensures
        same_task(old, new),
{
    let (a, b, c, d) = choose|a: TaskRecord, b: TaskRecord, c: TaskRecord, d: TaskRecord|
        #![trigger with_checklist(old, updates.checklist, now, a), with_gate(a, updates.gate, now, b), with_attempt(b, updates.attempt, now, c), artifacts_applied(c, updates.artifacts@, now, d)]
        with_checklist(old, updates.checklist, now, a) && with_gate(a, updates.gate, now, b)
            && with_attempt(b, updates.attempt, now, c) && artifacts_applied(
            c,
            updates.artifacts@,
            now,
            d,
        ) && with_github(d, updates.github_event, now, new);
    let steps = choose|steps: Seq<TaskRecord>| #[trigger]
        artifact_steps(steps, updates.artifacts@, now) && steps[0] == c && steps.last() == d;
    lemma_artifacts_keep_the_task(steps, updates.artifacts@, now, steps.len() - 1);
    lemma_grown(old, a);
    lemma_grown(a, b);
    lemma_grown(b, c);
    lemma_grown(d, new);
    lemma_same_task_again(old, a, b);
    lemma_same_task_again(old, b, c);
    lemma_same_task_again(old, c, d);
    lemma_same_task_again(old, d, new);
}

/// A gate is recorded once, in its latest form.
pub proof fn gates_are_recorded_once(
    old: TaskRecord,
    gate: TaskGateRecord,
    now: Timestamp,
    new: TaskRecord,
)
    requires
        gate_applied(old, gate, now, new),
    ensures
        new.gates@.last() == gate,
        forall|i: int|
            0 <= i < new.gates@.len() - 1 ==> (#[trigger] new.gates@[i]).id@ != gate.id@,
{
    let keep = |g: TaskGateRecord| g.id@ != gate.id@;
    assert forall|i: int| 0 <= i < new.gates@.len() - 1 implies (#[trigger] new.gates@[i]).id@
        != gate.id@ by {
        old.gates@.lemma_filter_pred(keep, i);
    }
}

/// An attempt is recorded once, in its latest form.
pub proof fn attempts_are_recorded_once(
    old: TaskRecord,
    attempt: TaskAttemptRecord,
    now: Timestamp,
    new: TaskRecord,
)
    requires
        attempt_applied(old, attempt, now, new),
    ensures
        new.attempts@.last() == attempt,
        forall|i: int|
            0 <= i < new.attempts@.len() - 1 ==> (#[trigger] new.attempts@[i]).id@ != attempt.id@,
{
    let keep = |a: TaskAttemptRecord| a.id@ != attempt.id@;
    assert forall|i: int| 0 <= i < new.attempts@.len() - 1 implies (
    #[trigger] new.attempts@[i]).id@ != attempt.id@ by {
        old.attempts@.lemma_filter_pred(keep, i);
    }
}

} // verus!
