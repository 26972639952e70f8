//! What a chat shows of a running agent: the events of a session as one line of status.
use vstd::prelude::*;

use crate::api::{ApiErrorCode, ApiErrorDetail};
use crate::json::{
    models, models_index, named_members_are_found, no_fields, optional_str, optional_text,
    signed_model, Json, JsonModel, JsonObject,
};
use crate::sse::SseFrame;
use crate::text::{
    char_is_alnum, char_lower, decimal, decimal_text, decimals_read_back, is_alnum, join2, join3,
    lower, number_of, same,
};
use crate::text_map::TextMap;

verus! {

/// Milliseconds between two refreshes of a countdown.
pub const WAIT_REFRESH_INTERVAL_MS: u64 = 5_000;

/// Milliseconds between two attempts to follow a session.
pub const RECONNECT_DELAY_MS: u64 = 1_000;

/// An event of a session, as far as its status depends on it.
#[derive(Debug)]
pub enum AgentEvent {
    SessionCreated,
    InputAppended,
    SelectionChanged,
    ContextConfigured,
    TurnStarted,
    TurnCancelRequested,
    TurnFinished { outcome: AgentTurnOutcome },
    StepStarted,
    StepCompleted {
        purpose: Option<String>,
        invocations: Vec<AgentInvocation>,
        auto_wait_deadline_ms: Option<i64>,
    },
    StepFailed { error: AgentFailure },
    StepInterrupted,
    AutoWaitEnded,
    ToolCancelRequested,
    ToolResult { result: AgentToolResult },
    ContextFailed,
    ContextApplied,
    DeadlineReached,
    RuntimeFault { failure: AgentFailure },
    Snapshot,
}

#[derive(Clone, Copy, Debug, PartialEq, Eq, Structural)]
pub enum AgentTurnOutcome {
    Finished,
    Failed,
    Cancelled,
}

#[derive(Debug)]
pub struct AgentInvocation {
    pub invocation_id: String,
    pub tool: String,
}

#[derive(Debug)]
pub struct AgentToolResult {
    pub invocation_id: String,
    pub tool: String,
    pub outcome: String,
    pub data: Json,
}

#[derive(Debug)]
pub struct AgentFailure {
    pub message: String,
}

#[derive(Debug)]
pub struct AgentToolCall {
    pub tool_call_id: String,
    pub tool_name: String,
}

/// What a tool call names.
pub struct CallModel {
    pub tool_call_id: Seq<char>,
    pub tool_name: Seq<char>,
}

impl View for AgentToolCall {
    type V = CallModel;

    open spec fn view(&self) -> CallModel {
        CallModel { tool_call_id: self.tool_call_id@, tool_name: self.tool_name@ }
    }
}

impl Clone for AgentToolCall {
    fn clone(&self) -> (r: AgentToolCall)
        ensures
            r@ == self@,
    {
        AgentToolCall {
            tool_call_id: self.tool_call_id.clone(),
            tool_name: self.tool_name.clone(),
        }
    }
}

/// What a list of tool calls names.
pub open spec fn call_models(calls: Seq<AgentToolCall>) -> Seq<CallModel> {
    calls.map_values(|call: AgentToolCall| call@)
}

/// A change of what the chat shows.
#[derive(Debug)]
pub enum AgentStatusEvent {
    Clear,
    Thinking,
    ToolsStarted { calls: Vec<AgentToolCall> },
    ToolFinished { tool_call_id: String },
    ToolsWaiting { calls: Vec<AgentToolCall>, deadline_ms: i64 },
    Waiting { reason: String, deadline_ms: i64 },
    Failed { reason: String },
    Finished,
    Interrupted,
}

/// What a change says.
#[verifier::ext_equal]
pub enum StatusModel {
    Clear,
    Thinking,
    ToolsStarted { calls: Seq<CallModel> },
    ToolFinished { tool_call_id: Seq<char> },
    ToolsWaiting { calls: Seq<CallModel>, deadline_ms: i64 },
    Waiting { reason: Seq<char>, deadline_ms: i64 },
    Failed { reason: Seq<char> },
    Finished,
    Interrupted,
}

impl View for AgentStatusEvent {
    type V = StatusModel;

    open spec fn view(&self) -> StatusModel {
        match self {
            AgentStatusEvent::Clear => StatusModel::Clear,
            AgentStatusEvent::Thinking => StatusModel::Thinking,
            AgentStatusEvent::ToolsStarted { calls } => StatusModel::ToolsStarted {
                calls: call_models(calls@),
            },
            AgentStatusEvent::ToolFinished { tool_call_id } => StatusModel::ToolFinished {
                tool_call_id: tool_call_id@,
            },
            AgentStatusEvent::ToolsWaiting { calls, deadline_ms } => StatusModel::ToolsWaiting {
                calls: call_models(calls@),
                deadline_ms: *deadline_ms,
            },
            AgentStatusEvent::Waiting { reason, deadline_ms } => StatusModel::Waiting {
                reason: reason@,
                deadline_ms: *deadline_ms,
            },
            AgentStatusEvent::Failed { reason } => StatusModel::Failed { reason: reason@ },
            AgentStatusEvent::Finished => StatusModel::Finished,
            AgentStatusEvent::Interrupted => StatusModel::Interrupted,
        }
    }
}

/// What an optional change says.
pub open spec fn optional_status(event: Option<AgentStatusEvent>) -> Option<StatusModel> {
    match event {
        Some(event) => Some(event@),
        None => None,
    }
}

/// The invocations of a step as tool calls.
pub open spec fn invoked(invocations: Seq<AgentInvocation>) -> Seq<CallModel> {
    invocations.map_values(
        |invocation: AgentInvocation|
            CallModel { tool_call_id: invocation.invocation_id@, tool_name: invocation.tool@ },
    )
}

/// Whether a step serves something other than the conversation.
pub open spec fn is_side_step(purpose: Option<String>) -> bool {
    match purpose {
        Some(purpose) => purpose@ != "conversation"@,
        None => false,
    }
}

/// What the result of a tool changes: a `wait` that succeeded starts a countdown, if it says until
/// when, and changes nothing otherwise; any other result ends its call.
pub open spec fn result_status(result: AgentToolResult) -> Option<StatusModel> {
    if result.tool@ == "wait"@ && result.outcome@ == "succeeded"@ {
        match result.data@.get("until_ms"@) {
            Some(until) => match until.as_signed() {
                Some(deadline_ms) => Some(
                    StatusModel::Waiting {
                        reason: match result.data@.text_at("reason"@) {
                            Some(reason) => reason,
                            None => "the requested time"@,
                        },
                        deadline_ms,
                    },
                ),
                None => None,
            },
            None => None,
        }
    } else {
        Some(StatusModel::ToolFinished { tool_call_id: result.invocation_id@ })
    }
}

/// What an event of the session changes in the chat; `None` where nothing changes.
pub open spec fn status_of(event: AgentEvent) -> Option<StatusModel> {
    match event {
        AgentEvent::SessionCreated => Some(StatusModel::Clear),
        AgentEvent::TurnStarted
        | AgentEvent::StepStarted
        | AgentEvent::ContextApplied
        | AgentEvent::DeadlineReached => Some(StatusModel::Thinking),
        AgentEvent::StepCompleted { purpose, invocations, auto_wait_deadline_ms } => {
            if is_side_step(purpose) || invocations@.len() == 0 {
                Some(StatusModel::Thinking)
            } else {
                match auto_wait_deadline_ms {
                    Some(deadline_ms) => Some(
                        StatusModel::ToolsWaiting { calls: invoked(invocations@), deadline_ms },
                    ),
                    None => Some(StatusModel::ToolsStarted { calls: invoked(invocations@) }),
                }
            }
        },
        AgentEvent::StepFailed { error } => Some(StatusModel::Failed { reason: error.message@ }),
        AgentEvent::RuntimeFault { failure } => Some(
            StatusModel::Failed { reason: failure.message@ },
        ),
        AgentEvent::StepInterrupted | AgentEvent::TurnCancelRequested => Some(
            StatusModel::Interrupted,
        ),
        AgentEvent::ToolResult { result } => result_status(result),
        AgentEvent::TurnFinished { outcome } => match outcome {
            AgentTurnOutcome::Finished => Some(StatusModel::Finished),
            AgentTurnOutcome::Failed => Some(StatusModel::Failed { reason: "turn failed"@ }),
            AgentTurnOutcome::Cancelled => Some(StatusModel::Interrupted),
        },
        AgentEvent::ContextFailed
        | AgentEvent::AutoWaitEnded
        | AgentEvent::InputAppended
        | AgentEvent::SelectionChanged
        | AgentEvent::ContextConfigured
        | AgentEvent::ToolCancelRequested
        | AgentEvent::Snapshot => None,
    }
}

fn calls_of(invocations: &Vec<AgentInvocation>) -> (r: Vec<AgentToolCall>)
    ensures
        call_models(r@) == invoked(invocations@),
{
    let mut out: Vec<AgentToolCall> = Vec::new();
    let mut i: usize = 0;
    while i < invocations.len()
        invariant
            i <= invocations.len(),
            out@.len() == i,
            forall|j: int| 0 <= j < i ==> #[trigger] call_models(out@)[j] == invoked(invocations@)[j],
        decreases invocations.len() - i,
    {
        let ghost before = out@;
        out.push(
            AgentToolCall {
                tool_call_id: invocations[i].invocation_id.clone(),
                tool_name: invocations[i].tool.clone(),
            },
        );
        proof {
            assert forall|j: int| 0 <= j < i + 1 implies #[trigger] call_models(out@)[j]
                == invoked(invocations@)[j] by {
                if j < i {
                    assert(call_models(before)[j] == call_models(out@)[j]);
                }
            }
        }
        i = i + 1;
    }
    proof {
        assert(call_models(out@) =~= invoked(invocations@));
    }
    out
}

impl AgentEvent {
    /// What the event changes in the chat.
    pub fn status_event(self) -> (r: Option<AgentStatusEvent>)
        ensures
            optional_status(r) == status_of(self),
    {
        match self {
            AgentEvent::SessionCreated => Some(AgentStatusEvent::Clear),
            AgentEvent::TurnStarted
            | AgentEvent::StepStarted
            | AgentEvent::ContextApplied
            | AgentEvent::DeadlineReached => Some(AgentStatusEvent::Thinking),
            AgentEvent::StepCompleted { purpose, invocations, auto_wait_deadline_ms } => {
                let side_step = match &purpose {
                    Some(purpose) => !same(purpose, "conversation"),
                    None => false,
                };
                if side_step || invocations.len() == 0 {
                    return Some(AgentStatusEvent::Thinking);
                }
                let calls = calls_of(&invocations);
                match auto_wait_deadline_ms {
                    Some(deadline_ms) => Some(
                        AgentStatusEvent::ToolsWaiting { calls, deadline_ms },
                    ),
                    None => Some(AgentStatusEvent::ToolsStarted { calls }),
                }
            },
            AgentEvent::StepFailed { error } => Some(
                AgentStatusEvent::Failed { reason: error.message },
            ),
            AgentEvent::RuntimeFault { failure } => Some(
                AgentStatusEvent::Failed { reason: failure.message },
            ),
            AgentEvent::StepInterrupted | AgentEvent::TurnCancelRequested => Some(
                AgentStatusEvent::Interrupted,
            ),
            AgentEvent::ToolResult { result } => {
                if same(&result.tool, "wait") && same(&result.outcome, "succeeded") {
                    let until = match result.data.get("until_ms") {
                        Some(until) => until.as_i64(),
                        None => None,
                    };
                    match until {
                        Some(deadline_ms) => {
                            let reason = match result.data.str_at("reason") {
                                Some(reason) => reason.to_owned(),
                                None => "the requested time".to_owned(),
                            };
                            Some(AgentStatusEvent::Waiting { reason, deadline_ms })
                        },
                        None => None,
                    }
                } else {
                    Some(AgentStatusEvent::ToolFinished { tool_call_id: result.invocation_id })
                }
            },
            AgentEvent::TurnFinished { outcome } => match outcome {
                AgentTurnOutcome::Finished => Some(AgentStatusEvent::Finished),
                AgentTurnOutcome::Failed => Some(
                    AgentStatusEvent::Failed { reason: "turn failed".to_owned() },
                ),
                AgentTurnOutcome::Cancelled => Some(AgentStatusEvent::Interrupted),
            },
            AgentEvent::ContextFailed
            | AgentEvent::AutoWaitEnded
            | AgentEvent::InputAppended
            | AgentEvent::SelectionChanged
            | AgentEvent::ContextConfigured
            | AgentEvent::ToolCancelRequested
            | AgentEvent::Snapshot => None,
        }
    }
}

#[derive(Debug)]
pub struct WaitingStatus {
    pub reason: String,
    pub deadline_ms: i64,
}

/// What the chat shows between two changes.
#[derive(Debug)]
pub struct ProjectionState {
    pub active_tools: Vec<AgentToolCall>,
    pub waiting: Option<WaitingStatus>,
}

/// What a projection holds.
#[verifier::ext_equal]
pub struct ProjectionModel {
    pub active_tools: Seq<CallModel>,
    pub waiting: Option<(Seq<char>, i64)>,
}

impl View for ProjectionState {
    type V = ProjectionModel;

    open spec fn view(&self) -> ProjectionModel {
        ProjectionModel {
            active_tools: call_models(self.active_tools@),
            waiting: match self.waiting {
                Some(wait) => Some((wait.reason@, wait.deadline_ms)),
                None => None,
            },
        }
    }
}

/// A projection with nothing to show.
pub open spec fn idle() -> ProjectionModel {
    ProjectionModel { active_tools: Seq::empty(), waiting: None }
}

/// `n` as a decimal number of at least two digits.
pub open spec fn two_digits(n: nat) -> Seq<char> {
    if n < 10 {
        seq!['0'] + decimal(n)
    } else {
        decimal(n)
    }
}

/// The seconds until `deadline_ms`, begun ones counted whole, none where it has passed. Both steps
/// stop at the largest `i64`.
pub open spec fn seconds_left(deadline_ms: i64, now_ms: i64) -> nat {
    let gap = deadline_ms - now_ms;
    let remaining = if gap < 0 {
        0
    } else if gap > i64::MAX {
        i64::MAX as int
    } else {
        gap
    };
    let padded = if remaining + 999 > i64::MAX {
        i64::MAX as int
    } else {
        remaining + 999
    };
    (padded / 1000) as nat
}

/// A countdown: the reason, then minutes and seconds.
pub open spec fn countdown(reason: Seq<char>, deadline_ms: i64, now_ms: i64) -> Seq<char> {
    let seconds = seconds_left(deadline_ms, now_ms);
    "Waiting: "@ + reason + " · "@ + two_digits(seconds / 60) + ":"@ + two_digits(seconds % 60)
}

/// The letters and digits of a tool name, in lower case.
pub open spec fn plain_name(name: Seq<char>) -> Seq<char>
    decreases name.len(),
{
    if name.len() == 0 {
        Seq::empty()
    } else if is_alnum(name.last()) {
        plain_name(name.drop_last()).push(lower(name.last()))
    } else {
        plain_name(name.drop_last())
    }
}

/// What the chat shows while a tool runs.
pub open spec fn tool_line(name: Seq<char>) -> Seq<char> {
    let plain = plain_name(name);
    if plain == "read"@ || plain == "list"@ || plain == "ls"@ || plain == "glob"@ || plain
        == "grep"@ {
        "Reading files..."@
    } else if plain == "stat"@ {
        "Checking files..."@
    } else if plain == "write"@ || plain == "edit"@ || plain == "applypatch"@ || plain == "copy"@
        || plain == "delete"@ {
        "Updating files..."@
    } else if plain == "exec"@ {
        "Running in environment..."@
    } else if plain == "bash"@ || plain == "execcommand"@ {
        "Running in workspace..."@
    } else if plain == "python"@ {
        "Running Python..."@
    } else if plain == "webbrowse"@ {
        "Browsing the web..."@
    } else if plain == "searchquery"@ || plain == "imagequery"@ {
        "Searching the web..."@
    } else if plain == "readcontexthandoff"@ || plain == "readsessionhistory"@ {
        "Reading session history..."@
    } else if plain == "contexthandoff"@ {
        "Summarizing context..."@
    } else if plain == "waitfor"@ {
        "Preparing to wait..."@
    } else if plain == "end"@ {
        "Finishing..."@
    } else {
        "Working..."@
    }
}

/// What the chat shows while tools run: the line of the last one.
pub open spec fn tools_line(calls: Seq<CallModel>) -> Seq<char> {
    if calls.len() == 0 {
        "Working..."@
    } else {
        tool_line(calls.last().tool_name)
    }
}

/// What an automatic wait for tools waits for.
pub open spec fn tools_reason(calls: Seq<CallModel>) -> Seq<char> {
    if calls.len() == 0 {
        "background tools to finish"@
    } else if calls.len() == 1 {
        calls[0].tool_name + " to finish"@
    } else {
        decimal(calls.len()) + " background tools to finish"@
    }
}

/// The calls other than the one with this identity.
pub open spec fn other_calls(calls: Seq<CallModel>, tool_call_id: Seq<char>) -> Seq<CallModel>
    decreases calls.len(),
{
    if calls.len() == 0 {
        Seq::empty()
    } else if calls.last().tool_call_id == tool_call_id {
        other_calls(calls.drop_last(), tool_call_id)
    } else {
        other_calls(calls.drop_last(), tool_call_id).push(calls.last())
    }
}

/// The projection after a change.
pub open spec fn projected(m: ProjectionModel, event: StatusModel) -> ProjectionModel {
    match event {
        StatusModel::Clear
        | StatusModel::Finished
        | StatusModel::Interrupted
        | StatusModel::Thinking
        | StatusModel::Failed { .. } => idle(),
        StatusModel::ToolsStarted { calls } => ProjectionModel {
            active_tools: calls,
            waiting: None,
        },
        StatusModel::ToolFinished { tool_call_id } => ProjectionModel {
            active_tools: other_calls(m.active_tools, tool_call_id),
            waiting: None,
        },
        StatusModel::ToolsWaiting { calls, deadline_ms } => ProjectionModel {
            active_tools: calls,
            waiting: Some((tools_reason(calls), deadline_ms)),
        },
        StatusModel::Waiting { reason, deadline_ms } => ProjectionModel {
            active_tools: Seq::empty(),
            waiting: Some((reason, deadline_ms)),
        },
    }
}

/// The line that the chat shows after a change; an empty one shows nothing.
pub open spec fn shown(m: ProjectionModel, event: StatusModel, now_ms: i64) -> Seq<char> {
    let next = projected(m, event);
    match event {
        StatusModel::Clear | StatusModel::Finished | StatusModel::Interrupted => Seq::empty(),
        StatusModel::Thinking => "Thinking..."@,
        StatusModel::ToolsStarted { .. } => tools_line(next.active_tools),
        StatusModel::ToolFinished { .. } => if next.active_tools.len() == 0 {
            "Thinking..."@
        } else {
            tools_line(next.active_tools)
        },
        StatusModel::ToolsWaiting { .. } | StatusModel::Waiting { .. } => countdown(
            (next.waiting->0).0,
            (next.waiting->0).1,
            now_ms,
        ),
        StatusModel::Failed { reason } => "Failed: "@ + reason,
    }
}

fn two_digit_text(n: u64) -> (r: String)
    ensures
        r@ == two_digits(n as nat),
{
    if n < 10 {
        let mut out: String = String::new();
        out.push('0');
        out.append(&decimal_text(n));
        out
    } else {
        decimal_text(n)
    }
}

/// The letters and digits of a tool name, in lower case.
pub fn normalize_tool_name(tool_name: &str) -> (r: String)
    ensures
        r@ == plain_name(tool_name@),
{
    let mut out: String = String::new();
    for c in it: tool_name.chars()
        invariant
            it.seq() == tool_name@,
            out@ == plain_name(tool_name@.take(it.index() as int)),
    {
        proof {
            assert(tool_name@.take(it.index() + 1).drop_last() =~= tool_name@.take(
                it.index() as int,
            ));
        }
        if char_is_alnum(c) {
            out.push(char_lower(c));
        }
    }
    proof {
        assert(tool_name@.take(tool_name@.len() as int) =~= tool_name@);
    }
    out
}

/// What the chat shows while a tool runs.
pub fn tool_status(tool_name: &str) -> (r: &'static str)
    ensures
        r@ == tool_line(tool_name@),
{
    let plain = normalize_tool_name(tool_name);
    if same(&plain, "read") || same(&plain, "list") || same(&plain, "ls") || same(&plain, "glob")
        || same(&plain, "grep") {
        "Reading files..."
    } else if same(&plain, "stat") {
        "Checking files..."
    } else if same(&plain, "write") || same(&plain, "edit") || same(&plain, "applypatch") || same(
        &plain,
        "copy",
    ) || same(&plain, "delete") {
        "Updating files..."
    } else if same(&plain, "exec") {
        "Running in environment..."
    } else if same(&plain, "bash") || same(&plain, "execcommand") {
        "Running in workspace..."
    } else if same(&plain, "python") {
        "Running Python..."
    } else if same(&plain, "webbrowse") {
        "Browsing the web..."
    } else if same(&plain, "searchquery") || same(&plain, "imagequery") {
        "Searching the web..."
    } else if same(&plain, "readcontexthandoff") || same(&plain, "readsessionhistory") {
        "Reading session history..."
    } else if same(&plain, "contexthandoff") {
        "Summarizing context..."
    } else if same(&plain, "waitfor") {
        "Preparing to wait..."
    } else if same(&plain, "end") {
        "Finishing..."
    } else {
        "Working..."
    }
}

impl ProjectionState {
    /// A projection with nothing to show.
    pub fn new() -> (r: ProjectionState)
        ensures
            r@ == idle(),
    {
        let out = ProjectionState { active_tools: Vec::new(), waiting: None };
        proof {
            assert(out@ =~= idle());
        }
        out
    }

    /// Takes a change and returns the line to show.
    pub fn apply(&mut self, event: AgentStatusEvent, now_ms: i64) -> (r: String)
        ensures
            final(self)@ == projected(old(self)@, event@),
            r@ == shown(old(self)@, event@, now_ms),
    {
        match event {
            AgentStatusEvent::Clear
            | AgentStatusEvent::Finished
            | AgentStatusEvent::Interrupted => {
                self.reset();
                String::new()
            },
            AgentStatusEvent::Thinking => {
                self.reset();
                "Thinking...".to_owned()
            },
            AgentStatusEvent::ToolsStarted { calls } => {
                self.waiting = None;
                self.active_tools = calls;
                self.current_tool_status()
            },
            AgentStatusEvent::ToolFinished { tool_call_id } => {
                self.waiting = None;
                self.finish_call(&tool_call_id);
                if self.active_tools.len() == 0 {
                    "Thinking...".to_owned()
                } else {
                    self.current_tool_status()
                }
            },
            AgentStatusEvent::ToolsWaiting { calls, deadline_ms } => {
                self.active_tools = calls;
                let reason = if self.active_tools.len() == 0 {
                    "background tools to finish".to_owned()
                } else if self.active_tools.len() == 1 {
                    join2(&self.active_tools[0].tool_name, " to finish")
                } else {
                    join2(
                        &decimal_text(self.active_tools.len() as u64),
                        " background tools to finish",
                    )
                };
                self.waiting = Some(WaitingStatus { reason, deadline_ms });
                self.refresh_wait(now_ms)
            },
            AgentStatusEvent::Waiting { reason, deadline_ms } => {
                self.active_tools = Vec::new();
                self.waiting = Some(WaitingStatus { reason, deadline_ms });
                proof {
                    assert(self@.active_tools =~= Seq::<CallModel>::empty());
                }
                self.refresh_wait(now_ms)
            },
            AgentStatusEvent::Failed { reason } => {
                self.reset();
                join2("Failed: ", &reason)
            },
        }
    }

    /// Drops the call with this identity.
    fn finish_call(&mut self, tool_call_id: &str)
        ensures
            final(self)@.active_tools == other_calls(old(self)@.active_tools, tool_call_id@),
            final(self)@.waiting == old(self)@.waiting,
    {
        let ghost before = call_models(self.active_tools@);
        let mut kept: Vec<AgentToolCall> = Vec::new();
        let mut i: usize = 0;
        proof {
            assert(before.take(0) =~= Seq::<CallModel>::empty());
            assert(call_models(kept@) =~= Seq::<CallModel>::empty());
        }
        while i < self.active_tools.len()
            invariant
                i <= self.active_tools.len(),
                before == call_models(self.active_tools@),
                call_models(kept@) == other_calls(before.take(i as int), tool_call_id@),
            decreases self.active_tools.len() - i,
        {
            proof {
                assert(before.take(i + 1).drop_last() =~= before.take(i as int));
            }
            if !same(&self.active_tools[i].tool_call_id, tool_call_id) {
                let call = self.active_tools[i].clone();
                let ghost earlier = call_models(kept@);
                kept.push(call);
                proof {
                    assert(call_models(kept@) =~= earlier.push(call@));
                }
            }
            i = i + 1;
        }
        proof {
            assert(before.take(before.len() as int) =~= before);
        }
        self.active_tools = kept;
    }

    /// Whether a countdown runs.
    pub fn is_waiting(&self) -> (r: bool)
        ensures
            r == self@.waiting is Some,
    {
        self.waiting.is_some()
    }

    /// The line of the countdown at `now_ms`.
    pub fn refresh_wait(&self, now_ms: i64) -> (r: String)
        requires
            self@.waiting is Some,
        ensures
            r@ == countdown((self@.waiting->0).0, (self@.waiting->0).1, now_ms),
    {
        match &self.waiting {
            Some(wait) => {
                let gap: i128 = (wait.deadline_ms as i128) - (now_ms as i128);
                let remaining: i128 = if gap < 0 {
                    0
                } else if gap > i64::MAX as i128 {
                    i64::MAX as i128
                } else {
                    gap
                };
                let padded: i128 = if remaining + 999 > i64::MAX as i128 {
                    i64::MAX as i128
                } else {
                    remaining + 999
                };
                let seconds: u64 = (padded as u64) / 1000;
                let mut out = join3("Waiting: ", &wait.reason, " · ");
                out.append(&two_digit_text(seconds / 60));
                out.append(":");
                out.append(&two_digit_text(seconds % 60));
                out
            },
            None => String::new(),
        }
    }

    fn current_tool_status(&self) -> (r: String)
        ensures
            r@ == tools_line(self@.active_tools),
    {
        if self.active_tools.len() == 0 {
            "Working...".to_owned()
        } else {
            tool_status(&self.active_tools[self.active_tools.len() - 1].tool_name).to_owned()
        }
    }

    /// Forgets tools and countdown.
    pub fn reset(&mut self)
        ensures
            final(self)@ == idle(),
    {
        self.active_tools = Vec::new();
        self.waiting = None;
        proof {
            assert(self@ =~= idle());
        }
    }
}

impl Default for ProjectionState {
    fn default() -> (r: ProjectionState)
        ensures
            r@ == idle(),
    {
        ProjectionState::new()
    }
}

/// A tool call as JSON.
pub open spec fn call_json(call: CallModel) -> JsonModel {
    JsonModel::Object(
        no_fields()
            .push(("tool_call_id"@, JsonModel::Text(call.tool_call_id)))
            .push(("tool_name"@, JsonModel::Text(call.tool_name))),
    )
}

pub open spec fn calls_json(calls: Seq<CallModel>) -> JsonModel {
    JsonModel::Array(calls.map_values(|call: CallModel| call_json(call)))
}

/// A change as JSON: an object whose `state` names the change.
pub open spec fn status_json(event: StatusModel) -> JsonModel {
    match event {
        StatusModel::Clear => JsonModel::Object(no_fields().push(("state"@, JsonModel::Text("clear"@)))),
        StatusModel::Thinking => JsonModel::Object(no_fields().push(("state"@, JsonModel::Text("thinking"@)))),
        StatusModel::ToolsStarted { calls } => JsonModel::Object(
            no_fields()
                .push(("state"@, JsonModel::Text("tools_started"@)))
                .push(("calls"@, calls_json(calls))),
        ),
        StatusModel::ToolFinished { tool_call_id } => JsonModel::Object(
            no_fields()
                .push(("state"@, JsonModel::Text("tool_finished"@)))
                .push(("tool_call_id"@, JsonModel::Text(tool_call_id))),
        ),
        StatusModel::ToolsWaiting { calls, deadline_ms } => JsonModel::Object(
            no_fields()
                .push(("state"@, JsonModel::Text("tools_waiting"@)))
                .push(("calls"@, calls_json(calls)))
                .push(("deadline_ms"@, signed_model(deadline_ms))),
        ),
        StatusModel::Waiting { reason, deadline_ms } => JsonModel::Object(
            no_fields()
                .push(("state"@, JsonModel::Text("waiting"@)))
                .push(("reason"@, JsonModel::Text(reason)))
                .push(("deadline_ms"@, signed_model(deadline_ms))),
        ),
        StatusModel::Failed { reason } => JsonModel::Object(
            no_fields()
                .push(("state"@, JsonModel::Text("failed"@)))
                .push(("reason"@, JsonModel::Text(reason))),
        ),
        StatusModel::Finished => JsonModel::Object(no_fields().push(("state"@, JsonModel::Text("finished"@)))),
        StatusModel::Interrupted => JsonModel::Object(
            no_fields().push(("state"@, JsonModel::Text("interrupted"@))),
        ),
    }
}

fn calls_to_json(calls: &Vec<AgentToolCall>) -> (r: Json)
    ensures
        r@ == calls_json(call_models(calls@)),
{
    let mut items: Vec<Json> = Vec::new();
    let mut i: usize = 0;
    let ghost expected = call_models(calls@).map_values(|call: CallModel| call_json(call));
    proof {
        assert(expected.take(0) =~= models(items@));
    }
    while i < calls.len()
        invariant
            i <= calls.len(),
            expected == call_models(calls@).map_values(|call: CallModel| call_json(call)),
            models(items@) == expected.take(i as int),
        decreases calls.len() - i,
    {
        let object = JsonObject::new().with(
            "tool_call_id",
            Json::text(&calls[i].tool_call_id),
        ).with("tool_name", Json::text(&calls[i].tool_name)).done();
        let ghost before = items@;
        items.push(object);
        proof {
            assert(items@.drop_last() =~= before);
            assert(expected.take(i + 1) =~= expected.take(i as int).push(expected[i as int]));
        }
        i = i + 1;
    }
    proof {
        assert(expected.take(expected.len() as int) =~= expected);
    }
    Json::array(items)
}

impl AgentStatusEvent {
    /// The change as JSON.
    pub fn to_json(&self) -> (r: Json)
        ensures
            r@ == status_json(self@),
    {
        let object = JsonObject::new();
        match self {
            AgentStatusEvent::Clear => object.with("state", Json::text("clear")).done(),
            AgentStatusEvent::Thinking => object.with("state", Json::text("thinking")).done(),
            AgentStatusEvent::ToolsStarted { calls } => object.with(
                "state",
                Json::text("tools_started"),
            ).with("calls", calls_to_json(calls)).done(),
            AgentStatusEvent::ToolFinished { tool_call_id } => object.with(
                "state",
                Json::text("tool_finished"),
            ).with("tool_call_id", Json::text(tool_call_id)).done(),
            AgentStatusEvent::ToolsWaiting { calls, deadline_ms } => object.with(
                "state",
                Json::text("tools_waiting"),
            ).with("calls", calls_to_json(calls)).with(
                "deadline_ms",
                Json::signed(*deadline_ms),
            ).done(),
            AgentStatusEvent::Waiting { reason, deadline_ms } => object.with(
                "state",
                Json::text("waiting"),
            ).with("reason", Json::text(reason)).with(
                "deadline_ms",
                Json::signed(*deadline_ms),
            ).done(),
            AgentStatusEvent::Failed { reason } => object.with("state", Json::text("failed")).with(
                "reason",
                Json::text(reason),
            ).done(),
            AgentStatusEvent::Finished => object.with("state", Json::text("finished")).done(),
            AgentStatusEvent::Interrupted => object.with(
                "state",
                Json::text("interrupted"),
            ).done(),
        }
    }
}

/// A tool call in JSON: an object, or a list of its two parts.
pub open spec fn call_in(value: JsonModel) -> Option<CallModel> {
    match (value.text_part("tool_call_id"@, 0, 2), value.text_part("tool_name"@, 1, 2)) {
        (Some(tool_call_id), Some(tool_name)) => Some(CallModel { tool_call_id, tool_name }),
        _ => None,
    }
}

/// The tool calls in a JSON array; `None` where one of the items is no tool call.
pub open spec fn calls_in(items: Seq<JsonModel>) -> Option<Seq<CallModel>>
    decreases items.len(),
{
    if items.len() == 0 {
        Some(Seq::empty())
    } else {
        match (calls_in(items.drop_last()), call_in(items.last())) {
            (Some(calls), Some(call)) => Some(calls.push(call)),
            _ => None,
        }
    }
}

/// The tool calls of a change that has `count` parts.
pub open spec fn calls_at(value: JsonModel, count: int) -> Option<Seq<CallModel>> {
    match value.part("calls"@, 1, count) {
        Some(JsonModel::Array(items)) => calls_in(items),
        _ => None,
    }
}

/// The deadline of a change, its third part.
pub open spec fn deadline_at(value: JsonModel) -> Option<i64> {
    match value.part("deadline_ms"@, 2, 3) {
        Some(number) => number.as_signed(),
        None => None,
    }
}

/// The name of the change that a JSON value describes.
pub open spec fn state_at(value: JsonModel) -> Option<Seq<char>> {
    match value {
        JsonModel::Array(items) => if items.len() == 0 {
            None
        } else {
            items[0].as_text()
        },
        _ => value.text_at("state"@),
    }
}

/// A change without parts, unless a list holds some.
pub open spec fn alone(value: JsonModel, event: StatusModel) -> Option<StatusModel> {
    match value {
        JsonModel::Array(items) => if items.len() == 1 {
            Some(event)
        } else {
            None
        },
        _ => Some(event),
    }
}

/// The change that a JSON value describes: an object whose `state` names it, or a list that starts
/// with the name, followed by the parts of the change.
pub open spec fn status_in(value: JsonModel) -> Option<StatusModel> {
    match state_at(value) {
        None => None,
        Some(state) => if state == "clear"@ {
            alone(value, StatusModel::Clear)
        } else if state == "thinking"@ {
            alone(value, StatusModel::Thinking)
        } else if state == "tools_started"@ {
            match calls_at(value, 2) {
                Some(calls) => Some(StatusModel::ToolsStarted { calls }),
                None => None,
            }
        } else if state == "tool_finished"@ {
            match value.text_part("tool_call_id"@, 1, 2) {
                Some(tool_call_id) => Some(StatusModel::ToolFinished { tool_call_id }),
                None => None,
            }
        } else if state == "tools_waiting"@ {
            match (calls_at(value, 3), deadline_at(value)) {
                (Some(calls), Some(deadline_ms)) => Some(
                    StatusModel::ToolsWaiting { calls, deadline_ms },
                ),
                _ => None,
            }
        } else if state == "waiting"@ {
            match (value.text_part("reason"@, 1, 3), deadline_at(value)) {
                (Some(reason), Some(deadline_ms)) => Some(
                    StatusModel::Waiting { reason, deadline_ms },
                ),
                _ => None,
            }
        } else if state == "failed"@ {
            match value.text_part("reason"@, 1, 2) {
                Some(reason) => Some(StatusModel::Failed { reason }),
                None => None,
            }
        } else if state == "finished"@ {
            alone(value, StatusModel::Finished)
        } else if state == "interrupted"@ {
            alone(value, StatusModel::Interrupted)
        } else {
            None
        },
    }
}

fn read_alone(value: &Json, event: AgentStatusEvent) -> (r: Option<AgentStatusEvent>)
    ensures
        optional_status(r) == alone(value@, event@),
{
    match value {
        Json::Array(items) => {
            proof {
                models_index(items@);
            }
            if items.len() == 1 {
                Some(event)
            } else {
                None
            }
        },
        _ => Some(event),
    }
}

fn read_state(value: &Json) -> (r: Option<&str>)
    ensures
        optional_str(r) == state_at(value@),
{
    match value {
        Json::Array(items) => {
            proof {
                models_index(items@);
            }
            if items.len() == 0 {
                None
            } else {
                items[0].as_str()
            }
        },
        _ => value.str_at("state"),
    }
}

fn calls_from_json(value: &Json, count: usize) -> (r: Option<Vec<AgentToolCall>>)
    requires
        count > 1,
    ensures
        match r {
            Some(calls) => calls_at(value@, count as int) == Some(call_models(calls@)),
            None => calls_at(value@, count as int) is None,
        },
{
    let items = match value.part("calls", 1, count) {
        Some(Json::Array(items)) => items,
        _ => {
            return None;
        },
    };
    let ghost all = models(items@);
    let mut out: Vec<AgentToolCall> = Vec::new();
    let mut i: usize = 0;
    proof {
        models_index(items@);
        assert(all.take(0) =~= Seq::<JsonModel>::empty());
        assert(call_models(out@) =~= Seq::<CallModel>::empty());
        assert(all.take(all.len() as int) =~= all);
    }
    while i < items.len()
        invariant
            i <= items.len(),
            all == models(items@),
            all.len() == items.len(),
            calls_at(value@, count as int) == calls_in(all),
            forall|j: int| 0 <= j < items.len() ==> #[trigger] all[j] == items@[j]@,
            calls_in(all.take(i as int)) == Some(call_models(out@)),
        decreases items.len() - i,
    {
        proof {
            assert(all.take(i + 1).drop_last() =~= all.take(i as int));
            assert(all[i as int] == items@[i as int]@);
        }
        match (items[i].str_part("tool_call_id", 0, 2), items[i].str_part("tool_name", 1, 2)) {
            (Some(tool_call_id), Some(tool_name)) => {
                let call = AgentToolCall {
                    tool_call_id: tool_call_id.to_owned(),
                    tool_name: tool_name.to_owned(),
                };
                let ghost before = call_models(out@);
                out.push(call);
                proof {
                    assert(call_models(out@) =~= before.push(call@));
                }
            },
            _ => {
                proof {
                    lemma_no_calls(all, i + 1);
                }
                return None;
            },
        }
        i = i + 1;
    }
    proof {
        assert(all.take(all.len() as int) =~= all);
    }
    Some(out)
}

/// A list of which a beginning is no list of tool calls is none.
proof fn lemma_no_calls(items: Seq<JsonModel>, count: int)
    requires
        0 <= count <= items.len(),
        calls_in(items.take(count)) is None,
    ensures
        calls_in(items) is None,
    decreases items.len() - count,
{
    if count < items.len() {
        assert(items.take(count + 1).drop_last() =~= items.take(count));
        lemma_no_calls(items, count + 1);
    } else {
        assert(items.take(count) =~= items);
    }
}

impl AgentStatusEvent {
    /// The change that a JSON value describes.
    pub fn from_json(value: &Json) -> (r: Option<AgentStatusEvent>)
        ensures
            optional_status(r) == status_in(value@),
    {
        let state = match read_state(value) {
            Some(state) => state,
            None => {
                return None;
            },
        };
        let deadline = match value.part("deadline_ms", 2, 3) {
            Some(number) => number.as_i64(),
            None => None,
        };
        if same(state, "clear") {
            read_alone(value, AgentStatusEvent::Clear)
        } else if same(state, "thinking") {
            read_alone(value, AgentStatusEvent::Thinking)
        } else if same(state, "tools_started") {
            match calls_from_json(value, 2) {
                Some(calls) => Some(AgentStatusEvent::ToolsStarted { calls }),
                None => None,
            }
        } else if same(state, "tool_finished") {
            match value.str_part("tool_call_id", 1, 2) {
                Some(tool_call_id) => Some(
                    AgentStatusEvent::ToolFinished { tool_call_id: tool_call_id.to_owned() },
                ),
                None => None,
            }
        } else if same(state, "tools_waiting") {
            match (calls_from_json(value, 3), deadline) {
                (Some(calls), Some(deadline_ms)) => Some(
                    AgentStatusEvent::ToolsWaiting { calls, deadline_ms },
                ),
                _ => None,
            }
        } else if same(state, "waiting") {
            match (value.str_part("reason", 1, 3), deadline) {
                (Some(reason), Some(deadline_ms)) => Some(
                    AgentStatusEvent::Waiting { reason: reason.to_owned(), deadline_ms },
                ),
                _ => None,
            }
        } else if same(state, "failed") {
            match value.str_part("reason", 1, 2) {
                Some(reason) => Some(AgentStatusEvent::Failed { reason: reason.to_owned() }),
                None => None,
            }
        } else if same(state, "finished") {
            read_alone(value, AgentStatusEvent::Finished)
        } else if same(state, "interrupted") {
            read_alone(value, AgentStatusEvent::Interrupted)
        } else {
            None
        }
    }
}

/// The event of a stream frame, with the identity that its body gives.
#[derive(Debug)]
pub struct AgentEnvelope {
    pub event_id: String,
    pub event: AgentEvent,
}

/// What a frame of the session stream leads to.
#[derive(Debug)]
pub enum FrameStep {
    /// The frame is not an event of the session log.
    Ignored,
    /// The body is no event; the stream is given up.
    InvalidEnvelope,
    /// The frame and its body disagree on the event; the stream is given up.
    IdMismatch,
    /// The event changes nothing in the chat.
    Unchanged,
    /// The chat shows another status.
    Changed { event: AgentStatusEvent, status: String, starts_wait: bool },
}

/// Whether a change starts a countdown.
pub open spec fn starts_countdown(event: StatusModel) -> bool {
    event is Waiting || event is ToolsWaiting
}

/// Whether a frame carries an event of the session log.
pub fn is_durable(frame: &SseFrame) -> (r: bool)
    ensures
        r == (frame@.event == "event"@),
{
    same(&frame.event, "event")
}

/// Takes one frame. `envelope` is the event in its body, if it holds one; `cursor` is the identity
/// of the last event taken.
pub fn project_frame(
    projection: &mut ProjectionState,
    cursor: &mut Option<String>,
    frame: &SseFrame,
    envelope: Option<AgentEnvelope>,
    now_ms: i64,
) -> (r: FrameStep)
    ensures
        frame@.event != "event"@ ==> r is Ignored,
        frame@.event == "event"@ && envelope is None ==> r is InvalidEnvelope,
        frame@.event == "event"@ && envelope is Some && frame@.id != Some(envelope->0.event_id@)
            ==> r is IdMismatch,
        r is Ignored || r is InvalidEnvelope || r is IdMismatch ==> final(projection)@ == old(
            projection,
        )@ && optional_text(*final(cursor)) == optional_text(*old(cursor)),
        frame@.event == "event"@ && envelope is Some && frame@.id == Some(envelope->0.event_id@)
            ==> {
            &&& optional_text(*final(cursor)) == frame@.id
            &&& match status_of(envelope->0.event) {
                None => r is Unchanged && final(projection)@ == old(projection)@,
                Some(change) => {
                    &&& r matches FrameStep::Changed { event, status, starts_wait }
                    &&& event@ == change
                    &&& status@ == shown(old(projection)@, change, now_ms)
                    &&& starts_wait == starts_countdown(change)
                    &&& final(projection)@ == projected(old(projection)@, change)
                },
            }
        },
{
    if !is_durable(frame) {
        return FrameStep::Ignored;
    }
    let envelope = match envelope {
        Some(envelope) => envelope,
        None => {
            return FrameStep::InvalidEnvelope;
        },
    };
    let same_id = match &frame.id {
        Some(id) => same(id, &envelope.event_id),
        None => false,
    };
    if !same_id {
        return FrameStep::IdMismatch;
    }
    *cursor = Some(envelope.event_id);
    let change = match envelope.event.status_event() {
        Some(change) => change,
        None => {
            return FrameStep::Unchanged;
        },
    };
    let starts_wait = match &change {
        AgentStatusEvent::Waiting { .. } => true,
        AgentStatusEvent::ToolsWaiting { .. } => true,
        _ => false,
    };
    let event = change.duplicate();
    let status = projection.apply(change, now_ms);
    FrameStep::Changed { event, status, starts_wait }
}

fn copy_calls(calls: &Vec<AgentToolCall>) -> (r: Vec<AgentToolCall>)
    ensures
        call_models(r@) == call_models(calls@),
{
    let mut out: Vec<AgentToolCall> = Vec::new();
    let mut i: usize = 0;
    while i < calls.len()
        invariant
            i <= calls.len(),
            out@.len() == i,
            forall|j: int| 0 <= j < i ==> (#[trigger] out@[j])@ == calls@[j]@,
        decreases calls.len() - i,
    {
        out.push(calls[i].clone());
        i = i + 1;
    }
    proof {
        assert(call_models(out@) =~= call_models(calls@));
    }
    out
}

impl AgentStatusEvent {
    /// The same change once more.
    pub fn duplicate(&self) -> (r: AgentStatusEvent)
        ensures
            r@ == self@,
    {
        match self {
            AgentStatusEvent::Clear => AgentStatusEvent::Clear,
            AgentStatusEvent::Thinking => AgentStatusEvent::Thinking,
            AgentStatusEvent::ToolsStarted { calls } => AgentStatusEvent::ToolsStarted {
                calls: copy_calls(calls),
            },
            AgentStatusEvent::ToolFinished { tool_call_id } => AgentStatusEvent::ToolFinished {
                tool_call_id: tool_call_id.clone(),
            },
            AgentStatusEvent::ToolsWaiting { calls, deadline_ms } => AgentStatusEvent::ToolsWaiting {
                calls: copy_calls(calls),
                deadline_ms: *deadline_ms,
            },
            AgentStatusEvent::Waiting { reason, deadline_ms } => AgentStatusEvent::Waiting {
                reason: reason.clone(),
                deadline_ms: *deadline_ms,
            },
            AgentStatusEvent::Failed { reason } => AgentStatusEvent::Failed {
                reason: reason.clone(),
            },
            AgentStatusEvent::Finished => AgentStatusEvent::Finished,
            AgentStatusEvent::Interrupted => AgentStatusEvent::Interrupted,
        }
    }
}

/// What the answer to a request for the session stream leads to.
#[derive(Debug)]
pub enum StreamOpening {
    /// The stream is open.
    Open,
    /// The session does not exist; it is not followed any more.
    Gone,
    /// The request failed; it is made again.
    Failed(String),
}

/// Judges the answer with HTTP status `status`, written out as `status_line`. `error` is the error
/// that its body holds, if the answer is none and its body could be read.
pub fn stream_opening(status: u16, status_line: &str, error: Option<&ApiErrorDetail>) -> (r:
    StreamOpening)
    ensures
        200 <= status < 300 <==> r is Open,
        r is Gone <==> status == 404 && error is Some && error->0.code
            == ApiErrorCode::SessionNotFound,
        r matches StreamOpening::Failed(message) ==> message@ == match error {
            Some(error) => "Agent event stream returned "@ + status_line@ + ": "@
                + error.message@,
            None => "invalid Agent event stream error response for HTTP "@ + status_line@,
        },
{
    if 200 <= status && status < 300 {
        return StreamOpening::Open;
    }
    match error {
        Some(error) => {
            if status == 404 && error.code == ApiErrorCode::SessionNotFound {
                return StreamOpening::Gone;
            }
            let mut message = join3("Agent event stream returned ", status_line, ": ");
            message.append(&error.message);
            StreamOpening::Failed(message)
        },
        None => StreamOpening::Failed(
            join2("invalid Agent event stream error response for HTTP ", status_line),
        ),
    }
}

/// Where the status of a session is shown, and which agent session it is that of.
#[derive(Debug)]
pub struct Subscription {
    pub agent_session_id: String,
    pub connection_id: String,
    pub channel_id: String,
    pub root_message_id: String,
}

/// What a subscription names.
pub struct SubscriptionModel {
    pub agent_session_id: Seq<char>,
    pub connection_id: Seq<char>,
    pub channel_id: Seq<char>,
    pub root_message_id: Seq<char>,
}

impl View for Subscription {
    type V = SubscriptionModel;

    open spec fn view(&self) -> SubscriptionModel {
        SubscriptionModel {
            agent_session_id: self.agent_session_id@,
            connection_id: self.connection_id@,
            channel_id: self.channel_id@,
            root_message_id: self.root_message_id@,
        }
    }
}

impl Subscription {
    pub fn matches(&self, other: &Subscription) -> (r: bool)
        ensures
            r == (self@ == other@),
    {
        same(&self.agent_session_id, &other.agent_session_id) && same(
            &self.connection_id,
            &other.connection_id,
        ) && same(&self.channel_id, &other.channel_id) && same(
            &self.root_message_id,
            &other.root_message_id,
        )
    }
}

/// What is to be done with the task that follows a session.
#[derive(Clone, Copy, Debug, PartialEq, Eq, Structural)]
pub enum FollowStep {
    /// A running task follows the session already.
    Keep,
    /// Nothing follows the session: start a task.
    Start,
    /// Stop the task of the subscription that is replaced, and start another.
    Restart,
}

/// The sessions that are followed, by their keys.
#[derive(Debug)]
pub struct Subscriptions {
    pub entries: TextMap<Subscription>,
}

impl Subscriptions {
    pub open spec fn well_formed(&self) -> bool {
        self.entries.well_formed()
    }

    pub fn new() -> (r: Subscriptions)
        ensures
            r.well_formed(),
            r.entries@ == Map::<Seq<char>, Subscription>::empty(),
    {
        Subscriptions { entries: TextMap::new() }
    }

    /// Makes `wanted` the subscription of a session; `running` says whether the task of the present
    /// one, if there is one, still runs.
    pub fn ensure(&mut self, session_key: &str, wanted: Subscription, running: bool) -> (r:
        FollowStep)
        requires
            old(self).well_formed(),
        ensures
            final(self).well_formed(),
            r == (if !old(self).entries@.contains_key(session_key@) {
                FollowStep::Start
            } else if running && old(self).entries@[session_key@]@ == wanted@ {
                FollowStep::Keep
            } else {
                FollowStep::Restart
            }),
            r == FollowStep::Keep ==> final(self).entries@ == old(self).entries@,
            r != FollowStep::Keep ==> final(self).entries@ == old(self).entries@.insert(
                session_key@,
                wanted,
            ),
    {
        let present = match self.entries.get(session_key) {
            Some(present) => {
                if running && present.matches(&wanted) {
                    return FollowStep::Keep;
                }
                true
            },
            None => false,
        };
        let _ = self.entries.insert(session_key, wanted);
        if present {
            FollowStep::Restart
        } else {
            FollowStep::Start
        }
    }

    /// Stops following a session. The task of the returned subscription is to be stopped and the
    /// status that it shows cleared.
    pub fn remove(&mut self, session_key: &str) -> (r: Option<Subscription>)
        requires
            old(self).well_formed(),
        ensures
            final(self).well_formed(),
            final(self).entries@ == old(self).entries@.remove(session_key@),
            match r {
                Some(gone) => old(self).entries@.contains_key(session_key@) && gone == old(
                    self,
                ).entries@[session_key@],
                None => !old(self).entries@.contains_key(session_key@),
            },
    {
        self.entries.remove(session_key)
    }
}

/// A countdown never grows while time passes, and is over exactly when the deadline has passed.
pub proof fn countdown_runs_down(deadline_ms: i64, now_ms: i64, later_ms: i64)
    requires
        now_ms <= later_ms,
    ensures
        seconds_left(deadline_ms, later_ms) <= seconds_left(deadline_ms, now_ms),
        seconds_left(deadline_ms, now_ms) == 0 <==> deadline_ms <= now_ms,
{
}

/// Events that change nothing in the chat leave a countdown running: the end of an automatic wait
/// for tools among them.
pub proof fn automatic_wait_end_keeps_countdown()
    ensures
        status_of(AgentEvent::AutoWaitEnded) is None,
{
}

/// What a finished, interrupted or cleared session shows is nothing, whatever it showed before.
pub proof fn real_clear_events_clear(m: ProjectionModel, event: StatusModel, now_ms: i64)
    requires
        event is Clear || event is Finished || event is Interrupted,
    ensures
        shown(m, event, now_ms).len() == 0,
        projected(m, event) == idle(),
{
}

/// A result ends its call and no other: the chat shows the last call that is left, or that the
/// agent thinks once there is none.
pub proof fn results_end_their_calls(m: ProjectionModel, tool_call_id: Seq<char>, now_ms: i64)
    ensures
        ({
            let event = StatusModel::ToolFinished { tool_call_id };
            let left = projected(m, event).active_tools;
            &&& forall|call: CallModel| #[trigger]
                left.contains(call) <==> m.active_tools.contains(call) && call.tool_call_id
                    != tool_call_id
            &&& shown(m, event, now_ms) == if left.len() == 0 {
                "Thinking..."@
            } else {
                tool_line(left.last().tool_name)
            }
        }),
{
    lemma_other_calls(m.active_tools, tool_call_id);
}

proof fn lemma_other_calls(calls: Seq<CallModel>, tool_call_id: Seq<char>)
    ensures
        forall|call: CallModel| #[trigger]
            other_calls(calls, tool_call_id).contains(call) <==> calls.contains(call)
                && call.tool_call_id != tool_call_id,
    decreases calls.len(),
{
    if calls.len() > 0 {
        let rest = calls.drop_last();
        lemma_other_calls(rest, tool_call_id);
        let kept = other_calls(rest, tool_call_id);
        assert forall|call: CallModel| #[trigger]
            other_calls(calls, tool_call_id).contains(call) <==> calls.contains(call)
                && call.tool_call_id != tool_call_id by {
            assert(calls =~= rest.push(calls.last()));
            if rest.contains(call) {
                let i = choose|i: int| 0 <= i < rest.len() && rest[i] == call;
                assert(calls[i] == call);
            }
            if calls.contains(call) && call != calls.last() {
                let i = choose|i: int| 0 <= i < calls.len() && calls[i] == call;
                assert(rest[i] == call);
            }
            if calls.last().tool_call_id != tool_call_id {
                let more = kept.push(calls.last());
                if kept.contains(call) {
                    let i = choose|i: int| 0 <= i < kept.len() && kept[i] == call;
                    assert(more[i] == call);
                }
                if call == calls.last() {
                    assert(more[more.len() - 1] == call);
                    assert(calls[calls.len() - 1] == call);
                }
                if more.contains(call) && call != calls.last() {
                    let i = choose|i: int| 0 <= i < more.len() && more[i] == call;
                    assert(kept[i] == call);
                }
            }
        }
    }
}

proof fn lemma_calls_round_trip(calls: Seq<CallModel>)
    ensures
        calls_in(calls_json(calls)->Array_0) == Some(calls),
    decreases calls.len(),
{
    let items = calls_json(calls)->Array_0;
    if calls.len() > 0 {
        let rest = calls.drop_last();
        lemma_calls_round_trip(rest);
        assert(items.drop_last() =~= calls_json(rest)->Array_0);
        let call = calls.last();
        let fields = call_json(call)->Object_0;
        reveal_strlit("tool_call_id");
        reveal_strlit("tool_name");
        assert("tool_call_id"@.len() != "tool_name"@.len());
        reveal_with_fuel(crate::json::member, 3);
        assert(fields.drop_first()[0] == fields[1]);
        assert(call_in(items.last()) == Some(call));
        assert(rest.push(call) =~= calls);
    } else {
        assert(items =~= Seq::<JsonModel>::empty());
        assert(calls =~= Seq::<CallModel>::empty());
    }
}

/// Reading the JSON of a change gives back the change.
pub proof fn status_round_trips(event: StatusModel)
    ensures
        status_in(status_json(event)) == Some(event),
{
    reveal_strlit("state");
    reveal_strlit("calls");
    reveal_strlit("tool_call_id");
    reveal_strlit("reason");
    reveal_strlit("deadline_ms");
    reveal_strlit("clear");
    reveal_strlit("thinking");
    reveal_strlit("tools_started");
    reveal_strlit("tool_finished");
    reveal_strlit("tools_waiting");
    reveal_strlit("waiting");
    reveal_strlit("failed");
    reveal_strlit("finished");
    reveal_strlit("interrupted");
    reveal_with_fuel(crate::json::member, 4);
    assert("state"@[0] != "calls"@[0]);
    assert("failed"@[1] != "clear"@[1]);
    assert("tools_started"@[6] != "tool_finished"@[6] && "tools_started"@[6]
        != "tools_waiting"@[6]);
    assert("tool_finished"@[4] != "tools_waiting"@[4]);
    assert("clear"@[0] == 'c' && "thinking"@[0] == 't' && "tools_started"@[0] == 't'
        && "tool_finished"@[0] == 't' && "tools_waiting"@[0] == 't' && "waiting"@[0] == 'w'
        && "failed"@[0] == 'f' && "finished"@[0] == 'f' && "interrupted"@[0] == 'i');
    let fields = status_json(event)->Object_0;
    assert(fields[0].0 == "state"@);
    assert(fields.len() > 1 ==> fields.drop_first()[0] == fields[1]);
    assert(fields.len() > 2 ==> fields.drop_first().drop_first()[0] == fields[2]);
    let value = status_json(event);
    match event {
        StatusModel::ToolsStarted { calls } => {
            lemma_calls_round_trip(calls);
            assert(calls_at(value, 2) == Some(calls));
        },
        StatusModel::ToolsWaiting { calls, deadline_ms } => {
            lemma_calls_round_trip(calls);
            assert(calls_at(value, 3) == Some(calls));
            assert(value.get("deadline_ms"@) == Some(signed_model(deadline_ms)));
            assert(deadline_at(value) == Some(deadline_ms));
        },
        StatusModel::Waiting { reason, deadline_ms } => {
            assert(value.text_at("reason"@) == Some(reason));
            assert(fields[1].0 == "reason"@ && fields[2].0 == "deadline_ms"@);
            assert("reason"@ != "deadline_ms"@ && "state"@ != "deadline_ms"@);
            assert(value.get("deadline_ms"@) == Some(signed_model(deadline_ms)));
            assert(deadline_at(value) == Some(deadline_ms));
        },
        StatusModel::ToolFinished { tool_call_id } => {
            assert(value.text_at("tool_call_id"@) == Some(tool_call_id));
        },
        StatusModel::Failed { reason } => {
            assert(value.text_at("reason"@) == Some(reason));
        },
        _ => {},
    }
}

/// A completed step of the conversation that invoked tools.
pub open spec fn invokes(event: AgentEvent) -> bool {
    event matches AgentEvent::StepCompleted { purpose, invocations, .. } && invocations@.len() > 0
        && (purpose is None || purpose->0@ == "conversation"@)
}

/// After a step of the conversation that invoked tools, with or without a deadline, the active calls
/// are exactly its invocations, in order, whatever was active before. Without a deadline nothing is
/// waited for and the line is that of the tool that was invoked last; with one a countdown to it
/// runs, which names the tool, or how many there are.
pub proof fn steps_show_their_tools(m: ProjectionModel, event: AgentEvent, now_ms: i64)
    requires
        invokes(event),
    ensures
        status_of(event) is Some,
        ({
            let invocations = event->invocations@;
            let after = projected(m, status_of(event)->0);
            let line = shown(m, status_of(event)->0, now_ms);
            &&& after.active_tools.len() == invocations.len()
            &&& forall|i: int|
                0 <= i < invocations.len() ==> (#[trigger] after.active_tools[i]).tool_call_id
                    == invocations[i].invocation_id@ && after.active_tools[i].tool_name
                    == invocations[i].tool@
            &&& match event->auto_wait_deadline_ms {
                None => {
                    &&& after.waiting is None
                    &&& line == tool_line(invocations.last().tool@)
                    &&& !starts_countdown(status_of(event)->0)
                },
                Some(deadline_ms) => {
                    let reason = if invocations.len() == 1 {
                        invocations[0].tool@ + " to finish"@
                    } else {
                        decimal(invocations.len()) + " background tools to finish"@
                    };
                    &&& after.waiting == Some((reason, deadline_ms))
                    &&& line == countdown(reason, deadline_ms, now_ms)
                    &&& starts_countdown(status_of(event)->0)
                },
            }
        }),
{
}

/// A step that invoked nothing, or that served something other than the conversation, shows that the
/// agent thinks, and so do the start of a turn or a step, a new context and a deadline that has come:
/// no call is active then and nothing is waited for.
pub proof fn other_steps_show_thinking(m: ProjectionModel, event: AgentEvent, now_ms: i64)
    requires
        event is TurnStarted || event is StepStarted || event is ContextApplied
            || event is DeadlineReached || (event is StepCompleted && !invokes(event)),
    ensures
        status_of(event) is Some,
        shown(m, status_of(event)->0, now_ms) == "Thinking..."@,
        projected(m, status_of(event)->0).active_tools.len() == 0,
        projected(m, status_of(event)->0).waiting is None,
        !starts_countdown(status_of(event)->0),
{
}

/// What went wrong is shown as it was told, by a step, by the runtime or by a turn; after it no call
/// is active and nothing is waited for.
pub proof fn failures_are_shown(m: ProjectionModel, event: AgentEvent, now_ms: i64)
    ensures
        event matches AgentEvent::StepFailed { error } ==> status_of(event) is Some && shown(
            m,
            status_of(event)->0,
            now_ms,
        ) == "Failed: "@ + error.message@,
        event matches AgentEvent::RuntimeFault { failure } ==> status_of(event) is Some && shown(
            m,
            status_of(event)->0,
            now_ms,
        ) == "Failed: "@ + failure.message@,
        event matches AgentEvent::TurnFinished { outcome } ==> status_of(event) is Some && shown(
            m,
            status_of(event)->0,
            now_ms,
        ) == (if outcome is Failed {
            "Failed: turn failed"@
        } else {
            Seq::empty()
        }),
        event is StepInterrupted || event is TurnCancelRequested || event is SessionCreated
            ==> status_of(event) is Some && shown(m, status_of(event)->0, now_ms).len() == 0,
        event is StepFailed || event is RuntimeFault || event is TurnFinished
            || event is StepInterrupted || event is TurnCancelRequested || event is SessionCreated
            ==> projected(m, status_of(event)->0).active_tools.len() == 0 && projected(
            m,
            status_of(event)->0,
        ).waiting is None,
{
    reveal_strlit("Failed: turn failed");
    reveal_strlit("Failed: ");
    reveal_strlit("turn failed");
    assert("Failed: "@ + "turn failed"@ =~= "Failed: turn failed"@);
}

/// A `wait` that succeeded shows a countdown to the time that it gives, for the reason that it gives
/// if any; without a time it changes nothing. Any other result ends its own call and no other.
pub proof fn results_change_what_is_shown(
    m: ProjectionModel,
    result: AgentToolResult,
    now_ms: i64,
)
    ensures
        ({
            let event = AgentEvent::ToolResult { result };
            let waits = result.tool@ == "wait"@ && result.outcome@ == "succeeded"@;
            &&& waits ==> match result.data@.get("until_ms"@) {
                Some(until) => match until.as_signed() {
                    Some(deadline_ms) => {
                        let reason = match result.data@.get("reason"@) {
                            Some(JsonModel::Text(reason)) => reason,
                            _ => "the requested time"@,
                        };
                        &&& status_of(event) is Some
                        &&& starts_countdown(status_of(event)->0)
                        &&& projected(m, status_of(event)->0).waiting == Some((reason, deadline_ms))
                        &&& projected(m, status_of(event)->0).active_tools.len() == 0
                        &&& shown(m, status_of(event)->0, now_ms) == countdown(
                            reason,
                            deadline_ms,
                            now_ms,
                        )
                    },
                    None => status_of(event) is None,
                },
                None => status_of(event) is None,
            }
            &&& !waits ==> {
                &&& status_of(event) is Some
                &&& projected(m, status_of(event)->0).waiting is None
                &&& projected(m, status_of(event)->0).active_tools == m.active_tools.filter(
                    |call: CallModel| call.tool_call_id != result.invocation_id@,
                )
            }
        }),
{
    lemma_calls_left(m.active_tools, result.invocation_id@);
}

proof fn lemma_calls_left(calls: Seq<CallModel>, tool_call_id: Seq<char>)
    ensures
        other_calls(calls, tool_call_id) == calls.filter(
            |call: CallModel| call.tool_call_id != tool_call_id,
        ),
    decreases calls.len(),
{
    reveal(Seq::filter);
    if calls.len() > 0 {
        lemma_calls_left(calls.drop_last(), tool_call_id);
    }
}

/// Inputs, selections, settings, snapshots, cancelled tools, a context that failed and the end of an
/// automatic wait leave what is shown as it is; nothing else does but a `wait` without a time.
pub proof fn silent_events_change_nothing(event: AgentEvent)
    requires
        !(event is ToolResult),
    ensures
        status_of(event) is None <==> event is InputAppended || event is SelectionChanged
            || event is ContextConfigured || event is Snapshot || event is ToolCancelRequested
            || event is ContextFailed || event is AutoWaitEnded,
{
}

/// A tool name counts by its ASCII letters and digits, whatever their case: other characters in it
/// make no difference.
pub proof fn tool_names_count_by_their_letters(name: Seq<char>)
    ensures
        plain_name(name) == name.filter(|c: char| is_alnum(c)).map_values(|c: char| lower(c)),
    decreases name.len(),
{
    reveal(Seq::filter);
    let kept = |c: char| is_alnum(c);
    let small = |c: char| lower(c);
    if name.len() > 0 {
        let rest = name.drop_last();
        tool_names_count_by_their_letters(rest);
        if is_alnum(name.last()) {
            assert(rest.filter(kept).push(name.last()).map_values(small) =~= rest.filter(
                kept,
            ).map_values(small).push(lower(name.last())));
        }
    } else {
        assert(name.filter(kept).map_values(small) =~= Seq::<char>::empty());
    }
}

/// What is shown while a tool runs tells what it does: read or list files, check them, change them,
/// run something, use the web, read the history, sum up, wait or finish. Other tools just work.
pub proof fn lines_tell_what_tools_do(name: Seq<char>)
    ensures
        ({
            let plain = plain_name(name);
            let line = tool_line(name);
            &&& plain == "read"@ || plain == "list"@ || plain == "ls"@ || plain == "glob"@ || plain
                == "grep"@ ==> line == "Reading files..."@
            &&& plain == "stat"@ ==> line == "Checking files..."@
            &&& plain == "write"@ || plain == "edit"@ || plain == "applypatch"@ || plain == "copy"@
                || plain == "delete"@ ==> line == "Updating files..."@
            &&& plain == "exec"@ ==> line == "Running in environment..."@
            &&& plain == "bash"@ || plain == "execcommand"@ ==> line == "Running in workspace..."@
            &&& plain == "python"@ ==> line == "Running Python..."@
            &&& plain == "webbrowse"@ ==> line == "Browsing the web..."@
            &&& plain == "searchquery"@ || plain == "imagequery"@ ==> line
                == "Searching the web..."@
            &&& plain == "readcontexthandoff"@ || plain == "readsessionhistory"@ ==> line
                == "Reading session history..."@
            &&& plain == "contexthandoff"@ ==> line == "Summarizing context..."@
            &&& plain == "waitfor"@ ==> line == "Preparing to wait..."@
            &&& plain == "end"@ ==> line == "Finishing..."@
        }),
{
    reveal_strlit("read");
    reveal_strlit("list");
    reveal_strlit("ls");
    reveal_strlit("glob");
    reveal_strlit("grep");
    reveal_strlit("stat");
    reveal_strlit("write");
    reveal_strlit("edit");
    reveal_strlit("applypatch");
    reveal_strlit("copy");
    reveal_strlit("delete");
    reveal_strlit("exec");
    reveal_strlit("bash");
    reveal_strlit("execcommand");
    reveal_strlit("python");
    reveal_strlit("webbrowse");
    reveal_strlit("searchquery");
    reveal_strlit("imagequery");
    reveal_strlit("readcontexthandoff");
    reveal_strlit("readsessionhistory");
    reveal_strlit("contexthandoff");
    reveal_strlit("waitfor");
    reveal_strlit("end");
    let plain = plain_name(name);
    assert("read"@[0] == 'r' && "list"@[0] == 'l' && "ls"@[0] == 'l' && "glob"@[0] == 'g'
        && "grep"@[0] == 'g' && "stat"@[0] == 's' && "write"@[0] == 'w' && "edit"@[0] == 'e'
        && "applypatch"@[0] == 'a' && "copy"@[0] == 'c' && "delete"@[0] == 'd' && "exec"@[0] == 'e'
        && "bash"@[0] == 'b' && "execcommand"@[0] == 'e' && "python"@[0] == 'p' && "webbrowse"@[0]
        == 'w' && "searchquery"@[0] == 's' && "imagequery"@[0] == 'i' && "readcontexthandoff"@[0]
        == 'r' && "contexthandoff"@[0] == 'c' && "waitfor"@[0] == 'w' && "end"@[0] == 'e');
    assert("exec"@[1] != "edit"@[1]);
    assert("bash"@.len() == 4 && "execcommand"@.len() == 11 && "python"@.len() == 6
        && "webbrowse"@.len() == 9 && "searchquery"@.len() == 11 && "imagequery"@.len() == 10
        && "readcontexthandoff"@.len() == 18 && "readsessionhistory"@.len() == 18
        && "contexthandoff"@.len() == 14 && "waitfor"@.len() == 7 && "end"@.len() == 3);
    assert("read"@.len() == 4 && "list"@.len() == 4 && "ls"@.len() == 2 && "glob"@.len() == 4
        && "grep"@.len() == 4 && "stat"@.len() == 4 && "write"@.len() == 5 && "edit"@.len() == 4
        && "applypatch"@.len() == 10 && "copy"@.len() == 4 && "delete"@.len() == 6 && "exec"@.len()
        == 4);
}

/// The line of a countdown gives the reason and the time that is left in minutes and seconds of at
/// least two digits each.
pub proof fn countdowns_show_minutes_and_seconds(
    reason: Seq<char>,
    deadline_ms: i64,
    now_ms: i64,
)
    ensures
        exists|minutes: Seq<char>, seconds: Seq<char>|
            {
                &&& countdown(reason, deadline_ms, now_ms) == "Waiting: "@ + reason + " · "@
                    + minutes + ":"@ + seconds
                &&& minutes.len() >= 2 && seconds.len() == 2
                &&& #[trigger] number_of(minutes) * 60 + #[trigger] number_of(seconds)
                    == seconds_left(deadline_ms, now_ms)
                &&& number_of(seconds) < 60
            },
        deadline_ms - now_ms <= i64::MAX - 999 ==> seconds_left(deadline_ms, now_ms) * 1000
            >= deadline_ms - now_ms,
        deadline_ms > now_ms && deadline_ms - now_ms <= i64::MAX - 999 ==> (seconds_left(
            deadline_ms,
            now_ms,
        ) - 1) * 1000 < deadline_ms - now_ms,
{
    let left = seconds_left(deadline_ms, now_ms);
    let minutes = two_digits(left / 60);
    let seconds = two_digits(left % 60);
    lemma_two_digits(left / 60);
    lemma_two_digits(left % 60);
    assert(number_of(minutes) * 60 + number_of(seconds) == left);
}

proof fn lemma_two_digits(n: nat)
    ensures
        two_digits(n).len() >= 2,
        n < 100 ==> two_digits(n).len() == 2,
        number_of(two_digits(n)) == n,
{
    reveal_with_fuel(decimal, 3);
    decimals_read_back(n);
    if n < 10 {
        assert(two_digits(n).drop_last() =~= seq!['0']);
        assert(seq!['0'].drop_last() =~= Seq::<char>::empty());
        reveal_with_fuel(number_of, 3);
        assert(decimal(n).drop_last() =~= Seq::<char>::empty());
    }
}

/// In JSON a change is named by its `state`, and holds its parts under their names.
pub proof fn changes_are_named(event: StatusModel)
    ensures
        ({
            let value = status_json(event);
            &&& value.get("state"@) == Some(
                JsonModel::Text(
                    match event {
                        StatusModel::Clear => "clear"@,
                        StatusModel::Thinking => "thinking"@,
                        StatusModel::ToolsStarted { .. } => "tools_started"@,
                        StatusModel::ToolFinished { .. } => "tool_finished"@,
                        StatusModel::ToolsWaiting { .. } => "tools_waiting"@,
                        StatusModel::Waiting { .. } => "waiting"@,
                        StatusModel::Failed { .. } => "failed"@,
                        StatusModel::Finished => "finished"@,
                        StatusModel::Interrupted => "interrupted"@,
                    },
                ),
            )
            &&& event matches StatusModel::ToolFinished { tool_call_id } ==> value.get(
                "tool_call_id"@,
            ) == Some(JsonModel::Text(tool_call_id))
            &&& event matches StatusModel::Failed { reason } ==> value.get("reason"@) == Some(
                JsonModel::Text(reason),
            )
            &&& event matches StatusModel::Waiting { reason, deadline_ms } ==> value.get(
                "reason"@,
            ) == Some(JsonModel::Text(reason)) && value.get("deadline_ms"@) == Some(
                signed_model(deadline_ms),
            )
            &&& event matches StatusModel::ToolsWaiting { calls, deadline_ms } ==> value.get(
                "deadline_ms"@,
            ) == Some(signed_model(deadline_ms)) && lists_calls(value, calls)
            &&& event matches StatusModel::ToolsStarted { calls } ==> lists_calls(value, calls)
        }),
{
    reveal_strlit("state");
    reveal_strlit("calls");
    reveal_strlit("tool_call_id");
    reveal_strlit("tool_name");
    reveal_strlit("reason");
    reveal_strlit("deadline_ms");
    assert("state"@[0] != "calls"@[0]);
    let fields = status_json(event)->Object_0;
    assert(fields[0].0 == "state"@);
    assert(event is ToolsStarted || event is ToolsWaiting ==> fields[1].0 == "calls"@);
    assert(event is Waiting || event is Failed ==> fields[1].0 == "reason"@);
    assert(event is ToolFinished ==> fields[1].0 == "tool_call_id"@);
    assert(event is Waiting || event is ToolsWaiting ==> fields[2].0 == "deadline_ms"@);
    named_members_are_found(fields);
    assert forall|call: CallModel| (#[trigger] call_json(call)).get("tool_call_id"@) == Some(
        JsonModel::Text(call.tool_call_id),
    ) && call_json(call).get("tool_name"@) == Some(JsonModel::Text(call.tool_name)) by {
        let parts = call_json(call)->Object_0;
        assert(parts[0].0 == "tool_call_id"@ && parts[1].0 == "tool_name"@);
        named_members_are_found(parts);
    }
}

/// Whether the `calls` of a JSON value are these, in order.
pub open spec fn lists_calls(value: JsonModel, calls: Seq<CallModel>) -> bool {
    value.get("calls"@) matches Some(JsonModel::Array(items)) && items.len() == calls.len()
        && forall|i: int|
        0 <= i < calls.len() ==> (#[trigger] items[i]).get("tool_call_id"@) == Some(
            JsonModel::Text(calls[i].tool_call_id),
        ) && items[i].get("tool_name"@) == Some(JsonModel::Text(calls[i].tool_name))
}

/// A change is read from a list too: its name, then its parts in their order. A list with more or
/// fewer parts is no change.
pub proof fn changes_are_read_from_lists(
    calls: Seq<CallModel>,
    id: Seq<char>,
    reason: Seq<char>,
    deadline_ms: i64,
    extra: JsonModel,
)
    ensures
        ({
            let list = calls_json(calls);
            let end = signed_model(deadline_ms);
            &&& status_in(JsonModel::Array(seq![JsonModel::Text("clear"@)])) == Some(
                StatusModel::Clear,
            )
            &&& status_in(JsonModel::Array(seq![JsonModel::Text("thinking"@)])) == Some(
                StatusModel::Thinking,
            )
            &&& status_in(JsonModel::Array(seq![JsonModel::Text("finished"@)])) == Some(
                StatusModel::Finished,
            )
            &&& status_in(JsonModel::Array(seq![JsonModel::Text("interrupted"@)])) == Some(
                StatusModel::Interrupted,
            )
            &&& status_in(JsonModel::Array(seq![JsonModel::Text("tools_started"@), list])) == Some(
                StatusModel::ToolsStarted { calls },
            )
            &&& status_in(
                JsonModel::Array(seq![JsonModel::Text("tool_finished"@), JsonModel::Text(id)]),
            ) == Some(StatusModel::ToolFinished { tool_call_id: id })
            &&& status_in(JsonModel::Array(seq![JsonModel::Text("tools_waiting"@), list, end]))
                == Some(StatusModel::ToolsWaiting { calls, deadline_ms })
            &&& status_in(
                JsonModel::Array(seq![JsonModel::Text("waiting"@), JsonModel::Text(reason), end]),
            ) == Some(StatusModel::Waiting { reason, deadline_ms })
            &&& status_in(
                JsonModel::Array(seq![JsonModel::Text("failed"@), JsonModel::Text(reason)]),
            ) == Some(StatusModel::Failed { reason })
            &&& status_in(JsonModel::Array(seq![JsonModel::Text("clear"@), extra])) is None
            &&& status_in(JsonModel::Array(seq![JsonModel::Text("failed"@)])) is None
            &&& status_in(JsonModel::Array(Seq::empty())) is None
        }),
{
    reveal_strlit("clear");
    reveal_strlit("thinking");
    reveal_strlit("tools_started");
    reveal_strlit("tool_finished");
    reveal_strlit("tools_waiting");
    reveal_strlit("waiting");
    reveal_strlit("failed");
    reveal_strlit("finished");
    reveal_strlit("interrupted");
    assert("clear"@.len() == 5 && "thinking"@.len() == 8 && "tools_started"@.len() == 13
        && "tool_finished"@.len() == 13 && "tools_waiting"@.len() == 13 && "waiting"@.len() == 7
        && "failed"@.len() == 6 && "finished"@.len() == 8 && "interrupted"@.len() == 11);
    assert("tools_started"@[6] == 's' && "tool_finished"@[6] == 'i' && "tools_waiting"@[6] == 'w');
    assert("thinking"@[0] == 't' && "finished"@[0] == 'f');
    lemma_calls_round_trip(calls);
    assert(seq![JsonModel::Text("tools_started"@), calls_json(calls)][1] == calls_json(calls));
    assert(seq![JsonModel::Text("tools_waiting"@), calls_json(calls), signed_model(deadline_ms)][1]
        == calls_json(calls));
}

/// A change that is not known by its name, or that lacks one of its parts, is none.
pub proof fn unknown_changes_are_refused(value: JsonModel, state: Seq<char>)
    requires
        value is Object,
    ensures
        value.get("state"@) is None ==> status_in(value) is None,
        value.get("state"@) == Some(JsonModel::Text(state)) && state != "clear"@ && state
            != "thinking"@ && state != "tools_started"@ && state != "tool_finished"@ && state
            != "tools_waiting"@ && state != "waiting"@ && state != "failed"@ && state
            != "finished"@ && state != "interrupted"@ ==> status_in(value) is None,
        value.get("state"@) == Some(JsonModel::Text("failed"@)) && value.get("reason"@) is None
            ==> status_in(value) is None,
{
    reveal_strlit("clear");
    reveal_strlit("thinking");
    reveal_strlit("tools_started");
    reveal_strlit("tool_finished");
    reveal_strlit("tools_waiting");
    reveal_strlit("waiting");
    reveal_strlit("failed");
    assert("clear"@.len() == 5 && "thinking"@.len() == 8 && "tools_started"@.len() == 13
        && "tool_finished"@.len() == 13 && "tools_waiting"@.len() == 13 && "waiting"@.len() == 7
        && "failed"@.len() == 6);
}

/// A tool that none of the lines tells of just works.
pub proof fn other_tools_just_work(name: Seq<char>)
    ensures
        tool_line(name) == "Working..."@ || {
            let plain = plain_name(name);
            ||| plain == "read"@ || plain == "list"@ || plain == "ls"@ || plain == "glob"@
            ||| plain == "grep"@ || plain == "stat"@ || plain == "write"@ || plain == "edit"@
            ||| plain == "applypatch"@ || plain == "copy"@ || plain == "delete"@ || plain == "exec"@
            ||| plain == "bash"@ || plain == "execcommand"@ || plain == "python"@
            ||| plain == "webbrowse"@ || plain == "searchquery"@ || plain == "imagequery"@
            ||| plain == "readcontexthandoff"@ || plain == "readsessionhistory"@
            ||| plain == "contexthandoff"@ || plain == "waitfor"@ || plain == "end"@
        },
{
}

/// A wait for tools makes its calls the active ones and counts down to its deadline, for the tool if
/// it is one, for their number if they are more, and for tools as such if none is named.
pub proof fn waits_for_tools_name_them(
    m: ProjectionModel,
    calls: Seq<CallModel>,
    deadline_ms: i64,
    now_ms: i64,
)
    ensures
        ({
            let event = StatusModel::ToolsWaiting { calls, deadline_ms };
            let after = projected(m, event);
            let reason = if calls.len() == 0 {
                "background tools to finish"@
            } else if calls.len() == 1 {
                calls[0].tool_name + " to finish"@
            } else {
                decimal(calls.len()) + " background tools to finish"@
            };
            &&& after.active_tools == calls
            &&& after.waiting == Some((reason, deadline_ms))
            &&& shown(m, event, now_ms) == countdown(reason, deadline_ms, now_ms)
        }),
{
}

} // verus!
