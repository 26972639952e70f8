//! The types of the agent's HTTP interface.
use vstd::prelude::*;

use crate::config::ContextConfig;

verus! {

/// The stream name of an event of the session log.
pub const DURABLE_EVENT_NAME: &'static str = "event";

/// The stream name of a piece of text that is not in the session log.
pub const TEXT_DELTA_EVENT_NAME: &'static str = "text_delta";

#[derive(Debug)]
pub struct ApiErrorBody {
    pub error: ApiErrorDetail,
}

impl ApiErrorBody {
    pub fn new(code: ApiErrorCode, message: &str) -> (r: ApiErrorBody)
        ensures
            r.error.code == code,
            r.error.message@ == message@,
    {
        ApiErrorBody { error: ApiErrorDetail { code, message: message.to_owned() } }
    }
}

#[derive(Debug)]
pub struct ApiErrorDetail {
    pub code: ApiErrorCode,
    pub message: String,
}

#[derive(Clone, Copy, Debug, PartialEq, Eq, Structural)]
pub enum ApiErrorCode {
    InvalidRequest,
    InternalError,
    SessionNotFound,
    SessionOverloaded,
    GlobalOverloaded,
    RunnerCircuitOpen,
    SessionDeleting,
    SessionUnavailable,
    SelectionUnavailable,
    InvalidCursor,
    ProfileNotFound,
    Unauthorized,
}

#[derive(Debug)]
pub struct ItemList<T> {
    pub items: Vec<T>,
}

/// The profile, model and thinking level that a session runs on.
#[derive(Debug)]
pub struct SessionSelection {
    pub profile_id: String,
    pub model: String,
    pub thinking: String,
}

/// What a selection names.
pub struct SelectionModel {
    pub profile_id: Seq<char>,
    pub model: Seq<char>,
    pub thinking: Seq<char>,
}

impl View for SessionSelection {
    type V = SelectionModel;

    open spec fn view(&self) -> SelectionModel {
        SelectionModel {
            profile_id: self.profile_id@,
            model: self.model@,
            thinking: self.thinking@,
        }
    }
}

impl Clone for SessionSelection {
    fn clone(&self) -> (r: SessionSelection)
        ensures
            r@ == self@,
    {
        SessionSelection {
            profile_id: self.profile_id.clone(),
            model: self.model.clone(),
            thinking: self.thinking.clone(),
        }
    }
}

#[derive(Debug)]
pub struct CreateSessionRequest {
    pub profile_id: String,
    pub model: String,
    pub thinking: String,
    pub system_prompt: Option<String>,
    pub workspace: Option<String>,
    pub context: Option<ContextConfig>,
}

#[derive(Debug)]
pub struct MailboxRequest {
    pub content: String,
}

#[derive(Debug)]
pub struct SessionView {
    pub session_id: String,
    pub workspace: String,
    pub profile_id: String,
    pub model: String,
    pub thinking: String,
    pub generation: u64,
    pub context: ContextConfig,
    pub status: SessionStatus,
}

impl SessionView {
    pub fn selection(&self) -> (r: SessionSelection)
        ensures
            r@ == (SelectionModel {
                profile_id: self.profile_id@,
                model: self.model@,
                thinking: self.thinking@,
            }),
    {
        SessionSelection {
            profile_id: self.profile_id.clone(),
            model: self.model.clone(),
            thinking: self.thinking.clone(),
        }
    }
}

#[derive(Debug)]
pub struct SessionSummary {
    pub session_id: String,
    pub status: SessionStatus,
}

#[derive(Clone, Copy, Debug, PartialEq, Eq, Structural)]
pub enum SessionStatus {
    Wait,
    Thinking,
    Waiting,
    Working,
    Finished,
    Failed,
    Cancelled,
    Unavailable,
    Deleting,
    Recovering,
}

/// The name of a status in the interface.
pub open spec fn status_name(status: SessionStatus) -> Seq<char> {
    match status {
        SessionStatus::Wait => "wait"@,
        SessionStatus::Thinking => "thinking"@,
        SessionStatus::Waiting => "waiting"@,
        SessionStatus::Working => "working"@,
        SessionStatus::Finished => "finished"@,
        SessionStatus::Failed => "failed"@,
        SessionStatus::Cancelled => "cancelled"@,
        SessionStatus::Unavailable => "unavailable"@,
        SessionStatus::Deleting => "deleting"@,
        SessionStatus::Recovering => "recovering"@,
    }
}

impl SessionStatus {
    pub fn as_str(self) -> (r: &'static str)
        ensures
            r@ == status_name(self),
    {
        match self {
            SessionStatus::Wait => "wait",
            SessionStatus::Thinking => "thinking",
            SessionStatus::Waiting => "waiting",
            SessionStatus::Working => "working",
            SessionStatus::Finished => "finished",
            SessionStatus::Failed => "failed",
            SessionStatus::Cancelled => "cancelled",
            SessionStatus::Unavailable => "unavailable",
            SessionStatus::Deleting => "deleting",
            SessionStatus::Recovering => "recovering",
        }
    }
}

#[derive(Debug)]
pub struct MessageQuery {
    pub limit: Option<usize>,
    pub before: Option<String>,
}

#[derive(Clone, Copy, Debug)]
pub struct EventQuery {
    pub transient: bool,
}

#[derive(Debug)]
pub struct MessagePage {
    pub items: Vec<PublicMessage>,
    pub older_cursor: Option<String>,
}

#[derive(Debug)]
pub struct PublicMessage {
    pub kind: MessageKind,
    pub role: PublicRole,
    pub content: String,
}

#[derive(Clone, Copy, Debug, PartialEq, Eq, Structural)]
pub enum MessageKind {
    Message,
}

#[derive(Clone, Copy, Debug, PartialEq, Eq, Structural)]
pub enum PublicRole {
    Mailbox,
    Assistant,
    Tool,
}

/// An event of the session log as the interface shows it.
#[derive(Debug)]
pub struct DurableEvent<T> {
    pub event_id: String,
    pub schema_version: u32,
    pub batch_index: u32,
    pub batch_count: u32,
    pub event: T,
}

#[derive(Debug)]
pub struct TextDeltaEvent {
    pub session_id: String,
    pub generation: u64,
    pub step_id: String,
    pub text: String,
}

/// Each status of a session has its own name.
pub proof fn statuses_have_names(status: SessionStatus)
    ensures
        status is Wait ==> status_name(status) == "wait"@,
        status is Thinking ==> status_name(status) == "thinking"@,
        status is Waiting ==> status_name(status) == "waiting"@,
        status is Working ==> status_name(status) == "working"@,
        status is Finished ==> status_name(status) == "finished"@,
        status is Failed ==> status_name(status) == "failed"@,
        status is Cancelled ==> status_name(status) == "cancelled"@,
        status is Unavailable ==> status_name(status) == "unavailable"@,
        status is Deleting ==> status_name(status) == "deleting"@,
        status is Recovering ==> status_name(status) == "recovering"@,
{
}

} // verus!
