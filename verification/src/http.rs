//! The answers of the agent's HTTP interface: errors, views of sessions, pages of messages and the
//! stream of events.
use vstd::prelude::*;

use crate::api::{
    ApiErrorCode, MessageKind, MessagePage, MessageQuery, PublicMessage, PublicRole, SelectionModel,
    SessionSelection, SessionStatus, SessionView,
};
use crate::config::ContextConfig;
use crate::event_id::identities_sort_by_sequence;
use crate::identity::ulid_of;
use crate::json::{
    compact_text, json_text, no_fields, optional_str, optional_text, Json, JsonModel, JsonObject,
};
use crate::session_log::{
    envelope_models, events_are_found_by_identity, history_pages_give_everything, is_log, last_of,
    lemma_visible_index, position, read_fault, tells_fault, visible, EnvelopeModel, EventEnvelope,
    EventModel, EventPayload, MemorySessionStore, PayloadModel, PublicEvent, PublicEventModel,
    QueryError,
};
use crate::text::{
    has_prefix, is_blank, join3, less, less_total, less_transitive, same, strip_prefix, text_less,
    trim, trimmed,
};
use crate::text_map::ascending;
use crate::tools::ToolOutcome;

verus! {

pub const DEFAULT_MESSAGE_LIMIT: usize = 50;

pub const MAX_MESSAGE_LIMIT: usize = 200;

/// How many events of a history are read at a time.
pub const HISTORY_PAGE: usize = 200;

/// An error as the interface answers it.
#[derive(Debug)]
pub struct ApiError {
    pub status: u16,
    pub code: ApiErrorCode,
    pub message: String,
}

/// What an error answers.
pub struct ApiErrorModel {
    pub status: u16,
    pub code: ApiErrorCode,
    pub message: Seq<char>,
}

impl View for ApiError {
    type V = ApiErrorModel;

    open spec fn view(&self) -> ApiErrorModel {
        ApiErrorModel { status: self.status, code: self.code, message: self.message@ }
    }
}

/// The error of a request that cannot be taken.
pub open spec fn invalid_request(message: Seq<char>) -> ApiErrorModel {
    ApiErrorModel { status: 422, code: ApiErrorCode::InvalidRequest, message }
}

/// The error of a fault inside.
pub open spec fn internal_error() -> ApiErrorModel {
    ApiErrorModel { status: 500, code: ApiErrorCode::InternalError, message: "internal error"@ }
}

impl ApiError {
    pub fn invalid(message: &str) -> (r: ApiError)
        ensures
            r@ == invalid_request(message@),
    {
        ApiError { status: 422, code: ApiErrorCode::InvalidRequest, message: message.to_owned() }
    }

    pub fn internal() -> (r: ApiError)
        ensures
            r@ == internal_error(),
    {
        ApiError {
            status: 500,
            code: ApiErrorCode::InternalError,
            message: "internal error".to_owned(),
        }
    }
}

/// Why the runtime refused something.
#[derive(Clone, Copy, Debug, PartialEq, Eq, Structural)]
pub enum SupervisorFault {
    NotFound,
    SessionOverloaded,
    GlobalOverloaded,
    CircuitOpen,
    Deleting,
    Unavailable,
    Runner,
    Store,
    Query,
}

/// The status and the code that a refusal of the runtime is answered with.
pub open spec fn fault_answer(fault: SupervisorFault) -> (u16, ApiErrorCode) {
    match fault {
        SupervisorFault::NotFound => (404, ApiErrorCode::SessionNotFound),
        SupervisorFault::SessionOverloaded => (429, ApiErrorCode::SessionOverloaded),
        SupervisorFault::GlobalOverloaded => (503, ApiErrorCode::GlobalOverloaded),
        SupervisorFault::CircuitOpen => (503, ApiErrorCode::RunnerCircuitOpen),
        SupervisorFault::Deleting => (409, ApiErrorCode::SessionDeleting),
        SupervisorFault::Unavailable
        | SupervisorFault::Runner
        | SupervisorFault::Store
        | SupervisorFault::Query => (500, ApiErrorCode::SessionUnavailable),
    }
}

impl ApiError {
    /// A refusal of the runtime, which says `message`, as the interface answers it.
    pub fn from_fault(fault: SupervisorFault, message: &str) -> (r: ApiError)
        ensures
            r@ == (ApiErrorModel {
                status: fault_answer(fault).0,
                code: fault_answer(fault).1,
                message: message@,
            }),
    {
        let status: u16 = match fault {
            SupervisorFault::NotFound => 404,
            SupervisorFault::SessionOverloaded => 429,
            SupervisorFault::GlobalOverloaded => 503,
            SupervisorFault::CircuitOpen => 503,
            SupervisorFault::Deleting => 409,
            _ => 500,
        };
        let code = match fault {
            SupervisorFault::NotFound => ApiErrorCode::SessionNotFound,
            SupervisorFault::SessionOverloaded => ApiErrorCode::SessionOverloaded,
            SupervisorFault::GlobalOverloaded => ApiErrorCode::GlobalOverloaded,
            SupervisorFault::CircuitOpen => ApiErrorCode::RunnerCircuitOpen,
            SupervisorFault::Deleting => ApiErrorCode::SessionDeleting,
            _ => ApiErrorCode::SessionUnavailable,
        };
        ApiError { status, code, message: message.to_owned() }
    }
}

/// Why a history could not be read.
#[derive(Clone, Copy, Debug, PartialEq, Eq, Structural)]
pub enum QueryFault {
    InvalidSessionId,
    InvalidCursor,
    UnknownCursor,
    /// The log of the session is not there.
    Missing,
    Other,
}

/// A fault of a history as the interface answers it. `message` is what the fault says,
/// `not_found` what is said of a session that does not exist.
pub open spec fn query_answer(
    fault: QueryFault,
    message: Seq<char>,
    not_found: Seq<char>,
) -> ApiErrorModel {
    match fault {
        QueryFault::InvalidSessionId | QueryFault::Missing => ApiErrorModel {
            status: 404,
            code: ApiErrorCode::SessionNotFound,
            message: not_found,
        },
        QueryFault::InvalidCursor | QueryFault::UnknownCursor => ApiErrorModel {
            status: 400,
            code: ApiErrorCode::InvalidCursor,
            message,
        },
        QueryFault::Other => internal_error(),
    }
}

pub fn query_error(fault: QueryFault, message: &str, not_found: &str) -> (r: ApiError)
    ensures
        r@ == query_answer(fault, message@, not_found@),
{
    match fault {
        QueryFault::InvalidSessionId | QueryFault::Missing => ApiError::from_fault(
            SupervisorFault::NotFound,
            not_found,
        ),
        QueryFault::InvalidCursor | QueryFault::UnknownCursor => ApiError {
            status: 400,
            code: ApiErrorCode::InvalidCursor,
            message: message.to_owned(),
        },
        QueryFault::Other => ApiError::internal(),
    }
}

/// A selection without white space around its parts, none of which may be missing.
pub fn selection(profile_id: &str, model: &str, thinking: &str) -> (r: Result<
    SessionSelection,
    ApiError,
>)
    ensures
        match r {
            Ok(selection) => {
                &&& !is_blank(profile_id@) && !is_blank(model@) && !is_blank(thinking@)
                &&& selection@ == (SelectionModel {
                    profile_id: trimmed(profile_id@),
                    model: trimmed(model@),
                    thinking: trimmed(thinking@),
                })
            },
            Err(error) => {
                &&& is_blank(profile_id@) || is_blank(model@) || is_blank(thinking@)
                &&& error@ == invalid_request("profile_id, model, and thinking are required"@)
            },
        },
{
    let profile_id = trim(profile_id);
    let model = trim(model);
    let thinking = trim(thinking);
    if profile_id.as_str().is_empty() || model.as_str().is_empty() || thinking.as_str().is_empty() {
        return Err(ApiError::invalid("profile_id, model, and thinking are required"));
    }
    Ok(SessionSelection { profile_id, model, thinking })
}

/// Refuses a selection that no profile resolves.
pub fn validate_selection(selection: &SessionSelection, resolves: bool) -> (r: Result<(), ApiError>)
    ensures
        match r {
            Ok(_) => resolves,
            Err(error) => !resolves && error@ == (ApiErrorModel {
                status: 422,
                code: ApiErrorCode::SelectionUnavailable,
                message: "profile "@ + selection.profile_id@ + " cannot resolve "@
                    + selection.model@ + "/"@ + selection.thinking@,
            }),
        },
{
    if resolves {
        return Ok(());
    }
    let mut message = join3("profile ", &selection.profile_id, " cannot resolve ");
    message.append(&selection.model);
    message.append("/");
    message.append(&selection.thinking);
    Err(ApiError { status: 422, code: ApiErrorCode::SelectionUnavailable, message })
}

/// Refuses an empty message to a session.
pub fn validate_mailbox(content: &str) -> (r: Result<(), ApiError>)
    ensures
        match r {
            Ok(_) => content@.len() > 0,
            Err(error) => content@.len() == 0 && error@ == invalid_request(
                "content is required"@,
            ),
        },
{
    if content.is_empty() {
        return Err(ApiError::invalid("content is required"));
    }
    Ok(())
}

/// Whether a request may pass: it carries the expected token.
pub fn is_authorized(header: Option<&str>, expected: &str) -> (r: bool)
    ensures
        r == match header {
            Some(value) => has_prefix(value@, "Bearer "@) && value@.skip("Bearer "@.len() as int)
                == expected@,
            None => false,
        },
{
    match header {
        Some(value) => match strip_prefix(value, "Bearer ") {
            Some(token) => same(&token, expected),
            None => false,
        },
        None => false,
    }
}

/// The answer to a request for a profile that is not there.
pub fn profile_not_found() -> (r: ApiError)
    ensures
        r@ == (ApiErrorModel {
            status: 404,
            code: ApiErrorCode::ProfileNotFound,
            message: "profile not found"@,
        }),
{
    ApiError {
        status: 404,
        code: ApiErrorCode::ProfileNotFound,
        message: "profile not found".to_owned(),
    }
}

/// The answer to a request without the expected token.
pub fn unauthorized() -> (r: ApiError)
    ensures
        r@ == (ApiErrorModel {
            status: 401,
            code: ApiErrorCode::Unauthorized,
            message: "authentication required"@,
        }),
{
    ApiError {
        status: 401,
        code: ApiErrorCode::Unauthorized,
        message: "authentication required".to_owned(),
    }
}

#[derive(Clone, Copy, Debug, PartialEq, Eq, Structural)]
pub enum TurnOutcome {
    Finished,
    Failed,
    Cancelled,
}

/// What the status of a session depends on.
#[derive(Clone, Copy, Debug, PartialEq, Eq, Structural)]
pub struct SessionActivity {
    pub active_step: bool,
    pub auto_wait: bool,
    pub wait_deadline: bool,
    pub active_turn: bool,
    pub pending_tools: bool,
    pub last_turn_outcome: Option<TurnOutcome>,
}

/// The status of a session: what it does, else how its last turn ended. Tools that are left of a
/// cancelled turn do not count as work.
pub open spec fn status_of_session(activity: SessionActivity) -> SessionStatus {
    if activity.active_step {
        SessionStatus::Thinking
    } else if activity.auto_wait || activity.wait_deadline {
        SessionStatus::Waiting
    } else if activity.active_turn || (activity.pending_tools && activity.last_turn_outcome != Some(
        TurnOutcome::Cancelled,
    )) {
        SessionStatus::Working
    } else {
        match activity.last_turn_outcome {
            Some(TurnOutcome::Finished) => SessionStatus::Finished,
            Some(TurnOutcome::Failed) => SessionStatus::Failed,
            Some(TurnOutcome::Cancelled) => SessionStatus::Cancelled,
            None => SessionStatus::Wait,
        }
    }
}

pub fn state_status(activity: SessionActivity) -> (r: SessionStatus)
    ensures
        r == status_of_session(activity),
{
    let cancelled = match activity.last_turn_outcome {
        Some(TurnOutcome::Cancelled) => true,
        _ => false,
    };
    if activity.active_step {
        SessionStatus::Thinking
    } else if activity.auto_wait || activity.wait_deadline {
        SessionStatus::Waiting
    } else if activity.active_turn || (activity.pending_tools && !cancelled) {
        SessionStatus::Working
    } else {
        match activity.last_turn_outcome {
            Some(TurnOutcome::Finished) => SessionStatus::Finished,
            Some(TurnOutcome::Failed) => SessionStatus::Failed,
            Some(TurnOutcome::Cancelled) => SessionStatus::Cancelled,
            None => SessionStatus::Wait,
        }
    }
}

#[derive(Clone, Copy, Debug, PartialEq, Eq, Structural)]
pub enum PublicSlotStatus {
    Active,
    Idle,
    CircuitOpen,
    Unavailable,
    Deleting,
    Unchecked,
    Recovering,
}

/// The status of a session that is only known by its place in the runtime.
pub fn slot_status(status: PublicSlotStatus, finished: bool) -> (r: SessionStatus)
    ensures
        r == match status {
            PublicSlotStatus::Active => SessionStatus::Working,
            PublicSlotStatus::Idle => if finished {
                SessionStatus::Finished
            } else {
                SessionStatus::Wait
            },
            PublicSlotStatus::CircuitOpen => SessionStatus::Failed,
            PublicSlotStatus::Unavailable => SessionStatus::Unavailable,
            PublicSlotStatus::Deleting => SessionStatus::Deleting,
            PublicSlotStatus::Unchecked | PublicSlotStatus::Recovering =>
                SessionStatus::Recovering,
        },
{
    match status {
        PublicSlotStatus::Active => SessionStatus::Working,
        PublicSlotStatus::Idle => if finished {
            SessionStatus::Finished
        } else {
            SessionStatus::Wait
        },
        PublicSlotStatus::CircuitOpen => SessionStatus::Failed,
        PublicSlotStatus::Unavailable => SessionStatus::Unavailable,
        PublicSlotStatus::Deleting => SessionStatus::Deleting,
        PublicSlotStatus::Unchecked | PublicSlotStatus::Recovering => SessionStatus::Recovering,
    }
}

/// What the interface shows of a session.
#[derive(Debug)]
pub struct SessionFacts {
    pub session_id: String,
    pub workspace: String,
    pub selection: Option<SessionSelection>,
    pub generation: u64,
    pub context: ContextConfig,
    pub activity: SessionActivity,
}

/// What a selection names; nothing where there is none.
pub open spec fn selection_or_empty(selection: Option<SessionSelection>) -> SelectionModel {
    match selection {
        Some(selection) => selection@,
        None => SelectionModel {
            profile_id: Seq::empty(),
            model: Seq::empty(),
            thinking: Seq::empty(),
        },
    }
}

/// A session as the interface shows it.
pub fn session_view(facts: &SessionFacts) -> (r: SessionView)
    ensures
        r.session_id@ == facts.session_id@,
        r.workspace@ == facts.workspace@,
        (SelectionModel { profile_id: r.profile_id@, model: r.model@, thinking: r.thinking@ })
            == selection_or_empty(facts.selection),
        r.generation == facts.generation,
        r.context == facts.context,
        r.status == status_of_session(facts.activity),
{
    let (profile_id, model, thinking) = match &facts.selection {
        Some(selection) => (
            selection.profile_id.clone(),
            selection.model.clone(),
            selection.thinking.clone(),
        ),
        None => (String::new(), String::new(), String::new()),
    };
    SessionView {
        session_id: facts.session_id.clone(),
        workspace: facts.workspace.clone(),
        profile_id,
        model,
        thinking,
        generation: facts.generation,
        context: facts.context,
        status: state_status(facts.activity),
    }
}

/// What a message says.
pub struct PublicMessageModel {
    pub kind: MessageKind,
    pub role: PublicRole,
    pub content: Seq<char>,
}

impl View for PublicMessage {
    type V = PublicMessageModel;

    open spec fn view(&self) -> PublicMessageModel {
        PublicMessageModel { kind: self.kind, role: self.role, content: self.content@ }
    }
}

/// The name of an outcome in front of what a tool returned.
pub open spec fn outcome_label(outcome: ToolOutcome) -> Seq<char> {
    match outcome {
        ToolOutcome::Succeeded => "Succeeded"@,
        ToolOutcome::Failed => "Failed"@,
        ToolOutcome::TimedOut => "TimedOut"@,
        ToolOutcome::Cancelled => "Cancelled"@,
    }
}

/// What a tool returned, as text; a tool that did not succeed says so first.
pub open spec fn tool_data_text(outcome: ToolOutcome, data: JsonModel) -> Seq<char> {
    let content = match data {
        JsonModel::Text(text) => text,
        _ => json_text(data),
    };
    if outcome == ToolOutcome::Succeeded {
        content
    } else {
        outcome_label(outcome) + ": "@ + content
    }
}

pub fn render_tool_data(outcome: ToolOutcome, data: &Json) -> (r: String)
    ensures
        r@ == tool_data_text(outcome, data@),
{
    let content = match data {
        Json::Text(text) => text.clone(),
        _ => compact_text(data),
    };
    match outcome {
        ToolOutcome::Succeeded => content,
        ToolOutcome::Failed => join3("Failed", ": ", &content),
        ToolOutcome::TimedOut => join3("TimedOut", ": ", &content),
        ToolOutcome::Cancelled => join3("Cancelled", ": ", &content),
    }
}

/// A message of that role.
pub open spec fn said_by(role: PublicRole, content: Seq<char>) -> PublicMessageModel {
    PublicMessageModel { kind: MessageKind::Message, role, content }
}

/// The message that an event shows as.
pub open spec fn shown_message(event: PublicEventModel) -> Option<PublicMessageModel> {
    match event {
        PublicEventModel::Input { content } => Some(said_by(PublicRole::Mailbox, content)),
        PublicEventModel::Step { assistant_text, conversation } => if conversation
            && assistant_text.len() > 0 {
            Some(said_by(PublicRole::Assistant, assistant_text))
        } else {
            None
        },
        PublicEventModel::ToolResult { outcome, data } => Some(
            said_by(PublicRole::Tool, tool_data_text(outcome, data)),
        ),
        PublicEventModel::Other => None,
    }
}

pub fn public_message(event: &PublicEvent) -> (r: Option<PublicMessage>)
    ensures
        match r {
            Some(message) => shown_message(event@) == Some(message@),
            None => shown_message(event@) is None,
        },
{
    match event {
        PublicEvent::Input { content } => Some(
            PublicMessage {
                kind: MessageKind::Message,
                role: PublicRole::Mailbox,
                content: content.clone(),
            },
        ),
        PublicEvent::Step { assistant_text, conversation } => {
            if *conversation && !assistant_text.as_str().is_empty() {
                Some(
                    PublicMessage {
                        kind: MessageKind::Message,
                        role: PublicRole::Assistant,
                        content: assistant_text.clone(),
                    },
                )
            } else {
                None
            }
        },
        PublicEvent::ToolResult { outcome, data } => Some(
            PublicMessage {
                kind: MessageKind::Message,
                role: PublicRole::Tool,
                content: render_tool_data(*outcome, data),
            },
        ),
        PublicEvent::Other => None,
    }
}

/// A message and the event that it comes from.
pub struct RowModel {
    pub event_id: Seq<char>,
    pub message: PublicMessageModel,
}

/// The message that an event of a log shows as.
pub open spec fn event_message(event: EventModel) -> Option<PublicMessageModel> {
    match event.payload {
        PayloadModel::Entry { public, .. } => shown_message(public),
        PayloadModel::Snapshot { .. } => None,
    }
}

/// The messages of a history, in its order.
pub open spec fn rows_of(events: Seq<EnvelopeModel>) -> Seq<RowModel>
    decreases events.len(),
{
    if events.len() == 0 {
        Seq::empty()
    } else {
        let rest = rows_of(events.drop_first());
        match event_message(events[0].event) {
            Some(message) => seq![RowModel { event_id: events[0].event_id, message }] + rest,
            None => rest,
        }
    }
}

/// The last `count` of a list, or all where there are fewer.
pub open spec fn last_rows(rows: Seq<RowModel>, count: nat) -> Seq<RowModel> {
    if count < rows.len() {
        rows.skip(rows.len() - count)
    } else {
        rows
    }
}

/// How many messages a page holds.
pub open spec fn page_limit(asked: Option<usize>) -> usize {
    match asked {
        Some(limit) => if limit < MAX_MESSAGE_LIMIT {
            limit
        } else {
            MAX_MESSAGE_LIMIT
        },
        None => DEFAULT_MESSAGE_LIMIT,
    }
}

pub fn message_limit(query: &MessageQuery) -> (r: usize)
    ensures
        r == page_limit(query.limit),
        r <= MAX_MESSAGE_LIMIT,
{
    match query.limit {
        Some(limit) => if limit < MAX_MESSAGE_LIMIT {
            limit
        } else {
            MAX_MESSAGE_LIMIT
        },
        None => DEFAULT_MESSAGE_LIMIT,
    }
}

#[derive(Debug)]
pub struct MessageRow {
    pub event_id: String,
    pub message: PublicMessage,
}

impl View for MessageRow {
    type V = RowModel;

    open spec fn view(&self) -> RowModel {
        RowModel { event_id: self.event_id@, message: self.message@ }
    }
}

/// The message that an event shows as, with the event.
fn envelope_row(envelope: &EventEnvelope) -> (r: Option<MessageRow>)
    ensures
        match r {
            Some(row) => event_message(envelope@.event) == Some(row@.message) && row@.event_id
                == envelope@.event_id,
            None => event_message(envelope@.event) is None,
        },
{
    match &envelope.event.payload {
        EventPayload::Snapshot { .. } => None,
        EventPayload::Entry { public, .. } => match public_message(public) {
            Some(message) => Some(MessageRow { event_id: envelope.event_id.clone(), message }),
            None => None,
        },
    }
}

/// What comes after a page of a history.
#[derive(Debug)]
pub enum PageStep {
    /// Read the page before this event.
    Before(String),
    Done,
}

/// The messages of a session, collected from its newest events back.
#[derive(Debug)]
pub struct MessageSearch {
    limit: usize,
    /// The newest first.
    rows: Vec<MessageRow>,
}

impl MessageSearch {
    pub closed spec fn spec_limit(&self) -> nat {
        self.limit as nat
    }

    /// What was collected, in the order of the history.
    pub closed spec fn collected(&self) -> Seq<RowModel> {
        Seq::new(self.rows@.len(), |i: int| self.rows@[self.rows@.len() - 1 - i]@)
    }

    /// No more is collected than was asked for.
    pub closed spec fn well_formed(&self) -> bool {
        self.rows@.len() <= self.limit
    }

    pub fn new(limit: usize) -> (r: MessageSearch)
        ensures
            r.well_formed(),
            r.spec_limit() == limit,
            r.collected() == Seq::<RowModel>::empty(),
    {
        let out = MessageSearch { limit, rows: Vec::new() };
        proof {
            assert(out.collected() =~= Seq::<RowModel>::empty());
        }
        out
    }

    /// Takes the page of the history that lies before what was taken.
    pub fn take_page(&mut self, page: &Vec<EventEnvelope>) -> (r: PageStep)
        requires
            old(self).well_formed(),
        ensures
            final(self).well_formed(),
            final(self).spec_limit() == old(self).spec_limit(),
            final(self).collected() == last_rows(
                rows_of(envelope_models(page@)),
                (old(self).spec_limit() - old(self).collected().len()) as nat,
            ) + old(self).collected(),
            match r {
                PageStep::Before(cursor) => {
                    &&& page.len() > 0 && cursor@ == page@[0].event_id@
                    &&& final(self).collected().len() < final(self).spec_limit()
                    &&& page.len() >= HISTORY_PAGE
                },
                PageStep::Done => page.len() == 0 || page.len() < HISTORY_PAGE
                    || final(self).collected().len() == final(self).spec_limit(),
            },
    {
        let ghost events = envelope_models(page@);
        let ghost before = self.collected();
        let ghost room = (self.limit - before.len()) as nat;
        let mut i: usize = page.len();
        proof {
            assert(events.skip(events.len() as int) =~= Seq::<EnvelopeModel>::empty());
            assert(rows_of(events.skip(i as int)) + before =~= before);
        }
        while i > 0 && self.rows.len() < self.limit
            invariant
                i <= page.len(),
                events == envelope_models(page@),
                self.well_formed(),
                self.limit == old(self).limit,
                before == old(self).collected(),
                room == self.limit - before.len(),
                rows_of(events.skip(i as int)).len() <= room,
                self.collected() == rows_of(events.skip(i as int)) + before,
            decreases i,
        {
            i = i - 1;
            let ghost rest = rows_of(events.skip(i + 1));
            let ghost earlier = self.collected();
            proof {
                assert(events.skip(i as int).drop_first() =~= events.skip(i + 1));
                assert(events.skip(i as int)[0] == page@[i as int]@);
                assert(earlier.len() == self.rows@.len());
            }
            match envelope_row(&page[i]) {
                Some(row) => {
                    self.rows.push(row);
                    proof {
                        assert(self.collected() =~= seq![row@] + earlier);
                        assert(seq![row@] + (rest + before) =~= (seq![row@] + rest) + before);
                    }
                },
                None => {},
            }
        }
        proof {
            lemma_rows_end(events, i as int);
            if i > 0 {
                assert(self.rows@.len() == self.limit);
                assert(rows_of(events.skip(i as int)).len() == room);
            } else {
                assert(events.skip(0) =~= events);
            }
            assert(self.collected() == last_rows(rows_of(events), room) + before);
        }
        if page.len() == 0 || self.rows.len() == self.limit || page.len() < HISTORY_PAGE {
            PageStep::Done
        } else {
            PageStep::Before(page[0].event_id.clone())
        }
    }

    /// The page of messages, and before which event the next one ends if it is full.
    pub fn finish(self) -> (r: MessagePage)
        requires
            self.well_formed(),
        ensures
            shows_rows(r, self.collected(), self.spec_limit()),
    {
        let older_cursor = if self.rows.len() == self.limit && self.rows.len() > 0 {
            Some(self.rows[self.rows.len() - 1].event_id.clone())
        } else {
            None
        };
        let ghost all = self.rows@;
        let mut rows = self.rows;
        let mut items: Vec<PublicMessage> = Vec::new();
        loop
            invariant
                rows@.len() + items@.len() == all.len(),
                rows@ == all.take(rows@.len() as int),
                forall|i: int|
                    0 <= i < items@.len() ==> (#[trigger] items@[i])@ == all[all.len() - 1
                        - i]@.message,
            ensures
                rows@.len() == 0,
            decreases rows.len(),
        {
            match rows.pop() {
                Some(row) => {
                    items.push(row.message);
                },
                None => {
                    break;
                },
            }
        }
        MessagePage { items, older_cursor }
    }
}

proof fn lemma_skip_twice(rows: Seq<RowModel>, first: int, second: int)
    requires
        0 <= first,
        0 <= second,
        first + second <= rows.len(),
    ensures
        rows.skip(first).skip(second) == rows.skip(first + second),
{
    assert(rows.skip(first).skip(second) =~= rows.skip(first + second));
}

/// The rows of a history end in the rows of its end.
proof fn lemma_rows_end(items: Seq<EnvelopeModel>, from: int)
    requires
        0 <= from <= items.len(),
    ensures
        rows_of(items).len() >= rows_of(items.skip(from)).len(),
        rows_of(items.skip(from)) == rows_of(items).skip(
            rows_of(items).len() - rows_of(items.skip(from)).len(),
        ),
    decreases from,
{
    if from == 0 {
        assert(items.skip(0) =~= items);
        assert(rows_of(items).skip(0) =~= rows_of(items));
    } else {
        lemma_rows_end(items, from - 1);
        let tail = items.skip(from - 1);
        assert(tail.drop_first() =~= items.skip(from));
        let longer = rows_of(tail);
        let shorter = rows_of(items.skip(from));
        match event_message(tail[0].event) {
            Some(message) => {
                let row = RowModel { event_id: tail[0].event_id, message };
                assert(longer == seq![row] + shorter);
                assert(longer.skip(1) =~= shorter);
            },
            None => {
                assert(longer == shorter);
                assert(longer.skip(0) =~= shorter);
            },
        }
        let all = rows_of(items);
        lemma_skip_twice(all, all.len() - longer.len(), longer.len() - shorter.len());
    }
}

proof fn lemma_rows_append(a: Seq<EnvelopeModel>, b: Seq<EnvelopeModel>)
    ensures
        rows_of(a + b) == rows_of(a) + rows_of(b),
    decreases a.len(),
{
    if a.len() == 0 {
        assert(a + b =~= b);
        assert(rows_of(a) + rows_of(b) =~= rows_of(b));
    } else {
        lemma_rows_append(a.drop_first(), b);
        assert((a + b).drop_first() =~= a.drop_first() + b);
        match event_message(a[0].event) {
            Some(message) => {
                let row = RowModel { event_id: a[0].event_id, message };
                assert(seq![row] + (rows_of(a.drop_first()) + rows_of(b)) =~= (seq![row] + rows_of(
                    a.drop_first(),
                )) + rows_of(b));
            },
            None => {},
        }
    }
}

proof fn lemma_position_in_range(log: Seq<EnvelopeModel>, cursor: Option<Seq<char>>)
    ensures
        cursor is Some && position(log, cursor->0) is Some ==> 0 <= position(log, cursor->0)->0
            < log.len(),
    decreases log.len(),
{
    if log.len() > 0 {
        lemma_position_in_range(log.drop_last(), cursor);
    }
}

/// A page of messages is the last ones of the history, however the history was cut into pages:
/// what two pages in a row add is what their concatenation adds.
pub proof fn pages_collect_the_last_messages(
    older: Seq<EnvelopeModel>,
    newer: Seq<EnvelopeModel>,
    limit: nat,
)
    ensures
        ({
            let first = last_rows(rows_of(newer), limit);
            last_rows(rows_of(older), (limit - first.len()) as nat) + first == last_rows(
                rows_of(older + newer),
                limit,
            )
        }),
{
    lemma_rows_append(older, newer);
    let a = rows_of(older);
    let b = rows_of(newer);
    let first = last_rows(b, limit);
    let both = last_rows(a, (limit - first.len()) as nat) + first;
    assert(both =~= last_rows(a + b, limit));
}

/// Why a list of messages cannot be given.
#[derive(Debug)]
pub enum ListFault {
    NotFound,
    Query(QueryError),
}

/// Whether a page shows these messages, and names the event before which the next one ends if it
/// is full.
pub open spec fn shows_rows(page: MessagePage, rows: Seq<RowModel>, limit: nat) -> bool {
    &&& page.items@.len() == rows.len()
    &&& forall|i: int| 0 <= i < rows.len() ==> (#[trigger] page.items@[i])@ == rows[i].message
    &&& optional_text(page.older_cursor) == older_cursor(rows, limit)
}

/// What a session shows before the event `cursor`, or all that it shows.
pub open spec fn shown_before(
    log: Seq<EnvelopeModel>,
    cursor: Option<Seq<char>>,
) -> Option<Seq<EnvelopeModel>> {
    match cursor {
        None => Some(visible(log)),
        Some(cursor) => match position(log, cursor) {
            Some(at) => Some(visible(log.take(at))),
            None => None,
        },
    }
}

/// The last messages of a session before the event that the query names.
pub fn list_messages(store: &MemorySessionStore, session_id: &str, query: &MessageQuery) -> (r:
    Result<MessagePage, ListFault>)
    requires
        store.well_formed(),
    ensures
        ({
            let cursor = optional_text(query.before);
            let limit = page_limit(query.limit);
            match r {
                Ok(page) => {
                    &&& store.has_session(session_id@)
                    &&& limit == 0 ==> shows_rows(page, Seq::empty(), 0)
                    &&& limit > 0 ==> read_fault(session_id@, cursor) is None && shown_before(
                        store.log(session_id@),
                        cursor,
                    ) is Some && shows_rows(
                        page,
                        page_rows(store.log(session_id@), cursor, limit as nat),
                        limit as nat,
                    )
                },
                Err(ListFault::NotFound) => !store.has_session(session_id@),
                Err(ListFault::Query(QueryError::UnknownCursor(id))) => {
                    &&& store.has_session(session_id@)
                    &&& limit > 0
                    &&& read_fault(session_id@, cursor) is None
                    &&& cursor == Some(id@)
                    &&& shown_before(store.log(session_id@), cursor) is None
                },
                Err(ListFault::Query(error)) => {
                    &&& store.has_session(session_id@)
                    &&& limit > 0
                    &&& tells_fault(error, session_id@, cursor)
                },
            }
        }),
{
    if !store.session_exists(session_id) {
        return Err(ListFault::NotFound);
    }
    let limit = message_limit(query);
    let mut search = MessageSearch::new(limit);
    if limit == 0 {
        return Ok(search.finish());
    }
    let ghost log = store.log(session_id@);
    let ghost first = optional_text(query.before);
    let ghost mut end: int = match first {
        None => log.len() as int,
        Some(cursor) => match position(log, cursor) {
            Some(at) => at,
            None => 0,
        },
    };
    let ghost whole = visible(log.take(end));
    let ghost mut taken: Seq<EnvelopeModel> = Seq::empty();
    let mut cursor: Option<String> = query.before.clone();
    proof {
        store.log_is_numbered(session_id@);
        lemma_position_in_range(log, first);
        assert(log.take(log.len() as int) =~= log);
        assert(whole + taken =~= whole);
        assert(last_rows(rows_of(taken), limit as nat) =~= Seq::<RowModel>::empty());
    }
    loop
        invariant_except_break
            search.collected().len() < limit,
            optional_text(cursor) != first ==> cursor is Some && position(log, cursor->0@) == Some(
                end,
            ) && read_fault(session_id@, Some(cursor->0@)) is None,
            optional_text(cursor) == first && shown_before(log, first) is Some ==> end
                == match first {
                None => log.len() as int,
                Some(text) => position(log, text)->0,
            },
            optional_text(cursor) != first ==> shown_before(log, first) is Some && read_fault(
                session_id@,
                first,
            ) is None,
            visible(log.take(end)) + taken == whole,
            search.collected() == last_rows(rows_of(taken), limit as nat),
        invariant
            store.well_formed(),
            store.has_session(session_id@),
            log == store.log(session_id@),
            is_log(session_id@, log),
            0 <= end <= log.len(),
            0 < limit,
            limit == page_limit(query.limit),
            first == optional_text(query.before),
            search.well_formed(),
            search.spec_limit() == limit,
            shown_before(log, first) is Some ==> whole == shown_before(log, first)->0,
        ensures
            read_fault(session_id@, first) is None,
            shown_before(log, first) is Some,
            search.collected() == last_rows(rows_of(whole), limit as nat),
        decreases end,
    {
        let before = match &cursor {
            Some(text) => Some(text.as_str()),
            None => None,
        };
        let page = match store.before(session_id, before, HISTORY_PAGE as u64) {
            Ok(page) => page,
            Err(error) => {
                return Err(ListFault::Query(error));
            },
        };
        let ghost events = envelope_models(page@);
        let ghost older = visible(log.take(end));
        proof {
            assert(log.take(log.len() as int) =~= log);
            assert(events == last_of(older, HISTORY_PAGE as nat));
            pages_collect_the_last_messages(events, taken, limit as nat);
        }
        let step = search.take_page(&page);
        let ghost rest = older.take(older.len() - events.len());
        proof {
            assert(rest + events =~= older);
            assert(rest + (events + taken) =~= whole);
            taken = events + taken;
            pages_collect_the_last_messages(rest, taken, limit as nat);
        }
        match step {
            PageStep::Done => {
                proof {
                    if search.collected().len() < limit {
                        assert(rest =~= Seq::<EnvelopeModel>::empty());
                        assert(taken =~= whole);
                    } else {
                        assert(last_rows(rows_of(rest), 0) =~= Seq::<RowModel>::empty());
                        assert(search.collected() =~= last_rows(rows_of(whole), limit as nat));
                    }
                }
                break;
            },
            PageStep::Before(next) => {
                proof {
                    assert(older.len() > 0);
                    history_pages_give_everything(session_id@, log, end, HISTORY_PAGE as nat);
                    assert(events[0].event_id == next@);
                    end = position(log, next@)->0;
                    assert(visible(log.take(end)) =~= rest) by {
                        assert((visible(log.take(end)) + events).take(
                            visible(log.take(end)).len() as int,
                        ) =~= visible(log.take(end)));
                    }
                }
                cursor = Some(next);
            },
        }
    }
    Ok(search.finish())
}

/// What a reading of the history of a session brings.
#[derive(Debug)]
pub enum ScanItem {
    Event { event_id: String },
    /// There is no more.
    Done,
    /// The history could not be read.
    Failed,
    /// The reading ended without a word.
    Lost,
}

/// What a reading brings.
pub enum ScanModel {
    Event(Seq<char>),
    Done,
    Failed,
    Lost,
}

impl View for ScanItem {
    type V = ScanModel;

    open spec fn view(&self) -> ScanModel {
        match *self {
            ScanItem::Event { event_id } => ScanModel::Event(event_id@),
            ScanItem::Done => ScanModel::Done,
            ScanItem::Failed => ScanModel::Failed,
            ScanItem::Lost => ScanModel::Lost,
        }
    }
}

/// What a stream does with what a reading of the history brings.
#[derive(Clone, Copy, Debug, PartialEq, Eq, Structural)]
pub enum ScanStep {
    /// Send the event.
    Send,
    /// Go on with what happens.
    Follow,
    /// End the stream.
    Close,
}

/// Whether a stream can be opened, from the first that the reading of the history brings. A stream
/// that cannot is answered with an error instead; `fault` and `message` are those of the reading.
pub fn open_stream(first: &ScanItem, fault: QueryFault, message: &str, not_found: &str) -> (r:
    Result<(), ApiError>)
    ensures
        match (*first, r) {
            (ScanItem::Event { .. }, Ok(_)) => true,
            (ScanItem::Done, Ok(_)) => true,
            (ScanItem::Failed, Err(error)) => error@ == query_answer(fault, message@, not_found@),
            (ScanItem::Lost, Err(error)) => error@ == internal_error(),
            _ => false,
        },
{
    match first {
        ScanItem::Event { .. } | ScanItem::Done => Ok(()),
        ScanItem::Failed => Err(query_error(fault, message, not_found)),
        ScanItem::Lost => Err(ApiError::internal()),
    }
}

/// What a stream of a session is fed with after its history.
#[derive(Debug)]
pub enum LiveItem {
    Durable { event_id: String },
    TextDelta,
    /// Events were lost; they are in the history.
    Lagged,
    Closed,
}

/// What a stream is fed with.
pub enum LiveModel {
    Durable(Seq<char>),
    TextDelta,
    Lagged,
    Closed,
}

impl View for LiveItem {
    type V = LiveModel;

    open spec fn view(&self) -> LiveModel {
        match *self {
            LiveItem::Durable { event_id } => LiveModel::Durable(event_id@),
            LiveItem::TextDelta => LiveModel::TextDelta,
            LiveItem::Lagged => LiveModel::Lagged,
            LiveItem::Closed => LiveModel::Closed,
        }
    }
}

/// What a stream does.
#[derive(Clone, Copy, Debug, PartialEq, Eq, Structural)]
pub enum FeedStep {
    /// Send the event.
    Send,
    /// Send nothing.
    Skip,
    /// Read the history behind the last event that was sent.
    CatchUp,
    /// End the stream.
    Close,
}

/// What a stream does with what a reading of the history brings, and the last event that it has
/// sent then.
pub open spec fn fed_history(last: Option<Seq<char>>, item: ScanModel) -> (
    ScanStep,
    Option<Seq<char>>,
) {
    match item {
        ScanModel::Event(event_id) => (ScanStep::Send, Some(event_id)),
        ScanModel::Done => (ScanStep::Follow, last),
        ScanModel::Failed | ScanModel::Lost => (ScanStep::Close, last),
    }
}

/// What a stream does with something that happened, and the last event that it has sent then. An
/// event that is not behind that one is not sent again; a piece of text is sent to those who want
/// such.
pub open spec fn fed_live(last: Option<Seq<char>>, transient: bool, item: LiveModel) -> (
    FeedStep,
    Option<Seq<char>>,
) {
    match item {
        LiveModel::Durable(event_id) => if last is Some && !text_less(last->0, event_id) {
            (FeedStep::Skip, last)
        } else {
            (FeedStep::Send, Some(event_id))
        },
        LiveModel::TextDelta => (
            if transient {
                FeedStep::Send
            } else {
                FeedStep::Skip
            },
            last,
        ),
        LiveModel::Lagged => (FeedStep::CatchUp, last),
        LiveModel::Closed => (FeedStep::Close, last),
    }
}

/// A stream of the events of a session: first its history, then what happens.
#[derive(Debug)]
pub struct EventFeed {
    last: Option<String>,
    transient: bool,
}

impl EventFeed {
    /// The last event that was sent.
    pub closed spec fn spec_last(&self) -> Option<Seq<char>> {
        optional_text(self.last)
    }

    /// Whether pieces of text are sent.
    pub closed spec fn spec_transient(&self) -> bool {
        self.transient
    }

    /// A stream that goes on behind `cursor`; an empty one is none.
    pub fn new(cursor: Option<&str>, transient: bool) -> (r: EventFeed)
        ensures
            r.spec_transient() == transient,
            r.spec_last() == match cursor {
                Some(cursor) => if cursor@.len() == 0 {
                    None
                } else {
                    Some(cursor@)
                },
                None => None,
            },
    {
        let last = match cursor {
            Some(cursor) => if cursor.is_empty() {
                None
            } else {
                Some(cursor.to_owned())
            },
            None => None,
        };
        EventFeed { last, transient }
    }

    /// Behind which event the history is to be read.
    pub fn cursor(&self) -> (r: Option<&str>)
        ensures
            optional_str(r) == self.spec_last(),
    {
        match &self.last {
            Some(last) => Some(last.as_str()),
            None => None,
        }
    }

    /// Takes what a reading of the history brings.
    pub fn take_history(&mut self, item: &ScanItem) -> (r: ScanStep)
        ensures
            (r, final(self).spec_last()) == fed_history(old(self).spec_last(), item@),
            final(self).spec_transient() == old(self).spec_transient(),
    {
        match item {
            ScanItem::Event { event_id } => {
                self.last = Some(event_id.clone());
                ScanStep::Send
            },
            ScanItem::Done => ScanStep::Follow,
            ScanItem::Failed | ScanItem::Lost => ScanStep::Close,
        }
    }

    /// Takes something that happened.
    pub fn take_live(&mut self, item: &LiveItem) -> (r: FeedStep)
        ensures
            (r, final(self).spec_last()) == fed_live(
                old(self).spec_last(),
                old(self).spec_transient(),
                item@,
            ),
            final(self).spec_transient() == old(self).spec_transient(),
    {
        match item {
            LiveItem::Durable { event_id } => {
                let seen = match &self.last {
                    Some(last) => !less(last, event_id),
                    None => false,
                };
                if seen {
                    return FeedStep::Skip;
                }
                self.last = Some(event_id.clone());
                FeedStep::Send
            },
            LiveItem::TextDelta => if self.transient {
                FeedStep::Send
            } else {
                FeedStep::Skip
            },
            LiveItem::Lagged => FeedStep::CatchUp,
            LiveItem::Closed => FeedStep::Close,
        }
    }
}

/// How many events of a log are not behind `last`.
pub open spec fn count_upto(log: Seq<Seq<char>>, last: Option<Seq<char>>) -> int
    decreases log.len(),
{
    if log.len() == 0 || last is None {
        0
    } else if !text_less(last->0, log.last()) {
        log.len() as int
    } else {
        count_upto(log.drop_last(), last)
    }
}

/// One thing that comes to a stream.
pub enum StreamTurn {
    /// A reading of the history behind the last event brings the next one.
    History,
    /// The reading is at its end.
    HistoryDone,
    /// The next event happens.
    Live,
    /// A piece of text.
    Delta,
    /// The events that happen up to this one were lost to the stream.
    Lag { to: int },
}

/// A stream, with all that it has sent.
pub struct StreamState {
    pub last: Option<Seq<char>>,
    /// The events that were sent.
    pub sent: Seq<Seq<char>>,
    /// How many pieces of text were sent.
    pub deltas: nat,
    /// Which event of the log happens next to the stream.
    pub next: int,
    /// Whether the stream goes by what happens, and not by the history.
    pub following: bool,
}

/// A stream that starts behind `cursor`, and that hears what happens from the event `next` on.
pub open spec fn opened(cursor: Option<Seq<char>>, next: int) -> StreamState {
    StreamState { last: cursor, sent: Seq::empty(), deltas: 0, next, following: false }
}

/// Whether something can come to a stream. Events are in the log before they happen to a stream, so
/// a reading of the history does not end before it has brought those that the stream will not hear
/// of any more.
pub open spec fn can_come(log: Seq<Seq<char>>, state: StreamState, turn: StreamTurn) -> bool {
    match turn {
        StreamTurn::History => !state.following && count_upto(log, state.last) < log.len(),
        StreamTurn::HistoryDone => !state.following && state.next <= count_upto(log, state.last),
        StreamTurn::Live => state.following && state.next < log.len(),
        StreamTurn::Delta => state.following,
        StreamTurn::Lag { to } => state.following && state.next <= to <= log.len(),
    }
}

/// A stream after one turn.
pub open spec fn turned(
    log: Seq<Seq<char>>,
    transient: bool,
    state: StreamState,
    turn: StreamTurn,
) -> StreamState {
    match turn {
        StreamTurn::History => {
            let event_id = log[count_upto(log, state.last)];
            let (step, last) = fed_history(state.last, ScanModel::Event(event_id));
            StreamState {
                last,
                sent: if step == ScanStep::Send {
                    state.sent.push(event_id)
                } else {
                    state.sent
                },
                ..state
            }
        },
        StreamTurn::HistoryDone => {
            let (step, last) = fed_history(state.last, ScanModel::Done);
            StreamState { last, following: step == ScanStep::Follow, ..state }
        },
        StreamTurn::Live => {
            let event_id = log[state.next];
            let (step, last) = fed_live(state.last, transient, LiveModel::Durable(event_id));
            StreamState {
                last,
                sent: if step == FeedStep::Send {
                    state.sent.push(event_id)
                } else {
                    state.sent
                },
                next: state.next + 1,
                ..state
            }
        },
        StreamTurn::Delta => {
            let (step, last) = fed_live(state.last, transient, LiveModel::TextDelta);
            StreamState {
                last,
                deltas: if step == FeedStep::Send {
                    state.deltas + 1
                } else {
                    state.deltas
                },
                ..state
            }
        },
        StreamTurn::Lag { to } => {
            let (step, last) = fed_live(state.last, transient, LiveModel::Lagged);
            StreamState { last, next: to, following: step != FeedStep::CatchUp, ..state }
        },
    }
}

/// A stream after all turns.
pub open spec fn streamed(
    log: Seq<Seq<char>>,
    transient: bool,
    state: StreamState,
    turns: Seq<StreamTurn>,
) -> StreamState
    decreases turns.len(),
{
    if turns.len() == 0 {
        state
    } else {
        turned(log, transient, streamed(log, transient, state, turns.drop_last()), turns.last())
    }
}

/// Whether all turns can come, one after the other.
pub open spec fn all_can_come(
    log: Seq<Seq<char>>,
    transient: bool,
    state: StreamState,
    turns: Seq<StreamTurn>,
) -> bool
    decreases turns.len(),
{
    turns.len() == 0 || (all_can_come(log, transient, state, turns.drop_last()) && can_come(
        log,
        streamed(log, transient, state, turns.drop_last()),
        turns.last(),
    ))
}

/// What `count_upto` counts.
proof fn lemma_count(log: Seq<Seq<char>>, last: Option<Seq<char>>)
    requires
        ascending(log),
    ensures
        0 <= count_upto(log, last) <= log.len(),
        last is None ==> count_upto(log, last) == 0,
        last is Some ==> forall|i: int|
            0 <= i < count_upto(log, last) ==> !text_less(last->0, #[trigger] log[i]),
        last is Some ==> forall|i: int|
            count_upto(log, last) <= i < log.len() ==> text_less(last->0, #[trigger] log[i]),
    decreases log.len(),
{
    if log.len() > 0 && last is Some {
        let rest = log.drop_last();
        assert forall|i: int, j: int| 0 <= i < j < rest.len() implies text_less(
            #[trigger] rest[i],
            #[trigger] rest[j],
        ) by {
            assert(text_less(log[i], log[j]));
        }
        lemma_count(rest, last);
        if !text_less(last->0, log.last()) {
            assert forall|i: int| 0 <= i < log.len() implies !text_less(
                last->0,
                #[trigger] log[i],
            ) by {
                if i < log.len() - 1 && text_less(last->0, log[i]) {
                    less_transitive(last->0, log[i], log[log.len() - 1]);
                }
            }
        } else {
            assert forall|i: int| 0 <= i < count_upto(log, last) implies !text_less(
                last->0,
                #[trigger] log[i],
            ) by {
                assert(rest[i] == log[i]);
            }
            assert forall|i: int| count_upto(log, last) <= i < log.len() implies text_less(
                last->0,
                #[trigger] log[i],
            ) by {
                if i < rest.len() {
                    assert(rest[i] == log[i]);
                }
            }
        }
    }
}

/// Behind an event of the log are those that follow it.
proof fn lemma_count_at(log: Seq<Seq<char>>, at: int)
    requires
        ascending(log),
        0 <= at < log.len(),
    ensures
        count_upto(log, Some(log[at])) == at + 1,
{
    let count = count_upto(log, Some(log[at]));
    lemma_count(log, Some(log[at]));
    less_total(log[at], log[at]);
    if count < at + 1 {
        assert(text_less(log[at], log[at]));
    } else if count > at + 1 {
        assert(text_less(log[at], log[at + 1]));
    }
}

/// What holds of a stream all the time.
spec fn in_step(
    log: Seq<Seq<char>>,
    transient: bool,
    cursor: Option<Seq<char>>,
    state: StreamState,
) -> bool {
    &&& count_upto(log, cursor) <= count_upto(log, state.last)
    &&& state.sent == log.subrange(count_upto(log, cursor), count_upto(log, state.last))
    &&& 0 <= state.next <= log.len()
    &&& state.following ==> state.next <= count_upto(log, state.last)
    &&& state.deltas > 0 ==> transient
}

proof fn lemma_turn(
    log: Seq<Seq<char>>,
    transient: bool,
    cursor: Option<Seq<char>>,
    state: StreamState,
    turn: StreamTurn,
)
    requires
        ascending(log),
        in_step(log, transient, cursor, state),
        can_come(log, state, turn),
    ensures
        in_step(log, transient, cursor, turned(log, transient, state, turn)),
{
    lemma_count(log, cursor);
    lemma_count(log, state.last);
    let count = count_upto(log, state.last);
    let from = count_upto(log, cursor);
    match turn {
        StreamTurn::History => {
            lemma_count_at(log, count);
            assert(state.sent.push(log[count]) =~= log.subrange(from, count + 1));
        },
        StreamTurn::Live => {
            if state.next == count {
                lemma_count_at(log, count);
                assert(state.sent.push(log[count]) =~= log.subrange(from, count + 1));
            }
        },
        _ => {},
    }
}

proof fn lemma_turns(
    log: Seq<Seq<char>>,
    transient: bool,
    cursor: Option<Seq<char>>,
    next: int,
    turns: Seq<StreamTurn>,
)
    requires
        ascending(log),
        0 <= next <= log.len(),
        all_can_come(log, transient, opened(cursor, next), turns),
    ensures
        in_step(
            log,
            transient,
            cursor,
            streamed(log, transient, opened(cursor, next), turns),
        ),
    decreases turns.len(),
{
    let start = opened(cursor, next);
    if turns.len() == 0 {
        lemma_count(log, cursor);
        assert(start.sent =~= log.subrange(count_upto(log, cursor), count_upto(log, cursor)));
    } else {
        lemma_turns(log, transient, cursor, next, turns.drop_last());
        lemma_turn(
            log,
            transient,
            cursor,
            streamed(log, transient, start, turns.drop_last()),
            turns.last(),
        );
    }
}

/// However history, events, lags and readings of what was missed follow one another, a stream that
/// starts behind `cursor` has sent at any time the first so many events of the log behind the
/// cursor, in order and each once, up to the last that it knows. Once it follows what happens and
/// has heard the last event it has sent all of them. Pieces of text are sent only if they were asked
/// for.
pub proof fn streams_lose_and_repeat_nothing(
    log: Seq<Seq<char>>,
    transient: bool,
    cursor: Option<Seq<char>>,
    next: int,
    turns: Seq<StreamTurn>,
)
    requires
        ascending(log),
        0 <= next <= log.len(),
        all_can_come(log, transient, opened(cursor, next), turns),
    ensures
        ({
            let state = streamed(log, transient, opened(cursor, next), turns);
            let from = count_upto(log, cursor);
            &&& 0 <= from <= from + state.sent.len() <= log.len()
            &&& state.sent == log.subrange(from, from + state.sent.len())
            &&& from + state.sent.len() == count_upto(log, state.last)
            &&& state.following && state.next == log.len() ==> state.sent == log.skip(from)
            &&& ascending(state.sent)
            &&& cursor is Some ==> forall|i: int|
                0 <= i < state.sent.len() ==> text_less(cursor->0, #[trigger] state.sent[i])
            &&& state.deltas > 0 ==> transient
        }),
{
    let state = streamed(log, transient, opened(cursor, next), turns);
    lemma_turns(log, transient, cursor, next, turns);
    lemma_count(log, cursor);
    lemma_count(log, state.last);
    let from = count_upto(log, cursor);
    assert forall|i: int, j: int| 0 <= i < j < state.sent.len() implies text_less(
        #[trigger] state.sent[i],
        #[trigger] state.sent[j],
    ) by {
        assert(text_less(log[from + i], log[from + j]));
    }
    if cursor is Some {
        assert forall|i: int| 0 <= i < state.sent.len() implies text_less(
            cursor->0,
            #[trigger] state.sent[i],
        ) by {
            assert(state.sent[i] == log[from + i]);
        }
    }
}

/// The identities of events.
pub open spec fn event_ids(events: Seq<EnvelopeModel>) -> Seq<Seq<char>> {
    events.map_values(|event: EnvelopeModel| event.event_id)
}

/// What a session shows of its log is in the order of the identities, as streams need it.
pub proof fn histories_are_ascending(id: Seq<char>, events: Seq<EnvelopeModel>)
    requires
        is_log(id, events),
    ensures
        ascending(event_ids(visible(events))),
{
    let ids = event_ids(visible(events));
    assert forall|i: int, j: int| 0 <= i < j < ids.len() implies text_less(
        #[trigger] ids[i],
        #[trigger] ids[j],
    ) by {
        let b = lemma_visible_index(events, j);
        let head = events.take(b);
        assert(visible(head)[i] == visible(events)[i]);
        let a = lemma_visible_index(head, i);
        assert(events[a] == visible(events)[i]);
        identities_sort_by_sequence(ulid_of(id)->0, (a + 1) as nat, (b + 1) as nat);
    }
}

/// The event of a history that a message comes from.
proof fn lemma_row_event(events: Seq<EnvelopeModel>, k: int) -> (at: int)
    requires
        0 <= k < rows_of(events).len(),
    ensures
        0 <= at < events.len(),
        events[at].event_id == rows_of(events)[k].event_id,
        rows_of(events.take(at)) == rows_of(events).take(k),
    decreases events.len(),
{
    let rest = events.drop_first();
    match event_message(events[0].event) {
        Some(message) => {
            let row = RowModel { event_id: events[0].event_id, message };
            if k == 0 {
                assert(events.take(0) =~= Seq::<EnvelopeModel>::empty());
                assert(rows_of(events).take(0) =~= Seq::<RowModel>::empty());
                0
            } else {
                let at = lemma_row_event(rest, k - 1);
                let head = events.take(at + 1);
                assert(head.drop_first() =~= rest.take(at));
                assert(seq![row] + rows_of(rest).take(k - 1) =~= (seq![row] + rows_of(rest)).take(
                    k,
                ));
                at + 1
            }
        },
        None => {
            let at = lemma_row_event(rest, k);
            let head = events.take(at + 1);
            assert(head.drop_first() =~= rest.take(at));
            at + 1
        },
    }
}

/// The messages of the page before `cursor`, or of the last page.
pub open spec fn page_rows(
    log: Seq<EnvelopeModel>,
    cursor: Option<Seq<char>>,
    limit: nat,
) -> Seq<RowModel> {
    match shown_before(log, cursor) {
        Some(events) => last_rows(rows_of(events), limit),
        None => Seq::empty(),
    }
}

/// The cursor that a page names.
pub open spec fn older_cursor(rows: Seq<RowModel>, limit: nat) -> Option<Seq<char>> {
    if rows.len() == limit && rows.len() > 0 {
        Some(rows[0].event_id)
    } else {
        None
    }
}

/// Where the history that a page is taken from ends.
pub open spec fn page_end(log: Seq<EnvelopeModel>, cursor: Option<Seq<char>>) -> int {
    match cursor {
        None => log.len() as int,
        Some(cursor) => match position(log, cursor) {
            Some(at) => at,
            None => 0,
        },
    }
}

/// What a reader gets who follows `older_cursor` until it is absent, and puts each page in front of
/// the ones that it has.
pub open spec fn followed_messages(
    log: Seq<EnvelopeModel>,
    cursor: Option<Seq<char>>,
    limit: nat,
) -> Seq<RowModel>
    decreases page_end(log, cursor),
{
    let rows = page_rows(log, cursor, limit);
    match older_cursor(rows, limit) {
        None => rows,
        Some(older) => if 0 <= page_end(log, Some(older)) < page_end(log, cursor) {
            followed_messages(log, Some(older), limit) + rows
        } else {
            rows
        },
    }
}

/// A reader who follows `older_cursor` until it is absent, with pages of any size, gets every
/// message of the session before the point where it started, each once and in the order of the log.
/// No page holds more than the limit; a page names an older one exactly where it is full, by an
/// event of the session.
pub proof fn following_cursors_gives_every_message(
    id: Seq<char>,
    log: Seq<EnvelopeModel>,
    cursor: Option<Seq<char>>,
    limit: nat,
)
    requires
        is_log(id, log),
        limit > 0,
        shown_before(log, cursor) is Some,
    ensures
        followed_messages(log, cursor, limit) == rows_of(shown_before(log, cursor)->0),
        page_rows(log, cursor, limit).len() <= limit,
        older_cursor(page_rows(log, cursor, limit), limit) is Some <==> page_rows(
            log,
            cursor,
            limit,
        ).len() == limit,
        older_cursor(page_rows(log, cursor, limit), limit) matches Some(older) ==> read_fault(
            id,
            Some(older),
        ) is None && shown_before(log, Some(older)) is Some,
    decreases page_end(log, cursor),
{
    lemma_position_in_range(log, cursor);
    let end = page_end(log, cursor);
    assert(log.take(log.len() as int) =~= log);
    let shown = visible(log.take(end));
    assert(shown_before(log, cursor) == Some(shown));
    let all = rows_of(shown);
    let rows = page_rows(log, cursor, limit);
    if let Some(older) = older_cursor(rows, limit) {
        let k = all.len() - limit;
        assert(rows[0] == all[k]);
        let i = lemma_row_event(shown, k);
        let at = lemma_visible_index(log.take(end), i);
        assert(log.take(end).take(at) =~= log.take(at));
        events_are_found_by_identity(id, log, at);
        assert(page_end(log, Some(older)) == at);
        following_cursors_gives_every_message(id, log, Some(older), limit);
        assert(all.take(k) + rows =~= all);
    }
}

/// A piece of text as the stream sends it.
pub fn text_delta_data(session_id: &str, generation: u64, step_id: &str, text: &str) -> (r: String)
    ensures
        r@ == json_text(
            JsonModel::Object(
                no_fields().push(("session_id"@, JsonModel::Text(session_id@))).push(
                    ("generation"@, JsonModel::Unsigned(generation)),
                ).push(("step_id"@, JsonModel::Text(step_id@))).push(
                    ("text"@, JsonModel::Text(text@)),
                ),
            ),
        ),
{
    let object = JsonObject::new().with("session_id", Json::text(session_id)).with(
        "generation",
        Json::unsigned(generation),
    ).with("step_id", Json::text(step_id)).with("text", Json::text(text)).done();
    compact_text(&object)
}

/// Whether an event is told as a message: an input, a step of the conversation that says something,
/// or the result of a tool.
pub open spec fn is_told(event: EnvelopeModel) -> bool {
    match event.event.payload {
        PayloadModel::Entry { public: PublicEventModel::Input { .. }, .. } => true,
        PayloadModel::Entry {
            public: PublicEventModel::Step { assistant_text, conversation },
            ..
        } => conversation && assistant_text.len() > 0,
        PayloadModel::Entry { public: PublicEventModel::ToolResult { .. }, .. } => true,
        _ => false,
    }
}

/// Whether a message tells an event: an input as it came, in the role of the mailbox; the text of a
/// step, in the role of the assistant; what a tool returned, in the role of the tool, a text as it
/// is and any other value as JSON, with the outcome in front of it where the tool did not succeed.
pub open spec fn tells(row: RowModel, event: EnvelopeModel) -> bool {
    &&& row.event_id == event.event_id
    &&& row.message.kind == MessageKind::Message
    &&& event.event.payload matches PayloadModel::Entry { public, .. } && match public {
        PublicEventModel::Input { content } => {
            &&& row.message.role == PublicRole::Mailbox
            &&& row.message.content == content
        },
        PublicEventModel::Step { assistant_text, .. } => {
            &&& row.message.role == PublicRole::Assistant
            &&& row.message.content == assistant_text
        },
        PublicEventModel::ToolResult { outcome, data } => {
            let said = if data is Text {
                data->Text_0
            } else {
                json_text(data)
            };
            &&& row.message.role == PublicRole::Tool
            &&& outcome is Succeeded ==> row.message.content == said
            &&& outcome is Failed ==> row.message.content == "Failed: "@ + said
            &&& outcome is TimedOut ==> row.message.content == "TimedOut: "@ + said
            &&& outcome is Cancelled ==> row.message.content == "Cancelled: "@ + said
        },
        PublicEventModel::Other => false,
    }
}

/// The messages of a history are those of the events that are told, one for each and in their
/// order, and each tells its event. No message of the assistant is empty.
pub proof fn messages_tell_their_events(events: Seq<EnvelopeModel>)
    ensures
        ({
            let said = events.filter(|event: EnvelopeModel| is_told(event));
            let rows = rows_of(events);
            &&& rows.len() == said.len()
            &&& forall|i: int| 0 <= i < rows.len() ==> tells(#[trigger] rows[i], said[i])
            &&& forall|i: int|
                0 <= i < rows.len() && (#[trigger] rows[i]).message.role == PublicRole::Assistant
                    ==> rows[i].message.content.len() > 0
        }),
    decreases events.len(),
{
    let told = |event: EnvelopeModel| is_told(event);
    let said = events.filter(told);
    let rows = rows_of(events);
    reveal(Seq::filter);
    if events.len() == 0 {
    } else {
        let rest = events.drop_last();
        messages_tell_their_events(rest);
        lemma_rows_append(rest, seq![events.last()]);
        assert(rest + seq![events.last()] =~= events);
        let last = seq![events.last()];
        assert(last.drop_first() =~= Seq::empty());
        lemma_tells(events.last());
        assert(rows == rows_of(rest) + rows_of(last));
        assert(rows_of(Seq::<EnvelopeModel>::empty()).len() == 0);
        if is_told(events.last()) {
            assert(rows_of(last).len() == 1);
            assert forall|i: int| 0 <= i < rows.len() implies tells(#[trigger] rows[i], said[i]) by {
                if i < rows.len() - 1 {
                    assert(rows[i] == rows_of(rest)[i]);
                    assert(said[i] == rest.filter(told)[i]);
                }
            }
        } else {
            assert(rows =~= rows_of(rest));
        }
        assert forall|i: int|
            0 <= i < rows.len() && (#[trigger] rows[i]).message.role
                == PublicRole::Assistant implies rows[i].message.content.len() > 0 by {
            if i < rows_of(rest).len() {
                assert(rows[i] == rows_of(rest)[i]);
            }
        }
    }
}

proof fn lemma_tells(event: EnvelopeModel)
    ensures
        event_message(event.event) is Some <==> is_told(event),
        event_message(event.event) matches Some(message) ==> {
            &&& tells(RowModel { event_id: event.event_id, message }, event)
            &&& message.role == PublicRole::Assistant ==> message.content.len() > 0
        },
{
    reveal_strlit("Failed");
    reveal_strlit("TimedOut");
    reveal_strlit("Cancelled");
    reveal_strlit(": ");
    reveal_strlit("Failed: ");
    reveal_strlit("TimedOut: ");
    reveal_strlit("Cancelled: ");
    assert("Failed"@ + ": "@ =~= "Failed: "@);
    assert("TimedOut"@ + ": "@ =~= "TimedOut: "@);
    assert("Cancelled"@ + ": "@ =~= "Cancelled: "@);
}

/// A page holds 50 messages unless another number is asked for, and never more than 200.
pub proof fn pages_are_limited(asked: Option<usize>)
    ensures
        asked is None ==> page_limit(asked) == 50,
        asked matches Some(limit) && limit <= 200 ==> page_limit(asked) == asked->0,
        asked matches Some(limit) && limit > 200 ==> page_limit(asked) == 200,
{
}

/// The last page of a session tells the last of the events that are visible and told, up to the
/// limit, the newest at its end.
pub proof fn last_page_tells_the_newest(log: Seq<EnvelopeModel>, limit: nat)
    ensures
        ({
            let said = log.filter(
                |event: EnvelopeModel| event.event.visible && is_told(event),
            );
            let rows = page_rows(log, None, limit);
            &&& rows.len() == if said.len() < limit {
                said.len()
            } else {
                limit
            }
            &&& forall|i: int|
                0 <= i < rows.len() ==> tells(
                    #[trigger] rows[i],
                    said[said.len() - rows.len() + i],
                )
        }),
{
    messages_tell_their_events(visible(log));
    lemma_visible_told(log);
    let said = log.filter(|event: EnvelopeModel| event.event.visible && is_told(event));
    let all = rows_of(visible(log));
    let rows = page_rows(log, None, limit);
    assert forall|i: int| 0 <= i < rows.len() implies tells(
        #[trigger] rows[i],
        said[said.len() - rows.len() + i],
    ) by {
        assert(rows[i] == all[all.len() - rows.len() + i]);
    }
}

proof fn lemma_visible_told(log: Seq<EnvelopeModel>)
    ensures
        visible(log).filter(|event: EnvelopeModel| is_told(event)) == log.filter(
            |event: EnvelopeModel| event.event.visible && is_told(event),
        ),
    decreases log.len(),
{
    reveal(Seq::filter);
    if log.len() > 0 {
        lemma_visible_told(log.drop_last());
        if log.last().event.visible {
            assert(visible(log).drop_last() =~= visible(log.drop_last()));
        }
    }
}

/// A session that is not there is answered with 404, one that is busy with 429, one that goes away
/// with 409, a runtime that takes no more with 503, and a fault inside with 500.
pub proof fn faults_have_their_status(fault: SupervisorFault)
    ensures
        fault_answer(fault).0 == 404 <==> fault is NotFound,
        fault_answer(fault).0 == 429 <==> fault is SessionOverloaded,
        fault_answer(fault).0 == 409 <==> fault is Deleting,
        fault_answer(fault).0 == 503 <==> fault is GlobalOverloaded || fault is CircuitOpen,
        fault_answer(fault).0 == 500 <==> fault is Unavailable || fault is Runner || fault is Store
            || fault is Query,
        fault_answer(fault).1 == ApiErrorCode::SessionNotFound <==> fault is NotFound,
        fault_answer(fault).1 == ApiErrorCode::SessionOverloaded <==> fault is SessionOverloaded,
        fault_answer(fault).1 == ApiErrorCode::GlobalOverloaded <==> fault is GlobalOverloaded,
        fault_answer(fault).1 == ApiErrorCode::RunnerCircuitOpen <==> fault is CircuitOpen,
        fault_answer(fault).1 == ApiErrorCode::SessionDeleting <==> fault is Deleting,
        fault_answer(fault).1 == ApiErrorCode::SessionUnavailable <==> fault_answer(fault).0 == 500,
{
}

/// A reader who asks for a session that is not there is told so; one whose cursor is wrong is told
/// what is wrong with it; of a fault inside nothing is told. What is answered is an error.
pub proof fn readers_learn_what_is_wrong(
    fault: QueryFault,
    message: Seq<char>,
    not_found: Seq<char>,
)
    ensures
        ({
            let answer = query_answer(fault, message, not_found);
            &&& fault is InvalidSessionId || fault is Missing ==> answer.status == 404
                && answer.code == ApiErrorCode::SessionNotFound && answer.message == not_found
            &&& fault is InvalidCursor || fault is UnknownCursor ==> answer.status == 400
                && answer.code == ApiErrorCode::InvalidCursor && answer.message == message
            &&& fault is Other ==> answer.status == 500 && answer.code
                == ApiErrorCode::InternalError && answer.message == "internal error"@
        }),
        invalid_request(message).status == 422 && invalid_request(message).code
            == ApiErrorCode::InvalidRequest && invalid_request(message).message == message,
{
}

/// A session thinks exactly while a step runs, and waits exactly while none runs and a deadline
/// does. Only a session in which nothing goes on shows how its last turn ended, and tools that are
/// left of a cancelled turn do not keep it at work.
pub proof fn statuses_tell_what_goes_on(activity: SessionActivity)
    ensures
        ({
            let status = status_of_session(activity);
            let waits = activity.auto_wait || activity.wait_deadline;
            let idle = !activity.active_step && !waits && !activity.active_turn && (
            !activity.pending_tools || activity.last_turn_outcome == Some(TurnOutcome::Cancelled));
            &&& status is Thinking <==> activity.active_step
            &&& status is Waiting <==> !activity.active_step && waits
            &&& status is Working <==> !activity.active_step && !waits && !idle
            &&& status is Finished <==> idle && activity.last_turn_outcome == Some(
                TurnOutcome::Finished,
            )
            &&& status is Failed <==> idle && activity.last_turn_outcome == Some(
                TurnOutcome::Failed,
            )
            &&& status is Cancelled <==> idle && activity.last_turn_outcome == Some(
                TurnOutcome::Cancelled,
            )
            &&& status is Wait <==> idle && activity.last_turn_outcome is None
        }),
{
}

/// A stream ends when its session does or when its history cannot be read, and only then; one that
/// has lost events reads them in the history.
pub proof fn streams_end_with_their_session(
    last: Option<Seq<char>>,
    transient: bool,
    item: LiveModel,
    read: ScanModel,
)
    ensures
        fed_live(last, transient, item).0 is Close <==> item is Closed,
        fed_live(last, transient, item).0 is CatchUp <==> item is Lagged,
        fed_history(last, read).0 is Close <==> read is Failed || read is Lost,
        fed_history(last, read).0 is Follow <==> read is Done,
        item is TextDelta ==> (fed_live(last, transient, item).0 is Send <==> transient),
{
}

/// A session shows the selection that it has, and empty texts where it has none.
pub proof fn views_show_the_selection(selection: SessionSelection)
    ensures
        ({
            let shown = selection_or_empty(Some(selection));
            &&& shown.profile_id == selection.profile_id@
            &&& shown.model == selection.model@
            &&& shown.thinking == selection.thinking@
        }),
        selection_or_empty(None).profile_id.len() == 0,
        selection_or_empty(None).model.len() == 0,
        selection_or_empty(None).thinking.len() == 0,
{
}

/// A page shows its messages in their order, each with its role and its content. Where it is full it
/// names the event of its first message, before which the next page ends; else it is the last.
pub proof fn pages_show_their_messages(page: MessagePage, rows: Seq<RowModel>, limit: nat)
    requires
        shows_rows(page, rows, limit),
    ensures
        page.items@.len() == rows.len(),
        forall|i: int|
            0 <= i < rows.len() ==> {
                &&& (#[trigger] page.items@[i]).role == rows[i].message.role
                &&& page.items@[i].content@ == rows[i].message.content
                &&& page.items@[i].kind == rows[i].message.kind
            },
        rows.len() > 0 && rows.len() == limit ==> (page.older_cursor matches Some(cursor) && cursor@
            == rows[0].event_id),
        rows.len() == 0 || rows.len() != limit ==> page.older_cursor is None,
{
}

/// Whether a page of a session is one of the last events before the cursor that are visible and
/// told: the events before the cursor are all that stand before it in the log.
pub proof fn pages_end_before_the_cursor(
    id: Seq<char>,
    log: Seq<EnvelopeModel>,
    at: int,
    limit: nat,
)
    requires
        is_log(id, log),
        0 <= at < log.len(),
    ensures
        ({
            let said = log.take(at).filter(
                |event: EnvelopeModel| event.event.visible && is_told(event),
            );
            let rows = page_rows(log, Some(log[at].event_id), limit);
            &&& rows.len() == if said.len() < limit {
                said.len()
            } else {
                limit
            }
            &&& forall|i: int|
                0 <= i < rows.len() ==> tells(
                    #[trigger] rows[i],
                    said[said.len() - rows.len() + i],
                )
        }),
{
    events_are_found_by_identity(id, log, at);
    last_page_tells_the_newest(log.take(at), limit);
}

} // verus!
