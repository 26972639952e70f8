//! The events of sessions in memory: appended in batches, read back in commits and in pages.
use vstd::prelude::*;

use crate::event_id::{
    id_text, identity_round_trips, parsed, EventId, EventIdError, MAX_SEQUENCE,
};
use crate::identity::{parse_ulid, ulid_of};
use crate::json::{optional_str, optional_text, Json, JsonModel};
use crate::text::{less, same, text_less};
use crate::text_map::TextMap;
use crate::tools::ToolOutcome;

verus! {

/// An event, as far as a list of messages shows it.
#[derive(Debug)]
pub enum PublicEvent {
    Input { content: String },
    Step { assistant_text: String, conversation: bool },
    ToolResult { outcome: ToolOutcome, data: Json },
    Other,
}

pub enum PublicEventModel {
    Input { content: Seq<char> },
    Step { assistant_text: Seq<char>, conversation: bool },
    ToolResult { outcome: ToolOutcome, data: JsonModel },
    Other,
}

impl View for PublicEvent {
    type V = PublicEventModel;

    open spec fn view(&self) -> PublicEventModel {
        match *self {
            PublicEvent::Input { content } => PublicEventModel::Input { content: content@ },
            PublicEvent::Step { assistant_text, conversation } => PublicEventModel::Step {
                assistant_text: assistant_text@,
                conversation,
            },
            PublicEvent::ToolResult { outcome, data } => PublicEventModel::ToolResult {
                outcome,
                data: data@,
            },
            PublicEvent::Other => PublicEventModel::Other,
        }
    }
}

impl Clone for PublicEvent {
    fn clone(&self) -> (r: PublicEvent)
        ensures
            r@ == self@,
    {
        match self {
            PublicEvent::Input { content } => PublicEvent::Input { content: content.clone() },
            PublicEvent::Step { assistant_text, conversation } => PublicEvent::Step {
                assistant_text: assistant_text.clone(),
                conversation: *conversation,
            },
            PublicEvent::ToolResult { outcome, data } => PublicEvent::ToolResult {
                outcome: *outcome,
                data: data.clone(),
            },
            PublicEvent::Other => PublicEvent::Other,
        }
    }
}

/// What an event is about.
#[derive(Debug)]
pub enum EventPayload {
    /// The whole state of the session at that point.
    Snapshot { state_schema_version: u32, state: Json },
    /// Something that happened, and what of it is shown as a message.
    Entry { kind: String, body: Json, public: PublicEvent },
}

/// An event of a session. Visible ones are shown in its history.
#[derive(Debug)]
pub struct SessionEvent {
    pub visible: bool,
    pub payload: EventPayload,
}

pub enum PayloadModel {
    Snapshot { state_schema_version: u32, state: JsonModel },
    Entry { kind: Seq<char>, body: JsonModel, public: PublicEventModel },
}

/// What an event says.
pub struct EventModel {
    pub visible: bool,
    pub payload: PayloadModel,
}

impl View for SessionEvent {
    type V = EventModel;

    open spec fn view(&self) -> EventModel {
        EventModel {
            visible: self.visible,
            payload: match self.payload {
                EventPayload::Snapshot { state_schema_version, state } => PayloadModel::Snapshot {
                    state_schema_version,
                    state: state@,
                },
                EventPayload::Entry { kind, body, public } => PayloadModel::Entry {
                    kind: kind@,
                    body: body@,
                    public: public@,
                },
            },
        }
    }
}

impl Clone for SessionEvent {
    fn clone(&self) -> (r: SessionEvent)
        ensures
            r@ == self@,
    {
        SessionEvent {
            visible: self.visible,
            payload: match &self.payload {
                EventPayload::Snapshot { state_schema_version, state } => EventPayload::Snapshot {
                    state_schema_version: *state_schema_version,
                    state: state.clone(),
                },
                EventPayload::Entry { kind, body, public } => EventPayload::Entry {
                    kind: kind.clone(),
                    body: body.clone(),
                    public: public.clone(),
                },
            },
        }
    }
}

/// An event in the log: its identity, and its place in the batch that it was appended with.
#[derive(Debug)]
pub struct EventEnvelope {
    pub event_id: String,
    pub schema_version: u32,
    pub batch_index: u32,
    pub batch_count: u32,
    pub event: SessionEvent,
}

/// What an envelope holds.
pub struct EnvelopeModel {
    pub event_id: Seq<char>,
    pub schema_version: u32,
    pub batch_index: u32,
    pub batch_count: u32,
    pub event: EventModel,
}

impl View for EventEnvelope {
    type V = EnvelopeModel;

    open spec fn view(&self) -> EnvelopeModel {
        EnvelopeModel {
            event_id: self.event_id@,
            schema_version: self.schema_version,
            batch_index: self.batch_index,
            batch_count: self.batch_count,
            event: self.event@,
        }
    }
}

impl Clone for EventEnvelope {
    fn clone(&self) -> (r: EventEnvelope)
        ensures
            r@ == self@,
    {
        EventEnvelope {
            event_id: self.event_id.clone(),
            schema_version: self.schema_version,
            batch_index: self.batch_index,
            batch_count: self.batch_count,
            event: self.event.clone(),
        }
    }
}

pub open spec fn envelope_models(events: Seq<EventEnvelope>) -> Seq<EnvelopeModel> {
    events.map_values(|event: EventEnvelope| event@)
}

/// Copies of the events `from..to`.
fn clone_range(events: &Vec<EventEnvelope>, from: usize, to: usize) -> (r: Vec<EventEnvelope>)
    requires
        from <= to <= events.len(),
    ensures
        envelope_models(r@) == envelope_models(events@).subrange(from as int, to as int),
{
    let mut out: Vec<EventEnvelope> = Vec::new();
    let mut i: usize = from;
    while i < to
        invariant
            from <= i <= to <= events.len(),
            out@.len() == i - from,
            forall|j: int| 0 <= j < i - from ==> (#[trigger] out@[j])@ == events@[from + j]@,
        decreases to - i,
    {
        out.push(events[i].clone());
        i = i + 1;
    }
    proof {
        assert(envelope_models(out@) =~= envelope_models(events@).subrange(
            from as int,
            to as int,
        ));
    }
    out
}

/// The events of one batch, all of them.
#[derive(Debug)]
pub struct Commit {
    pub events: Vec<EventEnvelope>,
}

impl View for Commit {
    type V = Seq<EnvelopeModel>;

    open spec fn view(&self) -> Seq<EnvelopeModel> {
        envelope_models(self.events@)
    }
}

pub open spec fn commit_models(commits: Seq<Commit>) -> Seq<Seq<EnvelopeModel>> {
    commits.map_values(|commit: Commit| commit@)
}

/// Whether `events` are one batch: numbered through, and all of the same length.
pub open spec fn is_batch(events: Seq<EnvelopeModel>) -> bool {
    forall|i: int|
        0 <= i < events.len() ==> (#[trigger] events[i]).batch_count == events.len()
            && events[i].batch_index == i
}

/// The batches at the start of `events` that are complete; the first that is not ends the list.
pub open spec fn commits_of(events: Seq<EnvelopeModel>) -> Seq<Seq<EnvelopeModel>>
    decreases events.len(),
{
    if events.len() == 0 {
        Seq::empty()
    } else {
        let count = events[0].batch_count as int;
        if count == 0 || count > events.len() || !is_batch(events.take(count)) {
            Seq::empty()
        } else {
            seq![events.take(count)] + commits_of(events.skip(count))
        }
    }
}

/// The commits that `events` start with.
pub fn complete_commits(events: &Vec<EventEnvelope>) -> (r: Vec<Commit>)
    ensures
        commit_models(r@) == commits_of(envelope_models(events@)),
{
    let ghost all = envelope_models(events@);
    let mut commits: Vec<Commit> = Vec::new();
    let mut index: usize = 0;
    proof {
        assert(all.skip(0) =~= all);
        assert(commit_models(commits@) + commits_of(all) =~= commits_of(all));
    }
    while index < events.len()
        invariant
            index <= events.len(),
            all == envelope_models(events@),
            commits_of(all) == commit_models(commits@) + commits_of(all.skip(index as int)),
        decreases events.len() - index,
    {
        let ghost rest = all.skip(index as int);
        let count: usize = events[index].batch_count as usize;
        if count == 0 || count > events.len() - index {
            proof {
                assert(commits_of(rest) =~= Seq::<Seq<EnvelopeModel>>::empty());
                assert(commit_models(commits@) + Seq::<Seq<EnvelopeModel>>::empty()
                    =~= commit_models(commits@));
            }
            return commits;
        }
        let mut i: usize = 0;
        while i < count
            invariant
                i <= count,
                0 < count <= events.len() - index,
                index <= events.len(),
                all == envelope_models(events@),
                rest == all.skip(index as int),
                count == rest[0].batch_count,
                commits_of(all) == commit_models(commits@) + commits_of(rest),
                forall|j: int|
                    0 <= j < i ==> (#[trigger] rest[j]).batch_count == count
                        && rest[j].batch_index == j,
            decreases count - i,
        {
            proof {
                assert(rest[i as int] == events@[index + i]@);
            }
            if events[index + i].batch_count as usize != count || events[index
                + i].batch_index as usize != i {
                proof {
                    assert(rest.take(count as int)[i as int] == rest[i as int]);
                    assert(!is_batch(rest.take(count as int)));
                    assert(commits_of(rest) =~= Seq::<Seq<EnvelopeModel>>::empty());
                    assert(commit_models(commits@) + Seq::<Seq<EnvelopeModel>>::empty()
                        =~= commit_models(commits@));
                }
                return commits;
            }
            i = i + 1;
        }
        let batch = Commit { events: clone_range(events, index, index + count) };
        proof {
            assert(batch@ =~= rest.take(count as int));
            assert forall|j: int| 0 <= j < count implies (#[trigger] rest.take(
                count as int,
            )[j]).batch_count == count && rest.take(count as int)[j].batch_index == j by {
                assert(rest.take(count as int)[j] == rest[j]);
            }
            assert(is_batch(rest.take(count as int)));
            assert(rest.skip(count as int) =~= all.skip(index + count));
        }
        let ghost before = commit_models(commits@);
        commits.push(batch);
        proof {
            assert(commit_models(commits@) =~= before.push(rest.take(count as int)));
            assert(before + (seq![rest.take(count as int)] + commits_of(
                rest.skip(count as int),
            )) =~= before.push(rest.take(count as int)) + commits_of(rest.skip(count as int)));
        }
        index = index + count;
    }
    proof {
        assert(all.skip(index as int) =~= Seq::<EnvelopeModel>::empty());
        assert(commit_models(commits@) + Seq::<Seq<EnvelopeModel>>::empty() =~= commit_models(
            commits@,
        ));
    }
    commits
}

/// The events of commits in a row.
pub open spec fn flattened(commits: Seq<Seq<EnvelopeModel>>) -> Seq<EnvelopeModel>
    decreases commits.len(),
{
    if commits.len() == 0 {
        Seq::empty()
    } else {
        commits[0] + flattened(commits.drop_first())
    }
}

/// Whether a log consists of complete batches.
pub open spec fn is_whole(events: Seq<EnvelopeModel>) -> bool {
    flattened(commits_of(events)) == events
}

/// Why a session log could not be written.
#[derive(Debug)]
pub enum StoreError {
    InvalidSessionId(String),
    BatchTooLarge,
    SessionNotFound(String),
    EventId(EventIdError),
    Io(String),
}

/// Why a session log could not be read.
#[derive(Debug)]
pub enum QueryError {
    InvalidSessionId(String),
    SessionNotFound(String),
    InvalidCursor(String),
    UnknownCursor(String),
}

#[derive(Debug)]
pub struct MemorySession {
    pub events: Vec<EventEnvelope>,
    pub last_activity: i64,
}

/// A gate at which appends can be held up.
#[derive(Debug)]
pub struct AppendGate {
    paused: bool,
    blocked: usize,
    release_error: Option<String>,
}

/// Whether appends are held up, how many wait, and what the next one fails with.
pub struct GateModel {
    pub paused: bool,
    pub blocked: usize,
    pub release_error: Option<Seq<char>>,
}

impl View for AppendGate {
    type V = GateModel;

    closed spec fn view(&self) -> GateModel {
        GateModel {
            paused: self.paused,
            blocked: self.blocked,
            release_error: optional_text(self.release_error),
        }
    }
}

/// A gate that lets everything through.
pub open spec fn open_gate() -> GateModel {
    GateModel { paused: false, blocked: 0, release_error: None }
}

/// A gate after an append has passed: what it failed with fails no other.
pub open spec fn passed(gate: GateModel) -> GateModel {
    GateModel { release_error: None, ..gate }
}

/// A gate after a pause was released with an error.
pub open spec fn released_with(gate: GateModel, message: Seq<char>) -> GateModel {
    GateModel { paused: false, release_error: Some(message), ..gate }
}

impl AppendGate {
    pub fn new() -> (r: AppendGate)
        ensures
            r@ == open_gate(),
    {
        AppendGate { paused: false, blocked: 0, release_error: None }
    }

    /// Whether appends are held up.
    pub fn is_paused(&self) -> (r: bool)
        ensures
            r == self@.paused,
    {
        self.paused
    }

    /// How many appends wait.
    pub fn blocked(&self) -> (r: usize)
        ensures
            r == self@.blocked,
    {
        self.blocked
    }

    /// Holds up appends.
    pub fn pause(&mut self)
        ensures
            final(self)@ == (GateModel { paused: true, ..old(self)@ }),
    {
        self.paused = true;
    }

    /// Lets appends through again.
    pub fn release(&mut self)
        ensures
            final(self)@ == (GateModel { paused: false, ..old(self)@ }),
    {
        self.paused = false;
    }

    /// Lets appends through again; the first one fails with `message`.
    pub fn release_with_error(&mut self, message: &str)
        ensures
            final(self)@ == released_with(old(self)@, message@),
    {
        self.release_error = Some(message.to_owned());
        self.paused = false;
    }

    /// Counts an append that waits.
    pub fn block(&mut self)
        ensures
            final(self)@ == (GateModel {
                blocked: if old(self)@.blocked < usize::MAX {
                    (old(self)@.blocked + 1) as usize
                } else {
                    usize::MAX
                },
                ..old(self)@
            }),
    {
        if self.blocked < usize::MAX {
            self.blocked = self.blocked + 1;
        }
    }

    /// Counts an append that waits no more.
    pub fn unblock(&mut self)
        ensures
            final(self)@ == (GateModel {
                blocked: if old(self)@.blocked > 0 {
                    (old(self)@.blocked - 1) as usize
                } else {
                    0
                },
                ..old(self)@
            }),
    {
        if self.blocked > 0 {
            self.blocked = self.blocked - 1;
        }
    }

    /// Lets one append pass. It fails with the error that a pause was released with, which then
    /// fails no other.
    pub fn take_release(&mut self) -> (r: Result<(), StoreError>)
        ensures
            final(self)@ == passed(old(self)@),
            match r {
                Ok(_) => old(self)@.release_error is None,
                Err(StoreError::Io(message)) => old(self)@.release_error == Some(message@),
                Err(_) => false,
            },
    {
        match self.release_error.take() {
            Some(message) => Err(StoreError::Io(message)),
            None => Ok(()),
        }
    }
}

/// Holds up the appends of a store while it is there.
#[derive(Debug)]
pub struct AppendPause {
    released: bool,
}

impl AppendPause {
    pub closed spec fn is_released(&self) -> bool {
        self.released
    }

    /// Ends the pause; the first append that passes then fails with `message`.
    pub fn release_with_error(self, store: &mut MemorySessionStore, message: &str)
        requires
            old(store).well_formed(),
        ensures
            final(store).well_formed(),
            final(store).gate() == released_with(old(store).gate(), message@),
            same_contents(*old(store), *final(store)),
    {
        store.gate.release_with_error(message);
    }

    /// Ends the pause, if it has not ended.
    pub fn finish(&mut self, store: &mut MemorySessionStore)
        requires
            old(store).well_formed(),
        ensures
            final(self).is_released(),
            final(store).well_formed(),
            final(store).gate() == (GateModel {
                paused: old(store).gate().paused && old(self).is_released(),
                ..old(store).gate()
            }),
            same_contents(*old(store), *final(store)),
    {
        if !self.released {
            store.gate.release();
            self.released = true;
        }
    }
}

/// The sessions of a store, in memory.
#[derive(Debug)]
pub struct MemorySessionStore {
    sessions: TextMap<MemorySession>,
    next_activity: i64,
    schema_version: u32,
    gate: AppendGate,
}

/// The envelopes of a batch that is appended to a log of `base` events.
pub open spec fn batch(
    session: u128,
    schema_version: u32,
    base: nat,
    events: Seq<EventModel>,
) -> Seq<EnvelopeModel> {
    Seq::new(
        events.len(),
        |i: int|
            EnvelopeModel {
                event_id: id_text(session, (base + i + 1) as nat),
                schema_version,
                batch_index: i as u32,
                batch_count: events.len() as u32,
                event: events[i],
            },
    )
}

pub open spec fn event_models(events: Seq<SessionEvent>) -> Seq<EventModel> {
    events.map_values(|event: SessionEvent| event@)
}

/// The number of the next append.
pub open spec fn next_append(appends: i64) -> i64 {
    if appends < i64::MAX {
        (appends + 1) as i64
    } else {
        appends
    }
}

/// Whether a session is the same in two stores.
pub open spec fn same_session(
    before: MemorySessionStore,
    after: MemorySessionStore,
    id: Seq<char>,
) -> bool {
    &&& after.log(id) == before.log(id)
    &&& after.has_session(id) == before.has_session(id)
    &&& before.has_session(id) ==> after.activity(id) == before.activity(id)
}

/// Whether two stores hold the same.
pub open spec fn same_contents(before: MemorySessionStore, after: MemorySessionStore) -> bool {
    &&& after.version() == before.version()
    &&& after.appends() == before.appends()
    &&& forall|id: Seq<char>| same_session(before, after, id)
}

impl MemorySessionStore {
    /// The log of a session; empty where there is none.
    pub closed spec fn log(&self, session_id: Seq<char>) -> Seq<EnvelopeModel> {
        if self.sessions@.contains_key(session_id) {
            envelope_models(self.sessions@[session_id].events@)
        } else {
            Seq::empty()
        }
    }

    /// Whether there is a session of that name.
    pub closed spec fn has_session(&self, session_id: Seq<char>) -> bool {
        self.sessions@.contains_key(session_id)
    }

    /// When a session was last appended to, in appends of the whole store.
    pub closed spec fn activity(&self, session_id: Seq<char>) -> i64 {
        self.sessions@[session_id].last_activity
    }

    /// How many appends the store has taken; it stays at the largest number.
    pub closed spec fn appends(&self) -> i64 {
        self.next_activity
    }

    /// What holds up appends, or lets them through.
    pub closed spec fn gate(&self) -> GateModel {
        self.gate@
    }

    /// What the next append fails with.
    pub open spec fn failure(&self) -> Option<Seq<char>> {
        self.gate().release_error
    }

    pub closed spec fn version(&self) -> u32 {
        self.schema_version
    }

    /// Each log belongs to a session with a valid name, is the batches that were appended, and
    /// numbers its events through.
    pub closed spec fn well_formed(&self) -> bool {
        &&& self.sessions.well_formed()
        &&& forall|id: Seq<char>| #[trigger]
            self.sessions@.contains_key(id) ==> is_log(id, self.log(id))
                && self.sessions@[id].last_activity <= self.next_activity
        &&& self.next_activity >= 0
    }

    /// The log of a session is one.
    pub proof fn log_is_numbered(&self, session_id: Seq<char>)
        requires
            self.well_formed(),
            self.has_session(session_id),
        ensures
            is_log(session_id, self.log(session_id)),
    {
        assert(self.sessions@.contains_key(session_id));
    }

    pub fn new(schema_version: u32) -> (r: MemorySessionStore)
        ensures
            r.well_formed(),
            r.version() == schema_version,
            r.gate() == open_gate(),
            r.appends() == 0,
            forall|id: Seq<char>| !r.has_session(id) && r.log(id).len() == 0,
    {
        MemorySessionStore {
            sessions: TextMap::new(),
            next_activity: 0,
            schema_version,
            gate: AppendGate::new(),
        }
    }

    /// The events of a session.
    pub fn events(&self, session_id: &str) -> (r: Vec<EventEnvelope>)
        requires
            self.well_formed(),
        ensures
            envelope_models(r@) == self.log(session_id@),
    {
        match self.sessions.get(session_id) {
            Some(session) => {
                let all = clone_range(&session.events, 0, session.events.len());
                proof {
                    let whole = envelope_models(session.events@);
                    assert(whole.subrange(0, whole.len() as int) =~= whole);
                }
                all
            },
            None => {
                let none: Vec<EventEnvelope> = Vec::new();
                proof {
                    assert(envelope_models(none@) =~= Seq::<EnvelopeModel>::empty());
                }
                none
            },
        }
    }

    /// Holds up the appends of the store, which must not be held up already.
    pub fn pause_appends(&mut self) -> (r: AppendPause)
        requires
            old(self).well_formed(),
            !old(self).gate().paused,
        ensures
            final(self).well_formed(),
            final(self).gate() == (GateModel { paused: true, ..old(self).gate() }),
            same_contents(*old(self), *final(self)),
            !r.is_released(),
    {
        self.gate.pause();
        AppendPause { released: false }
    }

    /// How many appends wait for a pause to end.
    pub fn blocked_appends(&self) -> (r: usize)
        ensures
            r == self.gate().blocked,
    {
        self.gate.blocked()
    }

    /// Says whether an append has to wait, and counts it if it has. It waits until appends are
    /// held up no more.
    pub fn wait_for_append_permission(&mut self) -> (r: bool)
        requires
            old(self).well_formed(),
        ensures
            final(self).well_formed(),
            r == old(self).gate().paused,
            final(self).gate() == (GateModel {
                blocked: if !r {
                    old(self).gate().blocked
                } else if old(self).gate().blocked < usize::MAX {
                    (old(self).gate().blocked + 1) as usize
                } else {
                    usize::MAX
                },
                ..old(self).gate()
            }),
            same_contents(*old(self), *final(self)),
    {
        if !self.gate.is_paused() {
            return false;
        }
        self.gate.block();
        true
    }

    /// Counts an append that waits no more.
    pub fn append_resumes(&mut self)
        requires
            old(self).well_formed(),
        ensures
            final(self).well_formed(),
            final(self).gate() == (GateModel {
                blocked: if old(self).gate().blocked > 0 {
                    (old(self).gate().blocked - 1) as usize
                } else {
                    0
                },
                ..old(self).gate()
            }),
            same_contents(*old(self), *final(self)),
    {
        self.gate.unblock();
    }

    /// Appends a batch and returns it as it stands in the log. An error appends nothing. An append
    /// that is held up waits before.
    pub fn append_batch(&mut self, session_id: &str, events: &Vec<SessionEvent>) -> (r: Result<
        Vec<EventEnvelope>,
        StoreError,
    >)
        requires
            old(self).well_formed(),
            events.len() > 0 ==> !old(self).gate().paused,
        ensures
            final(self).well_formed(),
            is_append(*old(self), session_id@, event_models(events@), r, *final(self)),
    {
        if events.len() == 0 {
            let none: Vec<EventEnvelope> = Vec::new();
            return Ok(none);
        }
        if let Err(error) = self.gate.take_release() {
            return Err(error);
        }
        let session: u128 = match parse_ulid(session_id) {
            Some(session) => session,
            None => {
                return Err(StoreError::InvalidSessionId(session_id.to_owned()));
            },
        };
        if events.len() as u64 > u32::MAX as u64 {
            return Err(StoreError::BatchTooLarge);
        }
        let base: usize = match self.sessions.get(session_id) {
            Some(session) => session.events.len(),
            None => 0,
        };
        let ghost before = self.log(session_id@);
        proof {
            if self.has_session(session_id@) {
                self.log_is_numbered(session_id@);
            }
        }
        let ghost added = batch(
            session,
            self.schema_version,
            before.len(),
            event_models(events@),
        );
        let mut appended: Vec<EventEnvelope> = Vec::new();
        let mut copies: Vec<EventEnvelope> = Vec::new();
        let mut i: usize = 0;
        while i < events.len()
            invariant
                i <= events.len(),
                0 < events.len() <= u32::MAX,
                base == before.len(),
                base <= MAX_SEQUENCE,
                self.schema_version == old(self).schema_version,
                added == batch(session, old(self).schema_version, before.len(), event_models(events@)),
                appended@.len() == i,
                copies@.len() == i,
                forall|j: int|
                    0 <= j < i ==> (#[trigger] appended@[j])@ == added[j] && copies@[j]@ == added[j],
                base + i <= MAX_SEQUENCE,
                self.sessions == old(self).sessions,
                self.next_activity == old(self).next_activity,
                self.gate() == passed(old(self).gate()),
                old(self).well_formed(),
                before == old(self).log(session_id@),
                old(self).failure() is None,
                ulid_of(session_id@) == Some(session),
            decreases events.len() - i,
        {
            let sequence: u64 = base as u64 + i as u64 + 1;
            let event_id = match EventId::from_sequence(session, sequence) {
                Ok(event_id) => event_id,
                Err(error) => {
                    return Err(StoreError::EventId(error));
                },
            };
            let envelope = EventEnvelope {
                event_id: event_id.as_str().to_owned(),
                schema_version: self.schema_version,
                batch_index: i as u32,
                batch_count: events.len() as u32,
                event: events[i].clone(),
            };
            proof {
                assert(event_models(events@)[i as int] == events@[i as int]@);
                assert(envelope@ == added[i as int]);
            }
            copies.push(envelope.clone());
            appended.push(envelope);
            i = i + 1;
        }
        proof {
            assert(envelope_models(appended@) =~= added);
            assert(envelope_models(copies@) =~= added);
        }
        if self.next_activity < i64::MAX {
            self.next_activity = self.next_activity + 1;
        }
        let mut all: Vec<EventEnvelope> = match self.sessions.remove(session_id) {
            Some(session) => session.events,
            None => Vec::new(),
        };
        proof {
            assert(envelope_models(all@) =~= before);
        }
        let ghost earlier = all@;
        all.append(&mut copies);
        proof {
            assert(envelope_models(all@) =~= before + added);
            lemma_batch(session, old(self).schema_version, before.len(), event_models(events@));
            assert(old(self).sessions@.contains_key(session_id@) ==> is_log(session_id@, before));
            lemma_log_grows(
                session_id@,
                session,
                old(self).schema_version,
                before,
                event_models(events@),
            );
        }
        let grown = MemorySession { events: all, last_activity: self.next_activity };
        let _ = self.sessions.insert(session_id, grown);
        proof {
            assert(self.sessions@.contains_key(session_id@));
            assert(self.sessions@[session_id@] == grown);
            assert forall|id: Seq<char>| id != session_id@ implies #[trigger] same_session(
                *old(self),
                *self,
                id,
            ) by {}
            assert forall|id: Seq<char>| #[trigger] self.sessions@.contains_key(id) implies is_log(
                id,
                self.log(id),
            ) && self.sessions@[id].last_activity <= self.next_activity by {
                if id != session_id@ {
                    assert(same_session(*old(self), *self, id));
                    assert(old(self).sessions@.contains_key(id));
                }
            }
        }
        Ok(appended)
    }
}

impl MemorySessionStore {
    /// Appends the state of a session as a batch of its own.
    pub fn append_snapshot(
        &mut self,
        session_id: &str,
        state_schema_version: u32,
        state: Json,
    ) -> (r: Result<EventEnvelope, StoreError>)
        requires
            old(self).well_formed(),
            !old(self).gate().paused,
        ensures
            final(self).well_formed(),
            final(self).version() == old(self).version(),
            final(self).gate() == passed(old(self).gate()),
            match r {
                Ok(envelope) => {
                    &&& old(self).failure() is None
                    &&& ulid_of(session_id@) is Some
                    &&& old(self).log(session_id@).len() < MAX_SEQUENCE
                    &&& envelope@ == (EnvelopeModel {
                        event_id: id_text(
                            ulid_of(session_id@)->0,
                            old(self).log(session_id@).len() + 1,
                        ),
                        schema_version: old(self).version(),
                        batch_index: 0,
                        batch_count: 1,
                        event: EventModel {
                            visible: false,
                            payload: PayloadModel::Snapshot { state_schema_version, state: state@ },
                        },
                    })
                    &&& final(self).has_session(session_id@)
                    &&& final(self).log(session_id@) == old(self).log(session_id@).push(envelope@)
                    &&& final(self).appends() == next_append(old(self).appends())
                    &&& final(self).activity(session_id@) == final(self).appends()
                },
                Err(error) => {
                    &&& append_fault(
                        error,
                        old(self).failure(),
                        session_id@,
                        old(self).log(session_id@).len(),
                        1,
                    )
                    &&& same_session(*old(self), *final(self), session_id@)
                    &&& final(self).appends() == old(self).appends()
                },
            },
            forall|id: Seq<char>|
                id != session_id@ ==> #[trigger] same_session(*old(self), *final(self), id),
    {
        let mut events: Vec<SessionEvent> = Vec::new();
        events.push(
            SessionEvent {
                visible: false,
                payload: EventPayload::Snapshot { state_schema_version, state },
            },
        );
        let ghost model = event_models(events@);
        match self.append_batch(session_id, &events) {
            Ok(list) => {
                let mut list = list;
                let ghost added = envelope_models(list@);
                proof {
                    assert(added.len() == 1);
                    assert(added[0] == list@[0]@);
                    assert(model[0] == events@[0]@);
                    assert(old(self).log(session_id@) + added =~= old(self).log(session_id@).push(
                        added[0],
                    ));
                }
                Ok(list.remove(0))
            },
            Err(error) => Err(error),
        }
    }
}

/// Whether an append of `events` to the log of `session_id` turns `before` into `after` and answers
/// with `r`. Where there is nothing to append nothing happens. Else the error of a release is taken;
/// events that are appended stand behind those of the log as a batch; and an error appends nothing.
pub open spec fn is_append(
    before: MemorySessionStore,
    session_id: Seq<char>,
    events: Seq<EventModel>,
    r: Result<Vec<EventEnvelope>, StoreError>,
    after: MemorySessionStore,
) -> bool {
    if events.len() == 0 {
        r is Ok && r->Ok_0@.len() == 0 && after == before
    } else {
        let base = before.log(session_id).len();
        &&& after.version() == before.version()
        &&& after.gate() == passed(before.gate())
        &&& match r {
            Ok(envelopes) => {
                let added = batch(ulid_of(session_id)->0, before.version(), base, events);
                &&& is_appended(before.failure(), session_id, base, events.len())
                &&& envelope_models(envelopes@) == added
                &&& after.has_session(session_id)
                &&& after.log(session_id) == before.log(session_id) + added
                &&& after.appends() == next_append(before.appends())
                &&& after.activity(session_id) == after.appends()
            },
            Err(error) => {
                &&& append_fault(error, before.failure(), session_id, base, events.len())
                &&& same_session(before, after, session_id)
                &&& after.appends() == before.appends()
            },
        }
        &&& forall|id: Seq<char>| id != session_id ==> #[trigger] same_session(before, after, id)
    }
}

/// An append: to which session, of which events, what was answered, and the store before and after.
pub struct AppendCall {
    pub before: MemorySessionStore,
    pub session_id: Seq<char>,
    pub events: Seq<EventModel>,
    pub result: Result<Vec<EventEnvelope>, StoreError>,
    pub after: MemorySessionStore,
}

/// Whether two stores differ at most in how many appends wait.
pub open spec fn same_but_for_waiting(a: MemorySessionStore, b: MemorySessionStore) -> bool {
    &&& same_contents(a, b)
    &&& b.gate() == (GateModel { blocked: b.gate().blocked, ..a.gate() })
}

/// Whether `calls` are made one after the other, the first on the store `start`. Between two of them
/// appends may begin or cease to wait.
pub open spec fn are_appends(start: MemorySessionStore, calls: Seq<AppendCall>) -> bool {
    &&& forall|i: int|
        0 <= i < calls.len() ==> is_append(
            (#[trigger] calls[i]).before,
            calls[i].session_id,
            calls[i].events,
            calls[i].result,
            calls[i].after,
        )
    &&& forall|i: int|
        0 <= i < calls.len() ==> same_but_for_waiting(
            #[trigger] store_ahead(start, calls, i),
            calls[i].before,
        )
}

/// The store that the calls ahead of the `i`th leave.
pub open spec fn store_ahead(
    start: MemorySessionStore,
    calls: Seq<AppendCall>,
    i: int,
) -> MemorySessionStore {
    if i == 0 {
        start
    } else {
        calls[i - 1].after
    }
}

/// Whether an append that has events goes as on a store that was never released with an error: it
/// is taken or refused for what it asks alone.
pub open spec fn goes_as_usual(call: AppendCall) -> bool {
    let base = call.before.log(call.session_id).len();
    match call.result {
        Ok(_) => is_appended(None, call.session_id, base, call.events.len()),
        Err(error) => append_fault(error, None, call.session_id, base, call.events.len()),
    }
}

/// After a pause was released with an error appends are held up no more, and of all appends, those
/// that waited and those that come later, the first that has events fails with the error and
/// appends nothing. All others go as usual; those without events append nothing and fail never.
pub proof fn released_error_fails_one_append(
    paused: GateModel,
    message: Seq<char>,
    released: MemorySessionStore,
    calls: Seq<AppendCall>,
    first: int,
)
    requires
        released.gate() == released_with(paused, message),
        are_appends(released, calls),
        0 <= first < calls.len(),
        calls[first].events.len() > 0,
        forall|i: int| 0 <= i < first ==> (#[trigger] calls[i]).events.len() == 0,
    ensures
        forall|i: int|
            0 <= i < calls.len() ==> !(#[trigger] calls[i]).before.gate().paused
                && !calls[i].after.gate().paused,
        calls[first].result matches Err(StoreError::Io(told)) && told@ == message,
        same_contents(calls[first].before, calls[first].after),
        forall|i: int|
            0 <= i < calls.len() && (#[trigger] calls[i]).events.len() > 0 && i != first
                ==> goes_as_usual(calls[i]),
        forall|i: int|
            0 <= i < calls.len() && (#[trigger] calls[i]).events.len() == 0 ==> calls[i].result is Ok
                && calls[i].after == calls[i].before,
{
    lemma_gates_of_appends(released, calls, first, calls.len() as int);
    let (before, after) = (calls[first].before, calls[first].after);
    assert(before.gate().release_error == Some(message));
    assert(same_contents(before, after)) by {
        assert forall|id: Seq<char>| #[trigger] same_session(before, after, id) by {
            if id != calls[first].session_id {
                assert(same_session(before, after, id));
            }
        }
    }
    assert forall|i: int| 0 <= i < calls.len() && (#[trigger] calls[i]).events.len() > 0 && i
        != first implies goes_as_usual(calls[i]) by {
        assert(calls[i].before.gate().release_error is None);
        assert(calls[i].before.failure() == None::<Seq<char>>);
    }
}

/// Appends are not held up, and the error is there until the first that has events has passed.
proof fn lemma_gates_of_appends(
    start: MemorySessionStore,
    calls: Seq<AppendCall>,
    first: int,
    count: int,
)
    requires
        are_appends(start, calls),
        !start.gate().paused,
        0 <= first < calls.len(),
        calls[first].events.len() > 0,
        forall|i: int| 0 <= i < first ==> (#[trigger] calls[i]).events.len() == 0,
        0 <= count <= calls.len(),
    ensures
        forall|i: int|
            0 <= i < count ==> !(#[trigger] calls[i]).before.gate().paused
                && !calls[i].after.gate().paused,
        forall|i: int|
            0 <= i < count ==> (#[trigger] calls[i]).before.gate().release_error == if i <= first {
                start.gate().release_error
            } else {
                None
            },
    decreases count,
{
    if count > 0 {
        lemma_gates_of_appends(start, calls, first, count - 1);
        let last = calls[count - 1];
        assert(same_but_for_waiting(store_ahead(start, calls, count - 1), last.before));
        if count > 1 {
            let ahead = calls[count - 2];
            assert(ahead.after == store_ahead(start, calls, count - 1));
        }
    }
}

/// Whether an append of `count` events, at least one, to a log of `base` events is taken.
pub open spec fn is_appended(
    failure: Option<Seq<char>>,
    session_id: Seq<char>,
    base: nat,
    count: nat,
) -> bool {
    &&& failure is None
    &&& ulid_of(session_id) is Some
    &&& count <= u32::MAX
    &&& base + count <= MAX_SEQUENCE
}

/// Whether `error` tells why an append is not taken.
pub open spec fn append_fault(
    error: StoreError,
    failure: Option<Seq<char>>,
    session_id: Seq<char>,
    base: nat,
    count: nat,
) -> bool {
    if failure is Some {
        error matches StoreError::Io(message) && message@ == failure->0
    } else if ulid_of(session_id) is None {
        error matches StoreError::InvalidSessionId(id) && id@ == session_id
    } else if count > u32::MAX {
        error matches StoreError::BatchTooLarge
    } else {
        &&& base + count > MAX_SEQUENCE
        &&& error matches StoreError::EventId(out) && out == EventIdError::SequenceOutOfRange(
            (MAX_SEQUENCE + 1) as u64,
        )
    }
}

/// Whether `events` is a log of the session `id`: whole batches whose events have the identities of
/// their places.
pub open spec fn is_log(id: Seq<char>, events: Seq<EnvelopeModel>) -> bool {
    &&& ulid_of(id) is Some
    &&& is_whole(events)
    &&& events.len() <= MAX_SEQUENCE
    &&& forall|i: int|
        0 <= i < events.len() ==> (#[trigger] events[i]).event_id == id_text(
            ulid_of(id)->0,
            (i + 1) as nat,
        )
}

proof fn lemma_batch(session: u128, version: u32, base: nat, events: Seq<EventModel>)
    requires
        0 < events.len() <= u32::MAX,
    ensures
        is_batch(batch(session, version, base, events)),
        batch(session, version, base, events).len() == events.len(),
{
}

/// The commits of a whole log with one more batch.
proof fn lemma_commits_push(events: Seq<EnvelopeModel>, more: Seq<EnvelopeModel>)
    requires
        is_whole(events),
        more.len() > 0,
        is_batch(more),
    ensures
        commits_of(events + more) == commits_of(events).push(more),
        is_whole(events + more),
    decreases events.len(),
{
    if events.len() == 0 {
        assert(events + more =~= more);
        assert(more[0].batch_count == more.len());
        assert(more.take(more.len() as int) =~= more);
        assert(more.skip(more.len() as int) =~= Seq::<EnvelopeModel>::empty());
        assert(commits_of(more) =~= seq![more]);
        assert(commits_of(events).push(more) =~= seq![more]);
        let one = seq![more];
        assert(one.drop_first() =~= Seq::<Seq<EnvelopeModel>>::empty());
        assert(flattened(one) =~= more);
    } else {
        let count = events[0].batch_count as int;
        let head = events.take(count);
        let rest = events.skip(count);
        assert(commits_of(events).len() > 0);
        assert(commits_of(events) == seq![head] + commits_of(rest));
        assert(commits_of(events).drop_first() =~= commits_of(rest));
        assert(flattened(commits_of(events)) == head + flattened(commits_of(rest)));
        assert(events =~= head + rest);
        assert(flattened(commits_of(rest)) =~= rest) by {
            let flat = flattened(commits_of(rest));
            assert(head + flat == head + rest);
            assert(flat.len() == rest.len());
            assert forall|i: int| 0 <= i < rest.len() implies flat[i] == rest[i] by {
                assert((head + flat)[head.len() + i] == flat[i]);
                assert((head + rest)[head.len() + i] == rest[i]);
            }
        }
        lemma_commits_push(rest, more);
        let all = events + more;
        assert(all[0] == events[0]);
        assert(all.take(count) =~= head);
        assert(all.skip(count) =~= rest + more);
        assert(commits_of(all) =~= commits_of(events).push(more));
        assert(commits_of(all).drop_first() =~= commits_of(rest + more));
        assert(flattened(commits_of(all)) =~= all);
    }
}

proof fn lemma_log_grows(
    id: Seq<char>,
    session: u128,
    version: u32,
    before: Seq<EnvelopeModel>,
    events: Seq<EventModel>,
)
    requires
        ulid_of(id) == Some(session),
        before.len() == 0 || is_log(id, before),
        0 < events.len() <= u32::MAX,
        before.len() + events.len() <= MAX_SEQUENCE,
    ensures
        is_log(id, before + batch(session, version, before.len(), events)),
        commits_of(before + batch(session, version, before.len(), events)) == commits_of(
            before,
        ).push(batch(session, version, before.len(), events)),
{
    let added = batch(session, version, before.len(), events);
    lemma_batch(session, version, before.len(), events);
    if before.len() == 0 {
        assert(flattened(commits_of(before)) =~= before);
    }
    lemma_commits_push(before, added);
    let all = before + added;
    assert forall|i: int| 0 <= i < all.len() implies (#[trigger] all[i]).event_id == id_text(
        session,
        (i + 1) as nat,
    ) by {
        if i < before.len() {
            assert(all[i] == before[i]);
        } else {
            assert(all[i] == added[i - before.len()]);
        }
    }
}

/// A session as a search for sessions reports it.
#[derive(Debug)]
pub struct SessionDiscovery {
    pub session_id: String,
    pub last_activity_ms: i64,
}

/// The order of a search: the session that was active last comes first, those that were active
/// together by name.
pub open spec fn found_before(a: SessionDiscovery, b: SessionDiscovery) -> bool {
    a.last_activity_ms > b.last_activity_ms || (a.last_activity_ms == b.last_activity_ms
        && text_less(a.session_id@, b.session_id@))
}

/// Whether `found` are the sessions of a store, each once and in the order of a search.
pub open spec fn lists_sessions(store: MemorySessionStore, found: Seq<SessionDiscovery>) -> bool {
    &&& forall|i: int, j: int|
        0 <= i < j < found.len() ==> found_before(#[trigger] found[i], #[trigger] found[j])
    &&& forall|i: int|
        0 <= i < found.len() ==> store.has_session((#[trigger] found[i]).session_id@)
            && found[i].last_activity_ms == store.activity(found[i].session_id@)
    &&& forall|id: Seq<char>| #[trigger]
        store.has_session(id) ==> exists|i: int|
            0 <= i < found.len() && (#[trigger] found[i]).session_id@ == id
}

/// The visible ones of `events`.
pub open spec fn visible(events: Seq<EnvelopeModel>) -> Seq<EnvelopeModel>
    decreases events.len(),
{
    if events.len() == 0 {
        Seq::empty()
    } else if events.last().event.visible {
        visible(events.drop_last()).push(events.last())
    } else {
        visible(events.drop_last())
    }
}

/// The last `count` of `events`, or all where there are fewer.
pub open spec fn last_of(events: Seq<EnvelopeModel>, count: nat) -> Seq<EnvelopeModel> {
    if count < events.len() {
        events.skip(events.len() - count)
    } else {
        events
    }
}

/// Where the event with that identity stands.
pub open spec fn position(events: Seq<EnvelopeModel>, event_id: Seq<char>) -> Option<int>
    decreases events.len(),
{
    if events.len() == 0 {
        None
    } else {
        match position(events.drop_last(), event_id) {
            Some(at) => Some(at),
            None => if events.last().event_id == event_id {
                Some(events.len() - 1)
            } else {
                None
            },
        }
    }
}

/// The first visible event with that identity.
pub open spec fn visible_event(events: Seq<EnvelopeModel>, event_id: Seq<char>) -> Option<
    EnvelopeModel,
>
    decreases events.len(),
{
    if events.len() == 0 {
        None
    } else {
        match visible_event(events.drop_last(), event_id) {
            Some(event) => Some(event),
            None => if events.last().event_id == event_id && events.last().event.visible {
                Some(events.last())
            } else {
                None
            },
        }
    }
}

/// What is wrong with a read of a session: its name, then the event that it names.
pub open spec fn read_fault(session_id: Seq<char>, cursor: Option<Seq<char>>) -> Option<bool> {
    if ulid_of(session_id) is None {
        Some(true)
    } else if cursor is Some && parsed(ulid_of(session_id)->0, cursor->0) is Err {
        Some(false)
    } else {
        None
    }
}

/// Whether `error` tells what is wrong with a read.
pub open spec fn tells_fault(
    error: QueryError,
    session_id: Seq<char>,
    cursor: Option<Seq<char>>,
) -> bool {
    match read_fault(session_id, cursor) {
        Some(true) => error matches QueryError::InvalidSessionId(id) && id@ == session_id,
        Some(false) => error matches QueryError::InvalidCursor(id) && Some(id@) == cursor,
        None => false,
    }
}

/// Where a snapshot stands among the commits of a session.
#[derive(Debug)]
pub enum WindowOrigin {
    /// The state of the session at that point.
    Snapshot(EventEnvelope),
    /// The session starts there.
    SessionStart,
    /// Nothing is known of what was before.
    Unanchored,
}

/// What an origin is.
pub enum OriginModel {
    Snapshot(EnvelopeModel),
    SessionStart,
    Unanchored,
}

/// An origin, and the commits that follow it up to the next.
#[derive(Debug)]
pub struct SnapshotWindow {
    pub origin: WindowOrigin,
    pub commits: Vec<Commit>,
}

/// What a window holds.
pub struct WindowModel {
    pub origin: OriginModel,
    pub commits: Seq<Seq<EnvelopeModel>>,
}

impl View for SnapshotWindow {
    type V = WindowModel;

    open spec fn view(&self) -> WindowModel {
        WindowModel {
            origin: match self.origin {
                WindowOrigin::Snapshot(snapshot) => OriginModel::Snapshot(snapshot@),
                WindowOrigin::SessionStart => OriginModel::SessionStart,
                WindowOrigin::Unanchored => OriginModel::Unanchored,
            },
            commits: commit_models(self.commits@),
        }
    }
}

pub open spec fn window_models(windows: Seq<SnapshotWindow>) -> Seq<WindowModel> {
    windows.map_values(|window: SnapshotWindow| window@)
}

/// Whether a commit is one snapshot and nothing else.
pub open spec fn is_snapshot(commit: Seq<EnvelopeModel>) -> bool {
    commit.len() == 1 && commit[0].event.payload is Snapshot
}

/// The windows of `commits`, the newest first, with `newer` behind the last of them.
pub open spec fn windows_of(
    commits: Seq<Seq<EnvelopeModel>>,
    newer: Seq<Seq<EnvelopeModel>>,
) -> Seq<
    WindowModel,
>
    decreases commits.len(),
{
    if commits.len() == 0 {
        if newer.len() == 0 {
            Seq::empty()
        } else {
            seq![WindowModel { origin: OriginModel::SessionStart, commits: newer }]
        }
    } else if is_snapshot(commits.last()) {
        seq![
            WindowModel { origin: OriginModel::Snapshot(commits.last()[0]), commits: newer },
        ] + windows_of(commits.drop_last(), Seq::empty())
    } else {
        windows_of(commits.drop_last(), seq![commits.last()] + newer)
    }
}

/// The name of a session as a number, or the error of a read of a session with that name.
fn read_session_id(session_id: &str) -> (r: Result<u128, QueryError>)
    ensures
        match r {
            Ok(session) => ulid_of(session_id@) == Some(session),
            Err(error) => ulid_of(session_id@) is None && (error matches QueryError::InvalidSessionId(
                id,
            ) && id@ == session_id@),
        },
{
    match parse_ulid(session_id) {
        Some(session) => Ok(session),
        None => Err(QueryError::InvalidSessionId(session_id.to_owned())),
    }
}

/// Tests the name of a session and the identity of an event of it.
pub fn check_read(session_id: &str, cursor: Option<&str>) -> (r: Result<(), QueryError>)
    ensures
        match r {
            Ok(_) => read_fault(session_id@, optional_str(cursor)) is None,
            Err(error) => tells_fault(error, session_id@, optional_str(cursor)),
        },
{
    let session = match read_session_id(session_id) {
        Ok(session) => session,
        Err(error) => {
            return Err(error);
        },
    };
    match cursor {
        Some(cursor) => match EventId::parse(session, cursor) {
            Ok(_) => Ok(()),
            Err(_) => Err(QueryError::InvalidCursor(cursor.to_owned())),
        },
        None => Ok(()),
    }
}

/// Where the event with that identity stands in `events`.
fn find_event(events: &Vec<EventEnvelope>, event_id: &str) -> (r: Option<usize>)
    ensures
        match r {
            Some(at) => position(envelope_models(events@), event_id@) == Some(at as int) && at
                < events.len(),
            None => position(envelope_models(events@), event_id@) is None,
        },
{
    let ghost all = envelope_models(events@);
    let mut i: usize = 0;
    proof {
        assert(all.take(0) =~= Seq::<EnvelopeModel>::empty());
    }
    while i < events.len()
        invariant
            i <= events.len(),
            all == envelope_models(events@),
            position(all.take(i as int), event_id@) is None,
        decreases events.len() - i,
    {
        proof {
            assert(all.take(i + 1).drop_last() =~= all.take(i as int));
            assert(all.take(i + 1).last() == events@[i as int]@);
        }
        if same(&events[i].event_id, event_id) {
            proof {
                assert(position(all.take(i + 1), event_id@) == Some(i as int));
                lemma_position_stays(all, i + 1, event_id@);
            }
            return Some(i);
        }
        i = i + 1;
    }
    proof {
        assert(all.take(all.len() as int) =~= all);
    }
    None
}

proof fn lemma_position_stays(events: Seq<EnvelopeModel>, count: int, event_id: Seq<char>)
    requires
        0 <= count <= events.len(),
        position(events.take(count), event_id) is Some,
    ensures
        position(events, event_id) == position(events.take(count), event_id),
    decreases events.len() - count,
{
    if count < events.len() {
        assert(events.take(count + 1).drop_last() =~= events.take(count));
        lemma_position_stays(events, count + 1, event_id);
    } else {
        assert(events.take(count) =~= events);
    }
}

/// The visible ones of the events `from..to`.
fn visible_range(events: &Vec<EventEnvelope>, from: usize, to: usize) -> (r: Vec<EventEnvelope>)
    requires
        from <= to <= events.len(),
    ensures
        envelope_models(r@) == visible(envelope_models(events@).subrange(from as int, to as int)),
{
    let ghost all = envelope_models(events@);
    let mut out: Vec<EventEnvelope> = Vec::new();
    let mut i: usize = from;
    proof {
        assert(all.subrange(from as int, from as int) =~= Seq::<EnvelopeModel>::empty());
        assert(envelope_models(out@) =~= Seq::<EnvelopeModel>::empty());
    }
    while i < to
        invariant
            from <= i <= to <= events.len(),
            all == envelope_models(events@),
            envelope_models(out@) == visible(all.subrange(from as int, i as int)),
        decreases to - i,
    {
        proof {
            assert(all.subrange(from as int, i + 1).drop_last() =~= all.subrange(
                from as int,
                i as int,
            ));
            assert(all.subrange(from as int, i + 1).last() == events@[i as int]@);
        }
        if events[i].event.visible {
            let copy = events[i].clone();
            let ghost before = envelope_models(out@);
            out.push(copy);
            proof {
                assert(envelope_models(out@) =~= before.push(copy@));
            }
        }
        i = i + 1;
    }
    out
}

impl MemorySessionStore {
    /// Whether there is a session of that name.
    pub fn session_exists(&self, session_id: &str) -> (r: bool)
        requires
            self.well_formed(),
        ensures
            r == self.has_session(session_id@),
    {
        match parse_ulid(session_id) {
            Some(_) => self.sessions.contains_key(session_id),
            None => {
                proof {
                    assert(self.sessions@.contains_key(session_id@) ==> is_log(
                        session_id@,
                        self.log(session_id@),
                    ));
                }
                false
            },
        }
    }

    /// Takes a session out of the store.
    pub fn detach_session(&mut self, session_id: &str) -> (r: Result<(), StoreError>)
        requires
            old(self).well_formed(),
        ensures
            final(self).well_formed(),
            final(self).version() == old(self).version(),
            final(self).gate() == old(self).gate(),
            match r {
                Ok(_) => old(self).has_session(session_id@),
                Err(StoreError::InvalidSessionId(id)) => id@ == session_id@ && ulid_of(
                    session_id@,
                ) is None,
                Err(StoreError::SessionNotFound(id)) => id@ == session_id@ && ulid_of(
                    session_id@,
                ) is Some && !old(self).has_session(session_id@),
                Err(_) => false,
            },
            !final(self).has_session(session_id@),
            final(self).log(session_id@).len() == 0,
            final(self).appends() == old(self).appends(),
            forall|id: Seq<char>|
                id != session_id@ ==> #[trigger] same_session(*old(self), *final(self), id),
    {
        match parse_ulid(session_id) {
            Some(_) => {},
            None => {
                proof {
                    assert(self.sessions@.contains_key(session_id@) ==> is_log(
                        session_id@,
                        self.log(session_id@),
                    ));
                }
                return Err(StoreError::InvalidSessionId(session_id.to_owned()));
            },
        }
        let removed = self.sessions.remove(session_id);
        proof {
            assert forall|id: Seq<char>| id != session_id@ implies #[trigger] same_session(
                *old(self),
                *self,
                id,
            ) by {}
            assert forall|id: Seq<char>| #[trigger] self.sessions@.contains_key(id) implies is_log(
                id,
                self.log(id),
            ) && self.sessions@[id].last_activity <= self.next_activity by {
                assert(same_session(*old(self), *self, id));
                assert(old(self).sessions@.contains_key(id));
            }
        }
        match removed {
            Some(_) => Ok(()),
            None => Err(StoreError::SessionNotFound(session_id.to_owned())),
        }
    }

    /// All sessions, the one that was active last first.
    pub fn discover_sessions(&self) -> (r: Vec<SessionDiscovery>)
        requires
            self.well_formed(),
        ensures
            lists_sessions(*self, r@),
    {
        let mut out: Vec<SessionDiscovery> = Vec::new();
        let mut i: usize = 0;
        let ghost keys = self.sessions.keys();
        proof {
            self.sessions.keys_are_those_of_the_map();
        }
        while i < self.sessions.len()
            invariant
                self.well_formed(),
                keys == self.sessions.keys(),
                i <= keys.len(),
                crate::text_map::ascending(keys),
                forall|a: int, b: int|
                    0 <= a < b < out@.len() ==> found_before(
                        #[trigger] out@[a],
                        #[trigger] out@[b],
                    ),
                forall|a: int|
                    0 <= a < out@.len() ==> listed(self, #[trigger] out@[a], keys.take(i as int)),
                forall|k: int|
                    0 <= k < i ==> names(out@, #[trigger] keys[k]),
            decreases keys.len() - i,
        {
            let session = self.sessions.value_at(i);
            let found = SessionDiscovery {
                session_id: self.sessions.key_at(i).to_owned(),
                last_activity_ms: session.last_activity,
            };
            let ghost before = out@;
            proof {
                assert forall|a: int| 0 <= a < before.len() implies (
                #[trigger] before[a]).session_id@ != found.session_id@ by {
                    assert(listed(self, before[a], keys.take(i as int)));
                    let k = choose|k: int|
                        0 <= k < keys.take(i as int).len() && keys.take(i as int)[k]
                            == before[a].session_id@;
                    assert(keys[k] == before[a].session_id@);
                    assert(text_less(keys[k], keys[i as int]));
                    crate::text::less_total(keys[k], keys[i as int]);
                }
            }
            place_found(&mut out, found);
            proof {
                assert forall|a: int| 0 <= a < out@.len() implies listed(
                    self,
                    #[trigger] out@[a],
                    keys.take(i + 1),
                ) by {
                    assert(out@.contains(out@[a]));
                    if out@[a] != found {
                        assert(before.contains(out@[a]));
                        let b = choose|b: int| 0 <= b < before.len() && before[b] == out@[a];
                        assert(listed(self, before[b], keys.take(i as int)));
                        let k = choose|k: int|
                            0 <= k < keys.take(i as int).len() && keys.take(i as int)[k]
                                == before[b].session_id@;
                        assert(keys.take(i + 1)[k] == before[b].session_id@);
                    } else {
                        assert(keys.take(i + 1)[i as int] == found.session_id@);
                    }
                }
                assert forall|k: int| 0 <= k < i + 1 implies names(out@, #[trigger] keys[k]) by {
                    if k < i {
                        assert(names(before, keys[k]));
                        let b = choose|b: int|
                            0 <= b < before.len() && (#[trigger] before[b]).session_id@ == keys[k];
                        assert(out@.contains(before[b]));
                        let a = choose|a: int| 0 <= a < out@.len() && out@[a] == before[b];
                        assert(out@[a].session_id@ == keys[k]);
                    } else {
                        assert(out@.contains(found));
                        let a = choose|a: int| 0 <= a < out@.len() && out@[a] == found;
                        assert(out@[a].session_id@ == keys[k]);
                    }
                }
            }
            i = i + 1;
        }
        proof {
            assert forall|a: int| 0 <= a < out@.len() implies self.has_session(
                (#[trigger] out@[a]).session_id@,
            ) && out@[a].last_activity_ms == self.activity(out@[a].session_id@) by {
                assert(listed(self, out@[a], keys.take(i as int)));
            }
            assert forall|id: Seq<char>| #[trigger] self.has_session(id) implies exists|a: int|
                0 <= a < out@.len() && (#[trigger] out@[a]).session_id@ == id by {
                assert(keys.contains(id));
                let k = choose|k: int| 0 <= k < keys.len() && keys[k] == id;
                assert(names(out@, keys[k]));
            }
        }
        out
    }

    /// The last batch of a session.
    pub fn last_commit(&self, session_id: &str) -> (r: Result<Option<Commit>, QueryError>)
        requires
            self.well_formed(),
        ensures
            match r {
                Ok(found) => {
                    &&& self.has_session(session_id@)
                    &&& match found {
                        Some(commit) => commits_of(self.log(session_id@)).len() > 0 && commit@
                            == commits_of(self.log(session_id@)).last(),
                        None => commits_of(self.log(session_id@)).len() == 0,
                    }
                },
                Err(QueryError::InvalidSessionId(id)) => id@ == session_id@ && ulid_of(
                    session_id@,
                ) is None,
                Err(QueryError::SessionNotFound(id)) => id@ == session_id@ && ulid_of(
                    session_id@,
                ) is Some && !self.has_session(session_id@),
                Err(_) => false,
            },
    {
        match self.all_commits(session_id) {
            Ok(commits) => {
                let mut commits = commits;
                let ghost all = commit_models(commits@);
                let ghost list = commits@;
                let last = commits.pop();
                proof {
                    if list.len() > 0 {
                        assert(all.last() == list.last()@);
                    }
                }
                Ok(last)
            },
            Err(error) => Err(error),
        }
    }

    /// The batches of a session, the oldest first.
    pub fn all_commits(&self, session_id: &str) -> (r: Result<Vec<Commit>, QueryError>)
        requires
            self.well_formed(),
        ensures
            match r {
                Ok(commits) => self.has_session(session_id@) && commit_models(commits@)
                    == commits_of(self.log(session_id@)),
                Err(QueryError::InvalidSessionId(id)) => id@ == session_id@ && ulid_of(
                    session_id@,
                ) is None,
                Err(QueryError::SessionNotFound(id)) => id@ == session_id@ && ulid_of(
                    session_id@,
                ) is Some && !self.has_session(session_id@),
                Err(_) => false,
            },
    {
        if let Err(error) = read_session_id(session_id) {
            return Err(error);
        }
        match self.sessions.get(session_id) {
            Some(session) => Ok(complete_commits(&session.events)),
            None => Err(QueryError::SessionNotFound(session_id.to_owned())),
        }
    }

    /// The windows of a session between its snapshots, the newest first.
    pub fn snapshot_windows(&self, session_id: &str) -> (r: Result<
        Vec<SnapshotWindow>,
        QueryError,
    >)
        requires
            self.well_formed(),
        ensures
            match r {
                Ok(windows) => self.has_session(session_id@) && window_models(windows@)
                    == windows_of(commits_of(self.log(session_id@)), Seq::empty()),
                Err(QueryError::InvalidSessionId(id)) => id@ == session_id@ && ulid_of(
                    session_id@,
                ) is None,
                Err(QueryError::SessionNotFound(id)) => id@ == session_id@ && ulid_of(
                    session_id@,
                ) is Some && !self.has_session(session_id@),
                Err(_) => false,
            },
    {
        match self.all_commits(session_id) {
            Ok(commits) => Ok(split_windows(commits)),
            Err(error) => Err(error),
        }
    }

    /// The visible events of a session behind `cursor`, or all of them.
    pub fn scan_after(&self, session_id: &str, cursor: Option<&str>) -> (r: Result<
        Vec<EventEnvelope>,
        QueryError,
    >)
        requires
            self.well_formed(),
        ensures
            match r {
                Ok(events) => {
                    &&& read_fault(session_id@, optional_str(cursor)) is None
                    &&& cursor is None ==> envelope_models(events@) == visible(
                        self.log(session_id@),
                    )
                    &&& cursor is Some ==> {
                        &&& position(self.log(session_id@), cursor->0@) is Some
                        &&& envelope_models(events@) == visible(
                            self.log(session_id@).skip(
                                position(self.log(session_id@), cursor->0@)->0 + 1,
                            ),
                        )
                    }
                },
                Err(QueryError::UnknownCursor(id)) => {
                    &&& read_fault(session_id@, optional_str(cursor)) is None
                    &&& cursor is Some && id@ == cursor->0@
                    &&& position(self.log(session_id@), cursor->0@) is None
                },
                Err(error) => tells_fault(error, session_id@, optional_str(cursor)),
            },
    {
        if let Err(error) = check_read(session_id, cursor) {
            return Err(error);
        }
        let events = self.events(session_id);
        let ghost all = self.log(session_id@);
        let start: usize = match cursor {
            Some(cursor) => match find_event(&events, cursor) {
                Some(at) => at + 1,
                None => {
                    return Err(QueryError::UnknownCursor(cursor.to_owned()));
                },
            },
            None => 0,
        };
        proof {
            assert(all.subrange(start as int, all.len() as int) =~= all.skip(start as int));
            assert(all.skip(0) =~= all);
        }
        Ok(visible_range(&events, start, events.len()))
    }

    /// The last `limit` visible events of a session before `cursor`, or before its end.
    pub fn before(&self, session_id: &str, cursor: Option<&str>, limit: u64) -> (r: Result<
        Vec<EventEnvelope>,
        QueryError,
    >)
        requires
            self.well_formed(),
        ensures
            match r {
                Ok(events) => {
                    &&& read_fault(session_id@, optional_str(cursor)) is None
                    &&& cursor is None ==> envelope_models(events@) == last_of(
                        visible(self.log(session_id@)),
                        limit as nat,
                    )
                    &&& cursor is Some ==> {
                        &&& position(self.log(session_id@), cursor->0@) is Some
                        &&& envelope_models(events@) == last_of(
                            visible(
                                self.log(session_id@).take(
                                    position(self.log(session_id@), cursor->0@)->0,
                                ),
                            ),
                            limit as nat,
                        )
                    }
                },
                Err(QueryError::UnknownCursor(id)) => {
                    &&& read_fault(session_id@, optional_str(cursor)) is None
                    &&& cursor is Some && id@ == cursor->0@
                    &&& position(self.log(session_id@), cursor->0@) is None
                },
                Err(error) => tells_fault(error, session_id@, optional_str(cursor)),
            },
    {
        if let Err(error) = check_read(session_id, cursor) {
            return Err(error);
        }
        let events = self.events(session_id);
        let ghost all = self.log(session_id@);
        let end: usize = match cursor {
            Some(cursor) => match find_event(&events, cursor) {
                Some(at) => at,
                None => {
                    return Err(QueryError::UnknownCursor(cursor.to_owned()));
                },
            },
            None => events.len(),
        };
        proof {
            assert(all.subrange(0, end as int) =~= all.take(end as int));
            assert(all.take(all.len() as int) =~= all);
        }
        let found = visible_range(&events, 0, end);
        if (found.len() as u64) <= limit {
            return Ok(found);
        }
        let start: usize = found.len() - (limit as usize);
        let page = clone_range(&found, start, found.len());
        proof {
            let list = envelope_models(found@);
            assert(list.subrange(start as int, list.len() as int) =~= list.skip(start as int));
        }
        Ok(page)
    }

    /// One visible event of a session.
    pub fn event(&self, session_id: &str, event_id: &str) -> (r: Result<
        Option<EventEnvelope>,
        QueryError,
    >)
        requires
            self.well_formed(),
        ensures
            match r {
                Ok(found) => {
                    &&& read_fault(session_id@, Some(event_id@)) is None
                    &&& match found {
                        Some(event) => visible_event(self.log(session_id@), event_id@) == Some(
                            event@,
                        ),
                        None => visible_event(self.log(session_id@), event_id@) is None,
                    }
                },
                Err(error) => tells_fault(error, session_id@, Some(event_id@)),
            },
    {
        if let Err(error) = check_read(session_id, Some(event_id)) {
            return Err(error);
        }
        let events = self.events(session_id);
        let ghost all = envelope_models(events@);
        let mut i: usize = 0;
        proof {
            assert(all.take(0) =~= Seq::<EnvelopeModel>::empty());
        }
        while i < events.len()
            invariant
                i <= events.len(),
                all == envelope_models(events@),
                all == self.log(session_id@),
                read_fault(session_id@, Some(event_id@)) is None,
                visible_event(all.take(i as int), event_id@) is None,
            decreases events.len() - i,
        {
            proof {
                assert(all.take(i + 1).drop_last() =~= all.take(i as int));
                assert(all.take(i + 1).last() == events@[i as int]@);
            }
            if events[i].event.visible && same(&events[i].event_id, event_id) {
                proof {
                    lemma_event_stays(all, i + 1, event_id@);
                }
                return Ok(Some(events[i].clone()));
            }
            i = i + 1;
        }
        proof {
            assert(all.take(all.len() as int) =~= all);
        }
        Ok(None)
    }
}

proof fn lemma_event_stays(events: Seq<EnvelopeModel>, count: int, event_id: Seq<char>)
    requires
        0 <= count <= events.len(),
        visible_event(events.take(count), event_id) is Some,
    ensures
        visible_event(events, event_id) == visible_event(events.take(count), event_id),
    decreases events.len() - count,
{
    if count < events.len() {
        assert(events.take(count + 1).drop_last() =~= events.take(count));
        lemma_event_stays(events, count + 1, event_id);
    } else {
        assert(events.take(count) =~= events);
    }
}

spec fn listed(store: &MemorySessionStore, found: SessionDiscovery, keys: Seq<Seq<char>>) -> bool {
    &&& store.has_session(found.session_id@)
    &&& found.last_activity_ms == store.activity(found.session_id@)
    &&& keys.contains(found.session_id@)
}

spec fn names(list: Seq<SessionDiscovery>, id: Seq<char>) -> bool {
    exists|i: int| 0 <= i < list.len() && (#[trigger] list[i]).session_id@ == id
}

/// Puts a session into an ordered list that does not hold it.
fn place_found(list: &mut Vec<SessionDiscovery>, item: SessionDiscovery)
    requires
        forall|i: int, j: int|
            0 <= i < j < old(list)@.len() ==> found_before(
                #[trigger] old(list)@[i],
                #[trigger] old(list)@[j],
            ),
        forall|i: int|
            0 <= i < old(list)@.len() ==> (#[trigger] old(list)@[i]).session_id@
                != item.session_id@,
    ensures
        forall|i: int, j: int|
            0 <= i < j < final(list)@.len() ==> found_before(
                #[trigger] final(list)@[i],
                #[trigger] final(list)@[j],
            ),
        forall|found: SessionDiscovery| #[trigger]
            final(list)@.contains(found) <==> found == item || old(list)@.contains(found),
{
    let ghost all = list@;
    let mut at: usize = 0;
    while at < list.len() && (list[at].last_activity_ms > item.last_activity_ms || (
    list[at].last_activity_ms == item.last_activity_ms && less(
        &list[at].session_id,
        &item.session_id,
    )))
        invariant
            list@ == all,
            at <= all.len(),
            forall|i: int| 0 <= i < at ==> found_before(#[trigger] all[i], item),
        decreases all.len() - at,
    {
        at = at + 1;
    }
    proof {
        if at < all.len() {
            crate::text::less_total(all[at as int].session_id@, item.session_id@);
            assert(found_before(item, all[at as int]));
        }
        let after = all.insert(at as int, item);
        assert forall|i: int, j: int| 0 <= i < j < after.len() implies found_before(
            #[trigger] after[i],
            #[trigger] after[j],
        ) by {
            if j == at {
                assert(after[i] == all[i]);
            } else if i == at {
                assert(after[j] == all[j - 1]);
                if j - 1 > at {
                    assert(found_before(all[at as int], all[j - 1]));
                    let a = item;
                    let b = all[at as int];
                    let c = all[j - 1];
                    if a.last_activity_ms == b.last_activity_ms && b.last_activity_ms
                        == c.last_activity_ms {
                        crate::text::less_transitive(
                            a.session_id@,
                            b.session_id@,
                            c.session_id@,
                        );
                    }
                }
            } else {
                let x = if i < at { i } else { i - 1 };
                let y = if j < at { j } else { j - 1 };
                assert(after[i] == all[x] && after[j] == all[y]);
                assert(found_before(all[x], all[y]));
            }
        }
        assert forall|found: SessionDiscovery| #[trigger]
            after.contains(found) <==> found == item || all.contains(found) by {
            if all.contains(found) {
                let x = choose|x: int| 0 <= x < all.len() && all[x] == found;
                let i = if x < at { x } else { x + 1 };
                assert(after[i] == found);
            }
            if after.contains(found) && found != item {
                let i = choose|i: int| 0 <= i < after.len() && after[i] == found;
                let x = if i < at { i } else { i - 1 };
                assert(all[x] == found);
            }
            assert(after[at as int] == item);
        }
    }
    list.insert(at, item);
}

/// The windows between the snapshots of `commits`, the newest first.
fn split_windows(commits: Vec<Commit>) -> (r: Vec<SnapshotWindow>)
    ensures
        window_models(r@) == windows_of(commit_models(commits@), Seq::empty()),
{
    let ghost all = commit_models(commits@);
    let ghost expected = windows_of(all, Seq::empty());
    let mut rest = commits;
    let mut newer: Vec<Commit> = Vec::new();
    let mut windows: Vec<SnapshotWindow> = Vec::new();
    proof {
        assert(commit_models(newer@).reverse() =~= Seq::<Seq<EnvelopeModel>>::empty());
        assert(window_models(windows@) + expected =~= expected);
    }
    loop
        invariant
            expected == window_models(windows@) + windows_of(
                commit_models(rest@),
                commit_models(newer@).reverse(),
            ),
        ensures
            rest@.len() == 0,
        decreases rest.len(),
    {
        let ghost before = commit_models(rest@);
        let ghost list = rest@;
        let commit = match rest.pop() {
            Some(commit) => commit,
            None => {
                break;
            },
        };
        proof {
            assert(before.last() == commit@);
            assert(before.drop_last() =~= commit_models(rest@));
        }
        let single = commit.events.len() == 1 && match &commit.events[0].event.payload {
            EventPayload::Snapshot { .. } => true,
            _ => false,
        };
        proof {
            assert(commit@.len() == commit.events@.len());
            if commit.events@.len() > 0 {
                assert(commit@[0] == commit.events@[0]@);
            }
            assert(single == is_snapshot(commit@));
        }
        if single {
            let snapshot = commit.events[0].clone();
            let behind = reversed(newer);
            newer = Vec::new();
            let window = SnapshotWindow {
                origin: WindowOrigin::Snapshot(snapshot),
                commits: behind,
            };
            let ghost earlier = window_models(windows@);
            windows.push(window);
            proof {
                assert(window_models(windows@) =~= earlier.push(window@));
                assert(commit_models(newer@).reverse() =~= Seq::<Seq<EnvelopeModel>>::empty());
                let tail = windows_of(commit_models(rest@), Seq::empty());
                assert(earlier + (seq![window@] + tail) =~= earlier.push(window@) + tail);
            }
        } else {
            let ghost earlier = commit_models(newer@);
            newer.push(commit);
            proof {
                assert(commit_models(newer@) =~= earlier.push(commit@));
                assert(earlier.push(commit@).reverse() =~= seq![commit@] + earlier.reverse());
            }
        }
    }
    let ghost earlier = window_models(windows@);
    if newer.len() > 0 {
        let behind = reversed(newer);
        let window = SnapshotWindow { origin: WindowOrigin::SessionStart, commits: behind };
        windows.push(window);
        proof {
            assert(window_models(windows@) =~= earlier + seq![window@]);
        }
    } else {
        proof {
            assert(earlier + Seq::<WindowModel>::empty() =~= earlier);
        }
    }
    windows
}

/// The commits in the opposite order.
fn reversed(commits: Vec<Commit>) -> (r: Vec<Commit>)
    ensures
        commit_models(r@) == commit_models(commits@).reverse(),
{
    let ghost all = commits@;
    let mut rest = commits;
    let mut out: Vec<Commit> = Vec::new();
    loop
        invariant
            rest@.len() + out@.len() == all.len(),
            rest@ == all.take(rest@.len() as int),
            forall|i: int| 0 <= i < out@.len() ==> #[trigger] out@[i] == all[all.len() - 1 - i],
        ensures
            rest@.len() == 0,
        decreases rest.len(),
    {
        match rest.pop() {
            Some(commit) => {
                out.push(commit);
            },
            None => {
                break;
            },
        }
    }
    proof {
        assert(commit_models(out@) =~= commit_models(all).reverse());
    }
    out
}

/// What is appended is read back: the last batch of the log is the one that was appended last, and
/// the batches before it stay.
pub proof fn appended_batch_is_the_last_commit(
    id: Seq<char>,
    version: u32,
    before: Seq<EnvelopeModel>,
    events: Seq<EventModel>,
)
    requires
        is_log(id, before),
        0 < events.len() <= u32::MAX,
        before.len() + events.len() <= MAX_SEQUENCE,
    ensures
        ({
            let added = batch(ulid_of(id)->0, version, before.len(), events);
            commits_of(before + added) == commits_of(before).push(added)
        }),
{
    lemma_log_grows(id, ulid_of(id)->0, version, before, events);
}

/// A session that was just appended to is the first that a search finds.
pub proof fn last_appended_is_found_first(
    before: MemorySessionStore,
    after: MemorySessionStore,
    id: Seq<char>,
    found: Seq<SessionDiscovery>,
)
    requires
        before.well_formed(),
        before.appends() < i64::MAX,
        after.appends() == next_append(before.appends()),
        after.has_session(id),
        after.activity(id) == after.appends(),
        forall|other: Seq<char>| other != id ==> #[trigger] same_session(before, after, other),
        lists_sessions(after, found),
    ensures
        found.len() > 0,
        found[0].session_id@ == id,
{
    let at = choose|i: int| 0 <= i < found.len() && (#[trigger] found[i]).session_id@ == id;
    if at > 0 {
        let other = found[0].session_id@;
        assert(found_before(found[0], found[at]));
        assert(found[0].last_activity_ms == after.activity(other));
        if other != id {
            assert(same_session(before, after, other));
            assert(before.sessions@.contains_key(other));
        } else {
            crate::text::less_total(other, id);
        }
    }
}

/// Each event of a log is found by its identity, where it stands.
pub proof fn events_are_found_by_identity(id: Seq<char>, events: Seq<EnvelopeModel>, at: int)
    requires
        is_log(id, events),
        0 <= at < events.len(),
    ensures
        position(events, events[at].event_id) == Some(at),
        read_fault(id, Some(events[at].event_id)) is None,
{
    let session = ulid_of(id)->0;
    crate::event_id::identity_round_trips(session, (at + 1) as u64);
    lemma_position(session, events, at, events.len() as int);
    assert(events.take(events.len() as int) =~= events);
}

proof fn lemma_position(session: u128, events: Seq<EnvelopeModel>, at: int, count: int)
    requires
        events.len() <= MAX_SEQUENCE,
        forall|i: int|
            0 <= i < events.len() ==> (#[trigger] events[i]).event_id == id_text(
                session,
                (i + 1) as nat,
            ),
        0 <= at < events.len(),
        0 <= count <= events.len(),
    ensures
        position(events.take(count), events[at].event_id) == if at < count {
            Some(at)
        } else {
            None
        },
    decreases count,
{
    if count > 0 {
        lemma_position(session, events, at, count - 1);
        let head = events.take(count);
        assert(head.drop_last() =~= events.take(count - 1));
        assert(head.last() == events[count - 1]);
        if at != count - 1 {
            crate::event_id::identity_round_trips(session, (at + 1) as u64);
            crate::event_id::identity_round_trips(session, count as u64);
            assert(events[at].event_id != events[count - 1].event_id);
        }
    }
}

proof fn lemma_visible_append(a: Seq<EnvelopeModel>, b: Seq<EnvelopeModel>)
    ensures
        visible(a + b) == visible(a) + visible(b),
    decreases b.len(),
{
    if b.len() == 0 {
        assert(a + b =~= a);
        assert(visible(a) + visible(b) =~= visible(a));
    } else {
        lemma_visible_append(a, b.drop_last());
        assert((a + b).drop_last() =~= a + b.drop_last());
        if b.last().event.visible {
            assert(visible(a) + visible(b.drop_last()).push(b.last()) =~= (visible(a) + visible(
                b.drop_last(),
            )).push(b.last()));
        }
    }
}

/// Where the visible event number `k` stands.
pub(crate) proof fn lemma_visible_index(events: Seq<EnvelopeModel>, k: int) -> (at: int)
    requires
        0 <= k < visible(events).len(),
    ensures
        0 <= at < events.len(),
        events[at] == visible(events)[k],
        visible(events.take(at)) == visible(events).take(k),
    decreases events.len(),
{
    let rest = events.drop_last();
    if events.last().event.visible && k == visible(rest).len() {
        assert(events.take(events.len() - 1) =~= rest);
        assert(visible(events).take(k) =~= visible(rest));
        events.len() - 1
    } else {
        let at = lemma_visible_index(rest, k);
        assert(rest.take(at) =~= events.take(at));
        assert(visible(events).take(k) =~= visible(rest).take(k));
        at
    }
}

/// A reader who asks for the page before the first event of the last page gets, page by page, every
/// visible event once: what is visible before a page and the page itself make up what was visible
/// before the event at `end`.
pub proof fn history_pages_give_everything(
    id: Seq<char>,
    events: Seq<EnvelopeModel>,
    end: int,
    limit: nat,
)
    requires
        is_log(id, events),
        0 <= end <= events.len(),
        limit > 0,
        visible(events.take(end)).len() > 0,
    ensures
        ({
            let page = last_of(visible(events.take(end)), limit);
            let at = position(events, page[0].event_id);
            &&& page.len() > 0
            &&& at is Some
            &&& 0 <= at->0 < end
            &&& read_fault(id, Some(page[0].event_id)) is None
            &&& visible(events.take(at->0)) + page == visible(events.take(end))
        }),
{
    let head = events.take(end);
    let all = visible(head);
    let page = last_of(all, limit);
    let k = all.len() - page.len();
    assert(page =~= all.skip(k));
    let at = lemma_visible_index(head, k);
    assert(page[0] == all[k]);
    assert(head.take(at) =~= events.take(at));
    events_are_found_by_identity(id, events, at);
    assert(all.take(k) + page =~= all);
}

/// A reader who has seen everything up to an event misses nothing and gets nothing twice by reading
/// on behind it.
pub proof fn reading_on_misses_nothing(id: Seq<char>, events: Seq<EnvelopeModel>, at: int)
    requires
        is_log(id, events),
        0 <= at < events.len(),
    ensures
        position(events, events[at].event_id) == Some(at),
        visible(events.take(at + 1)) + visible(events.skip(at + 1)) == visible(events),
{
    events_are_found_by_identity(id, events, at);
    lemma_visible_append(events.take(at + 1), events.skip(at + 1));
    assert(events.take(at + 1) + events.skip(at + 1) =~= events);
}

/// What is visible of some events is all those that are marked visible, in their order.
pub proof fn visible_events_are_those_marked(events: Seq<EnvelopeModel>)
    ensures
        visible(events) == events.filter(|event: EnvelopeModel| event.event.visible),
    decreases events.len(),
{
    reveal(Seq::filter);
    if events.len() > 0 {
        visible_events_are_those_marked(events.drop_last());
    }
}

/// The last so many of some events are their end, no longer than asked for and all of them where
/// there are not so many.
pub proof fn last_events_are_the_end(events: Seq<EnvelopeModel>, count: nat)
    ensures
        ({
            let end = last_of(events, count);
            &&& end.len() == if count < events.len() {
                count
            } else {
                events.len()
            }
            &&& forall|i: int|
                0 <= i < end.len() ==> #[trigger] end[i] == events[events.len() - end.len() + i]
        }),
{
}

/// An event of a log that is visible is read by its identity as it stands there, and one that is not
/// visible is not read.
pub proof fn visible_events_are_read_by_identity(
    id: Seq<char>,
    events: Seq<EnvelopeModel>,
    at: int,
)
    requires
        is_log(id, events),
        0 <= at < events.len(),
    ensures
        visible_event(events, events[at].event_id) == if events[at].event.visible {
            Some(events[at])
        } else {
            None
        },
{
    lemma_visible_event(ulid_of(id)->0, events, at, events.len() as int);
    assert(events.take(events.len() as int) =~= events);
}

proof fn lemma_visible_event(session: u128, events: Seq<EnvelopeModel>, at: int, count: int)
    requires
        events.len() <= MAX_SEQUENCE,
        forall|i: int|
            0 <= i < events.len() ==> (#[trigger] events[i]).event_id == id_text(
                session,
                (i + 1) as nat,
            ),
        0 <= at < events.len(),
        0 <= count <= events.len(),
    ensures
        visible_event(events.take(count), events[at].event_id) == if at < count
            && events[at].event.visible {
            Some(events[at])
        } else {
            None
        },
    decreases count,
{
    if count > 0 {
        lemma_visible_event(session, events, at, count - 1);
        let head = events.take(count);
        assert(head.drop_last() =~= events.take(count - 1));
        assert(head.last() == events[count - 1]);
        if at != count - 1 {
            lemma_position(session, events, at, count - 1);
            lemma_position(session, events, at, count);
            if events[count - 1].event_id == events[at].event_id {
                if at < count - 1 {
                    lemma_position(session, events, count - 1, count - 1);
                    lemma_position(session, events, count - 1, count);
                }
            }
        }
    }
}

/// Events that are appended are numbered on from the end of the log, hold what was appended, in the
/// order in which it was, and know their place in the batch.
pub proof fn appended_events_are_numbered_on(
    session: u128,
    schema_version: u32,
    base: nat,
    events: Seq<EventModel>,
    i: int,
)
    requires
        0 <= i < events.len() <= u32::MAX,
        base + events.len() <= 99_999_999_999_999,
    ensures
        ({
            let added = batch(session, schema_version, base, events);
            &&& added.len() == events.len()
            &&& parsed(session, added[i].event_id) == Ok::<u64, EventIdError>(
                (base + i + 1) as u64,
            )
            &&& added[i].event == events[i]
            &&& added[i].schema_version == schema_version
            &&& added[i].batch_index == i
            &&& added[i].batch_count == events.len()
        }),
{
    identity_round_trips(session, (base + i + 1) as u64);
}

/// A batch that is appended to a session with a valid name, while no error is to be taken and the
/// log has room, is taken: the log then ends in its events, one for one, and the log of no other
/// session changes. A batch that is refused changes no log.
pub proof fn appends_are_taken(
    before: MemorySessionStore,
    session_id: Seq<char>,
    events: Seq<EventModel>,
    r: Result<Vec<EventEnvelope>, StoreError>,
    after: MemorySessionStore,
    other: Seq<char>,
)
    requires
        is_append(before, session_id, events, r, after),
    ensures
        before.failure() is None && ulid_of(session_id) is Some && events.len() <= u32::MAX
            && before.log(session_id).len() + events.len() <= 99_999_999_999_999 ==> r is Ok,
        r is Ok ==> {
            &&& after.log(session_id).len() == before.log(session_id).len() + events.len()
            &&& after.log(session_id).take(before.log(session_id).len() as int) == before.log(
                session_id,
            )
            &&& forall|i: int|
                0 <= i < events.len() ==> #[trigger] events[i] == after.log(
                    session_id,
                )[before.log(session_id).len() + i].event
            &&& r->Ok_0@.len() == events.len()
            &&& forall|i: int|
                0 <= i < events.len() ==> (#[trigger] r->Ok_0@[i])@ == after.log(
                    session_id,
                )[before.log(session_id).len() + i]
        },
        r is Err ==> after.log(session_id) == before.log(session_id),
        other != session_id ==> after.log(other) == before.log(other) && after.has_session(other)
            == before.has_session(other),
{
    let base = before.log(session_id);
    if events.len() == 0 {
        assert(base.take(base.len() as int) =~= base);
    } else if r is Ok {
        let added = batch(ulid_of(session_id)->0, before.version(), base.len(), events);
        assert((base + added).take(base.len() as int) =~= base);
        assert forall|i: int| 0 <= i < events.len() implies (#[trigger] r->Ok_0@[i])@ == after.log(
            session_id,
        )[base.len() + i] by {
            assert(envelope_models(r->Ok_0@)[i] == r->Ok_0@[i]@);
        }
    }
    if other != session_id && events.len() > 0 {
        assert(same_session(before, after, other));
    }
}

/// The complete batches of some events are their start, cut at the batches: put together they are
/// the first events, none left out, and each holds as many events as its first one says, numbered
/// through. What is left over does not start with a complete batch.
pub proof fn batches_are_the_start_of_the_events(events: Seq<EnvelopeModel>)
    ensures
        ({
            let commits = commits_of(events);
            let taken = flattened(commits);
            let left = events.skip(taken.len() as int);
            &&& taken.len() <= events.len()
            &&& taken == events.take(taken.len() as int)
            &&& forall|k: int|
                0 <= k < commits.len() ==> (#[trigger] commits[k]).len() > 0 && is_batch(
                    commits[k],
                )
            &&& left.len() > 0 ==> left[0].batch_count == 0 || left[0].batch_count > left.len()
                || !is_batch(left.take(left[0].batch_count as int))
        }),
    decreases events.len(),
{
    let commits = commits_of(events);
    if commits.len() == 0 {
        assert(events.take(0) =~= Seq::empty());
        assert(events.skip(0) =~= events);
    } else {
        let count = events[0].batch_count as int;
        let rest = events.skip(count);
        batches_are_the_start_of_the_events(rest);
        assert(commits.drop_first() =~= commits_of(rest));
        let taken = flattened(commits);
        let more = flattened(commits_of(rest));
        assert(taken =~= events.take(taken.len() as int));
        assert(rest.skip(more.len() as int) =~= events.skip(taken.len() as int));
        assert forall|k: int| 0 <= k < commits.len() implies (#[trigger] commits[k]).len() > 0
            && is_batch(commits[k]) by {
            if k > 0 {
                assert(commits[k] == commits_of(rest)[k - 1]);
            }
        }
    }
}

/// A batch that breaks off, or that counts wrong, is not read, nor is anything behind it.
pub proof fn broken_batches_end_the_log(events: Seq<EnvelopeModel>)
    requires
        events.len() > 0,
        events[0].batch_count == 0 || events[0].batch_count > events.len()
            || events[0].batch_index != 0,
    ensures
        commits_of(events).len() == 0,
{
    let count = events[0].batch_count as int;
    if 0 < count <= events.len() {
        assert(events.take(count)[0] == events[0]);
    }
}

/// Whether a session may be read: its name is valid, and so is the event that is named, if one is.
pub proof fn reads_are_tested(session_id: Seq<char>, cursor: Option<Seq<char>>)
    ensures
        read_fault(session_id, cursor) is None <==> {
            &&& ulid_of(session_id) is Some
            &&& cursor is None || parsed(ulid_of(session_id)->0, cursor->0) is Ok
        },
        ulid_of(session_id) is None ==> read_fault(session_id, cursor) == Some(true),
{
}

/// The commits of windows, the oldest first: those of the last window, then those of the ones before
/// it in the list, each behind the snapshot that it starts with.
pub open spec fn unwindowed(windows: Seq<WindowModel>) -> Seq<Seq<EnvelopeModel>>
    decreases windows.len(),
{
    if windows.len() == 0 {
        Seq::empty()
    } else {
        unwindowed(windows.drop_first()) + (match windows[0].origin {
            OriginModel::Snapshot(snapshot) => seq![seq![snapshot]],
            _ => Seq::empty(),
        }) + windows[0].commits
    }
}

/// Windows are the commits of a session, cut before each snapshot: put together they are all commits
/// in their order, no window holds a snapshot among its commits, and every window but the last
/// starts with one.
pub proof fn windows_are_the_commits(commits: Seq<Seq<EnvelopeModel>>)
    ensures
        ({
            let windows = windows_of(commits, Seq::empty());
            &&& unwindowed(windows) == commits
            &&& forall|w: int, k: int|
                0 <= w < windows.len() && 0 <= k < windows[w].commits.len() ==> !is_snapshot(
                    #[trigger] windows[w].commits[k],
                )
            &&& forall|w: int|
                0 <= w < windows.len() - 1 ==> (#[trigger] windows[w]).origin is Snapshot
            &&& forall|w: int|
                0 <= w < windows.len() ==> !((#[trigger] windows[w]).origin is Unanchored)
        }),
{
    lemma_windows(commits, Seq::empty());
    assert(commits + Seq::<Seq<EnvelopeModel>>::empty() =~= commits);
}

proof fn lemma_windows(commits: Seq<Seq<EnvelopeModel>>, newer: Seq<Seq<EnvelopeModel>>)
    requires
        forall|k: int| 0 <= k < newer.len() ==> !is_snapshot(#[trigger] newer[k]),
    ensures
        ({
            let windows = windows_of(commits, newer);
            &&& unwindowed(windows) == commits + newer
            &&& forall|w: int, k: int|
                0 <= w < windows.len() && 0 <= k < windows[w].commits.len() ==> !is_snapshot(
                    #[trigger] windows[w].commits[k],
                )
            &&& forall|w: int|
                0 <= w < windows.len() - 1 ==> (#[trigger] windows[w]).origin is Snapshot
            &&& forall|w: int|
                0 <= w < windows.len() ==> !((#[trigger] windows[w]).origin is Unanchored)
        }),
    decreases commits.len(),
{
    let windows = windows_of(commits, newer);
    let none = Seq::<Seq<EnvelopeModel>>::empty();
    if commits.len() == 0 {
        assert(commits + newer =~= newer);
        if newer.len() > 0 {
            assert(windows.drop_first() =~= Seq::<WindowModel>::empty());
            assert(unwindowed(windows.drop_first()) =~= none);
            assert(none + none + newer =~= newer);
        }
    } else if is_snapshot(commits.last()) {
        let rest = windows_of(commits.drop_last(), none);
        lemma_windows(commits.drop_last(), none);
        assert(windows.drop_first() =~= rest);
        assert(seq![commits.last()[0]] =~= commits.last());
        assert(commits.drop_last() + none =~= commits.drop_last());
        assert(commits.drop_last() + seq![commits.last()] =~= commits);
        assert forall|w: int, k: int|
            0 <= w < windows.len() && 0 <= k < windows[w].commits.len() implies !is_snapshot(
            #[trigger] windows[w].commits[k],
        ) by {
            if w > 0 {
                assert(windows[w] == rest[w - 1]);
                assert(!is_snapshot(rest[w - 1].commits[k]));
            }
        }
        assert forall|w: int| 0 <= w < windows.len() - 1 implies (
        #[trigger] windows[w]).origin is Snapshot by {
            if w > 0 {
                assert(windows[w] == rest[w - 1]);
            }
        }
        assert forall|w: int| 0 <= w < windows.len() implies !((
        #[trigger] windows[w]).origin is Unanchored) by {
            if w > 0 {
                assert(windows[w] == rest[w - 1]);
            }
        }
    } else {
        lemma_windows(commits.drop_last(), seq![commits.last()] + newer);
        assert(commits.drop_last() + (seq![commits.last()] + newer) =~= commits + newer);
    }
}

/// An append that is refused says why: the error of a release, then a name that is no session's, then
/// a batch that is too large, then a log that has no room left.
pub proof fn refused_appends_say_why(
    before: MemorySessionStore,
    session_id: Seq<char>,
    events: Seq<EventModel>,
    error: StoreError,
    after: MemorySessionStore,
)
    requires
        is_append(before, session_id, events, Err(error), after),
    ensures
        before.failure() matches Some(message) ==> (error matches StoreError::Io(told) && told@
            == message),
        before.failure() is None && ulid_of(session_id) is None ==> (
        error matches StoreError::InvalidSessionId(id) && id@ == session_id),
        before.failure() is None && ulid_of(session_id) is Some && events.len() > 4_294_967_295
            ==> error is BatchTooLarge,
        before.failure() is None && ulid_of(session_id) is Some && events.len() <= 4_294_967_295
            ==> before.log(session_id).len() + events.len() > 99_999_999_999_999 && error
            == StoreError::EventId(EventIdError::SequenceOutOfRange(100_000_000_000_000)),
{
}

/// A read that cannot be made says why: a name that is no session's, or an event that is none of it.
pub proof fn refused_reads_say_why(
    error: QueryError,
    session_id: Seq<char>,
    cursor: Option<Seq<char>>,
)
    requires
        tells_fault(error, session_id, cursor),
    ensures
        ulid_of(session_id) is None ==> (error matches QueryError::InvalidSessionId(id) && id@
            == session_id),
        ulid_of(session_id) is Some ==> cursor is Some && parsed(
            ulid_of(session_id)->0,
            cursor->0,
        ) is Err && (error matches QueryError::InvalidCursor(id) && id@ == cursor->0),
{
}

/// Sessions are found with the one that was active last first, and those that were active together
/// by their names.
pub proof fn active_sessions_are_found_first(
    store: MemorySessionStore,
    found: Seq<SessionDiscovery>,
    i: int,
    j: int,
)
    requires
        lists_sessions(store, found),
        0 <= i < j < found.len(),
    ensures
        store.has_session(found[i].session_id@),
        store.activity(found[i].session_id@) >= store.activity(found[j].session_id@),
        store.activity(found[i].session_id@) == store.activity(found[j].session_id@) ==> text_less(
            found[i].session_id@,
            found[j].session_id@,
        ),
{
    assert(found_before(found[i], found[j]));
}

/// A store starts with appends let through and no error to take; an append takes the error and
/// changes nothing else of that.
pub proof fn errors_are_taken_once(state: GateModel, message: Seq<char>)
    ensures
        !open_gate().paused && open_gate().blocked == 0 && open_gate().release_error is None,
        passed(state).release_error is None,
        passed(state).paused == state.paused && passed(state).blocked == state.blocked,
        released_with(state, message).release_error == Some(message) && !released_with(
            state,
            message,
        ).paused && released_with(state, message).blocked == state.blocked,
{
}

/// An event of a log tells its identity, its version, its place in its batch, whether it is visible
/// and what happened; a list of events tells each of them.
pub proof fn events_tell_all_they_hold(events: Seq<EventEnvelope>, i: int)
    requires
        0 <= i < events.len(),
    ensures
        envelope_models(events).len() == events.len(),
        ({
            let told = envelope_models(events)[i];
            let event = events[i];
            &&& told.event_id == event.event_id@
            &&& told.schema_version == event.schema_version
            &&& told.batch_index == event.batch_index && told.batch_count == event.batch_count
            &&& told.event.visible == event.event.visible
            &&& match event.event.payload {
                EventPayload::Snapshot { state_schema_version, state } => told.event.payload
                    == PayloadModel::Snapshot { state_schema_version, state: state@ },
                EventPayload::Entry { kind, body, public } => told.event.payload
                    == PayloadModel::Entry { kind: kind@, body: body@, public: public@ },
            }
        }),
{
}

} // verus!
