use serde_json::Value;
use zork::api::{
    ApiErrorBody, ApiErrorCode, MessageQuery, PublicRole, SessionSelection, SessionStatus, SessionView,
};
use zork::config::ContextConfig;
use zork::event_id::{EventId, EventIdError, MAX_SEQUENCE};
use zork::http::{
    is_authorized, list_messages, message_limit, open_stream, profile_not_found, public_message,
    query_error, render_tool_data, selection, session_view, slot_status, state_status,
    text_delta_data, unauthorized, validate_mailbox, validate_selection, ApiError, EventFeed,
    FeedStep, ListFault, LiveItem, MessageSearch, PageStep, PublicSlotStatus, QueryFault, ScanItem,
    ScanStep, SessionActivity, SessionFacts, SupervisorFault, TurnOutcome,
};
use zork::identity::{DeterministicIds, IdGenerator};
use zork::json::Json;
use zork::projection::{
    provider_transcript, tool_catalog_prompt, GenerationEntry, SessionInput, ToolDelivery,
    ToolDeliveryMode, ToolInvocation, ToolResultData, TranscriptState,
};
use zork::recovery::{
    apply_envelope, conclude, finish, fold_commits, fold_events, fold_fault, recover,
    restore_snapshot, FoldOutcome, RecoveryError, RecoveryStart, RestoredState, WindowSearch, WindowStep,
};
use zork::service::{persisted, text_delta, LiveEventHub, LiveSessionEvent, ServiceOptions};
use zork::session_log::{
    check_read, complete_commits, AppendGate, EventEnvelope, EventPayload,
    MemorySessionStore, PublicEvent, QueryError, SessionEvent, StoreError, WindowOrigin,
};
use zork::tools::{OutstandingItem, ToolIntroduction, ToolOutcome, ToolVersion};
use zork::wire::TranscriptRole;

fn from_value(value: Value) -> Json {
    match value {
        Value::Null => Json::Null,
        Value::Bool(value) => Json::Bool(value),
        Value::Number(number) => match (number.as_u64(), number.as_i64()) {
            (Some(value), _) => Json::Unsigned(value),
            (None, Some(value)) => Json::Negative(value),
            _ => Json::Decimal(number.to_string()),
        },
        Value::String(text) => Json::Text(text),
        Value::Array(items) => Json::Array(items.into_iter().map(from_value).collect()),
        Value::Object(fields) => Json::Object(
            fields
                .into_iter()
                .map(|(key, value)| (key, from_value(value)))
                .collect(),
        ),
    }
}

fn to_value(value: &Json) -> Value {
    match value {
        Json::Null => Value::Null,
        Json::Bool(value) => Value::from(*value),
        Json::Unsigned(value) => Value::from(*value),
        Json::Negative(value) => Value::from(*value),
        Json::Decimal(text) => Value::Number(text.parse().unwrap()),
        Json::Text(text) => Value::String(text.clone()),
        Json::Array(items) => items.iter().map(to_value).collect(),
        Json::Object(fields) => fields
            .iter()
            .map(|(key, value)| (key.clone(), to_value(value)))
            .collect(),
    }
}

fn json(text: &str) -> Json {
    from_value(value(text))
}

fn value(text: &str) -> Value {
    serde_json::from_str(text).unwrap()
}

const SESSION: u128 = 0x0190_0000_0000_0000_0000_0000_0000_0001;

fn session_id() -> String {
    DeterministicIds::new(1).next()
}

fn entry(kind: &str, visible: bool) -> SessionEvent {
    SessionEvent {
        visible,
        payload: EventPayload::Entry {
            kind: kind.to_owned(),
            body: Json::Null,
            public: PublicEvent::Other,
        },
    }
}

fn input(content: &str) -> SessionEvent {
    SessionEvent {
        visible: true,
        payload: EventPayload::Entry {
            kind: "input_appended".to_owned(),
            body: Json::Null,
            public: PublicEvent::Input { content: content.to_owned() },
        },
    }
}

#[test]
fn identities_round_trip_and_sort() {
    let mut last = String::new();
    for sequence in [1, 2, 9, 10, 4711, MAX_SEQUENCE] {
        let id = EventId::from_sequence(SESSION, sequence).unwrap();
        assert_eq!(id.as_str().len(), 16);
        assert_eq!(id.sequence(), sequence);
        assert_eq!(EventId::parse(SESSION, id.as_str()).unwrap().sequence(), sequence);
        assert_eq!(EventId::parse_sequence(SESSION, id.as_str()).unwrap(), sequence);
        assert!(id.as_str() > last.as_str());
        last = id.as_str().to_owned();
    }
}

#[test]
fn identities_are_bound_to_their_session() {
    let id = EventId::from_sequence(SESSION, 42).unwrap();
    let strangers = (1..200u128)
        .filter(|other| EventId::parse(SESSION + other, id.as_str()).is_err())
        .count();
    assert!(strangers > 150);
    assert!(matches!(
        EventId::from_sequence(SESSION, MAX_SEQUENCE + 1),
        Err(EventIdError::SequenceOutOfRange(sequence)) if sequence == MAX_SEQUENCE + 1
    ));
    assert!(matches!(EventId::parse(SESSION, "12"), Err(EventIdError::NonCanonical)));
    assert!(matches!(
        EventId::parse(SESSION, "000000000000004x"),
        Err(EventIdError::NonCanonical)
    ));
    assert!(!EventIdError::ChecksumMismatch.message().is_empty());
}

#[test]
fn wrong_digits_are_found() {
    let id = EventId::from_sequence(SESSION, 123_456_789).unwrap();
    let digits: Vec<char> = id.as_str().chars().collect();
    for at in 0..15 {
        for digit in '0'..='9' {
            if digit != digits[at] {
                let mut changed = digits.clone();
                changed[at] = digit;
                let text: String = changed.into_iter().collect();
                assert!(matches!(
                    EventId::parse(SESSION, &text),
                    Err(EventIdError::ChecksumMismatch) | Err(EventIdError::SequenceOutOfRange(_))
                ));
            }
        }
    }
    for at in 0..14 {
        if digits[at] != digits[at + 1] {
            let mut changed = digits.clone();
            changed.swap(at, at + 1);
            let text: String = changed.into_iter().collect();
            assert!(EventId::parse(SESSION, &text).is_err());
        }
    }
}

#[test]
fn batches_are_kept_and_read_back() {
    let mut store = MemorySessionStore::new(3);
    let id = session_id();
    let first = store
        .append_batch(&id, &vec![entry("created", true), entry("hidden", false)])
        .unwrap();
    assert_eq!(first.len(), 2);
    assert_eq!((first[0].batch_index, first[1].batch_index), (0, 1));
    assert_eq!(first[1].batch_count, 2);
    assert_eq!(first[0].schema_version, 3);
    let second = store.append_batch(&id, &vec![entry("input", true)]).unwrap();
    assert_eq!(store.events(&id).len(), 3);
    assert_eq!(store.all_commits(&id).unwrap().len(), 2);
    assert_eq!(complete_commits(&store.events(&id)).len(), 2);
    assert_eq!(
        store.last_commit(&id).unwrap().unwrap().events[0].event_id,
        second[0].event_id
    );
    let seen = store.scan_after(&id, Some(&first[0].event_id)).unwrap();
    assert_eq!(seen.len(), 1);
    assert_eq!(seen[0].event_id, second[0].event_id);
    let page = store.before(&id, None, 1).unwrap();
    assert_eq!(page[0].event_id, second[0].event_id);
    let older = store.before(&id, Some(&page[0].event_id), 5).unwrap();
    assert_eq!(older.len(), 1);
    assert_eq!(older[0].event_id, first[0].event_id);
    assert!(store.event(&id, &first[0].event_id).unwrap().is_some());
    assert!(store.event(&id, &first[1].event_id).unwrap().is_none());
    assert!(store.session_exists(&id));
    assert!(!store.session_exists("nobody"));
    assert_eq!(store.discover_sessions()[0].session_id, id);
}

#[test]
fn logs_refuse_what_they_cannot_keep() {
    let mut store = MemorySessionStore::new(1);
    let id = session_id();
    assert!(matches!(
        store.append_batch("nobody", &vec![entry("x", true)]),
        Err(StoreError::InvalidSessionId(_))
    ));
    let pause = store.pause_appends();
    pause.release_with_error(&mut store, "disk full");
    assert!(matches!(
        store.append_batch(&id, &vec![entry("x", true)]),
        Err(StoreError::Io(message)) if message == "disk full"
    ));
    assert!(store.append_batch(&id, &vec![entry("x", true)]).is_ok());
    assert!(matches!(store.last_commit("nobody"), Err(QueryError::InvalidSessionId(_))));
    let other = DeterministicIds::new(9).next();
    assert!(matches!(store.last_commit(&other), Err(QueryError::SessionNotFound(_))));
    assert!(matches!(
        store.scan_after(&id, Some("0000000000000000")),
        Err(QueryError::InvalidCursor(_))
    ));
    assert!(check_read(&id, None).is_ok());
    assert!(matches!(store.detach_session(&other), Err(StoreError::SessionNotFound(_))));
    assert!(store.detach_session(&id).is_ok());
    assert!(!store.session_exists(&id));
}

#[test]
fn pages_of_a_history_give_everything() {
    let mut store = MemorySessionStore::new(1);
    let id = session_id();
    for number in 0..25 {
        let kind = format!("event {number}");
        store.append_batch(&id, &vec![entry(&kind, number % 3 != 0)]).unwrap();
    }
    let all: Vec<String> = store
        .scan_after(&id, None)
        .unwrap()
        .into_iter()
        .map(|event| event.event_id)
        .collect();
    for limit in 1..7 {
        let mut pages: Vec<String> = Vec::new();
        let mut cursor: Option<String> = None;
        loop {
            let page = store.before(&id, cursor.as_deref(), limit).unwrap();
            if page.is_empty() {
                break;
            }
            cursor = Some(page[0].event_id.clone());
            pages.splice(0..0, page.into_iter().map(|event| event.event_id));
        }
        assert_eq!(pages, all);
    }
}

#[test]
fn pauses_hold_appends_until_they_end() {
    let mut store = MemorySessionStore::new(1);
    let id = session_id();
    let mut pause = store.pause_appends();
    assert!(store.wait_for_append_permission());
    assert_eq!(store.blocked_appends(), 1);
    assert!(store.append_batch(&id, &Vec::new()).unwrap().is_empty());
    pause.finish(&mut store);
    store.append_resumes();
    assert_eq!(store.blocked_appends(), 0);
    assert!(!store.wait_for_append_permission());
    assert!(store.append_batch(&id, &vec![input("first")]).is_ok());
}

#[test]
fn a_pause_released_with_an_error_fails_one_append() {
    let mut store = MemorySessionStore::new(1);
    let id = session_id();
    let pause = store.pause_appends();
    assert!(store.wait_for_append_permission());
    assert!(store.wait_for_append_permission());
    pause.release_with_error(&mut store, "broken");
    store.append_resumes();
    store.append_resumes();
    assert!(store.append_batch(&id, &Vec::new()).unwrap().is_empty());
    assert!(matches!(
        store.append_batch(&id, &vec![input("one")]),
        Err(StoreError::Io(message)) if message == "broken"
    ));
    assert!(!store.session_exists(&id));
    assert!(store.append_batch(&id, &vec![input("two")]).is_ok());
    assert!(store.append_batch(&id, &vec![input("three")]).is_ok());
    assert_eq!(store.events(&id).len(), 2);
    let mut gate = AppendGate::new();
    gate.pause();
    gate.block();
    assert_eq!((gate.is_paused(), gate.blocked()), (true, 1));
    gate.release_with_error("broken");
    gate.unblock();
    assert_eq!((gate.is_paused(), gate.blocked()), (false, 0));
    assert!(matches!(gate.take_release(), Err(StoreError::Io(message)) if message == "broken"));
    assert!(gate.take_release().is_ok());
}

#[test]
fn recovery_starts_from_the_last_usable_snapshot() {
    let mut store = MemorySessionStore::new(1);
    let id = session_id();
    store.append_batch(&id, &vec![entry("created", true)]).unwrap();
    store.append_snapshot(&id, 1, Json::Null).unwrap();
    store.append_batch(&id, &vec![entry("input", true)]).unwrap();
    let broken = store.append_snapshot(&id, 1, Json::Null).unwrap();
    store.append_batch(&id, &vec![entry("last", true)]).unwrap();
    let mut windows = store.snapshot_windows(&id).unwrap();
    assert_eq!(windows.len(), 3);
    let mut search = WindowSearch::new();
    let first = windows.remove(0);
    assert!(matches!(first.origin, WindowOrigin::Snapshot(_)));
    let step = search.take_window(&id, first, &Err("bad state".to_owned()));
    assert!(matches!(step, WindowStep::Older));
    let usable = Ok(RestoredState { session_id: id.clone(), created: true });
    let step = search.take_window(&id, windows.remove(0), &usable);
    assert!(matches!(step, WindowStep::FoldSnapshot(commits) if commits.len() == 2));
    assert_eq!(
        search.diagnostics(vec!["read".to_owned()], vec![fold_fault("1", "e")]).len(),
        3
    );
    assert_eq!(
        restore_snapshot(&id, &broken.event_id, &Err("bad state".to_owned())).unwrap(),
        format!("snapshot {} was not usable: bad state", broken.event_id)
    );
    let stranger = Ok(RestoredState { session_id: "x".to_owned(), created: true });
    assert!(restore_snapshot(&id, "1", &stranger).unwrap().contains("belongs to session x"));
    assert!(finish(&id, 7, true, Vec::new()).is_ok());
    assert!(matches!(
        finish(&id, 7, false, Vec::new()),
        Err(RecoveryError::Invalid { .. })
    ));
}

#[test]
fn refusals_have_their_status() {
    for (fault, status, code) in [
        (SupervisorFault::NotFound, 404, ApiErrorCode::SessionNotFound),
        (SupervisorFault::SessionOverloaded, 429, ApiErrorCode::SessionOverloaded),
        (SupervisorFault::GlobalOverloaded, 503, ApiErrorCode::GlobalOverloaded),
        (SupervisorFault::CircuitOpen, 503, ApiErrorCode::RunnerCircuitOpen),
        (SupervisorFault::Deleting, 409, ApiErrorCode::SessionDeleting),
        (SupervisorFault::Runner, 500, ApiErrorCode::SessionUnavailable),
    ] {
        let error = ApiError::from_fault(fault, "m");
        assert_eq!((error.status, error.code, error.message.as_str()), (status, code, "m"));
    }
    assert_eq!(query_error(QueryFault::InvalidCursor, "m", "n").status, 400);
    assert_eq!(query_error(QueryFault::Missing, "m", "n").message, "n");
    assert_eq!(query_error(QueryFault::Other, "m", "n").status, 500);
    assert_eq!(unauthorized().status, 401);
    assert_eq!(profile_not_found().message, "profile not found");
    assert_eq!(ApiError::invalid("x").code, ApiErrorCode::InvalidRequest);
    let body = ApiErrorBody::new(ApiErrorCode::Unauthorized, "who");
    assert_eq!(body.error.message, "who");
}

#[test]
fn requests_are_tested_before_they_are_served() {
    assert!(is_authorized(Some("Bearer secret"), "secret"));
    assert!(!is_authorized(Some("bearer secret"), "secret"));
    assert!(!is_authorized(Some("Bearer secret "), "secret"));
    assert!(!is_authorized(None, ""));
    assert!(validate_mailbox("x").is_ok());
    assert_eq!(validate_mailbox("").unwrap_err().message, "content is required");
    let chosen = selection("p", "m", "t").unwrap();
    assert!(selection("p", "", "t").is_err());
    assert!(validate_selection(&chosen, true).is_ok());
    assert!(validate_selection(&chosen, false).is_err());
    assert_eq!(message_limit(&MessageQuery { limit: None, before: None }), 50);
    assert_eq!(message_limit(&MessageQuery { limit: Some(9_999), before: None }), 200);
}

#[test]
fn sessions_show_what_they_do() {
    let quiet = SessionActivity {
        active_step: false,
        auto_wait: false,
        wait_deadline: false,
        active_turn: false,
        pending_tools: false,
        last_turn_outcome: None,
    };
    assert_eq!(state_status(quiet), SessionStatus::Wait);
    assert_eq!(
        state_status(SessionActivity { active_step: true, auto_wait: true, ..quiet }),
        SessionStatus::Thinking
    );
    assert_eq!(
        state_status(SessionActivity { wait_deadline: true, ..quiet }),
        SessionStatus::Waiting
    );
    assert_eq!(
        state_status(SessionActivity { pending_tools: true, ..quiet }),
        SessionStatus::Working
    );
    assert_eq!(
        state_status(SessionActivity {
            pending_tools: true,
            last_turn_outcome: Some(TurnOutcome::Cancelled),
            ..quiet
        }),
        SessionStatus::Cancelled
    );
    assert_eq!(slot_status(PublicSlotStatus::Deleting, false), SessionStatus::Deleting);
    assert_eq!(SessionStatus::Thinking.as_str(), "thinking");
    let view = session_view(&SessionFacts {
        session_id: "s".to_owned(),
        workspace: "/w".to_owned(),
        selection: Some(SessionSelection {
            profile_id: "p".to_owned(),
            model: "m".to_owned(),
            thinking: "t".to_owned(),
        }),
        generation: 4,
        context: ContextConfig::default(),
        activity: quiet,
    });
    let _: &SessionView = &view;
    assert_eq!(view.selection().model, "m");
    assert_eq!((view.generation, view.status), (4, SessionStatus::Wait));
}

#[test]
fn messages_are_collected_from_the_end() {
    let item = |number: usize| EventEnvelope {
        event_id: format!("{number:016}"),
        schema_version: 1,
        batch_index: 0,
        batch_count: 1,
        event: if number % 2 == 0 {
            input(&format!("message {number}"))
        } else {
            entry("turn_started", true)
        },
    };
    let mut search = MessageSearch::new(3);
    let newest: Vec<EventEnvelope> = (300..500).map(item).collect();
    assert!(matches!(search.take_page(&newest), PageStep::Done));
    let page = search.finish();
    let contents: Vec<&str> = page.items.iter().map(|item| item.content.as_str()).collect();
    assert_eq!(contents, ["message 494", "message 496", "message 498"]);
    assert!(page.items.iter().all(|item| item.role == PublicRole::Mailbox));
    assert_eq!(page.older_cursor.as_deref(), Some("0000000000000494"));
    let mut search = MessageSearch::new(3);
    assert!(matches!(search.take_page(&vec![item(2)]), PageStep::Done));
    let page = search.finish();
    assert_eq!(page.items.len(), 1);
    assert_eq!(page.older_cursor, None);
}

#[test]
fn messages_are_listed_page_by_page() {
    let mut store = MemorySessionStore::new(1);
    let id = session_id();
    let asked = |limit: Option<usize>, before: Option<&str>| MessageQuery {
        limit,
        before: before.map(str::to_owned),
    };
    assert!(matches!(
        list_messages(&store, &id, &asked(None, None)),
        Err(ListFault::NotFound)
    ));
    for number in 0..700 {
        let event = if number % 100 == 0 {
            input(&format!("message {number}"))
        } else {
            entry("turn_started", number % 2 == 0)
        };
        store.append_batch(&id, &vec![event]).unwrap();
    }
    let contents = |limit: Option<usize>, before: Option<&str>| {
        let page = list_messages(&store, &id, &asked(limit, before)).unwrap();
        let items: Vec<String> = page.items.into_iter().map(|item| item.content).collect();
        (items, page.older_cursor)
    };
    let (items, older) = contents(Some(3), None);
    assert_eq!(items, ["message 400", "message 500", "message 600"]);
    let (items, older) = contents(Some(3), older.as_deref());
    assert_eq!(items, ["message 100", "message 200", "message 300"]);
    let (items, older) = contents(Some(3), older.as_deref());
    assert_eq!(items, ["message 0"]);
    assert_eq!(older, None);
    assert_eq!(contents(None, None).0.len(), 7);
    for limit in 1..9 {
        let mut all: Vec<String> = Vec::new();
        let mut cursor: Option<String> = None;
        loop {
            let (items, older) = contents(Some(limit), cursor.as_deref());
            all.splice(0..0, items);
            match older {
                Some(older) => cursor = Some(older),
                None => break,
            }
        }
        let expected: Vec<String> = (0..7).map(|number| format!("message {number}00")).collect();
        assert_eq!(all.len(), 7);
        assert_eq!(all[1..], expected[1..]);
    }
    assert_eq!(contents(Some(7), None).1.as_deref(), Some(store.events(&id)[0].event_id.as_str()));
    assert_eq!(contents(Some(0), None), (Vec::new(), None));
    assert!(matches!(
        list_messages(&store, &id, &asked(None, Some("nothing"))),
        Err(ListFault::Query(QueryError::InvalidCursor(_)))
    ));
    let mut other = MemorySessionStore::new(1);
    other.append_batch(&id, &vec![input("one")]).unwrap();
    let unknown = store.events(&id)[8].event_id.clone();
    assert!(matches!(
        list_messages(&other, &id, &asked(None, Some(&unknown))),
        Err(ListFault::Query(QueryError::UnknownCursor(_)))
    ));
}

#[test]
fn the_session_that_was_appended_to_last_is_found_first() {
    let mut ids = DeterministicIds::new(1);
    let (first, second) = (ids.next(), ids.next());
    let mut store = MemorySessionStore::new(1);
    for id in [&first, &second, &first] {
        store.append_batch(id, &vec![input("x")]).unwrap();
        assert_eq!(&store.discover_sessions()[0].session_id, id);
    }
    store.append_snapshot(&second, 1, Json::Null).unwrap();
    let found = store.discover_sessions();
    assert_eq!(found.len(), 2);
    assert_eq!(found[0].session_id, second);
    assert_eq!((found[0].last_activity_ms, found[1].last_activity_ms), (4, 3));
}

#[test]
fn public_messages_say_what_happened() {
    let step = public_message(&PublicEvent::Step {
        assistant_text: "hi".to_owned(),
        conversation: true,
    })
    .unwrap();
    assert_eq!(step.role, PublicRole::Assistant);
    assert!(public_message(&PublicEvent::Step {
        assistant_text: "hi".to_owned(),
        conversation: false,
    })
    .is_none());
    let result = public_message(&PublicEvent::ToolResult {
        outcome: ToolOutcome::Failed,
        data: json(r#"{"error":"no"}"#),
    })
    .unwrap();
    assert_eq!(result.content, r#"Failed: {"error":"no"}"#);
    assert_eq!(render_tool_data(ToolOutcome::Succeeded, &Json::Text("x".to_owned())), "x");
    assert_eq!(
        value(&text_delta_data("s", 2, "step", "t")),
        value(r#"{"session_id":"s","generation":2,"step_id":"step","text":"t"}"#)
    );
}

#[test]
fn feeds_send_every_event_once() {
    let mut feed = EventFeed::new(None, false);
    let history = ScanItem::Event { event_id: "0000000000000002".to_owned() };
    assert!(open_stream(&history, QueryFault::Other, "m", "n").is_ok());
    assert!(open_stream(&ScanItem::Done, QueryFault::Other, "m", "n").is_ok());
    let refused = open_stream(&ScanItem::Failed, QueryFault::UnknownCursor, "m", "n").unwrap_err();
    assert_eq!((refused.status, refused.message.as_str()), (400, "m"));
    let lost = open_stream(&ScanItem::Lost, QueryFault::UnknownCursor, "m", "n").unwrap_err();
    assert_eq!(lost.status, 500);
    assert!(matches!(feed.take_history(&history), ScanStep::Send));
    assert!(matches!(feed.take_history(&ScanItem::Done), ScanStep::Follow));
    assert!(matches!(feed.take_history(&ScanItem::Failed), ScanStep::Close));
    assert!(matches!(feed.take_history(&ScanItem::Lost), ScanStep::Close));
    assert_eq!(feed.cursor(), Some("0000000000000002"));
    let old = LiveItem::Durable { event_id: "0000000000000001".to_owned() };
    let new = LiveItem::Durable { event_id: "0000000000000003".to_owned() };
    assert!(matches!(feed.take_live(&LiveItem::Lagged), FeedStep::CatchUp));
    assert!(matches!(feed.take_live(&old), FeedStep::Skip));
    assert!(matches!(feed.take_live(&new), FeedStep::Send));
    assert!(matches!(feed.take_live(&new), FeedStep::Skip));
    assert!(matches!(feed.take_live(&LiveItem::TextDelta), FeedStep::Skip));
    assert!(matches!(feed.take_live(&LiveItem::Lagged), FeedStep::CatchUp));
    assert!(matches!(feed.take_live(&LiveItem::Closed), FeedStep::Close));
    let mut chatty = EventFeed::new(None, true);
    assert!(matches!(chatty.take_live(&LiveItem::TextDelta), FeedStep::Send));
}

#[test]
fn live_streams_are_shared_by_session() {
    let mut hub = LiveEventHub::new(8);
    let first = hub.subscribe("a", true);
    assert_eq!(hub.subscribe("a", true), first);
    assert_ne!(hub.subscribe("b", true), first);
    assert_eq!(hub.known_stream("a"), Some(first));
    assert_eq!(hub.stream("nobody", false), None);
    assert!(ServiceOptions::default().live_event_capacity > 0);
    let mut store = MemorySessionStore::new(1);
    let id = session_id();
    let events = store
        .append_batch(&id, &vec![entry("a", true), entry("b", false)])
        .unwrap();
    assert_eq!(persisted(&events).len(), 1);
    assert!(matches!(
        text_delta("s", 3, "step", "piece"),
        LiveSessionEvent::TextDelta { session_id, generation: 3, step_id, text }
            if session_id == "s" && step_id == "step" && text == "piece"
    ));
}

fn invocation(id: &str) -> ToolInvocation {
    ToolInvocation {
        invocation_id: id.to_owned(),
        provider_call_id: format!("call-{id}"),
        turn_id: "t".to_owned(),
        tool: "shell.run".to_owned(),
        arguments: json("{}"),
        started_at_ms: 5,
    }
}

#[test]
fn transcripts_follow_the_session() {
    let state = TranscriptState {
        system_prompt: Some("be brief".to_owned()),
        tools: vec![ToolIntroduction {
            name: "end".to_owned(),
            version: ToolVersion::new("1").unwrap(),
            description: "ends".to_owned(),
        }],
        document: None,
        entries: vec![
            GenerationEntry::Inputs { inputs: vec![SessionInput { content: "hello".to_owned() }] },
            GenerationEntry::Notice { message: "careful".to_owned() },
            GenerationEntry::Outstanding {
                items: vec![OutstandingItem { description: Json::Text("tests".to_owned()) }],
            },
            GenerationEntry::ToolDelivery {
                delivery: ToolDelivery::Result {
                    invocation: invocation("1"),
                    result: ToolResultData {
                        invocation_id: "1".to_owned(),
                        tool: "shell.run".to_owned(),
                        outcome: ToolOutcome::Failed,
                        data: json(r#"{"error":"x"}"#),
                    },
                    mode: ToolDeliveryMode::Direct,
                },
            },
        ],
    };
    let messages = provider_transcript(&state);
    assert_eq!(messages.len(), 6);
    assert_eq!(messages[0].content, "be brief");
    assert_eq!(messages[1].content, tool_catalog_prompt(&state.tools));
    assert_eq!(messages[3].content, "[zork-agent runtime notification]\ncareful");
    assert_eq!(
        messages[4].content,
        "[zork-agent runtime notification]\nUnfinished items:\n[\n  \"tests\"\n]"
    );
    assert_eq!(messages[5].role, TranscriptRole::Tool);
    assert_eq!(messages[5].tool_call_id.as_deref(), Some("call-1"));
    assert!(messages[5].is_error);
    let shorter = TranscriptState {
        entries: Vec::new(),
        ..state
    };
    assert_eq!(provider_transcript(&shorter).len(), 2);
}

#[test]
fn plans_pass_over_what_cannot_be_used() {
    let mut store = MemorySessionStore::new(1);
    let id = session_id();
    store.append_batch(&id, &vec![entry("created", true)]).unwrap();
    let good = store.append_snapshot(&id, 1, Json::Null).unwrap();
    store.append_batch(&id, &vec![entry("a", true), entry("b", true)]).unwrap();
    store.append_snapshot(&id, 1, Json::Null).unwrap();
    let last = store.append_batch(&id, &vec![entry("c", true)]).unwrap();
    let usable = || Ok(RestoredState { session_id: id.clone(), created: true });
    let broken = || Err("broken".to_owned());

    let windows = store.snapshot_windows(&id).unwrap();
    let plan = recover(&id, windows, &vec![broken(), usable(), usable()]);
    assert!(matches!(&plan.start, RecoveryStart::Snapshot(event) if event.event_id == good.event_id));
    assert_eq!(plan.diagnostics.len(), 1);
    let events = fold_commits(plan.commits);
    assert_eq!(events.len(), 3);
    assert_eq!(events[2].event_id, last[0].event_id);

    let windows = store.snapshot_windows(&id).unwrap();
    let plan = recover(&id, windows, &vec![broken(), broken(), broken()]);
    assert!(matches!(plan.start, RecoveryStart::Empty));
    assert_eq!(fold_commits(plan.commits).len(), 4);
    assert!(matches!(recover(&id, Vec::new(), &Vec::new()).start, RecoveryStart::Forward));

    assert_eq!(
        apply_envelope(&id, "7", &FoldOutcome::Applied(Some("e".to_owned()))),
        (false, Some("event 7 could not be folded: e".to_owned()))
    );
    assert_eq!(apply_envelope(&id, "7", &FoldOutcome::Applied(None)), (false, None));
    assert_eq!(apply_envelope(&id, "7", &FoldOutcome::Restored(usable())), (true, None));
    assert!(!apply_envelope(&id, "7", &FoldOutcome::Restored(broken())).0);
    let events = store.events(&id);
    let outcomes = vec![
        FoldOutcome::Applied(None),
        FoldOutcome::Restored(usable()),
        FoldOutcome::Applied(Some("e".to_owned())),
    ];
    let (replaced, said) = fold_events(&id, &events[..3].to_vec(), &outcomes);
    assert_eq!(replaced, Some(1));
    assert_eq!(said, [fold_fault(&events[2].event_id, "e")]);
    let plan = recover(
        &id,
        store.snapshot_windows(&id).unwrap(),
        &vec![broken(), usable(), usable()],
    );
    let passed = plan.diagnostics.clone();
    assert_eq!(passed.len(), 1);
    let done = conclude(&id, plan, vec!["read".to_owned()], said.clone(), 5, true).unwrap();
    assert_eq!(done.state, 5);
    assert_eq!(done.diagnostics, ["read".to_owned(), passed[0].clone(), said[0].clone()]);
    let plan = recover(&id, Vec::new(), &Vec::new());
    assert!(matches!(
        conclude(&id, plan, Vec::new(), Vec::new(), 5, false),
        Err(RecoveryError::Invalid { session_id, .. }) if session_id == id
    ));
}
