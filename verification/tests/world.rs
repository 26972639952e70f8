use serde_json::Value;
use zork::api::SessionSelection;
use zork::clock::{
    duration_ms, epoch_ms, remaining_ms, sleep_deadline, system_now_ms, Clock, ManualClock,
};
use zork::fake_provider::{fake_calls, said_text, FakeProvider};
use zork::filesystem::{not_found, FileError, MemoryFileSystem};
use zork::identity::{DeterministicIds, IdGenerator, SystemIdGenerator, UlidGenerator};
use zork::json::Json;
use zork::process::{
    shell_script, ProcessGroup, ProcessStatus, VirtualExit, VirtualProcess,
};
use zork::profiles::{
    admit_request, fake_execution, handoff_input_trigger, input_budget, max_output_tokens,
    model_limits, resolve, resolve_error, ModelError, ModelLimits, ProfileResolveError,
};
use zork::provider_script::{
    client_request, codex_error_event, codex_response_events, json_body, openai_call_events,
    openai_text_events, queue_capacity, request_json, respond_calls, sse_body, sse_frame, sse_frames, CodexConnection, CodexConnectionClosed, CodexInput,
    CodexOutput, ModelRequestClosed, ProviderRequestClosed, ScriptedCall, ToolRequestClosed,
};
use zork::query_gate::{CallCounts, PauseGate};
use zork::session_log::MemorySessionStore;
use zork::tools::ToolDefinition;
use zork::wire::{ProviderMessage, TranscriptRole};

fn from_value(value: Value) -> Json {
    match value {
        Value::Null => Json::Null,
        Value::Bool(value) => Json::Bool(value),
        Value::Number(number) => match (number.as_u64(), number.as_i64()) {
            (Some(value), _) => Json::Unsigned(value),
            (None, Some(value)) => Json::Negative(value),
            _ => Json::Decimal(number.to_string()),
        },
        Value::String(text) => Json::Text(text),
        Value::Array(items) => Json::Array(items.into_iter().map(from_value).collect()),
        Value::Object(fields) => Json::Object(
            fields
                .into_iter()
                .map(|(key, value)| (key, from_value(value)))
                .collect(),
        ),
    }
}

fn to_value(value: &Json) -> Value {
    match value {
        Json::Null => Value::Null,
        Json::Bool(value) => Value::from(*value),
        Json::Unsigned(value) => Value::from(*value),
        Json::Negative(value) => Value::from(*value),
        Json::Decimal(text) => Value::Number(text.parse().unwrap()),
        Json::Text(text) => Value::String(text.clone()),
        Json::Array(items) => items.iter().map(to_value).collect(),
        Json::Object(fields) => fields
            .iter()
            .map(|(key, value)| (key.clone(), to_value(value)))
            .collect(),
    }
}

fn json(text: &str) -> Json {
    from_value(value(text))
}

fn value(text: &str) -> Value {
    serde_json::from_str(text).unwrap()
}

#[test]
fn clocks_are_moved_by_hand() {
    let mut clock = ManualClock::new(100);
    assert!(clock.sleep_until(100).is_none());
    let late = clock.sleep_until(300).unwrap();
    let early = clock.sleep_until(200).unwrap();
    assert_eq!((late.number, early.number), (1, 2));
    assert_eq!(clock.pending_deadlines(), [200, 300]);
    let twin = clock.sleep_until(200).unwrap();
    assert_eq!((twin.deadline_ms, twin.number), (200, 3));
    assert_eq!(clock.pending_timer_count(), 3);
    assert!(clock.cancel(twin));
    assert!(!clock.cancel(twin));
    assert!(clock.advance(50).is_empty());
    let fired = clock.advance_to(250);
    assert_eq!(fired.len(), 1);
    assert_eq!(fired[0].number, early.number);
    assert_eq!(clock.current_ms(), 250);
    assert!(clock.advance_to(10).is_empty());
    assert_eq!(clock.current_ms(), 250);
    assert!(clock.cancel(late));
    assert_eq!(clock.pending_timer_count(), 0);
    assert_eq!(clock.now_ms(), 250);
}

#[test]
fn times_stop_at_the_ends_of_their_range() {
    assert_eq!(epoch_ms(None), 0);
    assert_eq!(epoch_ms(Some(u128::MAX)), i64::MAX);
    assert_eq!(duration_ms(7), 7);
    assert_eq!(sleep_deadline(i64::MAX - 1, 5), i64::MAX);
    assert_eq!(remaining_ms(10, 4), 6);
    assert_eq!(remaining_ms(4, 10), 0);
    assert!(system_now_ms() > 1_700_000_000_000);
}

#[test]
fn identities_grow() {
    let mut ids = DeterministicIds::default();
    let first = ids.next();
    let second = ids.next();
    assert_eq!(first.len(), 26);
    assert!(first < second);
    assert_eq!(DeterministicIds::new(1).next(), first);
    let mut system = SystemIdGenerator { ids: UlidGenerator::new() };
    let mut last = system.next();
    for _ in 0..50 {
        let next = system.next();
        assert!(last < next);
        last = next;
    }
    let mut drawn = UlidGenerator { last: 9 };
    assert_eq!(drawn.after(12), 12);
    assert_eq!(drawn.after(3), 13);
    assert_eq!(UlidGenerator { last: 31 }.after(0), 32);
}

#[test]
fn texts_of_identities_are_those_of_ulids() {
    let mut store = MemorySessionStore::new(1);
    let id = DeterministicIds::new(5).next();
    assert_eq!(id, ulid::Ulid(0x1_0000_0000_0000_0000_0005).to_string());
    assert!(store.append_snapshot(&id, 1, Json::Null).is_ok());
    assert!(store.append_snapshot("too short", 1, Json::Null).is_err());
}

#[test]
fn files_are_read_back() {
    let mut files = MemoryFileSystem::new();
    assert!(!files.has_file("/a/b.txt"));
    files.write_text("/a/b.txt", "hälló");
    assert_eq!(files.read_text("/a/b.txt").as_deref(), Some("hälló"));
    assert_eq!(files.read_to_string("/a//./b.txt/").unwrap(), "hälló");
    assert!(!files.has_file("a/b.txt"));
    files.create("/log");
    files.append("/log", &b"one ".to_vec());
    files.append("/log", &b"two".to_vec());
    assert_eq!(files.read_to_string("/log").unwrap(), "one two");
    files.append("/new", &b"x".to_vec());
    assert!(files.has_file("/new"));
    let page = files.read_page("/log", 4, 2).unwrap();
    assert_eq!((page.bytes, page.next_offset), (b"tw".to_vec(), Some(6)));
    assert_eq!(files.tail("/log", 3).unwrap(), b"two");
    files.write("/bad", vec![0xff, 0x61]);
    assert_eq!(files.read_to_string("/bad").unwrap_err(), FileError::InvalidData);
    assert_eq!(files.read_text("/bad").as_deref(), Some("\u{fffd}a"));
    assert_eq!(files.tail("/bad", 9).unwrap(), b"a");
    assert_eq!(files.read_to_string("/none").unwrap_err(), FileError::NotFound);
    assert_eq!(files.read_page("/none", 0, 1).unwrap_err(), FileError::NotFound);
    assert_eq!(not_found(), "virtual file does not exist");
}

#[test]
fn processes_end_once() {
    assert_eq!(shell_script("ls"), "exec 2>&1\nls");
    let mut process = VirtualProcess::new();
    process.output(b"a".to_vec());
    assert!(process.wait().is_none());
    process.succeed();
    process.output(b"late".to_vec());
    process.error("late");
    process.kill();
    assert_eq!(process.printed(), 1);
    assert_eq!(process.printed_at(0), b"a");
    assert!(process.was_killed());
    assert!(matches!(
        process.wait(),
        Some(VirtualExit::Status(ProcessStatus { success: true }))
    ));
    let mut killed = VirtualProcess::new();
    killed.kill();
    killed.fail();
    assert!(matches!(
        killed.wait(),
        Some(VirtualExit::Status(ProcessStatus { success: false }))
    ));
    let mut broken = VirtualProcess::new();
    broken.error("no pipe");
    assert!(matches!(broken.wait(), Some(VirtualExit::Error(message)) if message == "no pipe"));
}

#[test]
fn groups_are_killed_once() {
    let mut group = ProcessGroup::new(Some(42));
    assert_eq!(group.kill(), Some(-42));
    assert_eq!(group.kill(), None);
    let mut waited = ProcessGroup::new(Some(42));
    waited.waited();
    assert_eq!(waited.kill(), None);
    assert_eq!(ProcessGroup::new(Some(u32::MAX)).id, None);
}

#[test]
fn reads_wait_while_they_are_held_up() {
    let mut gate = PauseGate::new();
    assert!(!gate.arrive("s"));
    let pause = gate.pause("s");
    assert!(gate.is_paused("s"));
    assert!(gate.arrive("s"));
    assert!(gate.arrive("s"));
    assert!(!gate.arrive("other"));
    assert_eq!(gate.blocked("s"), 2);
    gate.release(pause);
    gate.leave("s");
    assert_eq!(gate.blocked("s"), 1);
    gate.leave("s");
    gate.leave("s");
    assert_eq!(gate.blocked("s"), 0);
    let mut counts = CallCounts::new();
    counts.count("s");
    counts.count("s");
    assert_eq!((counts.of("s"), counts.of("t")), (2, 0));
}

fn scripted(id: &str) -> ScriptedCall {
    ScriptedCall {
        provider_call_id: id.to_owned(),
        tool: "end".to_owned(),
        arguments: json("{}"),
    }
}

#[test]
fn scripts_become_streams() {
    assert_eq!(sse_frame("x"), "data: x\n\n");
    assert_eq!(
        sse_frames(&vec!["1".to_owned(), "2".to_owned()]),
        "data: 1\n\ndata: 2\n\ndata: [DONE]\n\n"
    );
    assert_eq!(
        sse_body(&vec![json(r#"{"a":[1,null]}"#)]),
        "data: {\"a\":[1,null]}\n\ndata: [DONE]\n\n"
    );
    let text = openai_text_events("r", "hi");
    assert_eq!(
        to_value(&text[0]),
        value(
            r#"{"id":"r","object":"chat.completion.chunk","choices":[{"index":0,"delta":{"role":"assistant","content":"hi"}}]}"#
        )
    );
    assert_eq!(to_value(&text[1])["usage"]["total_tokens"], 22);
    let calls = openai_call_events("r", &vec![scripted("a"), scripted("b")]);
    let list = to_value(&calls[0])["choices"][0]["delta"]["tool_calls"].clone();
    assert_eq!(list[1]["index"], 1);
    let arguments = list[1]["function"]["arguments"].as_str().unwrap();
    assert_eq!(value(arguments), value(r#"{"tool":"end","arguments":{}}"#));
    assert_eq!(to_value(&calls[1])["choices"][0]["finish_reason"], "tool_calls");
    let direct = respond_calls(&vec![scripted("a")]);
    assert_eq!(direct[0].tool_name, "call");
    assert_eq!(
        to_value(&direct[0].arguments),
        value(r#"{"tool":"end","arguments":{}}"#)
    );
    assert_eq!((queue_capacity(0), queue_capacity(5)), (1, 5));
}

#[test]
fn codex_answers_are_events() {
    let events = codex_response_events("r", &vec![json(r#"{"x":1}"#)], 0, 3);
    assert_eq!(events.len(), 3);
    assert_eq!(to_value(&events[0])["type"], "response.created");
    assert_eq!(
        to_value(&events[1]),
        value(r#"{"type":"response.output_item.done","output_index":0,"item":{"x":1}}"#)
    );
    let usage = to_value(&events[2])["response"]["usage"].clone();
    assert_eq!(usage["input_tokens_details"]["cached_tokens"], 0);
    assert_eq!(usage["output_tokens_details"]["reasoning_tokens"], 2);
    assert_eq!(
        to_value(&codex_error_event(429, "slow", "wait", "q")),
        value(
            r#"{"type":"error","request_id":"q","error":{"status":429,"code":"slow","message":"wait"}}"#
        )
    );
}

#[test]
fn codex_connections_answer_pings() {
    let mut connection = CodexConnection::new();
    assert!(matches!(
        connection.step(CodexInput::Ping(b"p".to_vec())),
        CodexOutput::SendPing(payload) if payload == b"p"
    ));
    assert!(matches!(
        connection.step(CodexInput::ClientPong(b"p".to_vec())),
        CodexOutput::Answer(payload) if payload == b"p"
    ));
    assert!(matches!(
        connection.step(CodexInput::ClientPong(b"p".to_vec())),
        CodexOutput::Nothing
    ));
    connection.step(CodexInput::Ping(b"p".to_vec()));
    assert!(matches!(
        connection.step(CodexInput::ClientPong(b"q".to_vec())),
        CodexOutput::Nothing
    ));
    connection.step(CodexInput::Ping(b"p".to_vec()));
    assert!(matches!(
        connection.step(CodexInput::ClientText(r#"{"a":[1]}"#.to_owned())),
        CodexOutput::Request(body) if to_value(&body) == value(r#"{"a":[1]}"#)
    ));
    assert!(matches!(
        connection.step(CodexInput::ClientText("{".to_owned())),
        CodexOutput::Stop
    ));
    assert!(matches!(connection.step(CodexInput::Undelivered), CodexOutput::Stop));
    assert!(matches!(
        connection.step(CodexInput::ClientPong(b"p".to_vec())),
        CodexOutput::Answer(payload) if payload == b"p"
    ));
    assert!(matches!(
        connection.step(CodexInput::Send(json(r#"{ "a": 1 }"#))),
        CodexOutput::SendText(text) if text == r#"{"a":1}"#
    ));
    assert_eq!(to_value(&client_request(" [1, 2] ").unwrap()), value("[1,2]"));
    assert!(client_request("nothing").is_none());
    assert_eq!(to_value(&request_json(&b"{\"a\":\"\xc3\xa4\"}".to_vec()).unwrap())["a"], "ä");
    assert!(request_json(&b"\"\xff\"".to_vec()).is_none());
    assert!(request_json(&Vec::new()).is_none());
    assert_eq!(json_body(&json(r#"{ "ok": true }"#)), r#"{"ok":true}"#);
    assert!(matches!(connection.step(CodexInput::Close), CodexOutput::CloseAndStop));
    assert!(matches!(
        connection.step(CodexInput::ClientPing(b"z".to_vec())),
        CodexOutput::SendPong(_)
    ));
}

#[test]
fn closed_requests_say_so() {
    assert_eq!(
        ModelRequestClosed.message(),
        "the model request is no longer waiting for a response"
    );
    assert_eq!(
        ToolRequestClosed.message(),
        "the tool request is no longer waiting for a response"
    );
    assert_eq!(
        ProviderRequestClosed.message(),
        "the controlled provider request is no longer waiting for a response"
    );
    assert_eq!(
        CodexConnectionClosed.message(),
        "the controlled Codex WebSocket connection is closed"
    );
}

fn limits() -> ModelLimits {
    ModelLimits {
        context_window_tokens: 100_000,
        max_output_tokens: 10_000,
        reserve_percent: 20,
    }
}

#[test]
fn handoffs_leave_room() {
    assert_eq!(handoff_input_trigger(100_000, 10_000, 20), 80_000);
    assert_eq!(handoff_input_trigger(100_000, 10_000, 0), 85_904);
    assert_eq!(handoff_input_trigger(100_000, 30_000, 20), 65_904);
    assert_eq!(handoff_input_trigger(1_000, 2_000, 20), 0);
    let limits = || ModelLimits {
        context_window_tokens: 100_000,
        max_output_tokens: 30_000,
        reserve_percent: 20,
    };
    assert_eq!(input_budget(Some(Ok(limits()))), Some(65_904));
    assert_eq!(input_budget(Some(Err(ProfileResolveError::NotFound))), None);
    assert_eq!(input_budget(None), None);
    assert_eq!(max_output_tokens(Some(Ok(limits()))), Some(30_000));
    assert_eq!(max_output_tokens(None), None);
    assert_eq!(handoff_input_trigger(u64::MAX, 0, u64::MAX), u64::MAX - u64::MAX / 100);
}

#[test]
fn selections_resolve_to_executions() {
    let chosen = SessionSelection {
        profile_id: "p".to_owned(),
        model: "m".to_owned(),
        thinking: "t".to_owned(),
    };
    let fake = resolve(true, true, &chosen, Ok(limits()), None).unwrap();
    assert_eq!((fake.bearer.as_str(), fake.streaming), ("fake", false));
    let mut loaded = fake_execution(&chosen, limits(), false);
    loaded.bearer = "real".to_owned();
    let real = resolve(false, true, &chosen, Ok(limits()), Some(loaded)).unwrap();
    assert_eq!((real.bearer.as_str(), real.streaming), ("real", false));
    assert!(resolve(false, false, &chosen, Err(ProfileResolveError::NotFound), None).is_err());
    assert_eq!(model_limits(true, Some(Some(limits()))), Ok(limits()));
    assert!(model_limits(true, Some(None)).is_err());
    assert!(model_limits(false, None).is_err());
    assert_eq!(
        resolve_error(ProfileResolveError::AuthUnavailable),
        ModelError::ProfileUnavailable
    );
    assert!(admit_request(Some(10_000), &limits()).is_ok());
    assert_eq!(admit_request(Some(1), &limits()), Err(ModelError::InvalidSelection));
}

fn message(role: TranscriptRole, content: &str) -> ProviderMessage {
    ProviderMessage {
        role,
        content: content.to_owned(),
        is_error: false,
        tool_call_id: None,
        tool_calls: Vec::new(),
        provider_context: None,
    }
}

#[test]
fn the_stand_in_repeats_and_calls() {
    let tools = vec![ToolDefinition {
        name: "call".to_owned(),
        description: "d".to_owned(),
        input_schema: json("{}"),
    }];
    let echo = FakeProvider.complete(&vec![message(TranscriptRole::User, "hello")], &tools, "1");
    assert_eq!((echo.text.as_str(), echo.streamed), ("hello", true));
    let nested = FakeProvider.complete(
        &vec![message(TranscriptRole::User, r#"{"messages":[{"content":"inner"}]}"#)],
        &tools,
        "1",
    );
    assert_eq!(nested.text, "inner");
    let end = FakeProvider.complete(&vec![message(TranscriptRole::Assistant, "x")], &tools, "7");
    assert_eq!(end.tool_calls[0].tool_call_id, "fake-end:7");
    let nothing = FakeProvider.complete(&Vec::new(), &tools, "1");
    assert_eq!(nothing.text, "");
    assert_eq!(said_text("plain", None), "plain");
    assert!(fake_calls(None, "1").is_empty());
}
