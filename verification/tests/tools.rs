use serde_json::Value;
use zork::builtin::{builtin_contracts, register_builtin_tools, BuiltinKind, ToolHandler};
use zork::builtin_run::{
    end_result, execute, file_edit, file_edit_path, file_edit_text, file_read, file_read_request,
    file_write, file_write_request, history_list, history_request, resolve_path, shell_plan,
    shell_run, shell_step, task_failed, tool_cancel_result, wait_result, CollectorReport,
    HistoryRow, ReadReport, ReadSource, ShellAction, ShellEnd, ShellEvent, ShellPhase, ToolStart,
    SHELL_TAIL_BYTES,
};
use zork::edits::apply_edits;
use zork::filesystem::MemoryFileSystem;
use zork::json::Json;
use zork::paging::{page_bytes, page_read, page_span, tail_bytes, tail_start};
use zork::text_map::TextMap;
use zork::tools::{
    discard_unknown_fields, provider_call_definition, tool_help, tool_help_contract,
    validate_contract, DynamicCall, DynamicCallError, NoToolState, ToolChange, ToolContext,
    ToolContract, ToolDefinitionError, ToolInstance, ToolOutcome, ToolRegistry, ToolResolution,
    ToolVersion,
};

fn from_value(value: Value) -> Json {
    match value {
        Value::Null => Json::Null,
        Value::Bool(value) => Json::Bool(value),
        Value::Number(number) => match (number.as_u64(), number.as_i64()) {
            (Some(value), _) => Json::Unsigned(value),
            (None, Some(value)) => Json::Negative(value),
            _ => Json::Decimal(number.to_string()),
        },
        Value::String(text) => Json::Text(text),
        Value::Array(items) => Json::Array(items.into_iter().map(from_value).collect()),
        Value::Object(fields) => Json::Object(
            fields
                .into_iter()
                .map(|(key, value)| (key, from_value(value)))
                .collect(),
        ),
    }
}

fn to_value(value: &Json) -> Value {
    match value {
        Json::Null => Value::Null,
        Json::Bool(value) => Value::from(*value),
        Json::Unsigned(value) => Value::from(*value),
        Json::Negative(value) => Value::from(*value),
        Json::Decimal(text) => Value::Number(text.parse().unwrap()),
        Json::Text(text) => Value::String(text.clone()),
        Json::Array(items) => items.iter().map(to_value).collect(),
        Json::Object(fields) => fields
            .iter()
            .map(|(key, value)| (key.clone(), to_value(value)))
            .collect(),
    }
}

fn json(text: &str) -> Json {
    from_value(value(text))
}

fn value(text: &str) -> Value {
    serde_json::from_str(text).unwrap()
}

fn version(text: &str) -> ToolVersion {
    ToolVersion::new(text).unwrap()
}

fn contract(name: &str, revision: &str) -> ToolContract {
    ToolContract {
        name: name.to_owned(),
        version: version(revision),
        initial_description: "does something".to_owned(),
        detailed_description: "does something in detail".to_owned(),
        input_schema: json(
            r#"{"type":"object","properties":{"path":{"type":"string"}},"required":["path"],"additionalProperties":false}"#,
        ),
    }
}

fn context() -> ToolContext {
    ToolContext {
        session_id: "s".to_owned(),
        invocation_id: "i7".to_owned(),
        workspace: "/work".to_owned(),
    }
}

#[test]
fn provider_exposes_one_fixed_call_shape_for_all_logical_tools() {
    let definition = provider_call_definition();
    let schema = to_value(&definition.input_schema);
    assert_eq!(definition.name, "call");
    assert_eq!(schema["type"], "object");
    assert_eq!(schema["required"], value(r#"["tool", "arguments"]"#));
    assert_eq!(schema["additionalProperties"], false);
    assert_eq!(schema["properties"]["tool"]["type"], "string");
    assert_eq!(schema["properties"]["arguments"]["type"], "object");

    let call = DynamicCall::from_value(&json(
        r#"{
            "tool": "file.read",
            "arguments": {"path": "README.md"},
            "comment": "ignored"
        }"#,
    ))
    .unwrap();
    assert_eq!(call.tool, "file.read");
    assert_eq!(to_value(&call.arguments), value(r#"{"path": "README.md"}"#));
}

#[test]
fn calls_without_a_tool_are_refused() {
    assert!(matches!(
        DynamicCall::from_value(&json(r#"{"tool":" ","arguments":{}}"#)),
        Err(DynamicCallError::EmptyTool)
    ));
    assert!(matches!(
        DynamicCall::from_value(&json(r#"{"arguments":{}}"#)),
        Err(DynamicCallError::Invalid(_))
    ));
}

#[test]
fn contracts_need_names_descriptions_and_a_schema() {
    assert!(validate_contract(&contract("file.read", "1")).is_ok());
    assert!(matches!(
        validate_contract(&ToolContract { name: " ".to_owned(), ..contract("x", "1") }),
        Err(ToolDefinitionError::EmptyName)
    ));
    assert!(matches!(
        validate_contract(&ToolContract {
            initial_description: String::new(),
            ..contract("x", "1")
        }),
        Err(ToolDefinitionError::EmptyInitialDescription)
    ));
    assert!(matches!(
        validate_contract(&ToolContract {
            detailed_description: String::new(),
            ..contract("x", "1")
        }),
        Err(ToolDefinitionError::EmptyDetailedDescription)
    ));
    let broken = ToolContract { input_schema: json(r#"{"type":"no such type"}"#), ..contract("x", "1") };
    let error = validate_contract(&broken).unwrap_err();
    assert!(error.message().starts_with("invalid tool input schema: "));
    assert!(matches!(ToolVersion::new(""), Err(ToolDefinitionError::EmptyVersion)));
    assert_eq!(version("1.2").as_str(), "1.2");
}

#[test]
fn arguments_are_pruned_and_then_held_to_the_schema() {
    let instance = ToolInstance::new(contract("file.read", "1"), 7u8).unwrap();
    let prepared = instance
        .prepare_arguments(&json(r#"{"path":"a","comment":"dropped"}"#))
        .unwrap();
    assert_eq!(to_value(&prepared), value(r#"{"path":"a"}"#));
    assert!(instance.prepare_arguments(&json(r#"{"path":3}"#)).is_err());
    assert!(instance.prepare_arguments(&json("{}")).is_err());
    assert_eq!(*instance.handler(), 7);
    assert_eq!(instance.contract().name, "file.read");
}

#[test]
fn unknown_fields_are_dropped_once_and_for_all() {
    let schema = json(
        r#"{"type":"object","additionalProperties":false,"properties":{"a":{"type":"object","additionalProperties":false,"properties":{"b":{}}},"l":{"type":"array","items":{"type":"object","additionalProperties":false,"properties":{"k":{}}}}}}"#,
    );
    let given = json(r#"{"a":{"b":1,"x":2},"l":[{"k":1,"y":2}],"z":3}"#);
    let once = discard_unknown_fields(&given, &schema);
    assert_eq!(to_value(&once), value(r#"{"a":{"b":1},"l":[{"k":1}]}"#));
    let twice = discard_unknown_fields(&once, &schema);
    assert_eq!(to_value(&twice), to_value(&once));
}

#[test]
fn registries_offer_and_resolve_tools() {
    let mut registry: ToolRegistry<u8, NoToolState> = ToolRegistry::new();
    registry.register(ToolInstance::new(contract("b", "1"), 1).unwrap(), NoToolState);
    registry.register(ToolInstance::new(contract("a", "1"), 2).unwrap(), NoToolState);
    let names: Vec<String> = registry
        .initial_catalog()
        .into_iter()
        .map(|tool| tool.name)
        .collect();
    assert_eq!(names, ["a", "b"]);
    assert!(matches!(registry.resolve("a", Some(&version("1"))), ToolResolution::Ready(_)));
    assert!(matches!(
        registry.resolve("a", Some(&version("0"))),
        ToolResolution::VersionChanged { current } if current.as_str() == "1"
    ));
    assert!(matches!(registry.resolve("c", None), ToolResolution::Unavailable));
    assert_eq!(registry.current_contract("b").unwrap().name, "b");
    assert!(registry.compatibility("b").is_some());
    assert!(registry.remove("b"));
    assert!(!registry.remove("b"));
}

#[test]
fn changes_of_an_offer_are_told() {
    let mut registry: ToolRegistry<u8, NoToolState> = ToolRegistry::new();
    registry.register(ToolInstance::new(contract("new", "1"), 1).unwrap(), NoToolState);
    registry.register(ToolInstance::new(contract("same", "1"), 1).unwrap(), NoToolState);
    registry.register(ToolInstance::new(contract("moved", "2"), 1).unwrap(), NoToolState);
    let mut known: TextMap<ToolVersion> = TextMap::new();
    known.insert("same", version("1"));
    known.insert("moved", version("1"));
    known.insert("gone", version("1"));
    let changes = registry.changes(&known);
    let told: Vec<String> = changes
        .iter()
        .map(|change| match change {
            ToolChange::Added { name, .. } => format!("+{name}"),
            ToolChange::Updated { name, version } => format!("~{name} {}", version.as_str()),
            ToolChange::Removed { name } => format!("-{name}"),
        })
        .collect();
    assert_eq!(told, ["-gone", "~moved 2", "+new"]);
    assert_eq!(changes.len(), 3);
}

#[test]
fn help_gives_the_detailed_description() {
    let mut registry: ToolRegistry<u8, NoToolState> = ToolRegistry::new();
    registry.register(ToolInstance::new(contract("a", "1"), 1).unwrap(), NoToolState);
    let help = tool_help(Some(&registry), &json(r#"{"tool":"a"}"#));
    assert_eq!(help.outcome, ToolOutcome::Succeeded);
    assert!(to_value(&help.data).to_string().contains("does something in detail"));
    let missing = tool_help(Some(&registry), &json("{}"));
    assert_eq!(to_value(&missing.data)["error"], "tool.help requires an exact tool name.");
    let nothing: Option<&ToolRegistry<u8, NoToolState>> = None;
    assert_eq!(tool_help(nothing, &json(r#"{"tool":"a"}"#)).outcome, ToolOutcome::Failed);
    assert!(validate_contract(&tool_help_contract(version("1"))).is_ok());
}

#[test]
fn builtin_tools_are_well_defined() {
    let all = builtin_contracts().unwrap();
    assert_eq!(all.len(), 8);
    for (_, contract) in &all {
        assert!(validate_contract(contract).is_ok(), "{}", contract.name);
    }
    let shell = all.iter().find(|(kind, _)| *kind == BuiltinKind::ShellRun).unwrap();
    assert_eq!(shell.1.name, "shell.run");
}

#[test]
fn small_tools_answer_with_their_arguments() {
    let end = end_result(&json(r#"{"acknowledge_outstanding":true}"#));
    assert_eq!(to_value(&end.data), value(r#"{"acknowledge_outstanding":true}"#));
    let cancel = tool_cancel_result(&json(r#"{"invocation_id":"x"}"#));
    assert_eq!(to_value(&cancel.data), value(r#"{"invocation_id":"x"}"#));
    let wait = wait_result(1_000, 500, &json(r#"{"reason":"ci"}"#));
    assert_eq!(to_value(&wait.data), value(r#"{"until_ms":1500,"reason":"ci"}"#));
    let late = wait_result(i64::MAX, 5, &json("{}"));
    assert_eq!(to_value(&late.data)["until_ms"], i64::MAX);
}

#[test]
fn histories_are_listed_with_their_addresses() {
    let request = history_request(&json(r#"{"limit":3,"before_event_id":"9"}"#));
    assert_eq!(request.limit, 3);
    let rows = vec![HistoryRow { event_id: "5".to_owned(), kind: "input".to_owned() }];
    let listed = history_list(Ok(&rows));
    assert_eq!(
        to_value(&listed.data),
        value(
            r#"{"events":[{"event_id":"5","kind":"input","uri":"zork://history/5"}],"next_before_event_id":"5"}"#
        )
    );
    let failed = history_list(Err("down"));
    assert_eq!(to_value(&failed.data)["error"], "History query failed: down");
}

#[test]
fn files_are_read_page_by_page() {
    assert_eq!(resolve_path("/work", "a.txt"), "/work/a.txt");
    assert_eq!(resolve_path("/work", "/etc/a"), "/etc/a");
    let request = file_read_request(&context(), &json(r#"{"path":"a.txt","offset":2}"#));
    assert!(matches!(&request.source, ReadSource::File(path) if path == "/work/a.txt"));
    assert_eq!((request.offset, request.limit), (2, 65536));
    let event = file_read_request(&context(), &json(r#"{"path":"zork://history/7"}"#));
    assert!(matches!(event.source, ReadSource::Event(id) if id == "7"));
    let read = file_read(&ReadReport::Event(b"hello world".to_vec()), 6, 3);
    assert_eq!(
        to_value(&read.data),
        value(r#"{"content":"wor","offset":6,"total_size":11,"next_offset":9}"#)
    );
    let broken = file_read(&ReadReport::Page(page_bytes(&vec![0x61, 0xff], 0, 9)), 0, 9);
    assert_eq!(to_value(&broken.data)["content"], "a\u{fffd}");
    let missing = file_read(&ReadReport::EventMissing("7".to_owned()), 0, 1);
    assert_eq!(to_value(&missing.data)["error"], "History event 7 was not found.");
    let failed = file_read(
        &ReadReport::FileFailed { path: "/x".to_owned(), error: "no".to_owned() },
        0,
        1,
    );
    assert_eq!(to_value(&failed.data)["error"], "Failed to read /x: no");
}

#[test]
fn pages_and_tails_cover_their_bytes() {
    let bytes = "hällo wörld".as_bytes().to_vec();
    for limit in 1..5u64 {
        let mut all: Vec<u8> = Vec::new();
        let mut offset = Some(0);
        while let Some(at) = offset {
            let page = page_bytes(&bytes, at, limit);
            all.extend(page.bytes);
            offset = page.next_offset;
        }
        assert_eq!(all, bytes);
    }
    assert_eq!(page_bytes(&bytes, 99, 5).next_offset, None);
    assert_eq!(tail_bytes(&bytes, 3), b"rld");
    assert_eq!(tail_bytes(&"aä".as_bytes().to_vec(), 1), b"");
    assert_eq!(tail_bytes(&"aä".as_bytes().to_vec(), 2), "ä".as_bytes());
}

#[test]
fn files_are_written_and_edited() {
    let request = file_write_request(&context(), &json(r#"{"path":"a","content":"hä"}"#));
    assert_eq!(request.path, "/work/a");
    assert_eq!(
        to_value(&file_write(&request, None).data),
        value(r#"{"path":"/work/a","bytes":3}"#)
    );
    assert_eq!(
        to_value(&file_write(&request, Some("full")).data)["error"],
        "Failed to write /work/a: full"
    );
    assert_eq!(file_edit_path(&context(), &json(r#"{"path":"a"}"#)), "/work/a");
    let edited = file_edit_text(
        "one two three",
        &json(r#"{"edits":[{"old_text":"three","new_text":"3"},{"old_text":"one","new_text":"1"}]}"#),
    )
    .unwrap();
    assert_eq!((edited.text.as_str(), edited.edits), ("1 two 3", 2));
    assert_eq!(to_value(&file_edit("/a", Ok(2)).data), value(r#"{"path":"/a","edits":2}"#));
    assert_eq!(
        to_value(&file_edit("/a", Err("no")).data)["error"],
        "Failed to edit /a: no"
    );
}

#[test]
fn edits_must_be_clear() {
    let edits = |text: &str| match json(text) {
        Json::Array(items) => items,
        _ => panic!("a list"),
    };
    assert_eq!(
        apply_edits("abc", &edits(r#"[{"new_text":"x"}]"#)).unwrap_err(),
        "edit 1 has no old_text"
    );
    assert_eq!(
        apply_edits("abc", &edits(r#"[{"old_text":"b"}]"#)).unwrap_err(),
        "edit 1 has no new_text"
    );
    assert_eq!(
        apply_edits("abcb", &edits(r#"[{"old_text":"b","new_text":"x"}]"#)).unwrap_err(),
        "edit 1 old_text matched 2 locations"
    );
    assert_eq!(
        apply_edits("aaa", &edits(r#"[{"old_text":"aa","new_text":"b"}]"#)).unwrap_err(),
        "edit 1 old_text matched 2 locations"
    );
    assert_eq!(
        apply_edits("aba", &edits(r#"[{"old_text":"aba","new_text":"b"}]"#)).unwrap(),
        "b"
    );
    assert_eq!(
        apply_edits("abc", &edits(r#"[{"old_text":"z","new_text":"x"}]"#)).unwrap_err(),
        "edit 1 old_text matched 0 locations"
    );
    assert_eq!(
        apply_edits(
            "abc",
            &edits(r#"[{"old_text":"ab","new_text":"x"},{"old_text":"bc","new_text":"y"}]"#)
        )
        .unwrap_err(),
        "edits overlap"
    );
    assert_eq!(
        apply_edits("abc", &edits(r#"[{"old_text":"b","new_text":""}]"#)).unwrap(),
        "ac"
    );
}

#[test]
fn commands_end_in_one_of_four_ways() {
    let plan = shell_plan(&context(), &json(r#"{"command":"make"}"#));
    assert_eq!(plan.command, "make");
    assert_eq!(plan.live_path, "/work/.zork/live-i7.log");
    let ran = |timed_out: bool, status: Result<bool, String>, tail: &[u8]| ShellEnd::Ran {
        timed_out,
        collector: CollectorReport::Done,
        status,
        tail: tail.to_vec(),
    };
    let good = shell_run(&ran(false, Ok(true), b"ok"), "r");
    assert_eq!(good.outcome, ToolOutcome::Succeeded);
    assert_eq!(to_value(&good.data), value(r#"{"output":"ok","output_path":"r"}"#));
    let bad = shell_run(&ran(false, Ok(false), b""), "r");
    assert_eq!(bad.outcome, ToolOutcome::Failed);
    assert_eq!(
        to_value(&bad.data)["output"],
        "(no output)\n\nCommand exited unsuccessfully."
    );
    let late = shell_run(&ran(true, Ok(true), b"x"), "r");
    assert_eq!(late.outcome, ToolOutcome::TimedOut);
    let lost = shell_run(&ran(false, Err("gone".to_owned()), b"x"), "r");
    assert_eq!(
        to_value(&lost.data)["error"],
        "Failed while waiting for command: gone"
    );
    let unstarted = shell_run(&ShellEnd::StartFailed("no sh".to_owned()), "r");
    assert_eq!(to_value(&unstarted.data)["error"], "Failed to start command: no sh");
}

#[test]
fn the_tools_of_the_agent_are_registered() {
    let mut registry: ToolRegistry<ToolHandler, NoToolState> = ToolRegistry::new();
    register_builtin_tools(&mut registry).unwrap();
    let names: Vec<String> = registry
        .initial_catalog()
        .into_iter()
        .map(|introduction| introduction.name)
        .collect();
    assert_eq!(
        names,
        [
            "end", "file.edit", "file.read", "file.write", "history.list", "shell.run",
            "tool.cancel", "tool.help", "wait",
        ]
    );
    let version = ToolVersion::new("builtin-1").unwrap();
    match registry.resolve("shell.run", Some(&version)) {
        ToolResolution::Ready(instance) => {
            assert_eq!(*instance.handler(), ToolHandler::Builtin(BuiltinKind::ShellRun));
            assert!(instance.prepare_arguments(&json(r#"{"command":"ls"}"#)).is_ok());
            assert!(instance.prepare_arguments(&json(r#"{"command":""}"#)).is_err());
        }
        _ => panic!("shell.run is not offered"),
    }
    match registry.resolve("tool.help", Some(&version)) {
        ToolResolution::Ready(instance) => assert_eq!(*instance.handler(), ToolHandler::Help),
        _ => panic!("tool.help is not offered"),
    }
}

#[test]
fn tools_start_as_their_kind_says() {
    let context = ToolContext {
        session_id: "s".to_owned(),
        invocation_id: "i".to_owned(),
        workspace: "/w".to_owned(),
    };
    let start = |kind: BuiltinKind, arguments: &str| execute(kind, &context, &json(arguments), 10, 5);
    assert!(matches!(
        start(BuiltinKind::End, r#"{"acknowledge_outstanding":true}"#),
        ToolStart::Done(done) if to_value(&done.data)["acknowledge_outstanding"] == true
    ));
    assert!(matches!(
        start(BuiltinKind::Wait, r#"{"seconds":0.005,"reason":"r"}"#),
        ToolStart::Done(done) if to_value(&done.data)["until_ms"] == 15
    ));
    assert!(matches!(
        start(BuiltinKind::ToolCancel, r#"{"invocation_id":"x"}"#),
        ToolStart::Done(done) if to_value(&done.data)["invocation_id"] == "x"
    ));
    assert!(matches!(
        start(BuiltinKind::HistoryList, r#"{"limit":3}"#),
        ToolStart::ListHistory(request) if request.limit == 3 && request.before.is_none()
    ));
    assert!(matches!(
        start(BuiltinKind::FileRead, r#"{"path":"a"}"#),
        ToolStart::Read(request)
            if request.limit == 65536 && matches!(&request.source, ReadSource::File(path) if path == "/w/a")
    ));
    assert!(matches!(
        start(BuiltinKind::FileWrite, r#"{"path":"a","content":"c"}"#),
        ToolStart::Write(request) if request.path == "/w/a" && request.content == "c"
    ));
    assert!(matches!(
        start(BuiltinKind::FileEdit, r#"{"path":"/b"}"#),
        ToolStart::Edit(path) if path == "/b"
    ));
    assert!(matches!(
        start(BuiltinKind::ShellRun, r#"{"command":"ls"}"#),
        ToolStart::Run(plan) if plan.command == "ls" && plan.live_path == "/w/.zork/live-i.log"
    ));
    assert_eq!(
        to_value(&task_failed("gone").data)["error"],
        "Blocking tool task failed: gone"
    );
}

#[test]
fn an_edit_of_a_text_that_overlaps_itself_changes_nothing() {
    let mut files = MemoryFileSystem::new();
    files.write_text("/w/f", "aaa");
    let context = ToolContext {
        session_id: "s".to_owned(),
        invocation_id: "i".to_owned(),
        workspace: "/w".to_owned(),
    };
    let input = json(r#"{"path":"f","edits":[{"old_text":"aa","new_text":"b"}]}"#);
    let path = file_edit_path(&context, &input);
    let original = files.read_to_string(&path).ok().unwrap();
    let refused = file_edit_text(&original, &input).unwrap_err();
    let result = file_edit(&path, Err(&refused));
    assert_eq!(result.outcome, ToolOutcome::Failed);
    assert_eq!(
        to_value(&result.data)["error"],
        "Failed to edit /w/f: edit 1 old_text matched 2 locations"
    );
    assert_eq!(files.read_text("/w/f").as_deref(), Some("aaa"));
}

#[test]
fn a_timeout_kills_and_waits_again() {
    let (phase, action) = shell_step(ShellPhase::Running, ShellEvent::TimeOver);
    assert_eq!(action, ShellAction::Kill);
    let (phase, action) = shell_step(phase, ShellEvent::Killed);
    assert_eq!(action, ShellAction::Wait);
    let (phase, action) = shell_step(phase, ShellEvent::TimeOver);
    assert_eq!(action, ShellAction::Wait);
    let (phase, action) = shell_step(phase, ShellEvent::WaitEnded(Ok(false)));
    assert_eq!(action, ShellAction::Collect);
    assert!(matches!(phase, ShellPhase::Ended { timed_out: true, status: Ok(false) }));
    let (phase, action) = shell_step(ShellPhase::Running, ShellEvent::WaitEnded(Ok(true)));
    assert_eq!(action, ShellAction::Collect);
    assert!(matches!(phase, ShellPhase::Ended { timed_out: false, status: Ok(true) }));
    assert_eq!(SHELL_TAIL_BYTES, 64 * 1024);
}

#[test]
fn pages_are_read_from_where_they_lie() {
    let all: Vec<u8> = (0..10).collect();
    for (offset, limit) in [(0, 4), (4, 4), (8, 4), (10, 4), (12, 4), (0, 0), (0, 10)] {
        let (start, end) = page_span(10, offset, limit);
        let page = page_read(all[start as usize..end as usize].to_vec(), 10, offset, limit);
        let expected = page_bytes(&all, offset, limit);
        assert_eq!(page.bytes, expected.bytes);
        assert_eq!(page.offset, expected.offset);
        assert_eq!(page.total_size, expected.total_size);
        assert_eq!(page.next_offset, expected.next_offset);
    }
    assert_eq!(page_span(10, 4, 4), (4, 8));
    assert_eq!((tail_start(10, 4), tail_start(3, 4)), (6, 0));
}
