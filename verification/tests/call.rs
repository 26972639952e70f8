use serde_json::Value;
use zork::call::{
    broker_address, broker_url, check_arguments, context_from_payload, explicit_slack_coordinates,
    fetch_session_context, find_real_gh, gh_requirements, github_token_request,
    lookup_session_context, lookup_session_context_by_agent_session, needs_context,
    parse_arguments_object, read_env, request_broker, require_env, resolve_github_token,
    resolve_session_context, run, token_from_body, whole_lines, write_stdout, CallEnvironment, ChatCmd,
    Cli, ContextSource, GhCandidate, HistoryPage, IntegrationCmd, JobCmd, MessageKind, NotifyCmd,
    SessionContext, SlackCmd,
};
use zork::json::Json;

fn from_value(value: Value) -> Json {
    match value {
        Value::Null => Json::Null,
        Value::Bool(value) => Json::Bool(value),
        Value::Number(number) => match (number.as_u64(), number.as_i64()) {
            (Some(value), _) => Json::Unsigned(value),
            (None, Some(value)) => Json::Negative(value),
            _ => Json::Decimal(number.to_string()),
        },
        Value::String(text) => Json::Text(text),
        Value::Array(items) => Json::Array(items.into_iter().map(from_value).collect()),
        Value::Object(fields) => Json::Object(
            fields
                .into_iter()
                .map(|(key, value)| (key, from_value(value)))
                .collect(),
        ),
    }
}

fn to_value(value: &Json) -> Value {
    match value {
        Json::Null => Value::Null,
        Json::Bool(value) => Value::from(*value),
        Json::Unsigned(value) => Value::from(*value),
        Json::Negative(value) => Value::from(*value),
        Json::Decimal(text) => Value::Number(text.parse().unwrap()),
        Json::Text(text) => Value::String(text.clone()),
        Json::Array(items) => items.iter().map(to_value).collect(),
        Json::Object(fields) => fields
            .iter()
            .map(|(key, value)| (key.clone(), to_value(value)))
            .collect(),
    }
}

fn json(text: &str) -> Json {
    from_value(value(text))
}

fn value(text: &str) -> Value {
    serde_json::from_str(text).unwrap()
}

fn environment(pairs: &[(&str, &str)]) -> CallEnvironment {
    let read = |name: &str| {
        pairs
            .iter()
            .find(|(key, _)| *key == name)
            .map(|(_, value)| value.to_string())
    };
    CallEnvironment {
        session_key: read("SESSION_KEY"),
        platform: read("CHAT_PLATFORM"),
        connection_id: read("CHAT_CONNECTION_ID"),
        conversation_id: read("CHAT_CONVERSATION_ID"),
        root_message_id: read("CHAT_ROOT_MESSAGE_ID"),
        agent_session_id: read("ZORK_AGENT_SESSION_ID"),
    }
}

fn known(pairs: &[(&str, &str)]) -> SessionContext {
    match resolve_session_context(&environment(pairs)) {
        ContextSource::Known(context) => context,
        _ => panic!("the environment names the session"),
    }
}

fn page() -> HistoryPage {
    HistoryPage {
        before_message_id: None,
        before_cursor: None,
        limit: None,
        format: None,
    }
}

#[test]
fn post_message_hits_broker() {
    let context = known(&[
        ("SESSION_KEY", "connection-1:C123:1.2"),
        ("CHAT_PLATFORM", "slack"),
        ("CHAT_CONNECTION_ID", "connection-1"),
        ("CHAT_CONVERSATION_ID", "C123"),
        ("CHAT_ROOT_MESSAGE_ID", "1.2"),
    ]);
    let cli = Cli::Chat(ChatCmd::PostMessage {
        text: "hello".to_owned(),
        kind: MessageKind::Progress,
        reason: None,
    });
    let request = run(&cli, Ok(&context), None).unwrap();
    assert_eq!(request.path, "/chat/post-message");
    let body = to_value(&request.body.unwrap());
    assert_eq!(body["conversationId"], "C123");
    assert_eq!(body["rootMessageId"], "1.2");
    assert_eq!(body["sessionKey"], "connection-1:C123:1.2");
    assert_eq!(body["text"], "hello");
    assert_eq!(body["kind"], "progress");
}

#[test]
fn agent_session_id_resolves_the_exact_gateway_binding_before_cwd() {
    let source = resolve_session_context(&environment(&[(
        "ZORK_AGENT_SESSION_ID",
        "agent-session-2",
    )]));
    let id = match source {
        ContextSource::AgentSession(id) => id,
        _ => panic!("the session of the agent decides"),
    };
    let lookup = lookup_session_context_by_agent_session(&id);
    assert_eq!(lookup.path, "/cli/context");
    let target = broker_url(Some("http://127.0.0.1:9"), &lookup).unwrap();
    assert!(target.contains("threadId=agent-session-2"));
    let context = fetch_session_context(
        200,
        r#"{
            "ok": true,
            "platform": "local_gui",
            "connectionId": "local_gui",
            "sessionKey": "local_gui:conversation-2:conversation-2",
            "conversationId": "conversation-2",
            "rootMessageId": "conversation-2"
        }"#,
    )
    .unwrap();
    let cli = Cli::Chat(ChatCmd::PostMessage {
        text: "reply from task two".to_owned(),
        kind: MessageKind::Final,
        reason: None,
    });
    let request = run(&cli, Ok(&context), None).unwrap();
    assert_eq!(request.path, "/chat/post-message");
    let body = to_value(&request.body.unwrap());
    assert_eq!(
        body["sessionKey"],
        "local_gui:conversation-2:conversation-2"
    );
}

#[test]
fn slack_post_message_uses_only_its_explicit_destination() {
    let context = known(&[
        ("SESSION_KEY", "connection-2:proactive"),
        ("CHAT_PLATFORM", "slack"),
        ("CHAT_CONNECTION_ID", "connection-2"),
        ("CHAT_CONVERSATION_ID", "C-WRONG"),
        ("CHAT_ROOT_MESSAGE_ID", "1.2"),
    ]);
    let cli = Cli::Slack(SlackCmd::PostMessage {
        channel_id: "C-PROACTIVE".to_owned(),
        thread_ts: "9.8".to_owned(),
        text: "useful answer".to_owned(),
    });
    let request = run(&cli, Ok(&context), None).unwrap();
    assert_eq!(request.path, "/chat/post-message");
    let body = to_value(&request.body.unwrap());
    assert_eq!(body["platform"], "slack");
    assert_eq!(body["sessionKey"], "connection-2:proactive");
    assert_eq!(body["conversationId"], "C-PROACTIVE");
    assert_eq!(body["rootMessageId"], "9.8");
    assert_eq!(body["text"], "useful answer");
    assert!(body.get("kind").is_none());
}

#[test]
fn slack_thread_history_uses_its_explicit_destination() {
    let context = fetch_session_context(
        200,
        r#"{
            "ok": true,
            "platform": "slack",
            "connectionId": "connection-2",
            "sessionKey": "connection-2:proactive",
            "mode": "proactive"
        }"#,
    )
    .unwrap();
    let cli = Cli::Slack(SlackCmd::ThreadHistory {
        channel_id: "C-PROACTIVE".to_owned(),
        thread_ts: "9.8".to_owned(),
        page: HistoryPage {
            format: Some("text".to_owned()),
            ..page()
        },
    });
    let request = run(&cli, Ok(&context), None).unwrap();
    assert!(request.body.is_none());
    assert_eq!(request.path, "/chat/thread-history");
    let target = broker_url(Some("http://127.0.0.1:9/"), &request).unwrap();
    assert!(target.contains("session_key=connection-2%3Aproactive"));
    assert!(target.contains("conversation_id=C-PROACTIVE"));
    assert!(target.contains("root_message_id=9.8"));
    assert!(target.contains("format=text"));
}

#[test]
fn slack_post_file_uses_its_explicit_destination() {
    let file = tempfile::NamedTempFile::new().unwrap();
    let path = file.path().to_string_lossy().into_owned();
    let context = known(&[
        ("SESSION_KEY", "connection-2:proactive"),
        ("CHAT_PLATFORM", "slack"),
        ("CHAT_CONNECTION_ID", "connection-2"),
    ]);
    let cli = Cli::Slack(SlackCmd::PostFile {
        channel_id: "C-PROACTIVE".to_owned(),
        thread_ts: "9.8".to_owned(),
        file_path: path.clone(),
        initial_comment: None,
    });
    let request = run(&cli, Ok(&context), None).unwrap();
    assert_eq!(request.path, "/chat/post-file");
    let body = to_value(&request.body.unwrap());
    assert_eq!(body["conversationId"], "C-PROACTIVE");
    assert_eq!(body["rootMessageId"], "9.8");
    assert_eq!(body["sessionKey"], "connection-2:proactive");
    assert_eq!(body["filePath"], path);
}

#[test]
fn notify_sends_content_without_a_mailbox_identity() {
    let context = known(&[
        ("SESSION_KEY", "connection-1:C123:1.2"),
        ("CHAT_PLATFORM", "slack"),
        ("CHAT_CONNECTION_ID", "connection-1"),
        ("CHAT_CONVERSATION_ID", "C123"),
        ("CHAT_ROOT_MESSAGE_ID", "1.2"),
    ]);
    let cli = Cli::Notify(NotifyCmd {
        text: "job finished".to_owned(),
    });
    let request = run(&cli, Ok(&context), Some("job-1")).unwrap();
    assert_eq!(request.path, "/notify");
    let body = to_value(&request.body.unwrap());
    assert_eq!(body["jobId"], "job-1");
    assert_eq!(body["sessionKey"], "connection-1:C123:1.2");
    assert_eq!(body["text"], "job finished");
    assert!(body.get("messageId").is_none());
    assert!(body.get("message_id").is_none());
}

#[test]
fn block_without_reason_fails_locally() {
    let cli = Cli::Chat(ChatCmd::PostMessage {
        text: "x".to_owned(),
        kind: MessageKind::Block,
        reason: None,
    });
    let error = run(&cli, Err("never looked up"), None).err().unwrap();
    assert!(error.contains("missing required argument --reason"));
    assert!(needs_context(&cli).is_err());
}

#[test]
fn proactive_sessions_name_their_place() {
    let context = known(&[("SESSION_KEY", "k"), ("CHAT_PLATFORM", "slack")]);
    let cli = Cli::Job(JobCmd::Register {
        kind: "cron".to_owned(),
        script: "run".to_owned(),
        cwd: None,
        restart_on_boot: Some("true".to_owned()),
    });
    assert_eq!(
        run(&cli, Ok(&context), None).err().unwrap(),
        "the current proactive session requires explicit IM destination coordinates"
    );
    let bound = SessionContext {
        conversation_id: Some("C".to_owned()),
        root_message_id: Some("1".to_owned()),
        ..context
    };
    let body = to_value(&run(&cli, Ok(&bound), None).unwrap().body.unwrap());
    assert_eq!(
        body,
        value(r#"{"sessionKey":"k","kind":"cron","script":"run","restart_on_boot":true}"#)
    );
}

#[test]
fn files_are_named_by_absolute_paths() {
    let cli = Cli::Chat(ChatCmd::PostFile {
        file_path: "notes.txt".to_owned(),
        initial_comment: None,
    });
    assert_eq!(
        needs_context(&cli).unwrap_err(),
        "--file-path must be an absolute path"
    );
    assert_eq!(
        explicit_slack_coordinates(" ", "1").unwrap_err(),
        "--channel-id must not be empty"
    );
    assert_eq!(
        explicit_slack_coordinates("C", "").unwrap_err(),
        "--thread-ts must not be empty"
    );
    let local = known(&[("SESSION_KEY", "k"), ("CHAT_PLATFORM", "local_gui")]);
    let cli = Cli::Slack(SlackCmd::PostMessage {
        channel_id: "C".to_owned(),
        thread_ts: "1".to_owned(),
        text: "t".to_owned(),
    });
    assert_eq!(
        run(&cli, Ok(&local), None).err().unwrap(),
        "the current session is not bound to Slack"
    );
}

#[test]
fn histories_are_asked_for_page_by_page() {
    let context = SessionContext {
        platform: "slack".to_owned(),
        connection_id: "c".to_owned(),
        session_key: "k".to_owned(),
        conversation_id: Some("C".to_owned()),
        root_message_id: Some("1".to_owned()),
    };
    let cli = Cli::Chat(ChatCmd::ThreadHistory {
        page: HistoryPage {
            before_cursor: Some("".to_owned()),
            limit: Some(25),
            ..page()
        },
    });
    let request = run(&cli, Ok(&context), None).unwrap();
    assert_eq!(
        broker_url(Some(" http://127.0.0.1:9// "), &request).unwrap(),
        "http://127.0.0.1:9/chat/thread-history?platform=slack&session_key=k&conversation_id=C&root_message_id=1&limit=25"
    );
}

#[test]
fn integrations_need_no_binding() {
    let list = Cli::Integration(IntegrationCmd::ListTools {
        server: "linear".to_owned(),
    });
    assert_eq!(needs_context(&list), Ok(false));
    let request = run(&list, Err("no binding"), None).unwrap();
    assert_eq!(
        broker_url(Some("http://h"), &request).unwrap(),
        "http://h/integrations/mcp-tools?server=linear"
    );
    assert_eq!(
        broker_address(Some("http://h"), &request).unwrap().unwrap(),
        "http://h/integrations/mcp-tools?server=linear"
    );
    assert_eq!(
        broker_address(Some("http://h/#f"), &request).unwrap().unwrap(),
        "http://h/?server=linear#f/integrations/mcp-tools"
    );
    let call = |json: Option<&str>| {
        Cli::Integration(IntegrationCmd::Call {
            server: "notion".to_owned(),
            name: "search".to_owned(),
            json: json.map(str::to_owned),
        })
    };
    let body = run(&call(Some(r#"{"q":1}"#)), Err(""), None).unwrap().body.unwrap();
    assert_eq!(
        to_value(&body),
        value(r#"{"server":"notion","name":"search","arguments":{"q":1}}"#)
    );
    assert_eq!(run(&call(Some("{")), Err(""), None).err().unwrap(), "invalid --json");
    assert_eq!(
        run(&call(Some("[1]")), Err(""), None).err().unwrap(),
        "--json must be a JSON object"
    );
    assert_eq!(to_value(&parse_arguments_object(None).unwrap()), value("{}"));
    assert!(check_arguments(true, Some(json("3"))).is_err());
}

#[test]
fn requests_without_a_query_ask_nothing() {
    let context = known(&[
        ("SESSION_KEY", "k"),
        ("CHAT_PLATFORM", "slack"),
        ("CHAT_CONVERSATION_ID", "C"),
        ("CHAT_ROOT_MESSAGE_ID", "1"),
    ]);
    let cli = Cli::Notify(NotifyCmd { text: "t".to_owned() });
    let request = run(&cli, Ok(&context), None).unwrap();
    assert_eq!(broker_url(Some("HTTP://Host:80"), &request).unwrap(), "http://host/notify");
    assert_eq!(
        broker_url(Some(" "), &request).unwrap_err(),
        "missing environment variable BROKER_API_BASE"
    );
    assert_eq!(broker_url(Some("not an address"), &request).unwrap_err(), "BROKER_API_BASE");
    assert_eq!(
        broker_address(Some("HTTP://Host:80"), &request).unwrap().unwrap(),
        "http://host/notify"
    );
    assert_eq!(
        broker_address(None, &request).unwrap().unwrap_err(),
        "missing environment variable BROKER_API_BASE"
    );
}

#[test]
fn bindings_are_read_under_all_their_names() {
    let payload = json(
        r#"{"platform":" slack ","connection_id":"c","session_key":"k","channelId":"C","rootThreadTs":"1"}"#,
    );
    let context = context_from_payload(200, "", Some(&payload)).unwrap();
    assert_eq!(context.platform, "slack");
    assert_eq!(context.conversation_id.as_deref(), Some("C"));
    assert_eq!(context.root_message_id.as_deref(), Some("1"));
    assert_eq!(
        fetch_session_context(500, "down").unwrap_err(),
        "cli context lookup failed (500): down"
    );
    assert_eq!(
        fetch_session_context(200, "down").unwrap_err(),
        "cli context response is not JSON"
    );
    assert_eq!(
        fetch_session_context(200, "[]").unwrap_err(),
        "cli context response is not an object"
    );
    assert_eq!(
        fetch_session_context(200, "{}").unwrap_err(),
        "cli context is missing platform"
    );
    assert_eq!(
        fetch_session_context(200, r#"{"platform":"p"}"#).unwrap_err(),
        "cli context is missing connection ID"
    );
    assert_eq!(
        fetch_session_context(200, r#"{"platform":"p","connectionId":"c"}"#).unwrap_err(),
        "cli context is missing session key"
    );
    assert!(matches!(resolve_session_context(&environment(&[])), ContextSource::Directory));
    assert_eq!(lookup_session_context("/w").query.unwrap()[0].1, "/w");
}

#[test]
fn answers_are_printed_as_lines() {
    assert_eq!(request_broker(200, "ok"), Ok(Some("ok\n".to_owned())));
    assert_eq!(request_broker(200, " \n"), Ok(None));
    assert_eq!(
        request_broker(500, "no"),
        Err("broker request failed (500): no".to_owned())
    );
    assert_eq!(write_stdout("a\n").as_deref(), Some("a\n"));
    assert_eq!(whole_lines(""), "\n");
    assert_eq!(read_env(Some(" x ")).as_deref(), Some("x"));
    assert_eq!(
        require_env("KEY", None).unwrap_err(),
        "missing environment variable KEY"
    );
}

#[test]
fn github_tokens_come_from_the_broker() {
    assert_eq!(
        resolve_github_token(200, r#"{"ok":true,"token":" starter-token "}"#).unwrap(),
        "starter-token"
    );
    assert_eq!(
        resolve_github_token(409, r#"{"ok":false,"message":"GitHub token for alice is invalid."}"#)
            .unwrap_err(),
        "GitHub token for alice is invalid.\n"
    );
    assert_eq!(
        resolve_github_token(200, r#"{"ok":false,"error":"e"}"#).unwrap_err(),
        "e\n"
    );
    assert_eq!(
        resolve_github_token(200, "").unwrap_err(),
        "GitHub identity resolution failed (200).\n"
    );
    assert_eq!(
        token_from_body(200, Some(&json(r#"{"ok":true,"token":""}"#))).unwrap_err(),
        "GitHub identity resolution did not return a token."
    );
    assert_eq!(
        to_value(&github_token_request("/w", &vec!["pr".to_owned(), "create".to_owned()])),
        value(r#"{"cwd":"/w","command":["pr","create"]}"#)
    );
}

#[test]
fn the_real_gh_is_the_first_that_is_not_the_wrapper() {
    let candidate = |is_own: bool, is_executable: bool| GhCandidate {
        path: "/bin/gh".to_owned(),
        is_own,
        is_executable,
    };
    let list = vec![candidate(true, true), candidate(false, false), candidate(false, true)];
    assert_eq!(find_real_gh(&list), Some(2));
    assert_eq!(find_real_gh(&vec![candidate(true, true)]), None);
    assert!(gh_requirements(Some("b"), Some("/gh")).is_ok());
    assert_eq!(
        gh_requirements(Some(" "), Some("/gh")).unwrap_err(),
        "BROKER_API_BASE and BROKER_REAL_GH_PATH are required for broker gh wrapper."
    );
}
