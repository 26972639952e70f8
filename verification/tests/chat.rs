use serde_json::Value;
use zork::config::{ImConnectionConfig, ImMode, ImProviderConfig, SlackProviderConfig};
use zork::im_entry::{
    cleared_status, ensure_local_session, message_event, post_message, status_event, status_route,
    validate_destination, EntryRoute, PostStep, SessionBinding,
};
use zork::inbound::{parse_inbound_payload, parse_inbound_value};
use zork::json::Json;
use zork::slack_status::{
    after_reaction, after_set_status, after_step, first_step, form_body, reaction_form,
    reaction_method, should_fallback, slack_answer, slack_error, status_form, step_request,
    thread_key, urlencode, AfterStep, AssistantThreads, Delivered, DeliveryStep,
};
use zork::socket::{
    after_envelope, bot_identity, bot_json, carries_payload, connection_end, message_mode, opened_url,
    read_envelope, read_envelope_text, reconcile, same_config, EnvelopeEnd, RunningConnection, SlackApiResponse,
    SlackMessageMode, SocketEvent, SocketState, SocketStep,
};

fn from_value(value: Value) -> Json {
    match value {
        Value::Null => Json::Null,
        Value::Bool(value) => Json::Bool(value),
        Value::Number(number) => match (number.as_u64(), number.as_i64()) {
            (Some(value), _) => Json::Unsigned(value),
            (None, Some(value)) => Json::Negative(value),
            _ => Json::Decimal(number.to_string()),
        },
        Value::String(text) => Json::Text(text),
        Value::Array(items) => Json::Array(items.into_iter().map(from_value).collect()),
        Value::Object(fields) => Json::Object(
            fields
                .into_iter()
                .map(|(key, value)| (key, from_value(value)))
                .collect(),
        ),
    }
}

fn to_value(value: &Json) -> Value {
    match value {
        Json::Null => Value::Null,
        Json::Bool(value) => Value::from(*value),
        Json::Unsigned(value) => Value::from(*value),
        Json::Negative(value) => Value::from(*value),
        Json::Decimal(text) => Value::Number(text.parse().unwrap()),
        Json::Text(text) => Value::String(text.clone()),
        Json::Array(items) => items.iter().map(to_value).collect(),
        Json::Object(fields) => fields
            .iter()
            .map(|(key, value)| (key.clone(), to_value(value)))
            .collect(),
    }
}

fn json(text: &str) -> Json {
    from_value(value(text))
}

fn value(text: &str) -> Value {
    serde_json::from_str(text).unwrap()
}

#[test]
fn parses_app_mention() {
    let raw = r#"{
        "v": 1,
        "kind": "message",
        "source": "app_mention",
        "conversationId": "C123",
        "rootMessageId": "100.200",
        "messageId": "100.201",
        "sender": { "userId": "U123", "kind": "user" },
        "text": "<@UBOT> hello",
        "controlText": "hello",
        "mentionedUserIds": ["UBOT"],
        "attachments": []
    }"#;
    let event = parse_inbound_payload(raw).unwrap();
    assert_eq!(event.conversation_id, "C123");
    assert_eq!(event.root_message_id, "100.200");
    assert_eq!(event.control_text, "hello");
    assert!(!event.is_stop());
}

#[test]
fn detects_stop() {
    let raw = r#"{
        "v": 1,
        "kind": "message",
        "source": "thread_reply",
        "conversationId": "C123",
        "rootMessageId": "1.0",
        "messageId": "1.1",
        "sender": { "userId": "U123", "kind": "user" },
        "text": "-stop",
        "controlText": "-stop",
        "mentionedUserIds": [],
        "attachments": []
    }"#;
    assert!(parse_inbound_payload(raw).unwrap().is_stop());
}

#[test]
fn drops_wrong_version() {
    let raw = r#"{
        "v": 2,
        "kind": "message",
        "source": "app_mention",
        "conversationId": "C123",
        "rootMessageId": "1.0",
        "sender": { "userId": "U123", "kind": "user" },
        "text": "hi",
        "controlText": "hi"
    }"#;
    assert!(parse_inbound_payload(raw).is_none());
}

#[test]
fn messages_without_a_place_are_dropped() {
    assert!(parse_inbound_payload("not json").is_none());
    assert!(parse_inbound_value(&json(
        r#"{"v":1,"kind":"message","source":"app_mention","rootMessageId":"1","sender":{"userId":"U","kind":"user"},"text":"x","controlText":"x"}"#
    ))
    .is_none());
    assert!(parse_inbound_value(&json(
        r#"{"v":1,"kind":"message","source":"elsewhere","conversationId":"C","rootMessageId":"1","sender":{"userId":"U","kind":"user"},"text":"x","controlText":"x"}"#
    ))
    .is_none());
}

fn binding(platform: &str, mode: ImMode) -> SessionBinding {
    SessionBinding {
        mode,
        platform: platform.to_owned(),
        connection_id: platform.to_owned(),
        conversation_id: Some("C".to_owned()),
        root_message_id: Some("1".to_owned()),
    }
}

#[test]
fn messages_go_where_their_session_is_bound() {
    assert_eq!(status_route(Some("local_gui")), EntryRoute::LocalGui);
    assert_eq!(status_route(Some("slack")), EntryRoute::Slack);
    assert_eq!(status_route(Some("irc")), EntryRoute::Nowhere);
    assert_eq!(status_route(None), EntryRoute::Nowhere);
    assert_eq!(
        post_message(Some(&binding("local_gui", ImMode::Normal)), "C", "1"),
        Ok(PostStep::RecordLocally)
    );
    assert_eq!(
        post_message(Some(&binding("slack", ImMode::Proactive)), "D", "2"),
        Ok(PostStep::PostToSlack { touch_reply: false })
    );
    assert_eq!(
        post_message(Some(&binding("slack", ImMode::Normal)), "D", "2"),
        Err("session_destination_mismatch".to_owned())
    );
    assert_eq!(post_message(None, "C", "1"), Err("session_not_found".to_owned()));
    assert!(post_message(Some(&binding("irc", ImMode::Normal)), "C", "1").is_err());
    assert!(validate_destination(&binding("slack", ImMode::Normal), "C", "1").is_ok());
    assert!(ensure_local_session("local_gui", "local_gui").is_ok());
    assert_eq!(
        ensure_local_session("slack", "local_gui"),
        Err("session_is_not_local_gui".to_owned())
    );
}

#[test]
fn desktops_are_told_of_messages_and_statuses() {
    let message = message_event("assistant", "hi");
    assert_eq!(message.name, "message");
    assert_eq!(
        to_value(&message.data),
        value(r#"{"type":"message","role":"assistant","content":"hi"}"#)
    );
    let status = status_event(cleared_status());
    assert_eq!(status.name, "status");
    assert_eq!(to_value(&status.data), value(r#"{"state":"clear"}"#));
}

#[test]
fn the_last_status_of_a_thread_wins() {
    let mut threads = AssistantThreads::new();
    let key = thread_key("C", "1").unwrap();
    assert_eq!(thread_key("", "1"), None);
    assert!(threads.set_thread(&key, "Thinking..."));
    assert!(!threads.set_thread(&key, "Thinking..."));
    assert!(!threads.set_thread(&key, "Reading files..."));
    let (status, fallback) = threads.next(&key).unwrap();
    assert_eq!((status.as_str(), fallback), ("Reading files...", false));
    threads.settle(&key, &status, Delivered::Reaction);
    assert!(threads.next(&key).is_none());
    assert!(!threads.set_thread(&key, "Reading files..."));
    assert!(threads.set_thread(&key, ""));
    assert_eq!(threads.next(&key), Some((String::new(), true)));
}

#[test]
fn statuses_fall_back_to_reactions() {
    assert_eq!(first_step(false), DeliveryStep::SetStatus);
    assert_eq!(first_step(true), DeliveryStep::React);
    assert_eq!(after_set_status(None), DeliveryStep::RemoveEyes);
    assert_eq!(after_set_status(Some("missing_scope")), DeliveryStep::React);
    assert_eq!(after_set_status(Some("ratelimited")), DeliveryStep::Fail);
    assert!(should_fallback("x unknown_method y"));
    assert_eq!(reaction_method("busy"), "reactions.add");
    assert_eq!(reaction_method(" "), "reactions.remove");
    assert_eq!(after_reaction(Some("already_reacted")), Delivered::Reaction);
    assert_eq!(after_reaction(Some("channel_not_found")), Delivered::Failed);
    assert_eq!(slack_error("m", &json(r#"{"ok":true}"#)), None);
    assert_eq!(slack_answer("m", &br#"{"ok":true}"#.to_vec()), None);
    assert_eq!(slack_answer("m", &b"<html>".to_vec()).as_deref(), Some("slack m json"));
    assert_eq!(
        slack_answer("m", &br#"{"ok":false,"error":"missing_scope"}"#.to_vec()).as_deref(),
        Some("Slack API error for m: missing_scope")
    );
    assert_eq!(
        slack_error("m", &json(r#"{"ok":false}"#)).as_deref(),
        Some("Slack API error for m: unknown_error")
    );
}

#[test]
fn forms_are_encoded_byte_by_byte() {
    assert_eq!(urlencode("a b~é"), "a+b~%C3%A9");
    assert_eq!(
        form_body(&vec![
            ("k".to_owned(), "v&w".to_owned()),
            ("x".to_owned(), "1".to_owned())
        ]),
        "k=v%26w&x=1"
    );
}

#[test]
fn each_step_of_a_status_has_its_request() {
    assert_eq!(
        status_form("C 1", "1.2", "is thinking…"),
        "channel_id=C+1&thread_ts=1.2&status=is+thinking%E2%80%A6"
    );
    assert_eq!(reaction_form("C1", "1.2"), "channel=C1&timestamp=1.2&name=eyes");
    let sent = |step| step_request(step, "C1", "1.2", "busy");
    assert_eq!(
        sent(DeliveryStep::SetStatus),
        Some((
            "assistant.threads.setStatus",
            "channel_id=C1&thread_ts=1.2&status=busy".to_owned()
        ))
    );
    let mark = "channel=C1&timestamp=1.2&name=eyes".to_owned();
    assert_eq!(sent(DeliveryStep::RemoveEyes), Some(("reactions.remove", mark.clone())));
    assert_eq!(sent(DeliveryStep::React), Some(("reactions.add", mark.clone())));
    assert_eq!(
        step_request(DeliveryStep::React, "C1", "1.2", " "),
        Some(("reactions.remove", mark))
    );
    assert_eq!(sent(DeliveryStep::Fail), None);
}

#[test]
fn delivery_ends_with_what_came_of_it() {
    assert_eq!(
        after_step(DeliveryStep::SetStatus, None),
        AfterStep::Next(DeliveryStep::RemoveEyes)
    );
    assert_eq!(
        after_step(DeliveryStep::RemoveEyes, Some("no_reaction")),
        AfterStep::Done(Delivered::Status)
    );
    assert_eq!(
        after_step(DeliveryStep::SetStatus, Some("missing_scope")),
        AfterStep::Next(DeliveryStep::React)
    );
    assert_eq!(
        after_step(DeliveryStep::React, Some("already_reacted")),
        AfterStep::Done(Delivered::Reaction)
    );
    assert_eq!(
        after_step(DeliveryStep::React, Some("ratelimited")),
        AfterStep::Done(Delivered::Failed)
    );
    assert_eq!(
        after_step(DeliveryStep::SetStatus, Some("ratelimited")),
        AfterStep::Next(DeliveryStep::Fail)
    );
    assert_eq!(after_step(DeliveryStep::Fail, None), AfterStep::Done(Delivered::Failed));
}

fn connection(id: &str, token: &str) -> ImConnectionConfig {
    ImConnectionConfig {
        id: id.to_owned(),
        name: id.to_owned(),
        enabled: true,
        mode: ImMode::Normal,
        provider: ImProviderConfig::Slack(SlackProviderConfig {
            app_token: token.to_owned(),
            bot_token: "b".to_owned(),
            api_base_url: String::new(),
        }),
    }
}

#[test]
fn connections_follow_their_configuration() {
    let running = |id: &str, token: &str, finished: bool| RunningConnection {
        id: id.to_owned(),
        config: connection(id, token),
        finished,
    };
    assert!(same_config(&connection("a", "t"), &connection("a", "t")));
    assert!(!same_config(&connection("a", "t"), &connection("a", "u")));
    let plan = reconcile(
        &vec![connection("kept", "t"), connection("changed", "new"), connection("fresh", "t")],
        &vec![
            running("kept", "t", false),
            running("changed", "old", false),
            running("removed", "t", false),
        ],
    );
    assert_eq!(plan.stop, ["changed", "removed"]);
    assert_eq!(plan.start, [1, 2]);
}

#[test]
fn envelopes_are_taken_and_acknowledged() {
    let envelope =
        read_envelope(&json(r#"{"envelope_id":"e1","type":"events_api","payload":{"a":1}}"#))
            .unwrap();
    assert!(carries_payload(&envelope));
    assert!(matches!(
        after_envelope(&envelope),
        EnvelopeEnd::Acknowledge(text) if text == r#"{"envelope_id":"e1"}"#
    ));
    let hello = read_envelope(&json(r#"{"type":"hello"}"#)).unwrap();
    assert!(!carries_payload(&hello));
    assert!(matches!(after_envelope(&hello), EnvelopeEnd::Silent));
    let end = read_envelope(&json(r#"{"type":"disconnect","envelope_id":"e"}"#)).unwrap();
    assert!(matches!(after_envelope(&end), EnvelopeEnd::Disconnect));
    assert!(read_envelope(&json("{}")).is_none());
    let listed = read_envelope_text(r#"["e2", "events_api", {"a":1}]"#).unwrap();
    assert_eq!(listed.envelope_id.as_deref(), Some("e2"));
    assert_eq!(listed.kind, "events_api");
    assert!(listed.payload.is_some());
    let short = read_envelope_text(r#"[null, "hello"]"#).unwrap();
    assert!(short.envelope_id.is_none() && short.payload.is_none());
    assert!(read_envelope_text(r#"["e"]"#).is_none());
    assert!(read_envelope_text(r#"["e", "hello", null, 1]"#).is_none());
    assert!(read_envelope_text("{").is_none());
    assert_eq!(read_envelope_text(r#"{"type":"hello"}"#).unwrap().kind, "hello");
    assert_eq!(message_mode(ImMode::Proactive), SlackMessageMode::Proactive);
    assert_eq!(connection_end(None, true), None);
    assert_eq!(connection_end(None, false).as_deref(), Some("connection_closed"));
    assert_eq!(connection_end(Some("e"), true).as_deref(), Some("e"));
}

#[test]
fn unanswered_pings_end_a_connection() {
    let mut state = SocketState::new();
    assert_eq!(state.step(SocketEvent::Heartbeat), SocketStep::SendPing);
    assert_eq!(state.step(SocketEvent::Pong), SocketStep::Nothing);
    assert_eq!(state.step(SocketEvent::Heartbeat), SocketStep::SendPing);
    assert_eq!(state.step(SocketEvent::Text), SocketStep::HandleText);
    assert_eq!(state.step(SocketEvent::Heartbeat), SocketStep::TimedOut);
    assert_eq!(state.step(SocketEvent::Ping), SocketStep::SendPong);
    assert_eq!(state.step(SocketEvent::Close), SocketStep::Closed);
}

#[test]
fn slack_says_who_the_bot_is() {
    let response = SlackApiResponse {
        ok: true,
        error: None,
        url: Some("wss://x".to_owned()),
        user_id: Some("U1".to_owned()),
        user: Some(" ".to_owned()),
        bot_id: Some("B1".to_owned()),
        app_id: None,
    };
    assert_eq!(opened_url(&response).unwrap(), "wss://x");
    let bot = bot_identity(&response).unwrap();
    assert_eq!(
        to_value(&bot_json(&bot)),
        value(
            r#"{"surface":"Slack","userId":"U1","mention":"<@U1>","botId":"B1","appId":null,"username":null}"#
        )
    );
    let refused = SlackApiResponse { ok: false, error: Some("invalid_auth".to_owned()), ..response };
    assert!(opened_url(&refused).unwrap_err().contains("invalid_auth"));
    assert!(bot_identity(&refused).is_err());
}
