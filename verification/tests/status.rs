use zork::api::{ApiErrorCode, ApiErrorDetail};
use zork::json::Json;
use zork::sse::{SseDecoder, SseFrame};
use zork::status_projection::{
    is_durable, normalize_tool_name, project_frame, stream_opening, tool_status, AgentEnvelope,
    AgentEvent, AgentFailure, AgentInvocation, AgentStatusEvent, AgentToolCall, AgentToolResult,
    AgentTurnOutcome, FollowStep, FrameStep, ProjectionState, StreamOpening, Subscription,
    Subscriptions,
};

fn from_value(value: serde_json::Value) -> Json {
    match value {
        serde_json::Value::Null => Json::Null,
        serde_json::Value::Bool(value) => Json::Bool(value),
        serde_json::Value::Number(number) => match (number.as_u64(), number.as_i64()) {
            (Some(value), _) => Json::Unsigned(value),
            (None, Some(value)) => Json::Negative(value),
            _ => Json::Decimal(number.to_string()),
        },
        serde_json::Value::String(text) => Json::Text(text),
        serde_json::Value::Array(items) => Json::Array(items.into_iter().map(from_value).collect()),
        serde_json::Value::Object(fields) => Json::Object(
            fields
                .into_iter()
                .map(|(key, value)| (key, from_value(value)))
                .collect(),
        ),
    }
}

fn json(text: &str) -> Json {
    from_value(serde_json::from_str(text).unwrap())
}

fn call(id: &str, name: &str) -> AgentToolCall {
    AgentToolCall {
        tool_call_id: id.to_owned(),
        tool_name: name.to_owned(),
    }
}

#[test]
fn wait_uses_reason_and_refreshes_remaining_time() {
    let mut projection = ProjectionState::default();
    assert_eq!(
        projection.apply(
            AgentStatusEvent::Waiting {
                reason: "the build".to_owned(),
                deadline_ms: 65_000,
            },
            0,
        ),
        "Waiting: the build · 01:05"
    );
    assert_eq!(projection.refresh_wait(5_000), "Waiting: the build · 01:00");
}

#[test]
fn explicit_wait_remains_projected_after_the_tool_batch_finishes() {
    let mut projection = ProjectionState::default();
    projection.apply(
        AgentStatusEvent::Waiting {
            reason: "the build".to_owned(),
            deadline_ms: 65_000,
        },
        0,
    );
    if let Some(event) = AgentEvent::AutoWaitEnded.status_event() {
        projection.apply(event, 0);
    }
    assert_eq!(projection.refresh_wait(5_000), "Waiting: the build · 01:00");
}

#[test]
fn automatic_tool_wait_uses_the_same_countdown_projection() {
    let mut projection = ProjectionState::default();
    assert_eq!(
        projection.apply(
            AgentStatusEvent::ToolsWaiting {
                calls: vec![AgentToolCall {
                    tool_call_id: "bash-1".to_owned(),
                    tool_name: "bash".to_owned(),
                }],
                deadline_ms: 60_000,
            },
            0,
        ),
        "Waiting: bash to finish · 01:00"
    );
    assert_eq!(
        projection.refresh_wait(5_000),
        "Waiting: bash to finish · 00:55"
    );
}

#[test]
fn failure_is_visible_and_only_real_clear_events_remove_it() {
    let mut projection = ProjectionState::default();
    assert_eq!(
        projection.apply(
            AgentStatusEvent::Failed {
                reason: "provider rejected the request".to_owned(),
            },
            0,
        ),
        "Failed: provider rejected the request"
    );
    assert_eq!(projection.apply(AgentStatusEvent::Interrupted, 0), "");
}

#[test]
fn tool_results_reveal_the_next_active_tool_then_thinking() {
    let mut projection = ProjectionState::default();
    assert_eq!(
        projection.apply(
            AgentStatusEvent::ToolsStarted {
                calls: vec![
                    AgentToolCall {
                        tool_call_id: "read-1".to_owned(),
                        tool_name: "read".to_owned(),
                    },
                    AgentToolCall {
                        tool_call_id: "bash-1".to_owned(),
                        tool_name: "bash".to_owned(),
                    },
                ],
            },
            0,
        ),
        "Running in workspace..."
    );
    assert_eq!(
        projection.apply(
            AgentStatusEvent::ToolFinished {
                tool_call_id: "bash-1".to_owned(),
            },
            0,
        ),
        "Reading files..."
    );
    assert_eq!(
        projection.apply(
            AgentStatusEvent::ToolFinished {
                tool_call_id: "read-1".to_owned(),
            },
            0,
        ),
        "Thinking..."
    );
}

#[test]
fn decoder_handles_split_utf8_status_frames() {
    let payload = "event: status\ndata: {\"state\":\"failed\",\"reason\":\"失败\"}\n\n";
    let bytes = payload.as_bytes();
    let split = payload.find('失').unwrap() + 1;
    let mut decoder = SseDecoder::default();
    assert!(decoder.push(&bytes[..split]).is_empty());
    let frames = decoder.push(&bytes[split..]);
    assert_eq!(frames.len(), 1);
    assert_eq!(frames[0].event, "status");
    let event = AgentStatusEvent::from_json(&json(&frames[0].data)).unwrap();
    assert!(matches!(event, AgentStatusEvent::Failed { reason } if reason == "失败"));
}

#[test]
fn chunks_of_any_size_give_the_same_frames() {
    let payload = "id: 7\r\nevent: event\ndata: a\ndata: b\n: note\n\ndata: last\n\n".as_bytes();
    let mut whole = SseDecoder::new();
    let expected = whole.push(payload);
    assert_eq!(expected.len(), 2);
    assert_eq!(expected[0].data, "a\nb");
    for size in 1..payload.len() {
        let mut decoder = SseDecoder::new();
        let mut frames: Vec<SseFrame> = Vec::new();
        for chunk in payload.chunks(size) {
            frames.extend(decoder.push(chunk));
        }
        assert_eq!(format!("{frames:?}"), format!("{expected:?}"));
    }
}

#[test]
fn countdowns_run_down_to_nothing() {
    let mut projection = ProjectionState::new();
    projection.apply(
        AgentStatusEvent::Waiting {
            reason: "it".to_owned(),
            deadline_ms: 1_500,
        },
        0,
    );
    assert!(projection.is_waiting());
    assert_eq!(projection.refresh_wait(0), "Waiting: it · 00:02");
    assert_eq!(projection.refresh_wait(9_999), "Waiting: it · 00:00");
    projection.reset();
    assert!(!projection.is_waiting());
    assert_eq!(projection.refresh_wait(0), "");
}

#[test]
fn tools_are_named_by_what_they_do() {
    assert_eq!(normalize_tool_name(" File.Read "), "fileread");
    assert_eq!(tool_status("read"), "Reading files...");
    assert_eq!(tool_status("bash"), "Running in workspace...");
}

#[test]
fn log_events_become_statuses() {
    let started = AgentEvent::StepCompleted {
        purpose: None,
        invocations: vec![AgentInvocation {
            invocation_id: "1".to_owned(),
            tool: "bash".to_owned(),
        }],
        auto_wait_deadline_ms: Some(60_000),
    };
    assert!(matches!(
        started.status_event(),
        Some(AgentStatusEvent::ToolsWaiting { deadline_ms: 60_000, .. })
    ));
    let failed = AgentEvent::StepFailed {
        error: AgentFailure {
            message: "no".to_owned(),
        },
    };
    assert!(matches!(
        failed.status_event(),
        Some(AgentStatusEvent::Failed { reason }) if reason == "no"
    ));
    let waiting = AgentEvent::ToolResult {
        result: AgentToolResult {
            invocation_id: "2".to_owned(),
            tool: "wait".to_owned(),
            outcome: "succeeded".to_owned(),
            data: json("{\"reason\":\"ci\",\"until_ms\":9000}"),
        },
    };
    assert!(matches!(
        waiting.status_event(),
        Some(AgentStatusEvent::Waiting { reason, deadline_ms: 9_000 }) if reason == "ci"
    ));
    assert!(AgentEvent::Snapshot.status_event().is_none());
    assert!(matches!(
        AgentEvent::TurnFinished { outcome: AgentTurnOutcome::Finished }.status_event(),
        Some(AgentStatusEvent::Finished)
    ));
}

#[test]
fn statuses_survive_their_json() {
    for event in [
        AgentStatusEvent::Clear,
        AgentStatusEvent::Thinking,
        AgentStatusEvent::ToolsStarted { calls: vec![call("1", "bash"), call("2", "read")] },
        AgentStatusEvent::ToolFinished { tool_call_id: "1".to_owned() },
        AgentStatusEvent::ToolsWaiting { calls: vec![call("1", "bash")], deadline_ms: -5 },
        AgentStatusEvent::Waiting { reason: "r".to_owned(), deadline_ms: 5 },
        AgentStatusEvent::Failed { reason: "f".to_owned() },
        AgentStatusEvent::Finished,
        AgentStatusEvent::Interrupted,
    ] {
        let read = AgentStatusEvent::from_json(&event.to_json()).unwrap();
        assert_eq!(format!("{read:?}"), format!("{event:?}"));
        assert_eq!(format!("{:?}", event.duplicate()), format!("{event:?}"));
    }
    assert!(AgentStatusEvent::from_json(&json("{\"state\":\"unknown\"}")).is_none());
    assert!(matches!(
        AgentStatusEvent::from_json(&json(r#"["clear"]"#)),
        Some(AgentStatusEvent::Clear)
    ));
    assert!(AgentStatusEvent::from_json(&json(r#"["clear", 1]"#)).is_none());
    assert!(AgentStatusEvent::from_json(&json("[]")).is_none());
    assert!(matches!(
        AgentStatusEvent::from_json(&json(r#"["waiting", "tea", 5]"#)),
        Some(AgentStatusEvent::Waiting { reason, deadline_ms: 5 }) if reason == "tea"
    ));
    assert!(AgentStatusEvent::from_json(&json(r#"["waiting", "tea"]"#)).is_none());
    assert!(matches!(
        AgentStatusEvent::from_json(&json(r#"["tools_started", [["c", "exec"]]]"#)),
        Some(AgentStatusEvent::ToolsStarted { calls })
            if calls.len() == 1 && calls[0].tool_call_id == "c" && calls[0].tool_name == "exec"
    ));
}

#[test]
fn frames_move_the_cursor_and_the_status() {
    let mut decoder = SseDecoder::new();
    let frames = decoder.push(b"event: event\nid: 0000000000000001\ndata: {}\n\nevent: other\ndata: x\n\n");
    assert!(is_durable(&frames[0]));
    assert!(!is_durable(&frames[1]));
    let mut projection = ProjectionState::new();
    let mut cursor: Option<String> = None;
    let step = project_frame(
        &mut projection,
        &mut cursor,
        &frames[0],
        Some(AgentEnvelope {
            event_id: "0000000000000001".to_owned(),
            event: AgentEvent::StepStarted,
        }),
        0,
    );
    assert!(matches!(step, FrameStep::Changed { status, .. } if status == "Thinking..."));
    assert_eq!(cursor.as_deref(), Some("0000000000000001"));
    let mismatch = project_frame(
        &mut projection,
        &mut cursor,
        &frames[0],
        Some(AgentEnvelope {
            event_id: "0000000000000002".to_owned(),
            event: AgentEvent::StepStarted,
        }),
        0,
    );
    assert!(matches!(mismatch, FrameStep::IdMismatch));
    assert!(matches!(
        project_frame(&mut projection, &mut cursor, &frames[0], None, 0),
        FrameStep::InvalidEnvelope
    ));
    assert!(matches!(
        project_frame(&mut projection, &mut cursor, &frames[1], None, 0),
        FrameStep::Ignored
    ));
}

#[test]
fn streams_of_missing_sessions_are_given_up() {
    assert!(matches!(stream_opening(200, "200 OK", None), StreamOpening::Open));
    let missing = ApiErrorDetail {
        code: ApiErrorCode::SessionNotFound,
        message: "gone".to_owned(),
    };
    assert!(matches!(
        stream_opening(404, "404 Not Found", Some(&missing)),
        StreamOpening::Gone
    ));
    assert!(matches!(
        stream_opening(500, "500 Internal Server Error", Some(&missing)),
        StreamOpening::Failed(_)
    ));
}

#[test]
fn sessions_are_followed_once() {
    fn wanted(id: &str) -> Subscription {
        Subscription {
            agent_session_id: id.to_owned(),
            connection_id: "c".to_owned(),
            channel_id: "C1".to_owned(),
            root_message_id: "1.0".to_owned(),
        }
    }
    let mut all = Subscriptions::new();
    assert!(matches!(all.ensure("key", wanted("a"), false), FollowStep::Start));
    assert!(matches!(all.ensure("key", wanted("a"), true), FollowStep::Keep));
    assert!(matches!(all.ensure("key", wanted("b"), true), FollowStep::Restart));
    assert_eq!(all.remove("key").unwrap().agent_session_id, "b");
    assert!(all.remove("key").is_none());
}
