use serde_json::Value;
use zork::agent_client::{
    agent_http_error, base_url, cancelled, check_context, check_created, check_unbound,
    check_updated, default_selection, ensure_binding_session, resolve_selection, score_source,
    system_prompt_for_binding, AgentModel, AgentProfile, BindStep, BindingKind, ScoreSource,
    ScoredProfile, SELECTION_BLOCK,
};
use zork::api::{ApiErrorCode, ApiErrorDetail, SessionSelection, SessionStatus, SessionView};
use zork::base64::decode_base64;
use zork::config::{ContextConfig, ContextStrategy};
use zork::execution::{
    headers_from_value, load_selected, prepare_endpoint, SelectedModel, StoredProfile,
};
use zork::json::Json;
use zork::openai::{
    account_of_claims, device_code_answer, device_poll_answer, exchange_body, expires_ms, jwt_account_id, login_from_answer,
    poll_device_code, probe_subscription, probe_usage, probed_billing, read_token_response,
    subscription_answer, token_answer,
    refresh_body, refresh_if_needed, start_device_code, subscription_account, subscription_token,
    usage_key, DevicePoll, OpenAi,
};
use zork::openai_compatible::{configured_snapshot, probe_configured, OpenAiCompatible};
use zork::profiles::ModelLimits;
use zork::providers::AuthProvider;

fn from_value(value: Value) -> Json {
    match value {
        Value::Null => Json::Null,
        Value::Bool(value) => Json::Bool(value),
        Value::Number(number) => match (number.as_u64(), number.as_i64()) {
            (Some(value), _) => Json::Unsigned(value),
            (None, Some(value)) => Json::Negative(value),
            _ => Json::Decimal(number.to_string()),
        },
        Value::String(text) => Json::Text(text),
        Value::Array(items) => Json::Array(items.into_iter().map(from_value).collect()),
        Value::Object(fields) => Json::Object(
            fields
                .into_iter()
                .map(|(key, value)| (key, from_value(value)))
                .collect(),
        ),
    }
}

fn to_value(value: &Json) -> Value {
    match value {
        Json::Null => Value::Null,
        Json::Bool(value) => Value::from(*value),
        Json::Unsigned(value) => Value::from(*value),
        Json::Negative(value) => Value::from(*value),
        Json::Decimal(text) => Value::Number(text.parse().unwrap()),
        Json::Text(text) => Value::String(text.clone()),
        Json::Array(items) => items.iter().map(to_value).collect(),
        Json::Object(fields) => fields
            .iter()
            .map(|(key, value)| (key.clone(), to_value(value)))
            .collect(),
    }
}

fn json(text: &str) -> Json {
    from_value(value(text))
}

fn value(text: &str) -> Value {
    serde_json::from_str(text).unwrap()
}

fn document() -> Json {
    json(
        r#"{
            "provider": "openai",
            "billing": "subscription",
            "base_url": "https://chatgpt.com/backend-api/codex",
            "headers": { "x-user-header": "present" },
            "auth": {
                "type": "oauth",
                "access": "access-secret",
                "refresh": "refresh-secret",
                "accountId": "account-secret"
            },
            "models": [{
                "id": "gpt-5.6-luna",
                "api": "openai-responses",
                "streaming": true,
                "thinking": ["max"],
                "default_thinking": "max",
                "capabilities": { "input": ["text", "image"] },
                "default": true
            }]
        }"#,
    )
}

#[test]
fn openai_subscription_execution_includes_required_and_derived_headers() {
    let provider = OpenAi;
    let template = provider.template("subscription").unwrap();

    let (_, headers) = prepare_endpoint(&provider, &document(), &template);

    assert_eq!(headers.get("originator").unwrap(), "zork");
    assert_eq!(headers.get("x-user-header").unwrap(), "present");
    assert_eq!(headers.get("ChatGPT-Account-Id").unwrap(), "account-secret");
}

#[test]
fn subscription_template_declares_current_luna_responses_selection() {
    let template = OpenAi.template("subscription").unwrap();
    let models = to_value(&template.models);
    let model = &models[0];

    assert_eq!(template.base_url, "https://chatgpt.com/backend-api/codex");
    assert_eq!(model["id"], "gpt-5.6-luna");
    assert_eq!(model["api"], "openai-codex-responses");
    assert_eq!(model["default_thinking"], "medium");
    assert!(model["thinking"]
        .as_array()
        .unwrap()
        .contains(&Value::from("max")));
    assert_eq!(model["limits"]["context_window_tokens"], 872_000);
    assert_eq!(model["limits"]["max_output_tokens"], 128_000);
}

#[test]
fn configured_status_represents_unreported_quota_without_failure() {
    let snapshot = configured_snapshot();
    let account = to_value(&snapshot.account);

    assert_eq!(account["ok"], true);
    assert_eq!(account["account"]["type"], "openai-compatible");
    assert_eq!(
        to_value(&snapshot.rate_limits),
        value(r#"{ "ok": true, "reported": false }"#)
    );
    assert!(snapshot.auth.is_none());
}

#[test]
fn templates_know_their_billing() {
    let usage = OpenAi.template("usage").unwrap();
    assert_eq!(usage.base_url, "https://api.openai.com/v1");
    assert_eq!(to_value(&usage.models)[0]["limits"]["context_window_tokens"], 1_047_576);
    assert_eq!(
        OpenAi.template("free").unwrap_err(),
        "openai does not support billing free"
    );
    let own = OpenAiCompatible.template("usage").unwrap();
    assert_eq!(own.base_url, "https://example.invalid/v1");
    assert_eq!(to_value(&own.models)[0]["parallel_tool_calls"], false);
    assert_eq!(
        OpenAiCompatible.template("subscription").unwrap_err(),
        "openai-compatible does not support billing subscription"
    );
    assert_eq!(OpenAi.info().billing.len(), 2);
    assert_eq!(OpenAiCompatible.info().label, "OpenAI Compatible");
    assert!(OpenAi.supports_device_code("subscription"));
    assert!(!OpenAi.supports_device_code("usage"));
    assert!(!OpenAiCompatible.supports_device_code("subscription"));
}

#[test]
fn credentials_are_taken_in_their_order() {
    let auth = json(r#"{"access": " a ", "key": "k"}"#);
    assert_eq!(OpenAi.bearer(&auth).unwrap(), "a");
    assert_eq!(OpenAiCompatible.bearer(&auth).unwrap(), "k");
    let empty = json("{}");
    assert_eq!(OpenAi.bearer(&empty).unwrap_err(), "Missing OpenAI credential");
    assert_eq!(
        OpenAiCompatible.bearer(&empty).unwrap_err(),
        "Missing OpenAI-compatible credential"
    );
    assert_eq!(usage_key(&auth).unwrap(), "k");
    assert_eq!(usage_key(&empty).unwrap_err(), "Missing OpenAI API key");
    assert_eq!(subscription_token(&auth, true).unwrap(), "a");
    assert_eq!(
        subscription_token(&empty, true).unwrap_err(),
        "Missing OpenAI access token"
    );
    assert_eq!(
        subscription_token(&empty, false).unwrap_err(),
        "Missing OpenAI subscription credentials"
    );
    assert_eq!(
        subscription_account(&json(r#"{"accountId":"x"}"#)).as_deref(),
        Some("x")
    );
    assert_eq!(probed_billing(&json("{}")), "usage");
    assert!(probe_configured(&json(r#"{"auth":{"key":"k"}}"#)).is_ok());
    assert_eq!(
        probe_configured(&json("{}")).unwrap_err(),
        "Missing OpenAI-compatible credential"
    );
}

#[test]
fn an_execution_carries_all_that_a_request_needs() {
    let limits = ModelLimits {
        context_window_tokens: 100,
        max_output_tokens: 10,
        reserve_percent: 20,
    };
    let selected = SelectedModel {
        api: "openai-responses".to_owned(),
        streaming: true,
        parallel_tool_calls: false,
        service_tier: Some("fast".to_owned()),
        limits: Some(limits),
    };
    let doc = document();
    let profile = StoredProfile {
        provider: "openai".to_owned(),
        billing: "subscription".to_owned(),
        auth: doc.get("auth").unwrap().clone(),
        document: doc,
    };
    let execution =
        load_selected(&OpenAi, "p1", &profile, "gpt-5.6-luna", "max", &selected).unwrap();
    assert_eq!(execution.bearer, "access-secret");
    assert_eq!(execution.base_url, "https://chatgpt.com/backend-api/codex");
    assert_eq!(execution.service_tier.as_deref(), Some("fast"));
    assert_eq!(execution.limits, limits);
    let unlimited = SelectedModel { limits: None, ..selected };
    assert_eq!(
        load_selected(&OpenAi, "p1", &profile, "m", "max", &unlimited).err().unwrap(),
        "model m does not declare token limits"
    );
}

#[test]
fn headers_are_the_members_that_are_texts() {
    let headers = headers_from_value(&json(r#"{"a": "1", "b": 2, "c": null}"#));
    assert_eq!(headers.len(), 1);
    assert_eq!(headers.get("a").unwrap(), "1");
    assert_eq!(headers_from_value(&json("[]")).len(), 0);
}

#[test]
fn base64_gives_back_what_was_written() {
    assert_eq!(decode_base64("").unwrap(), b"");
    assert_eq!(decode_base64("Zg==").unwrap(), b"f");
    assert_eq!(decode_base64("Zm8=").unwrap(), b"fo");
    assert_eq!(decode_base64("Zm9v").unwrap(), b"foo");
    assert_eq!(decode_base64("Zm9vYmFy").unwrap(), b"foobar");
    assert_eq!(decode_base64("+/+/").unwrap(), [0xfb, 0xff, 0xbf]);
    assert_eq!(decode_base64("Zm9vY"), Some(b"foo".to_vec()));
    assert!(decode_base64("Z*==").is_none());
}

#[test]
fn tokens_name_their_account() {
    // {"https://api.openai.com/auth":{"chatgpt_account_id":"acct-1"}}
    let claims = "eyJodHRwczovL2FwaS5vcGVuYWkuY29tL2F1dGgiOnsiY2hhdGdwdF9hY2NvdW50X2lkIjoiYWNjdC0xIn19";
    assert_eq!(
        jwt_account_id(&format!("head.{claims}.sign")).as_deref(),
        Some("acct-1")
    );
    assert_eq!(jwt_account_id("no dots"), None);
    assert_eq!(jwt_account_id("a.bm90IGpzb24.c"), None);
    assert_eq!(
        account_of_claims(&json(
            r#"{"https://api.openai.com/auth":{"chatgpt_account_id":"x"}}"#
        ))
        .as_deref(),
        Some("x")
    );
}

#[test]
fn logins_are_renewed_five_minutes_early() {
    let auth = json(r#"{"refresh": "r", "expires": 2000000000000}"#);
    assert!(!refresh_if_needed(&auth, 1_999_999_699_999));
    assert!(refresh_if_needed(&auth, 1_999_999_700_000));
    assert!(!refresh_if_needed(&json(r#"{"expires": 1}"#), 5));
    assert!(!refresh_if_needed(&json(r#"{"refresh": "r"}"#), 5));
    assert_eq!(expires_ms(&json(r#"{"expires": 7}"#)), Some(7_000));
    assert_eq!(expires_ms(&json(r#"{"expires": 1000000000001}"#)), Some(1_000_000_000_001));
    assert_eq!(expires_ms(&json(r#"{"expires": "x"}"#)), None);
}

#[test]
fn token_requests_are_forms() {
    assert_eq!(
        refresh_body(&json(r#"{"refresh": "a+b"}"#)).unwrap(),
        "grant_type=refresh_token&refresh_token=a%2Bb&client_id=app_EMoamEEZ73f0CkXaXp7hrann"
    );
    assert_eq!(
        refresh_body(&json("{}")).unwrap_err(),
        "Missing OpenAI refresh token"
    );
    assert_eq!(
        exchange_body("c", "v"),
        "grant_type=authorization_code&code=c&redirect_uri=https%3A%2F%2Fauth.openai.com%2Fdeviceauth%2Fcallback&client_id=app_EMoamEEZ73f0CkXaXp7hrann&code_verifier=v"
    );
}

#[test]
fn token_answers_become_logins() {
    let payload = json(r#"{"access_token": "plain", "expires_in": 60}"#);
    let previous = json(r#"{"refresh": "old", "accountId": "acct"}"#);
    let auth = read_token_response(200, "", Some(&payload), Some(&previous), 1_000).unwrap();
    assert_eq!(
        to_value(&auth),
        value(r#"{"type":"oauth","access":"plain","refresh":"old","expires":61000,"accountId":"acct"}"#)
    );
    assert_eq!(
        read_token_response(400, "denied", None, None, 0).unwrap_err(),
        "OpenAI token request failed: denied"
    );
    assert_eq!(
        token_answer(400, &b"denied".to_vec(), None, 0).unwrap().unwrap_err(),
        "OpenAI token request failed: denied"
    );
    let granted = br#"{"access_token":"a","refresh_token":"r","expires_in":10}"#.to_vec();
    let login = token_answer(200, &granted, None, 1_000).unwrap().unwrap();
    assert_eq!(to_value(&login)["expires"], 11_000);
    assert!(token_answer(200, &granted, None, i64::MAX).is_none());
    assert!(token_answer(500, &granted, None, i64::MAX).unwrap().is_err());
    assert_eq!(
        token_answer(200, &b"\xff".to_vec(), None, 0).unwrap().unwrap_err(),
        "openai token json"
    );
    assert!(matches!(
        device_poll_answer(400, &br#"{"error":"slow_down"}"#.to_vec(), 2),
        Some(DevicePoll::Pending { retry_after_seconds: 10 })
    ));
    assert!(matches!(
        device_poll_answer(400, &br#"{"error":"slow_down"}"#.to_vec(), u64::MAX - 5),
        Some(DevicePoll::Pending { retry_after_seconds: u64::MAX })
    ));
    assert!(device_poll_answer(400, &br#"{"error":"slow_down"}"#.to_vec(), u64::MAX - 4).is_none());
    assert!(matches!(
        device_poll_answer(403, &Vec::new(), u64::MAX),
        Some(DevicePoll::Pending { retry_after_seconds: u64::MAX })
    ));
    let code = br#"{"device_auth_id":"d","user_code":"u","interval":"7"}"#.to_vec();
    let code = device_code_answer(200, &code, 0).unwrap();
    assert_eq!((code.device_code.as_str(), code.interval_seconds), ("d", 7));
    assert_eq!(code.expires_at, "1970-01-01T00:15:00.000Z");
    assert_eq!(
        device_code_answer(500, &b"busy".to_vec(), 0).unwrap_err(),
        "OpenAI device code failed: busy"
    );
    let snapshot = subscription_answer(200, &br#"{"email":"a@b"}"#.to_vec());
    assert_eq!(to_value(&snapshot.account)["account"]["email"], "a@b");
    let snapshot = subscription_answer(200, &b"<html>".to_vec());
    assert!(to_value(&snapshot.account)["account"]["email"].is_null());
    assert_eq!(
        read_token_response(200, "", None, None, 0).unwrap_err(),
        "openai token json"
    );
    assert_eq!(
        login_from_answer(&json("{}"), None, None, 0).unwrap_err(),
        "missing access_token"
    );
    assert_eq!(
        login_from_answer(&json(r#"{"access_token":"a"}"#), None, None, 0).unwrap_err(),
        "missing refresh_token"
    );
    let fresh = login_from_answer(
        &json(r#"{"access_token":"a","refresh_token":"b"}"#),
        None,
        Some("me".to_owned()),
        2_000_000_000_000,
    )
    .unwrap();
    assert_eq!(to_value(&fresh)["expires"], 2_000_003_600_000u64);
    assert_eq!(to_value(&fresh)["accountId"], "me");
    assert!(!refresh_if_needed(&fresh, 2_000_000_000_000));
}

#[test]
fn device_logins_go_step_by_step() {
    let payload = json(r#"{"device_auth_id":"d","usercode":"u","interval":" 7 "}"#);
    let code = start_device_code(200, "", Some(&payload), 1_700_000_000_000).unwrap();
    assert_eq!(code.device_code, "d");
    assert_eq!(code.user_code, "u");
    assert_eq!(code.interval_seconds, 7);
    assert_eq!(code.expires_at, "2023-11-14T22:28:20.000Z");
    let zero = json(r#"{"device_auth_id":"d","user_code":"u","interval":0}"#);
    assert_eq!(start_device_code(200, "", Some(&zero), 0).unwrap().interval_seconds, 1);
    assert_eq!(
        start_device_code(404, "", None, 0).unwrap_err(),
        "OpenAI Codex device code login is not enabled. Enable it in ChatGPT settings."
    );
    assert_eq!(
        start_device_code(500, "oops", None, 0).unwrap_err(),
        "OpenAI device code failed: oops"
    );
    assert_eq!(
        start_device_code(200, "", Some(&json("{}")), 0).unwrap_err(),
        "missing device_auth_id"
    );
    assert_eq!(
        start_device_code(200, "", Some(&json(r#"{"device_auth_id":"d"}"#)), 0).unwrap_err(),
        "missing user_code"
    );

    assert!(matches!(
        poll_device_code(403, None, 5),
        DevicePoll::Pending { retry_after_seconds: 5 }
    ));
    let slow = json(r#"{"error":{"code":"slow_down"}}"#);
    assert!(matches!(
        poll_device_code(400, Some(&slow), 2),
        DevicePoll::Pending { retry_after_seconds: 10 }
    ));
    assert!(matches!(
        poll_device_code(400, Some(&json(r#"{"error":"deviceauth_authorization_pending"}"#)), 3),
        DevicePoll::Pending { retry_after_seconds: 3 }
    ));
    assert!(matches!(
        poll_device_code(400, None, u64::MAX),
        DevicePoll::Failed(error) if error == "OpenAI device poll failed: unknown"
    ));
    let done = json(r#"{"authorization_code":"c","code_verifier":"v"}"#);
    assert!(matches!(
        poll_device_code(200, Some(&done), 3),
        DevicePoll::Authorized { code, verifier } if code == "c" && verifier == "v"
    ));
    assert!(matches!(
        poll_device_code(200, Some(&json(r#"{"authorization_code":"c"}"#)), 3),
        DevicePoll::Failed(error) if error == "missing code_verifier"
    ));
}

#[test]
fn probes_report_accounts() {
    let usage = probe_usage(200, "").unwrap();
    assert_eq!(to_value(&usage.rate_limits)["rateLimits"]["credits"]["unlimited"], true);
    assert_eq!(
        probe_usage(401, "bad key").unwrap_err(),
        "OpenAI API key probe failed: bad key"
    );
    let known = probe_subscription(200, Some(&json(r#"{"email":"me@example.com"}"#)));
    assert_eq!(to_value(&known.account)["account"]["email"], "me@example.com");
    let unknown = probe_subscription(500, Some(&json(r#"{"email":"me@example.com"}"#)));
    assert_eq!(to_value(&unknown.account)["account"]["email"], Value::Null);
}

fn profile(profile_id: &str, billing: &str, account: &str, rate_limits: &str) -> AgentProfile {
    AgentProfile {
        profile_id: profile_id.to_owned(),
        billing: billing.to_owned(),
        auth_configured: true,
        account: json(account),
        rate_limits: json(rate_limits),
        models: vec![AgentModel {
            id: "grok-4.6".to_owned(),
            thinking: vec!["high".to_owned(), "xhigh".to_owned()],
            default_thinking: "xhigh".to_owned(),
            default: true,
        }],
    }
}

/// Scores keep the order of what is left.
fn scored(profile: AgentProfile) -> ScoredProfile {
    let number = |value: &Json| match value {
        Json::Unsigned(number) => *number as f64,
        Json::Negative(number) => *number as f64,
        Json::Decimal(text) | Json::Text(text) => text.parse::<f64>().unwrap_or(0.0),
        _ => 0.0,
    };
    let left = match score_source(&profile) {
        ScoreSource::Nothing => 0.0,
        ScoreSource::Unlimited => 100.0,
        ScoreSource::Balance(balance) => number(&balance),
        ScoreSource::UsedPercent(used) => 100.0 - number(&used),
    };
    let score = if left > 0.0 { left.to_bits() } else { 0 };
    ScoredProfile { profile, score }
}

#[test]
fn selects_only_an_explicit_profile_default_model_and_thinking() {
    let profiles = vec![scored(profile("grok", "subscription", "{}", "{}"))];
    let selection = default_selection(&profiles).unwrap();
    assert_eq!(selection.profile_id, "grok");
    assert_eq!(selection.model, "grok-4.6");
    assert_eq!(selection.thinking, "xhigh");
}

#[test]
fn bindings_get_one_session() {
    let profiles = vec![scored(profile("grok", "subscription", "{}", "{}"))];
    assert!(matches!(
        ensure_binding_session(Some("there"), &profiles),
        BindStep::Bound(id) if id == "there"
    ));
    assert!(matches!(
        ensure_binding_session(None, &profiles),
        BindStep::Create(selection) if selection.profile_id == "grok"
    ));
    assert!(matches!(ensure_binding_session(None, &Vec::new()), BindStep::Blocked));
    assert_eq!(SELECTION_BLOCK, "no_selectable_profiles");
}

#[test]
fn automatic_profile_keeps_the_requested_model_and_thinking() {
    let profiles = vec![
        scored(profile(
            "usage",
            "usage",
            r#"{ "ok": true }"#,
            r#"{ "ok": true, "rateLimits": { "credits": { "balance": "100" } } }"#,
        )),
        scored(profile(
            "subscription",
            "subscription",
            r#"{ "ok": true }"#,
            r#"{ "ok": true, "rateLimits": { "secondary": { "usedPercent": 60 } } }"#,
        )),
    ];
    let selection = resolve_selection(
        &profiles,
        &SessionSelection {
            profile_id: "auto".to_owned(),
            model: "grok-4.6".to_owned(),
            thinking: "high".to_owned(),
        },
    )
    .unwrap();
    assert_eq!(selection.profile_id, "subscription");
    assert_eq!(selection.model, "grok-4.6");
    assert_eq!(selection.thinking, "high");
}

#[test]
fn the_most_that_is_left_decides_and_then_the_name() {
    let limits = |used: u64| {
        format!(r#"{{"ok":true,"rateLimits":{{"primary":{{"usedPercent":{used}}}}}}}"#)
    };
    let ok = r#"{"ok":true}"#;
    let asked = SessionSelection {
        profile_id: "auto".to_owned(),
        model: "grok-4.6".to_owned(),
        thinking: "high".to_owned(),
    };
    let profiles = vec![
        scored(profile("c", "subscription", ok, &limits(50))),
        scored(profile("b", "subscription", ok, &limits(20))),
        scored(profile("a", "subscription", ok, &limits(20))),
        scored(profile("d", "subscription", ok, &limits(100))),
    ];
    assert_eq!(resolve_selection(&profiles, &asked).unwrap().profile_id, "a");
    let named = SessionSelection { profile_id: "d".to_owned(), ..asked.clone() };
    assert_eq!(resolve_selection(&profiles, &named).unwrap().profile_id, "d");
    let other = SessionSelection { thinking: "low".to_owned(), ..asked };
    assert!(resolve_selection(&profiles, &other).is_none());
    assert!(default_selection(&Vec::new()).is_none());
}

#[test]
fn prompts_and_addresses_follow_the_binding() {
    assert_eq!(system_prompt_for_binding(BindingKind::Normal, "t", "p"), "t");
    assert_eq!(system_prompt_for_binding(BindingKind::Proactive, "t", "p"), "p");
    assert_eq!(base_url("0.0.0.0:3010"), "http://127.0.0.1:3010");
    assert!(check_unbound(None).is_ok());
    assert_eq!(check_unbound(Some("x")).unwrap_err().status, 409);
}

fn session() -> SessionView {
    SessionView {
        session_id: "s".to_owned(),
        workspace: "/w".to_owned(),
        profile_id: "p".to_owned(),
        model: "m".to_owned(),
        thinking: "t".to_owned(),
        generation: 1,
        context: ContextConfig::default(),
        status: SessionStatus::Wait,
    }
}

#[test]
fn answers_of_the_agent_must_be_what_was_asked_for() {
    let asked = SessionSelection {
        profile_id: "p".to_owned(),
        model: "m".to_owned(),
        thinking: "t".to_owned(),
    };
    assert!(check_created(&session(), &asked).is_ok());
    let homeless = SessionView { workspace: String::new(), ..session() };
    let error = check_created(&homeless, &asked).unwrap_err();
    assert_eq!(error.status, 502);
    assert_eq!(error.message, "zork-agent returned an empty session workspace");
    let other = SessionSelection { model: "n".to_owned(), ..asked.clone() };
    assert_eq!(
        check_created(&session(), &other).unwrap_err().message,
        "zork-agent returned a different session selection"
    );
    assert_eq!(check_updated(&session(), "s", &asked).unwrap().model, "m");
    assert!(check_updated(&session(), "x", &asked).is_err());
    assert_eq!(
        check_context(&session(), "s", None).unwrap().keep_recent_tokens,
        20_000
    );
    let wanted = ContextConfig { strategy: ContextStrategy::Handoff, keep_recent_tokens: 1 };
    assert_eq!(
        check_context(&session(), "s", Some(wanted)).unwrap_err().message,
        "zork-agent returned a different session context"
    );
}

#[test]
fn errors_of_the_agent_keep_the_fault_of_the_request() {
    let detail = ApiErrorDetail {
        code: ApiErrorCode::SessionNotFound,
        message: "no such session".to_owned(),
    };
    let kept = agent_http_error(404, "404 Not Found", "send", Ok(&detail));
    assert_eq!((kept.status, kept.message.as_str()), (404, "no such session"));
    let broken = agent_http_error(500, "500 Internal Server Error", "send", Err("eof"));
    assert_eq!(broken.status, 502);
    assert_eq!(
        broken.message,
        "invalid send error response for HTTP 500 Internal Server Error: eof"
    );
    assert_eq!(cancelled(204, "204 No Content", None), Ok(true));
    assert_eq!(cancelled(404, "404 Not Found", Some(&detail)), Ok(false));
    assert_eq!(
        cancelled(500, "500", Some(&detail)),
        Err("zork-agent cancellation failed: no such session".to_owned())
    );
    let busy = ApiErrorDetail { code: ApiErrorCode::SessionDeleting, message: "x".to_owned() };
    assert_eq!(
        cancelled(404, "404", Some(&busy)),
        Err("cancel zork-agent session returned HTTP 404 with error code SessionDeleting".to_owned())
    );
    assert_eq!(
        cancelled(500, "500 X", None),
        Err("invalid cancel zork-agent session error response for HTTP 500 X".to_owned())
    );
}
