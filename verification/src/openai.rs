//! OpenAI as a provider: by usage with a key, or by a ChatGPT subscription with a login.
use vstd::prelude::*;
use vstd::utf8::{encode_utf8, is_ascii_chars, is_ascii_chars_encode_utf8};

use crate::base64::{
    decode_base64, decoded, decoding_undoes_encoding, encoded, letter, sextet,
};
use crate::clock::{rfc3339, rfc3339_text};
use crate::execution::{own_headers_win, profile_headers};
use crate::json::{
    json_in_bytes, member, named_members_are_found, no_fields, no_items, optional_ref,
    optional_text, parse_bytes, setting_a_member_keeps_the_others, signed_model,
    text_or_null_model, with_value, Json, JsonArray, JsonModel, JsonObject,
};
use crate::paging::{lossy_text, text_from_bytes};
use crate::paths::{byte_len, byte_length, replace_char, replaced};
use crate::providers::{
    credential, filled_at, filled_member, first_filled, is_success, lacks, AuthProvider,
    BillingKind, InfoModel, ProfileTemplate, ProviderInfo, QuotaSnapshot, TemplateModel,
};
use crate::slack_status::{form_bytes, urlencode};
use crate::text::{
    is_blank, join2, parse_u64, same, split, split_text, splitting_cuts_at_the_marks, texts, trim,
    trimmed, u64_of,
};

verus! {

pub const REFRESH_LEEWAY_MS: i64 = 300_000;

/// The latest time that a login started now may be given.
pub const LAST_LOGIN_MS: i64 = 7_999_999_999_100_000;

pub fn client_id() -> (r: &'static str)
    ensures
        r@ == "app_EMoamEEZ73f0CkXaXp7hrann"@,
{
    "app_EMoamEEZ73f0CkXaXp7hrann"
}

pub struct OpenAi;

/// The limits of a model as a profile states them.
pub open spec fn limits_model(window: u64, output: u64) -> JsonModel {
    JsonModel::Object(
        no_fields().push(("context_window_tokens"@, JsonModel::Unsigned(window))).push(
            ("max_output_tokens"@, JsonModel::Unsigned(output)),
        ),
    )
}

/// What a model takes: text and images.
pub open spec fn capabilities_model() -> JsonModel {
    JsonModel::Object(
        no_fields().push(
            (
                "input"@,
                JsonModel::Array(
                    no_items().push(JsonModel::Text("text"@)).push(JsonModel::Text("image"@)),
                ),
            ),
        ),
    )
}

fn limits_json(window: u64, output: u64) -> (r: Json)
    ensures
        r@ == limits_model(window, output),
{
    JsonObject::new().with("context_window_tokens", Json::Unsigned(window)).with(
        "max_output_tokens",
        Json::Unsigned(output),
    ).done()
}

pub(crate) fn capabilities_json() -> (r: Json)
    ensures
        r@ == capabilities_model(),
{
    let input = JsonArray::new().with(Json::text("text")).with(Json::text("image")).done();
    JsonObject::new().with("input", input).done()
}

/// The model of a profile that is paid by usage.
pub open spec fn usage_model() -> JsonModel {
    JsonModel::Object(
        no_fields().push(("id"@, JsonModel::Text("gpt-4.1"@))).push(
            ("api"@, JsonModel::Text("openai-completions"@)),
        ).push(("streaming"@, JsonModel::Bool(true))).push(
            ("thinking"@, JsonModel::Array(no_items().push(JsonModel::Text("off"@)))),
        ).push(("default_thinking"@, JsonModel::Text("off"@))).push(
            ("capabilities"@, capabilities_model()),
        ).push(("limits"@, limits_model(1_047_576, 32_768))).push(
            ("default"@, JsonModel::Bool(true)),
        ),
    )
}

/// The levels of thinking of a profile on a subscription.
pub open spec fn subscription_thinking() -> JsonModel {
    JsonModel::Array(
        no_items().push(JsonModel::Text("low"@)).push(JsonModel::Text("medium"@)).push(
            JsonModel::Text("high"@),
        ).push(JsonModel::Text("xhigh"@)).push(JsonModel::Text("max"@)),
    )
}

/// The model of a profile on a subscription.
pub open spec fn subscription_model() -> JsonModel {
    JsonModel::Object(
        no_fields().push(("id"@, JsonModel::Text("gpt-5.6-luna"@))).push(
            ("api"@, JsonModel::Text("openai-codex-responses"@)),
        ).push(("streaming"@, JsonModel::Bool(true))).push(
            ("thinking"@, subscription_thinking()),
        ).push(("default_thinking"@, JsonModel::Text("medium"@))).push(
            ("capabilities"@, capabilities_model()),
        ).push(("limits"@, limits_model(872_000, 128_000))).push(
            ("default"@, JsonModel::Bool(true)),
        ),
    )
}

fn usage_model_json() -> (r: Json)
    ensures
        r@ == usage_model(),
{
    let thinking = JsonArray::new().with(Json::text("off")).done();
    JsonObject::new().with("id", Json::text("gpt-4.1")).with(
        "api",
        Json::text("openai-completions"),
    ).with("streaming", Json::Bool(true)).with("thinking", thinking).with(
        "default_thinking",
        Json::text("off"),
    ).with("capabilities", capabilities_json()).with(
        "limits",
        limits_json(1_047_576, 32_768),
    ).with("default", Json::Bool(true)).done()
}

fn subscription_model_json() -> (r: Json)
    ensures
        r@ == subscription_model(),
{
    let thinking = JsonArray::new().with(Json::text("low")).with(Json::text("medium")).with(
        Json::text("high"),
    ).with(Json::text("xhigh")).with(Json::text("max")).done();
    JsonObject::new().with("id", Json::text("gpt-5.6-luna")).with(
        "api",
        Json::text("openai-codex-responses"),
    ).with("streaming", Json::Bool(true)).with("thinking", thinking).with(
        "default_thinking",
        Json::text("medium"),
    ).with("capabilities", capabilities_json()).with(
        "limits",
        limits_json(872_000, 128_000),
    ).with("default", Json::Bool(true)).done()
}

impl AuthProvider for OpenAi {
    open spec fn listed(&self) -> InfoModel {
        InfoModel {
            id: "openai"@,
            label: "OpenAI"@,
            billing: seq![
                ("usage"@, "API 按量"@),
                ("subscription"@, "ChatGPT 订阅 (Codex)"@),
            ],
        }
    }

    open spec fn offered(&self, billing: Seq<char>) -> Result<TemplateModel, Seq<char>> {
        if billing == "usage"@ {
            Ok(
                TemplateModel {
                    provider: "openai"@,
                    billing: "usage"@,
                    base_url: "https://api.openai.com/v1"@,
                    headers: JsonModel::Object(no_fields()),
                    models: JsonModel::Array(no_items().push(usage_model())),
                },
            )
        } else if billing == "subscription"@ {
            Ok(
                TemplateModel {
                    provider: "openai"@,
                    billing: "subscription"@,
                    base_url: "https://chatgpt.com/backend-api/codex"@,
                    headers: JsonModel::Object(
                        no_fields().push(("originator"@, JsonModel::Text("zork"@))),
                    ),
                    models: JsonModel::Array(no_items().push(subscription_model())),
                },
            )
        } else {
            Err("openai does not support billing "@ + billing)
        }
    }

    /// The account of the login is named in a header.
    open spec fn decorated(&self, document: JsonModel) -> JsonModel {
        match document.get2("auth"@, "accountId"@) {
            Some(JsonModel::Text(account_id)) => match document.get("headers"@) {
                Some(headers) => with_value(
                    document,
                    "headers"@,
                    with_value(headers, "ChatGPT-Account-Id"@, JsonModel::Text(account_id)),
                ),
                None => with_value(
                    document,
                    "headers"@,
                    with_value(
                        JsonModel::Object(no_fields()),
                        "ChatGPT-Account-Id"@,
                        JsonModel::Text(account_id),
                    ),
                ),
            },
            _ => document,
        }
    }

    open spec fn carried(&self, auth: JsonModel) -> Result<Seq<char>, Seq<char>> {
        first_filled(auth, "access"@, "key"@, "Missing OpenAI credential"@)
    }

    open spec fn has_device_code(&self, billing: Seq<char>) -> bool {
        billing == "subscription"@
    }

    fn info(&self) -> (r: ProviderInfo) {
        let mut billing: Vec<BillingKind> = Vec::new();
        billing.push(BillingKind { id: "usage", label: "API 按量" });
        billing.push(BillingKind { id: "subscription", label: "ChatGPT 订阅 (Codex)" });
        let info = ProviderInfo { id: "openai", label: "OpenAI", billing };
        proof {
            assert(info@.billing =~= self.listed().billing);
        }
        info
    }

    fn template(&self, billing: &str) -> (r: Result<ProfileTemplate, String>) {
        if same(billing, "usage") {
            Ok(
                ProfileTemplate {
                    provider: "openai".to_owned(),
                    billing: "usage".to_owned(),
                    base_url: "https://api.openai.com/v1".to_owned(),
                    headers: JsonObject::new().done(),
                    models: JsonArray::new().with(usage_model_json()).done(),
                },
            )
        } else if same(billing, "subscription") {
            Ok(
                ProfileTemplate {
                    provider: "openai".to_owned(),
                    billing: "subscription".to_owned(),
                    base_url: "https://chatgpt.com/backend-api/codex".to_owned(),
                    headers: JsonObject::new().with("originator", Json::text("zork")).done(),
                    models: JsonArray::new().with(subscription_model_json()).done(),
                },
            )
        } else {
            Err(join2("openai does not support billing ", billing))
        }
    }

    fn decorate_document(&self, document: Json) -> (r: Json) {
        let account_id = match document.get2("auth", "accountId") {
            Some(Json::Text(account_id)) => account_id.clone(),
            _ => {
                return document;
            },
        };
        let headers = match document.get("headers") {
            Some(headers) => headers.clone(),
            None => JsonObject::new().done(),
        };
        let headers = headers.with_value("ChatGPT-Account-Id", Json::Text(account_id));
        document.with_value("headers", headers)
    }

    fn bearer(&self, auth: &Json) -> (r: Result<String, String>) {
        credential(auth, "access", "key", "Missing OpenAI credential")
    }

    fn supports_device_code(&self, billing: &str) -> (r: bool) {
        same(billing, "subscription")
    }
}

/// When a credential ends, in milliseconds; small numbers are seconds.
pub open spec fn expiry(auth: JsonModel) -> Option<int> {
    match auth.get("expires"@) {
        Some(value) => match value.as_signed() {
            Some(expires) => if expires > 1_000_000_000_000 {
                Some(expires as int)
            } else {
                Some(expires * 1000)
            },
            None => None,
        },
        None => None,
    }
}

/// When a credential ends, in milliseconds.
pub fn expires_ms(auth: &Json) -> (r: Option<i64>)
    requires
        expiry(auth@) is Some ==> expiry(auth@)->0 >= i64::MIN,
    ensures
        match r {
            Some(ms) => expiry(auth@) == Some(ms as int),
            None => expiry(auth@) is None,
        },
{
    match auth.get("expires") {
        Some(value) => match value.as_i64() {
            Some(expires) => if expires > 1_000_000_000_000 {
                Some(expires)
            } else {
                Some(expires * 1000)
            },
            None => None,
        },
        None => None,
    }
}

/// Whether a login is to be renewed before it is used: it can be, and it ends within five minutes.
pub open spec fn refresh_due(auth: JsonModel, now_ms: int) -> bool {
    filled_member(auth, "refresh"@) is Some && match expiry(auth) {
        Some(expires) => expires <= now_ms + REFRESH_LEEWAY_MS,
        None => false,
    }
}

/// Whether a login is to be renewed before it is used.
pub fn refresh_if_needed(auth: &Json, now_ms: i64) -> (r: bool)
    requires
        now_ms <= i64::MAX - REFRESH_LEEWAY_MS,
        expiry(auth@) is Some ==> expiry(auth@)->0 >= i64::MIN,
    ensures
        r == refresh_due(auth@, now_ms as int),
{
    if filled_at(auth, "refresh").is_none() {
        return false;
    }
    match expires_ms(auth) {
        Some(expires) => !(expires > now_ms + REFRESH_LEEWAY_MS),
        None => false,
    }
}

/// The form of a text.
pub open spec fn form(text: Seq<char>) -> Seq<char> {
    form_bytes(encode_utf8(text))
}

/// The request that renews a login.
pub fn refresh_body(auth: &Json) -> (r: Result<String, String>)
    ensures
        match (r, filled_member(auth@, "refresh"@)) {
            (Ok(body), Some(refresh)) => body@ == "grant_type=refresh_token&refresh_token="@ + form(
                refresh,
            ) + "&client_id="@ + form("app_EMoamEEZ73f0CkXaXp7hrann"@),
            (Err(error), None) => error@ == "Missing OpenAI refresh token"@,
            _ => false,
        },
{
    match filled_at(auth, "refresh") {
        Some(refresh) => {
            let mut body = "grant_type=refresh_token&refresh_token=".to_owned();
            body.append(&urlencode(&refresh));
            body.append("&client_id=");
            body.append(&urlencode(client_id()));
            Ok(body)
        },
        None => Err("Missing OpenAI refresh token".to_owned()),
    }
}

/// The request that turns an authorization into a login.
pub fn exchange_body(code: &str, verifier: &str) -> (r: String)
    ensures
        r@ == "grant_type=authorization_code&code="@ + form(code@) + "&redirect_uri="@ + form(
            "https://auth.openai.com/deviceauth/callback"@,
        ) + "&client_id="@ + form("app_EMoamEEZ73f0CkXaXp7hrann"@) + "&code_verifier="@ + form(
            verifier@,
        ),
{
    let mut body = "grant_type=authorization_code&code=".to_owned();
    body.append(&urlencode(code));
    body.append("&redirect_uri=");
    body.append(&urlencode("https://auth.openai.com/deviceauth/callback"));
    body.append("&client_id=");
    body.append(&urlencode(client_id()));
    body.append("&code_verifier=");
    body.append(&urlencode(verifier));
    body
}

/// `s` with padding signs behind it, up to a multiple of four bytes.
pub open spec fn padded(s: Seq<char>) -> Seq<char> {
    s + Seq::new(((4 - byte_len(s) % 4) % 4) as nat, |i: int| '=')
}

fn pad(s: String) -> (r: String)
    ensures
        r@ == padded(s@),
{
    let missing: usize = (4 - byte_length(&s) % 4) % 4;
    let mut out = s;
    let ghost before = out@;
    let mut i: usize = 0;
    while i < missing
        invariant
            i <= missing,
            out@ == before + Seq::new(i as nat, |j: int| '='),
        decreases missing - i,
    {
        out.push('=');
        i = i + 1;
        proof {
            assert(out@ =~= before + Seq::new(i as nat, |j: int| '='));
        }
    }
    out
}

/// The account that the claims of a token name.
pub open spec fn claimed_account(claims: JsonModel) -> Option<Seq<char>> {
    match claims.get2("https://api.openai.com/auth"@, "chatgpt_account_id"@) {
        Some(value) => value.as_text(),
        None => None,
    }
}

/// The account that the claims of a token name.
pub fn account_of_claims(claims: &Json) -> (r: Option<String>)
    ensures
        optional_text(r) == claimed_account(claims@),
{
    match claims.get2("https://api.openai.com/auth", "chatgpt_account_id") {
        Some(value) => match value.as_str() {
            Some(text) => Some(text.to_owned()),
            None => None,
        },
        None => None,
    }
}

/// The bytes of the claims in a token: its second part, in base 64 with the letters for addresses
/// and without padding.
pub open spec fn claim_bytes(token: Seq<char>) -> Option<Seq<u8>> {
    let parts = split(token, '.');
    if parts.len() < 2 {
        None
    } else {
        decoded(encode_utf8(padded(replaced(replaced(parts[1], '-', "+"@), '_', "/"@))))
    }
}

/// The claims in a token, if there are any.
pub open spec fn claims_of(token: Seq<char>) -> Option<JsonModel> {
    match claim_bytes(token) {
        Some(bytes) => json_in_bytes(bytes),
        None => None,
    }
}

/// The account that a token names in its claims.
pub open spec fn account_of_token(token: Seq<char>) -> Option<Seq<char>> {
    match claims_of(token) {
        Some(claims) => claimed_account(claims),
        None => None,
    }
}

/// The account that a token names in its claims.
pub fn jwt_account_id(token: &str) -> (r: Option<String>)
    ensures
        optional_text(r) == account_of_token(token@),
{
    let parts = split_text(token, '.');
    proof {
        assert(texts(parts@).len() == parts@.len());
    }
    if parts.len() < 2 {
        return None;
    }
    proof {
        assert(texts(parts@)[1] == parts@[1]@);
    }
    let normalized = pad(replace_char(&replace_char(&parts[1], '-', "+"), '_', "/"));
    let bytes = match decode_base64(&normalized) {
        Some(bytes) => bytes,
        None => {
            return None;
        },
    };
    match parse_bytes(&bytes) {
        Some(claims) => account_of_claims(&claims),
        None => None,
    }
}

/// How long a new login lasts, in seconds.
pub open spec fn lifetime(payload: JsonModel) -> i64 {
    match payload.get("expires_in"@) {
        Some(value) => match value.as_signed() {
            Some(seconds) => seconds,
            None => 3600,
        },
        None => 3600,
    }
}

/// A member of the earlier login, if there is one.
pub open spec fn earlier(previous: Option<JsonModel>, key: Seq<char>) -> Option<Seq<char>> {
    match previous {
        Some(auth) => filled_member(auth, key),
        None => None,
    }
}

/// Whether an answer to a token request gives a login.
pub open spec fn gives_login(payload: JsonModel, previous: Option<JsonModel>) -> bool {
    payload.text_at("access_token"@) is Some && (payload.text_at("refresh_token"@) is Some
        || earlier(previous, "refresh"@) is Some)
}

/// Whether the end of a login can be told in milliseconds.
pub open spec fn end_fits(payload: JsonModel, now_ms: i64) -> bool {
    &&& i64::MIN <= lifetime(payload) * 1000 <= i64::MAX
    &&& i64::MIN <= now_ms + lifetime(payload) * 1000 <= i64::MAX
}

/// The login that an answer to a token request gives, or why it gives none. What the answer leaves
/// out is taken from the earlier login.
pub open spec fn login(
    payload: JsonModel,
    previous: Option<JsonModel>,
    account: Option<Seq<char>>,
    now_ms: int,
) -> Result<JsonModel, Seq<char>> {
    match payload.text_at("access_token"@) {
        None => Err("missing access_token"@),
        Some(access) => {
            let refresh = match payload.text_at("refresh_token"@) {
                Some(refresh) => Some(refresh),
                None => earlier(previous, "refresh"@),
            };
            match refresh {
                None => Err("missing refresh_token"@),
                Some(refresh) => {
                    let fields = no_fields().push(("type"@, JsonModel::Text("oauth"@))).push(
                        ("access"@, JsonModel::Text(access)),
                    ).push(("refresh"@, JsonModel::Text(refresh))).push(
                        ("expires"@, signed_model((now_ms + lifetime(payload) * 1000) as i64)),
                    );
                    let account_id = match account {
                        Some(account_id) => Some(account_id),
                        None => earlier(previous, "accountId"@),
                    };
                    Ok(
                        JsonModel::Object(
                            match account_id {
                                Some(account_id) => fields.push(
                                    ("accountId"@, JsonModel::Text(account_id)),
                                ),
                                None => fields,
                            },
                        ),
                    )
                },
            }
        },
    }
}

/// What a login or the reason why there is none is.
pub open spec fn login_result(value: Result<Json, String>) -> Result<JsonModel, Seq<char>> {
    match value {
        Ok(auth) => Ok(auth@),
        Err(error) => Err(error@),
    }
}

fn earlier_text(previous: Option<&Json>, key: &str) -> (r: Option<String>)
    ensures
        optional_text(r) == earlier(optional_ref(previous), key@),
{
    match previous {
        Some(auth) => filled_at(auth, key),
        None => None,
    }
}

/// The login that an answer to a token request gives. `account` is the account that its access
/// token names.
pub fn login_from_answer(
    payload: &Json,
    previous: Option<&Json>,
    account: Option<String>,
    now_ms: i64,
) -> (r: Result<Json, String>)
    requires
        gives_login(payload@, optional_ref(previous)) ==> end_fits(payload@, now_ms),
    ensures
        login_result(r) == login(
            payload@,
            optional_ref(previous),
            optional_text(account),
            now_ms as int,
        ),
{
    let access = match payload.str_at("access_token") {
        Some(access) => access,
        None => {
            return Err("missing access_token".to_owned());
        },
    };
    let refresh = match payload.str_at("refresh_token") {
        Some(refresh) => refresh.to_owned(),
        None => match earlier_text(previous, "refresh") {
            Some(refresh) => refresh,
            None => {
                return Err("missing refresh_token".to_owned());
            },
        },
    };
    let expires_in: i64 = match payload.get("expires_in") {
        Some(value) => match value.as_i64() {
            Some(seconds) => seconds,
            None => 3600,
        },
        None => 3600,
    };
    let expires: i64 = now_ms + expires_in * 1000;
    let account_id = match account {
        Some(account_id) => Some(account_id),
        None => earlier_text(previous, "accountId"),
    };
    let object = JsonObject::new().with("type", Json::text("oauth")).with(
        "access",
        Json::text(access),
    ).with("refresh", Json::Text(refresh)).with("expires", Json::signed(expires));
    Ok(
        match account_id {
            Some(account_id) => object.with("accountId", Json::Text(account_id)).done(),
            None => object.done(),
        },
    )
}

/// The login that the answer to a token request gives, or why it gives none.
pub open spec fn token_result(
    status: u16,
    body: Seq<char>,
    payload: Option<JsonModel>,
    previous: Option<JsonModel>,
    now_ms: int,
) -> Result<JsonModel, Seq<char>> {
    if !is_success(status) {
        Err("OpenAI token request failed: "@ + body)
    } else {
        match payload {
            None => Err("openai token json"@),
            Some(payload) => login(
                payload,
                previous,
                match payload.text_at("access_token"@) {
                    Some(access) => account_of_token(access),
                    None => None,
                },
                now_ms,
            ),
        }
    }
}

/// Whether the answer to a token request gives a login whose end cannot be told.
pub open spec fn ends_nowhere(
    status: u16,
    payload: Option<JsonModel>,
    previous: Option<JsonModel>,
    now_ms: i64,
) -> bool {
    is_success(status) && match payload {
        Some(payload) => gives_login(payload, previous) && !end_fits(payload, now_ms),
        None => false,
    }
}

fn lacks_end(status: u16, payload: &Json, previous: Option<&Json>, now_ms: i64) -> (r: bool)
    ensures
        r == ends_nowhere(status, Some(payload@), optional_ref(previous), now_ms),
{
    if status < 200 || status >= 300 || payload.str_at("access_token").is_none() {
        return false;
    }
    if payload.str_at("refresh_token").is_none() && earlier_text(previous, "refresh").is_none() {
        return false;
    }
    let seconds: i64 = match payload.get("expires_in") {
        Some(value) => match value.as_i64() {
            Some(seconds) => seconds,
            None => 3600,
        },
        None => 3600,
    };
    let ms: i128 = (seconds as i128) * 1000;
    let end: i128 = (now_ms as i128) + ms;
    ms < i64::MIN as i128 || ms > i64::MAX as i128 || end < i64::MIN as i128 || end
        > i64::MAX as i128
}

/// Reads the answer to a token request from its content; nothing where the login that it gives ends
/// at a time that cannot be told.
pub fn token_answer(
    status: u16,
    content: &Vec<u8>,
    previous: Option<&Json>,
    now_ms: i64,
) -> (r: Option<Result<Json, String>>)
    ensures
        ({
            let payload = json_in_bytes(content@);
            match r {
                Some(answer) => {
                    &&& !ends_nowhere(status, payload, optional_ref(previous), now_ms)
                    &&& login_result(answer) == token_result(
                        status,
                        lossy_text(content@),
                        payload,
                        optional_ref(previous),
                        now_ms as int,
                    )
                },
                None => ends_nowhere(status, payload, optional_ref(previous), now_ms),
            }
        }),
{
    let body = text_from_bytes(content);
    match parse_bytes(content) {
        None => Some(read_token_response(status, &body, None, previous, now_ms)),
        Some(payload) => {
            if lacks_end(status, &payload, previous, now_ms) {
                return None;
            }
            Some(read_token_response(status, &body, Some(&payload), previous, now_ms))
        },
    }
}

/// Reads the answer to a token request: `payload` is its content, if that is JSON, and `body` its
/// text.
pub fn read_token_response(
    status: u16,
    body: &str,
    payload: Option<&Json>,
    previous: Option<&Json>,
    now_ms: i64,
) -> (r: Result<Json, String>)
    requires
        !ends_nowhere(status, optional_ref(payload), optional_ref(previous), now_ms),
    ensures
        login_result(r) == token_result(
            status,
            body@,
            optional_ref(payload),
            optional_ref(previous),
            now_ms as int,
        ),
{
    if status < 200 || status >= 300 {
        return Err(join2("OpenAI token request failed: ", body));
    }
    match payload {
        None => Err("openai token json".to_owned()),
        Some(payload) => {
            let account = match payload.str_at("access_token") {
                Some(access) => jwt_account_id(access),
                None => None,
            };
            login_from_answer(payload, previous, account, now_ms)
        },
    }
}

/// A login that waits for its code to be entered elsewhere.
#[derive(Debug)]
pub struct DeviceCode {
    pub provider: String,
    pub billing: String,
    pub device_code: String,
    pub user_code: String,
    pub verification_url: String,
    pub interval_seconds: u64,
    pub expires_at: String,
    pub extra: Json,
}

/// How many seconds to wait between two questions: what the answer says, and at least one.
pub open spec fn interval_of(payload: JsonModel) -> u64 {
    let asked = match payload.get("interval"@) {
        Some(JsonModel::Unsigned(seconds)) => seconds,
        Some(JsonModel::Text(text)) => match u64_of(trimmed(text)) {
            Some(seconds) => seconds,
            None => 5,
        },
        _ => 5,
    };
    if asked > 1 {
        asked
    } else {
        1
    }
}

/// The code that is to be entered, under either of its names.
pub open spec fn user_code_of(payload: JsonModel) -> Option<Seq<char>> {
    match payload.text_at("user_code"@) {
        Some(code) => Some(code),
        None => payload.text_at("usercode"@),
    }
}

/// Why no login was started.
pub open spec fn start_error(status: u16, body: Seq<char>, payload: Option<JsonModel>) -> Option<
    Seq<char>,
> {
    if status == 404 {
        Some("OpenAI Codex device code login is not enabled. Enable it in ChatGPT settings."@)
    } else if !is_success(status) {
        Some("OpenAI device code failed: "@ + body)
    } else {
        match payload {
            None => Some("device code json"@),
            Some(payload) => if payload.text_at("device_auth_id"@) is None {
                Some("missing device_auth_id"@)
            } else if user_code_of(payload) is None {
                Some("missing user_code"@)
            } else {
                None
            },
        }
    }
}

fn read_interval(payload: &Json) -> (r: u64)
    ensures
        r == interval_of(payload@),
{
    let asked: u64 = match payload.get("interval") {
        Some(Json::Unsigned(seconds)) => *seconds,
        Some(Json::Text(text)) => match parse_u64(&trim(text)) {
            Some(seconds) => seconds,
            None => 5,
        },
        _ => 5,
    };
    if asked > 1 {
        asked
    } else {
        1
    }
}

/// Whether `code` is the code that an answer gives.
pub open spec fn is_device_code(code: DeviceCode, payload: JsonModel, now_ms: i64) -> bool {
    &&& code.provider@ == "openai"@
    &&& code.billing@ == "subscription"@
    &&& Some(code.device_code@) == payload.text_at("device_auth_id"@)
    &&& Some(code.user_code@) == user_code_of(payload)
    &&& code.verification_url@ == "https://auth.openai.com/codex/device"@
    &&& code.interval_seconds == interval_of(payload)
    &&& code.expires_at@ == rfc3339((now_ms + 900_000) as i64)
    &&& code.extra@ == JsonModel::Object(no_fields())
}

/// Reads the answer to the request for a code from its content.
pub fn device_code_answer(status: u16, content: &Vec<u8>, now_ms: i64) -> (r: Result<
    DeviceCode,
    String,
>)
    requires
        0 <= now_ms <= LAST_LOGIN_MS,
    ensures
        ({
            let error = start_error(status, lossy_text(content@), json_in_bytes(content@));
            match r {
                Ok(code) => error is None && is_device_code(
                    code,
                    json_in_bytes(content@)->0,
                    now_ms,
                ),
                Err(message) => error == Some(message@),
            }
        }),
{
    let body = text_from_bytes(content);
    match parse_bytes(content) {
        Some(payload) => start_device_code(status, &body, Some(&payload), now_ms),
        None => start_device_code(status, &body, None, now_ms),
    }
}

/// Reads the answer to the request for a code.
pub fn start_device_code(
    status: u16,
    body: &str,
    payload: Option<&Json>,
    now_ms: i64,
) -> (r: Result<
    DeviceCode,
    String,
>)
    requires
        0 <= now_ms <= LAST_LOGIN_MS,
    ensures
        match r {
            Ok(code) => start_error(status, body@, optional_ref(payload)) is None
                && is_device_code(code, payload->0@, now_ms),
            Err(error) => start_error(status, body@, optional_ref(payload)) == Some(error@),
        },
{
    if status == 404 {
        return Err(
            "OpenAI Codex device code login is not enabled. Enable it in ChatGPT settings.".to_owned(),
        );
    }
    if status < 200 || status >= 300 {
        return Err(join2("OpenAI device code failed: ", body));
    }
    let payload = match payload {
        Some(payload) => payload,
        None => {
            return Err("device code json".to_owned());
        },
    };
    let device_code = match payload.str_at("device_auth_id") {
        Some(id) => id.to_owned(),
        None => {
            return Err("missing device_auth_id".to_owned());
        },
    };
    let user_code = match payload.str_at("user_code") {
        Some(code) => code.to_owned(),
        None => match payload.str_at("usercode") {
            Some(code) => code.to_owned(),
            None => {
                return Err("missing user_code".to_owned());
            },
        },
    };
    Ok(
        DeviceCode {
            provider: "openai".to_owned(),
            billing: "subscription".to_owned(),
            device_code,
            user_code,
            verification_url: "https://auth.openai.com/codex/device".to_owned(),
            interval_seconds: read_interval(payload),
            expires_at: rfc3339_text(now_ms + 900_000),
            extra: JsonObject::new().done(),
        },
    )
}

/// Where a login stands.
#[derive(Debug)]
pub enum DevicePoll {
    /// Not entered yet.
    Pending { retry_after_seconds: u64 },
    /// Entered: the authorization is to be exchanged.
    Authorized { code: String, verifier: String },
    Failed(String),
}

/// What a step of a login is.
pub enum PollModel {
    Pending(int),
    Authorized(Seq<char>, Seq<char>),
    Failed(Seq<char>),
}

impl View for DevicePoll {
    type V = PollModel;

    open spec fn view(&self) -> PollModel {
        match self {
            DevicePoll::Pending { retry_after_seconds } => PollModel::Pending(
                *retry_after_seconds as int,
            ),
            DevicePoll::Authorized { code, verifier } => PollModel::Authorized(code@, verifier@),
            DevicePoll::Failed(error) => PollModel::Failed(error@),
        }
    }
}

/// The code of an error: the error itself, or its member.
pub open spec fn error_code(payload: Option<JsonModel>) -> Option<Seq<char>> {
    match payload {
        Some(payload) => match payload.get("error"@) {
            Some(error) => match error.as_text() {
                Some(code) => Some(code),
                None => error.text_at("code"@),
            },
            None => None,
        },
        None => None,
    }
}

/// Whether an answer asks for a longer pause between questions.
pub open spec fn asks_to_slow_down(status: u16, payload: Option<JsonModel>) -> bool {
    &&& !is_success(status) && status != 403 && status != 404
    &&& error_code(payload) == Some("slow_down"@)
}

/// Whether the pause that an answer asks for can be told.
pub open spec fn pause_fits(status: u16, payload: Option<JsonModel>, interval: int) -> bool {
    asks_to_slow_down(status, payload) ==> interval <= u64::MAX - 5
}

/// What an answer to the question whether the code was entered means.
pub open spec fn poll_step(status: u16, payload: Option<JsonModel>, interval: int) -> PollModel {
    if status == 403 || status == 404 {
        PollModel::Pending(interval)
    } else if !is_success(status) {
        match error_code(payload) {
            Some(code) => if code == "deviceauth_authorization_pending"@ {
                PollModel::Pending(interval)
            } else if code == "slow_down"@ {
                PollModel::Pending(
                    if interval > 5 {
                        interval + 5
                    } else {
                        10
                    },
                )
            } else {
                PollModel::Failed("OpenAI device poll failed: "@ + code)
            },
            None => PollModel::Failed("OpenAI device poll failed: "@ + "unknown"@),
        }
    } else {
        match payload {
            None => PollModel::Failed("device poll json"@),
            Some(payload) => match (
                payload.text_at("authorization_code"@),
                payload.text_at("code_verifier"@),
            ) {
                (Some(code), Some(verifier)) => PollModel::Authorized(code, verifier),
                (None, _) => PollModel::Failed("missing authorization_code"@),
                _ => PollModel::Failed("missing code_verifier"@),
            },
        }
    }
}

fn read_error_code(payload: Option<&Json>) -> (r: Option<String>)
    ensures
        optional_text(r) == error_code(optional_ref(payload)),
{
    match payload {
        Some(payload) => match payload.get("error") {
            Some(error) => match error.as_str() {
                Some(code) => Some(code.to_owned()),
                None => match error.str_at("code") {
                    Some(code) => Some(code.to_owned()),
                    None => None,
                },
            },
            None => None,
        },
        None => None,
    }
}

/// Reads the answer to the question whether the code was entered from its content; none where it
/// asks for a pause that is longer than any that can be told.
pub fn device_poll_answer(status: u16, content: &Vec<u8>, interval_seconds: u64) -> (r: Option<
    DevicePoll,
>)
    ensures
        match r {
            Some(poll) => {
                &&& pause_fits(status, json_in_bytes(content@), interval_seconds as int)
                &&& poll@ == poll_step(status, json_in_bytes(content@), interval_seconds as int)
            },
            None => !pause_fits(status, json_in_bytes(content@), interval_seconds as int),
        },
{
    let payload = parse_bytes(content);
    if interval_seconds > u64::MAX - 5 && slows_down(status, payload.as_ref()) {
        return None;
    }
    Some(poll_device_code(status, payload.as_ref(), interval_seconds))
}

fn slows_down(status: u16, payload: Option<&Json>) -> (r: bool)
    ensures
        r == asks_to_slow_down(status, optional_ref(payload)),
{
    if (200 <= status && status < 300) || status == 403 || status == 404 {
        return false;
    }
    match read_error_code(payload) {
        Some(code) => same(&code, "slow_down"),
        None => false,
    }
}

/// Reads the answer to the question whether the code was entered.
pub fn poll_device_code(
    status: u16,
    payload: Option<&Json>,
    interval_seconds: u64,
) -> (r: DevicePoll)
    requires
        pause_fits(status, optional_ref(payload), interval_seconds as int),
    ensures
        r@ == poll_step(status, optional_ref(payload), interval_seconds as int),
{
    if status == 403 || status == 404 {
        return DevicePoll::Pending { retry_after_seconds: interval_seconds };
    }
    if status < 200 || status >= 300 {
        return match read_error_code(payload) {
            Some(code) => {
                if same(&code, "deviceauth_authorization_pending") {
                    DevicePoll::Pending { retry_after_seconds: interval_seconds }
                } else if same(&code, "slow_down") {
                    let least: u64 = if interval_seconds > 5 {
                        interval_seconds
                    } else {
                        5
                    };
                    DevicePoll::Pending { retry_after_seconds: least + 5 }
                } else {
                    DevicePoll::Failed(join2("OpenAI device poll failed: ", &code))
                }
            },
            None => DevicePoll::Failed(join2("OpenAI device poll failed: ", "unknown")),
        };
    }
    match payload {
        None => DevicePoll::Failed("device poll json".to_owned()),
        Some(payload) => match payload.str_at("authorization_code") {
            None => DevicePoll::Failed("missing authorization_code".to_owned()),
            Some(code) => match payload.str_at("code_verifier") {
                None => DevicePoll::Failed("missing code_verifier".to_owned()),
                Some(verifier) => DevicePoll::Authorized {
                    code: code.to_owned(),
                    verifier: verifier.to_owned(),
                },
            },
        },
    }
}

/// What is known of an account.
pub open spec fn account_model(account: JsonModel, requires_login: bool) -> JsonModel {
    JsonModel::Object(
        no_fields().push(("ok"@, JsonModel::Bool(true))).push(("account"@, account)).push(
            ("requiresOpenaiAuth"@, JsonModel::Bool(requires_login)),
        ),
    )
}

/// What is known of the limits of an account, where no window is reported.
pub open spec fn rate_limits_model(
    id: Seq<char>,
    name: Seq<char>,
    credits: JsonModel,
    plan: Seq<char>,
) -> JsonModel {
    JsonModel::Object(
        no_fields().push(("ok"@, JsonModel::Bool(true))).push(
            (
                "rateLimits"@,
                JsonModel::Object(
                    no_fields().push(("limitId"@, JsonModel::Text(id))).push(
                        ("limitName"@, JsonModel::Text(name)),
                    ).push(("primary"@, JsonModel::Null)).push(("secondary"@, JsonModel::Null)).push(
                        ("credits"@, credits),
                    ).push(("planType"@, JsonModel::Text(plan))),
                ),
            ),
        ).push(("rateLimitsByLimitId"@, JsonModel::Object(no_fields()))),
    )
}

fn rate_limits_json(id: &str, name: &str, credits: Json, plan: &str) -> (r: Json)
    ensures
        r@ == rate_limits_model(id@, name@, credits@, plan@),
{
    let limits = JsonObject::new().with("limitId", Json::text(id)).with(
        "limitName",
        Json::text(name),
    ).with("primary", Json::Null).with("secondary", Json::Null).with("credits", credits).with(
        "planType",
        Json::text(plan),
    ).done();
    JsonObject::new().with("ok", Json::Bool(true)).with("rateLimits", limits).with(
        "rateLimitsByLimitId",
        JsonObject::new().done(),
    ).done()
}

/// The key that a probe of an account paid by usage carries.
pub fn usage_key(auth: &Json) -> (r: Result<String, String>)
    ensures
        match (r, filled_member(auth@, "key"@)) {
            (Ok(key), Some(text)) => key@ == text,
            (Err(error), None) => error@ == "Missing OpenAI API key"@,
            _ => false,
        },
{
    match filled_at(auth, "key") {
        Some(key) => Ok(key),
        None => Err("Missing OpenAI API key".to_owned()),
    }
}

/// Reads the answer to a probe of an account paid by usage.
pub fn probe_usage(status: u16, body: &str) -> (r: Result<QuotaSnapshot, String>)
    ensures
        match r {
            Ok(snapshot) => {
                &&& is_success(status)
                &&& snapshot.account@ == account_model(
                    JsonModel::Object(
                        no_fields().push(("type"@, JsonModel::Text("openai"@))).push(
                            ("planType"@, JsonModel::Text("API"@)),
                        ),
                    ),
                    false,
                )
                &&& snapshot.rate_limits@ == rate_limits_model(
                    "openai_usage"@,
                    "OpenAI API"@,
                    JsonModel::Object(
                        no_fields().push(("unlimited"@, JsonModel::Bool(true))).push(
                            ("balance"@, JsonModel::Null),
                        ),
                    ),
                    "api"@,
                )
                &&& snapshot.auth is None
            },
            Err(error) => !is_success(status) && error@ == "OpenAI API key probe failed: "@ + body@,
        },
{
    if status < 200 || status >= 300 {
        return Err(join2("OpenAI API key probe failed: ", body));
    }
    let account = JsonObject::new().with("type", Json::text("openai")).with(
        "planType",
        Json::text("API"),
    ).done();
    let credits = JsonObject::new().with("unlimited", Json::Bool(true)).with(
        "balance",
        Json::Null,
    ).done();
    Ok(
        QuotaSnapshot {
            account: JsonObject::new().with("ok", Json::Bool(true)).with("account", account).with(
                "requiresOpenaiAuth",
                Json::Bool(false),
            ).done(),
            rate_limits: rate_limits_json("openai_usage", "OpenAI API", credits, "api"),
            auth: None,
        },
    )
}

/// The token that a probe of a subscription carries. `has_credential` says whether the login holds
/// any credential at all.
pub fn subscription_token(auth: &Json, has_credential: bool) -> (r: Result<String, String>)
    ensures
        match (r, filled_member(auth@, "access"@)) {
            (Ok(token), Some(access)) => token@ == access,
            (Err(error), None) => error@ == if has_credential {
                "Missing OpenAI access token"@
            } else {
                "Missing OpenAI subscription credentials"@
            },
            _ => false,
        },
{
    match filled_at(auth, "access") {
        Some(token) => Ok(token),
        None => Err(
            (if has_credential {
                "Missing OpenAI access token"
            } else {
                "Missing OpenAI subscription credentials"
            }).to_owned(),
        ),
    }
}

/// The account that a probe of a subscription names, if the login has one.
pub fn subscription_account(auth: &Json) -> (r: Option<String>)
    ensures
        optional_text(r) == filled_member(auth@, "accountId"@),
{
    filled_at(auth, "accountId")
}

/// The address of the account in an answer, if the answer is one.
pub open spec fn email_of(status: u16, payload: Option<JsonModel>) -> Option<Seq<char>> {
    match payload {
        Some(payload) => if is_success(status) {
            payload.text_at("email"@)
        } else {
            None
        },
        None => None,
    }
}

/// Whether a snapshot is that of a subscription with this address.
pub open spec fn is_subscription_of(snapshot: QuotaSnapshot, email: Option<Seq<char>>) -> bool {
    &&& snapshot.account@ == account_model(
        JsonModel::Object(
            no_fields().push(("email"@, text_or_null_model(email))).push(
                ("type"@, JsonModel::Text("openai"@)),
            ).push(("planType"@, JsonModel::Text("ChatGPT"@))),
        ),
        true,
    )
    &&& snapshot.rate_limits@ == rate_limits_model(
        "openai_subscription"@,
        "ChatGPT"@,
        JsonModel::Null,
        "subscription"@,
    )
    &&& snapshot.auth is None
}

/// Reads the answer to a probe of a subscription from its content.
pub fn subscription_answer(status: u16, content: &Vec<u8>) -> (r: QuotaSnapshot)
    ensures
        is_subscription_of(r, email_of(status, json_in_bytes(content@))),
{
    match parse_bytes(content) {
        Some(payload) => probe_subscription(status, Some(&payload)),
        None => probe_subscription(status, None),
    }
}

/// Reads the answer to a probe of a subscription, which counts as one whatever it says.
pub fn probe_subscription(status: u16, payload: Option<&Json>) -> (r: QuotaSnapshot)
    ensures
        is_subscription_of(r, email_of(status, optional_ref(payload))),
{
    let email: Option<String> = match payload {
        Some(payload) => if 200 <= status && status < 300 {
            match payload.str_at("email") {
                Some(email) => Some(email.to_owned()),
                None => None,
            }
        } else {
            None
        },
        None => None,
    };
    let account = JsonObject::new().with("email", Json::text_or_null(&email)).with(
        "type",
        Json::text("openai"),
    ).with("planType", Json::text("ChatGPT")).done();
    QuotaSnapshot {
        account: JsonObject::new().with("ok", Json::Bool(true)).with("account", account).with(
            "requiresOpenaiAuth",
            Json::Bool(true),
        ).done(),
        rate_limits: rate_limits_json(
            "openai_subscription",
            "ChatGPT",
            Json::Null,
            "subscription",
        ),
        auth: None,
    }
}

/// The billing of a profile that is probed.
pub fn probed_billing(document: &Json) -> (r: String)
    ensures
        r@ == match document@.text_at("billing"@) {
            Some(billing) => billing,
            None => "usage"@,
        },
{
    match document.str_at("billing") {
        Some(billing) => billing.to_owned(),
        None => "usage".to_owned(),
    }
}

/// Requests of a profile whose login names an account carry that account, whatever headers the
/// profile and its template name.
pub proof fn requests_name_their_account(
    provider: OpenAi,
    document: JsonModel,
    template: TemplateModel,
    account_id: Seq<char>,
)
    requires
        document.get2("auth"@, "accountId"@) == Some(JsonModel::Text(account_id)),
        document.get("headers"@) is Some ==> document.get("headers"@)->0 is Object,
    ensures
        profile_headers(provider.decorated(document), template).contains_key(
            "ChatGPT-Account-Id"@,
        ),
        profile_headers(provider.decorated(document), template)["ChatGPT-Account-Id"@]
            == account_id,
{
    let fields = document->Object_0;
    let own = match document.get("headers"@) {
        Some(headers) => headers,
        None => JsonModel::Object(no_fields()),
    };
    let named = with_value(own, "ChatGPT-Account-Id"@, JsonModel::Text(account_id));
    setting_a_member_keeps_the_others(
        own->Object_0,
        "ChatGPT-Account-Id"@,
        JsonModel::Text(account_id),
        "ChatGPT-Account-Id"@,
    );
    setting_a_member_keeps_the_others(fields, "headers"@, named, "headers"@);
    own_headers_win(provider.decorated(document), template, "ChatGPT-Account-Id"@);
}

/// A login that was renewed is used for five minutes less than it lasts, and then renewed.
pub proof fn new_logins_are_not_renewed(
    payload: JsonModel,
    previous: Option<JsonModel>,
    account: Option<Seq<char>>,
    start_ms: int,
    now_ms: int,
)
    requires
        login(payload, previous, account, start_ms) is Ok,
        1_000_000_000_000 < start_ms + lifetime(payload) * 1000 <= i64::MAX,
        now_ms + REFRESH_LEEWAY_MS < start_ms + lifetime(payload) * 1000,
    ensures
        !refresh_due(login(payload, previous, account, start_ms)->Ok_0, now_ms),
{
    let auth = login(payload, previous, account, start_ms)->Ok_0;
    reveal_strlit("type");
    reveal_strlit("access");
    reveal_strlit("refresh");
    reveal_strlit("expires");
    assert("type"@.len() != "expires"@.len());
    assert("access"@.len() != "expires"@.len());
    assert("refresh"@[0] != "expires"@[0]);
    reveal_with_fuel(member, 5);
    assert(auth.get("expires"@) == Some(
        signed_model((start_ms + lifetime(payload) * 1000) as i64),
    ));
}

/// OpenAI is paid by usage or by a subscription and by nothing else; only the subscription is logged
/// in to by a device. The address, the headers and the model that a profile starts with are those of
/// its billing.
pub proof fn profiles_start_by_their_billing(provider: OpenAi, billing: Seq<char>, auth: JsonModel)
    ensures
        provider.listed().id == "openai"@ && provider.listed().label == "OpenAI"@,
        provider.listed().billing.len() == 2,
        ({
            let (usage, _) = provider.listed().billing[0];
            let (subscription, _) = provider.listed().billing[1];
            usage == "usage"@ && subscription == "subscription"@
        }),
        provider.offered(billing) is Ok <==> billing == "usage"@ || billing == "subscription"@,
        provider.offered(billing) matches Err(error) ==> error == "openai does not support billing "@
            + billing,
        provider.offered(billing) matches Ok(template) ==> {
            &&& template.provider == "openai"@
            &&& template.billing == billing
            &&& billing == "usage"@ ==> template.base_url == "https://api.openai.com/v1"@
                && template.headers == JsonModel::Object(Seq::empty()) && template.models
                == JsonModel::Array(seq![usage_model()])
            &&& billing == "subscription"@ ==> template.base_url
                == "https://chatgpt.com/backend-api/codex"@ && template.headers.get("originator"@)
                == Some(JsonModel::Text("zork"@)) && template.models == JsonModel::Array(
                seq![subscription_model()],
            )
        },
        provider.has_device_code(billing) <==> billing == "subscription"@,
        provider.carried(auth) == first_filled(
            auth,
            "access"@,
            "key"@,
            "Missing OpenAI credential"@,
        ),
{
    reveal_strlit("usage");
    reveal_strlit("subscription");
    assert("usage"@.len() != "subscription"@.len());
    assert(no_items().push(usage_model()) =~= seq![usage_model()]);
    assert(no_items().push(subscription_model()) =~= seq![subscription_model()]);
    let fields = no_fields().push(("originator"@, JsonModel::Text("zork"@)));
    assert(fields[0].0 == "originator"@);
    named_members_are_found(fields);
}

/// Whether a JSON value describes a model by its name, the interface that it speaks, how it thinks
/// and how much it takes.
pub open spec fn describes_model(
    model: JsonModel,
    id: Seq<char>,
    api: Seq<char>,
    thinking: Seq<JsonModel>,
    default_thinking: Seq<char>,
    window: u64,
    output: u64,
) -> bool {
    &&& model.get("id"@) == Some(JsonModel::Text(id))
    &&& model.get("api"@) == Some(JsonModel::Text(api))
    &&& model.get("streaming"@) == Some(JsonModel::Bool(true))
    &&& model.get("thinking"@) == Some(JsonModel::Array(thinking))
    &&& model.get("default_thinking"@) == Some(JsonModel::Text(default_thinking))
    &&& model.get("default"@) == Some(JsonModel::Bool(true))
    &&& model.get2("limits"@, "context_window_tokens"@) == Some(JsonModel::Unsigned(window))
    &&& model.get2("limits"@, "max_output_tokens"@) == Some(JsonModel::Unsigned(output))
    &&& model.get2("capabilities"@, "input"@) == Some(
        JsonModel::Array(seq![JsonModel::Text("text"@), JsonModel::Text("image"@)]),
    )
}

/// The model that is paid by usage does not think; that of a subscription thinks at five levels, of
/// which the second is its default. Both are the defaults of their profiles.
pub proof fn models_are_described()
    ensures
        describes_model(
            usage_model(),
            "gpt-4.1"@,
            "openai-completions"@,
            seq![JsonModel::Text("off"@)],
            "off"@,
            1_047_576,
            32_768,
        ),
        describes_model(
            subscription_model(),
            "gpt-5.6-luna"@,
            "openai-codex-responses"@,
            seq![
                JsonModel::Text("low"@),
                JsonModel::Text("medium"@),
                JsonModel::Text("high"@),
                JsonModel::Text("xhigh"@),
                JsonModel::Text("max"@),
            ],
            "medium"@,
            872_000,
            128_000,
        ),
{
    reveal_strlit("id");
    reveal_strlit("api");
    reveal_strlit("streaming");
    reveal_strlit("thinking");
    reveal_strlit("default_thinking");
    reveal_strlit("capabilities");
    reveal_strlit("limits");
    reveal_strlit("default");
    reveal_strlit("context_window_tokens");
    reveal_strlit("max_output_tokens");
    assert("id"@.len() == 2 && "api"@.len() == 3 && "streaming"@.len() == 9 && "thinking"@.len()
        == 8 && "default_thinking"@.len() == 16 && "capabilities"@.len() == 12 && "limits"@.len()
        == 6 && "default"@.len() == 7 && "context_window_tokens"@.len() == 21
        && "max_output_tokens"@.len() == 17);
    let usage = usage_model()->Object_0;
    assert(usage[0].0 == "id"@ && usage[1].0 == "api"@ && usage[2].0 == "streaming"@ && usage[3].0
        == "thinking"@ && usage[4].0 == "default_thinking"@ && usage[5].0 == "capabilities"@
        && usage[6].0 == "limits"@ && usage[7].0 == "default"@);
    named_members_are_found(usage);
    let subscription = subscription_model()->Object_0;
    assert(subscription[0].0 == "id"@ && subscription[1].0 == "api"@ && subscription[2].0
        == "streaming"@ && subscription[3].0 == "thinking"@ && subscription[4].0
        == "default_thinking"@ && subscription[5].0 == "capabilities"@ && subscription[6].0
        == "limits"@ && subscription[7].0 == "default"@);
    named_members_are_found(subscription);
    let one = limits_model(1_047_576, 32_768)->Object_0;
    assert(one[0].0 == "context_window_tokens"@ && one[1].0 == "max_output_tokens"@);
    named_members_are_found(one);
    let two = limits_model(872_000, 128_000)->Object_0;
    assert(two[0].0 == "context_window_tokens"@ && two[1].0 == "max_output_tokens"@);
    named_members_are_found(two);
    let able = capabilities_model()->Object_0;
    assert(able[0].0 == "input"@);
    named_members_are_found(able);
    assert(able[0].1->Array_0 =~= seq![JsonModel::Text("text"@), JsonModel::Text("image"@)]);
    assert(usage[3].1->Array_0 =~= seq![JsonModel::Text("off"@)]);
    assert(subscription_thinking()->Array_0 =~= seq![
        JsonModel::Text("low"@),
        JsonModel::Text("medium"@),
        JsonModel::Text("high"@),
        JsonModel::Text("xhigh"@),
        JsonModel::Text("max"@),
    ]);
}

/// A profile whose login names no account stays as it is; in one that names an account nothing but
/// the headers changes, and of the headers nothing but the account.
pub proof fn decorating_changes_only_the_account(
    provider: OpenAi,
    document: JsonModel,
    headers: JsonModel,
    account_id: Seq<char>,
    other: Seq<char>,
)
    ensures
        !(document.get2("auth"@, "accountId"@) matches Some(JsonModel::Text(_)))
            ==> provider.decorated(document) == document,
        document is Object && other != "headers"@ ==> provider.decorated(document).get(other)
            == document.get(other),
        document.get2("auth"@, "accountId"@) == Some(JsonModel::Text(account_id)) && document.get(
            "headers"@,
        ) == Some(headers) && headers is Object && other != "ChatGPT-Account-Id"@
            ==> provider.decorated(document).get2("headers"@, other) == headers.get(other),
{
    if document is Object {
        let fields = document->Object_0;
        match document.get2("auth"@, "accountId"@) {
            Some(JsonModel::Text(id)) => {
                let named = match document.get("headers"@) {
                    Some(headers) => with_value(
                        headers,
                        "ChatGPT-Account-Id"@,
                        JsonModel::Text(id),
                    ),
                    None => with_value(
                        JsonModel::Object(no_fields()),
                        "ChatGPT-Account-Id"@,
                        JsonModel::Text(id),
                    ),
                };
                setting_a_member_keeps_the_others(fields, "headers"@, named, other);
                setting_a_member_keeps_the_others(fields, "headers"@, named, "headers"@);
                if let Some(JsonModel::Object(old)) = document.get("headers"@) {
                    setting_a_member_keeps_the_others(
                        old,
                        "ChatGPT-Account-Id"@,
                        JsonModel::Text(id),
                        other,
                    );
                }
            },
            _ => {},
        }
    }
}

/// A credential ends when it says, in milliseconds, or in seconds where the number is too small for
/// that. It is renewed if it can be and if it ends within five minutes.
pub proof fn logins_are_renewed_in_time(auth: JsonModel, expires: u64, now_ms: int)
    requires
        auth.get("expires"@) == Some(JsonModel::Unsigned(expires)),
        expires <= i64::MAX,
    ensures
        expires > 1_000_000_000_000 ==> expiry(auth) == Some(expires as int),
        expires <= 1_000_000_000_000 ==> expiry(auth) == Some(expires * 1000),
        auth.get("refresh"@) matches Some(JsonModel::Text(refresh)) && !is_blank(refresh)
            && expires > 1_000_000_000_000 ==> (refresh_due(auth, now_ms) <==> expires - now_ms
            <= 300_000),
        auth.get("refresh"@) is None ==> !refresh_due(auth, now_ms),
{
}

/// A login holds the access token of the answer, its refresh token or else the earlier one, when it
/// ends, counted from now and an hour where the answer does not say, and the account that the token
/// names or else the earlier one. Without the two tokens there is no login.
pub proof fn logins_hold_what_was_answered(
    payload: JsonModel,
    previous: Option<JsonModel>,
    account: Option<Seq<char>>,
    now_ms: int,
)
    requires
        i64::MIN <= now_ms + lifetime(payload) * 1000 <= i64::MAX,
    ensures
        lifetime(payload) == match payload.get("expires_in"@) {
            Some(value) if value.as_signed() is Some => value.as_signed()->0,
            _ => 3600,
        },
        login(payload, previous, account, now_ms) is Ok <==> {
            &&& payload.get("access_token"@) matches Some(JsonModel::Text(_))
            &&& (payload.get("refresh_token"@) matches Some(JsonModel::Text(_))) || (
            previous matches Some(auth) && !lacks(auth, "refresh"@) && auth.get(
                "refresh"@,
            ) is Some && auth.get("refresh"@)->0 is Text)
        },
        login(payload, previous, account, now_ms) matches Ok(auth) ==> {
            &&& auth.get("type"@) == Some(JsonModel::Text("oauth"@))
            &&& auth.get("access"@) == payload.get("access_token"@)
            &&& payload.get("refresh_token"@) matches Some(JsonModel::Text(refresh)) ==> auth.get(
                "refresh"@,
            ) == Some(JsonModel::Text(refresh))
            &&& !(payload.get("refresh_token"@) matches Some(JsonModel::Text(_))) ==> auth.get(
                "refresh"@,
            ) == Some(JsonModel::Text(trimmed(previous->0.get("refresh"@)->0->Text_0)))
            &&& auth.get("expires"@) matches Some(end) && end.as_signed() == Some(
                (now_ms + lifetime(payload) * 1000) as i64,
            )
            &&& account is Some ==> auth.get("accountId"@) == Some(JsonModel::Text(account->0))
            &&& account is None && previous is None ==> auth.get("accountId"@) is None
            &&& account is None && previous is Some && !lacks(previous->0, "accountId"@)
                && previous->0.get("accountId"@) is Some && previous->0.get("accountId"@)->0 is Text
                ==> auth.get("accountId"@) == Some(
                JsonModel::Text(trimmed(previous->0.get("accountId"@)->0->Text_0)),
            )
        },
{
    reveal_strlit("type");
    reveal_strlit("access");
    reveal_strlit("refresh");
    reveal_strlit("expires");
    reveal_strlit("accountId");
    assert("type"@.len() == 4 && "access"@.len() == 6 && "refresh"@.len() == 7 && "expires"@.len()
        == 7 && "accountId"@.len() == 9);
    assert("refresh"@[0] != "expires"@[0]);
    if let Ok(auth) = login(payload, previous, account, now_ms) {
        let fields = auth->Object_0;
        assert(fields[0].0 == "type"@ && fields[1].0 == "access"@ && fields[2].0 == "refresh"@
            && fields[3].0 == "expires"@);
        assert(fields.len() == 5 ==> fields[4].0 == "accountId"@);
        named_members_are_found(fields);
    }
}

/// An answer that is not good gives no login but says what was answered.
pub proof fn refused_tokens_are_told(
    status: u16,
    body: Seq<char>,
    payload: JsonModel,
    previous: Option<JsonModel>,
    now_ms: int,
)
    ensures
        !(200 <= status < 300) ==> token_result(status, body, Some(payload), previous, now_ms)
            == Err::<JsonModel, Seq<char>>("OpenAI token request failed: "@ + body),
        200 <= status < 300 ==> token_result(status, body, None, previous, now_ms) == Err::<
            JsonModel,
            Seq<char>,
        >("openai token json"@),
        200 <= status < 300 ==> token_result(status, body, Some(payload), previous, now_ms) == login(
            payload,
            previous,
            match payload.get("access_token"@) {
                Some(JsonModel::Text(access)) => account_of_token(access),
                _ => None,
            },
            now_ms,
        ),
{
}

/// The account of a token is the text that its claims give under OpenAI's own name.
pub proof fn accounts_are_claimed(claims: JsonModel, own: JsonModel, id: Seq<char>)
    requires
        claims.get("https://api.openai.com/auth"@) == Some(own),
    ensures
        own.get("chatgpt_account_id"@) == Some(JsonModel::Text(id)) ==> claimed_account(claims)
            == Some(id),
        own.get("chatgpt_account_id"@) is None ==> claimed_account(claims) is None,
{
}

/// A login by a device starts with the two codes of a good answer. It is asked for as often as the
/// answer says, every five seconds where it does not say, and never without a pause.
pub proof fn device_logins_start_with_codes(status: u16, body: Seq<char>, payload: JsonModel)
    ensures
        start_error(status, body, Some(payload)) is None <==> {
            &&& 200 <= status < 300
            &&& payload.get("device_auth_id"@) matches Some(JsonModel::Text(_))
            &&& (payload.get("user_code"@) matches Some(JsonModel::Text(_))) || (payload.get(
                "usercode"@,
            ) matches Some(JsonModel::Text(_)))
        },
        status == 404 ==> start_error(status, body, Some(payload)) == Some(
            "OpenAI Codex device code login is not enabled. Enable it in ChatGPT settings."@,
        ),
        !(200 <= status < 300) && status != 404 ==> start_error(status, body, Some(payload))
            == Some("OpenAI device code failed: "@ + body),
        payload.get("user_code"@) matches Some(JsonModel::Text(code)) ==> user_code_of(payload)
            == Some(code),
        payload.get("interval"@) matches Some(JsonModel::Unsigned(seconds)) ==> interval_of(payload)
            == if seconds == 0 {
            1
        } else {
            seconds
        },
        payload.get("interval"@) is None ==> interval_of(payload) == 5,
        payload.get("interval"@) matches Some(JsonModel::Text(text)) ==> match u64_of(
            trimmed(text),
        ) {
            Some(seconds) => seconds > 0 ==> interval_of(payload) == seconds,
            None => interval_of(payload) == 5,
        },
        interval_of(payload) >= 1,
{
}

/// A code that was not entered yet is asked for again after the same pause; an answer that asks to
/// slow down makes the pause five seconds longer, and ten at least. A good answer authorizes with
/// both of its parts. Any other answer ends the login.
pub proof fn device_logins_wait_for_the_code(status: u16, payload: JsonModel, interval: int)
    requires
        interval >= 0,
    ensures
        ({
            let step = poll_step(status, Some(payload), interval);
            let good = 200 <= status < 300;
            let refused = !good && status != 403 && status != 404;
            let code = match payload.get("error"@) {
                Some(JsonModel::Text(code)) => Some(code),
                Some(error) => match error.get("code"@) {
                    Some(JsonModel::Text(code)) => Some(code),
                    _ => None,
                },
                None => None,
            };
            &&& status == 403 || status == 404 ==> step == PollModel::Pending(interval)
            &&& refused && code == Some("deviceauth_authorization_pending"@) ==> step
                == PollModel::Pending(interval)
            &&& refused && code == Some("slow_down"@) ==> step == PollModel::Pending(
                if interval + 5 < 10 {
                    10
                } else {
                    interval + 5
                },
            )
            &&& refused && code is None ==> step == PollModel::Failed(
                "OpenAI device poll failed: unknown"@,
            )
            &&& refused && code is Some && code->0 != "deviceauth_authorization_pending"@ && code->0
                != "slow_down"@ ==> step == PollModel::Failed(
                "OpenAI device poll failed: "@ + code->0,
            )
            &&& good ==> match (payload.get("authorization_code"@), payload.get("code_verifier"@)) {
                (Some(JsonModel::Text(code)), Some(JsonModel::Text(verifier))) => step
                    == PollModel::Authorized(code, verifier),
                _ => step is Failed,
            }
        }),
        200 <= status < 300 ==> poll_step(status, None, interval) is Failed,
{
    reveal_strlit("deviceauth_authorization_pending");
    reveal_strlit("slow_down");
    assert("deviceauth_authorization_pending"@.len() != "slow_down"@.len());
    reveal_strlit("OpenAI device poll failed: ");
    reveal_strlit("unknown");
    reveal_strlit("OpenAI device poll failed: unknown");
    assert("OpenAI device poll failed: "@ + "unknown"@ =~= "OpenAI device poll failed: unknown"@);
}

/// What is known of an account says that it is good and what it is; of its limits it names them, the
/// credits and the plan, and no windows.
pub proof fn accounts_tell_what_they_are(
    account: JsonModel,
    requires_login: bool,
    id: Seq<char>,
    name: Seq<char>,
    credits: JsonModel,
    plan: Seq<char>,
)
    ensures
        account_model(account, requires_login).get("ok"@) == Some(JsonModel::Bool(true)),
        account_model(account, requires_login).get("account"@) == Some(account),
        account_model(account, requires_login).get("requiresOpenaiAuth"@) == Some(
            JsonModel::Bool(requires_login),
        ),
        ({
            let limits = rate_limits_model(id, name, credits, plan);
            &&& limits.get("ok"@) == Some(JsonModel::Bool(true))
            &&& limits.get2("rateLimits"@, "limitId"@) == Some(JsonModel::Text(id))
            &&& limits.get2("rateLimits"@, "limitName"@) == Some(JsonModel::Text(name))
            &&& limits.get2("rateLimits"@, "credits"@) == Some(credits)
            &&& limits.get2("rateLimits"@, "planType"@) == Some(JsonModel::Text(plan))
            &&& limits.get2("rateLimits"@, "primary"@) == Some(JsonModel::Null)
            &&& limits.get2("rateLimits"@, "secondary"@) == Some(JsonModel::Null)
        }),
{
    reveal_strlit("ok");
    reveal_strlit("account");
    reveal_strlit("requiresOpenaiAuth");
    reveal_strlit("rateLimits");
    reveal_strlit("rateLimitsByLimitId");
    reveal_strlit("limitId");
    reveal_strlit("limitName");
    reveal_strlit("primary");
    reveal_strlit("secondary");
    reveal_strlit("credits");
    reveal_strlit("planType");
    assert("ok"@.len() == 2 && "account"@.len() == 7 && "requiresOpenaiAuth"@.len() == 18
        && "rateLimits"@.len() == 10 && "rateLimitsByLimitId"@.len() == 19 && "limitId"@.len() == 7
        && "limitName"@.len() == 9 && "primary"@.len() == 7 && "secondary"@.len() == 9
        && "credits"@.len() == 7 && "planType"@.len() == 8);
    assert("limitId"@[0] == 'l' && "primary"@[0] == 'p' && "credits"@[0] == 'c' && "limitName"@[0]
        == 'l' && "secondary"@[0] == 's');
    let fields = account_model(account, requires_login)->Object_0;
    assert(fields[0].0 == "ok"@ && fields[1].0 == "account"@ && fields[2].0
        == "requiresOpenaiAuth"@);
    named_members_are_found(fields);
    let limits = rate_limits_model(id, name, credits, plan)->Object_0;
    assert(limits[0].0 == "ok"@ && limits[1].0 == "rateLimits"@ && limits[2].0
        == "rateLimitsByLimitId"@);
    named_members_are_found(limits);
    let inner = limits[1].1->Object_0;
    assert(inner[0].0 == "limitId"@ && inner[1].0 == "limitName"@ && inner[2].0 == "primary"@
        && inner[3].0 == "secondary"@ && inner[4].0 == "credits"@ && inner[5].0 == "planType"@);
    named_members_are_found(inner);
}

/// The address of an account is that of a good answer, and none where the answer is not good.
pub proof fn addresses_come_from_good_answers(status: u16, payload: JsonModel)
    ensures
        email_of(status, Some(payload)) == match payload.get("email"@) {
            Some(JsonModel::Text(email)) if 200 <= status < 300 => Some(email),
            _ => None,
        },
        email_of(status, None) is None,
{
}

proof fn lemma_split_at(head: Seq<char>, tail: Seq<char>, mark: char)
    requires
        forall|i: int| 0 <= i < head.len() ==> #[trigger] head[i] != mark,
    ensures
        split(head.push(mark) + tail, mark) == seq![head] + split(tail, mark),
        split(head, mark) == seq![head],
    decreases tail.len(),
{
    lemma_split_none(head, mark);
    let whole = head.push(mark) + tail;
    if tail.len() == 0 {
        assert(whole =~= head.push(mark));
        assert(whole.drop_last() =~= head);
        assert(split(whole, mark) =~= seq![head] + split(tail, mark));
    } else {
        lemma_split_at(head, tail.drop_last(), mark);
        assert(whole.drop_last() =~= head.push(mark) + tail.drop_last());
        let parts = split(tail.drop_last(), mark);
        assert(parts.len() > 0) by {
            splitting_cuts_at_the_marks(tail.drop_last(), mark);
        }
        assert((seq![head] + parts).drop_last() =~= seq![head] + parts.drop_last());
        assert(split(whole, mark) =~= seq![head] + split(tail, mark));
    }
}

proof fn lemma_split_none(s: Seq<char>, mark: char)
    requires
        forall|i: int| 0 <= i < s.len() ==> #[trigger] s[i] != mark,
    ensures
        split(s, mark) == seq![s],
    decreases s.len(),
{
    if s.len() == 0 {
        assert(s =~= Seq::empty());
    } else {
        let rest = s.drop_last();
        assert forall|i: int| 0 <= i < rest.len() implies #[trigger] rest[i] != mark by {
            assert(rest[i] == s[i]);
        }
        lemma_split_none(rest, mark);
        assert(s.last() == s[s.len() - 1]);
        assert(rest.push(s.last()) =~= s);
        let parts = seq![rest];
        assert(parts.drop_last() =~= Seq::<Seq<char>>::empty());
        assert(parts.last() == rest);
        assert(Seq::<Seq<char>>::empty().push(s) =~= seq![s]);
    }
}

/// Replacing a character by another one changes each place for itself.
proof fn lemma_replaced_char(s: Seq<char>, from: char, into: char)
    ensures
        replaced(s, from, seq![into]) == s.map_values(
            |c: char|
                if c == from {
                    into
                } else {
                    c
                },
        ),
    decreases s.len(),
{
    if s.len() > 0 {
        lemma_replaced_char(s.drop_last(), from, into);
        assert(s =~= s.drop_last().push(s.last()));
    }
    assert(replaced(s, from, seq![into]) =~= s.map_values(
        |c: char|
            if c == from {
                into
            } else {
                c
            },
    ));
}

/// The form of base 64 that tokens use: a minus and a low line in place of the plus and the slash,
/// and no padding.
pub open spec fn token_form(text: Seq<u8>) -> Seq<char> {
    text.filter(|byte: u8| byte != 61).map_values(
        |byte: u8|
            if byte == 43 {
                '-'
            } else if byte == 47 {
                '_'
            } else {
                byte as char
            },
    )
}

/// A text in base 64 is letters and then as much padding as makes its length a multiple of four.
proof fn lemma_encoded_letters(bytes: Seq<u8>) -> (count: nat)
    ensures
        count <= encoded(bytes).len(),
        encoded(bytes).len() == count + (4 - count % 4) % 4,
        forall|i: int| 0 <= i < count ==> sextet(#[trigger] encoded(bytes)[i]) is Some,
        forall|i: int| count <= i < encoded(bytes).len() ==> #[trigger] encoded(bytes)[i] == 61,
    decreases bytes.len(),
{
    let text = encoded(bytes);
    if bytes.len() == 0 {
        0
    } else if bytes.len() < 3 {
        let a = bytes[0];
        lemma_is_letter((a / 4) as int);
        lemma_is_letter((a % 4) * 16);
        if bytes.len() == 1 {
            2
        } else {
            lemma_is_letter((a % 4) * 16 + bytes[1] / 16);
            lemma_is_letter((bytes[1] % 16) * 4);
            3
        }
    } else {
        let rest = bytes.skip(3);
        let count = lemma_encoded_letters(rest);
        lemma_is_letter((bytes[0] / 4) as int);
        lemma_is_letter((bytes[0] % 4) * 16 + bytes[1] / 16);
        lemma_is_letter((bytes[1] % 16) * 4 + bytes[2] / 64);
        lemma_is_letter((bytes[2] % 64) as int);
        assert forall|i: int| 0 <= i < count + 4 implies sextet(#[trigger] text[i]) is Some by {
            if i >= 4 {
                assert(text[i] == encoded(rest)[i - 4]);
            }
        }
        assert forall|i: int| count + 4 <= i < text.len() implies #[trigger] text[i] == 61 by {
            assert(text[i] == encoded(rest)[i - 4]);
        }
        count + 4
    }
}

proof fn lemma_is_letter(bits: int)
    requires
        0 <= bits < 64,
    ensures
        sextet(letter(bits)) is Some,
        letter(bits) != 61,
{
}

proof fn lemma_filter_padding(text: Seq<u8>, count: nat)
    requires
        count <= text.len(),
        forall|i: int| 0 <= i < count ==> #[trigger] text[i] != 61,
        forall|i: int| count <= i < text.len() ==> #[trigger] text[i] == 61,
    ensures
        text.filter(|byte: u8| byte != 61) == text.take(count as int),
    decreases text.len(),
{
    reveal(Seq::filter);
    let kept = |byte: u8| byte != 61;
    if text.len() > 0 {
        let rest = text.drop_last();
        assert(text.last() == text[text.len() - 1]);
        assert forall|i: int| 0 <= i < rest.len() implies #[trigger] rest[i] == text[i] by {}
        if count == text.len() {
            lemma_filter_padding(rest, (count - 1) as nat);
            assert(rest.take(count - 1).push(text.last()) =~= text.take(count as int));
        } else {
            lemma_filter_padding(rest, count);
            assert(rest.take(count as int) =~= text.take(count as int));
        }
    } else {
        assert(text.take(0) =~= Seq::empty());
        assert(text.filter(kept) =~= Seq::empty());
    }
}

/// The claims in a token are read back: its second part gives the bytes that were written into it,
/// whatever its other parts are.
pub proof fn claims_are_read_back(head: Seq<char>, bytes: Seq<u8>, rest: Seq<char>)
    requires
        forall|i: int| 0 <= i < head.len() ==> #[trigger] head[i] != '.',
        rest.len() == 0 || rest[0] == '.',
    ensures
        claim_bytes(head + seq!['.'] + token_form(encoded(bytes)) + rest) == Some(bytes),
        claim_bytes(head) is None,
{
    let text = encoded(bytes);
    let count = lemma_encoded_letters(bytes);
    assert forall|i: int| 0 <= i < count implies #[trigger] text[i] != 61 by {
        assert(sextet(text[i]) is Some);
    }
    lemma_filter_padding(text, count);
    let core = text.take(count as int);
    let body = token_form(text);
    assert(body.len() == count);
    assert forall|i: int| 0 <= i < count implies #[trigger] body[i] == (if text[i] == 43 {
        '-'
    } else if text[i] == 47 {
        '_'
    } else {
        text[i] as char
    }) by {
        assert(core[i] == text[i]);
    }
    assert forall|i: int| 0 <= i < body.len() implies #[trigger] body[i] != '.' by {
        assert(sextet(text[i]) is Some);
    }
    let token = head + seq!['.'] + body + rest;
    assert(token =~= head.push('.') + (body + rest));
    lemma_split_at(head, body + rest, '.');
    if rest.len() == 0 {
        assert(body + rest =~= body);
        lemma_split_none(body, '.');
    } else {
        assert(body + rest =~= body.push('.') + rest.drop_first());
        lemma_split_at(body, rest.drop_first(), '.');
    }
    assert(split(token, '.')[1] == body);
    lemma_replaced_char(body, '-', '+');
    let once = replaced(body, '-', seq!['+']);
    lemma_replaced_char(once, '_', '/');
    let plain = replaced(once, '_', seq!['/']);
    reveal_strlit("+");
    reveal_strlit("/");
    assert("+"@ =~= seq!['+']);
    assert("/"@ =~= seq!['/']);
    assert forall|i: int| 0 <= i < count implies #[trigger] plain[i] == text[i] as char by {
        assert(sextet(text[i]) is Some);
        assert(once[i] == if body[i] == '-' {
            '+'
        } else {
            body[i]
        });
    }
    let full = padded(plain);
    assert(is_ascii_chars(plain)) by {
        assert forall|i: int| 0 <= i < plain.len() implies (0 <= (#[trigger] plain[i] as nat)
            < 128) by {
            assert(plain[i] == text[i] as char);
            assert(sextet(text[i]) is Some);
        }
    }
    is_ascii_chars_encode_utf8(plain);
    assert(byte_len(plain) == count);
    assert(full.len() == text.len());
    assert(is_ascii_chars(full)) by {
        assert forall|i: int| 0 <= i < full.len() implies (0 <= (#[trigger] full[i] as nat)
            < 128) by {
            if i < count {
                assert(full[i] == plain[i]);
                assert(plain[i] == text[i] as char);
                assert(sextet(text[i]) is Some);
            }
        }
    }
    is_ascii_chars_encode_utf8(full);
    assert(encode_utf8(full) =~= text) by {
        assert forall|i: int| 0 <= i < text.len() implies #[trigger] encode_utf8(full)[i]
            == text[i] by {
            assert(full[i] as u8 == encode_utf8(full)[i]);
            if i < count {
                assert(full[i] == plain[i]);
                assert(plain[i] == text[i] as char);
                assert(sextet(text[i]) is Some);
            } else {
                assert(full[i] == '=');
            }
        }
    }
    decoding_undoes_encoding(bytes);
    lemma_split_none(head, '.');
}

/// A code for a device is the one that was answered; it is entered at OpenAI's own address, within
/// fifteen minutes, for a login to the subscription.
pub proof fn device_codes_are_those_answered(code: DeviceCode, payload: JsonModel, now_ms: i64)
    requires
        is_device_code(code, payload, now_ms),
    ensures
        code.provider@ == "openai"@ && code.billing@ == "subscription"@,
        payload.get("device_auth_id"@) == Some(JsonModel::Text(code.device_code@)),
        payload.get("user_code"@) == Some(JsonModel::Text(code.user_code@)) || payload.get(
            "usercode"@,
        ) == Some(JsonModel::Text(code.user_code@)),
        code.verification_url@ == "https://auth.openai.com/codex/device"@,
        code.expires_at@ == rfc3339((now_ms + 15 * 60 * 1000) as i64),
        code.interval_seconds == interval_of(payload),
{
}

/// What is known of a subscription names the address of the account, or none, and that it is logged
/// in to; of its limits nothing is known but the plan.
pub proof fn subscriptions_tell_their_account(snapshot: QuotaSnapshot, email: Option<Seq<char>>)
    requires
        is_subscription_of(snapshot, email),
    ensures
        snapshot.account@.get2("account"@, "email"@) == Some(
            match email {
                Some(email) => JsonModel::Text(email),
                None => JsonModel::Null,
            },
        ),
        snapshot.account@.get2("account"@, "type"@) == Some(JsonModel::Text("openai"@)),
        snapshot.account@.get2("account"@, "planType"@) == Some(JsonModel::Text("ChatGPT"@)),
        snapshot.account@.get("requiresOpenaiAuth"@) == Some(JsonModel::Bool(true)),
        snapshot.rate_limits@.get2("rateLimits"@, "limitId"@) == Some(
            JsonModel::Text("openai_subscription"@),
        ),
        snapshot.rate_limits@.get2("rateLimits"@, "planType"@) == Some(
            JsonModel::Text("subscription"@),
        ),
        snapshot.rate_limits@.get2("rateLimits"@, "credits"@) == Some(JsonModel::Null),
        snapshot.auth is None,
{
    reveal_strlit("email");
    reveal_strlit("type");
    reveal_strlit("planType");
    assert("email"@.len() == 5 && "type"@.len() == 4 && "planType"@.len() == 8);
    let fields = no_fields().push(("email"@, text_or_null_model(email))).push(
        ("type"@, JsonModel::Text("openai"@)),
    ).push(("planType"@, JsonModel::Text("ChatGPT"@)));
    assert(fields[0].0 == "email"@ && fields[1].0 == "type"@ && fields[2].0 == "planType"@);
    named_members_are_found(fields);
    accounts_tell_what_they_are(
        JsonModel::Object(fields),
        true,
        "openai_subscription"@,
        "ChatGPT"@,
        JsonModel::Null,
        "subscription"@,
    );
}

/// A login is given where both tokens are, the refresh token from before if need be. Its end cannot
/// be told exactly where a good answer gives one that ends out of range; and a pause cannot be told
/// exactly where it would be longer than any.
pub proof fn times_out_of_range_are_not_told(
    status: u16,
    payload: JsonModel,
    previous: Option<JsonModel>,
    now_ms: i64,
    interval: int,
)
    ensures
        gives_login(payload, previous) <==> {
            &&& payload.get("access_token"@) matches Some(JsonModel::Text(_))
            &&& (payload.get("refresh_token"@) matches Some(JsonModel::Text(_))) || (
            previous matches Some(auth) && !lacks(auth, "refresh"@) && auth.get(
                "refresh"@,
            ) is Some && auth.get("refresh"@)->0 is Text)
        },
        ends_nowhere(status, Some(payload), previous, now_ms) <==> {
            &&& 200 <= status < 300
            &&& gives_login(payload, previous)
            &&& !(i64::MIN <= lifetime(payload) * 1000 <= i64::MAX && i64::MIN <= now_ms + lifetime(
                payload,
            ) * 1000 <= i64::MAX)
        },
        !ends_nowhere(status, None, previous, now_ms),
        200 <= status < 300 || status == 403 || status == 404 ==> pause_fits(
            status,
            Some(payload),
            interval,
        ),
        interval <= u64::MAX - 5 ==> pause_fits(status, Some(payload), interval),
        payload.get("error"@) is None ==> pause_fits(status, Some(payload), interval),
        !(200 <= status < 300) && status != 403 && status != 404 && payload.get("error"@) == Some(
            JsonModel::Text("slow_down"@),
        ) && interval > u64::MAX - 5 ==> !pause_fits(status, Some(payload), interval),
{
}

/// An answer that lacks something says what it lacks.
pub proof fn incomplete_answers_say_what_is_missing(
    payload: JsonModel,
    previous: Option<JsonModel>,
    account: Option<Seq<char>>,
    now_ms: int,
    body: Seq<char>,
    interval: int,
)
    ensures
        payload.get("access_token"@) is None ==> login(payload, previous, account, now_ms) == Err::<
            JsonModel,
            Seq<char>,
        >("missing access_token"@),
        payload.get("access_token"@) matches Some(JsonModel::Text(_)) ==> (payload.get(
            "refresh_token"@,
        ) is None && previous is None ==> login(payload, previous, account, now_ms) == Err::<
            JsonModel,
            Seq<char>,
        >("missing refresh_token"@)),
        start_error(200, body, None) == Some("device code json"@),
        payload.get("device_auth_id"@) is None ==> start_error(200, body, Some(payload)) == Some(
            "missing device_auth_id"@,
        ),
        payload.get("device_auth_id"@) matches Some(JsonModel::Text(_)) ==> (payload.get(
            "user_code"@,
        ) is None && payload.get("usercode"@) is None ==> start_error(200, body, Some(payload))
            == Some("missing user_code"@)),
        poll_step(200, None, interval) == PollModel::Failed("device poll json"@),
        payload.get("authorization_code"@) is None ==> poll_step(200, Some(payload), interval)
            == PollModel::Failed("missing authorization_code"@),
        payload.get("authorization_code"@) matches Some(JsonModel::Text(_)) ==> (payload.get(
            "code_verifier"@,
        ) is None ==> poll_step(200, Some(payload), interval) == PollModel::Failed(
            "missing code_verifier"@,
        )),
        OpenAi.listed().billing == seq![
            ("usage"@, "API 按量"@),
            ("subscription"@, "ChatGPT 订阅 (Codex)"@),
        ],
{
}

} // verus!
