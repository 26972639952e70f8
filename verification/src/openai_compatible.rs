//! A provider that speaks OpenAI's protocol at an address of one's own.
use vstd::prelude::*;

use crate::json::{
    named_members_are_found, no_fields, no_items, Json, JsonArray, JsonModel, JsonObject,
};
use crate::openai::{capabilities_json, capabilities_model};
use crate::providers::{
    credential, first_filled, AuthProvider, BillingKind, InfoModel, ProfileTemplate, ProviderInfo,
    QuotaSnapshot, TemplateModel,
};
use crate::text::{join2, same};

verus! {

pub struct OpenAiCompatible;

/// The model that a new profile starts with.
pub open spec fn example_model() -> JsonModel {
    JsonModel::Object(
        no_fields().push(("id"@, JsonModel::Text("model-id"@))).push(
            ("api"@, JsonModel::Text("openai-responses"@)),
        ).push(("streaming"@, JsonModel::Bool(true))).push(
            ("parallel_tool_calls"@, JsonModel::Bool(false)),
        ).push(("thinking"@, JsonModel::Array(no_items().push(JsonModel::Text("off"@))))).push(
            ("default_thinking"@, JsonModel::Text("off"@)),
        ).push(("capabilities"@, capabilities_model())).push(("default"@, JsonModel::Bool(true))),
    )
}

fn example_model_json() -> (r: Json)
    ensures
        r@ == example_model(),
{
    let thinking = JsonArray::new().with(Json::text("off")).done();
    JsonObject::new().with("id", Json::text("model-id")).with(
        "api",
        Json::text("openai-responses"),
    ).with("streaming", Json::Bool(true)).with("parallel_tool_calls", Json::Bool(false)).with(
        "thinking",
        thinking,
    ).with("default_thinking", Json::text("off")).with("capabilities", capabilities_json()).with(
        "default",
        Json::Bool(true),
    ).done()
}

impl AuthProvider for OpenAiCompatible {
    open spec fn listed(&self) -> InfoModel {
        InfoModel {
            id: "openai-compatible"@,
            label: "OpenAI Compatible"@,
            billing: Seq::empty().push(("usage"@, "Custom API"@)),
        }
    }

    open spec fn offered(&self, billing: Seq<char>) -> Result<TemplateModel, Seq<char>> {
        if billing == "usage"@ {
            Ok(
                TemplateModel {
                    provider: "openai-compatible"@,
                    billing: "usage"@,
                    base_url: "https://example.invalid/v1"@,
                    headers: JsonModel::Object(no_fields()),
                    models: JsonModel::Array(no_items().push(example_model())),
                },
            )
        } else {
            Err("openai-compatible does not support billing "@ + billing)
        }
    }

    open spec fn decorated(&self, document: JsonModel) -> JsonModel {
        document
    }

    open spec fn carried(&self, auth: JsonModel) -> Result<Seq<char>, Seq<char>> {
        first_filled(auth, "key"@, "access"@, "Missing OpenAI-compatible credential"@)
    }

    open spec fn has_device_code(&self, billing: Seq<char>) -> bool {
        false
    }

    fn info(&self) -> (r: ProviderInfo) {
        let mut billing: Vec<BillingKind> = Vec::new();
        billing.push(BillingKind { id: "usage", label: "Custom API" });
        let info = ProviderInfo {
            id: "openai-compatible",
            label: "OpenAI Compatible",
            billing,
        };
        proof {
            assert(info@.billing =~= self.listed().billing);
        }
        info
    }

    fn template(&self, billing: &str) -> (r: Result<ProfileTemplate, String>) {
        if same(billing, "usage") {
            Ok(
                ProfileTemplate {
                    provider: "openai-compatible".to_owned(),
                    billing: "usage".to_owned(),
                    base_url: "https://example.invalid/v1".to_owned(),
                    headers: JsonObject::new().done(),
                    models: JsonArray::new().with(example_model_json()).done(),
                },
            )
        } else {
            Err(join2("openai-compatible does not support billing ", billing))
        }
    }

    fn decorate_document(&self, document: Json) -> (r: Json) {
        document
    }

    fn bearer(&self, auth: &Json) -> (r: Result<String, String>) {
        credential(auth, "key", "access", "Missing OpenAI-compatible credential")
    }

    fn supports_device_code(&self, billing: &str) -> (r: bool) {
        false
    }
}

/// The account of a profile that holds a credential.
pub open spec fn configured_account() -> JsonModel {
    JsonModel::Object(
        no_fields().push(("ok"@, JsonModel::Bool(true))).push(
            (
                "account"@,
                JsonModel::Object(
                    no_fields().push(("type"@, JsonModel::Text("openai-compatible"@))).push(
                        ("planType"@, JsonModel::Text("Custom API"@)),
                    ),
                ),
            ),
        ).push(("requiresOpenaiAuth"@, JsonModel::Bool(false))),
    )
}

/// The limits of such a profile: none are reported.
pub open spec fn configured_limits() -> JsonModel {
    JsonModel::Object(
        no_fields().push(("ok"@, JsonModel::Bool(true))).push(
            ("reported"@, JsonModel::Bool(false)),
        ),
    )
}

/// What is known of a profile that holds a credential: nothing is reported of its limits, and that
/// is no failure.
pub fn configured_snapshot() -> (r: QuotaSnapshot)
    ensures
        r.account@ == configured_account(),
        r.rate_limits@ == configured_limits(),
        r.auth is None,
{
    let account = JsonObject::new().with("type", Json::text("openai-compatible")).with(
        "planType",
        Json::text("Custom API"),
    ).done();
    QuotaSnapshot {
        account: JsonObject::new().with("ok", Json::Bool(true)).with("account", account).with(
            "requiresOpenaiAuth",
            Json::Bool(false),
        ).done(),
        rate_limits: JsonObject::new().with("ok", Json::Bool(true)).with(
            "reported",
            Json::Bool(false),
        ).done(),
        auth: None,
    }
}

/// A probe of a profile: it needs a credential and asks nobody.
pub fn probe_configured(document: &Json) -> (r: Result<QuotaSnapshot, String>)
    ensures
        match r {
            Ok(snapshot) => {
                &&& document@.get("auth"@) is Some
                &&& OpenAiCompatible.carried(document@.get("auth"@)->0) is Ok
                &&& snapshot.account@ == configured_account()
                &&& snapshot.rate_limits@ == configured_limits()
                &&& snapshot.auth is None
            },
            Err(error) => {
                &&& document@.get("auth"@) is Some ==> OpenAiCompatible.carried(
                    document@.get("auth"@)->0,
                ) is Err
                &&& error@ == "Missing OpenAI-compatible credential"@
            },
        },
{
    let empty = JsonObject::new().done();
    let auth = match document.get("auth") {
        Some(auth) => auth,
        None => &empty,
    };
    match OpenAiCompatible.bearer(auth) {
        Ok(_) => Ok(configured_snapshot()),
        Err(error) => Err(error),
    }
}

/// A profile at an address of one's own is paid by usage and by nothing else. It starts with an
/// address that is to be replaced, no headers and one model, which is the default and does not
/// think; its credential is its key, else its access token; and nobody logs in to it by a device.
pub proof fn own_addresses_are_paid_by_usage(billing: Seq<char>, auth: JsonModel)
    ensures
        OpenAiCompatible.listed().id == "openai-compatible"@,
        OpenAiCompatible.listed().billing == seq![("usage"@, "Custom API"@)],
        OpenAiCompatible.offered(billing) is Ok <==> billing == "usage"@,
        OpenAiCompatible.offered(billing) matches Err(error) ==> error
            == "openai-compatible does not support billing "@ + billing,
        OpenAiCompatible.offered(billing) matches Ok(template) ==> {
            &&& template.provider == "openai-compatible"@
            &&& template.billing == "usage"@
            &&& template.base_url == "https://example.invalid/v1"@
            &&& template.headers == JsonModel::Object(Seq::empty())
            &&& template.models matches JsonModel::Array(models) && models.len() == 1
                && models[0].get("id"@) == Some(JsonModel::Text("model-id"@)) && models[0].get(
                "api"@,
            ) == Some(JsonModel::Text("openai-responses"@)) && models[0].get("streaming"@) == Some(
                JsonModel::Bool(true),
            ) && models[0].get("default"@) == Some(JsonModel::Bool(true)) && models[0].get(
                "default_thinking"@,
            ) == Some(JsonModel::Text("off"@)) && models[0].get("parallel_tool_calls"@) == Some(
                JsonModel::Bool(false),
            ) && models[0].get("thinking"@) == Some(JsonModel::Array(seq![JsonModel::Text("off"@)]))
        },
        OpenAiCompatible.carried(auth) == first_filled(
            auth,
            "key"@,
            "access"@,
            "Missing OpenAI-compatible credential"@,
        ),
        !OpenAiCompatible.has_device_code(billing),
{
    reveal_strlit("id");
    reveal_strlit("api");
    reveal_strlit("streaming");
    reveal_strlit("parallel_tool_calls");
    reveal_strlit("thinking");
    reveal_strlit("default_thinking");
    reveal_strlit("capabilities");
    reveal_strlit("default");
    assert("id"@.len() == 2 && "api"@.len() == 3 && "streaming"@.len() == 9
        && "parallel_tool_calls"@.len() == 19 && "thinking"@.len() == 8 && "default_thinking"@.len()
        == 16 && "capabilities"@.len() == 12 && "default"@.len() == 7);
    let fields = example_model()->Object_0;
    assert(fields[0].0 == "id"@ && fields[1].0 == "api"@ && fields[2].0 == "streaming"@
        && fields[3].0 == "parallel_tool_calls"@ && fields[4].0 == "thinking"@ && fields[5].0
        == "default_thinking"@ && fields[6].0 == "capabilities"@ && fields[7].0 == "default"@);
    named_members_are_found(fields);
    assert(no_items().push(JsonModel::Text("off"@)) =~= seq![JsonModel::Text("off"@)]);
    assert(Seq::empty().push(("usage"@, "Custom API"@)) =~= seq![("usage"@, "Custom API"@)]);
}

/// Of such a profile it is known that it is set up, and that nothing is reported of its limits.
pub proof fn own_addresses_report_no_limits()
    ensures
        configured_account().get("ok"@) == Some(JsonModel::Bool(true)),
        configured_account().get("requiresOpenaiAuth"@) == Some(JsonModel::Bool(false)),
        configured_account().get2("account"@, "type"@) == Some(
            JsonModel::Text("openai-compatible"@),
        ),
        configured_account().get2("account"@, "planType"@) == Some(JsonModel::Text("Custom API"@)),
        configured_limits().get("ok"@) == Some(JsonModel::Bool(true)),
        configured_limits().get("reported"@) == Some(JsonModel::Bool(false)),
{
    reveal_strlit("ok");
    reveal_strlit("account");
    reveal_strlit("requiresOpenaiAuth");
    reveal_strlit("type");
    reveal_strlit("planType");
    reveal_strlit("reported");
    assert("ok"@.len() == 2 && "account"@.len() == 7 && "requiresOpenaiAuth"@.len() == 18
        && "type"@.len() == 4 && "planType"@.len() == 8 && "reported"@.len() == 8);
    let fields = configured_account()->Object_0;
    assert(fields[0].0 == "ok"@ && fields[1].0 == "account"@ && fields[2].0
        == "requiresOpenaiAuth"@);
    named_members_are_found(fields);
    let account = fields[1].1->Object_0;
    assert(account[0].0 == "type"@ && account[1].0 == "planType"@);
    named_members_are_found(account);
    let limits = configured_limits()->Object_0;
    assert(limits[0].0 == "ok"@ && limits[1].0 == "reported"@);
    named_members_are_found(limits);
}

} // verus!
