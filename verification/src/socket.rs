//! Connections to a chat: which ones run, and what their messages lead to.
use vstd::prelude::*;

use crate::config::{ImConnectionConfig, ImMode, ImProviderConfig};
use crate::json::{
    compact_text, json_text, json_value, models_index, named_members_are_found, no_fields, optional,
    optional_text, parse_json, text_or_null_model, Json, JsonModel, JsonObject,
};
use crate::text::{is_blank, join3, same, texts, trim};

verus! {

/// Seconds between two attempts to connect.
pub const RECONNECT_SECONDS: u64 = 1;

/// Seconds between two heartbeats.
pub const HEARTBEAT_SECONDS: u64 = 30;

/// What a connection is configured to be.
pub struct ConnectionModel {
    pub id: Seq<char>,
    pub name: Seq<char>,
    pub enabled: bool,
    pub mode: ImMode,
    pub app_token: Seq<char>,
    pub bot_token: Seq<char>,
    pub api_base_url: Seq<char>,
}

impl View for ImConnectionConfig {
    type V = ConnectionModel;

    open spec fn view(&self) -> ConnectionModel {
        ConnectionModel {
            id: self.id@,
            name: self.name@,
            enabled: self.enabled,
            mode: self.mode,
            app_token: self.provider->Slack_0.app_token@,
            bot_token: self.provider->Slack_0.bot_token@,
            api_base_url: self.provider->Slack_0.api_base_url@,
        }
    }
}

/// Whether two configurations are the same.
pub fn same_config(a: &ImConnectionConfig, b: &ImConnectionConfig) -> (r: bool)
    ensures
        r == (a@ == b@),
{
    match (&a.provider, &b.provider) {
        (ImProviderConfig::Slack(x), ImProviderConfig::Slack(y)) => same(&a.id, &b.id) && same(
            &a.name,
            &b.name,
        ) && a.enabled == b.enabled && a.mode == b.mode && same(&x.app_token, &y.app_token)
            && same(&x.bot_token, &y.bot_token) && same(&x.api_base_url, &y.api_base_url),
    }
}

/// A connection that runs: what it was started with, and whether its task has ended.
#[derive(Debug)]
pub struct RunningConnection {
    pub id: String,
    pub config: ImConnectionConfig,
    pub finished: bool,
}

/// Which connections to stop, by name, and which to start, by their places in the configuration.
#[derive(Debug)]
pub struct ReconcilePlan {
    pub stop: Vec<String>,
    pub start: Vec<usize>,
}

/// Whether a connection is to run.
pub open spec fn should_run(config: ImConnectionConfig) -> bool {
    config.enabled && config.is_configured()
}

/// The configuration of the connection `id`: the last of that name.
pub open spec fn desired(configs: Seq<ImConnectionConfig>, id: Seq<char>) -> Option<int>
    decreases configs.len(),
{
    if configs.len() == 0 {
        None
    } else if configs.last().id@ == id {
        Some(configs.len() - 1)
    } else {
        desired(configs.drop_last(), id)
    }
}

/// Whether a running connection goes on: it is to run, as it does, and it does.
pub open spec fn keeps(configs: Seq<ImConnectionConfig>, active: RunningConnection) -> bool {
    match desired(configs, active.id@) {
        Some(i) => should_run(configs[i]) && configs[i]@ == active.config@ && !active.finished,
        None => false,
    }
}

/// Whether a connection of that name runs on.
pub open spec fn runs_on(
    configs: Seq<ImConnectionConfig>,
    running: Seq<RunningConnection>,
    id: Seq<char>,
) -> bool {
    exists|i: int|
        0 <= i < running.len() && (#[trigger] running[i]).id@ == id && keeps(configs, running[i])
}

/// Whether the configuration at `i` is started: it is the one that counts for its name, is to run,
/// and does not run.
pub open spec fn starts(
    configs: Seq<ImConnectionConfig>,
    running: Seq<RunningConnection>,
    i: int,
) -> bool {
    0 <= i < configs.len() && desired(configs, configs[i].id@) == Some(i) && should_run(configs[i])
        && !runs_on(configs, running, configs[i].id@)
}

/// Whether a list of places names `i`.
pub open spec fn lists(places: Seq<usize>, i: int) -> bool {
    exists|k: int| 0 <= k < places.len() && #[trigger] places[k] == i
}

/// The names of the connections that do not go on, in their order.
pub open spec fn stopped(configs: Seq<ImConnectionConfig>, running: Seq<RunningConnection>) -> Seq<
    Seq<char>,
>
    decreases running.len(),
{
    if running.len() == 0 {
        Seq::empty()
    } else if keeps(configs, running.last()) {
        stopped(configs, running.drop_last())
    } else {
        stopped(configs, running.drop_last()).push(running.last().id@)
    }
}

fn find_desired(configs: &Vec<ImConnectionConfig>, id: &str) -> (r: Option<usize>)
    ensures
        match r {
            Some(i) => i < configs.len() && desired(configs@, id@) == Some(i as int),
            None => desired(configs@, id@) is None,
        },
{
    let mut i: usize = configs.len();
    proof {
        assert(configs@.take(configs@.len() as int) =~= configs@);
    }
    while i > 0
        invariant
            i <= configs.len(),
            desired(configs@, id@) == desired(configs@.take(i as int), id@),
        decreases i,
    {
        proof {
            assert(configs@.take(i as int).drop_last() =~= configs@.take(i - 1));
        }
        i = i - 1;
        if same(&configs[i].id, id) {
            return Some(i);
        }
    }
    None
}

fn keeps_running(configs: &Vec<ImConnectionConfig>, active: &RunningConnection) -> (r: bool)
    ensures
        r == keeps(configs@, *active),
{
    match find_desired(configs, &active.id) {
        Some(i) => configs[i].enabled && configs[i].configured() && same_config(
            &configs[i],
            &active.config,
        ) && !active.finished,
        None => false,
    }
}

fn goes_on(configs: &Vec<ImConnectionConfig>, running: &Vec<RunningConnection>, id: &str) -> (r:
    bool)
    ensures
        r == runs_on(configs@, running@, id@),
{
    let mut i: usize = 0;
    while i < running.len()
        invariant
            i <= running.len(),
            forall|j: int|
                0 <= j < i ==> !((#[trigger] running@[j]).id@ == id@ && keeps(
                    configs@,
                    running@[j],
                )),
        decreases running.len() - i,
    {
        if same(&running[i].id, id) && keeps_running(configs, &running[i]) {
            return true;
        }
        i = i + 1;
    }
    false
}

/// Compares the connections that run with those that are configured.
pub fn reconcile(configs: &Vec<ImConnectionConfig>, running: &Vec<RunningConnection>) -> (r:
    ReconcilePlan)
    ensures
        texts(r.stop@) == stopped(configs@, running@),
        forall|i: int|
            #[trigger] starts(configs@, running@, i) <==> lists(r.start@, i),
        forall|a: int, b: int|
            0 <= a < b < r.start@.len() ==> #[trigger] r.start@[a] < #[trigger] r.start@[b],
{
    let mut stop: Vec<String> = Vec::new();
    let mut i: usize = 0;
    proof {
        assert(running@.take(0) =~= Seq::<RunningConnection>::empty());
        assert(texts(stop@) =~= Seq::<Seq<char>>::empty());
    }
    while i < running.len()
        invariant
            i <= running.len(),
            texts(stop@) == stopped(configs@, running@.take(i as int)),
        decreases running.len() - i,
    {
        proof {
            assert(running@.take(i + 1).drop_last() =~= running@.take(i as int));
        }
        if !keeps_running(configs, &running[i]) {
            let ghost before = texts(stop@);
            stop.push(running[i].id.clone());
            proof {
                assert(texts(stop@) =~= before.push(running@[i as int].id@));
            }
        }
        i = i + 1;
    }
    proof {
        assert(running@.take(running@.len() as int) =~= running@);
    }
    let mut start: Vec<usize> = Vec::new();
    let mut j: usize = 0;
    while j < configs.len()
        invariant
            j <= configs.len(),
            forall|k: int|
                0 <= k < start@.len() ==> 0 <= #[trigger] start@[k] < j && starts(
                    configs@,
                    running@,
                    start@[k] as int,
                ),
            forall|i: int|
                0 <= i < j && #[trigger] starts(configs@, running@, i) ==> lists(start@, i),
            forall|a: int, b: int|
                0 <= a < b < start@.len() ==> #[trigger] start@[a] < #[trigger] start@[b],
        decreases configs.len() - j,
    {
        let counts = match find_desired(configs, &configs[j].id) {
            Some(at) => at == j,
            None => false,
        };
        let ghost before = start@;
        if counts && configs[j].enabled && configs[j].configured() && !goes_on(
            configs,
            running,
            &configs[j].id,
        ) {
            proof {
                assert(starts(configs@, running@, j as int));
            }
            start.push(j);
            proof {
                assert forall|i: int| 0 <= i < j + 1 && #[trigger] starts(
                    configs@,
                    running@,
                    i,
                ) implies lists(start@, i) by {
                    if i < j {
                        let k = choose|k: int| 0 <= k < before.len() && #[trigger] before[k] == i;
                        assert(start@[k] == i);
                    } else {
                        assert(start@[start@.len() - 1] == i);
                    }
                }
            }
        }
        j = j + 1;
    }
    proof {
        assert forall|i: int|
            #[trigger] starts(configs@, running@, i) <==> lists(start@, i) by {
            if starts(configs@, running@, i) {
                assert(0 <= i < j);
            }
            if lists(start@, i) {
                let k = choose|k: int| 0 <= k < start@.len() && #[trigger] start@[k] == i;
                assert(starts(configs@, running@, start@[k] as int));
            }
        }
    }
    ReconcilePlan { stop, start }
}

/// After the plan is carried out, exactly the connections run that are to run.
pub proof fn plan_leaves_what_should_run(
    configs: Seq<ImConnectionConfig>,
    running: Seq<RunningConnection>,
    id: Seq<char>,
)
    ensures
        (runs_on(configs, running, id) || (desired(configs, id) is Some && starts(
            configs,
            running,
            desired(configs, id)->0,
        ))) <==> (desired(configs, id) is Some && should_run(configs[desired(configs, id)->0])),
{
    lemma_desired(configs, id);
}

proof fn lemma_desired(configs: Seq<ImConnectionConfig>, id: Seq<char>)
    ensures
        match desired(configs, id) {
            Some(i) => 0 <= i < configs.len() && configs[i].id@ == id,
            None => true,
        },
    decreases configs.len(),
{
    if configs.len() > 0 && configs.last().id@ != id {
        lemma_desired(configs.drop_last(), id);
    }
}

/// An envelope of a chat connection.
#[derive(Debug)]
pub struct SlackEnvelope {
    pub envelope_id: Option<String>,
    pub kind: String,
    pub payload: Option<Json>,
}

/// What an envelope holds.
pub struct EnvelopeModel {
    pub envelope_id: Option<Seq<char>>,
    pub kind: Seq<char>,
    pub payload: Option<JsonModel>,
}

impl View for SlackEnvelope {
    type V = EnvelopeModel;

    open spec fn view(&self) -> EnvelopeModel {
        EnvelopeModel {
            envelope_id: optional_text(self.envelope_id),
            kind: self.kind@,
            payload: optional(self.payload),
        }
    }
}

/// The parts of an envelope: its name, its type and what it carries. They are members of an object,
/// or the items of a list, whose last may be left out.
pub open spec fn envelope_parts(value: JsonModel) -> (
    Option<JsonModel>,
    Option<JsonModel>,
    Option<JsonModel>,
) {
    match value {
        JsonModel::Array(items) => if items.len() == 2 {
            (Some(items[0]), Some(items[1]), None)
        } else if items.len() == 3 {
            (Some(items[0]), Some(items[1]), Some(items[2]))
        } else {
            (None, None, None)
        },
        _ => (value.get("envelope_id"@), value.get("type"@), value.get("payload"@)),
    }
}

/// The envelope that a JSON value is: it has a type; its name, if it has one, is a text.
pub open spec fn envelope_of(value: JsonModel) -> Option<EnvelopeModel> {
    let (id, kind, payload) = envelope_parts(value);
    let id_ok = id is None || id->0 is Null || id->0 is Text;
    match kind {
        Some(JsonModel::Text(kind)) => if id_ok {
            Some(
                EnvelopeModel {
                    envelope_id: match id {
                        Some(id) => id.as_text(),
                        None => None,
                    },
                    kind,
                    payload: match payload {
                        Some(JsonModel::Null) => None,
                        other => other,
                    },
                },
            )
        } else {
            None
        },
        _ => None,
    }
}

pub fn read_envelope(value: &Json) -> (r: Option<SlackEnvelope>)
    ensures
        match r {
            Some(envelope) => envelope_of(value@) == Some(envelope@),
            None => envelope_of(value@) is None,
        },
{
    let (id, kind, payload) = match value {
        Json::Array(items) => {
            proof {
                models_index(items@);
            }
            if items.len() == 2 {
                (Some(&items[0]), Some(&items[1]), None)
            } else if items.len() == 3 {
                (Some(&items[0]), Some(&items[1]), Some(&items[2]))
            } else {
                return None;
            }
        },
        _ => (value.get("envelope_id"), value.get("type"), value.get("payload")),
    };
    let kind = match kind {
        Some(Json::Text(kind)) => kind.clone(),
        _ => {
            return None;
        },
    };
    let envelope_id = match id {
        Some(Json::Text(id)) => Some(id.clone()),
        Some(Json::Null) => None,
        None => None,
        Some(_) => {
            return None;
        },
    };
    let payload = match payload {
        Some(Json::Null) => None,
        Some(payload) => Some(payload.clone()),
        None => None,
    };
    Some(SlackEnvelope { envelope_id, kind, payload })
}

/// The envelope that a text is. Of a member that it names twice the last counts.
pub open spec fn envelope_in_text(text: Seq<char>) -> Option<EnvelopeModel> {
    match json_value(text) {
        Some(value) => envelope_of(value),
        None => None,
    }
}

pub fn read_envelope_text(text: &str) -> (r: Option<SlackEnvelope>)
    ensures
        match r {
            Some(envelope) => envelope_in_text(text@) == Some(envelope@),
            None => envelope_in_text(text@) is None,
        },
{
    match parse_json(text) {
        Some(value) => read_envelope(&value),
        None => None,
    }
}

/// How messages are read: thread by thread, or all of a channel.
#[derive(Clone, Copy, Debug, PartialEq, Eq, Structural)]
pub enum SlackMessageMode {
    Thread,
    Proactive,
}

pub fn message_mode(mode: ImMode) -> (r: SlackMessageMode)
    ensures
        r == match mode {
            ImMode::Normal => SlackMessageMode::Thread,
            ImMode::Proactive => SlackMessageMode::Proactive,
        },
{
    match mode {
        ImMode::Normal => SlackMessageMode::Thread,
        ImMode::Proactive => SlackMessageMode::Proactive,
    }
}

/// Whether an envelope carries something to read.
pub fn carries_payload(envelope: &SlackEnvelope) -> (r: bool)
    ensures
        r == (envelope@.kind != "hello"@ && envelope@.kind != "disconnect"@
            && envelope@.payload is Some),
{
    !same(&envelope.kind, "hello") && !same(&envelope.kind, "disconnect")
        && envelope.payload.is_some()
}

/// What follows an envelope that was handled.
#[derive(Debug)]
pub enum EnvelopeEnd {
    /// Tell Slack that the envelope was taken.
    Acknowledge(String),
    /// Nothing.
    Silent,
    /// Slack asked for an end of the connection.
    Disconnect,
}

/// The acknowledgement of an envelope.
pub open spec fn ack_json(envelope_id: Seq<char>) -> JsonModel {
    JsonModel::Object(no_fields().push(("envelope_id"@, JsonModel::Text(envelope_id))))
}

pub fn after_envelope(envelope: &SlackEnvelope) -> (r: EnvelopeEnd)
    ensures
        match r {
            EnvelopeEnd::Disconnect => envelope@.kind == "disconnect"@,
            EnvelopeEnd::Acknowledge(text) => envelope@.kind != "disconnect"@
                && envelope@.envelope_id is Some && text@ == json_text(
                ack_json(envelope@.envelope_id->0),
            ),
            EnvelopeEnd::Silent => envelope@.kind != "disconnect"@
                && envelope@.envelope_id is None,
        },
{
    if same(&envelope.kind, "disconnect") {
        return EnvelopeEnd::Disconnect;
    }
    match &envelope.envelope_id {
        Some(id) => EnvelopeEnd::Acknowledge(
            compact_text(&JsonObject::new().with("envelope_id", Json::text(id)).done()),
        ),
        None => EnvelopeEnd::Silent,
    }
}

/// What happens on a connection.
#[derive(Clone, Copy, Debug, PartialEq, Eq, Structural)]
pub enum SocketEvent {
    Heartbeat,
    Pong,
    Ping,
    Close,
    /// The stream has ended.
    End,
    Text,
    Other,
}

/// What is done about it.
#[derive(Clone, Copy, Debug, PartialEq, Eq, Structural)]
pub enum SocketStep {
    SendPing,
    SendPong,
    HandleText,
    Nothing,
    /// Nobody answered the last ping.
    TimedOut,
    Closed,
}

/// A connection between two heartbeats.
#[derive(Clone, Copy, Debug, PartialEq, Eq, Structural)]
pub struct SocketState {
    pub awaiting_pong: bool,
}

impl SocketState {
    pub fn new() -> (r: SocketState)
        ensures
            !r.awaiting_pong,
    {
        SocketState { awaiting_pong: false }
    }

    /// Takes an event of the connection. A ping that is not answered until the next heartbeat ends
    /// it.
    pub fn step(&mut self, event: SocketEvent) -> (r: SocketStep)
        ensures
            r == match event {
                SocketEvent::Heartbeat => if old(self).awaiting_pong {
                    SocketStep::TimedOut
                } else {
                    SocketStep::SendPing
                },
                SocketEvent::Pong | SocketEvent::Other => SocketStep::Nothing,
                SocketEvent::Ping => SocketStep::SendPong,
                SocketEvent::Close | SocketEvent::End => SocketStep::Closed,
                SocketEvent::Text => SocketStep::HandleText,
            },
            final(self).awaiting_pong == match event {
                SocketEvent::Heartbeat => true,
                SocketEvent::Pong => false,
                _ => old(self).awaiting_pong,
            },
    {
        match event {
            SocketEvent::Heartbeat => {
                if self.awaiting_pong {
                    return SocketStep::TimedOut;
                }
                self.awaiting_pong = true;
                SocketStep::SendPing
            },
            SocketEvent::Pong => {
                self.awaiting_pong = false;
                SocketStep::Nothing
            },
            SocketEvent::Ping => SocketStep::SendPong,
            SocketEvent::Close => SocketStep::Closed,
            SocketEvent::End => SocketStep::Closed,
            SocketEvent::Text => SocketStep::HandleText,
            SocketEvent::Other => SocketStep::Nothing,
        }
    }
}

/// What a call of the Slack interface answers.
#[derive(Debug)]
pub struct SlackApiResponse {
    pub ok: bool,
    pub error: Option<String>,
    pub url: Option<String>,
    pub user_id: Option<String>,
    pub user: Option<String>,
    pub bot_id: Option<String>,
    pub app_id: Option<String>,
}

/// The bot that a connection speaks as.
#[derive(Debug)]
pub struct BotIdentity {
    pub user_id: String,
    pub bot_id: Option<String>,
    pub app_id: Option<String>,
    pub username: Option<String>,
    pub surface: String,
}

/// The error of a call that Slack refused.
pub open spec fn refusal(method: Seq<char>, error: Option<Seq<char>>) -> Seq<char> {
    "Slack API error for "@ + method + ": "@ + match error {
        Some(error) => error,
        None => "unknown_error"@,
    }
}

fn refused(method: &str, error: &Option<String>) -> (r: String)
    ensures
        r@ == refusal(method@, optional_text(*error)),
{
    let mut message = join3("Slack API error for ", method, ": ");
    match error {
        Some(error) => message.append(error),
        None => message.append("unknown_error"),
    }
    message
}

/// The address of a connection, from the answer to `apps.connections.open`.
pub fn opened_url(response: &SlackApiResponse) -> (r: Result<String, String>)
    ensures
        match r {
            Ok(url) => response.ok && optional_text(response.url) == Some(url@),
            Err(message) => message@ == if !response.ok {
                refusal("apps.connections.open"@, optional_text(response.error))
            } else {
                "apps.connections.open missing url"@
            } && (response.ok ==> response.url is None),
        },
{
    if !response.ok {
        return Err(refused("apps.connections.open", &response.error));
    }
    match &response.url {
        Some(url) => Ok(url.clone()),
        None => Err("apps.connections.open missing url".to_owned()),
    }
}

/// A text that says something, as it is.
pub open spec fn meaningful(value: Option<Seq<char>>) -> Option<Seq<char>> {
    match value {
        Some(text) => if is_blank(text) {
            None
        } else {
            Some(text)
        },
        None => None,
    }
}

fn keep_meaningful(value: &Option<String>) -> (r: Option<String>)
    ensures
        optional_text(r) == meaningful(optional_text(*value)),
{
    match value {
        Some(text) => if trim(text).as_str().is_empty() {
            None
        } else {
            Some(text.clone())
        },
        None => None,
    }
}

/// The bot of a connection, from the answer to `auth.test`.
pub fn bot_identity(response: &SlackApiResponse) -> (r: Result<BotIdentity, String>)
    ensures
        match r {
            Ok(bot) => {
                &&& response.ok
                &&& meaningful(optional_text(response.user_id)) == Some(bot.user_id@)
                &&& optional_text(bot.bot_id) == meaningful(optional_text(response.bot_id))
                &&& optional_text(bot.app_id) == meaningful(optional_text(response.app_id))
                &&& optional_text(bot.username) == meaningful(optional_text(response.user))
                &&& bot.surface@ == "Slack"@
            },
            Err(message) => {
                &&& !response.ok || meaningful(optional_text(response.user_id)) is None
                &&& message@ == if !response.ok {
                    refusal("auth.test"@, optional_text(response.error))
                } else {
                    "auth.test missing user_id"@
                }
            },
        },
{
    if !response.ok {
        return Err(refused("auth.test", &response.error));
    }
    match keep_meaningful(&response.user_id) {
        Some(user_id) => Ok(
            BotIdentity {
                user_id,
                bot_id: keep_meaningful(&response.bot_id),
                app_id: keep_meaningful(&response.app_id),
                username: keep_meaningful(&response.user),
                surface: "Slack".to_owned(),
            },
        ),
        None => Err("auth.test missing user_id".to_owned()),
    }
}

/// How a bot is mentioned.
pub open spec fn mention_of(user_id: Seq<char>) -> Seq<char> {
    "<@"@ + user_id + ">"@
}

/// What a connection says of its bot.
pub fn bot_json(bot: &BotIdentity) -> (r: Json)
    ensures
        r@ == JsonModel::Object(
            no_fields().push(("surface"@, JsonModel::Text(bot.surface@))).push(
                ("userId"@, JsonModel::Text(bot.user_id@)),
            ).push(("mention"@, JsonModel::Text(mention_of(bot.user_id@)))).push(
                ("botId"@, text_or_null_model(optional_text(bot.bot_id))),
            ).push(("appId"@, text_or_null_model(optional_text(bot.app_id)))).push(
                ("username"@, text_or_null_model(optional_text(bot.username))),
            ),
        ),
{
    JsonObject::new().with("surface", Json::text(&bot.surface)).with(
        "userId",
        Json::text(&bot.user_id),
    ).with("mention", Json::Text(join3("<@", &bot.user_id, ">"))).with(
        "botId",
        Json::text_or_null(&bot.bot_id),
    ).with("appId", Json::text_or_null(&bot.app_id)).with(
        "username",
        Json::text_or_null(&bot.username),
    ).done()
}

/// What follows the end of a connection: the error to show, or none where the gateway stops.
pub fn connection_end(failure: Option<&str>, stopping: bool) -> (r: Option<String>)
    ensures
        optional_text(r) == match failure {
            Some(error) => Some(error@),
            None => if stopping {
                None
            } else {
                Some("connection_closed"@)
            },
        },
{
    match failure {
        Some(error) => Some(error.to_owned()),
        None => if stopping {
            None
        } else {
            Some("connection_closed".to_owned())
        },
    }
}

/// Of several configurations of one name the last counts.
pub proof fn last_configuration_counts(configs: Seq<ImConnectionConfig>, id: Seq<char>)
    ensures
        match desired(configs, id) {
            Some(i) => {
                &&& 0 <= i < configs.len()
                &&& configs[i].id@ == id
                &&& forall|j: int| i < j < configs.len() ==> (#[trigger] configs[j]).id@ != id
            },
            None => forall|j: int| 0 <= j < configs.len() ==> (#[trigger] configs[j]).id@ != id,
        },
    decreases configs.len(),
{
    if configs.len() > 0 && configs.last().id@ != id {
        let rest = configs.drop_last();
        last_configuration_counts(rest, id);
        assert forall|j: int| 0 <= j < rest.len() implies configs[j] == #[trigger] rest[j] by {}
        match desired(configs, id) {
            Some(i) => {
                assert forall|j: int| i < j < configs.len() implies (
                #[trigger] configs[j]).id@ != id by {
                    if j < rest.len() {
                        assert(rest[j].id@ != id);
                    }
                }
            },
            None => {
                assert forall|j: int| 0 <= j < configs.len() implies (
                #[trigger] configs[j]).id@ != id by {
                    if j < rest.len() {
                        assert(rest[j].id@ != id);
                    }
                }
            },
        }
    }
}

/// Whether the connection at `k` runs as it is configured last: with the same settings, switched on,
/// with both tokens, and its task has not ended.
pub open spec fn runs_as_configured(
    configs: Seq<ImConnectionConfig>,
    active: RunningConnection,
    i: int,
) -> bool {
    &&& 0 <= i < configs.len()
    &&& configs[i].id@ == active.id@
    &&& forall|j: int| i < j < configs.len() ==> (#[trigger] configs[j]).id@ != active.id@
    &&& configs[i].enabled
    &&& !is_blank(configs[i].provider->Slack_0.app_token@)
    &&& !is_blank(configs[i].provider->Slack_0.bot_token@)
    &&& configs[i].id@ == active.config.id@ && configs[i].name@ == active.config.name@
    &&& configs[i].enabled == active.config.enabled && configs[i].mode == active.config.mode
    &&& configs[i].provider->Slack_0.app_token@ == active.config.provider->Slack_0.app_token@
    &&& configs[i].provider->Slack_0.bot_token@ == active.config.provider->Slack_0.bot_token@
    &&& configs[i].provider->Slack_0.api_base_url@ == active.config.provider->Slack_0.api_base_url@
    &&& !active.finished
}

/// A connection is left alone exactly where it runs as it is configured; all others that run are
/// stopped, in their order.
pub proof fn changed_connections_are_stopped(
    configs: Seq<ImConnectionConfig>,
    running: Seq<RunningConnection>,
)
    ensures
        forall|k: int|
            0 <= k < running.len() ==> (keeps(configs, #[trigger] running[k]) <==> exists|i: int|
                #[trigger] runs_as_configured(configs, running[k], i)),
        stopped(configs, running) == running.filter(
            |active: RunningConnection| !keeps(configs, active),
        ).map_values(|active: RunningConnection| active.id@),
    decreases running.len(),
{
    reveal(Seq::filter);
    let out = |active: RunningConnection| !keeps(configs, active);
    let name = |active: RunningConnection| active.id@;
    assert forall|k: int| 0 <= k < running.len() implies (keeps(configs, #[trigger] running[k])
        <==> exists|i: int| #[trigger] runs_as_configured(configs, running[k], i)) by {
        let active = running[k];
        last_configuration_counts(configs, active.id@);
        if keeps(configs, active) {
            assert(runs_as_configured(configs, active, desired(configs, active.id@)->0));
        }
        if exists|i: int| #[trigger] runs_as_configured(configs, active, i) {
            let i = choose|i: int| #[trigger] runs_as_configured(configs, active, i);
            match desired(configs, active.id@) {
                Some(d) => {
                    if d < i {
                        assert(configs[i].id@ != active.id@);
                    } else if i < d {
                        assert(configs[d].id@ != active.id@);
                    }
                },
                None => {
                    assert(configs[i].id@ != active.id@);
                },
            }
        }
    }
    if running.len() > 0 {
        let rest = running.drop_last();
        changed_connections_are_stopped(configs, rest);
        if out(running.last()) {
            assert(rest.filter(out).push(running.last()).map_values(name) =~= rest.filter(
                out,
            ).map_values(name).push(running.last().id@));
        }
    } else {
        assert(running.filter(out).map_values(name) =~= Seq::empty());
    }
}

/// A configured connection is started unless a connection of its name goes on; one that is switched
/// off, lacks a token, or has a later configuration of its name is not.
pub proof fn missing_connections_are_started(
    configs: Seq<ImConnectionConfig>,
    running: Seq<RunningConnection>,
    i: int,
)
    requires
        0 <= i < configs.len(),
    ensures
        starts(configs, running, i) <==> {
            &&& forall|j: int| i < j < configs.len() ==> (#[trigger] configs[j]).id@ != configs[i].id@
            &&& configs[i].enabled
            &&& !is_blank(configs[i].provider->Slack_0.app_token@)
            &&& !is_blank(configs[i].provider->Slack_0.bot_token@)
            &&& forall|k: int|
                0 <= k < running.len() && (#[trigger] running[k]).id@ == configs[i].id@ ==> !keeps(
                    configs,
                    running[k],
                )
        },
{
    last_configuration_counts(configs, configs[i].id@);
    match desired(configs, configs[i].id@) {
        Some(d) => {
            if d < i {
                assert(configs[i].id@ != configs[i].id@);
            }
        },
        None => {},
    }
}

/// An envelope with a type is read, whatever else it holds, if its name is absent, null or a text:
/// it has that name, that type and what it carries. A list of name, type and load says the same.
pub proof fn envelopes_are_read(value: JsonModel, id: Seq<char>, kind: Seq<char>, load: JsonModel)
    requires
        load != JsonModel::Null,
    ensures
        value is Object && value.get("type"@) == Some(JsonModel::Text(kind)) && value.get(
            "envelope_id"@,
        ) == Some(JsonModel::Text(id)) && value.get("payload"@) == Some(load) ==> envelope_of(value)
            == Some(EnvelopeModel { envelope_id: Some(id), kind, payload: Some(load) }),
        value is Object && value.get("type"@) == Some(JsonModel::Text(kind)) && value.get(
            "envelope_id"@,
        ) is None && value.get("payload"@) is None ==> envelope_of(value) == Some(
            EnvelopeModel { envelope_id: None, kind, payload: None },
        ),
        value is Object && !(value.get("type"@) matches Some(JsonModel::Text(_))) ==> envelope_of(
            value,
        ) is None,
        value is Object && value.get("envelope_id"@) is Some && !(value.get("envelope_id"@)->0 is Null
            || value.get("envelope_id"@)->0 is Text) ==> envelope_of(value) is None,
        value == JsonModel::Array(seq![JsonModel::Text(id), JsonModel::Text(kind), load])
            ==> envelope_of(value) == Some(
            EnvelopeModel { envelope_id: Some(id), kind, payload: Some(load) },
        ),
{
}

/// An acknowledgement names the envelope.
pub proof fn acknowledgements_name_the_envelope(envelope_id: Seq<char>)
    ensures
        ack_json(envelope_id).get("envelope_id"@) == Some(JsonModel::Text(envelope_id)),
{
    let fields = ack_json(envelope_id)->Object_0;
    assert(fields[0].0 == "envelope_id"@);
    named_members_are_found(fields);
}

/// A refusal names the method and what Slack says is wrong, and a mention names the user.
pub proof fn refusals_say_what_is_wrong(
    method: Seq<char>,
    error: Seq<char>,
    user_id: Seq<char>,
)
    ensures
        refusal(method, Some(error)) == "Slack API error for "@ + method + ": "@ + error,
        refusal(method, None) == "Slack API error for "@ + method + ": unknown_error"@,
        mention_of(user_id) == "<@"@ + user_id + ">"@,
        meaningful(Some(error)) == if is_blank(error) {
            None
        } else {
            Some(error)
        },
        meaningful(None) is None,
{
    reveal_strlit(": ");
    reveal_strlit("unknown_error");
    reveal_strlit(": unknown_error");
    assert(": "@ + "unknown_error"@ =~= ": unknown_error"@);
    assert("Slack API error for "@ + method + ": "@ + "unknown_error"@ =~= "Slack API error for "@
        + method + (": "@ + "unknown_error"@));
}

/// A text is an envelope exactly where it is the JSON of one.
pub proof fn envelope_texts_are_json(text: Seq<char>)
    ensures
        json_value(text) is None ==> envelope_in_text(text) is None,
        json_value(text) matches Some(value) ==> envelope_in_text(text) == envelope_of(value),
{
}

} // verus!
