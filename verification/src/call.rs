//! The command line that a session uses to reach its chat, its jobs and its integrations through
//! the broker.
use vstd::prelude::*;

use crate::inbound::{filled, nonempty};
use crate::json::{
    json_value, member, members_behind_are_found, named_members_are_found, no_fields, optional_ref,
    optional_str, optional_text, parse_json, Json, JsonArray, JsonModel, JsonObject,
};
use crate::paths::{
    byte_len, byte_length, is_absolute, path_is_absolute, strip_trailing, without_trailing,
};
use crate::providers::{is_success, text_result};
use crate::text::{
    contains, decimal, decimal_text, ends_with, has_part, is_blank, join2, join3, same, texts, trim,
    trimmed,
};

verus! {

pub enum Cli {
    Chat(ChatCmd),
    Slack(SlackCmd),
    Notify(NotifyCmd),
    Job(JobCmd),
    Integration(IntegrationCmd),
}

/// Commands on the chat that the session is bound to.
pub enum ChatCmd {
    PostMessage { text: String, kind: MessageKind, reason: Option<String> },
    PostFile { file_path: String, initial_comment: Option<String> },
    ThreadHistory { page: HistoryPage },
}

/// Commands on a place in Slack that is named.
pub enum SlackCmd {
    PostMessage { channel_id: String, thread_ts: String, text: String },
    PostFile {
        channel_id: String,
        thread_ts: String,
        file_path: String,
        initial_comment: Option<String>,
    },
    ThreadHistory { channel_id: String, thread_ts: String, page: HistoryPage },
}

/// The part of a history that is asked for.
pub struct HistoryPage {
    pub before_message_id: Option<String>,
    pub before_cursor: Option<String>,
    pub limit: Option<u64>,
    pub format: Option<String>,
}

pub struct NotifyCmd {
    pub text: String,
}

pub enum JobCmd {
    Register {
        kind: String,
        script: String,
        cwd: Option<String>,
        restart_on_boot: Option<String>,
    },
}

pub enum IntegrationCmd {
    ListTools { server: String },
    Call { server: String, name: String, json: Option<String> },
}

#[derive(Clone, Copy, Debug, PartialEq, Eq, Structural)]
pub enum MessageKind {
    Progress,
    Final,
    Block,
    Wait,
}

impl MessageKind {
    pub open spec fn name(self) -> Seq<char> {
        match self {
            MessageKind::Progress => "progress"@,
            MessageKind::Final => "final"@,
            MessageKind::Block => "block"@,
            MessageKind::Wait => "wait"@,
        }
    }

    /// Whether the session stops with the message.
    pub open spec fn stops(self) -> bool {
        self == MessageKind::Block || self == MessageKind::Wait
    }

    pub fn as_str(self) -> (r: &'static str)
        ensures
            r@ == self.name(),
    {
        match self {
            MessageKind::Progress => "progress",
            MessageKind::Final => "final",
            MessageKind::Block => "block",
            MessageKind::Wait => "wait",
        }
    }
}

/// What the session is bound to.
#[derive(Debug)]
pub struct SessionContext {
    pub platform: String,
    pub connection_id: String,
    pub session_key: String,
    pub conversation_id: Option<String>,
    pub root_message_id: Option<String>,
}

/// What a binding is.
pub struct ContextModel {
    pub platform: Seq<char>,
    pub connection_id: Seq<char>,
    pub session_key: Seq<char>,
    pub conversation_id: Option<Seq<char>>,
    pub root_message_id: Option<Seq<char>>,
}

impl View for SessionContext {
    type V = ContextModel;

    open spec fn view(&self) -> ContextModel {
        ContextModel {
            platform: self.platform@,
            connection_id: self.connection_id@,
            session_key: self.session_key@,
            conversation_id: optional_text(self.conversation_id),
            root_message_id: optional_text(self.root_message_id),
        }
    }
}

/// A request to the broker: with a body it is posted, without one it is asked.
pub struct BrokerRequest {
    pub path: &'static str,
    pub query: Option<Vec<(String, String)>>,
    pub body: Option<Json>,
}

/// What a request is.
pub struct RequestModel {
    pub path: Seq<char>,
    pub query: Option<Seq<(Seq<char>, Seq<char>)>>,
    pub body: Option<JsonModel>,
}

/// What the pairs of a query are.
pub open spec fn pair_texts(pairs: Seq<(String, String)>) -> Seq<(Seq<char>, Seq<char>)> {
    pairs.map_values(|pair: (String, String)| (pair.0@, pair.1@))
}

impl View for BrokerRequest {
    type V = RequestModel;

    open spec fn view(&self) -> RequestModel {
        RequestModel {
            path: self.path@,
            query: match self.query {
                Some(pairs) => Some(pair_texts(pairs@)),
                None => None,
            },
            body: match self.body {
                Some(body) => Some(body@),
                None => None,
            },
        }
    }
}

/// A request that posts a body.
pub open spec fn posted(path: Seq<char>, fields: Seq<(Seq<char>, JsonModel)>) -> RequestModel {
    RequestModel { path, query: None, body: Some(JsonModel::Object(fields)) }
}

/// A request that asks for something.
pub open spec fn asked(path: Seq<char>, pairs: Seq<(Seq<char>, Seq<char>)>) -> RequestModel {
    RequestModel { path, query: Some(pairs), body: None }
}

fn post(path: &'static str, body: JsonObject) -> (r: BrokerRequest)
    ensures
        r@ == posted(path@, body@),
{
    BrokerRequest { path, query: None, body: Some(body.done()) }
}

/// The pairs of a query under construction.
struct Pairs {
    pairs: Vec<(String, String)>,
}

impl Pairs {
    spec fn texts(&self) -> Seq<(Seq<char>, Seq<char>)> {
        pair_texts(self.pairs@)
    }

    fn new() -> (r: Pairs)
        ensures
            r.texts() == Seq::<(Seq<char>, Seq<char>)>::empty(),
    {
        let out = Pairs { pairs: Vec::new() };
        proof {
            assert(out.texts() =~= Seq::<(Seq<char>, Seq<char>)>::empty());
        }
        out
    }

    fn with(self, key: &str, value: &str) -> (r: Pairs)
        ensures
            r.texts() == self.texts().push((key@, value@)),
    {
        let mut pairs = self.pairs;
        pairs.push((key.to_owned(), value.to_owned()));
        let out = Pairs { pairs };
        proof {
            assert(out.texts() =~= self.texts().push((key@, value@)));
        }
        out
    }

    fn with_optional(self, key: &str, value: &Option<String>) -> (r: Pairs)
        ensures
            r.texts() == with_pair(self.texts(), key@, optional_text(*value)),
    {
        match value {
            Some(value) => self.with(key, value),
            None => self,
        }
    }

    fn ask(self, path: &'static str) -> (r: BrokerRequest)
        ensures
            r@ == asked(path@, self.texts()),
    {
        BrokerRequest { path, query: Some(self.pairs), body: None }
    }
}

/// The pairs with one more, if there is a value for it.
pub open spec fn with_pair(
    pairs: Seq<(Seq<char>, Seq<char>)>,
    key: Seq<char>,
    value: Option<Seq<char>>,
) -> Seq<(Seq<char>, Seq<char>)> {
    match value {
        Some(value) => pairs.push((key, value)),
        None => pairs,
    }
}

/// The members with one more, if there is a text for it.
pub open spec fn with_text(
    fields: Seq<(Seq<char>, JsonModel)>,
    key: Seq<char>,
    value: Option<Seq<char>>,
) -> Seq<(Seq<char>, JsonModel)> {
    match value {
        Some(text) => fields.push((key, JsonModel::Text(text))),
        None => fields,
    }
}

fn add_text(object: JsonObject, key: &str, value: Option<&str>) -> (r: JsonObject)
    ensures
        r@ == with_text(object@, key@, optional_str(value)),
{
    match value {
        Some(text) => object.with(key, Json::text(text)),
        None => object,
    }
}

fn borrowed(value: &Option<String>) -> (r: Option<&str>)
    ensures
        optional_str(r) == optional_text(*value),
{
    match value {
        Some(text) => Some(text.as_str()),
        None => None,
    }
}

/// The place of a message: the conversation and the message that starts the thread.
pub open spec fn place_fields(
    platform: Seq<char>,
    session_key: Seq<char>,
    conversation_id: Seq<char>,
    root_message_id: Seq<char>,
) -> Seq<(Seq<char>, JsonModel)> {
    no_fields().push(("platform"@, JsonModel::Text(platform))).push(
        ("sessionKey"@, JsonModel::Text(session_key)),
    ).push(("conversationId"@, JsonModel::Text(conversation_id))).push(
        ("rootMessageId"@, JsonModel::Text(root_message_id)),
    )
}

fn place_object(
    platform: &str,
    session_key: &str,
    conversation_id: &str,
    root_message_id: &str,
) -> (r:
    JsonObject)
    ensures
        r@ == place_fields(platform@, session_key@, conversation_id@, root_message_id@),
{
    JsonObject::new().with("platform", Json::text(platform)).with(
        "sessionKey",
        Json::text(session_key),
    ).with("conversationId", Json::text(conversation_id)).with(
        "rootMessageId",
        Json::text(root_message_id),
    )
}

/// The query for a part of a history.
pub open spec fn history_query(
    platform: Seq<char>,
    session_key: Seq<char>,
    conversation_id: Seq<char>,
    root_message_id: Seq<char>,
    page: HistoryPage,
) -> Seq<(Seq<char>, Seq<char>)> {
    let start = Seq::empty().push(("platform"@, platform)).push(("session_key"@, session_key)).push(
        ("conversation_id"@, conversation_id),
    ).push(("root_message_id"@, root_message_id));
    let limit = match page.limit {
        Some(limit) => Some(decimal(limit as nat)),
        None => None,
    };
    with_pair(
        with_pair(
            with_pair(
                with_pair(start, "before_message_id"@, optional_text(page.before_message_id)),
                "before_cursor"@,
                optional_text(page.before_cursor),
            ),
            "limit"@,
            limit,
        ),
        "format"@,
        optional_text(page.format),
    )
}

fn history_request(
    platform: &str,
    session_key: &str,
    conversation_id: &str,
    root_message_id: &str,
    page: &HistoryPage,
) -> (r: BrokerRequest)
    ensures
        r@ == asked(
            "/chat/thread-history"@,
            history_query(platform@, session_key@, conversation_id@, root_message_id@, *page),
        ),
{
    let pairs = Pairs::new().with("platform", platform).with("session_key", session_key).with(
        "conversation_id",
        conversation_id,
    ).with("root_message_id", root_message_id).with_optional(
        "before_message_id",
        &page.before_message_id,
    ).with_optional("before_cursor", &page.before_cursor);
    let pairs = match page.limit {
        Some(limit) => pairs.with("limit", &decimal_text(limit)),
        None => pairs,
    };
    pairs.with_optional("format", &page.format).ask("/chat/thread-history")
}

/// What stops a command before the binding of the session is looked up: a message that stops the
/// session says why, and files are named by absolute paths.
pub open spec fn early_error(cli: Cli) -> Option<Seq<char>> {
    match cli {
        Cli::Chat(ChatCmd::PostMessage { kind, reason, .. }) => if kind.stops() && reason is None {
            Some("missing required argument --reason"@)
        } else {
            None
        },
        Cli::Chat(ChatCmd::PostFile { file_path, .. }) => if !is_absolute(file_path@) {
            Some("--file-path must be an absolute path"@)
        } else {
            None
        },
        _ => None,
    }
}

pub fn require_reason_for_stop(kind: MessageKind, reason: Option<&str>) -> (r: Result<(), String>)
    ensures
        match r {
            Ok(_) => !(kind.stops() && reason is None),
            Err(error) => kind.stops() && reason is None && error@
                == "missing required argument --reason"@,
        },
{
    if (kind == MessageKind::Block || kind == MessageKind::Wait) && reason.is_none() {
        return Err("missing required argument --reason".to_owned());
    }
    Ok(())
}

/// Whether a command depends on the binding of the session, or what stops it before that.
pub fn needs_context(cli: &Cli) -> (r: Result<bool, String>)
    ensures
        match r {
            Ok(needed) => early_error(*cli) is None && needed == !(cli is Integration),
            Err(error) => early_error(*cli) == Some(error@),
        },
{
    match cli {
        Cli::Chat(ChatCmd::PostMessage { kind, reason, .. }) => {
            match require_reason_for_stop(*kind, borrowed(reason)) {
                Ok(_) => Ok(true),
                Err(error) => Err(error),
            }
        },
        Cli::Chat(ChatCmd::PostFile { file_path, .. }) => {
            if path_is_absolute(file_path) {
                Ok(true)
            } else {
                Err("--file-path must be an absolute path".to_owned())
            }
        },
        Cli::Integration(_) => Ok(false),
        _ => Ok(true),
    }
}

/// The place of the chat that the session is bound to, or why there is none.
pub open spec fn bound_place(context: ContextModel) -> Result<(Seq<char>, Seq<char>), Seq<char>> {
    match (context.conversation_id, context.root_message_id) {
        (Some(conversation_id), Some(root_message_id)) => Ok((conversation_id, root_message_id)),
        _ => Err("the current proactive session requires explicit IM destination coordinates"@),
    }
}

/// What two texts or the reason why there are none are.
pub open spec fn place_result(value: Result<(String, String), String>) -> Result<
    (Seq<char>, Seq<char>),
    Seq<char>,
> {
    match value {
        Ok(place) => Ok((place.0@, place.1@)),
        Err(error) => Err(error@),
    }
}

pub fn resolve_chat_coordinates(context: &SessionContext) -> (r: Result<(String, String), String>)
    ensures
        place_result(r) == bound_place(context@),
{
    match (&context.conversation_id, &context.root_message_id) {
        (Some(conversation_id), Some(root_message_id)) => Ok(
            (conversation_id.clone(), root_message_id.clone()),
        ),
        _ => Err(
            "the current proactive session requires explicit IM destination coordinates".to_owned(),
        ),
    }
}

/// The place that a command names, or why it names none.
pub open spec fn explicit_place(channel_id: Seq<char>, thread_ts: Seq<char>) -> Result<
    (Seq<char>, Seq<char>),
    Seq<char>,
> {
    if is_blank(channel_id) {
        Err("--channel-id must not be empty"@)
    } else if is_blank(thread_ts) {
        Err("--thread-ts must not be empty"@)
    } else {
        Ok((channel_id, thread_ts))
    }
}

pub fn explicit_slack_coordinates(channel_id: &str, thread_ts: &str) -> (r: Result<
    (String, String),
    String,
>)
    ensures
        place_result(r) == explicit_place(channel_id@, thread_ts@),
{
    if trim(channel_id).as_str().is_empty() {
        return Err("--channel-id must not be empty".to_owned());
    }
    if trim(thread_ts).as_str().is_empty() {
        return Err("--thread-ts must not be empty".to_owned());
    }
    Ok((channel_id.to_owned(), thread_ts.to_owned()))
}

/// What a request or the reason why there is none is.
pub open spec fn request_result(value: Result<BrokerRequest, String>) -> Result<
    RequestModel,
    Seq<char>,
> {
    match value {
        Ok(request) => Ok(request@),
        Err(error) => Err(error@),
    }
}

/// The request of a command on the chat that the session is bound to.
pub open spec fn chat_request(cmd: ChatCmd, context: ContextModel) -> Result<
    RequestModel,
    Seq<char>,
> {
    match bound_place(context) {
        Err(error) => Err(error),
        Ok((conversation_id, root_message_id)) => {
            let place = place_fields(
                context.platform,
                context.session_key,
                conversation_id,
                root_message_id,
            );
            match cmd {
                ChatCmd::PostMessage { text, kind, reason } => Ok(
                    posted(
                        "/chat/post-message"@,
                        with_text(
                            place.push(("text"@, JsonModel::Text(text@))).push(
                                ("kind"@, JsonModel::Text(kind.name())),
                            ),
                            "reason"@,
                            optional_text(reason),
                        ),
                    ),
                ),
                ChatCmd::PostFile { file_path, initial_comment } => Ok(
                    posted(
                        "/chat/post-file"@,
                        with_text(
                            place.push(("filePath"@, JsonModel::Text(file_path@))),
                            "initialComment"@,
                            optional_text(initial_comment),
                        ),
                    ),
                ),
                ChatCmd::ThreadHistory { page } => Ok(
                    asked(
                        "/chat/thread-history"@,
                        history_query(
                            context.platform,
                            context.session_key,
                            conversation_id,
                            root_message_id,
                            page,
                        ),
                    ),
                ),
            }
        },
    }
}

fn run_chat(cmd: &ChatCmd, context: &SessionContext) -> (r: Result<BrokerRequest, String>)
    ensures
        request_result(r) == chat_request(*cmd, context@),
{
    let (conversation_id, root_message_id) = match resolve_chat_coordinates(context) {
        Ok(place) => place,
        Err(error) => {
            return Err(error);
        },
    };
    match cmd {
        ChatCmd::PostMessage { text, kind, reason } => {
            let body = place_object(
                &context.platform,
                &context.session_key,
                &conversation_id,
                &root_message_id,
            ).with("text", Json::text(text)).with("kind", Json::text(kind.as_str()));
            Ok(post("/chat/post-message", add_text(body, "reason", borrowed(reason))))
        },
        ChatCmd::PostFile { file_path, initial_comment } => {
            let body = place_object(
                &context.platform,
                &context.session_key,
                &conversation_id,
                &root_message_id,
            ).with("filePath", Json::text(file_path));
            Ok(
                post(
                    "/chat/post-file",
                    add_text(body, "initialComment", borrowed(initial_comment)),
                ),
            )
        },
        ChatCmd::ThreadHistory { page } => Ok(
            history_request(
                &context.platform,
                &context.session_key,
                &conversation_id,
                &root_message_id,
                page,
            ),
        ),
    }
}

/// The request of a command on a place in Slack. The binding of the session says who asks, and
/// never where.
pub open spec fn slack_request(cmd: SlackCmd, context: ContextModel) -> Result<
    RequestModel,
    Seq<char>,
> {
    if context.platform != "slack"@ {
        Err("the current session is not bound to Slack"@)
    } else {
        match cmd {
            SlackCmd::PostMessage { channel_id, thread_ts, text } => match explicit_place(
                channel_id@,
                thread_ts@,
            ) {
                Err(error) => Err(error),
                Ok((conversation_id, root_message_id)) => Ok(
                    posted(
                        "/chat/post-message"@,
                        place_fields(
                            "slack"@,
                            context.session_key,
                            conversation_id,
                            root_message_id,
                        ).push(("text"@, JsonModel::Text(text@))),
                    ),
                ),
            },
            SlackCmd::PostFile { channel_id, thread_ts, file_path, initial_comment } => {
                if !is_absolute(file_path@) {
                    Err("--file-path must be an absolute path"@)
                } else {
                    match explicit_place(channel_id@, thread_ts@) {
                        Err(error) => Err(error),
                        Ok((conversation_id, root_message_id)) => Ok(
                            posted(
                                "/chat/post-file"@,
                                with_text(
                                    place_fields(
                                        "slack"@,
                                        context.session_key,
                                        conversation_id,
                                        root_message_id,
                                    ).push(("filePath"@, JsonModel::Text(file_path@))),
                                    "initialComment"@,
                                    optional_text(initial_comment),
                                ),
                            ),
                        ),
                    }
                }
            },
            SlackCmd::ThreadHistory { channel_id, thread_ts, page } => match explicit_place(
                channel_id@,
                thread_ts@,
            ) {
                Err(error) => Err(error),
                Ok((conversation_id, root_message_id)) => Ok(
                    asked(
                        "/chat/thread-history"@,
                        history_query(
                            context.platform,
                            context.session_key,
                            conversation_id,
                            root_message_id,
                            page,
                        ),
                    ),
                ),
            },
        }
    }
}

fn run_slack(cmd: &SlackCmd, context: &SessionContext) -> (r: Result<BrokerRequest, String>)
    ensures
        request_result(r) == slack_request(*cmd, context@),
{
    if !same(&context.platform, "slack") {
        return Err("the current session is not bound to Slack".to_owned());
    }
    match cmd {
        SlackCmd::PostMessage { channel_id, thread_ts, text } => {
            match explicit_slack_coordinates(channel_id, thread_ts) {
                Err(error) => Err(error),
                Ok((conversation_id, root_message_id)) => Ok(
                    post(
                        "/chat/post-message",
                        place_object(
                            "slack",
                            &context.session_key,
                            &conversation_id,
                            &root_message_id,
                        ).with("text", Json::text(text)),
                    ),
                ),
            }
        },
        SlackCmd::PostFile { channel_id, thread_ts, file_path, initial_comment } => {
            if !path_is_absolute(file_path) {
                return Err("--file-path must be an absolute path".to_owned());
            }
            match explicit_slack_coordinates(channel_id, thread_ts) {
                Err(error) => Err(error),
                Ok((conversation_id, root_message_id)) => {
                    let body = place_object(
                        "slack",
                        &context.session_key,
                        &conversation_id,
                        &root_message_id,
                    ).with("filePath", Json::text(file_path));
                    Ok(
                        post(
                            "/chat/post-file",
                            add_text(body, "initialComment", borrowed(initial_comment)),
                        ),
                    )
                },
            }
        },
        SlackCmd::ThreadHistory { channel_id, thread_ts, page } => {
            match explicit_slack_coordinates(channel_id, thread_ts) {
                Err(error) => Err(error),
                Ok((conversation_id, root_message_id)) => Ok(
                    history_request(
                        &context.platform,
                        &context.session_key,
                        &conversation_id,
                        &root_message_id,
                        page,
                    ),
                ),
            }
        },
    }
}

/// The request that notifies the session, in the name of a job if it comes from one.
pub open spec fn notify_request(
    cmd: NotifyCmd,
    context: ContextModel,
    job_id: Option<Seq<char>>,
) -> Result<RequestModel, Seq<char>> {
    match bound_place(context) {
        Err(error) => Err(error),
        Ok(_) => Ok(
            posted(
                "/notify"@,
                with_text(
                    no_fields().push(("sessionKey"@, JsonModel::Text(context.session_key))).push(
                        ("text"@, JsonModel::Text(cmd.text@)),
                    ),
                    "jobId"@,
                    job_id,
                ),
            ),
        ),
    }
}

fn run_notify(cmd: &NotifyCmd, context: &SessionContext, job_id: Option<&str>) -> (r: Result<
    BrokerRequest,
    String,
>)
    ensures
        request_result(r) == notify_request(*cmd, context@, optional_str(job_id)),
{
    match resolve_chat_coordinates(context) {
        Err(error) => Err(error),
        Ok(_) => {
            let body = JsonObject::new().with("sessionKey", Json::text(&context.session_key)).with(
                "text",
                Json::text(&cmd.text),
            );
            Ok(post("/notify", add_text(body, "jobId", job_id)))
        },
    }
}

/// The request that registers a job.
pub open spec fn job_request(
    cmd: JobCmd,
    context: ContextModel,
) -> Result<RequestModel, Seq<char>> {
    match bound_place(context) {
        Err(error) => Err(error),
        Ok(_) => match cmd {
            JobCmd::Register { kind, script, cwd, restart_on_boot } => {
                let fields = with_text(
                    no_fields().push(("sessionKey"@, JsonModel::Text(context.session_key))).push(
                        ("kind"@, JsonModel::Text(kind@)),
                    ).push(("script"@, JsonModel::Text(script@))),
                    "cwd"@,
                    optional_text(cwd),
                );
                Ok(
                    posted(
                        "/jobs/register"@,
                        match restart_on_boot {
                            Some(restart) => fields.push(
                                ("restart_on_boot"@, JsonModel::Bool(restart@ == "true"@)),
                            ),
                            None => fields,
                        },
                    ),
                )
            },
        },
    }
}

fn run_job(cmd: &JobCmd, context: &SessionContext) -> (r: Result<BrokerRequest, String>)
    ensures
        request_result(r) == job_request(*cmd, context@),
{
    match resolve_chat_coordinates(context) {
        Err(error) => Err(error),
        Ok(_) => match cmd {
            JobCmd::Register { kind, script, cwd, restart_on_boot } => {
                let body = JsonObject::new().with(
                    "sessionKey",
                    Json::text(&context.session_key),
                ).with("kind", Json::text(kind)).with("script", Json::text(script));
                let body = add_text(body, "cwd", borrowed(cwd));
                let body = match restart_on_boot {
                    Some(restart) => body.with(
                        "restart_on_boot",
                        Json::Bool(same(restart, "true")),
                    ),
                    None => body,
                };
                Ok(post("/jobs/register", body))
            },
        },
    }
}

/// The arguments of a call: an object, the empty one where nothing is given.
pub open spec fn arguments_of(given: bool, parsed: Option<JsonModel>) -> Result<
    JsonModel,
    Seq<char>,
> {
    if !given {
        Ok(JsonModel::Object(no_fields()))
    } else {
        match parsed {
            None => Err("invalid --json"@),
            Some(value) => if value is Object {
                Ok(value)
            } else {
                Err("--json must be a JSON object"@)
            },
        }
    }
}

/// What a value or the reason why there is none is.
pub open spec fn json_result(value: Result<Json, String>) -> Result<JsonModel, Seq<char>> {
    match value {
        Ok(value) => Ok(value@),
        Err(error) => Err(error@),
    }
}

/// The arguments of a call from what was read of them.
pub fn check_arguments(given: bool, parsed: Option<Json>) -> (r: Result<Json, String>)
    ensures
        json_result(r) == arguments_of(
            given,
            match parsed {
                Some(value) => Some(value@),
                None => None,
            },
        ),
{
    if !given {
        return Ok(JsonObject::new().done());
    }
    match parsed {
        None => Err("invalid --json".to_owned()),
        Some(value) => match value {
            Json::Object(_) => Ok(value),
            _ => Err("--json must be a JSON object".to_owned()),
        },
    }
}

/// The value of a text, if there is one.
pub open spec fn parsed_text(text: Option<Seq<char>>) -> Option<JsonModel> {
    match text {
        Some(text) => json_value(text),
        None => None,
    }
}

pub fn parse_arguments_object(value: Option<&str>) -> (r: Result<Json, String>)
    ensures
        json_result(r) == arguments_of(value is Some, parsed_text(optional_str(value))),
{
    match value {
        Some(text) => check_arguments(true, parse_json(text)),
        None => check_arguments(false, None),
    }
}

/// The request of a command on an integration.
pub open spec fn integration_request(cmd: IntegrationCmd) -> Result<RequestModel, Seq<char>> {
    match cmd {
        IntegrationCmd::ListTools { server } => Ok(
            asked("/integrations/mcp-tools"@, Seq::empty().push(("server"@, server@))),
        ),
        IntegrationCmd::Call { server, name, json } => match arguments_of(
            json is Some,
            parsed_text(optional_text(json)),
        ) {
            Err(error) => Err(error),
            Ok(arguments) => Ok(
                posted(
                    "/integrations/mcp-call"@,
                    no_fields().push(("server"@, JsonModel::Text(server@))).push(
                        ("name"@, JsonModel::Text(name@)),
                    ).push(("arguments"@, arguments)),
                ),
            ),
        },
    }
}

fn run_integration(cmd: &IntegrationCmd) -> (r: Result<BrokerRequest, String>)
    ensures
        request_result(r) == integration_request(*cmd),
{
    match cmd {
        IntegrationCmd::ListTools { server } => Ok(
            Pairs::new().with("server", server).ask("/integrations/mcp-tools"),
        ),
        IntegrationCmd::Call { server, name, json } => {
            match parse_arguments_object(borrowed(json)) {
                Err(error) => Err(error),
                Ok(arguments) => Ok(
                    post(
                        "/integrations/mcp-call",
                        JsonObject::new().with("server", Json::text(server)).with(
                            "name",
                            Json::text(name),
                        ).with("arguments", arguments),
                    ),
                ),
            }
        },
    }
}

/// What a lookup of the binding came to.
pub open spec fn context_result(value: Result<&SessionContext, &str>) -> Result<
    ContextModel,
    Seq<char>,
> {
    match value {
        Ok(context) => Ok(context@),
        Err(error) => Err(error@),
    }
}

/// The request that a command makes, or why it makes none.
pub open spec fn request_of(
    cli: Cli,
    context: Result<ContextModel, Seq<char>>,
    job_id: Option<Seq<char>>,
) -> Result<RequestModel, Seq<char>> {
    match early_error(cli) {
        Some(error) => Err(error),
        None => match cli {
            Cli::Integration(cmd) => integration_request(cmd),
            _ => match context {
                Err(error) => Err(error),
                Ok(context) => match cli {
                    Cli::Chat(cmd) => chat_request(cmd, context),
                    Cli::Slack(cmd) => slack_request(cmd, context),
                    Cli::Notify(cmd) => notify_request(cmd, context, job_id),
                    Cli::Job(cmd) => job_request(cmd, context),
                    Cli::Integration(cmd) => integration_request(cmd),
                },
            },
        },
    }
}

/// The request that a command makes. `context` is what the lookup of the binding came to; commands
/// that do not depend on it do not look at it.
pub fn run(cli: &Cli, context: Result<&SessionContext, &str>, job_id: Option<&str>) -> (r: Result<
    BrokerRequest,
    String,
>)
    ensures
        request_result(r) == request_of(*cli, context_result(context), optional_str(job_id)),
{
    match needs_context(cli) {
        Err(error) => {
            return Err(error);
        },
        Ok(_) => {},
    }
    if let Cli::Integration(cmd) = cli {
        return run_integration(cmd);
    }
    let context = match context {
        Ok(context) => context,
        Err(error) => {
            return Err(error.to_owned());
        },
    };
    match cli {
        Cli::Chat(cmd) => run_chat(cmd, context),
        Cli::Slack(cmd) => run_slack(cmd, context),
        Cli::Notify(cmd) => run_notify(cmd, context, job_id),
        Cli::Job(cmd) => run_job(cmd, context),
        Cli::Integration(cmd) => run_integration(cmd),
    }
}

/// A variable of the environment without the white space around it, if anything is left.
pub fn read_env(value: Option<&str>) -> (r: Option<String>)
    ensures
        optional_text(r) == filled(optional_str(value)),
{
    nonempty(value)
}

/// A variable of the environment that must be there.
pub fn require_env(key: &str, value: Option<&str>) -> (r: Result<String, String>)
    ensures
        match (r, filled(optional_str(value))) {
            (Ok(value), Some(text)) => value@ == text,
            (Err(error), None) => error@ == "missing environment variable "@ + key@,
            _ => false,
        },
{
    match read_env(value) {
        Some(value) => Ok(value),
        None => Err(join2("missing environment variable ", key)),
    }
}

/// The environment of a command, as far as it names the session.
pub struct CallEnvironment {
    pub session_key: Option<String>,
    pub platform: Option<String>,
    pub connection_id: Option<String>,
    pub conversation_id: Option<String>,
    pub root_message_id: Option<String>,
    pub agent_session_id: Option<String>,
}

/// Where the binding of the session comes from.
pub enum ContextSource {
    Known(SessionContext),
    /// To be looked up by the session of the agent.
    AgentSession(String),
    /// To be looked up by the directory that the command runs in.
    Directory,
}

/// What the source of a binding is.
pub enum SourceModel {
    Known(ContextModel),
    AgentSession(Seq<char>),
    Directory,
}

impl View for ContextSource {
    type V = SourceModel;

    open spec fn view(&self) -> SourceModel {
        match self {
            ContextSource::Known(context) => SourceModel::Known(context@),
            ContextSource::AgentSession(id) => SourceModel::AgentSession(id@),
            ContextSource::Directory => SourceModel::Directory,
        }
    }
}

/// Where the binding of the session comes from: the environment, if it names the session and the
/// platform; else it is looked up, by the session of the agent where that is known.
pub open spec fn source_of(env: CallEnvironment) -> SourceModel {
    match (filled(optional_text(env.session_key)), filled(optional_text(env.platform))) {
        (Some(session_key), Some(platform)) => SourceModel::Known(
            ContextModel {
                platform,
                connection_id: match filled(optional_text(env.connection_id)) {
                    Some(id) => id,
                    None => Seq::empty(),
                },
                session_key,
                conversation_id: filled(optional_text(env.conversation_id)),
                root_message_id: filled(optional_text(env.root_message_id)),
            },
        ),
        _ => match filled(optional_text(env.agent_session_id)) {
            Some(id) => SourceModel::AgentSession(id),
            None => SourceModel::Directory,
        },
    }
}

/// Where the binding of the session comes from.
pub fn resolve_session_context(env: &CallEnvironment) -> (r: ContextSource)
    ensures
        r@ == source_of(*env),
{
    let session_key = read_env(borrowed(&env.session_key));
    let platform = read_env(borrowed(&env.platform));
    match (session_key, platform) {
        (Some(session_key), Some(platform)) => ContextSource::Known(
            SessionContext {
                platform,
                connection_id: match read_env(borrowed(&env.connection_id)) {
                    Some(id) => id,
                    None => String::new(),
                },
                session_key,
                conversation_id: read_env(borrowed(&env.conversation_id)),
                root_message_id: read_env(borrowed(&env.root_message_id)),
            },
        ),
        _ => match read_env(borrowed(&env.agent_session_id)) {
            Some(id) => ContextSource::AgentSession(id),
            None => ContextSource::Directory,
        },
    }
}

/// The request that looks a binding up by the session of the agent.
pub fn lookup_session_context_by_agent_session(agent_session_id: &str) -> (r: BrokerRequest)
    ensures
        r@ == asked("/cli/context"@, Seq::empty().push(("threadId"@, agent_session_id@))),
{
    Pairs::new().with("threadId", agent_session_id).ask("/cli/context")
}

/// The request that looks a binding up by a directory.
pub fn lookup_session_context(cwd: &str) -> (r: BrokerRequest)
    ensures
        r@ == asked("/cli/context"@, Seq::empty().push(("cwd"@, cwd@))),
{
    Pairs::new().with("cwd", cwd).ask("/cli/context")
}

/// The first of two texts that is there.
pub open spec fn or_else(first: Option<Seq<char>>, second: Option<Seq<char>>) -> Option<Seq<char>> {
    if first is Some {
        first
    } else {
        second
    }
}

fn either(first: Option<String>, second: Option<String>) -> (r: Option<String>)
    ensures
        optional_text(r) == or_else(optional_text(first), optional_text(second)),
{
    match first {
        Some(text) => Some(text),
        None => second,
    }
}

/// A text of an object that is not blank, without the white space around it.
pub open spec fn text_in(value: JsonModel, key: Seq<char>) -> Option<Seq<char>> {
    filled(value.text_at(key))
}

fn read_json_string(value: &Json, key: &str) -> (r: Option<String>)
    ensures
        optional_text(r) == text_in(value@, key@),
{
    nonempty(value.str_at(key))
}

/// The binding in an answer, or why there is none. Its members go by more than one name.
pub open spec fn context_of(status: u16, text: Seq<char>, payload: Option<JsonModel>) -> Result<
    ContextModel,
    Seq<char>,
> {
    if !is_success(status) {
        Err("cli context lookup failed ("@ + decimal(status as nat) + "): "@ + text)
    } else {
        match payload {
            None => Err("cli context response is not JSON"@),
            Some(payload) => if !(payload is Object) {
                Err("cli context response is not an object"@)
            } else {
                match (
                    text_in(payload, "platform"@),
                    or_else(
                        text_in(payload, "connectionId"@),
                        text_in(payload, "connection_id"@),
                    ),
                    or_else(text_in(payload, "sessionKey"@), text_in(payload, "session_key"@)),
                ) {
                    (None, _, _) => Err("cli context is missing platform"@),
                    (_, None, _) => Err("cli context is missing connection ID"@),
                    (_, _, None) => Err("cli context is missing session key"@),
                    (Some(platform), Some(connection_id), Some(session_key)) => Ok(
                        ContextModel {
                            platform,
                            connection_id,
                            session_key,
                            conversation_id: or_else(
                                text_in(payload, "conversationId"@),
                                or_else(
                                    text_in(payload, "conversation_id"@),
                                    text_in(payload, "channelId"@),
                                ),
                            ),
                            root_message_id: or_else(
                                text_in(payload, "rootMessageId"@),
                                or_else(
                                    text_in(payload, "root_message_id"@),
                                    text_in(payload, "rootThreadTs"@),
                                ),
                            ),
                        },
                    ),
                }
            },
        }
    }
}

/// What a binding or the reason why there is none is.
pub open spec fn found_result(value: Result<SessionContext, String>) -> Result<
    ContextModel,
    Seq<char>,
> {
    match value {
        Ok(context) => Ok(context@),
        Err(error) => Err(error@),
    }
}

/// The binding in an answer with content `payload`, if that is JSON.
pub fn context_from_payload(status: u16, text: &str, payload: Option<&Json>) -> (r: Result<
    SessionContext,
    String,
>)
    ensures
        found_result(r) == context_of(status, text@, optional_ref(payload)),
{
    if status < 200 || status >= 300 {
        let mut error = join3(
            "cli context lookup failed (",
            &decimal_text(status as u64),
            "): ",
        );
        error.append(text);
        return Err(error);
    }
    let payload = match payload {
        Some(payload) => payload,
        None => {
            return Err("cli context response is not JSON".to_owned());
        },
    };
    match payload {
        Json::Object(_) => {},
        _ => {
            return Err("cli context response is not an object".to_owned());
        },
    }
    let conversation_id = either(
        read_json_string(payload, "conversationId"),
        either(
            read_json_string(payload, "conversation_id"),
            read_json_string(payload, "channelId"),
        ),
    );
    let root_message_id = either(
        read_json_string(payload, "rootMessageId"),
        either(
            read_json_string(payload, "root_message_id"),
            read_json_string(payload, "rootThreadTs"),
        ),
    );
    let platform = match read_json_string(payload, "platform") {
        Some(platform) => platform,
        None => {
            return Err("cli context is missing platform".to_owned());
        },
    };
    let connection_id = match either(
        read_json_string(payload, "connectionId"),
        read_json_string(payload, "connection_id"),
    ) {
        Some(id) => id,
        None => {
            return Err("cli context is missing connection ID".to_owned());
        },
    };
    let session_key = match either(
        read_json_string(payload, "sessionKey"),
        read_json_string(payload, "session_key"),
    ) {
        Some(key) => key,
        None => {
            return Err("cli context is missing session key".to_owned());
        },
    };
    Ok(SessionContext { platform, connection_id, session_key, conversation_id, root_message_id })
}

/// The binding in an answer of the broker.
pub fn fetch_session_context(status: u16, text: &str) -> (r: Result<SessionContext, String>)
    ensures
        found_result(r) == context_of(status, text@, json_value(text@)),
{
    match parse_json(text) {
        Some(payload) => context_from_payload(status, text, Some(&payload)),
        None => context_from_payload(status, text, None),
    }
}

/// An address as `url::Url::parse` writes it; none where it reports an error.
pub uninterp spec fn url_text(text: Seq<char>) -> Option<Seq<char>>;

/// An address with the pairs of a query, as `url::Url::parse_with_params` writes it; none where it
/// reports an error.
pub uninterp spec fn url_with_query(
    text: Seq<char>,
    pairs: Seq<(Seq<char>, Seq<char>)>,
) -> Option<Seq<char>>;

/// How many bytes the pairs of a query take at most in an address: a byte takes three where it is
/// escaped, and the mark before the query, that between two pairs and that in each take one.
pub open spec fn query_bytes(pairs: Seq<(Seq<char>, Seq<char>)>) -> nat
    decreases pairs.len(),
{
    if pairs.len() == 0 {
        1
    } else {
        query_bytes(pairs.drop_last()) + 3 * byte_len(pairs.last().0) + 3 * byte_len(
            pairs.last().1,
        ) + 2
    }
}

/// Whether a query of `pairs` can be put into the address `url`. Where the query starts is kept in
/// 32 bits, and so is where a fragment starts, which stands behind the query.
pub open spec fn has_room(url: Seq<char>, pairs: Seq<(Seq<char>, Seq<char>)>) -> bool {
    &&& byte_len(url) <= u32::MAX
    &&& has_part(url, "#"@) ==> byte_len(url) + query_bytes(pairs) <= u32::MAX
}

proof fn lemma_query_bytes(pairs: Seq<(Seq<char>, Seq<char>)>, count: int)
    requires
        0 <= count <= pairs.len(),
    ensures
        query_bytes(pairs.take(count)) <= query_bytes(pairs),
    decreases pairs.len(),
{
    if count < pairs.len() {
        lemma_query_bytes(pairs.drop_last(), count);
        assert(pairs.drop_last().take(count) =~= pairs.take(count));
    } else {
        assert(pairs.take(count) =~= pairs);
    }
}

/// How many bytes the pairs of a query take at most in an address, unless they are more than
/// `limit`.
fn query_size(pairs: &Vec<(String, String)>, limit: u32) -> (r: Option<u32>)
    ensures
        match r {
            Some(size) => size == query_bytes(pair_texts(pairs@)) && size <= limit,
            None => query_bytes(pair_texts(pairs@)) > limit,
        },
{
    let ghost all = pair_texts(pairs@);
    let most: u64 = limit as u64;
    let mut total: u64 = 1;
    let mut i: usize = 0;
    proof {
        assert(all.take(0) =~= Seq::<(Seq<char>, Seq<char>)>::empty());
        lemma_query_bytes(all, 0);
    }
    if most < 1 {
        return None;
    }
    while i < pairs.len()
        invariant
            i <= pairs.len(),
            all == pair_texts(pairs@),
            most == limit,
            total == query_bytes(all.take(i as int)),
            total <= most,
        decreases pairs.len() - i,
    {
        let key: u64 = byte_length(&pairs[i].0) as u64;
        let value: u64 = byte_length(&pairs[i].1) as u64;
        proof {
            assert(all[i as int] == (pairs@[i as int].0@, pairs@[i as int].1@));
            assert(all.take(i + 1).drop_last() =~= all.take(i as int));
            assert(all.take(i + 1).last() == all[i as int]);
            lemma_query_bytes(all, i + 1);
        }
        if key > most || value > most {
            return None;
        }
        total = total + 3 * key + 3 * value + 2;
        if total > most {
            return None;
        }
        i = i + 1;
    }
    proof {
        assert(all.take(all.len() as int) =~= all);
    }
    Some(total as u32)
}

/// Whether a query of `pairs` can be put into the address `url`.
fn room_for(url: &str, pairs: &Vec<(String, String)>) -> (r: bool)
    ensures
        r == has_room(url@, pair_texts(pairs@)),
{
    let length: u64 = byte_length(url) as u64;
    if length > u32::MAX as u64 {
        return false;
    }
    if !contains(url, "#") {
        return true;
    }
    query_size(pairs, u32::MAX - length as u32).is_some()
}

/// `reqwest::Url::parse`: the address in its standard form. One that is too long is refused like any
/// other that cannot be read.
#[verifier::external_body]
fn parse_url(text: &str) -> (r: Option<String>)
    ensures
        optional_text(r) == url_text(text@),
{
    reqwest::Url::parse(text).ok().map(String::from)
}

/// `reqwest::Url::parse_with_params`: the address in its standard form, the pairs behind what it
/// asks already. Where the address has no room for the pairs the crate panics.
#[verifier::external_body]
fn parse_url_with_params(text: &str, pairs: &Vec<(String, String)>) -> (r: Option<String>)
    requires
        url_text(text@) matches Some(url) ==> has_room(url, pair_texts(pairs@)),
    ensures
        optional_text(r) == url_with_query(text@, pair_texts(pairs@)),
{
    reqwest::Url::parse_with_params(text, pairs).ok().map(String::from)
}

/// The pairs that say something.
pub open spec fn told(pairs: Seq<(Seq<char>, Seq<char>)>) -> Seq<(Seq<char>, Seq<char>)>
    decreases pairs.len(),
{
    if pairs.len() == 0 {
        Seq::empty()
    } else if pairs.last().1.len() == 0 {
        told(pairs.drop_last())
    } else {
        told(pairs.drop_last()).push(pairs.last())
    }
}

fn told_pairs(pairs: &Vec<(String, String)>) -> (r: Vec<(String, String)>)
    ensures
        pair_texts(r@) == told(pair_texts(pairs@)),
{
    let mut out = Pairs::new();
    let mut i: usize = 0;
    let ghost all = pair_texts(pairs@);
    proof {
        assert(all.take(0) =~= Seq::<(Seq<char>, Seq<char>)>::empty());
    }
    while i < pairs.len()
        invariant
            i <= pairs.len(),
            all == pair_texts(pairs@),
            out.texts() == told(all.take(i as int)),
        decreases pairs.len() - i,
    {
        proof {
            assert(all.take(i + 1).drop_last() =~= all.take(i as int));
            assert(all[i as int] == (pairs@[i as int].0@, pairs@[i as int].1@));
        }
        if !pairs[i].1.as_str().is_empty() {
            out = out.with(&pairs[i].0, &pairs[i].1);
        }
        i = i + 1;
    }
    proof {
        assert(all.take(all.len() as int) =~= all);
    }
    out.pairs
}

/// The address that a request goes to.
pub open spec fn address_of(base: Seq<char>, request: RequestModel) -> Option<Seq<char>> {
    let text = without_trailing(base, '/') + request.path;
    match request.query {
        Some(pairs) => url_with_query(text, told(pairs)),
        None => url_text(text),
    }
}

/// Whether the address that a request goes to can hold its query.
pub open spec fn query_has_room(base: Option<Seq<char>>, request: RequestModel) -> bool {
    match (filled(base), request.query) {
        (Some(base), Some(pairs)) => match url_text(without_trailing(base, '/') + request.path) {
            Some(url) => has_room(url, told(pairs)),
            None => true,
        },
        _ => true,
    }
}

/// The address that a request goes to, with the broker at `base`.
pub open spec fn broker_address_of(base: Option<Seq<char>>, request: RequestModel) -> Result<
    Seq<char>,
    Seq<char>,
> {
    match filled(base) {
        None => Err("missing environment variable BROKER_API_BASE"@),
        Some(base) => match address_of(base, request) {
            Some(address) => Ok(address),
            None => Err("BROKER_API_BASE"@),
        },
    }
}

/// The address that a request goes to, with the broker at `base`.
pub fn broker_url(base: Option<&str>, request: &BrokerRequest) -> (r: Result<String, String>)
    requires
        query_has_room(optional_str(base), request@),
    ensures
        text_result(r) == broker_address_of(optional_str(base), request@),
{
    let broker = match read_env(base) {
        Some(broker) => broker,
        None => {
            return Err("missing environment variable BROKER_API_BASE".to_owned());
        },
    };
    let text = join2(&strip_trailing(&broker, '/'), request.path);
    let address = match &request.query {
        Some(pairs) => {
            let pairs_told = told_pairs(pairs);
            parse_url_with_params(&text, &pairs_told)
        },
        None => parse_url(&text),
    };
    match address {
        Some(address) => Ok(address),
        None => Err("BROKER_API_BASE".to_owned()),
    }
}

/// The address that a request goes to, with the broker at `base`; none where the address cannot
/// hold the query.
pub fn broker_address(base: Option<&str>, request: &BrokerRequest) -> (r: Option<
    Result<String, String>,
>)
    ensures
        match r {
            Some(address) => query_has_room(optional_str(base), request@) && text_result(address)
                == broker_address_of(optional_str(base), request@),
            None => !query_has_room(optional_str(base), request@),
        },
{
    match (read_env(base), &request.query) {
        (Some(broker), Some(pairs)) => {
            match parse_url(&join2(&strip_trailing(&broker, '/'), request.path)) {
                Some(url) => {
                    if !room_for(&url, &told_pairs(pairs)) {
                        return None;
                    }
                },
                None => {},
            }
        },
        _ => {},
    }
    Some(broker_url(base, request))
}

/// A text as a whole line or whole lines.
pub open spec fn as_lines(text: Seq<char>) -> Seq<char> {
    if text.len() > 0 && text.last() == '\n' {
        text
    } else {
        text.push('\n')
    }
}

/// A text as a whole line or whole lines.
pub fn whole_lines(text: &str) -> (r: String)
    ensures
        r@ == as_lines(text@),
{
    let mut out = text.to_owned();
    proof {
        reveal_strlit("\n");
        if text@.len() > 0 {
            let last = text@.subrange(text@.len() - 1, text@.len() as int);
            assert(last[0] == text@.last());
            if text@.last() == '\n' {
                assert(last =~= "\n"@);
            }
        }
    }
    if !ends_with(text, "\n") {
        out.push('\n');
    }
    out
}

/// What is printed of an answer: all of it, unless it is blank.
pub fn write_stdout(text: &str) -> (r: Option<String>)
    ensures
        optional_text(r) == if is_blank(text@) {
            None
        } else {
            Some(as_lines(text@))
        },
{
    if trim(text).as_str().is_empty() {
        return None;
    }
    Some(whole_lines(text))
}

/// What is printed of an answer of the broker, or the error that it is.
pub fn request_broker(status: u16, text: &str) -> (r: Result<Option<String>, String>)
    ensures
        match r {
            Ok(printed) => is_success(status) && optional_text(printed) == if is_blank(text@) {
                None
            } else {
                Some(as_lines(text@))
            },
            Err(error) => !is_success(status) && error@ == "broker request failed ("@ + decimal(
                status as nat,
            ) + "): "@ + text@,
        },
{
    if status < 200 || status >= 300 {
        let mut error = join3("broker request failed (", &decimal_text(status as u64), "): ");
        error.append(text);
        return Err(error);
    }
    Ok(write_stdout(text))
}

/// What is missing for the wrapper of `gh`, if anything.
pub fn gh_requirements(broker_api_base: Option<&str>, real_gh_path: Option<&str>) -> (r: Result<
    (),
    String,
>)
    ensures
        match r {
            Ok(_) => filled(optional_str(broker_api_base)) is Some && real_gh_path is Some,
            Err(error) => {
                &&& filled(optional_str(broker_api_base)) is None || real_gh_path is None
                &&& error@
                    == "BROKER_API_BASE and BROKER_REAL_GH_PATH are required for broker gh wrapper."@
            },
        },
{
    if read_env(broker_api_base).is_none() || real_gh_path.is_none() {
        return Err(
            "BROKER_API_BASE and BROKER_REAL_GH_PATH are required for broker gh wrapper.".to_owned(),
        );
    }
    Ok(())
}

/// A file that may be the real `gh`: one in each directory that is searched.
pub struct GhCandidate {
    pub path: String,
    /// Whether the directory is that of the wrapper itself.
    pub is_own: bool,
    pub is_executable: bool,
}

/// Whether a candidate is the real `gh`.
pub open spec fn is_real(candidate: GhCandidate) -> bool {
    !candidate.is_own && candidate.is_executable
}

/// The real `gh`: the first candidate that can be run and is not the wrapper.
pub fn find_real_gh(candidates: &Vec<GhCandidate>) -> (r: Option<usize>)
    ensures
        match r {
            Some(i) => i < candidates@.len() && is_real(candidates@[i as int]) && forall|j: int|
                0 <= j < i ==> !is_real(#[trigger] candidates@[j]),
            None => forall|j: int|
                0 <= j < candidates@.len() ==> !is_real(#[trigger] candidates@[j]),
        },
{
    let mut i: usize = 0;
    while i < candidates.len()
        invariant
            i <= candidates.len(),
            forall|j: int| 0 <= j < i ==> !is_real(#[trigger] candidates@[j]),
        decreases candidates.len() - i,
    {
        if !candidates[i].is_own && candidates[i].is_executable {
            return Some(i);
        }
        i = i + 1;
    }
    None
}

/// The question for a token, from a directory and a command.
pub open spec fn token_question(cwd: Seq<char>, command: Seq<Seq<char>>) -> JsonModel {
    JsonModel::Object(
        no_fields().push(("cwd"@, JsonModel::Text(cwd))).push(
            (
                "command"@,
                JsonModel::Array(command.map_values(|word: Seq<char>| JsonModel::Text(word))),
            ),
        ),
    )
}

/// The question for a token, from a directory and a command.
pub fn github_token_request(cwd: &str, argv: &Vec<String>) -> (r: Json)
    ensures
        r@ == token_question(cwd@, texts(argv@)),
{
    let mut command = JsonArray::new();
    let mut i: usize = 0;
    let ghost words = texts(argv@);
    while i < argv.len()
        invariant
            i <= argv.len(),
            words == texts(argv@),
            command@.len() == i,
            forall|j: int| 0 <= j < i ==> #[trigger] command@[j] == JsonModel::Text(words[j]),
        decreases argv.len() - i,
    {
        command = command.with(Json::text(&argv[i]));
        i = i + 1;
    }
    proof {
        assert(command@ =~= words.map_values(|word: Seq<char>| JsonModel::Text(word)));
    }
    JsonObject::new().with("cwd", Json::text(cwd)).with("command", command.done()).done()
}

/// Why an answer gives no token.
pub open spec fn token_error(status: u16, body: Option<JsonModel>) -> Seq<char> {
    let message = match body {
        Some(body) => or_else(body.text_at("message"@), body.text_at("error"@)),
        None => None,
    };
    match message {
        Some(message) => message.push('\n'),
        None => "GitHub identity resolution failed ("@ + decimal(status as nat) + ").\n"@,
    }
}

/// The token in an answer, or why there is none.
pub open spec fn token_of(status: u16, body: Option<JsonModel>) -> Result<Seq<char>, Seq<char>> {
    match body {
        Some(body) => if !is_success(status) || body.get("ok"@) != Some(JsonModel::Bool(true)) {
            Err(token_error(status, Some(body)))
        } else {
            match filled(body.text_at("token"@)) {
                Some(token) => Ok(token),
                None => Err("GitHub identity resolution did not return a token."@),
            }
        },
        None => Err(token_error(status, None)),
    }
}

fn token_error_message(status: u16, body: Option<&Json>) -> (r: String)
    ensures
        r@ == token_error(status, optional_ref(body)),
{
    if let Some(body) = body {
        if let Some(message) = body.str_at("message") {
            let mut out = message.to_owned();
            out.push('\n');
            return out;
        }
        if let Some(error) = body.str_at("error") {
            let mut out = error.to_owned();
            out.push('\n');
            return out;
        }
    }
    join3("GitHub identity resolution failed (", &decimal_text(status as u64), ").\n")
}

/// The token in an answer with content `body`, if that is JSON.
pub fn token_from_body(status: u16, body: Option<&Json>) -> (r: Result<String, String>)
    ensures
        text_result(r) == token_of(status, optional_ref(body)),
{
    let confirmed = match body {
        Some(body) => match body.get("ok") {
            Some(Json::Bool(ok)) => *ok,
            _ => false,
        },
        None => false,
    };
    if status < 200 || status >= 300 || !confirmed {
        return Err(token_error_message(status, body));
    }
    match body {
        Some(body) => match nonempty(body.str_at("token")) {
            Some(token) => Ok(token),
            None => Err("GitHub identity resolution did not return a token.".to_owned()),
        },
        None => Err(token_error_message(status, body)),
    }
}

/// The token in an answer of the broker.
pub fn resolve_github_token(status: u16, text: &str) -> (r: Result<String, String>)
    ensures
        text_result(r) == token_of(status, json_value(text@)),
{
    match parse_json(text) {
        Some(body) => token_from_body(status, Some(&body)),
        None => token_from_body(status, None),
    }
}

/// A command on Slack goes where it says: two sessions on Slack that send the same one differ in
/// the session that is named and in nothing else.
pub proof fn slack_commands_ignore_the_bound_place(
    cmd: SlackCmd,
    one: ContextModel,
    other: ContextModel,
)
    requires
        one.platform == other.platform,
        one.session_key == other.session_key,
    ensures
        slack_request(cmd, one) == slack_request(cmd, other),
{
}

/// A message that stops the session without saying why is never sent.
pub proof fn stops_are_explained(
    text: String,
    kind: MessageKind,
    context: Result<ContextModel, Seq<char>>,
    job_id: Option<Seq<char>>,
)
    requires
        kind.stops(),
    ensures
        request_of(
            Cli::Chat(ChatCmd::PostMessage { text, kind, reason: None }),
            context,
            job_id,
        ) is Err,
{
}

/// The names of the members of requests differ.
proof fn lemma_member_names()
    ensures
        "platform"@.len() == 8 && "platform"@[0] == 'p',
        "sessionKey"@.len() == 10,
        "conversationId"@.len() == 14 && "conversationId"@[0] == 'c',
        "rootMessageId"@.len() == 13,
        "text"@.len() == 4 && "text"@[0] == 't',
        "kind"@.len() == 4 && "kind"@[0] == 'k',
        "reason"@.len() == 6 && "reason"@[0] == 'r',
        "filePath"@.len() == 8 && "filePath"@[0] == 'f',
        "initialComment"@.len() == 14 && "initialComment"@[0] == 'i',
        "jobId"@.len() == 5,
        "script"@.len() == 6 && "script"@[0] == 's',
        "cwd"@.len() == 3,
        "restart_on_boot"@.len() == 15,
        "server"@.len() == 6 && "server"@[0] == 's',
        "name"@.len() == 4 && "name"@[0] == 'n',
        "arguments"@.len() == 9,
        "command"@.len() == 7,
{
    reveal_strlit("platform");
    reveal_strlit("sessionKey");
    reveal_strlit("conversationId");
    reveal_strlit("rootMessageId");
    reveal_strlit("text");
    reveal_strlit("kind");
    reveal_strlit("reason");
    reveal_strlit("filePath");
    reveal_strlit("initialComment");
    reveal_strlit("jobId");
    reveal_strlit("script");
    reveal_strlit("cwd");
    reveal_strlit("restart_on_boot");
    reveal_strlit("server");
    reveal_strlit("name");
    reveal_strlit("arguments");
    reveal_strlit("command");
}

/// Whether a JSON value holds a text under that name.
pub open spec fn holds(value: JsonModel, key: Seq<char>, text: Seq<char>) -> bool {
    value.get(key) == Some(JsonModel::Text(text))
}

/// Whether a JSON value holds a text under that name where there is one, and nothing where not.
pub open spec fn holds_optional(value: JsonModel, key: Seq<char>, text: Option<String>) -> bool {
    match text {
        Some(text) => holds(value, key, text@),
        None => value.get(key) is None,
    }
}

/// Whether a request posts something for a place in a chat.
pub open spec fn posts_to(
    request: RequestModel,
    path: Seq<char>,
    platform: Seq<char>,
    session_key: Seq<char>,
    conversation_id: Seq<char>,
    root_message_id: Seq<char>,
) -> bool {
    &&& request.path == path
    &&& request.query is None
    &&& request.body matches Some(body) && holds(body, "platform"@, platform) && holds(
        body,
        "sessionKey"@,
        session_key,
    ) && holds(body, "conversationId"@, conversation_id) && holds(
        body,
        "rootMessageId"@,
        root_message_id,
    )
}

proof fn lemma_place_fields(
    platform: Seq<char>,
    session_key: Seq<char>,
    conversation_id: Seq<char>,
    root_message_id: Seq<char>,
)
    ensures
        ({
            let fields = place_fields(platform, session_key, conversation_id, root_message_id);
            &&& member(fields, "platform"@) == Some(JsonModel::Text(platform))
            &&& member(fields, "sessionKey"@) == Some(JsonModel::Text(session_key))
            &&& member(fields, "conversationId"@) == Some(JsonModel::Text(conversation_id))
            &&& member(fields, "rootMessageId"@) == Some(JsonModel::Text(root_message_id))
            &&& forall|key: Seq<char>|
                key != "platform"@ && key != "sessionKey"@ && key != "conversationId"@ && key
                    != "rootMessageId"@ ==> (#[trigger] member(fields, key)) is None
        }),
{
    lemma_member_names();
    let fields = place_fields(platform, session_key, conversation_id, root_message_id);
    assert(fields[0].0 == "platform"@ && fields[1].0 == "sessionKey"@ && fields[2].0
        == "conversationId"@ && fields[3].0 == "rootMessageId"@);
    named_members_are_found(fields);
}

/// A message to the chat that the session is bound to is posted there, with its text, its kind and,
/// if it is given, the reason.
pub proof fn messages_go_to_the_bound_place(
    text: String,
    kind: MessageKind,
    reason: Option<String>,
    context: ContextModel,
    job_id: Option<Seq<char>>,
)
    requires
        context.conversation_id is Some,
        context.root_message_id is Some,
        kind is Block || kind is Wait ==> reason is Some,
    ensures
        request_of(
            Cli::Chat(ChatCmd::PostMessage { text, kind, reason }),
            Ok(context),
            job_id,
        ) matches Ok(request) && {
            &&& posts_to(
                request,
                "/chat/post-message"@,
                context.platform,
                context.session_key,
                context.conversation_id->0,
                context.root_message_id->0,
            )
            &&& holds(request.body->0, "text"@, text@)
            &&& kind is Progress ==> holds(request.body->0, "kind"@, "progress"@)
            &&& kind is Final ==> holds(request.body->0, "kind"@, "final"@)
            &&& kind is Block ==> holds(request.body->0, "kind"@, "block"@)
            &&& kind is Wait ==> holds(request.body->0, "kind"@, "wait"@)
            &&& holds_optional(request.body->0, "reason"@, reason)
        },
{
    lemma_member_names();
    let place = place_fields(
        context.platform,
        context.session_key,
        context.conversation_id->0,
        context.root_message_id->0,
    );
    lemma_place_fields(
        context.platform,
        context.session_key,
        context.conversation_id->0,
        context.root_message_id->0,
    );
    members_behind_are_found(place, "text"@, JsonModel::Text(text@));
    let said = place.push(("text"@, JsonModel::Text(text@)));
    members_behind_are_found(said, "kind"@, JsonModel::Text(kind.name()));
    let marked = said.push(("kind"@, JsonModel::Text(kind.name())));
    if reason is Some {
        members_behind_are_found(marked, "reason"@, JsonModel::Text(reason->0@));
    }
}

/// A file is posted to the chat that the session is bound to, if its path is absolute, with the
/// comment that is given.
pub proof fn files_go_to_the_bound_place(
    file_path: String,
    initial_comment: Option<String>,
    context: ContextModel,
    job_id: Option<Seq<char>>,
)
    requires
        context.conversation_id is Some,
        context.root_message_id is Some,
    ensures
        ({
            let cli = Cli::Chat(ChatCmd::PostFile { file_path, initial_comment });
            &&& file_path@.len() > 0 && file_path@[0] == '/' ==> (request_of(
                cli,
                Ok(context),
                job_id,
            ) matches Ok(request) && {
                &&& posts_to(
                    request,
                    "/chat/post-file"@,
                    context.platform,
                    context.session_key,
                    context.conversation_id->0,
                    context.root_message_id->0,
                )
                &&& holds(request.body->0, "filePath"@, file_path@)
                &&& holds_optional(request.body->0, "initialComment"@, initial_comment)
            })
            &&& file_path@.len() == 0 || file_path@[0] != '/' ==> request_of(
                cli,
                Ok(context),
                job_id,
            ) == Err::<RequestModel, Seq<char>>("--file-path must be an absolute path"@)
        }),
{
    lemma_member_names();
    let place = place_fields(
        context.platform,
        context.session_key,
        context.conversation_id->0,
        context.root_message_id->0,
    );
    lemma_place_fields(
        context.platform,
        context.session_key,
        context.conversation_id->0,
        context.root_message_id->0,
    );
    members_behind_are_found(place, "filePath"@, JsonModel::Text(file_path@));
    let file = place.push(("filePath"@, JsonModel::Text(file_path@)));
    if initial_comment is Some {
        members_behind_are_found(file, "initialComment"@, JsonModel::Text(initial_comment->0@));
    }
}

/// A command on a chat goes nowhere where the session is bound to no conversation, and no command
/// but one on an integration goes anywhere where the binding is not known.
pub proof fn unbound_sessions_send_nothing(
    cmd: ChatCmd,
    cli: Cli,
    context: ContextModel,
    error: Seq<char>,
    job_id: Option<Seq<char>>,
)
    ensures
        context.conversation_id is None || context.root_message_id is None ==> request_of(
            Cli::Chat(cmd),
            Ok(context),
            job_id,
        ) is Err,
        !(cli is Integration) ==> request_of(cli, Err(error), job_id) is Err,
{
}

/// A command on Slack is made by a session of Slack only, and goes to the channel and the thread
/// that it names; both must be named.
pub proof fn slack_commands_go_where_they_say(
    channel_id: String,
    thread_ts: String,
    text: String,
    file_path: String,
    initial_comment: Option<String>,
    context: ContextModel,
)
    ensures
        ({
            let message = slack_request(
                SlackCmd::PostMessage { channel_id, thread_ts, text },
                context,
            );
            let file = slack_request(
                SlackCmd::PostFile { channel_id, thread_ts, file_path, initial_comment },
                context,
            );
            let named = !is_blank(channel_id@) && !is_blank(thread_ts@);
            &&& context.platform != "slack"@ ==> message == Err::<RequestModel, Seq<char>>(
                "the current session is not bound to Slack"@,
            ) && file == Err::<RequestModel, Seq<char>>(
                "the current session is not bound to Slack"@,
            )
            &&& context.platform == "slack"@ && named ==> (message matches Ok(request) && posts_to(
                request,
                "/chat/post-message"@,
                "slack"@,
                context.session_key,
                channel_id@,
                thread_ts@,
            ) && holds(request.body->0, "text"@, text@))
            &&& context.platform == "slack"@ && named && file_path@.len() > 0 && file_path@[0]
                == '/' ==> (file matches Ok(request) && posts_to(
                request,
                "/chat/post-file"@,
                "slack"@,
                context.session_key,
                channel_id@,
                thread_ts@,
            ) && holds(request.body->0, "filePath"@, file_path@) && holds_optional(
                request.body->0,
                "initialComment"@,
                initial_comment,
            ))
            &&& context.platform == "slack"@ && is_blank(channel_id@) ==> message == Err::<
                RequestModel,
                Seq<char>,
            >("--channel-id must not be empty"@)
            &&& context.platform == "slack"@ && !is_blank(channel_id@) && is_blank(thread_ts@)
                ==> message == Err::<RequestModel, Seq<char>>("--thread-ts must not be empty"@)
            &&& file_path@.len() == 0 || file_path@[0] != '/' ==> file is Err
        }),
{
    lemma_member_names();
    let place = place_fields("slack"@, context.session_key, channel_id@, thread_ts@);
    lemma_place_fields("slack"@, context.session_key, channel_id@, thread_ts@);
    members_behind_are_found(place, "text"@, JsonModel::Text(text@));
    members_behind_are_found(place, "filePath"@, JsonModel::Text(file_path@));
    let file = place.push(("filePath"@, JsonModel::Text(file_path@)));
    if initial_comment is Some {
        members_behind_are_found(file, "initialComment"@, JsonModel::Text(initial_comment->0@));
    }
}

/// The value of the last pair of that name.
pub open spec fn value_in(pairs: Seq<(Seq<char>, Seq<char>)>, key: Seq<char>) -> Option<Seq<char>>
    decreases pairs.len(),
{
    if pairs.len() == 0 {
        None
    } else if pairs.last().0 == key {
        Some(pairs.last().1)
    } else {
        value_in(pairs.drop_last(), key)
    }
}

proof fn lemma_with_pair(
    pairs: Seq<(Seq<char>, Seq<char>)>,
    key: Seq<char>,
    value: Option<Seq<char>>,
)
    ensures
        forall|other: Seq<char>| #[trigger]
            value_in(with_pair(pairs, key, value), other) == if other == key && value is Some {
                value
            } else {
                value_in(pairs, other)
            },
{
    if value is Some {
        assert(pairs.push((key, value->0)).drop_last() =~= pairs);
    }
}

/// A part of a history is asked for by the place of the thread, by the session, and by whatever the
/// page says: before which message or cursor, how many, and in which format.
pub proof fn histories_are_asked_for_by_place(
    platform: Seq<char>,
    session_key: Seq<char>,
    conversation_id: Seq<char>,
    root_message_id: Seq<char>,
    page: HistoryPage,
)
    ensures
        ({
            let query = history_query(
                platform,
                session_key,
                conversation_id,
                root_message_id,
                page,
            );
            &&& value_in(query, "platform"@) == Some(platform)
            &&& value_in(query, "session_key"@) == Some(session_key)
            &&& value_in(query, "conversation_id"@) == Some(conversation_id)
            &&& value_in(query, "root_message_id"@) == Some(root_message_id)
            &&& value_in(query, "before_message_id"@) == optional_text(page.before_message_id)
            &&& value_in(query, "before_cursor"@) == optional_text(page.before_cursor)
            &&& value_in(query, "limit"@) == match page.limit {
                Some(limit) => Some(decimal(limit as nat)),
                None => None,
            }
            &&& value_in(query, "format"@) == optional_text(page.format)
        }),
{
    reveal_strlit("platform");
    reveal_strlit("session_key");
    reveal_strlit("conversation_id");
    reveal_strlit("root_message_id");
    reveal_strlit("before_message_id");
    reveal_strlit("before_cursor");
    reveal_strlit("limit");
    reveal_strlit("format");
    assert("platform"@.len() == 8 && "session_key"@.len() == 11 && "conversation_id"@.len() == 15
        && "root_message_id"@.len() == 15 && "before_message_id"@.len() == 17
        && "before_cursor"@.len() == 13 && "limit"@.len() == 5 && "format"@.len() == 6);
    assert("conversation_id"@[0] != "root_message_id"@[0]);
    let none = Seq::<(Seq<char>, Seq<char>)>::empty();
    lemma_with_pair(none, "platform"@, Some(platform));
    let a = none.push(("platform"@, platform));
    lemma_with_pair(a, "session_key"@, Some(session_key));
    let b = a.push(("session_key"@, session_key));
    lemma_with_pair(b, "conversation_id"@, Some(conversation_id));
    let c = b.push(("conversation_id"@, conversation_id));
    lemma_with_pair(c, "root_message_id"@, Some(root_message_id));
    let start = c.push(("root_message_id"@, root_message_id));
    assert(with_pair(none, "platform"@, Some(platform)) == a);
    assert(with_pair(a, "session_key"@, Some(session_key)) == b);
    assert(with_pair(b, "conversation_id"@, Some(conversation_id)) == c);
    assert(with_pair(c, "root_message_id"@, Some(root_message_id)) == start);
    lemma_with_pair(start, "before_message_id"@, optional_text(page.before_message_id));
    let d = with_pair(start, "before_message_id"@, optional_text(page.before_message_id));
    lemma_with_pair(d, "before_cursor"@, optional_text(page.before_cursor));
    let e = with_pair(d, "before_cursor"@, optional_text(page.before_cursor));
    let limit = match page.limit {
        Some(limit) => Some(decimal(limit as nat)),
        None => None,
    };
    lemma_with_pair(e, "limit"@, limit);
    let f = with_pair(e, "limit"@, limit);
    lemma_with_pair(f, "format"@, optional_text(page.format));
}

/// Histories of the bound chat and of a named place in Slack are asked for there.
pub proof fn histories_are_asked_for_where_they_are(
    channel_id: String,
    thread_ts: String,
    page: HistoryPage,
    context: ContextModel,
)
    ensures
        context.conversation_id is Some && context.root_message_id is Some ==> chat_request(
            ChatCmd::ThreadHistory { page },
            context,
        ) == Ok::<RequestModel, Seq<char>>(
            RequestModel {
                path: "/chat/thread-history"@,
                query: Some(
                    history_query(
                        context.platform,
                        context.session_key,
                        context.conversation_id->0,
                        context.root_message_id->0,
                        page,
                    ),
                ),
                body: None,
            },
        ),
        context.platform == "slack"@ && !is_blank(channel_id@) && !is_blank(thread_ts@)
            ==> slack_request(SlackCmd::ThreadHistory { channel_id, thread_ts, page }, context)
            == Ok::<RequestModel, Seq<char>>(
            RequestModel {
                path: "/chat/thread-history"@,
                query: Some(
                    history_query(
                        "slack"@,
                        context.session_key,
                        channel_id@,
                        thread_ts@,
                        page,
                    ),
                ),
                body: None,
            },
        ),
{
}

/// A notification tells the session a text, in the name of a job if it comes from one; a job is
/// registered with its kind and its script, where it runs and whether it starts again, which only
/// the word `true` says.
pub proof fn jobs_and_notes_name_the_session(
    text: String,
    kind: String,
    script: String,
    cwd: Option<String>,
    restart_on_boot: Option<String>,
    context: ContextModel,
    job_id: Option<Seq<char>>,
)
    requires
        context.conversation_id is Some,
        context.root_message_id is Some,
    ensures
        request_of(
            Cli::Notify(NotifyCmd { text }),
            Ok(context),
            job_id,
        ) matches Ok(request) && {
            &&& request.path == "/notify"@ && request.query is None && request.body is Some
            &&& holds(request.body->0, "sessionKey"@, context.session_key)
            &&& holds(request.body->0, "text"@, text@)
            &&& request.body->0.get("jobId"@) == match job_id {
                Some(id) => Some(JsonModel::Text(id)),
                None => None,
            }
        },
        request_of(
            Cli::Job(JobCmd::Register { kind, script, cwd, restart_on_boot }),
            Ok(context),
            job_id,
        ) matches Ok(request) && {
            &&& request.path == "/jobs/register"@ && request.query is None && request.body is Some
            &&& holds(request.body->0, "sessionKey"@, context.session_key)
            &&& holds(request.body->0, "kind"@, kind@)
            &&& holds(request.body->0, "script"@, script@)
            &&& holds_optional(request.body->0, "cwd"@, cwd)
            &&& request.body->0.get("restart_on_boot"@) == match restart_on_boot {
                Some(restart) => Some(JsonModel::Bool(restart@ == "true"@)),
                None => None,
            }
        },
{
    lemma_member_names();
    let none = no_fields();
    members_behind_are_found(none, "sessionKey"@, JsonModel::Text(context.session_key));
    let key = none.push(("sessionKey"@, JsonModel::Text(context.session_key)));
    members_behind_are_found(key, "text"@, JsonModel::Text(text@));
    let said = key.push(("text"@, JsonModel::Text(text@)));
    if job_id is Some {
        members_behind_are_found(said, "jobId"@, JsonModel::Text(job_id->0));
    }
    members_behind_are_found(key, "kind"@, JsonModel::Text(kind@));
    let of_kind = key.push(("kind"@, JsonModel::Text(kind@)));
    members_behind_are_found(of_kind, "script"@, JsonModel::Text(script@));
    let scripted = of_kind.push(("script"@, JsonModel::Text(script@)));
    let placed = with_text(scripted, "cwd"@, optional_text(cwd));
    if cwd is Some {
        members_behind_are_found(scripted, "cwd"@, JsonModel::Text(cwd->0@));
    }
    if restart_on_boot is Some {
        members_behind_are_found(
            placed,
            "restart_on_boot"@,
            JsonModel::Bool(restart_on_boot->0@ == "true"@),
        );
    }
}

/// An integration is called by its server and the name of the tool, with the object of arguments
/// that is given, or an empty one; anything else as arguments is refused. Its tools are listed by
/// the server. Neither needs a binding.
pub proof fn integrations_are_called_by_name(
    server: String,
    name: String,
    json: Option<String>,
    context: Result<ContextModel, Seq<char>>,
    job_id: Option<Seq<char>>,
)
    ensures
        request_of(
            Cli::Integration(IntegrationCmd::ListTools { server }),
            context,
            job_id,
        ) matches Ok(request) && request.path == "/integrations/mcp-tools"@ && request.body is None
            && request.query == Some(seq![("server"@, server@)]),
        ({
            let asked = request_of(
                Cli::Integration(IntegrationCmd::Call { server, name, json }),
                context,
                job_id,
            );
            let arguments = match json {
                None => Some(JsonModel::Object(Seq::empty())),
                Some(text) => json_value(text@),
            };
            &&& json is Some && json_value(json->0@) is None ==> asked == Err::<
                RequestModel,
                Seq<char>,
            >("invalid --json"@)
            &&& arguments is Some && !(arguments->0 is Object) ==> asked == Err::<
                RequestModel,
                Seq<char>,
            >("--json must be a JSON object"@)
            &&& arguments is Some && arguments->0 is Object ==> (asked matches Ok(request)
                && request.path == "/integrations/mcp-call"@ && request.query is None
                && request.body is Some && holds(request.body->0, "server"@, server@) && holds(
                request.body->0,
                "name"@,
                name@,
            ) && request.body->0.get("arguments"@) == arguments)
        }),
{
    lemma_member_names();
    assert(Seq::empty().push(("server"@, server@)) =~= seq![("server"@, server@)]);
    assert(no_fields() =~= Seq::empty());
    if let Ok(arguments) = arguments_of(json is Some, parsed_text(optional_text(json))) {
        let fields = no_fields().push(("server"@, JsonModel::Text(server@))).push(
            ("name"@, JsonModel::Text(name@)),
        ).push(("arguments"@, arguments));
        assert(fields[0].0 == "server"@ && fields[1].0 == "name"@ && fields[2].0 == "arguments"@);
        named_members_are_found(fields);
    }
}

/// The environment binds a session where it names both the session and the platform; else the
/// binding is looked up by the session of the agent, and by the directory where that is not known.
/// Blank variables count as missing.
pub proof fn environments_bind_or_look_up(env: CallEnvironment)
    ensures
        ({
            let named = env.session_key is Some && !is_blank(env.session_key->0@) && env.platform is
                Some && !is_blank(env.platform->0@);
            let agent = env.agent_session_id is Some && !is_blank(env.agent_session_id->0@);
            &&& named ==> (source_of(env) matches SourceModel::Known(context) && {
                &&& context.session_key == trimmed(env.session_key->0@)
                &&& context.platform == trimmed(env.platform->0@)
                &&& context.conversation_id == match env.conversation_id {
                    Some(id) => if is_blank(id@) {
                        None
                    } else {
                        Some(trimmed(id@))
                    },
                    None => None,
                }
                &&& context.root_message_id == match env.root_message_id {
                    Some(id) => if is_blank(id@) {
                        None
                    } else {
                        Some(trimmed(id@))
                    },
                    None => None,
                }
                &&& context.connection_id == match env.connection_id {
                    Some(id) => if is_blank(id@) {
                        Seq::empty()
                    } else {
                        trimmed(id@)
                    },
                    None => Seq::empty(),
                }
            })
            &&& !named && agent ==> source_of(env) == SourceModel::AgentSession(
                trimmed(env.agent_session_id->0@),
            )
            &&& !named && !agent ==> source_of(env) is Directory
        }),
{
}

/// Whether an object names something by one of two names, the first one first.
pub open spec fn named_in(value: JsonModel, first: Seq<char>, second: Seq<char>) -> Option<
    Seq<char>,
> {
    match value.get(first) {
        Some(JsonModel::Text(text)) if !is_blank(text) => Some(trimmed(text)),
        _ => match value.get(second) {
            Some(JsonModel::Text(text)) if !is_blank(text) => Some(trimmed(text)),
            _ => None,
        },
    }
}

/// A binding that was looked up has a platform, a connection and a session, by either of their
/// names; the place is taken over if it is there. An answer that is not good, or that lacks one of
/// the three, gives none.
pub proof fn bindings_are_found_in_answers(status: u16, text: Seq<char>, payload: JsonModel)
    ensures
        !(200 <= status < 300) ==> context_of(status, text, Some(payload)) == Err::<
            ContextModel,
            Seq<char>,
        >("cli context lookup failed ("@ + decimal(status as nat) + "): "@ + text),
        200 <= status < 300 ==> (context_of(status, text, Some(payload)) is Ok <==> {
            &&& payload is Object
            &&& named_in(payload, "platform"@, "platform"@) is Some
            &&& named_in(payload, "connectionId"@, "connection_id"@) is Some
            &&& named_in(payload, "sessionKey"@, "session_key"@) is Some
        }),
        context_of(status, text, Some(payload)) matches Ok(context) ==> {
            &&& Some(context.platform) == named_in(payload, "platform"@, "platform"@)
            &&& Some(context.connection_id) == named_in(
                payload,
                "connectionId"@,
                "connection_id"@,
            )
            &&& Some(context.session_key) == named_in(payload, "sessionKey"@, "session_key"@)
            &&& named_in(payload, "conversationId"@, "conversation_id"@) is Some
                ==> context.conversation_id == named_in(
                payload,
                "conversationId"@,
                "conversation_id"@,
            )
            &&& named_in(payload, "conversationId"@, "conversation_id"@) is None
                ==> context.conversation_id == named_in(payload, "channelId"@, "channelId"@)
            &&& named_in(payload, "rootMessageId"@, "root_message_id"@) is Some
                ==> context.root_message_id == named_in(
                payload,
                "rootMessageId"@,
                "root_message_id"@,
            )
            &&& named_in(payload, "rootMessageId"@, "root_message_id"@) is None
                ==> context.root_message_id == named_in(payload, "rootThreadTs"@, "rootThreadTs"@)
        },
        context_of(status, text, None) is Err,
{
}

/// A request goes to the broker's address, without the slashes at its end, and its path; of its
/// query the pairs that say something are sent, in their order. Without an address it goes nowhere.
pub proof fn requests_go_to_the_broker(base: Seq<char>, request: RequestModel)
    ensures
        broker_address_of(None, request) == Err::<Seq<char>, Seq<char>>(
            "missing environment variable BROKER_API_BASE"@,
        ),
        is_blank(base) ==> broker_address_of(Some(base), request) is Err,
        !is_blank(base) && request.query is None ==> broker_address_of(Some(base), request)
            == match url_text(without_trailing(trimmed(base), '/') + request.path) {
            Some(address) => Ok::<Seq<char>, Seq<char>>(address),
            None => Err("BROKER_API_BASE"@),
        },
        !is_blank(base) && request.query is Some ==> broker_address_of(Some(base), request)
            == match url_with_query(
            without_trailing(trimmed(base), '/') + request.path,
            request.query->0.filter(|pair: (Seq<char>, Seq<char>)| pair.1.len() > 0),
        ) {
            Some(address) => Ok::<Seq<char>, Seq<char>>(address),
            None => Err("BROKER_API_BASE"@),
        },
{
    if request.query is Some {
        lemma_told(request.query->0);
    }
}

proof fn lemma_told(pairs: Seq<(Seq<char>, Seq<char>)>)
    ensures
        told(pairs) == pairs.filter(|pair: (Seq<char>, Seq<char>)| pair.1.len() > 0),
    decreases pairs.len(),
{
    reveal(Seq::filter);
    if pairs.len() > 0 {
        lemma_told(pairs.drop_last());
    }
}

/// What is printed ends in one line break more than the text, unless it ends in one already.
pub proof fn printed_texts_end_their_line(text: Seq<char>)
    ensures
        as_lines(text).len() > 0 && as_lines(text).last() == '\n',
        as_lines(text) == text || as_lines(text) == text + seq!['\n'],
        text.len() > 0 && text.last() == '\n' ==> as_lines(text) == text,
{
    assert(text.push('\n') =~= text + seq!['\n']);
}

/// A token is asked for with the directory and the whole command, and is taken from a good answer
/// that says so; any other answer is explained by its message, else by its error, else by its
/// status.
pub proof fn tokens_come_from_good_answers(
    cwd: Seq<char>,
    command: Seq<Seq<char>>,
    status: u16,
    body: JsonModel,
)
    ensures
        holds(token_question(cwd, command), "cwd"@, cwd),
        token_question(cwd, command).get("command"@) matches Some(JsonModel::Array(words))
            && words.len() == command.len() && forall|i: int|
            0 <= i < command.len() ==> #[trigger] words[i] == JsonModel::Text(command[i]),
        ({
            let good = 200 <= status < 300 && body.get("ok"@) == Some(JsonModel::Bool(true));
            let token = named_in(body, "token"@, "token"@);
            &&& good && token is Some ==> token_of(status, Some(body)) == Ok::<
                Seq<char>,
                Seq<char>,
            >(token->0)
            &&& good && token is None ==> token_of(status, Some(body)) == Err::<
                Seq<char>,
                Seq<char>,
            >("GitHub identity resolution did not return a token."@)
            &&& !good ==> token_of(status, Some(body)) == Err::<Seq<char>, Seq<char>>(
                match (body.get("message"@), body.get("error"@)) {
                    (Some(JsonModel::Text(message)), _) => message.push('\n'),
                    (_, Some(JsonModel::Text(error))) => error.push('\n'),
                    _ => "GitHub identity resolution failed ("@ + decimal(status as nat)
                        + ").\n"@,
                },
            )
            &&& token_of(status, None) is Err
        }),
{
    lemma_member_names();
    let fields = token_question(cwd, command)->Object_0;
    assert(fields[0].0 == "cwd"@ && fields[1].0 == "command"@);
    named_members_are_found(fields);
}

/// The real `gh` can be run and is not the wrapper. An address has room for a query as long as it
/// is not longer than 32 bits can tell, with the query where a fragment follows it.
pub proof fn real_commands_are_not_the_wrapper(
    candidate: GhCandidate,
    url: Seq<char>,
    pairs: Seq<(Seq<char>, Seq<char>)>,
    key: Seq<char>,
    value: Seq<char>,
)
    ensures
        is_real(candidate) <==> candidate.is_executable && !candidate.is_own,
        has_room(url, pairs) ==> byte_len(url) <= 4_294_967_295,
        byte_len(url) <= 4_294_967_295 && !has_part(url, "#"@) ==> has_room(url, pairs),
        has_room(url, pairs) && has_part(url, "#"@) ==> byte_len(url) + query_bytes(pairs)
            <= 4_294_967_295,
        query_bytes(pairs.push((key, value))) == query_bytes(pairs) + 3 * byte_len(key) + 3
            * byte_len(value) + 2,
        query_bytes(Seq::empty()) == 1,
{
    assert(pairs.push((key, value)).drop_last() =~= pairs);
}

/// A command that is not sent says why: a message that stops the session lacks its reason, the
/// session is bound to no conversation, or the answer to the lookup lacks something.
pub proof fn refused_commands_say_why(
    text: String,
    kind: MessageKind,
    reason: Option<String>,
    context: ContextModel,
    job_id: Option<Seq<char>>,
    body: Seq<char>,
    payload: JsonModel,
)
    ensures
        (kind is Block || kind is Wait) && reason is None ==> request_of(
            Cli::Chat(ChatCmd::PostMessage { text, kind, reason }),
            Ok(context),
            job_id,
        ) == Err::<RequestModel, Seq<char>>("missing required argument --reason"@),
        !((kind is Block || kind is Wait) && reason is None) && (context.conversation_id is None
            || context.root_message_id is None) ==> request_of(
            Cli::Chat(ChatCmd::PostMessage { text, kind, reason }),
            Ok(context),
            job_id,
        ) == Err::<RequestModel, Seq<char>>(
            "the current proactive session requires explicit IM destination coordinates"@,
        ),
        context_of(200, body, None) == Err::<ContextModel, Seq<char>>(
            "cli context response is not JSON"@,
        ),
        !(payload is Object) ==> context_of(200, body, Some(payload)) == Err::<
            ContextModel,
            Seq<char>,
        >("cli context response is not an object"@),
        payload is Object && named_in(payload, "platform"@, "platform"@) is None ==> context_of(
            200,
            body,
            Some(payload),
        ) == Err::<ContextModel, Seq<char>>("cli context is missing platform"@),
        payload is Object && named_in(payload, "platform"@, "platform"@) is Some && named_in(
            payload,
            "connectionId"@,
            "connection_id"@,
        ) is None ==> context_of(200, body, Some(payload)) == Err::<ContextModel, Seq<char>>(
            "cli context is missing connection ID"@,
        ),
        payload is Object && named_in(payload, "platform"@, "platform"@) is Some && named_in(
            payload,
            "connectionId"@,
            "connection_id"@,
        ) is Some && named_in(payload, "sessionKey"@, "session_key"@) is None ==> context_of(
            200,
            body,
            Some(payload),
        ) == Err::<ContextModel, Seq<char>>("cli context is missing session key"@),
{
}

} // verus!
