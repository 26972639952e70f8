//! Providers that answer by script: what they send for the answers that a script gives.
use vstd::prelude::*;

use crate::json::{
    compact_text, json_in_bytes, json_text, json_value, member, models, named_members_are_found,
    no_fields, no_items, optional, parse_bytes, parse_json, Json, JsonArray, JsonModel, JsonObject,
};
use crate::paging::copy_range;
use crate::text::texts;
use crate::wire::{provider_calls, ProviderCallModel, ProviderToolCall};

verus! {

/// The model request is no longer waiting for a response.
#[derive(Clone, Copy, Debug, PartialEq, Eq, Structural)]
pub struct ModelRequestClosed;

/// The tool request is no longer waiting for a response.
#[derive(Clone, Copy, Debug, PartialEq, Eq, Structural)]
pub struct ToolRequestClosed;

/// The provider request is no longer waiting for a response.
#[derive(Clone, Copy, Debug, PartialEq, Eq, Structural)]
pub struct ProviderRequestClosed;

/// The connection is closed.
#[derive(Clone, Copy, Debug, PartialEq, Eq, Structural)]
pub struct CodexConnectionClosed;

impl ModelRequestClosed {
    pub fn message(self) -> (r: &'static str)
        ensures
            r@ == "the model request is no longer waiting for a response"@,
    {
        "the model request is no longer waiting for a response"
    }
}

impl ToolRequestClosed {
    pub fn message(self) -> (r: &'static str)
        ensures
            r@ == "the tool request is no longer waiting for a response"@,
    {
        "the tool request is no longer waiting for a response"
    }
}

impl ProviderRequestClosed {
    pub fn message(self) -> (r: &'static str)
        ensures
            r@ == "the controlled provider request is no longer waiting for a response"@,
    {
        "the controlled provider request is no longer waiting for a response"
    }
}

impl CodexConnectionClosed {
    pub fn message(self) -> (r: &'static str)
        ensures
            r@ == "the controlled Codex WebSocket connection is closed"@,
    {
        "the controlled Codex WebSocket connection is closed"
    }
}

/// What a session suggests to release.
#[derive(Debug)]
pub enum ModelRelease {
    Session(String),
    Generation { session_id: String, generation: u64 },
}

/// How many requests may wait: at least one.
pub fn queue_capacity(asked: usize) -> (r: usize)
    ensures
        r == (if asked > 1 {
            asked
        } else {
            1
        }),
{
    if asked > 1 {
        asked
    } else {
        1
    }
}

/// A call that a script makes.
#[derive(Debug)]
pub struct ScriptedCall {
    pub provider_call_id: String,
    pub tool: String,
    pub arguments: Json,
}

/// What a script's call says.
pub struct ScriptedModel {
    pub provider_call_id: Seq<char>,
    pub tool: Seq<char>,
    pub arguments: JsonModel,
}

impl View for ScriptedCall {
    type V = ScriptedModel;

    open spec fn view(&self) -> ScriptedModel {
        ScriptedModel {
            provider_call_id: self.provider_call_id@,
            tool: self.tool@,
            arguments: self.arguments@,
        }
    }
}

/// The arguments of the one call that providers make: the tool and what is handed to it.
pub open spec fn call_arguments(call: ScriptedModel) -> JsonModel {
    JsonModel::Object(
        no_fields().push(("tool"@, JsonModel::Text(call.tool))).push(
            ("arguments"@, call.arguments),
        ),
    )
}

fn arguments_json(call: &ScriptedCall) -> (r: Json)
    ensures
        r@ == call_arguments(call@),
{
    JsonObject::new().with("tool", Json::text(&call.tool)).with(
        "arguments",
        call.arguments.clone(),
    ).done()
}

/// The call of a provider that a script's call becomes.
pub open spec fn provider_call(call: ScriptedModel) -> ProviderCallModel {
    ProviderCallModel {
        tool_call_id: call.provider_call_id,
        tool_name: "call"@,
        arguments: call_arguments(call),
    }
}

/// The calls of a provider that a script's calls become.
pub fn respond_calls(calls: &Vec<ScriptedCall>) -> (r: Vec<ProviderToolCall>)
    ensures
        provider_calls(r@) == calls@.map_values(|call: ScriptedCall| provider_call(call@)),
{
    let mut out: Vec<ProviderToolCall> = Vec::new();
    let mut i: usize = 0;
    while i < calls.len()
        invariant
            i <= calls.len(),
            out@.len() == i,
            forall|j: int| 0 <= j < i ==> (#[trigger] out@[j])@ == provider_call(calls@[j]@),
        decreases calls.len() - i,
    {
        out.push(
            ProviderToolCall {
                tool_call_id: calls[i].provider_call_id.clone(),
                tool_name: "call".to_owned(),
                arguments: arguments_json(&calls[i]),
            },
        );
        i = i + 1;
    }
    proof {
        assert(provider_calls(out@) =~= calls@.map_values(
            |call: ScriptedCall| provider_call(call@),
        ));
    }
    out
}

/// The frames of a stream of events, one after the other.
pub open spec fn data_frames(events: Seq<Seq<char>>) -> Seq<char>
    decreases events.len(),
{
    if events.len() == 0 {
        Seq::empty()
    } else {
        data_frames(events.drop_last()) + "data: "@ + events.last() + "\n\n"@
    }
}

/// A stream of events that is complete.
pub fn sse_frames(events: &Vec<String>) -> (r: String)
    ensures
        r@ == data_frames(texts(events@)) + "data: [DONE]\n\n"@,
{
    let mut body: String = String::new();
    let mut i: usize = 0;
    let ghost all = texts(events@);
    proof {
        assert(all.take(0) =~= Seq::<Seq<char>>::empty());
    }
    while i < events.len()
        invariant
            i <= events.len(),
            all == texts(events@),
            body@ == data_frames(all.take(i as int)),
        decreases events.len() - i,
    {
        proof {
            assert(all.take(i + 1).drop_last() =~= all.take(i as int));
            assert(all[i as int] == events@[i as int]@);
        }
        body.append("data: ");
        body.append(&events[i]);
        body.append("\n\n");
        i = i + 1;
    }
    proof {
        assert(all.take(all.len() as int) =~= all);
    }
    body.append("data: [DONE]\n\n");
    body
}

/// The body of an answer that streams values.
pub fn sse_body(events: &Vec<Json>) -> (r: String)
    ensures
        r@ == data_frames(events@.map_values(|event: Json| json_text(event@)))
            + "data: [DONE]\n\n"@,
{
    let mut lines: Vec<String> = Vec::new();
    let mut i: usize = 0;
    while i < events.len()
        invariant
            i <= events.len(),
            lines@.len() == i,
            forall|j: int| 0 <= j < i ==> (#[trigger] lines@[j])@ == json_text(events@[j]@),
        decreases events.len() - i,
    {
        lines.push(compact_text(&events[i]));
        i = i + 1;
    }
    proof {
        assert(texts(lines@) =~= events@.map_values(|event: Json| json_text(event@)));
    }
    sse_frames(&lines)
}

/// A frame of a stream.
pub fn sse_frame(event: &str) -> (r: String)
    ensures
        r@ == "data: "@ + event@ + "\n\n"@,
{
    let mut frame = "data: ".to_owned();
    frame.append(event);
    frame.append("\n\n");
    frame
}

/// One piece of a streamed completion.
pub open spec fn chunk(
    response_id: Seq<char>,
    choice: Seq<(Seq<char>, JsonModel)>,
    usage: bool,
) -> JsonModel {
    let start = no_fields().push(("id"@, JsonModel::Text(response_id))).push(
        ("object"@, JsonModel::Text("chat.completion.chunk"@)),
    ).push(("choices"@, JsonModel::Array(no_items().push(JsonModel::Object(choice)))));
    JsonModel::Object(
        if usage {
            start.push(
                (
                    "usage"@,
                    JsonModel::Object(
                        no_fields().push(("prompt_tokens"@, JsonModel::Unsigned(20))).push(
                            ("completion_tokens"@, JsonModel::Unsigned(2)),
                        ).push(("total_tokens"@, JsonModel::Unsigned(22))),
                    ),
                ),
            )
        } else {
            start
        },
    )
}

fn chunk_json(response_id: &str, choice: JsonObject, usage: bool) -> (r: Json)
    ensures
        r@ == chunk(response_id@, choice@, usage),
{
    let choices = JsonArray::new().with(choice.done()).done();
    let start = JsonObject::new().with("id", Json::text(response_id)).with(
        "object",
        Json::text("chat.completion.chunk"),
    ).with("choices", choices);
    if usage {
        let counts = JsonObject::new().with("prompt_tokens", Json::Unsigned(20)).with(
            "completion_tokens",
            Json::Unsigned(2),
        ).with("total_tokens", Json::Unsigned(22)).done();
        start.with("usage", counts).done()
    } else {
        start.done()
    }
}

/// The choice that carries what the assistant adds.
pub open spec fn added(key: Seq<char>, value: JsonModel) -> Seq<(Seq<char>, JsonModel)> {
    no_fields().push(("index"@, JsonModel::Unsigned(0))).push(
        (
            "delta"@,
            JsonModel::Object(
                no_fields().push(("role"@, JsonModel::Text("assistant"@))).push((key, value)),
            ),
        ),
    )
}

/// The choice that ends a completion.
pub open spec fn ended(reason: Seq<char>) -> Seq<(Seq<char>, JsonModel)> {
    no_fields().push(("index"@, JsonModel::Unsigned(0))).push(
        ("delta"@, JsonModel::Object(no_fields())),
    ).push(("finish_reason"@, JsonModel::Text(reason)))
}

fn completion(response_id: &str, key: &str, value: Json, reason: &str) -> (r: Vec<Json>)
    ensures
        models(r@) == no_items().push(chunk(response_id@, added(key@, value@), false)).push(
            chunk(response_id@, ended(reason@), true),
        ),
{
    let delta = JsonObject::new().with("role", Json::text("assistant")).with(key, value).done();
    let first = JsonObject::new().with("index", Json::Unsigned(0)).with("delta", delta);
    let last = JsonObject::new().with("index", Json::Unsigned(0)).with(
        "delta",
        JsonObject::new().done(),
    ).with("finish_reason", Json::text(reason));
    let events = JsonArray::new().with(chunk_json(response_id, first, false)).with(
        chunk_json(response_id, last, true),
    );
    events.items
}

/// The events of a completion that says something.
pub fn openai_text_events(response_id: &str, content: &str) -> (r: Vec<Json>)
    ensures
        models(r@) == no_items().push(
            chunk(response_id@, added("content"@, JsonModel::Text(content@)), false),
        ).push(chunk(response_id@, ended("stop"@), true)),
{
    completion(response_id, "content", Json::text(content), "stop")
}

/// A call in a completion, at its place among the calls.
pub open spec fn function_call(index: int, call: ScriptedModel) -> JsonModel {
    JsonModel::Object(
        no_fields().push(("index"@, JsonModel::Unsigned(index as u64))).push(
            ("id"@, JsonModel::Text(call.provider_call_id)),
        ).push(("type"@, JsonModel::Text("function"@))).push(
            (
                "function"@,
                JsonModel::Object(
                    no_fields().push(("name"@, JsonModel::Text("call"@))).push(
                        ("arguments"@, JsonModel::Text(json_text(call_arguments(call)))),
                    ),
                ),
            ),
        ),
    )
}

/// The calls in a completion.
pub open spec fn function_calls(calls: Seq<ScriptedCall>) -> JsonModel {
    JsonModel::Array(Seq::new(calls.len(), |i: int| function_call(i, calls[i]@)))
}

/// The events of a completion that makes calls.
pub fn openai_call_events(response_id: &str, calls: &Vec<ScriptedCall>) -> (r: Vec<Json>)
    ensures
        models(r@) == no_items().push(
            chunk(response_id@, added("tool_calls"@, function_calls(calls@)), false),
        ).push(chunk(response_id@, ended("tool_calls"@), true)),
{
    let mut list = JsonArray::new();
    let mut i: usize = 0;
    while i < calls.len()
        invariant
            i <= calls.len(),
            list@.len() == i,
            forall|j: int| 0 <= j < i ==> #[trigger] list@[j] == function_call(j, calls@[j]@),
        decreases calls.len() - i,
    {
        let function = JsonObject::new().with("name", Json::text("call")).with(
            "arguments",
            Json::Text(compact_text(&arguments_json(&calls[i]))),
        ).done();
        let call = JsonObject::new().with("index", Json::Unsigned(i as u64)).with(
            "id",
            Json::text(&calls[i].provider_call_id),
        ).with("type", Json::text("function")).with("function", function).done();
        list = list.with(call);
        i = i + 1;
    }
    let value = list.done();
    proof {
        assert(value@->Array_0 =~= function_calls(calls@)->Array_0);
    }
    completion(response_id, "tool_calls", value, "tool_calls")
}

/// The count less one, nothing of nothing.
pub open spec fn one_less(count: u64) -> u64 {
    if count > 0 {
        (count - 1) as u64
    } else {
        0
    }
}

fn less_one(count: u64) -> (r: u64)
    ensures
        r == one_less(count),
{
    if count > 0 {
        count - 1
    } else {
        0
    }
}

/// The event that starts a response.
pub open spec fn response_created(response_id: Seq<char>) -> JsonModel {
    JsonModel::Object(
        no_fields().push(("type"@, JsonModel::Text("response.created"@))).push(
            (
                "response"@,
                JsonModel::Object(
                    no_fields().push(("id"@, JsonModel::Text(response_id))).push(
                        ("model"@, JsonModel::Text("controlled-codex-model"@)),
                    ),
                ),
            ),
        ),
    )
}

/// The event that gives one item of a response.
pub open spec fn item_done(index: int, item: JsonModel) -> JsonModel {
    JsonModel::Object(
        no_fields().push(("type"@, JsonModel::Text("response.output_item.done"@))).push(
            ("output_index"@, JsonModel::Unsigned(index as u64)),
        ).push(("item"@, item)),
    )
}

/// The tokens of a response: all but one of those that came in were known, and all but one of those
/// that went out were thoughts.
pub open spec fn usage_model(input_tokens: u64, output_tokens: u64) -> JsonModel {
    JsonModel::Object(
        no_fields().push(("input_tokens"@, JsonModel::Unsigned(input_tokens))).push(
            (
                "input_tokens_details"@,
                JsonModel::Object(
                    no_fields().push(
                        ("cached_tokens"@, JsonModel::Unsigned(one_less(input_tokens))),
                    ),
                ),
            ),
        ).push(("output_tokens"@, JsonModel::Unsigned(output_tokens))).push(
            (
                "output_tokens_details"@,
                JsonModel::Object(
                    no_fields().push(
                        ("reasoning_tokens"@, JsonModel::Unsigned(one_less(output_tokens))),
                    ),
                ),
            ),
        ),
    )
}

/// The event that ends a response.
pub open spec fn response_completed(
    response_id: Seq<char>,
    output: Seq<JsonModel>,
    input_tokens: u64,
    output_tokens: u64,
) -> JsonModel {
    JsonModel::Object(
        no_fields().push(("type"@, JsonModel::Text("response.completed"@))).push(
            (
                "response"@,
                JsonModel::Object(
                    no_fields().push(("id"@, JsonModel::Text(response_id))).push(
                        ("object"@, JsonModel::Text("response"@)),
                    ).push(("model"@, JsonModel::Text("controlled-codex-model"@))).push(
                        ("status"@, JsonModel::Text("completed"@)),
                    ).push(("output"@, JsonModel::Array(output))).push(
                        ("usage"@, usage_model(input_tokens, output_tokens)),
                    ),
                ),
            ),
        ),
    )
}

/// The events of a response with these items.
pub open spec fn response_events(
    response_id: Seq<char>,
    output: Seq<JsonModel>,
    input_tokens: u64,
    output_tokens: u64,
) -> Seq<JsonModel> {
    (no_items().push(response_created(response_id)) + Seq::new(
        output.len(),
        |i: int| item_done(i, output[i]),
    )).push(response_completed(response_id, output, input_tokens, output_tokens))
}

/// The events of a response with these items.
pub fn codex_response_events(
    response_id: &str,
    output: &Vec<Json>,
    input_tokens: u64,
    output_tokens: u64,
) -> (r: Vec<Json>)
    ensures
        models(r@) == response_events(response_id@, models(output@), input_tokens, output_tokens),
{
    let start = JsonObject::new().with("id", Json::text(response_id)).with(
        "model",
        Json::text("controlled-codex-model"),
    ).done();
    let mut events = JsonArray::new().with(
        JsonObject::new().with("type", Json::text("response.created")).with("response", start).done(),
    );
    let ghost items = models(output@);
    let mut copies = JsonArray::new();
    proof {
        crate::json::models_index(output@);
    }
    let mut i: usize = 0;
    while i < output.len()
        invariant
            i <= output.len(),
            items == models(output@),
            items.len() == output@.len(),
            forall|j: int| 0 <= j < items.len() ==> #[trigger] items[j] == output@[j]@,
            copies@ == items.take(i as int),
            events@.len() == i + 1,
            events@[0] == response_created(response_id@),
            forall|j: int| 0 <= j < i ==> #[trigger] events@[j + 1] == item_done(j, items[j]),
        decreases output.len() - i,
    {
        let ghost before = events@;
        let item = JsonObject::new().with("type", Json::text("response.output_item.done")).with(
            "output_index",
            Json::Unsigned(i as u64),
        ).with("item", output[i].clone()).done();
        events = events.with(item);
        copies = copies.with(output[i].clone());
        i = i + 1;
        proof {
            assert(copies@ =~= items.take(i as int));
            assert forall|j: int| 0 <= j < i implies #[trigger] events@[j + 1] == item_done(
                j,
                items[j],
            ) by {
                if j < i - 1 {
                    assert(events@[j + 1] == before[j + 1]);
                }
            }
        }
    }
    proof {
        assert(items.take(items.len() as int) =~= items);
        assert(events@ =~= no_items().push(response_created(response_id@)) + Seq::new(
            items.len(),
            |j: int| item_done(j, items[j]),
        )) by {
            let all = no_items().push(response_created(response_id@)) + Seq::new(
                items.len(),
                |j: int| item_done(j, items[j]),
            );
            assert forall|k: int| 0 <= k < all.len() implies events@[k] == all[k] by {
                if k > 0 {
                    assert(events@[(k - 1) + 1] == item_done(k - 1, items[k - 1]));
                }
            }
        }
    }
    let usage = JsonObject::new().with("input_tokens", Json::Unsigned(input_tokens)).with(
        "input_tokens_details",
        JsonObject::new().with("cached_tokens", Json::Unsigned(less_one(input_tokens))).done(),
    ).with("output_tokens", Json::Unsigned(output_tokens)).with(
        "output_tokens_details",
        JsonObject::new().with("reasoning_tokens", Json::Unsigned(less_one(output_tokens))).done(),
    ).done();
    let response = JsonObject::new().with("id", Json::text(response_id)).with(
        "object",
        Json::text("response"),
    ).with("model", Json::text("controlled-codex-model")).with("status", Json::text("completed")).with(
        "output",
        copies.done(),
    ).with("usage", usage).done();
    let events = events.with(
        JsonObject::new().with("type", Json::text("response.completed")).with(
            "response",
            response,
        ).done(),
    );
    events.items
}

/// The event of a request that failed.
pub fn codex_error_event(status: u16, code: &str, message: &str, request_id: &str) -> (r: Json)
    ensures
        r@ == JsonModel::Object(
            no_fields().push(("type"@, JsonModel::Text("error"@))).push(
                ("request_id"@, JsonModel::Text(request_id@)),
            ).push(
                (
                    "error"@,
                    JsonModel::Object(
                        no_fields().push(("status"@, JsonModel::Unsigned(status as u64))).push(
                            ("code"@, JsonModel::Text(code@)),
                        ).push(("message"@, JsonModel::Text(message@))),
                    ),
                ),
            ),
        ),
{
    let error = JsonObject::new().with("status", Json::Unsigned(status as u64)).with(
        "code",
        Json::text(code),
    ).with("message", Json::text(message)).done();
    JsonObject::new().with("type", Json::text("error")).with(
        "request_id",
        Json::text(request_id),
    ).with("error", error).done()
}

/// What comes to a connection: commands of the script and messages of the client.
#[derive(Debug)]
pub enum CodexInput {
    Send(Json),
    Ping(Vec<u8>),
    /// The script closes the connection, or is gone.
    Close,
    ClientText(String),
    /// Nobody waits for the request that the client sent.
    Undelivered,
    ClientPing(Vec<u8>),
    ClientPong(Vec<u8>),
    /// The client closed the connection, or it broke.
    ClientGone,
    ClientOther,
}

/// What a connection does next.
#[derive(Debug)]
pub enum CodexOutput {
    SendText(String),
    SendPing(Vec<u8>),
    SendPong(Vec<u8>),
    /// The answer to the ping of the script.
    Answer(Vec<u8>),
    /// A request of the client, to be handed to the script.
    Request(Json),
    Nothing,
    /// Closes the connection and ends.
    CloseAndStop,
    Stop,
}

/// What comes to a connection.
pub enum InputModel {
    Send(JsonModel),
    Ping(Seq<u8>),
    Close,
    ClientText(Seq<char>),
    Undelivered,
    ClientPing(Seq<u8>),
    ClientPong(Seq<u8>),
    ClientGone,
    ClientOther,
}

/// What a connection does next.
pub enum OutputModel {
    SendText(Seq<char>),
    SendPing(Seq<u8>),
    SendPong(Seq<u8>),
    Answer(Seq<u8>),
    Request(JsonModel),
    Nothing,
    CloseAndStop,
    Stop,
}

impl View for CodexInput {
    type V = InputModel;

    open spec fn view(&self) -> InputModel {
        match self {
            CodexInput::Send(event) => InputModel::Send(event@),
            CodexInput::Ping(payload) => InputModel::Ping(payload@),
            CodexInput::Close => InputModel::Close,
            CodexInput::ClientText(text) => InputModel::ClientText(text@),
            CodexInput::Undelivered => InputModel::Undelivered,
            CodexInput::ClientPing(payload) => InputModel::ClientPing(payload@),
            CodexInput::ClientPong(payload) => InputModel::ClientPong(payload@),
            CodexInput::ClientGone => InputModel::ClientGone,
            CodexInput::ClientOther => InputModel::ClientOther,
        }
    }
}

impl View for CodexOutput {
    type V = OutputModel;

    open spec fn view(&self) -> OutputModel {
        match self {
            CodexOutput::SendText(text) => OutputModel::SendText(text@),
            CodexOutput::SendPing(payload) => OutputModel::SendPing(payload@),
            CodexOutput::SendPong(payload) => OutputModel::SendPong(payload@),
            CodexOutput::Answer(payload) => OutputModel::Answer(payload@),
            CodexOutput::Request(body) => OutputModel::Request(body@),
            CodexOutput::Nothing => OutputModel::Nothing,
            CodexOutput::CloseAndStop => OutputModel::CloseAndStop,
            CodexOutput::Stop => OutputModel::Stop,
        }
    }
}

/// The body of an answer in JSON.
pub fn json_body(value: &Json) -> (r: String)
    ensures
        r@ == json_text(value@),
{
    compact_text(value)
}

/// The request that a text of the client is, if it is JSON.
pub fn client_request(text: &str) -> (r: Option<Json>)
    ensures
        optional(r) == json_value(text@),
{
    parse_json(text)
}

/// The body of a request as JSON.
pub fn request_json(body: &Vec<u8>) -> (r: Option<Json>)
    ensures
        optional(r) == json_in_bytes(body@),
{
    parse_bytes(body)
}

/// What a connection does, and the ping that it waits for after that. A text of the client that is
/// no JSON ends the connection; any other is a request. A ping is answered by the pong that carries
/// its payload; any pong ends the wait.
pub open spec fn connection_step(pending: Option<Seq<u8>>, input: InputModel) -> (
    OutputModel,
    Option<Seq<u8>>,
) {
    match input {
        InputModel::Send(event) => (OutputModel::SendText(json_text(event)), pending),
        InputModel::Ping(payload) => (OutputModel::SendPing(payload), Some(payload)),
        InputModel::Close => (OutputModel::CloseAndStop, pending),
        InputModel::ClientText(text) => (
            match json_value(text) {
                Some(body) => OutputModel::Request(body),
                None => OutputModel::Stop,
            },
            pending,
        ),
        InputModel::Undelivered => (OutputModel::Stop, pending),
        InputModel::ClientPing(payload) => (OutputModel::SendPong(payload), pending),
        InputModel::ClientPong(payload) => (
            if pending == Some(payload) {
                OutputModel::Answer(payload)
            } else {
                OutputModel::Nothing
            },
            None,
        ),
        InputModel::ClientGone => (OutputModel::Stop, pending),
        InputModel::ClientOther => (OutputModel::Nothing, pending),
    }
}

/// A connection that a script serves.
#[derive(Debug)]
pub struct CodexConnection {
    pending_ping: Option<Vec<u8>>,
}

fn same_bytes(a: &Vec<u8>, b: &Vec<u8>) -> (r: bool)
    ensures
        r == (a@ == b@),
{
    if a.len() != b.len() {
        return false;
    }
    let mut i: usize = 0;
    while i < a.len()
        invariant
            i <= a.len(),
            a@.len() == b@.len(),
            forall|j: int| 0 <= j < i ==> a@[j] == b@[j],
        decreases a.len() - i,
    {
        if a[i] != b[i] {
            proof {
                assert(a@[i as int] != b@[i as int]);
            }
            return false;
        }
        i = i + 1;
    }
    proof {
        assert(a@ =~= b@);
    }
    true
}

impl CodexConnection {
    /// The ping that the connection waits for.
    pub closed spec fn waits_for(&self) -> Option<Seq<u8>> {
        match self.pending_ping {
            Some(payload) => Some(payload@),
            None => None,
        }
    }

    pub fn new() -> (r: CodexConnection)
        ensures
            r.waits_for() is None,
    {
        CodexConnection { pending_ping: None }
    }

    pub fn step(&mut self, input: CodexInput) -> (r: CodexOutput)
        ensures
            (r@, final(self).waits_for()) == connection_step(old(self).waits_for(), input@),
    {
        match input {
            CodexInput::Send(event) => CodexOutput::SendText(compact_text(&event)),
            CodexInput::Ping(payload) => {
                let copy = copy_range(&payload, 0, payload.len());
                proof {
                    assert(copy@ =~= payload@);
                }
                self.pending_ping = Some(copy);
                CodexOutput::SendPing(payload)
            },
            CodexInput::Close => CodexOutput::CloseAndStop,
            CodexInput::ClientText(text) => match client_request(&text) {
                Some(body) => CodexOutput::Request(body),
                None => CodexOutput::Stop,
            },
            CodexInput::Undelivered => CodexOutput::Stop,
            CodexInput::ClientPing(payload) => CodexOutput::SendPong(payload),
            CodexInput::ClientPong(payload) => {
                let matched = match &self.pending_ping {
                    Some(expected) => same_bytes(expected, &payload),
                    None => false,
                };
                self.pending_ping = None;
                if matched {
                    CodexOutput::Answer(payload)
                } else {
                    CodexOutput::Nothing
                }
            },
            CodexInput::ClientGone => CodexOutput::Stop,
            CodexInput::ClientOther => CodexOutput::Nothing,
        }
    }
}

/// A ping that the client answers with its payload is answered to the script.
pub proof fn answered_pings_are_reported(pending: Option<Seq<u8>>, payload: Seq<u8>)
    ensures
        ({
            let (sent, waits) = connection_step(pending, InputModel::Ping(payload));
            &&& sent == OutputModel::SendPing(payload)
            &&& connection_step(waits, InputModel::ClientPong(payload)) == (
                OutputModel::Answer(payload),
                None::<Seq<u8>>,
            )
        }),
{
}

/// A call of a script goes through the one provider tool, under the identity that the script gives
/// it, with the tool and its arguments.
pub proof fn scripted_calls_name_their_tool(call: ScriptedModel, index: int)
    requires
        0 <= index <= u64::MAX,
    ensures
        call_arguments(call).get("tool"@) == Some(JsonModel::Text(call.tool)),
        call_arguments(call).get("arguments"@) == Some(call.arguments),
        provider_call(call).tool_call_id == call.provider_call_id,
        provider_call(call).tool_name == "call"@,
        provider_call(call).arguments == call_arguments(call),
        ({
            let sent = function_call(index, call);
            &&& sent.get("index"@) == Some(JsonModel::Unsigned(index as u64))
            &&& sent.get("id"@) == Some(JsonModel::Text(call.provider_call_id))
            &&& sent.get("type"@) == Some(JsonModel::Text("function"@))
            &&& sent.get2("function"@, "name"@) == Some(JsonModel::Text("call"@))
            &&& sent.get2("function"@, "arguments"@) == Some(
                JsonModel::Text(json_text(call_arguments(call))),
            )
        }),
{
    reveal_strlit("tool");
    reveal_strlit("arguments");
    reveal_strlit("index");
    reveal_strlit("id");
    reveal_strlit("type");
    reveal_strlit("function");
    reveal_strlit("name");
    assert("tool"@.len() == 4 && "arguments"@.len() == 9 && "index"@.len() == 5 && "id"@.len() == 2
        && "type"@.len() == 4 && "function"@.len() == 8 && "name"@.len() == 4);
    let inner = call_arguments(call)->Object_0;
    assert(inner[0].0 == "tool"@ && inner[1].0 == "arguments"@);
    named_members_are_found(inner);
    let fields = function_call(index, call)->Object_0;
    assert(fields[0].0 == "index"@ && fields[1].0 == "id"@ && fields[2].0 == "type"@ && fields[3].0
        == "function"@);
    named_members_are_found(fields);
    let function = fields[3].1->Object_0;
    assert(function[0].0 == "name"@ && function[1].0 == "arguments"@);
    named_members_are_found(function);
}

/// Each event of a stream is one frame, and the frames follow one another.
pub proof fn frames_follow_one_another(
    first: Seq<Seq<char>>,
    second: Seq<Seq<char>>,
    event: Seq<char>,
)
    ensures
        data_frames(first + second) == data_frames(first) + data_frames(second),
        data_frames(seq![event]) == "data: "@ + event + "\n\n"@,
    decreases second.len(),
{
    assert(seq![event].drop_last() =~= Seq::<Seq<char>>::empty());
    assert(data_frames(Seq::empty()) =~= Seq::<char>::empty());
    assert(data_frames(seq![event]) =~= "data: "@ + event + "\n\n"@);
    if second.len() == 0 {
        assert(first + second =~= first);
        assert(data_frames(first) + data_frames(second) =~= data_frames(first));
    } else {
        frames_follow_one_another(first, second.drop_last(), event);
        assert((first + second).drop_last() =~= first + second.drop_last());
        let a = data_frames(first);
        let b = data_frames(second.drop_last());
        assert(a + (b + "data: "@ + second.last() + "\n\n"@) =~= a + b + "data: "@ + second.last()
            + "\n\n"@);
    }
}

/// A piece of a completion names its response and holds one choice; the choice that adds something
/// is the assistant's, and the one that ends says why.
pub proof fn completions_come_in_pieces(
    response_id: Seq<char>,
    choice: Seq<(Seq<char>, JsonModel)>,
    usage: bool,
    key: Seq<char>,
    value: JsonModel,
    reason: Seq<char>,
)
    requires
        key != "role"@,
    ensures
        ({
            let piece = chunk(response_id, choice, usage);
            &&& piece.get("id"@) == Some(JsonModel::Text(response_id))
            &&& piece.get("object"@) == Some(JsonModel::Text("chat.completion.chunk"@))
            &&& piece.get("choices"@) == Some(JsonModel::Array(seq![JsonModel::Object(choice)]))
            &&& piece.get("usage"@) is Some <==> usage
            &&& usage ==> piece.get2("usage"@, "total_tokens"@) == Some(JsonModel::Unsigned(22))
                && piece.get2("usage"@, "prompt_tokens"@) == Some(JsonModel::Unsigned(20))
                && piece.get2("usage"@, "completion_tokens"@) == Some(JsonModel::Unsigned(2))
        }),
        member(added(key, value), "index"@) == Some(JsonModel::Unsigned(0)),
        member(added(key, value), "delta"@) matches Some(delta) && delta.get("role"@) == Some(
            JsonModel::Text("assistant"@),
        ) && delta.get(key) == Some(value),
        member(ended(reason), "finish_reason"@) == Some(JsonModel::Text(reason)),
        member(ended(reason), "delta"@) == Some(JsonModel::Object(Seq::empty())),
        member(ended(reason), "index"@) == Some(JsonModel::Unsigned(0)),
{
    reveal_strlit("id");
    reveal_strlit("object");
    reveal_strlit("choices");
    reveal_strlit("usage");
    reveal_strlit("index");
    reveal_strlit("delta");
    reveal_strlit("finish_reason");
    reveal_strlit("prompt_tokens");
    reveal_strlit("completion_tokens");
    reveal_strlit("total_tokens");
    assert("id"@.len() == 2 && "object"@.len() == 6 && "choices"@.len() == 7 && "usage"@.len() == 5
        && "finish_reason"@.len() == 13 && "prompt_tokens"@.len() == 13 && "completion_tokens"@.len()
        == 17 && "total_tokens"@.len() == 12 && "index"@.len() == 5 && "delta"@.len() == 5);
    assert("index"@[0] != "delta"@[0]);
    let fields = chunk(response_id, choice, usage)->Object_0;
    assert(fields[0].0 == "id"@ && fields[1].0 == "object"@ && fields[2].0 == "choices"@);
    assert(usage ==> fields.len() == 4 && fields[3].0 == "usage"@);
    assert(!usage ==> fields.len() == 3);
    named_members_are_found(fields);
    assert(no_items().push(JsonModel::Object(choice)) =~= seq![JsonModel::Object(choice)]);
    if usage {
        let counts = fields[3].1->Object_0;
        assert(counts[0].0 == "prompt_tokens"@ && counts[1].0 == "completion_tokens"@ && counts[2].0
            == "total_tokens"@);
        named_members_are_found(counts);
    }
    let more = added(key, value);
    assert(more[0].0 == "index"@ && more[1].0 == "delta"@);
    named_members_are_found(more);
    let delta = more[1].1->Object_0;
    assert(delta[0].0 == "role"@ && delta[1].0 == key);
    named_members_are_found(delta);
    let end = ended(reason);
    assert(end[0].0 == "index"@ && end[1].0 == "delta"@ && end[2].0 == "finish_reason"@);
    named_members_are_found(end);
    assert(no_fields() =~= Seq::empty());
}

/// A response starts, gives each of its items at its place, and ends with all of them and with the
/// tokens that it took.
pub proof fn responses_give_every_item(
    response_id: Seq<char>,
    output: Seq<JsonModel>,
    input_tokens: u64,
    output_tokens: u64,
)
    requires
        output.len() <= u64::MAX,
    ensures
        ({
            let events = response_events(response_id, output, input_tokens, output_tokens);
            let end = events[events.len() - 1];
            &&& events.len() == output.len() + 2
            &&& events[0].get("type"@) == Some(JsonModel::Text("response.created"@))
            &&& events[0].get2("response"@, "id"@) == Some(JsonModel::Text(response_id))
            &&& forall|i: int|
                0 <= i < output.len() ==> gives_item(#[trigger] events[i + 1], i, output[i])
            &&& end.get("type"@) == Some(JsonModel::Text("response.completed"@))
            &&& end.get("response"@) matches Some(response) && response.get("id"@) == Some(
                JsonModel::Text(response_id),
            ) && response.get("output"@) == Some(JsonModel::Array(output)) && response.get(
                "status"@,
            ) == Some(JsonModel::Text("completed"@)) && response.get2("usage"@, "input_tokens"@)
                == Some(JsonModel::Unsigned(input_tokens)) && response.get2(
                "usage"@,
                "output_tokens"@,
            ) == Some(JsonModel::Unsigned(output_tokens))
        }),
{
    reveal_strlit("type");
    reveal_strlit("response");
    reveal_strlit("id");
    reveal_strlit("model");
    reveal_strlit("object");
    reveal_strlit("status");
    reveal_strlit("output");
    reveal_strlit("usage");
    reveal_strlit("input_tokens");
    reveal_strlit("input_tokens_details");
    reveal_strlit("output_tokens");
    reveal_strlit("output_tokens_details");
    reveal_strlit("output_index");
    reveal_strlit("item");
    assert("type"@.len() == 4 && "response"@.len() == 8 && "id"@.len() == 2 && "model"@.len() == 5
        && "object"@.len() == 6 && "status"@.len() == 6 && "output"@.len() == 6 && "usage"@.len()
        == 5 && "input_tokens"@.len() == 12 && "input_tokens_details"@.len() == 20
        && "output_tokens"@.len() == 13 && "output_tokens_details"@.len() == 21
        && "output_index"@.len() == 12 && "item"@.len() == 4);
    assert("object"@[1] == 'b' && "status"@[1] == 't' && "output"@[1] == 'u' && "model"@[0] == 'm'
        && "usage"@[0] == 'u' && "type"@[0] == 't' && "item"@[0] == 'i');
    let events = response_events(response_id, output, input_tokens, output_tokens);
    let first = response_created(response_id)->Object_0;
    assert(first[0].0 == "type"@ && first[1].0 == "response"@);
    named_members_are_found(first);
    let named = first[1].1->Object_0;
    assert(named[0].0 == "id"@ && named[1].0 == "model"@);
    named_members_are_found(named);
    assert(events[0] == response_created(response_id));
    assert forall|i: int| 0 <= i < output.len() implies gives_item(
        #[trigger] events[i + 1],
        i,
        output[i],
    ) by {
        let done = item_done(i, output[i])->Object_0;
        assert(done[0].0 == "type"@ && done[1].0 == "output_index"@ && done[2].0 == "item"@);
        named_members_are_found(done);
        assert(events[i + 1] == item_done(i, output[i]));
    }
    let last = response_completed(response_id, output, input_tokens, output_tokens)->Object_0;
    assert(events[events.len() - 1] == response_completed(
        response_id,
        output,
        input_tokens,
        output_tokens,
    ));
    assert(last[0].0 == "type"@ && last[1].0 == "response"@);
    named_members_are_found(last);
    let whole = last[1].1->Object_0;
    assert(whole[0].0 == "id"@ && whole[1].0 == "object"@ && whole[2].0 == "model"@ && whole[3].0
        == "status"@ && whole[4].0 == "output"@ && whole[5].0 == "usage"@);
    named_members_are_found(whole);
    let tokens = usage_model(input_tokens, output_tokens)->Object_0;
    assert(tokens[0].0 == "input_tokens"@ && tokens[1].0 == "input_tokens_details"@ && tokens[2].0
        == "output_tokens"@ && tokens[3].0 == "output_tokens_details"@);
    named_members_are_found(tokens);
}

/// Whether an event gives an item of a response.
pub open spec fn gives_item(event: JsonModel, index: int, item: JsonModel) -> bool {
    &&& event.get("type"@) == Some(JsonModel::Text("response.output_item.done"@))
    &&& event.get("output_index"@) == Some(JsonModel::Unsigned(index as u64))
    &&& event.get("item"@) == Some(item)
}

/// A connection sends what the script sends, hands on what the client asks, answers the client's
/// pings with what they carry, and ends when either side is gone or the client sends no JSON. Only a
/// pong that carries what the script's last ping carried answers it.
pub proof fn connections_pass_everything_on(
    pending: Option<Seq<u8>>,
    event: JsonModel,
    text: Seq<char>,
    payload: Seq<u8>,
)
    ensures
        connection_step(pending, InputModel::Send(event)) == (
            OutputModel::SendText(json_text(event)),
            pending,
        ),
        connection_step(pending, InputModel::ClientPing(payload)) == (
            OutputModel::SendPong(payload),
            pending,
        ),
        json_value(text) matches Some(body) ==> connection_step(
            pending,
            InputModel::ClientText(text),
        ) == (OutputModel::Request(body), pending),
        json_value(text) is None ==> connection_step(pending, InputModel::ClientText(text)).0 is
            Stop,
        connection_step(pending, InputModel::Close).0 is CloseAndStop,
        connection_step(pending, InputModel::ClientGone).0 is Stop,
        connection_step(pending, InputModel::Undelivered).0 is Stop,
        connection_step(pending, InputModel::ClientOther) == (OutputModel::Nothing, pending),
        connection_step(pending, InputModel::ClientPong(payload)).0 is Answer <==> pending == Some(
            payload,
        ),
        connection_step(pending, InputModel::ClientPong(payload)).1 is None,
        connection_step(pending, InputModel::Ping(payload)) == (
            OutputModel::SendPing(payload),
            Some(payload),
        ),
{
}

/// The calls of a completion are those of the script, in their order and numbered from zero.
pub proof fn completions_make_every_call(calls: Seq<ScriptedCall>, i: int)
    requires
        0 <= i < calls.len() <= u64::MAX,
    ensures
        function_calls(calls) matches JsonModel::Array(sent) && sent.len() == calls.len()
            && sent[i].get("index"@) == Some(JsonModel::Unsigned(i as u64)) && sent[i].get("id"@)
            == Some(JsonModel::Text(calls[i].provider_call_id@)) && sent[i].get2(
            "function"@,
            "arguments"@,
        ) == Some(JsonModel::Text(json_text(call_arguments(calls[i]@)))),
{
    scripted_calls_name_their_tool(calls[i]@, i);
}

/// A scripted response names the controlled model, and of its tokens all but one that came in were
/// known and all but one that went out were thoughts.
pub proof fn scripted_tokens_are_counted(
    response_id: Seq<char>,
    output: Seq<JsonModel>,
    input_tokens: u64,
    output_tokens: u64,
)
    ensures
        response_created(response_id).get2("response"@, "model"@) == Some(
            JsonModel::Text("controlled-codex-model"@),
        ),
        response_completed(response_id, output, input_tokens, output_tokens).get2(
            "response"@,
            "model"@,
        ) == Some(JsonModel::Text("controlled-codex-model"@)),
        usage_model(input_tokens, output_tokens).get2("input_tokens_details"@, "cached_tokens"@)
            == Some(
            JsonModel::Unsigned(
                if input_tokens == 0 {
                    0
                } else {
                    (input_tokens - 1) as u64
                },
            ),
        ),
        usage_model(input_tokens, output_tokens).get2(
            "output_tokens_details"@,
            "reasoning_tokens"@,
        ) == Some(
            JsonModel::Unsigned(
                if output_tokens == 0 {
                    0
                } else {
                    (output_tokens - 1) as u64
                },
            ),
        ),
{
    reveal_strlit("type");
    reveal_strlit("response");
    reveal_strlit("id");
    reveal_strlit("model");
    reveal_strlit("object");
    reveal_strlit("status");
    reveal_strlit("output");
    reveal_strlit("usage");
    reveal_strlit("input_tokens");
    reveal_strlit("input_tokens_details");
    reveal_strlit("output_tokens");
    reveal_strlit("output_tokens_details");
    assert("type"@.len() == 4 && "response"@.len() == 8 && "id"@.len() == 2 && "model"@.len() == 5
        && "object"@.len() == 6 && "status"@.len() == 6 && "output"@.len() == 6 && "usage"@.len()
        == 5 && "input_tokens"@.len() == 12 && "input_tokens_details"@.len() == 20
        && "output_tokens"@.len() == 13 && "output_tokens_details"@.len() == 21);
    assert("object"@[1] == 'b' && "status"@[1] == 't' && "output"@[1] == 'u' && "model"@[0] == 'm'
        && "usage"@[0] == 'u');
    let first = response_created(response_id)->Object_0;
    assert(first[0].0 == "type"@ && first[1].0 == "response"@);
    named_members_are_found(first);
    let named = first[1].1->Object_0;
    assert(named[0].0 == "id"@ && named[1].0 == "model"@);
    named_members_are_found(named);
    let last = response_completed(response_id, output, input_tokens, output_tokens)->Object_0;
    assert(last[0].0 == "type"@ && last[1].0 == "response"@);
    named_members_are_found(last);
    let whole = last[1].1->Object_0;
    assert(whole[0].0 == "id"@ && whole[1].0 == "object"@ && whole[2].0 == "model"@ && whole[3].0
        == "status"@ && whole[4].0 == "output"@ && whole[5].0 == "usage"@);
    named_members_are_found(whole);
    let tokens = usage_model(input_tokens, output_tokens)->Object_0;
    assert(tokens[0].0 == "input_tokens"@ && tokens[1].0 == "input_tokens_details"@ && tokens[2].0
        == "output_tokens"@ && tokens[3].0 == "output_tokens_details"@);
    named_members_are_found(tokens);
    let known = tokens[1].1->Object_0;
    assert(known[0].0 == "cached_tokens"@);
    named_members_are_found(known);
    let thought = tokens[3].1->Object_0;
    assert(thought[0].0 == "reasoning_tokens"@);
    named_members_are_found(thought);
}

} // verus!
