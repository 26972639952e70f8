//! The current generation of a session as the messages that a provider is sent.
use vstd::prelude::*;

use crate::json::{
    compact_text, json_pretty, json_text, models, no_fields, pretty_text, signed_model, Json,
    JsonModel, JsonObject,
};
use crate::text::{join2, join3, join_all, joined_with, texts};
use crate::tools::{
    outcome_name, ChangeModel, OutstandingItem, ToolChange, ToolIntroduction, ToolOutcome,
};
use crate::wire::{
    clone_calls, message_models, optional_context, provider_calls, MessageModel, ProviderContext,
    ProviderMessage, ProviderToolCall, TranscriptRole,
};

verus! {

/// An input that a session was sent.
#[derive(Debug)]
pub struct SessionInput {
    pub content: String,
}

/// A call of a logical tool that a session made.
#[derive(Debug)]
pub struct ToolInvocation {
    pub invocation_id: String,
    pub provider_call_id: String,
    pub turn_id: String,
    pub tool: String,
    pub arguments: Json,
    pub started_at_ms: i64,
}

/// What an invocation returned.
#[derive(Debug)]
pub struct ToolResultData {
    pub invocation_id: String,
    pub tool: String,
    pub outcome: ToolOutcome,
    pub data: Json,
}

/// Whether a result answers its call or comes later.
#[derive(Clone, Copy, Debug, PartialEq, Eq, Structural)]
pub enum ToolDeliveryMode {
    Direct,
    Notification,
}

#[derive(Debug)]
pub enum ToolDelivery {
    Pending { invocation: ToolInvocation },
    Result { invocation: ToolInvocation, result: ToolResultData, mode: ToolDeliveryMode },
}

/// One step of a generation.
#[derive(Debug)]
pub enum GenerationEntry {
    Inputs { inputs: Vec<SessionInput> },
    ToolChanges { changes: Vec<ToolChange> },
    Notice { message: String },
    Outstanding { items: Vec<OutstandingItem> },
    ToolDelivery { delivery: ToolDelivery },
    Assistant {
        text: String,
        provider_calls: Vec<ProviderToolCall>,
        provider_context: Option<ProviderContext>,
    },
    CarriedTools { invocations: Vec<ToolInvocation> },
}

/// What of a session is shown to a provider.
#[derive(Debug)]
pub struct TranscriptState {
    pub system_prompt: Option<String>,
    pub tools: Vec<ToolIntroduction>,
    pub document: Option<String>,
    pub entries: Vec<GenerationEntry>,
}

/// A message without calls.
pub open spec fn plain(role: TranscriptRole, content: Seq<char>) -> MessageModel {
    MessageModel {
        role,
        content,
        is_error: false,
        tool_call_id: None,
        tool_calls: Seq::empty(),
        provider_context: None,
    }
}

/// What the runtime tells the model.
pub open spec fn notice(content: Seq<char>) -> MessageModel {
    plain(TranscriptRole::User, "[zork-agent runtime notification]\n"@ + content)
}

/// The answer to a call.
pub open spec fn answer(call_id: Seq<char>, content: Seq<char>, is_error: bool) -> MessageModel {
    MessageModel {
        role: TranscriptRole::Tool,
        content,
        is_error,
        tool_call_id: Some(call_id),
        tool_calls: Seq::empty(),
        provider_context: None,
    }
}

/// A result as one line of JSON.
pub open spec fn rendered(result: ToolResultData) -> Seq<char> {
    json_text(
        JsonModel::Object(
            no_fields().push(("invocation_id"@, JsonModel::Text(result.invocation_id@))).push(
                ("tool"@, JsonModel::Text(result.tool@)),
            ).push(("outcome"@, JsonModel::Text(outcome_name(result.outcome)))).push(
                ("data"@, result.data@),
            ),
        ),
    )
}

/// What the model is told of a change of the offer.
pub open spec fn change_line(change: ChangeModel) -> Seq<char> {
    match change {
        ChangeModel::Added { name, .. } => "Tool "@ + name
            + " was added. If you need it, call tool.help for its current usage."@,
        ChangeModel::Updated { name, .. } => "Tool "@ + name
            + " was updated. If you need it, call tool.help for its current usage."@,
        ChangeModel::Removed { name } => "Tool "@ + name + " was removed."@,
    }
}

/// The unfinished items of tools, in JSON.
pub open spec fn outstanding_json(items: Seq<OutstandingItem>) -> JsonModel {
    JsonModel::Array(items.map_values(|item: OutstandingItem| item.description@))
}

/// An invocation that a generation takes over from the last.
pub open spec fn carried_json(invocation: ToolInvocation) -> JsonModel {
    JsonModel::Object(
        no_fields().push(("invocation_id"@, JsonModel::Text(invocation.invocation_id@))).push(
            ("turn_id"@, JsonModel::Text(invocation.turn_id@)),
        ).push(("tool"@, JsonModel::Text(invocation.tool@))).push(
            ("arguments"@, invocation.arguments@),
        ).push(("started_at_ms"@, signed_model(invocation.started_at_ms))),
    )
}

pub open spec fn carried_list(invocations: Seq<ToolInvocation>) -> JsonModel {
    JsonModel::Array(
        invocations.map_values(|invocation: ToolInvocation| carried_json(invocation)),
    )
}

/// The messages of a delivery.
pub open spec fn delivery_message(delivery: ToolDelivery) -> MessageModel {
    match delivery {
        ToolDelivery::Pending { invocation } => answer(
            invocation.provider_call_id@,
            "This tool invocation was still unfinished when the runtime continued. Its real completion or failure will be delivered later as a new runtime notification."@,
            true,
        ),
        ToolDelivery::Result { invocation, result, mode } => match mode {
            ToolDeliveryMode::Direct => answer(
                invocation.provider_call_id@,
                rendered(result),
                result.outcome != ToolOutcome::Succeeded,
            ),
            ToolDeliveryMode::Notification => notice(
                "A previously unfinished tool invocation has now returned. invocation_id="@
                    + invocation.invocation_id@ + " tool="@ + invocation.tool@ + " result="@
                    + rendered(result),
            ),
        },
    }
}

/// The messages of one step of a generation.
pub open spec fn entry_messages(entry: GenerationEntry) -> Seq<MessageModel> {
    match entry {
        GenerationEntry::Inputs { inputs } => inputs@.map_values(
            |input: SessionInput| plain(TranscriptRole::User, input.content@),
        ),
        GenerationEntry::ToolChanges { changes } => seq![
            notice(
                joined_with(
                    changes@.map_values(|change: ToolChange| change_line(change@)),
                    "\n"@,
                ),
            ),
        ],
        GenerationEntry::Notice { message } => seq![notice(message@)],
        GenerationEntry::Outstanding { items } => seq![
            notice("Unfinished items:\n"@ + json_pretty(outstanding_json(items@))),
        ],
        GenerationEntry::ToolDelivery { delivery } => seq![delivery_message(delivery)],
        GenerationEntry::Assistant { text, provider_calls: calls, provider_context } => seq![
            MessageModel {
                role: TranscriptRole::Assistant,
                content: text@,
                is_error: false,
                tool_call_id: None,
                tool_calls: provider_calls(calls@),
                provider_context: optional_context(provider_context),
            },
        ],
        GenerationEntry::CarriedTools { invocations } => seq![
            notice(
                "These tool invocations were unfinished at the context transition. They are not recreated as provider call/result pairs. Later outcomes will arrive as notifications:\n"@
                    + json_pretty(carried_list(invocations@)),
            ),
        ],
    }
}

/// The messages of the steps of a generation.
pub open spec fn entries_messages(entries: Seq<GenerationEntry>) -> Seq<MessageModel>
    decreases entries.len(),
{
    if entries.len() == 0 {
        Seq::empty()
    } else {
        entries_messages(entries.drop_last()) + entry_messages(entries.last())
    }
}

/// The lines of the tools that a generation starts with.
pub open spec fn tool_lines(tools: Seq<ToolIntroduction>) -> Seq<char>
    decreases tools.len(),
{
    if tools.len() == 0 {
        Seq::empty()
    } else {
        let tool = tools.last()@;
        tool_lines(tools.drop_last()) + "- "@ + tool.name + " (version "@ + tool.version + "): "@
            + tool.description + "\n"@
    }
}

/// What the model is told of the tools.
pub open spec fn catalog_prompt(tools: Seq<ToolIntroduction>) -> Seq<char> {
    "Logical tools are called through the single provider tool `call` with {\"tool\":\"complete.name\",\"arguments\":{...}}. Use tool.help when you need a tool's current detailed usage.\n\nTools known at the start of this generation:\n"@
        + tool_lines(tools)
}

/// The messages that a conversation starts with: the prompt, the tools, and what the last
/// generation left.
pub open spec fn preamble(state: TranscriptState) -> Seq<MessageModel> {
    let prompt = match state.system_prompt {
        Some(prompt) => if prompt@.len() == 0 {
            Seq::<MessageModel>::empty()
        } else {
            seq![plain(TranscriptRole::System, prompt@)]
        },
        None => Seq::<MessageModel>::empty(),
    };
    let tools = prompt.push(plain(TranscriptRole::System, catalog_prompt(state.tools@)));
    match state.document {
        Some(document) => tools.push(
            plain(
                TranscriptRole::System,
                "Context from the previous generation:\n\n"@ + document@,
            ),
        ),
        None => tools,
    }
}

/// The messages that a provider is sent.
pub open spec fn transcript(state: TranscriptState) -> Seq<MessageModel> {
    preamble(state) + entries_messages(state.entries@)
}

fn message(role: TranscriptRole, content: String) -> (r: ProviderMessage)
    ensures
        r@ == plain(role, content@),
{
    let out = ProviderMessage {
        role,
        content,
        is_error: false,
        tool_call_id: None,
        tool_calls: Vec::new(),
        provider_context: None,
    };
    proof {
        assert(out@ =~= plain(role, content@));
    }
    out
}

fn runtime_notice(content: &str) -> (r: ProviderMessage)
    ensures
        r@ == notice(content@),
{
    message(TranscriptRole::User, join2("[zork-agent runtime notification]\n", content))
}

fn answer_message(call_id: &str, content: String, is_error: bool) -> (r: ProviderMessage)
    ensures
        r@ == answer(call_id@, content@, is_error),
{
    let out = ProviderMessage {
        role: TranscriptRole::Tool,
        content,
        is_error,
        tool_call_id: Some(call_id.to_owned()),
        tool_calls: Vec::new(),
        provider_context: None,
    };
    proof {
        assert(out@ =~= answer(call_id@, content@, is_error));
    }
    out
}

fn render_result(result: &ToolResultData) -> (r: String)
    ensures
        r@ == rendered(*result),
{
    let object = JsonObject::new().with("invocation_id", Json::text(&result.invocation_id)).with(
        "tool",
        Json::text(&result.tool),
    ).with("outcome", Json::text(result.outcome.as_str())).with(
        "data",
        result.data.clone(),
    ).done();
    compact_text(&object)
}

fn change_text(change: &ToolChange) -> (r: String)
    ensures
        r@ == change_line(change@),
{
    match change {
        ToolChange::Added { name, .. } => join3(
            "Tool ",
            name,
            " was added. If you need it, call tool.help for its current usage.",
        ),
        ToolChange::Updated { name, .. } => join3(
            "Tool ",
            name,
            " was updated. If you need it, call tool.help for its current usage.",
        ),
        ToolChange::Removed { name } => join3("Tool ", name, " was removed."),
    }
}

fn changes_notice(changes: &Vec<ToolChange>) -> (r: ProviderMessage)
    ensures
        r@ == notice(
            joined_with(changes@.map_values(|change: ToolChange| change_line(change@)), "\n"@),
        ),
{
    let mut lines: Vec<String> = Vec::new();
    let mut i: usize = 0;
    while i < changes.len()
        invariant
            i <= changes.len(),
            lines@.len() == i,
            forall|j: int| 0 <= j < i ==> (#[trigger] lines@[j])@ == change_line(changes@[j]@),
        decreases changes.len() - i,
    {
        lines.push(change_text(&changes[i]));
        i = i + 1;
    }
    proof {
        assert(texts(lines@) =~= changes@.map_values(
            |change: ToolChange| change_line(change@),
        ));
    }
    runtime_notice(&join_all(&lines, "\n"))
}

fn outstanding_notice(items: &Vec<OutstandingItem>) -> (r: ProviderMessage)
    ensures
        r@ == notice("Unfinished items:\n"@ + json_pretty(outstanding_json(items@))),
{
    let ghost expected = items@.map_values(|item: OutstandingItem| item.description@);
    let mut list: Vec<Json> = Vec::new();
    let mut i: usize = 0;
    proof {
        assert(models(list@) =~= expected.take(0));
    }
    while i < items.len()
        invariant
            i <= items.len(),
            expected == items@.map_values(|item: OutstandingItem| item.description@),
            models(list@) == expected.take(i as int),
        decreases items.len() - i,
    {
        let ghost before = list@;
        list.push(items[i].description.clone());
        proof {
            assert(list@.drop_last() =~= before);
            assert(expected.take(i + 1) =~= expected.take(i as int).push(expected[i as int]));
        }
        i = i + 1;
    }
    proof {
        assert(expected.take(expected.len() as int) =~= expected);
        assert(outstanding_json(items@)->Array_0 =~= expected);
    }
    runtime_notice(&join2("Unfinished items:\n", &pretty_text(&Json::array(list))))
}

fn carried_notice(invocations: &Vec<ToolInvocation>) -> (r: ProviderMessage)
    ensures
        r@ == notice(
            "These tool invocations were unfinished at the context transition. They are not recreated as provider call/result pairs. Later outcomes will arrive as notifications:\n"@
                + json_pretty(carried_list(invocations@)),
        ),
{
    let ghost expected = carried_list(invocations@)->Array_0;
    let mut list: Vec<Json> = Vec::new();
    let mut i: usize = 0;
    proof {
        assert(models(list@) =~= expected.take(0));
    }
    while i < invocations.len()
        invariant
            i <= invocations.len(),
            expected == carried_list(invocations@)->Array_0,
            models(list@) == expected.take(i as int),
        decreases invocations.len() - i,
    {
        let item = JsonObject::new().with(
            "invocation_id",
            Json::text(&invocations[i].invocation_id),
        ).with("turn_id", Json::text(&invocations[i].turn_id)).with(
            "tool",
            Json::text(&invocations[i].tool),
        ).with("arguments", invocations[i].arguments.clone()).with(
            "started_at_ms",
            Json::signed(invocations[i].started_at_ms),
        ).done();
        let ghost before = list@;
        list.push(item);
        proof {
            assert(list@.drop_last() =~= before);
            assert(expected.take(i + 1) =~= expected.take(i as int).push(expected[i as int]));
        }
        i = i + 1;
    }
    proof {
        assert(expected.take(expected.len() as int) =~= expected);
    }
    runtime_notice(
        &join2(
            "These tool invocations were unfinished at the context transition. They are not recreated as provider call/result pairs. Later outcomes will arrive as notifications:\n",
            &pretty_text(&Json::array(list)),
        ),
    )
}

fn deliver(delivery: &ToolDelivery) -> (r: ProviderMessage)
    ensures
        r@ == delivery_message(*delivery),
{
    match delivery {
        ToolDelivery::Pending { invocation } => answer_message(
            &invocation.provider_call_id,
            "This tool invocation was still unfinished when the runtime continued. Its real completion or failure will be delivered later as a new runtime notification.".to_owned(),
            true,
        ),
        ToolDelivery::Result { invocation, result, mode } => match mode {
            ToolDeliveryMode::Direct => answer_message(
                &invocation.provider_call_id,
                render_result(result),
                result.outcome != ToolOutcome::Succeeded,
            ),
            ToolDeliveryMode::Notification => {
                let mut text = join3(
                    "A previously unfinished tool invocation has now returned. invocation_id=",
                    &invocation.invocation_id,
                    " tool=",
                );
                text.append(&invocation.tool);
                text.append(" result=");
                text.append(&render_result(result));
                runtime_notice(&text)
            },
        },
    }
}

/// Appends one message.
fn add_message(messages: &mut Vec<ProviderMessage>, message: ProviderMessage)
    ensures
        message_models(final(messages)@) == message_models(old(messages)@) + seq![message@],
{
    let ghost before = message_models(messages@);
    messages.push(message);
    proof {
        assert(message_models(messages@) =~= before + seq![message@]);
    }
}

/// Appends the messages of one step.
fn add_entry(messages: &mut Vec<ProviderMessage>, entry: &GenerationEntry)
    ensures
        message_models(final(messages)@) == message_models(old(messages)@) + entry_messages(*entry),
{
    match entry {
        GenerationEntry::Inputs { inputs } => {
            let ghost before = message_models(messages@);
            let ghost added = entry_messages(*entry);
            let mut i: usize = 0;
            proof {
                assert(before + added.take(0) =~= before);
            }
            while i < inputs.len()
                invariant
                    i <= inputs.len(),
                    added == inputs@.map_values(
                        |input: SessionInput| plain(TranscriptRole::User, input.content@),
                    ),
                    message_models(messages@) == before + added.take(i as int),
                decreases inputs.len() - i,
            {
                let next = message(TranscriptRole::User, inputs[i].content.clone());
                add_message(messages, next);
                proof {
                    assert(before + added.take(i as int) + seq![added[i as int]] =~= before
                        + added.take(i + 1));
                }
                i = i + 1;
            }
            proof {
                assert(added.take(added.len() as int) =~= added);
            }
        },
        GenerationEntry::ToolChanges { changes } => add_message(messages, changes_notice(changes)),
        GenerationEntry::Notice { message } => add_message(messages, runtime_notice(message)),
        GenerationEntry::Outstanding { items } => add_message(messages, outstanding_notice(items)),
        GenerationEntry::ToolDelivery { delivery } => add_message(messages, deliver(delivery)),
        GenerationEntry::Assistant { text, provider_calls: calls, provider_context } => {
            let context = match provider_context {
                Some(context) => Some(context.clone()),
                None => None,
            };
            add_message(
                messages,
                ProviderMessage {
                    role: TranscriptRole::Assistant,
                    content: text.clone(),
                    is_error: false,
                    tool_call_id: None,
                    tool_calls: clone_calls(calls),
                    provider_context: context,
                },
            );
        },
        GenerationEntry::CarriedTools { invocations } => add_message(
            messages,
            carried_notice(invocations),
        ),
    }
}

/// What the model is told of the tools.
pub fn tool_catalog_prompt(tools: &Vec<ToolIntroduction>) -> (r: String)
    ensures
        r@ == catalog_prompt(tools@),
{
    let mut lines: String = String::new();
    let mut i: usize = 0;
    proof {
        assert(tools@.take(0) =~= Seq::<ToolIntroduction>::empty());
    }
    while i < tools.len()
        invariant
            i <= tools.len(),
            lines@ == tool_lines(tools@.take(i as int)),
        decreases tools.len() - i,
    {
        proof {
            assert(tools@.take(i + 1).drop_last() =~= tools@.take(i as int));
        }
        lines.append("- ");
        lines.append(&tools[i].name);
        lines.append(" (version ");
        lines.append(tools[i].version.as_str());
        lines.append("): ");
        lines.append(&tools[i].description);
        lines.append("\n");
        i = i + 1;
    }
    proof {
        assert(tools@.take(tools@.len() as int) =~= tools@);
    }
    join2(
        "Logical tools are called through the single provider tool `call` with {\"tool\":\"complete.name\",\"arguments\":{...}}. Use tool.help when you need a tool's current detailed usage.\n\nTools known at the start of this generation:\n",
        &lines,
    )
}

/// The messages that a provider is sent of a session.
pub fn provider_transcript(state: &TranscriptState) -> (r: Vec<ProviderMessage>)
    ensures
        message_models(r@) == transcript(*state),
{
    let mut messages: Vec<ProviderMessage> = Vec::new();
    proof {
        assert(message_models(messages@) =~= Seq::<MessageModel>::empty());
    }
    match &state.system_prompt {
        Some(prompt) => {
            if !prompt.as_str().is_empty() {
                let first = message(TranscriptRole::System, prompt.clone());
                add_message(&mut messages, first);
            }
        },
        None => {},
    }
    let catalog = message(TranscriptRole::System, tool_catalog_prompt(&state.tools));
    add_message(&mut messages, catalog);
    match &state.document {
        Some(document) => {
            let context = message(
                TranscriptRole::System,
                join2("Context from the previous generation:\n\n", document),
            );
            add_message(&mut messages, context);
        },
        None => {},
    }
    proof {
        assert(message_models(messages@) =~= preamble(*state));
    }
    let mut i: usize = 0;
    proof {
        assert(state.entries@.take(0) =~= Seq::<GenerationEntry>::empty());
        assert(message_models(messages@) =~= preamble(*state) + entries_messages(
            state.entries@.take(0),
        ));
    }
    while i < state.entries.len()
        invariant
            i <= state.entries.len(),
            message_models(messages@) == preamble(*state) + entries_messages(
                state.entries@.take(i as int),
            ),
        decreases state.entries.len() - i,
    {
        proof {
            assert(state.entries@.take(i + 1).drop_last() =~= state.entries@.take(i as int));
            assert(preamble(*state) + entries_messages(state.entries@.take(i as int))
                + entry_messages(state.entries@[i as int]) =~= preamble(*state) + (
            entries_messages(state.entries@.take(i as int)) + entry_messages(
                state.entries@[i as int],
            )));
        }
        add_entry(&mut messages, &state.entries[i]);
        i = i + 1;
    }
    proof {
        assert(state.entries@.take(state.entries@.len() as int) =~= state.entries@);
    }
    messages
}

/// A generation that goes on says everything that it said before, and the new steps behind it.
pub proof fn transcripts_grow_at_the_end(
    before: TranscriptState,
    after: TranscriptState,
    more: Seq<GenerationEntry>,
)
    requires
        after.system_prompt == before.system_prompt,
        after.tools == before.tools,
        after.document == before.document,
        after.entries@ == before.entries@ + more,
    ensures
        transcript(after) == transcript(before) + entries_messages(more),
{
    lemma_entries_append(before.entries@, more);
    assert(preamble(after) == preamble(before));
    assert(preamble(before) + (entries_messages(before.entries@) + entries_messages(more))
        =~= preamble(before) + entries_messages(before.entries@) + entries_messages(more));
}

proof fn lemma_entries_append(entries: Seq<GenerationEntry>, more: Seq<GenerationEntry>)
    ensures
        entries_messages(entries + more) == entries_messages(entries) + entries_messages(more),
    decreases more.len(),
{
    if more.len() == 0 {
        assert(entries + more =~= entries);
        assert(entries_messages(entries) + entries_messages(more) =~= entries_messages(entries));
    } else {
        lemma_entries_append(entries, more.drop_last());
        assert((entries + more).drop_last() =~= entries + more.drop_last());
        assert(entries_messages(entries) + (entries_messages(more.drop_last()) + entry_messages(
            more.last(),
        )) =~= entries_messages(entries) + entries_messages(more.drop_last()) + entry_messages(
            more.last(),
        ));
    }
}

/// How many messages a step becomes: one, or one for each of its inputs.
pub open spec fn width(entry: GenerationEntry) -> nat {
    match entry {
        GenerationEntry::Inputs { inputs } => inputs@.len(),
        _ => 1,
    }
}

/// How many messages a list of steps becomes.
pub open spec fn widths(entries: Seq<GenerationEntry>) -> nat
    decreases entries.len(),
{
    if entries.len() == 0 {
        0
    } else {
        widths(entries.drop_last()) + width(entries.last())
    }
}

/// How many messages stand before those of the steps: that of a prompt that says something, that of
/// the tools, and that of a document.
pub open spec fn opening(state: TranscriptState) -> nat {
    (if state.system_prompt matches Some(prompt) && prompt@.len() > 0 {
        1nat
    } else {
        0
    }) + 1 + (if state.document is Some {
        1nat
    } else {
        0
    })
}

/// The place in a transcript of the first message of step `k`.
pub open spec fn place(state: TranscriptState, k: int) -> int {
    (opening(state) + widths(state.entries@.take(k))) as int
}

proof fn lemma_width(entry: GenerationEntry)
    ensures
        entry_messages(entry).len() == width(entry),
{
}

proof fn lemma_widths(entries: Seq<GenerationEntry>)
    ensures
        entries_messages(entries).len() == widths(entries),
    decreases entries.len(),
{
    if entries.len() > 0 {
        lemma_widths(entries.drop_last());
        lemma_width(entries.last());
    }
}

proof fn lemma_widths_grow(entries: Seq<GenerationEntry>, first: int, second: int)
    requires
        0 <= first < second <= entries.len(),
    ensures
        widths(entries.take(first)) + width(entries[first]) <= widths(entries.take(second)),
    decreases second - first,
{
    assert(entries.take(second).drop_last() =~= entries.take(second - 1));
    if first < second - 1 {
        lemma_widths_grow(entries, first, second - 1);
    }
}

/// The messages of a step stand together, behind those of the steps before it.
proof fn lemma_place(entries: Seq<GenerationEntry>, k: int, j: int)
    requires
        0 <= k < entries.len(),
        0 <= j < width(entries[k]),
    ensures
        0 <= widths(entries.take(k)) + j < entries_messages(entries).len(),
        entries_messages(entries)[widths(entries.take(k)) + j] == entry_messages(entries[k])[j],
    decreases entries.len(),
{
    let before = entries.drop_last();
    lemma_width(entries.last());
    lemma_widths(before);
    if k == entries.len() - 1 {
        assert(entries.take(k) =~= before);
    } else {
        lemma_place(before, k, j);
        assert(before.take(k) =~= entries.take(k));
    }
}

/// Each message of a list of steps is one of a step.
proof fn lemma_owner(entries: Seq<GenerationEntry>, at: int) -> (found: (int, int))
    requires
        0 <= at < entries_messages(entries).len(),
    ensures
        0 <= found.0 < entries.len(),
        0 <= found.1 < width(entries[found.0]),
        at == widths(entries.take(found.0)) + found.1,
    decreases entries.len(),
{
    let before = entries.drop_last();
    lemma_widths(before);
    lemma_width(entries.last());
    if at < entries_messages(before).len() {
        let found = lemma_owner(before, at);
        assert(before.take(found.0) =~= entries.take(found.0));
        found
    } else {
        assert(entries.take(entries.len() - 1) =~= before);
        (entries.len() - 1, at - widths(before))
    }
}

proof fn lemma_step_message(state: TranscriptState, k: int, j: int)
    requires
        0 <= k < state.entries@.len(),
        0 <= j < width(state.entries@[k]),
    ensures
        0 <= place(state, k) + j < transcript(state).len(),
        transcript(state)[place(state, k) + j] == entry_messages(state.entries@[k])[j],
{
    lemma_place(state.entries@, k, j);
    assert(preamble(state).len() == opening(state));
}

/// A transcript holds as many messages as its opening and its steps ask for, and no others: the
/// prompt comes first, if it says something, then the tools, then the document, all of them from
/// the system.
pub proof fn transcripts_open_with_the_prompt(state: TranscriptState)
    ensures
        transcript(state).len() == place(state, state.entries@.len() as int),
        forall|i: int|
            0 <= i < opening(state) ==> {
                let said = #[trigger] transcript(state)[i];
                &&& said.role == TranscriptRole::System
                &&& !said.is_error && said.tool_call_id is None && said.tool_calls.len() == 0
                &&& said.provider_context is None
            },
        state.system_prompt matches Some(prompt) && prompt@.len() > 0 ==> transcript(
            state,
        )[0].content == state.system_prompt->0@,
        forall|i: int|
            0 <= i < state.tools@.len() ==> introduces(
                transcript(state)[tools_place(state)].content,
                #[trigger] state.tools@[i],
            ),
        stands_at(
            transcript(state)[tools_place(state)].content,
            0,
            "Logical tools are called through the single provider tool `call` with {\"tool\":\"complete.name\",\"arguments\":{...}}. Use tool.help when you need a tool's current detailed usage.\n\nTools known at the start of this generation:\n"@,
        ),
        state.document matches Some(document) ==> transcript(state)[opening(state) - 1].content
            == "Context from the previous generation:\n\n"@ + document@,
{
    let entries = state.entries@;
    assert(entries.take(entries.len() as int) =~= entries);
    lemma_widths(entries);
    assert(preamble(state).len() == opening(state));
    let head = "Logical tools are called through the single provider tool `call` with {\"tool\":\"complete.name\",\"arguments\":{...}}. Use tool.help when you need a tool's current detailed usage.\n\nTools known at the start of this generation:\n"@;
    let content = transcript(state)[tools_place(state)].content;
    assert(content == head + tool_lines(state.tools@));
    assert(content.subrange(0, head.len() as int) =~= head);
    assert forall|i: int| 0 <= i < state.tools@.len() implies introduces(
        content,
        #[trigger] state.tools@[i],
    ) by {
        let start = lemma_tool_line(state.tools@, i);
        let line = "- "@ + state.tools@[i].name@ + " (version "@ + state.tools@[i].version@
            + "): "@ + state.tools@[i].description@ + "\n"@;
        assert(content.subrange(head.len() + start, head.len() + start + line.len())
            =~= tool_lines(state.tools@).subrange(start, start + line.len()));
        assert(stands_at(content, head.len() + start, line));
    }
}

/// The place in a transcript of the message of the tools.
pub open spec fn tools_place(state: TranscriptState) -> int {
    if state.document is Some {
        opening(state) - 2
    } else {
        opening(state) - 1
    }
}

/// Whether a text introduces a tool: in a line with its name, its version and what it does.
pub open spec fn introduces(content: Seq<char>, tool: ToolIntroduction) -> bool {
    exists|start: int|
        0 <= start && #[trigger] stands_at(
            content,
            start,
            "- "@ + tool.name@ + " (version "@ + tool.version@ + "): "@ + tool.description@ + "\n"@,
        )
}

/// Whether `part` stands in `text` from `start` on.
pub open spec fn stands_at(text: Seq<char>, start: int, part: Seq<char>) -> bool {
    &&& start + part.len() <= text.len()
    &&& text.subrange(start, start + part.len()) == part
}

proof fn lemma_tool_line(tools: Seq<ToolIntroduction>, i: int) -> (start: int)
    requires
        0 <= i < tools.len(),
    ensures
        0 <= start,
        stands_at(
            tool_lines(tools),
            start,
            "- "@ + tools[i].name@ + " (version "@ + tools[i].version@ + "): "@
                + tools[i].description@ + "\n"@,
        ),
    decreases tools.len(),
{
    let rest = tools.drop_last();
    let line = "- "@ + tools[i].name@ + " (version "@ + tools[i].version@ + "): "@
        + tools[i].description@ + "\n"@;
    if i == tools.len() - 1 {
        assert(tool_lines(tools).subrange(
            tool_lines(rest).len() as int,
            (tool_lines(rest).len() + line.len()) as int,
        ) =~= line);
        tool_lines(rest).len() as int
    } else {
        let start = lemma_tool_line(rest, i);
        assert(tool_lines(tools).subrange(start, start + line.len()) =~= tool_lines(rest).subrange(
            start,
            start + line.len(),
        ));
        start
    }
}

/// The assistant message of a step says the text of the step and names exactly its calls, in order,
/// with identity, name and arguments; what the provider gave to go on with is sent back.
pub proof fn assistant_steps_name_their_calls(state: TranscriptState, k: int)
    requires
        0 <= k < state.entries@.len(),
        state.entries@[k] is Assistant,
    ensures
        0 <= place(state, k) < transcript(state).len(),
        ({
            let said = transcript(state)[place(state, k)];
            let calls = state.entries@[k]->provider_calls@;
            &&& said.role == TranscriptRole::Assistant
            &&& said.content == state.entries@[k]->Assistant_text@
            &&& !said.is_error && said.tool_call_id is None
            &&& said.tool_calls.len() == calls.len()
            &&& forall|j: int|
                0 <= j < calls.len() ==> (#[trigger] said.tool_calls[j]).tool_call_id
                    == calls[j].tool_call_id@ && said.tool_calls[j].tool_name
                    == calls[j].tool_name@ && said.tool_calls[j].arguments == calls[j].arguments@
            &&& match state.entries@[k]->provider_context {
                Some(context) => said.provider_context matches Some(sent) && sent.profile_id
                    == context.profile_id@ && sent.provider == context.provider@ && sent.model
                    == context.model@ && sent.api == context.api@ && sent.output_items == models(
                    context.output_items@,
                ),
                None => said.provider_context is None,
            }
        }),
{
    lemma_step_message(state, k, 0);
}

/// An input is said by the user as it came.
pub proof fn inputs_are_said_as_they_came(state: TranscriptState, k: int, j: int)
    requires
        0 <= k < state.entries@.len(),
        state.entries@[k] is Inputs,
        0 <= j < state.entries@[k]->inputs@.len(),
    ensures
        0 <= place(state, k) + j < transcript(state).len(),
        ({
            let said = transcript(state)[place(state, k) + j];
            &&& said.role == TranscriptRole::User
            &&& said.content == state.entries@[k]->inputs@[j].content@
            &&& !said.is_error && said.tool_call_id is None && said.tool_calls.len() == 0
            &&& said.provider_context is None
        }),
{
    lemma_step_message(state, k, j);
}

/// Whether a step answers the call with this identity.
pub open spec fn answers(entry: GenerationEntry, call_id: Seq<char>) -> bool {
    entry matches GenerationEntry::ToolDelivery { delivery } && match delivery {
        ToolDelivery::Pending { invocation } => invocation.provider_call_id@ == call_id,
        ToolDelivery::Result { invocation, mode, .. } => mode == ToolDeliveryMode::Direct
            && invocation.provider_call_id@ == call_id,
    }
}

/// A delivery that answers its call is a tool message for that call. It is an error unless the tool
/// succeeded; one that is still running is an error until its result comes. A result is sent as
/// JSON that names the invocation, the tool and the outcome and holds the data.
pub proof fn deliveries_answer_their_calls(state: TranscriptState, k: int, call_id: Seq<char>)
    requires
        0 <= k < state.entries@.len(),
        answers(state.entries@[k], call_id),
    ensures
        0 <= place(state, k) < transcript(state).len(),
        ({
            let said = transcript(state)[place(state, k)];
            &&& said.role == TranscriptRole::Tool
            &&& said.tool_call_id == Some(call_id)
            &&& said.tool_calls.len() == 0 && said.provider_context is None
            &&& match state.entries@[k]->delivery {
                ToolDelivery::Pending { .. } => said.is_error && said.content
                    == "This tool invocation was still unfinished when the runtime continued. Its real completion or failure will be delivered later as a new runtime notification."@,
                ToolDelivery::Result { result, .. } => {
                    &&& said.is_error == !(result.outcome is Succeeded)
                    &&& exists|sent: JsonModel| #[trigger]
                        json_text(sent) == said.content && tells_result(sent, result)
                },
            }
        }),
{
    lemma_step_message(state, k, 0);
    match state.entries@[k]->delivery {
        ToolDelivery::Pending { .. } => {},
        ToolDelivery::Result { result, .. } => {
            let sent = lemma_rendered(result);
            assert(json_text(sent) == transcript(state)[place(state, k)].content);
        },
    }
}

/// Whether a JSON value tells what an invocation returned.
pub open spec fn tells_result(sent: JsonModel, result: ToolResultData) -> bool {
    &&& sent.get("invocation_id"@) == Some(JsonModel::Text(result.invocation_id@))
    &&& sent.get("tool"@) == Some(JsonModel::Text(result.tool@))
    &&& sent.get("outcome"@) == Some(
        JsonModel::Text(
            match result.outcome {
                ToolOutcome::Succeeded => "succeeded"@,
                ToolOutcome::Failed => "failed"@,
                ToolOutcome::TimedOut => "timed_out"@,
                ToolOutcome::Cancelled => "cancelled"@,
            },
        ),
    )
    &&& sent.get("data"@) == Some(result.data@)
}

proof fn lemma_rendered(result: ToolResultData) -> (sent: JsonModel)
    ensures
        rendered(result) == json_text(sent),
        tells_result(sent, result),
{
    reveal_strlit("invocation_id");
    reveal_strlit("tool");
    reveal_strlit("outcome");
    reveal_strlit("data");
    reveal_with_fuel(crate::json::member, 5);
    let fields = no_fields().push(("invocation_id"@, JsonModel::Text(result.invocation_id@))).push(
        ("tool"@, JsonModel::Text(result.tool@)),
    ).push(("outcome"@, JsonModel::Text(outcome_name(result.outcome)))).push(
        ("data"@, result.data@),
    );
    assert(fields[0].0 == "invocation_id"@ && fields[1].0 == "tool"@ && fields[2].0 == "outcome"@
        && fields[3].0 == "data"@);
    assert("tool"@[0] != "data"@[0]);
    assert(fields.drop_first()[0] == fields[1]);
    assert(fields.drop_first().drop_first()[0] == fields[2]);
    assert(fields.drop_first().drop_first().drop_first()[0] == fields[3]);
    let sent = JsonModel::Object(fields);
    assert(rendered(result) == json_text(sent));
    sent
}

/// A result that comes later, and whatever else the runtime tells, is said by the user under the
/// mark of the runtime, and answers no call.
pub proof fn notices_answer_no_call(state: TranscriptState, k: int)
    requires
        0 <= k < state.entries@.len(),
        !(state.entries@[k] is Inputs || state.entries@[k] is Assistant),
        forall|call_id: Seq<char>| !#[trigger] answers(state.entries@[k], call_id),
    ensures
        0 <= place(state, k) < transcript(state).len(),
        ({
            let said = transcript(state)[place(state, k)];
            let mark = "[zork-agent runtime notification]\n"@;
            &&& said.role == TranscriptRole::User
            &&& !said.is_error && said.tool_call_id is None && said.tool_calls.len() == 0
            &&& said.provider_context is None
            &&& match state.entries@[k] {
                GenerationEntry::Notice { message } => said.content == mark + message@,
                GenerationEntry::ToolDelivery { delivery } => match delivery {
                    ToolDelivery::Result { invocation, result, .. } => exists|sent: JsonModel|
                        said.content == mark
                            + "A previously unfinished tool invocation has now returned. invocation_id="@
                            + invocation.invocation_id@ + " tool="@ + invocation.tool@
                            + " result="@ + #[trigger] json_text(sent) && tells_result(
                            sent,
                            result,
                        ),
                    ToolDelivery::Pending { .. } => true,
                },
                GenerationEntry::Outstanding { items } => exists|list: Seq<JsonModel>|
                    said.content == mark + "Unfinished items:\n"@ + #[trigger] json_pretty(
                        JsonModel::Array(list),
                    ) && list.len() == items@.len() && forall|i: int|
                        0 <= i < items@.len() ==> #[trigger] list[i] == items@[i].description@,
                GenerationEntry::CarriedTools { invocations } => exists|list: Seq<JsonModel>|
                    said.content == mark
                        + "These tool invocations were unfinished at the context transition. They are not recreated as provider call/result pairs. Later outcomes will arrive as notifications:\n"@
                        + #[trigger] json_pretty(JsonModel::Array(list)) && list.len()
                        == invocations@.len() && forall|i: int|
                        0 <= i < invocations@.len() ==> tells_invocation(
                            #[trigger] list[i],
                            invocations@[i],
                        ),
                GenerationEntry::ToolChanges { changes } => exists|lines: Seq<Seq<char>>|
                    said.content == mark + #[trigger] joined_with(lines, "\n"@) && lines.len()
                        == changes@.len() && forall|i: int|
                        0 <= i < changes@.len() ==> tells_change(#[trigger] lines[i], changes@[i]),
                _ => true,
            }
        }),
{
    lemma_step_message(state, k, 0);
    let said = transcript(state)[place(state, k)];
    let mark = "[zork-agent runtime notification]\n"@;
    match state.entries@[k] {
        GenerationEntry::ToolDelivery { delivery } => match delivery {
            ToolDelivery::Result { invocation, result, mode } => {
                if mode == ToolDeliveryMode::Direct {
                    assert(answers(state.entries@[k], invocation.provider_call_id@));
                }
                let sent = lemma_rendered(result);
                assert(said.content =~= mark
                    + "A previously unfinished tool invocation has now returned. invocation_id="@
                    + invocation.invocation_id@ + " tool="@ + invocation.tool@ + " result="@
                    + json_text(sent));
            },
            ToolDelivery::Pending { invocation } => {
                assert(answers(state.entries@[k], invocation.provider_call_id@));
            },
        },
        GenerationEntry::Outstanding { items } => {
            let list = outstanding_json(items@)->Array_0;
            assert(JsonModel::Array(list) == outstanding_json(items@));
            assert(said.content =~= mark + "Unfinished items:\n"@ + json_pretty(
                JsonModel::Array(list),
            ));
        },
        GenerationEntry::CarriedTools { invocations } => {
            let list = carried_list(invocations@)->Array_0;
            assert(JsonModel::Array(list) == carried_list(invocations@));
            assert(said.content =~= mark
                + "These tool invocations were unfinished at the context transition. They are not recreated as provider call/result pairs. Later outcomes will arrive as notifications:\n"@
                + json_pretty(JsonModel::Array(list)));
            assert forall|i: int| 0 <= i < invocations@.len() implies tells_invocation(
                #[trigger] list[i],
                invocations@[i],
            ) by {
                lemma_carried(invocations@[i]);
            }
        },
        GenerationEntry::ToolChanges { changes } => {
            let lines = changes@.map_values(|change: ToolChange| change_line(change@));
            assert(said.content == mark + joined_with(lines, "\n"@));
            assert forall|i: int| 0 <= i < changes@.len() implies tells_change(
                #[trigger] lines[i],
                changes@[i],
            ) by {}
        },
        _ => {},
    }
}

/// Whether a JSON value describes an invocation.
pub open spec fn tells_invocation(value: JsonModel, invocation: ToolInvocation) -> bool {
    &&& value.get("invocation_id"@) == Some(JsonModel::Text(invocation.invocation_id@))
    &&& value.get("turn_id"@) == Some(JsonModel::Text(invocation.turn_id@))
    &&& value.get("tool"@) == Some(JsonModel::Text(invocation.tool@))
    &&& value.get("arguments"@) == Some(invocation.arguments@)
    &&& value.get("started_at_ms"@) == Some(signed_model(invocation.started_at_ms))
}

/// Whether a line tells of a change.
pub open spec fn tells_change(line: Seq<char>, change: ToolChange) -> bool {
    match change {
        ToolChange::Added { name, .. } => line == "Tool "@ + name@
            + " was added. If you need it, call tool.help for its current usage."@,
        ToolChange::Updated { name, .. } => line == "Tool "@ + name@
            + " was updated. If you need it, call tool.help for its current usage."@,
        ToolChange::Removed { name } => line == "Tool "@ + name@ + " was removed."@,
    }
}

proof fn lemma_carried(invocation: ToolInvocation)
    ensures
        tells_invocation(carried_json(invocation), invocation),
{
    reveal_strlit("invocation_id");
    reveal_strlit("turn_id");
    reveal_strlit("tool");
    reveal_strlit("arguments");
    reveal_strlit("started_at_ms");
    reveal_with_fuel(crate::json::member, 6);
    let fields = carried_json(invocation)->Object_0;
    assert(fields[0].0 == "invocation_id"@ && fields[1].0 == "turn_id"@ && fields[2].0 == "tool"@
        && fields[3].0 == "arguments"@ && fields[4].0 == "started_at_ms"@);
    assert("invocation_id"@[0] != "started_at_ms"@[0]);
    assert(fields.drop_first()[0] == fields[1]);
    assert(fields.drop_first().drop_first()[0] == fields[2]);
    assert(fields.drop_first().drop_first().drop_first()[0] == fields[3]);
    assert(fields.drop_first().drop_first().drop_first().drop_first()[0] == fields[4]);
}

/// A tool message that answers a call of an earlier step finds that call, with its name and its
/// arguments, in an earlier assistant message.
pub proof fn answered_calls_were_made(state: TranscriptState, k: int, j: int, l: int)
    requires
        0 <= k < l < state.entries@.len(),
        state.entries@[k] is Assistant,
        0 <= j < state.entries@[k]->provider_calls@.len(),
        answers(state.entries@[l], state.entries@[k]->provider_calls@[j].tool_call_id@),
    ensures
        exists|a: int, b: int|
            {
                let call = state.entries@[k]->provider_calls@[j];
                &&& 0 <= a < b < transcript(state).len()
                &&& (#[trigger] transcript(state)[a]).role == TranscriptRole::Assistant
                &&& transcript(state)[a].tool_calls.len() > j
                &&& transcript(state)[a].tool_calls[j].tool_call_id == call.tool_call_id@
                &&& transcript(state)[a].tool_calls[j].tool_name == call.tool_name@
                &&& transcript(state)[a].tool_calls[j].arguments == call.arguments@
                &&& (#[trigger] transcript(state)[b]).role == TranscriptRole::Tool
                &&& transcript(state)[b].tool_call_id == Some(call.tool_call_id@)
            },
{
    let call = state.entries@[k]->provider_calls@[j];
    assistant_steps_name_their_calls(state, k);
    deliveries_answer_their_calls(state, l, call.tool_call_id@);
    lemma_widths_grow(state.entries@, k, l);
    let (a, b) = (place(state, k), place(state, l));
    assert(transcript(state)[a].tool_calls[j].tool_call_id == call.tool_call_id@);
    assert(transcript(state)[b].tool_call_id == Some(call.tool_call_id@));
    assert(0 <= a < b < transcript(state).len());
}

/// No message is made up: one of the assistant is that of a step of the assistant, and a tool
/// message is that of a delivery which answers the call that it names.
pub proof fn messages_come_from_steps(state: TranscriptState, at: int)
    requires
        opening(state) <= at < transcript(state).len(),
    ensures
        exists|k: int, j: int|
            0 <= k < state.entries@.len() && 0 <= j < width(state.entries@[k]) && at == #[trigger] (
            place(state, k) + j),
        transcript(state)[at].role == TranscriptRole::Assistant ==> exists|k: int|
            0 <= k < state.entries@.len() && #[trigger] state.entries@[k] is Assistant && at
                == place(state, k),
        transcript(state)[at].role == TranscriptRole::Tool ==> exists|k: int|
            0 <= k < state.entries@.len() && transcript(state)[at].tool_call_id is Some
                && #[trigger] answers(
                state.entries@[k],
                transcript(state)[at].tool_call_id->0,
            ) && at == place(state, k),
{
    assert(preamble(state).len() == opening(state));
    let (k, j) = lemma_owner(state.entries@, at - opening(state));
    assert(at == place(state, k) + j);
    lemma_step_message(state, k, j);
    if transcript(state)[at].role == TranscriptRole::Assistant {
        assert(state.entries@[k] is Assistant);
    }
    if transcript(state)[at].role == TranscriptRole::Tool {
        assert(state.entries@[k] is ToolDelivery);
        assert(answers(state.entries@[k], transcript(state)[at].tool_call_id->0));
    }
}

} // verus!
