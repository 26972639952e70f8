//! A provider that answers by itself: it echoes what it is told, and calls the tools that it is
//! told to call.
use vstd::prelude::*;

use crate::json::{
    json_value, models, models_index, named_members_are_found, no_fields, optional_ref, parse_json,
    Json, JsonModel, JsonObject,
};
use crate::text::{decimal, decimal_text, join2, join3, same};
use crate::tools::ToolDefinition;
use crate::wire::{
    provider_calls, ProviderCallModel, ProviderMessage, ProviderToolCall, TranscriptRole,
};

verus! {

/// The provider.
#[derive(Clone, Copy, Debug)]
pub struct FakeProvider;

/// What the provider returns. A text is also streamed.
#[derive(Debug)]
pub struct FakeOutcome {
    pub text: String,
    pub tool_calls: Vec<ProviderToolCall>,
    pub streamed: bool,
}

/// What an outcome says.
#[verifier::ext_equal]
pub struct OutcomeModel {
    pub text: Seq<char>,
    pub tool_calls: Seq<ProviderCallModel>,
    pub streamed: bool,
}

impl View for FakeOutcome {
    type V = OutcomeModel;

    open spec fn view(&self) -> OutcomeModel {
        OutcomeModel {
            text: self.text@,
            tool_calls: provider_calls(self.tool_calls@),
            streamed: self.streamed,
        }
    }
}

/// The content of the last of the messages that a document lists.
pub open spec fn last_content(document: JsonModel) -> Option<Seq<char>> {
    match document.get("messages"@) {
        Some(JsonModel::Array(messages)) => if messages.len() == 0 {
            None
        } else {
            messages.last().text_at("content"@)
        },
        _ => None,
    }
}

/// What a message says: the last message in it where it is a list of messages, else all of it.
pub open spec fn said(content: Seq<char>, document: Option<JsonModel>) -> Seq<char> {
    match document {
        Some(document) => match last_content(document) {
            Some(inner) => inner,
            None => content,
        },
        None => content,
    }
}

/// What a message says; `document` is the JSON in it, if it is JSON.
pub fn said_text(content: &str, document: Option<&Json>) -> (r: String)
    ensures
        r@ == said(content@, optional_ref(document)),
{
    if let Some(document) = document {
        if let Some(Json::Array(messages)) = document.get("messages") {
            if messages.len() > 0 {
                proof {
                    models_index(messages@);
                    assert(models(messages@).last() == messages@.last()@);
                }
                if let Some(inner) = messages[messages.len() - 1].str_at("content") {
                    return inner.to_owned();
                }
            }
        }
    }
    content.to_owned()
}

/// A call of a logical tool.
pub open spec fn logical_call(
    id: Seq<char>,
    tool: Seq<char>,
    arguments: JsonModel,
) -> ProviderCallModel {
    ProviderCallModel {
        tool_call_id: id,
        tool_name: "call"@,
        arguments: JsonModel::Object(
            no_fields().push(("tool"@, JsonModel::Text(tool))).push(("arguments"@, arguments)),
        ),
    }
}

fn dynamic_call(id: String, tool: &str, arguments: Json) -> (r: ProviderToolCall)
    ensures
        r@ == logical_call(id@, tool@, arguments@),
{
    ProviderToolCall {
        tool_call_id: id,
        tool_name: "call".to_owned(),
        arguments: JsonObject::new().with("tool", Json::text(tool)).with(
            "arguments",
            arguments,
        ).done(),
    }
}

/// The tool and the arguments that a description of a call names; none where one of them is
/// missing or the arguments are no object.
pub open spec fn described(tool: JsonModel) -> Option<(Seq<char>, JsonModel)> {
    match (tool.text_at("name"@), tool.get("input"@)) {
        (Some(name), Some(input)) => if input is Object {
            Some((name, input))
        } else {
            None
        },
        _ => None,
    }
}

/// The calls that a list describes, numbered by their places in it.
pub open spec fn listed_calls(tools: Seq<JsonModel>, step_id: Seq<char>) -> Seq<ProviderCallModel>
    decreases tools.len(),
{
    if tools.len() == 0 {
        Seq::empty()
    } else {
        let before = listed_calls(tools.drop_last(), step_id);
        match described(tools.last()) {
            Some((name, input)) => before.push(
                logical_call(
                    "fake-tool:"@ + step_id + ":"@ + decimal((tools.len() - 1) as nat),
                    name,
                    input,
                ),
            ),
            None => before,
        }
    }
}

/// The calls that a document asks for: those of `fake_tools` if there is one, else `fake_tool`.
pub open spec fn asked_calls(document: Option<JsonModel>, step_id: Seq<char>) -> Seq<
    ProviderCallModel,
> {
    match document {
        Some(JsonModel::Object(fields)) => {
            let object = JsonModel::Object(fields);
            let listed = match object.get("fake_tools"@) {
                Some(JsonModel::Array(tools)) => listed_calls(tools, step_id),
                _ => Seq::empty(),
            };
            if listed.len() > 0 {
                listed
            } else {
                match object.get("fake_tool"@) {
                    Some(JsonModel::Object(tool)) => match described(JsonModel::Object(tool)) {
                        Some((name, input)) => seq![
                            logical_call("fake-tool:"@ + step_id, name, input),
                        ],
                        None => Seq::empty(),
                    },
                    _ => Seq::empty(),
                }
            }
        },
        _ => Seq::empty(),
    }
}

fn describe(tool: &Json) -> (r: Option<(String, Json)>)
    ensures
        match r {
            Some((name, input)) => described(tool@) == Some((name@, input@)),
            None => described(tool@) is None,
        },
{
    match (tool.str_at("name"), tool.get("input")) {
        (Some(name), Some(input)) => match input {
            Json::Object(_) => Some((name.to_owned(), input.clone())),
            _ => None,
        },
        _ => None,
    }
}

/// The calls that a document asks for.
pub fn fake_calls(document: Option<&Json>, step_id: &str) -> (r: Vec<ProviderToolCall>)
    ensures
        provider_calls(r@) == asked_calls(optional_ref(document), step_id@),
{
    let mut calls: Vec<ProviderToolCall> = Vec::new();
    proof {
        assert(provider_calls(calls@) =~= Seq::<ProviderCallModel>::empty());
    }
    let object = match document {
        Some(object) => match object {
            Json::Object(_) => object,
            _ => {
                return calls;
            },
        },
        None => {
            return calls;
        },
    };
    if let Some(Json::Array(tools)) = object.get("fake_tools") {
        let ghost all = models(tools@);
        proof {
            models_index(tools@);
            assert(all.take(0) =~= Seq::<JsonModel>::empty());
        }
        let mut i: usize = 0;
        while i < tools.len()
            invariant
                i <= tools.len(),
                tools.len() <= usize::MAX,
                all == models(tools@),
                all.len() == tools.len(),
                forall|j: int| 0 <= j < tools.len() ==> #[trigger] all[j] == tools@[j]@,
                provider_calls(calls@) == listed_calls(all.take(i as int), step_id@),
            decreases tools.len() - i,
        {
            proof {
                assert(all.take(i + 1).drop_last() =~= all.take(i as int));
                assert(all.take(i + 1).last() == tools@[i as int]@);
            }
            if let Some((name, input)) = describe(&tools[i]) {
                let mut id = join3("fake-tool:", step_id, ":");
                id.append(&decimal_text(i as u64));
                let call = dynamic_call(id, &name, input);
                let ghost before = provider_calls(calls@);
                calls.push(call);
                proof {
                    assert(provider_calls(calls@) =~= before.push(call@));
                }
            }
            i = i + 1;
        }
        proof {
            assert(all.take(all.len() as int) =~= all);
        }
    }
    if calls.len() > 0 {
        return calls;
    }
    proof {
        assert(calls@ =~= Seq::<ProviderToolCall>::empty());
    }
    if let Some(tool) = object.get("fake_tool") {
        if let Json::Object(_) = tool {
            if let Some((name, input)) = describe(tool) {
                let call = dynamic_call(join2("fake-tool:", step_id), &name, input);
                calls.push(call);
                proof {
                    assert(provider_calls(calls@) =~= seq![call@]);
                }
                return calls;
            }
        }
    }
    proof {
        assert(provider_calls(calls@) =~= Seq::<ProviderCallModel>::empty());
    }
    calls
}

/// Whether a list of tools holds the one through which logical tools are called.
pub open spec fn offers_call(tools: Seq<ToolDefinition>) -> bool {
    exists|i: int| 0 <= i < tools.len() && (#[trigger] tools[i]).name@ == "call"@
}

fn has_call(tools: &Vec<ToolDefinition>) -> (r: bool)
    ensures
        r == offers_call(tools@),
{
    let mut i: usize = 0;
    while i < tools.len()
        invariant
            i <= tools.len(),
            forall|j: int| 0 <= j < i ==> (#[trigger] tools@[j]).name@ != "call"@,
        decreases tools.len() - i,
    {
        if same(&tools[i].name, "call") {
            return true;
        }
        i = i + 1;
    }
    false
}

/// Whether the provider answers a message of that role.
pub open spec fn is_answered(role: TranscriptRole) -> bool {
    role == TranscriptRole::User || role == TranscriptRole::Tool
}

/// The outcome of a step, from what the last message says and the JSON in it. Behind a message of
/// its own the provider ends the turn, if it can call tools.
pub open spec fn outcome_of(
    latest: Option<(TranscriptRole, Seq<char>)>,
    document: Option<JsonModel>,
    can_call: bool,
    step_id: Seq<char>,
) -> OutcomeModel {
    match latest {
        Some((role, text)) => if role == TranscriptRole::Assistant && can_call {
            OutcomeModel {
                text: Seq::empty(),
                tool_calls: seq![
                    logical_call("fake-end:"@ + step_id, "end"@, JsonModel::Object(no_fields())),
                ],
                streamed: false,
            }
        } else if is_answered(role) {
            let calls = asked_calls(document, step_id);
            if calls.len() > 0 {
                OutcomeModel { text: Seq::empty(), tool_calls: calls, streamed: false }
            } else {
                OutcomeModel { text, tool_calls: Seq::empty(), streamed: true }
            }
        } else {
            OutcomeModel { text: Seq::empty(), tool_calls: Seq::empty(), streamed: true }
        },
        None => OutcomeModel { text: Seq::empty(), tool_calls: Seq::empty(), streamed: true },
    }
}

fn text_outcome(text: String) -> (r: FakeOutcome)
    ensures
        r@ == (OutcomeModel { text: text@, tool_calls: Seq::empty(), streamed: true }),
{
    let out = FakeOutcome { text, tool_calls: Vec::new(), streamed: true };
    proof {
        assert(out@.tool_calls =~= Seq::<ProviderCallModel>::empty());
    }
    out
}

impl FakeProvider {
    /// The outcome of a step whose last message says `text`, with the JSON in it.
    pub fn answer(
        &self,
        role: TranscriptRole,
        text: &str,
        document: Option<&Json>,
        can_call: bool,
        step_id: &str,
    ) -> (r: FakeOutcome)
        ensures
            r@ == outcome_of(Some((role, text@)), optional_ref(document), can_call, step_id@),
    {
        if role == TranscriptRole::Assistant && can_call {
            let mut calls: Vec<ProviderToolCall> = Vec::new();
            let call = dynamic_call(
                join2("fake-end:", step_id),
                "end",
                JsonObject::new().done(),
            );
            calls.push(call);
            proof {
                assert(provider_calls(calls@) =~= seq![call@]);
            }
            return FakeOutcome { text: String::new(), tool_calls: calls, streamed: false };
        }
        if role == TranscriptRole::User || role == TranscriptRole::Tool {
            let calls = fake_calls(document, step_id);
            if calls.len() > 0 {
                proof {
                    assert(provider_calls(calls@).len() == calls@.len());
                }
                return FakeOutcome { text: String::new(), tool_calls: calls, streamed: false };
            }
            proof {
                assert(provider_calls(calls@).len() == calls@.len());
            }
            return text_outcome(text.to_owned());
        }
        text_outcome(String::new())
    }

    /// The outcome of a step of a conversation.
    pub fn complete(
        &self,
        transcript: &Vec<ProviderMessage>,
        tools: &Vec<ToolDefinition>,
        step_id: &str,
    ) -> (r: FakeOutcome)
        ensures
            r@ == if transcript.len() == 0 {
                outcome_of(None, None, offers_call(tools@), step_id@)
            } else {
                let latest = transcript@.last();
                let text = said(latest.content@, json_value(latest.content@));
                outcome_of(
                    Some((latest.role, text)),
                    json_value(text),
                    offers_call(tools@),
                    step_id@,
                )
            },
    {
        if transcript.len() == 0 {
            return text_outcome(String::new());
        }
        let latest = &transcript[transcript.len() - 1];
        let outer = parse_json(&latest.content);
        let text = match &outer {
            Some(document) => said_text(&latest.content, Some(document)),
            None => said_text(&latest.content, None),
        };
        let inner = parse_json(&text);
        let can_call = has_call(tools);
        match &inner {
            Some(document) => self.answer(latest.role, &text, Some(document), can_call, step_id),
            None => self.answer(latest.role, &text, None, can_call, step_id),
        }
    }
}

/// What a message says is the content of the last message that it lists, and all of it where it
/// lists none or is no JSON.
pub proof fn listed_messages_are_what_is_said(
    content: Seq<char>,
    document: JsonModel,
    messages: Seq<JsonModel>,
    inner: Seq<char>,
)
    ensures
        said(content, None) == content,
        document.get("messages"@) is None ==> said(content, Some(document)) == content,
        document.get("messages"@) == Some(JsonModel::Array(messages)) && messages.len() > 0
            && messages[messages.len() - 1].get("content"@) == Some(JsonModel::Text(inner)) ==> said(
            content,
            Some(document),
        ) == inner,
{
}

/// Whether a call is one of a logical tool: through the one provider tool, with the name and the
/// arguments of the tool.
pub open spec fn calls_tool(
    call: ProviderCallModel,
    id: Seq<char>,
    tool: Seq<char>,
    arguments: JsonModel,
) -> bool {
    &&& call.tool_call_id == id
    &&& call.tool_name == "call"@
    &&& call.arguments.get("tool"@) == Some(JsonModel::Text(tool))
    &&& call.arguments.get("arguments"@) == Some(arguments)
}

proof fn lemma_logical_call(id: Seq<char>, tool: Seq<char>, arguments: JsonModel)
    ensures
        calls_tool(logical_call(id, tool, arguments), id, tool, arguments),
{
    reveal_strlit("tool");
    reveal_strlit("arguments");
    assert("tool"@.len() != "arguments"@.len());
    let fields = logical_call(id, tool, arguments).arguments->Object_0;
    assert(fields[0].0 == "tool"@ && fields[1].0 == "arguments"@);
    named_members_are_found(fields);
}

/// Whether a description of a call names a tool and an object of arguments for it.
pub open spec fn is_described(tool: JsonModel) -> bool {
    &&& tool.get("name"@) matches Some(JsonModel::Text(_))
    &&& tool.get("input"@) matches Some(JsonModel::Object(_))
}

/// Every description in a list that is complete becomes a call of that tool with those arguments, in
/// the order of the list, and nothing else does; a call is numbered by its place in the list.
pub proof fn listed_tools_are_called(tools: Seq<JsonModel>, step_id: Seq<char>)
    ensures
        ({
            let calls = listed_calls(tools, step_id);
            let places = Seq::new(tools.len(), |i: int| i).filter(
                |i: int| is_described(tools[i]),
            );
            &&& calls.len() == places.len()
            &&& forall|k: int|
                0 <= k < calls.len() ==> calls_tool(
                    #[trigger] calls[k],
                    "fake-tool:"@ + step_id + ":"@ + decimal(places[k] as nat),
                    tools[places[k]].get("name"@)->0->Text_0,
                    tools[places[k]].get("input"@)->0,
                )
        }),
    decreases tools.len(),
{
    reveal(Seq::filter);
    let all = Seq::new(tools.len(), |i: int| i);
    let here = |i: int| is_described(tools[i]);
    if tools.len() > 0 {
        let rest = tools.drop_last();
        listed_tools_are_called(rest, step_id);
        let before = Seq::new(rest.len(), |i: int| i);
        let there = |i: int| is_described(rest[i]);
        assert(all.drop_last() =~= before);
        lemma_same_filter(before, there, here);
        let last = (tools.len() - 1) as int;
        let calls = listed_calls(tools, step_id);
        let places = all.filter(here);
        assert(all.last() == last);
        assert forall|k: int| 0 <= k < before.filter(there).len() implies 0 <= #[trigger] before.filter(
            there,
        )[k] < rest.len() by {
            assert(before.filter(there).contains(before.filter(there)[k]));
            before.lemma_filter_contains_rev(there, before.filter(there)[k]);
        }
        if is_described(tools.last()) {
            lemma_logical_call(
                "fake-tool:"@ + step_id + ":"@ + decimal(last as nat),
                tools.last().get("name"@)->0->Text_0,
                tools.last().get("input"@)->0,
            );
        }
        assert forall|k: int| 0 <= k < calls.len() implies calls_tool(
            #[trigger] calls[k],
            "fake-tool:"@ + step_id + ":"@ + decimal(places[k] as nat),
            tools[places[k]].get("name"@)->0->Text_0,
            tools[places[k]].get("input"@)->0,
        ) by {
            if k < listed_calls(rest, step_id).len() {
                assert(calls[k] == listed_calls(rest, step_id)[k]);
                assert(places[k] == before.filter(there)[k]);
                assert(rest[places[k]] == tools[places[k]]);
            }
        }
    }
}

proof fn lemma_same_filter(s: Seq<int>, a: spec_fn(int) -> bool, b: spec_fn(int) -> bool)
    requires
        forall|i: int| 0 <= i < s.len() ==> a(#[trigger] s[i]) == b(s[i]),
    ensures
        s.filter(a) == s.filter(b),
    decreases s.len(),
{
    reveal(Seq::filter);
    if s.len() > 0 {
        let rest = s.drop_last();
        assert forall|i: int| 0 <= i < rest.len() implies a(#[trigger] rest[i]) == b(rest[i]) by {
            assert(rest[i] == s[i]);
        }
        lemma_same_filter(rest, a, b);
        assert(a(s[s.len() - 1]) == b(s[s.len() - 1]));
    }
}

/// A message of the user or of a tool that asks for no call is echoed and streamed; one that asks
/// for calls makes them and says nothing. Behind a message of its own the provider ends the turn, if
/// it can call tools, and it is silent otherwise.
pub proof fn providers_echo_or_call(
    role: TranscriptRole,
    text: Seq<char>,
    document: Option<JsonModel>,
    can_call: bool,
    step_id: Seq<char>,
)
    ensures
        ({
            let outcome = outcome_of(Some((role, text)), document, can_call, step_id);
            let asked = asked_calls(document, step_id);
            &&& (role is User || role is Tool) && asked.len() == 0 ==> outcome.text == text
                && outcome.tool_calls.len() == 0 && outcome.streamed
            &&& (role is User || role is Tool) && asked.len() > 0 ==> outcome.text.len() == 0
                && outcome.tool_calls == asked && !outcome.streamed
            &&& role is Assistant && can_call ==> outcome.text.len() == 0 && !outcome.streamed
                && outcome.tool_calls.len() == 1 && calls_tool(
                outcome.tool_calls[0],
                "fake-end:"@ + step_id,
                "end"@,
                JsonModel::Object(Seq::empty()),
            )
            &&& role is System || (role is Assistant && !can_call) ==> outcome.text.len() == 0
                && outcome.tool_calls.len() == 0 && outcome.streamed
        }),
        document is None ==> asked_calls(document, step_id).len() == 0,
        outcome_of(None, document, can_call, step_id).text.len() == 0,
        outcome_of(None, document, can_call, step_id).tool_calls.len() == 0,
{
    lemma_logical_call("fake-end:"@ + step_id, "end"@, JsonModel::Object(no_fields()));
    assert(no_fields() =~= Seq::empty());
}

/// A document asks for the calls of its list; where that gives none it asks for the one call that it
/// describes.
pub proof fn documents_ask_for_calls(
    fields: Seq<(Seq<char>, JsonModel)>,
    tools: Seq<JsonModel>,
    tool: JsonModel,
    step_id: Seq<char>,
)
    ensures
        ({
            let document = JsonModel::Object(fields);
            let asked = asked_calls(Some(document), step_id);
            &&& document.get("fake_tools"@) == Some(JsonModel::Array(tools)) && listed_calls(
                tools,
                step_id,
            ).len() > 0 ==> asked == listed_calls(tools, step_id)
            &&& document.get("fake_tools"@) is None && document.get("fake_tool"@) == Some(tool)
                && tool is Object && is_described(tool) ==> asked.len() == 1 && calls_tool(
                asked[0],
                "fake-tool:"@ + step_id,
                tool.get("name"@)->0->Text_0,
                tool.get("input"@)->0,
            )
            &&& document.get("fake_tools"@) is None && document.get("fake_tool"@) is None
                ==> asked.len() == 0
        }),
{
    if tool is Object && is_described(tool) {
        lemma_logical_call(
            "fake-tool:"@ + step_id,
            tool.get("name"@)->0->Text_0,
            tool.get("input"@)->0,
        );
    }
}

/// A provider can call tools if it is offered the one through which they are called.
pub proof fn providers_call_what_is_offered(tools: Seq<ToolDefinition>, i: int)
    ensures
        0 <= i < tools.len() && tools[i].name@ == "call"@ ==> offers_call(tools),
        (forall|k: int| 0 <= k < tools.len() ==> (#[trigger] tools[k]).name@ != "call"@)
            ==> !offers_call(tools),
{
}

} // verus!
