//! The vocabulary of conversations with a model provider.
use vstd::prelude::*;

use crate::json::{models, optional_text, Json, JsonModel};

verus! {

#[derive(Clone, Copy, Debug, PartialEq, Eq, Structural)]
pub enum TranscriptRole {
    System,
    User,
    Assistant,
    Tool,
}

/// A call that the provider makes. Its identity serves the provider's protocol; invocations have
/// identities of their own.
#[derive(Debug)]
pub struct ProviderToolCall {
    pub tool_call_id: String,
    pub tool_name: String,
    pub arguments: Json,
}

/// What a provider's call says.
pub struct ProviderCallModel {
    pub tool_call_id: Seq<char>,
    pub tool_name: Seq<char>,
    pub arguments: JsonModel,
}

impl View for ProviderToolCall {
    type V = ProviderCallModel;

    open spec fn view(&self) -> ProviderCallModel {
        ProviderCallModel {
            tool_call_id: self.tool_call_id@,
            tool_name: self.tool_name@,
            arguments: self.arguments@,
        }
    }
}

impl Clone for ProviderToolCall {
    fn clone(&self) -> (r: ProviderToolCall)
        ensures
            r@ == self@,
    {
        ProviderToolCall {
            tool_call_id: self.tool_call_id.clone(),
            tool_name: self.tool_name.clone(),
            arguments: self.arguments.clone(),
        }
    }
}

pub open spec fn provider_calls(calls: Seq<ProviderToolCall>) -> Seq<ProviderCallModel> {
    calls.map_values(|call: ProviderToolCall| call@)
}

pub fn clone_calls(calls: &Vec<ProviderToolCall>) -> (r: Vec<ProviderToolCall>)
    ensures
        provider_calls(r@) == provider_calls(calls@),
{
    let mut out: Vec<ProviderToolCall> = Vec::new();
    let mut i: usize = 0;
    while i < calls.len()
        invariant
            i <= calls.len(),
            out@.len() == i,
            forall|j: int| 0 <= j < i ==> (#[trigger] out@[j])@ == calls@[j]@,
        decreases calls.len() - i,
    {
        out.push(calls[i].clone());
        i = i + 1;
    }
    proof {
        assert(provider_calls(out@) =~= provider_calls(calls@));
    }
    out
}

/// What a provider returned to continue a conversation with: kept as it came and sent back as it
/// came.
#[derive(Debug)]
pub struct ProviderContext {
    pub profile_id: String,
    pub provider: String,
    pub model: String,
    pub api: String,
    pub output_items: Vec<Json>,
}

/// What a provider's context holds.
pub struct ProviderContextModel {
    pub profile_id: Seq<char>,
    pub provider: Seq<char>,
    pub model: Seq<char>,
    pub api: Seq<char>,
    pub output_items: Seq<JsonModel>,
}

impl View for ProviderContext {
    type V = ProviderContextModel;

    open spec fn view(&self) -> ProviderContextModel {
        ProviderContextModel {
            profile_id: self.profile_id@,
            provider: self.provider@,
            model: self.model@,
            api: self.api@,
            output_items: models(self.output_items@),
        }
    }
}

pub fn clone_json_list(items: &Vec<Json>) -> (r: Vec<Json>)
    ensures
        models(r@) == models(items@),
{
    let mut out: Vec<Json> = Vec::new();
    let mut i: usize = 0;
    proof {
        assert(items@.take(0) =~= Seq::<Json>::empty());
    }
    while i < items.len()
        invariant
            i <= items.len(),
            models(out@) == models(items@.take(i as int)),
        decreases items.len() - i,
    {
        let ghost before = out@;
        out.push(items[i].clone());
        proof {
            assert(out@.drop_last() =~= before);
            assert(items@.take(i + 1).drop_last() =~= items@.take(i as int));
        }
        i = i + 1;
    }
    proof {
        assert(items@.take(items@.len() as int) =~= items@);
    }
    out
}

impl Clone for ProviderContext {
    fn clone(&self) -> (r: ProviderContext)
        ensures
            r@ == self@,
    {
        ProviderContext {
            profile_id: self.profile_id.clone(),
            provider: self.provider.clone(),
            model: self.model.clone(),
            api: self.api.clone(),
            output_items: clone_json_list(&self.output_items),
        }
    }
}

pub open spec fn optional_context(
    context: Option<ProviderContext>,
) -> Option<ProviderContextModel> {
    match context {
        Some(context) => Some(context@),
        None => None,
    }
}

/// A message of the conversation as a provider sees it.
#[derive(Debug)]
pub struct ProviderMessage {
    pub role: TranscriptRole,
    pub content: String,
    pub is_error: bool,
    pub tool_call_id: Option<String>,
    pub tool_calls: Vec<ProviderToolCall>,
    pub provider_context: Option<ProviderContext>,
}

/// What a message says.
#[verifier::ext_equal]
pub struct MessageModel {
    pub role: TranscriptRole,
    pub content: Seq<char>,
    pub is_error: bool,
    pub tool_call_id: Option<Seq<char>>,
    pub tool_calls: Seq<ProviderCallModel>,
    pub provider_context: Option<ProviderContextModel>,
}

impl View for ProviderMessage {
    type V = MessageModel;

    open spec fn view(&self) -> MessageModel {
        MessageModel {
            role: self.role,
            content: self.content@,
            is_error: self.is_error,
            tool_call_id: optional_text(self.tool_call_id),
            tool_calls: provider_calls(self.tool_calls@),
            provider_context: optional_context(self.provider_context),
        }
    }
}

pub open spec fn message_models(messages: Seq<ProviderMessage>) -> Seq<MessageModel> {
    messages.map_values(|message: ProviderMessage| message@)
}

#[derive(Clone, Copy, Debug, PartialEq, Eq, Structural)]
pub enum ProviderInputMode {
    Full,
    Delta,
}

/// Facts about the input that was sent to a provider; nothing of the input itself.
#[derive(Debug)]
pub struct ProviderInputDiagnostics {
    pub mode: ProviderInputMode,
    pub logical_input_items: u64,
    pub sent_input_items: u64,
    pub previous_response_id: Option<String>,
    pub response_id: Option<String>,
}

/// A message tells its role, its content, whether it is an error, which call it answers, each of its
/// calls in order and what the provider gave to go on with; a list of messages tells each of them.
pub proof fn messages_tell_all_they_hold(messages: Seq<ProviderMessage>, i: int, k: int)
    requires
        0 <= i < messages.len(),
    ensures
        message_models(messages).len() == messages.len(),
        ({
            let told = message_models(messages)[i];
            let message = messages[i];
            &&& told.role == message.role
            &&& told.content == message.content@
            &&& told.is_error == message.is_error
            &&& message.tool_call_id matches Some(id) ==> told.tool_call_id == Some(id@)
            &&& message.tool_call_id is None ==> told.tool_call_id is None
            &&& told.tool_calls.len() == message.tool_calls@.len()
            &&& 0 <= k < message.tool_calls@.len() ==> told.tool_calls[k].tool_call_id
                == message.tool_calls@[k].tool_call_id@ && told.tool_calls[k].tool_name
                == message.tool_calls@[k].tool_name@ && told.tool_calls[k].arguments
                == message.tool_calls@[k].arguments@
            &&& message.provider_context is Some <==> told.provider_context is Some
            &&& message.provider_context matches Some(context) ==> {
                &&& told.provider_context->0.profile_id == context.profile_id@
                &&& told.provider_context->0.provider == context.provider@
                &&& told.provider_context->0.model == context.model@
                &&& told.provider_context->0.api == context.api@
                &&& told.provider_context->0.output_items == models(context.output_items@)
            }
        }),
{
}

} // verus!
