//! Messages from a chat, as the gateway takes them.
use vstd::prelude::*;

use crate::json::{
    json_value, models, models_index, optional, optional_str, optional_text, parse_json, Json,
    JsonModel,
};
use crate::text::{is_blank, is_space, same, texts, trim, trim_range, trimmed};

verus! {

/// A message from a chat.
#[derive(Debug)]
pub struct InboundEvent {
    pub source: String,
    pub conversation_id: String,
    pub root_message_id: String,
    pub message_id: Option<String>,
    pub channel_type: Option<String>,
    pub sender_user_id: String,
    pub sender_kind: String,
    pub text: String,
    pub control_text: String,
    pub mentioned_user_ids: Vec<String>,
    pub attachments: Vec<Json>,
    pub self_json: Option<Json>,
    pub slack_message: Option<Json>,
}

/// What a message from a chat says.
#[verifier::ext_equal]
pub struct InboundModel {
    pub source: Seq<char>,
    pub conversation_id: Seq<char>,
    pub root_message_id: Seq<char>,
    pub message_id: Option<Seq<char>>,
    pub channel_type: Option<Seq<char>>,
    pub sender_user_id: Seq<char>,
    pub sender_kind: Seq<char>,
    pub text: Seq<char>,
    pub control_text: Seq<char>,
    pub mentioned_user_ids: Seq<Seq<char>>,
    pub attachments: Seq<JsonModel>,
    pub self_json: Option<JsonModel>,
    pub slack_message: Option<JsonModel>,
}

impl View for InboundEvent {
    type V = InboundModel;

    open spec fn view(&self) -> InboundModel {
        InboundModel {
            source: self.source@,
            conversation_id: self.conversation_id@,
            root_message_id: self.root_message_id@,
            message_id: optional_text(self.message_id),
            channel_type: optional_text(self.channel_type),
            sender_user_id: self.sender_user_id@,
            sender_kind: self.sender_kind@,
            text: self.text@,
            control_text: self.control_text@,
            mentioned_user_ids: texts(self.mentioned_user_ids@),
            attachments: models(self.attachments@),
            self_json: optional(self.self_json),
            slack_message: optional(self.slack_message),
        }
    }
}

impl InboundEvent {
    /// Whether the message is the word that stops a session.
    pub fn is_stop(&self) -> (r: bool)
        ensures
            r == (trimmed(self@.control_text) == "-stop"@ && self@.attachments.len() == 0),
    {
        proof {
            models_index(self.attachments@);
        }
        same(&trim(&self.control_text), "-stop") && self.attachments.len() == 0
    }

    /// Whether the message says nothing.
    pub fn is_empty(&self) -> (r: bool)
        ensures
            r == (is_blank(self@.text) && self@.attachments.len() == 0
                && self@.slack_message is None),
    {
        proof {
            models_index(self.attachments@);
        }
        trim(&self.text).as_str().is_empty() && self.attachments.len() == 0
            && self.slack_message.is_none()
    }
}

/// A text without the white space around it, if anything is left.
pub open spec fn filled(value: Option<Seq<char>>) -> Option<Seq<char>> {
    match value {
        Some(text) => if is_blank(text) {
            None
        } else {
            Some(trimmed(text))
        },
        None => None,
    }
}

pub fn nonempty(value: Option<&str>) -> (r: Option<String>)
    ensures
        optional_text(r) == filled(optional_str(value)),
{
    match value {
        Some(text) => {
            let clean = trim(text);
            if clean.as_str().is_empty() {
                None
            } else {
                Some(clean)
            }
        },
        None => None,
    }
}

/// The places that a message can come from.
pub open spec fn is_source(source: Seq<char>) -> bool {
    source == "app_mention"@ || source == "thread_reply"@ || source == "direct_message"@ || source
        == "channel_message"@
}

/// The kinds of senders.
pub open spec fn is_sender_kind(kind: Seq<char>) -> bool {
    kind == "user"@ || kind == "bot"@ || kind == "app"@ || kind == "unknown"@
}

/// The texts in a list that say something, without the white space around them.
pub open spec fn filled_texts(items: Seq<JsonModel>) -> Seq<Seq<char>>
    decreases items.len(),
{
    if items.len() == 0 {
        Seq::empty()
    } else {
        match filled(items.last().as_text()) {
            Some(text) => filled_texts(items.drop_last()).push(text),
            None => filled_texts(items.drop_last()),
        }
    }
}

/// The items of a list that name a file and where it is.
pub open spec fn files_in(items: Seq<JsonModel>) -> Seq<JsonModel>
    decreases items.len(),
{
    if items.len() == 0 {
        Seq::empty()
    } else if items.last().text_at("fileId"@) is Some && items.last().text_at("url"@) is Some {
        files_in(items.drop_last()).push(items.last())
    } else {
        files_in(items.drop_last())
    }
}

/// The list of the member `key`, empty where there is none.
pub open spec fn list_at(value: JsonModel, key: Seq<char>) -> Seq<JsonModel> {
    match value.get(key) {
        Some(JsonModel::Array(items)) => items,
        _ => Seq::empty(),
    }
}

/// The text of the member `key`, empty where there is none.
pub open spec fn plain_text_at(value: JsonModel, key: Seq<char>) -> Seq<char> {
    match value.text_at(key) {
        Some(text) => text,
        None => Seq::empty(),
    }
}

/// The text of the member `inner` of the member `outer`.
pub open spec fn text_at2(value: JsonModel, outer: Seq<char>, inner: Seq<char>) -> Option<
    Seq<char>,
> {
    match value.get(outer) {
        Some(member) => member.text_at(inner),
        None => None,
    }
}

/// The message that a JSON value is, if it is one: of the first version, from a known place and a
/// known kind of sender, with everything that names it.
pub open spec fn inbound_of(value: JsonModel) -> Option<InboundModel> {
    let version = match value.get("v"@) {
        Some(version) => version.as_signed(),
        None => None,
    };
    let source = filled(value.text_at("source"@));
    let conversation_id = filled(value.text_at("conversationId"@));
    let root_message_id = filled(value.text_at("rootMessageId"@));
    let sender = value.get("sender"@);
    let user_id = filled(text_at2(value, "sender"@, "userId"@));
    let kind = filled(text_at2(value, "sender"@, "kind"@));
    if version == Some(1i64) && value.text_at("kind"@) == Some("message"@) && source is Some
        && is_source(source->0) && conversation_id is Some && root_message_id is Some && sender is Some
        && user_id is Some && kind is Some && is_sender_kind(kind->0) {
        Some(
            InboundModel {
                source: source->0,
                conversation_id: conversation_id->0,
                root_message_id: root_message_id->0,
                message_id: filled(value.text_at("messageId"@)),
                channel_type: filled(value.text_at("channelType"@)),
                sender_user_id: user_id->0,
                sender_kind: kind->0,
                text: plain_text_at(value, "text"@),
                control_text: plain_text_at(value, "controlText"@),
                mentioned_user_ids: filled_texts(list_at(value, "mentionedUserIds"@)),
                attachments: files_in(list_at(value, "attachments"@)),
                self_json: value.get("self"@),
                slack_message: value.get("slackMessage"@),
            },
        )
    } else {
        None
    }
}

fn text_at(value: &Json, key: &str) -> (r: String)
    ensures
        r@ == plain_text_at(value@, key@),
{
    match value.str_at(key) {
        Some(text) => text.to_owned(),
        None => String::new(),
    }
}

fn member_copy(value: &Json, key: &str) -> (r: Option<Json>)
    ensures
        optional(r) == value@.get(key@),
{
    match value.get(key) {
        Some(member) => Some(member.clone()),
        None => None,
    }
}

fn mentioned(value: &Json) -> (r: Vec<String>)
    ensures
        texts(r@) == filled_texts(list_at(value@, "mentionedUserIds"@)),
{
    let mut out: Vec<String> = Vec::new();
    proof {
        assert(texts(out@) =~= Seq::<Seq<char>>::empty());
    }
    if let Some(Json::Array(items)) = value.get("mentionedUserIds") {
        let ghost all = models(items@);
        let mut i: usize = 0;
        proof {
            models_index(items@);
            assert(all.take(0) =~= Seq::<JsonModel>::empty());
        }
        while i < items.len()
            invariant
                i <= items.len(),
                all == models(items@),
                all.len() == items.len(),
                forall|j: int| 0 <= j < items.len() ==> #[trigger] all[j] == items@[j]@,
                texts(out@) == filled_texts(all.take(i as int)),
            decreases items.len() - i,
        {
            proof {
                assert(all.take(i + 1).drop_last() =~= all.take(i as int));
                assert(all.take(i + 1).last() == items@[i as int]@);
            }
            if let Some(text) = nonempty(items[i].as_str()) {
                let ghost before = texts(out@);
                out.push(text);
                proof {
                    assert(texts(out@) =~= before.push(text@));
                }
            }
            i = i + 1;
        }
        proof {
            assert(all.take(all.len() as int) =~= all);
        }
    }
    out
}

fn attached(value: &Json) -> (r: Vec<Json>)
    ensures
        models(r@) == files_in(list_at(value@, "attachments"@)),
{
    let mut out: Vec<Json> = Vec::new();
    if let Some(Json::Array(items)) = value.get("attachments") {
        let ghost all = models(items@);
        let mut i: usize = 0;
        proof {
            models_index(items@);
            assert(all.take(0) =~= Seq::<JsonModel>::empty());
        }
        while i < items.len()
            invariant
                i <= items.len(),
                all == models(items@),
                all.len() == items.len(),
                forall|j: int| 0 <= j < items.len() ==> #[trigger] all[j] == items@[j]@,
                models(out@) == files_in(all.take(i as int)),
            decreases items.len() - i,
        {
            proof {
                assert(all.take(i + 1).drop_last() =~= all.take(i as int));
                assert(all.take(i + 1).last() == items@[i as int]@);
            }
            if items[i].str_at("fileId").is_some() && items[i].str_at("url").is_some() {
                let ghost before = out@;
                out.push(items[i].clone());
                proof {
                    assert(out@.drop_last() =~= before);
                }
            }
            i = i + 1;
        }
        proof {
            assert(all.take(all.len() as int) =~= all);
        }
    }
    out
}

/// Reads a message from a chat.
pub fn parse_inbound_value(value: &Json) -> (r: Option<InboundEvent>)
    ensures
        match r {
            Some(event) => inbound_of(value@) == Some(event@),
            None => inbound_of(value@) is None,
        },
{
    let version: Option<i64> = match value.get("v") {
        Some(version) => version.as_i64(),
        None => None,
    };
    match version {
        Some(version) => {
            if version != 1 {
                return None;
            }
        },
        None => {
            return None;
        },
    }
    match value.str_at("kind") {
        Some(kind) => {
            if !same(kind, "message") {
                return None;
            }
        },
        None => {
            return None;
        },
    }
    let source = match nonempty(value.str_at("source")) {
        Some(source) => source,
        None => {
            return None;
        },
    };
    if !(same(&source, "app_mention") || same(&source, "thread_reply") || same(
        &source,
        "direct_message",
    ) || same(&source, "channel_message")) {
        return None;
    }
    let conversation_id = match nonempty(value.str_at("conversationId")) {
        Some(id) => id,
        None => {
            return None;
        },
    };
    let root_message_id = match nonempty(value.str_at("rootMessageId")) {
        Some(id) => id,
        None => {
            return None;
        },
    };
    let sender = match value.get("sender") {
        Some(sender) => sender,
        None => {
            return None;
        },
    };
    let sender_user_id = match nonempty(sender.str_at("userId")) {
        Some(id) => id,
        None => {
            return None;
        },
    };
    let sender_kind = match nonempty(sender.str_at("kind")) {
        Some(kind) => kind,
        None => {
            return None;
        },
    };
    if !(same(&sender_kind, "user") || same(&sender_kind, "bot") || same(&sender_kind, "app")
        || same(&sender_kind, "unknown")) {
        return None;
    }
    Some(
        InboundEvent {
            source,
            conversation_id,
            root_message_id,
            message_id: nonempty(value.str_at("messageId")),
            channel_type: nonempty(value.str_at("channelType")),
            sender_user_id,
            sender_kind,
            text: text_at(value, "text"),
            control_text: text_at(value, "controlText"),
            mentioned_user_ids: mentioned(value),
            attachments: attached(value),
            self_json: member_copy(value, "self"),
            slack_message: member_copy(value, "slackMessage"),
        },
    )
}

/// Reads a message from its JSON text.
pub fn parse_inbound_payload(raw: &str) -> (r: Option<InboundEvent>)
    ensures
        match r {
            Some(event) => json_value(raw@) is Some && inbound_of(json_value(raw@)->0) == Some(
                event@,
            ),
            None => json_value(raw@) is None || inbound_of(json_value(raw@)->0) is None,
        },
{
    match parse_json(raw) {
        Some(value) => parse_inbound_value(&value),
        None => None,
    }
}

proof fn lemma_filled(text: Seq<char>)
    requires
        text.len() > 0,
        !is_space(text[0]),
        !is_space(text.last()),
    ensures
        filled(Some(text)) == Some(text),
{
    trim_range(text, 0, text.len() as int);
    assert(text.subrange(0, text.len() as int) =~= text);
}

/// A message of version 1 with a conversation, a root message and a sender is accepted from each of
/// the four places that messages come from and from each of the four kinds of senders. What is
/// accepted says where it comes from, where it stands, who sent it and what they said.
pub proof fn messages_are_accepted(
    value: JsonModel,
    source: Seq<char>,
    conversation: Seq<char>,
    root: Seq<char>,
    sender: JsonModel,
    user: Seq<char>,
    kind: Seq<char>,
)
    requires
        value.get("v"@) == Some(JsonModel::Unsigned(1)),
        value.get("kind"@) == Some(JsonModel::Text("message"@)),
        value.get("source"@) == Some(JsonModel::Text(source)),
        source == "app_mention"@ || source == "thread_reply"@ || source == "direct_message"@
            || source == "channel_message"@,
        value.get("conversationId"@) == Some(JsonModel::Text(conversation)),
        !is_blank(conversation),
        value.get("rootMessageId"@) == Some(JsonModel::Text(root)),
        !is_blank(root),
        value.get("sender"@) == Some(sender),
        sender.get("userId"@) == Some(JsonModel::Text(user)),
        !is_blank(user),
        sender.get("kind"@) == Some(JsonModel::Text(kind)),
        kind == "user"@ || kind == "bot"@ || kind == "app"@ || kind == "unknown"@,
    ensures
        inbound_of(value) matches Some(event) && {
            &&& event.source == source
            &&& event.conversation_id == trimmed(conversation)
            &&& event.root_message_id == trimmed(root)
            &&& event.sender_user_id == trimmed(user)
            &&& event.sender_kind == kind
            &&& event.text == match value.get("text"@) {
                Some(JsonModel::Text(text)) => text,
                _ => Seq::empty(),
            }
            &&& event.control_text == match value.get("controlText"@) {
                Some(JsonModel::Text(text)) => text,
                _ => Seq::empty(),
            }
            &&& event.message_id == match value.get("messageId"@) {
                Some(JsonModel::Text(text)) => if is_blank(text) {
                    None
                } else {
                    Some(trimmed(text))
                },
                _ => None,
            }
            &&& event.channel_type == match value.get("channelType"@) {
                Some(JsonModel::Text(text)) => if is_blank(text) {
                    None
                } else {
                    Some(trimmed(text))
                },
                _ => None,
            }
            &&& event.self_json == value.get("self"@)
            &&& event.slack_message == value.get("slackMessage"@)
        },
{
    reveal_strlit("app_mention");
    reveal_strlit("thread_reply");
    reveal_strlit("direct_message");
    reveal_strlit("channel_message");
    reveal_strlit("user");
    reveal_strlit("bot");
    reveal_strlit("app");
    reveal_strlit("unknown");
    lemma_filled(source);
    lemma_filled(kind);
}

/// Nothing else is accepted: what is accepted has the version, the kind, one of the four places, a
/// conversation, a root message and a sender of one of the four kinds.
pub proof fn accepted_messages_are_complete(value: JsonModel)
    requires
        inbound_of(value) is Some,
    ensures
        value.get("v"@) matches Some(version) && version.as_signed() == Some(1i64),
        value.get("kind"@) == Some(JsonModel::Text("message"@)),
        value.get("source"@) matches Some(JsonModel::Text(source)) && {
            ||| trimmed(source) == "app_mention"@
            ||| trimmed(source) == "thread_reply"@
            ||| trimmed(source) == "direct_message"@
            ||| trimmed(source) == "channel_message"@
        },
        value.get("conversationId"@) matches Some(JsonModel::Text(id)) && !is_blank(id),
        value.get("rootMessageId"@) matches Some(JsonModel::Text(id)) && !is_blank(id),
        value.get2("sender"@, "userId"@) matches Some(JsonModel::Text(id)) && !is_blank(id),
        value.get2("sender"@, "kind"@) matches Some(JsonModel::Text(kind)) && {
            ||| trimmed(kind) == "user"@
            ||| trimmed(kind) == "bot"@
            ||| trimmed(kind) == "app"@
            ||| trimmed(kind) == "unknown"@
        },
{
}

/// Whether a JSON value is a text that says something.
pub open spec fn says_something(value: JsonModel) -> bool {
    value matches JsonModel::Text(text) && !is_blank(text)
}

/// Whether a JSON value names a file and where it is.
pub open spec fn names_file(value: JsonModel) -> bool {
    &&& value.get("fileId"@) matches Some(JsonModel::Text(_))
    &&& value.get("url"@) matches Some(JsonModel::Text(_))
}

/// All mentioned users are taken over, without the white space around them, and all attachments that
/// name a file and where it is, as they are; in their order, and nothing else.
pub proof fn mentions_and_files_are_taken_over(value: JsonModel)
    requires
        inbound_of(value) is Some,
    ensures
        inbound_of(value)->0.mentioned_user_ids == match value.get("mentionedUserIds"@) {
            Some(JsonModel::Array(items)) => items.filter(
                |item: JsonModel| says_something(item),
            ).map_values(|item: JsonModel| trimmed(item->Text_0)),
            _ => Seq::empty(),
        },
        inbound_of(value)->0.attachments == match value.get("attachments"@) {
            Some(JsonModel::Array(items)) => items.filter(|item: JsonModel| names_file(item)),
            _ => Seq::empty(),
        },
{
    lemma_filled_texts(list_at(value, "mentionedUserIds"@));
    lemma_files_in(list_at(value, "attachments"@));
    let none = Seq::<JsonModel>::empty();
    assert(filled_texts(none) =~= Seq::empty());
    assert(files_in(none) =~= Seq::empty());
}

proof fn lemma_filled_texts(items: Seq<JsonModel>)
    ensures
        filled_texts(items) == items.filter(|item: JsonModel| says_something(item)).map_values(
            |item: JsonModel| trimmed(item->Text_0),
        ),
    decreases items.len(),
{
    let said = |item: JsonModel| says_something(item);
    let clean = |item: JsonModel| trimmed(item->Text_0);
    reveal(Seq::filter);
    if items.len() > 0 {
        let rest = items.drop_last();
        lemma_filled_texts(rest);
        if says_something(items.last()) {
            assert(rest.filter(said).push(items.last()).map_values(clean) =~= rest.filter(
                said,
            ).map_values(clean).push(clean(items.last())));
        }
    } else {
        assert(items.filter(said).map_values(clean) =~= Seq::empty());
    }
}

proof fn lemma_files_in(items: Seq<JsonModel>)
    ensures
        files_in(items) == items.filter(|item: JsonModel| names_file(item)),
    decreases items.len(),
{
    reveal(Seq::filter);
    if items.len() > 0 {
        lemma_files_in(items.drop_last());
    }
}

} // verus!
