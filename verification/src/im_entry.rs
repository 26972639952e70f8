//! The places where a session meets its people: the desktop and the chats.
use vstd::prelude::*;

use crate::config::ImMode;
use crate::json::{
    named_members_are_found, no_fields, optional_text, Json, JsonModel, JsonObject,
};
use crate::text::{join2, same};

verus! {

pub const LOCAL_GUI_ENTRY_ID: &'static str = "local_gui";

pub const LOCAL_GUI_PLATFORM: &'static str = "local_gui";

/// How many events a desktop that follows a session can be behind.
pub const LOCAL_EVENT_CAPACITY: usize = 256;

/// Something that a desktop is told.
#[derive(Debug)]
pub struct EntryEvent {
    pub name: String,
    pub data: Json,
}

/// Where a session is bound to.
#[derive(Debug)]
pub struct SessionBinding {
    pub mode: ImMode,
    pub platform: String,
    pub connection_id: String,
    pub conversation_id: Option<String>,
    pub root_message_id: Option<String>,
}

/// The way that something for a session takes.
#[derive(Clone, Copy, Debug, PartialEq, Eq, Structural)]
pub enum EntryRoute {
    LocalGui,
    Slack,
    Nowhere,
}

/// The way of a platform.
pub open spec fn route_of(platform: Seq<char>) -> EntryRoute {
    if platform == "local_gui"@ {
        EntryRoute::LocalGui
    } else if platform == "slack"@ {
        EntryRoute::Slack
    } else {
        EntryRoute::Nowhere
    }
}

/// The way of the platform that a session is bound to; none where it is not bound.
pub fn status_route(platform: Option<&str>) -> (r: EntryRoute)
    ensures
        r == match platform {
            Some(platform) => route_of(platform@),
            None => EntryRoute::Nowhere,
        },
{
    match platform {
        Some(platform) => if same(platform, "local_gui") {
            EntryRoute::LocalGui
        } else if same(platform, "slack") {
            EntryRoute::Slack
        } else {
            EntryRoute::Nowhere
        },
        None => EntryRoute::Nowhere,
    }
}

/// Whether a message may go where it is sent: a session of one thread answers in that thread only.
pub fn validate_destination(
    binding: &SessionBinding,
    conversation_id: &str,
    root_message_id: &str,
) -> (r: Result<(), String>)
    ensures
        match r {
            Ok(_) => binding.mode == ImMode::Proactive || (optional_text(binding.conversation_id)
                == Some(conversation_id@) && optional_text(binding.root_message_id) == Some(
                root_message_id@,
            )),
            Err(message) => {
                &&& binding.mode == ImMode::Normal
                &&& optional_text(binding.conversation_id) != Some(conversation_id@)
                    || optional_text(binding.root_message_id) != Some(root_message_id@)
                &&& message@ == "session_destination_mismatch"@
            },
        },
{
    let conversation = match &binding.conversation_id {
        Some(id) => same(id, conversation_id),
        None => false,
    };
    let root = match &binding.root_message_id {
        Some(id) => same(id, root_message_id),
        None => false,
    };
    match binding.mode {
        ImMode::Normal => {
            if !conversation || !root {
                return Err("session_destination_mismatch".to_owned());
            }
            Ok(())
        },
        ImMode::Proactive => Ok(()),
    }
}

/// Whether a session is one of the desktop.
pub fn ensure_local_session(platform: &str, connection_id: &str) -> (r: Result<(), String>)
    ensures
        match r {
            Ok(_) => platform@ == "local_gui"@ && connection_id@ == "local_gui"@,
            Err(message) => (platform@ != "local_gui"@ || connection_id@ != "local_gui"@)
                && message@ == "session_is_not_local_gui"@,
        },
{
    if !same(platform, "local_gui") || !same(connection_id, "local_gui") {
        return Err("session_is_not_local_gui".to_owned());
    }
    Ok(())
}

/// What is to be done with a message for a session.
#[derive(Clone, Copy, Debug, PartialEq, Eq, Structural)]
pub enum PostStep {
    /// Keep it and show it on the desktop.
    RecordLocally,
    /// Post it to the thread in Slack; `touch_reply` says whether the session takes note of it.
    PostToSlack { touch_reply: bool },
}

/// Where a message for a session goes, or why it goes nowhere. A platform that is not known is
/// refused.
pub fn post_message(
    binding: Option<&SessionBinding>,
    conversation_id: &str,
    root_message_id: &str,
) -> (r: Result<PostStep, String>)
    ensures
        match r {
            Ok(step) => {
                &&& binding is Some
                &&& binding->0.mode == ImMode::Proactive || (optional_text(
                    binding->0.conversation_id,
                ) == Some(conversation_id@) && optional_text(binding->0.root_message_id) == Some(
                    root_message_id@,
                ))
                &&& match route_of(binding->0.platform@) {
                    EntryRoute::LocalGui => step == PostStep::RecordLocally,
                    EntryRoute::Slack => step == (PostStep::PostToSlack {
                        touch_reply: binding->0.mode == ImMode::Normal,
                    }),
                    EntryRoute::Nowhere => false,
                }
            },
            Err(message) => match binding {
                None => message@ == "session_not_found"@,
                Some(binding) => if binding.mode == ImMode::Normal && (optional_text(
                    binding.conversation_id,
                ) != Some(conversation_id@) || optional_text(binding.root_message_id) != Some(
                    root_message_id@,
                )) {
                    message@ == "session_destination_mismatch"@
                } else {
                    route_of(binding.platform@) == EntryRoute::Nowhere && message@
                        == "unsupported_im_entry: "@ + binding.platform@
                },
            },
        },
{
    let binding = match binding {
        Some(binding) => binding,
        None => {
            return Err("session_not_found".to_owned());
        },
    };
    match validate_destination(binding, conversation_id, root_message_id) {
        Ok(_) => {},
        Err(message) => {
            return Err(message);
        },
    }
    match status_route(Some(&binding.platform)) {
        EntryRoute::LocalGui => Ok(PostStep::RecordLocally),
        EntryRoute::Slack => {
            let touch_reply = match binding.mode {
                ImMode::Normal => true,
                ImMode::Proactive => false,
            };
            Ok(PostStep::PostToSlack { touch_reply })
        },
        EntryRoute::Nowhere => Err(join2("unsupported_im_entry: ", &binding.platform)),
    }
}

/// A message as a desktop is shown it.
pub open spec fn visible_json(role: Seq<char>, text: Seq<char>) -> JsonModel {
    JsonModel::Object(
        no_fields().push(("type"@, JsonModel::Text("message"@))).push(
            ("role"@, JsonModel::Text(role)),
        ).push(("content"@, JsonModel::Text(text))),
    )
}

pub fn visible_message_json(role: &str, text: &str) -> (r: Json)
    ensures
        r@ == visible_json(role@, text@),
{
    JsonObject::new().with("type", Json::text("message")).with("role", Json::text(role)).with(
        "content",
        Json::text(text),
    ).done()
}

/// What a desktop is told of a message.
pub fn message_event(role: &str, text: &str) -> (r: EntryEvent)
    ensures
        r.name@ == "message"@,
        r.data@ == visible_json(role@, text@),
{
    EntryEvent { name: "message".to_owned(), data: visible_message_json(role, text) }
}

/// What a desktop is told of a status.
pub fn status_event(status: Json) -> (r: EntryEvent)
    ensures
        r.name@ == "status"@,
        r.data == status,
{
    EntryEvent { name: "status".to_owned(), data: status }
}

/// The status of a session that is cleared.
pub fn cleared_status() -> (r: Json)
    ensures
        r@ == JsonModel::Object(no_fields().push(("state"@, JsonModel::Text("clear"@)))),
{
    JsonObject::new().with("state", Json::text("clear")).done()
}

/// What is for the desktop goes there, what is for Slack goes to Slack, and what is for any other
/// platform goes nowhere.
pub proof fn platforms_have_one_way(platform: Seq<char>)
    ensures
        route_of(platform) is LocalGui <==> platform == "local_gui"@,
        route_of(platform) is Slack <==> platform == "slack"@,
{
    reveal_strlit("local_gui");
    reveal_strlit("slack");
    assert("local_gui"@.len() != "slack"@.len());
}

/// A desktop is shown who said what.
pub proof fn desktops_are_shown_messages(role: Seq<char>, text: Seq<char>)
    ensures
        visible_json(role, text).get("type"@) == Some(JsonModel::Text("message"@)),
        visible_json(role, text).get("role"@) == Some(JsonModel::Text(role)),
        visible_json(role, text).get("content"@) == Some(JsonModel::Text(text)),
{
    reveal_strlit("type");
    reveal_strlit("role");
    reveal_strlit("content");
    assert("type"@[0] != "role"@[0]);
    let fields = visible_json(role, text)->Object_0;
    assert(fields[0].0 == "type"@ && fields[1].0 == "role"@ && fields[2].0 == "content"@);
    named_members_are_found(fields);
}

} // verus!
