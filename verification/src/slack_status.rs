//! The status line of a Slack thread: what is shown, what is to be shown next, and how.
use vstd::prelude::*;
use vstd::utf8::{encode_utf8, is_ascii_chars, is_ascii_chars_encode_utf8};

use crate::json::{json_in_bytes, optional_str, optional_text, parse_bytes, Json, JsonModel};
use crate::text::{contains, has_part, is_blank, join3, join_all, joined_with, same, texts, trim};
use crate::text_map::TextMap;

verus! {

/// The reaction that stands for activity where a status line cannot be shown.
pub const EYES: &'static str = "eyes";

/// One thread: the status that Slack shows, the one that is to come, and whether somebody is at it.
#[derive(Debug)]
pub struct ThreadState {
    pub last_status: String,
    pub pending: Option<String>,
    pub fallback_only: bool,
    pub flushing: bool,
}

/// What a thread is at.
pub struct ThreadModel {
    pub last_status: Seq<char>,
    pub pending: Option<Seq<char>>,
    pub fallback_only: bool,
    pub flushing: bool,
}

impl View for ThreadState {
    type V = ThreadModel;

    open spec fn view(&self) -> ThreadModel {
        ThreadModel {
            last_status: self.last_status@,
            pending: optional_text(self.pending),
            fallback_only: self.fallback_only,
            flushing: self.flushing,
        }
    }
}

/// A thread that nothing was shown in.
pub open spec fn quiet() -> ThreadModel {
    ThreadModel {
        last_status: Seq::empty(),
        pending: None,
        fallback_only: false,
        flushing: false,
    }
}

impl ThreadModel {
    /// The status that the thread shows or will show.
    pub open spec fn wanted(self) -> Seq<char> {
        match self.pending {
            Some(status) => status,
            None => self.last_status,
        }
    }
}

/// How a status was shown.
#[derive(Clone, Copy, Debug, PartialEq, Eq, Structural)]
pub enum Delivered {
    Status,
    Reaction,
    Failed,
}

/// The thread once `status` is asked for.
pub open spec fn asked(thread: ThreadModel, status: Seq<char>) -> ThreadModel {
    if thread.wanted() == status {
        thread
    } else {
        ThreadModel { pending: Some(status), flushing: true, ..thread }
    }
}

/// The thread once its pending status is taken, or found to be shown.
pub open spec fn taken(thread: ThreadModel) -> ThreadModel {
    ThreadModel {
        pending: None,
        flushing: thread.pending is Some && thread.pending->0 != thread.last_status
            && thread.flushing,
        ..thread
    }
}

/// The status that is to be shown, if it is not shown already.
pub open spec fn due(thread: ThreadModel) -> Option<Seq<char>> {
    match thread.pending {
        Some(status) => if status != thread.last_status {
            Some(status)
        } else {
            None
        },
        None => None,
    }
}

/// The thread once `status` was shown, or not.
pub open spec fn settled(
    thread: ThreadModel,
    status: Seq<char>,
    delivered: Delivered,
) -> ThreadModel {
    match delivered {
        Delivered::Status => ThreadModel { last_status: status, fallback_only: false, ..thread },
        Delivered::Reaction => ThreadModel { last_status: status, fallback_only: true, ..thread },
        Delivered::Failed => thread,
    }
}

impl ThreadState {
    pub fn new() -> (r: ThreadState)
        ensures
            r@ == quiet(),
    {
        ThreadState {
            last_status: String::new(),
            pending: None,
            fallback_only: false,
            flushing: false,
        }
    }

    /// Asks for a status. Says whether somebody has to start showing it.
    pub fn ask(&mut self, status: &str) -> (r: bool)
        ensures
            final(self)@ == asked(old(self)@, status@),
            r == (old(self)@.wanted() != status@ && !old(self)@.flushing),
    {
        let shown = match &self.pending {
            Some(pending) => same(pending, status),
            None => same(&self.last_status, status),
        };
        if shown {
            return false;
        }
        self.pending = Some(status.to_owned());
        if self.flushing {
            return false;
        }
        self.flushing = true;
        true
    }

    /// The status to show next; none ends the showing.
    pub fn next(&mut self) -> (r: Option<String>)
        requires
            old(self)@.flushing,
        ensures
            final(self)@ == taken(old(self)@),
            optional_text(r) == due(old(self)@),
    {
        match self.pending.take() {
            Some(status) => {
                if same(&status, &self.last_status) {
                    self.flushing = false;
                    None
                } else {
                    Some(status)
                }
            },
            None => {
                self.flushing = false;
                None
            },
        }
    }

    /// Takes note of how a status was shown.
    pub fn settle(&mut self, status: &str, delivered: Delivered)
        ensures
            final(self)@ == settled(old(self)@, status@, delivered),
    {
        match delivered {
            Delivered::Status => {
                self.fallback_only = false;
                self.last_status = status.to_owned();
            },
            Delivered::Reaction => {
                self.fallback_only = true;
                self.last_status = status.to_owned();
            },
            Delivered::Failed => {},
        }
    }
}

/// The key of a thread, if it has a channel and a first message.
pub fn thread_key(channel_id: &str, thread_ts: &str) -> (r: Option<String>)
    ensures
        optional_text(r) == if channel_id@.len() == 0 || thread_ts@.len() == 0 {
            None
        } else {
            Some(channel_id@ + ":"@ + thread_ts@)
        },
{
    if channel_id.is_empty() || thread_ts.is_empty() {
        return None;
    }
    Some(join3(channel_id, ":", thread_ts))
}

/// The threads of a workspace, by their keys.
#[derive(Debug)]
pub struct AssistantThreads {
    pub threads: TextMap<ThreadState>,
}

impl AssistantThreads {
    pub open spec fn well_formed(&self) -> bool {
        self.threads.well_formed()
    }

    /// What a thread is at; quiet where it is not known.
    pub open spec fn thread(&self, key: Seq<char>) -> ThreadModel {
        if self.threads@.contains_key(key) {
            self.threads@[key]@
        } else {
            quiet()
        }
    }

    pub fn new() -> (r: AssistantThreads)
        ensures
            r.well_formed(),
            forall|key: Seq<char>| r.thread(key) == quiet(),
    {
        AssistantThreads { threads: TextMap::new() }
    }

    /// Asks for a status in a thread. Says whether somebody has to start showing it.
    pub fn set_thread(&mut self, key: &str, status: &str) -> (r: bool)
        requires
            old(self).well_formed(),
        ensures
            final(self).well_formed(),
            final(self).thread(key@) == asked(old(self).thread(key@), status@),
            r == (old(self).thread(key@).wanted() != status@ && !old(self).thread(key@).flushing),
            forall|other: Seq<char>|
                other != key@ ==> #[trigger] final(self).thread(other) == old(self).thread(other),
    {
        let mut thread = match self.threads.remove(key) {
            Some(thread) => thread,
            None => ThreadState::new(),
        };
        let start = thread.ask(status);
        let _ = self.threads.insert(key, thread);
        start
    }

    /// The status to show next in a thread, and whether only a reaction can be shown there; none
    /// ends the showing.
    pub fn next(&mut self, key: &str) -> (r: Option<(String, bool)>)
        requires
            old(self).well_formed(),
            old(self).thread(key@).flushing,
        ensures
            final(self).well_formed(),
            final(self).thread(key@) == taken(old(self).thread(key@)),
            match r {
                Some((status, fallback_only)) => due(old(self).thread(key@)) == Some(status@)
                    && fallback_only == old(self).thread(key@).fallback_only,
                None => due(old(self).thread(key@)) is None,
            },
            forall|other: Seq<char>|
                other != key@ ==> #[trigger] final(self).thread(other) == old(self).thread(other),
    {
        let mut thread = match self.threads.remove(key) {
            Some(thread) => thread,
            None => ThreadState::new(),
        };
        let next = thread.next();
        let fallback_only = thread.fallback_only;
        let _ = self.threads.insert(key, thread);
        match next {
            Some(status) => Some((status, fallback_only)),
            None => None,
        }
    }

    /// Takes note of how a status was shown in a thread.
    pub fn settle(&mut self, key: &str, status: &str, delivered: Delivered)
        requires
            old(self).well_formed(),
        ensures
            final(self).well_formed(),
            final(self).thread(key@) == settled(old(self).thread(key@), status@, delivered),
            forall|other: Seq<char>|
                other != key@ ==> #[trigger] final(self).thread(other) == old(self).thread(other),
    {
        let mut thread = match self.threads.remove(key) {
            Some(thread) => thread,
            None => ThreadState::new(),
        };
        thread.settle(status, delivered);
        let _ = self.threads.insert(key, thread);
    }
}

/// Whether an error of Slack says that a status line cannot be shown at all.
pub open spec fn is_unsupported(error: Seq<char>) -> bool {
    has_part(error, "missing_scope"@) || has_part(error, "unknown_method"@) || has_part(
        error,
        "not_allowed"@,
    ) || has_part(error, "not_enabled"@) || has_part(error, "is_bot"@) || has_part(
        error,
        "unsupported"@,
    ) || has_part(error, "feature_not_enabled"@) || has_part(error, "invalid_arguments"@)
}

pub fn should_fallback(error: &str) -> (r: bool)
    ensures
        r == is_unsupported(error@),
{
    contains(error, "missing_scope") || contains(error, "unknown_method") || contains(
        error,
        "not_allowed",
    ) || contains(error, "not_enabled") || contains(error, "is_bot") || contains(
        error,
        "unsupported",
    ) || contains(error, "feature_not_enabled") || contains(error, "invalid_arguments")
}

/// What to do with a status.
#[derive(Clone, Copy, Debug, PartialEq, Eq, Structural)]
pub enum DeliveryStep {
    /// Set the status line.
    SetStatus,
    /// Remove the reaction, whatever comes of it; the status is shown.
    RemoveEyes,
    /// Show the status as a reaction.
    React,
    /// Give up.
    Fail,
}

/// How showing a status starts.
pub fn first_step(fallback_only: bool) -> (r: DeliveryStep)
    ensures
        r == (if fallback_only {
            DeliveryStep::React
        } else {
            DeliveryStep::SetStatus
        }),
{
    if fallback_only {
        DeliveryStep::React
    } else {
        DeliveryStep::SetStatus
    }
}

/// What follows an attempt to set the status line.
pub open spec fn step_after_status(error: Option<Seq<char>>) -> DeliveryStep {
    match error {
        None => DeliveryStep::RemoveEyes,
        Some(error) => if is_unsupported(error) {
            DeliveryStep::React
        } else {
            DeliveryStep::Fail
        },
    }
}

pub fn after_set_status(error: Option<&str>) -> (r: DeliveryStep)
    ensures
        r == step_after_status(optional_str(error)),
{
    match error {
        None => DeliveryStep::RemoveEyes,
        Some(error) => if should_fallback(error) {
            DeliveryStep::React
        } else {
            DeliveryStep::Fail
        },
    }
}

/// The method that shows a status as a reaction: it takes the reaction away where there is nothing
/// to show.
pub open spec fn shown_by(status: Seq<char>) -> Seq<char> {
    if is_blank(status) {
        "reactions.remove"@
    } else {
        "reactions.add"@
    }
}

pub fn reaction_method(status: &str) -> (r: &'static str)
    ensures
        r@ == shown_by(status@),
{
    if trim(status).as_str().is_empty() {
        "reactions.remove"
    } else {
        "reactions.add"
    }
}

/// How a status was shown by a reaction. One that is as it should be already is as good.
pub open spec fn delivered_by_reaction(error: Option<Seq<char>>) -> Delivered {
    match error {
        None => Delivered::Reaction,
        Some(error) => if has_part(error, "already_reacted"@) || has_part(error, "no_reaction"@) {
            Delivered::Reaction
        } else {
            Delivered::Failed
        },
    }
}

pub fn after_reaction(error: Option<&str>) -> (r: Delivered)
    ensures
        r == delivered_by_reaction(optional_str(error)),
{
    match error {
        None => Delivered::Reaction,
        Some(error) => if contains(error, "already_reacted") || contains(error, "no_reaction") {
            Delivered::Reaction
        } else {
            Delivered::Failed
        },
    }
}

/// What follows a step.
#[derive(Clone, Copy, Debug, PartialEq, Eq, Structural)]
pub enum AfterStep {
    /// Another step.
    Next(DeliveryStep),
    /// Nothing: this came of it.
    Done(Delivered),
}

/// What follows a step whose request went wrong with `error`, or went well. A status line that was
/// set is shown, whatever comes of removing the reaction.
pub open spec fn step_leads_to(step: DeliveryStep, error: Option<Seq<char>>) -> AfterStep {
    match step {
        DeliveryStep::SetStatus => AfterStep::Next(step_after_status(error)),
        DeliveryStep::RemoveEyes => AfterStep::Done(Delivered::Status),
        DeliveryStep::React => AfterStep::Done(delivered_by_reaction(error)),
        DeliveryStep::Fail => AfterStep::Done(Delivered::Failed),
    }
}

pub fn after_step(step: DeliveryStep, error: Option<&str>) -> (r: AfterStep)
    ensures
        r == step_leads_to(step, optional_str(error)),
{
    match step {
        DeliveryStep::SetStatus => AfterStep::Next(after_set_status(error)),
        DeliveryStep::RemoveEyes => AfterStep::Done(Delivered::Status),
        DeliveryStep::React => AfterStep::Done(after_reaction(error)),
        DeliveryStep::Fail => AfterStep::Done(Delivered::Failed),
    }
}

/// What comes of a status when setting its line gives `first` and the reaction that follows it, or
/// stands in for it, gives `second`.
pub open spec fn delivery(
    fallback_only: bool,
    first: Option<Seq<char>>,
    second: Option<Seq<char>>,
) -> Delivered {
    if fallback_only {
        delivered_by_reaction(second)
    } else {
        match first {
            None => Delivered::Status,
            Some(error) => if is_unsupported(error) {
                delivered_by_reaction(second)
            } else {
                Delivered::Failed
            },
        }
    }
}

/// A status is settled after at most two steps: its line is tried unless only reactions are wanted,
/// and a reaction shows it where a line cannot.
pub proof fn delivery_ends_after_two_steps(
    fallback_only: bool,
    first: Option<Seq<char>>,
    second: Option<Seq<char>>,
)
    ensures
        fallback_only ==> step_leads_to(DeliveryStep::React, second) == AfterStep::Done(
            delivery(fallback_only, first, second),
        ),
        !fallback_only ==> (step_leads_to(DeliveryStep::SetStatus, first) matches AfterStep::Next(
            step,
        ) && step_leads_to(step, second) == AfterStep::Done(
            delivery(fallback_only, first, second),
        )),
{
}

/// What an answer of Slack says is wrong, if anything is.
pub open spec fn told_error(method: Seq<char>, payload: JsonModel) -> Option<Seq<char>> {
    if payload.get("ok"@) == Some(JsonModel::Bool(true)) {
        None
    } else {
        Some(
            "Slack API error for "@ + method + ": "@ + match payload.text_at("error"@) {
                Some(error) => error,
                None => "unknown_error"@,
            },
        )
    }
}

/// Reads the content of an answer of Slack: what is wrong, if anything is.
pub fn slack_answer(method: &str, content: &Vec<u8>) -> (r: Option<String>)
    ensures
        optional_text(r) == match json_in_bytes(content@) {
            Some(payload) => told_error(method@, payload),
            None => Some("slack "@ + method@ + " json"@),
        },
{
    match parse_bytes(content) {
        Some(payload) => slack_error(method, &payload),
        None => Some(join3("slack ", method, " json")),
    }
}

pub fn slack_error(method: &str, payload: &Json) -> (r: Option<String>)
    ensures
        optional_text(r) == told_error(method@, payload@),
{
    let ok = match payload.get("ok") {
        Some(Json::Bool(ok)) => *ok,
        _ => false,
    };
    if ok {
        return None;
    }
    let mut message = join3("Slack API error for ", method, ": ");
    match payload.str_at("error") {
        Some(error) => message.append(error),
        None => message.append("unknown_error"),
    }
    Some(message)
}

/// The character of one hexadecimal digit, in capitals.
pub open spec fn hex_upper(d: nat) -> char {
    if d < 10 {
        ((48 + d) as u32) as char
    } else {
        ((55 + d) as u32) as char
    }
}

/// Whether a byte stands for itself in a form.
pub open spec fn is_unreserved(byte: u8) -> bool {
    65 <= byte <= 90 || 97 <= byte <= 122 || 48 <= byte <= 57 || byte == 45 || byte == 95 || byte
        == 46 || byte == 126
}

/// One byte in a form.
pub open spec fn form_byte(byte: u8) -> Seq<char> {
    if is_unreserved(byte) {
        seq![byte as char]
    } else if byte == 32 {
        seq!['+']
    } else {
        seq!['%', hex_upper((byte / 16) as nat), hex_upper((byte % 16) as nat)]
    }
}

/// Bytes in a form.
pub open spec fn form_bytes(bytes: Seq<u8>) -> Seq<char>
    decreases bytes.len(),
{
    if bytes.len() == 0 {
        Seq::empty()
    } else {
        form_bytes(bytes.drop_last()) + form_byte(bytes.last())
    }
}

fn hex_digit(d: u8) -> (r: char)
    requires
        d < 16,
    ensures
        r == hex_upper(d as nat),
{
    let code: u8 = if d < 10 {
        48 + d
    } else {
        55 + d
    };
    code as char
}

/// A text in a form.
pub fn urlencode(value: &str) -> (r: String)
    ensures
        r@ == form_bytes(encode_utf8(value@)),
{
    let bytes = value.as_bytes();
    let mut out: String = String::new();
    let mut i: usize = 0;
    while i < bytes.len()
        invariant
            i <= bytes.len(),
            bytes@ == encode_utf8(value@),
            out@ == form_bytes(bytes@.take(i as int)),
        decreases bytes.len() - i,
    {
        let byte: u8 = bytes[i];
        let ghost before = out@;
        proof {
            assert(bytes@.take(i + 1).drop_last() =~= bytes@.take(i as int));
        }
        if (65 <= byte && byte <= 90) || (97 <= byte && byte <= 122) || (48 <= byte && byte <= 57)
            || byte == 45 || byte == 95 || byte == 46 || byte == 126 {
            out.push(byte as char);
        } else if byte == 32 {
            out.push('+');
        } else {
            out.push('%');
            out.push(hex_digit(byte / 16));
            out.push(hex_digit(byte % 16));
        }
        proof {
            assert(out@ =~= before + form_byte(byte));
        }
        i = i + 1;
    }
    proof {
        assert(bytes@.take(bytes@.len() as int) =~= bytes@);
    }
    out
}

/// A field of a form.
pub open spec fn form_field(name: Seq<char>, value: Seq<char>) -> Seq<char> {
    form_bytes(encode_utf8(name)) + "="@ + form_bytes(encode_utf8(value))
}

/// The body of a form.
pub fn form_body(fields: &Vec<(String, String)>) -> (r: String)
    ensures
        r@ == joined_with(
            fields@.map_values(|field: (String, String)| form_field(field.0@, field.1@)),
            "&"@,
        ),
{
    let mut parts: Vec<String> = Vec::new();
    let mut i: usize = 0;
    while i < fields.len()
        invariant
            i <= fields.len(),
            parts@.len() == i,
            forall|j: int| 0 <= j < i ==> (#[trigger] parts@[j])@ == form_field(
                fields@[j].0@,
                fields@[j].1@,
            ),
        decreases fields.len() - i,
    {
        parts.push(join3(&urlencode(&fields[i].0), "=", &urlencode(&fields[i].1)));
        i = i + 1;
    }
    proof {
        assert(texts(parts@) =~= fields@.map_values(
            |field: (String, String)| form_field(field.0@, field.1@),
        ));
    }
    join_all(&parts, "&")
}

/// The form of three fields.
pub open spec fn form_of(
    first: (Seq<char>, Seq<char>),
    second: (Seq<char>, Seq<char>),
    third: (Seq<char>, Seq<char>),
) -> Seq<char> {
    joined_with(
        seq![
            form_field(first.0, first.1),
            form_field(second.0, second.1),
            form_field(third.0, third.1),
        ],
        "&"@,
    )
}

fn form_body3(first: (&str, &str), second: (&str, &str), third: (&str, &str)) -> (r: String)
    ensures
        r@ == form_of((first.0@, first.1@), (second.0@, second.1@), (third.0@, third.1@)),
{
    let mut fields: Vec<(String, String)> = Vec::new();
    fields.push((first.0.to_owned(), first.1.to_owned()));
    fields.push((second.0.to_owned(), second.1.to_owned()));
    fields.push((third.0.to_owned(), third.1.to_owned()));
    proof {
        assert(fields@.map_values(|field: (String, String)| form_field(field.0@, field.1@)) =~= seq![
            form_field(first.0@, first.1@),
            form_field(second.0@, second.1@),
            form_field(third.0@, third.1@),
        ]);
    }
    form_body(&fields)
}

/// The form that sets the status line of a thread.
pub open spec fn status_fields(
    channel_id: Seq<char>,
    thread_ts: Seq<char>,
    status: Seq<char>,
) -> Seq<char> {
    form_of(("channel_id"@, channel_id), ("thread_ts"@, thread_ts), ("status"@, status))
}

pub fn status_form(channel_id: &str, thread_ts: &str, status: &str) -> (r: String)
    ensures
        r@ == status_fields(channel_id@, thread_ts@, status@),
{
    form_body3(("channel_id", channel_id), ("thread_ts", thread_ts), ("status", status))
}

/// The form that adds or removes the reaction on the first message of a thread.
pub open spec fn reaction_fields(channel_id: Seq<char>, thread_ts: Seq<char>) -> Seq<char> {
    form_of(("channel"@, channel_id), ("timestamp"@, thread_ts), ("name"@, "eyes"@))
}

pub fn reaction_form(channel_id: &str, thread_ts: &str) -> (r: String)
    ensures
        r@ == reaction_fields(channel_id@, thread_ts@),
{
    form_body3(("channel", channel_id), ("timestamp", thread_ts), ("name", EYES))
}

/// The method and the form that a step sends to Slack; none where it sends nothing.
pub open spec fn step_sends(
    step: DeliveryStep,
    channel_id: Seq<char>,
    thread_ts: Seq<char>,
    status: Seq<char>,
) -> Option<(Seq<char>, Seq<char>)> {
    match step {
        DeliveryStep::SetStatus => Some(
            ("assistant.threads.setStatus"@, status_fields(channel_id, thread_ts, status)),
        ),
        DeliveryStep::RemoveEyes => Some(
            ("reactions.remove"@, reaction_fields(channel_id, thread_ts)),
        ),
        DeliveryStep::React => Some(
            (shown_by(status), reaction_fields(channel_id, thread_ts)),
        ),
        DeliveryStep::Fail => None,
    }
}

pub fn step_request(step: DeliveryStep, channel_id: &str, thread_ts: &str, status: &str) -> (r:
    Option<(&'static str, String)>)
    ensures
        match r {
            Some((method, body)) => step_sends(step, channel_id@, thread_ts@, status@) == Some(
                (method@, body@),
            ),
            None => step_sends(step, channel_id@, thread_ts@, status@) is None,
        },
{
    match step {
        DeliveryStep::SetStatus => Some(
            ("assistant.threads.setStatus", status_form(channel_id, thread_ts, status)),
        ),
        DeliveryStep::RemoveEyes => Some(
            ("reactions.remove", reaction_form(channel_id, thread_ts)),
        ),
        DeliveryStep::React => Some(
            (reaction_method(status), reaction_form(channel_id, thread_ts)),
        ),
        DeliveryStep::Fail => None,
    }
}

/// Whatever was shown and whatever was waiting, the status that was asked for last is the one that
/// the thread will show.
pub proof fn last_status_wins(thread: ThreadModel, status: Seq<char>)
    ensures
        asked(thread, status).wanted() == status,
        asked(asked(thread, status), status) == asked(thread, status),
{
}

/// A status that Slack shows already is not sent again.
pub proof fn shown_status_is_not_sent_again(thread: ThreadModel, status: Seq<char>)
    requires
        due(thread) == Some(status),
    ensures
        status != thread.last_status,
        due(asked(settled(taken(thread), status, Delivered::Status), status)) is None,
        due(asked(settled(taken(thread), status, Delivered::Reaction), status)) is None,
{
}

/// The value of a hexadecimal digit in capitals.
pub open spec fn hex_value(c: char) -> int {
    if c <= '9' {
        (c as u32) - 48
    } else {
        (c as u32) - 55
    }
}

/// The bytes that a form stands for.
pub open spec fn unformed(s: Seq<char>) -> Seq<u8>
    decreases s.len(),
{
    if s.len() == 0 {
        Seq::empty()
    } else if s[0] == '%' && s.len() >= 3 {
        seq![(hex_value(s[1]) * 16 + hex_value(s[2])) as u8] + unformed(s.skip(3))
    } else if s[0] == '+' {
        seq![32u8] + unformed(s.skip(1))
    } else {
        seq![s[0] as u8] + unformed(s.skip(1))
    }
}

proof fn lemma_form_first(bytes: Seq<u8>)
    requires
        bytes.len() > 0,
    ensures
        form_bytes(bytes) == form_byte(bytes[0]) + form_bytes(bytes.drop_first()),
    decreases bytes.len(),
{
    if bytes.len() == 1 {
        assert(bytes.drop_last() =~= Seq::<u8>::empty());
        assert(bytes.drop_first() =~= Seq::<u8>::empty());
        assert(form_bytes(bytes) =~= form_byte(bytes[0]) + form_bytes(bytes.drop_first()));
    } else {
        lemma_form_first(bytes.drop_last());
        let rest = bytes.drop_first();
        assert(rest.drop_last() =~= bytes.drop_last().drop_first());
        assert(form_bytes(bytes) =~= form_byte(bytes[0]) + form_bytes(rest));
    }
}

/// A form loses nothing: the bytes that it was made of can be read from it.
pub proof fn forms_lose_nothing(bytes: Seq<u8>)
    ensures
        unformed(form_bytes(bytes)) == bytes,
    decreases bytes.len(),
{
    if bytes.len() == 0 {
        assert(unformed(form_bytes(bytes)) =~= bytes);
    } else {
        let byte = bytes[0];
        let rest = bytes.drop_first();
        lemma_form_first(bytes);
        forms_lose_nothing(rest);
        let s = form_bytes(bytes);
        let head = form_byte(byte);
        assert(s.skip(head.len() as int) =~= form_bytes(rest));
        assert(s[0] == head[0]);
        if !is_unreserved(byte) && byte != 32 {
            assert(s[1] == head[1] && s[2] == head[2]);
            assert(hex_value(hex_upper((byte / 16) as nat)) == byte / 16);
            assert(hex_value(hex_upper((byte % 16) as nat)) == byte % 16);
        }
        assert(unformed(s) =~= seq![byte] + rest);
        assert(seq![byte] + rest =~= bytes);
    }
}

/// A thread is shown its statuses one at a time: while there is one that it does not show somebody
/// goes on, and stops when there is none. A status that was shown is the last one; the way that
/// worked is tried first the next time; and where showing failed everything stays as it was.
pub proof fn threads_are_shown_what_is_due(
    thread: ThreadModel,
    status: Seq<char>,
    delivered: Delivered,
)
    ensures
        due(thread) is Some <==> thread.pending is Some && thread.pending->0 != thread.last_status,
        due(thread) matches Some(next) ==> thread.pending == Some(next),
        thread.flushing ==> (taken(thread).flushing <==> due(thread) is Some),
        taken(thread).pending is None,
        taken(thread).last_status == thread.last_status && taken(thread).fallback_only
            == thread.fallback_only,
        ({
            let after = settled(thread, status, delivered);
            &&& delivered is Failed ==> after == thread
            &&& !(delivered is Failed) ==> after.last_status == status
            &&& delivered is Reaction ==> after.fallback_only
            &&& delivered is Status ==> !after.fallback_only
            &&& after.pending == thread.pending && after.flushing == thread.flushing
        }),
        ({
            let after = asked(thread, status);
            &&& thread.wanted() != status ==> after.pending == Some(status) && after.flushing
            &&& thread.wanted() == status ==> after == thread
            &&& after.last_status == thread.last_status && after.fallback_only
                == thread.fallback_only
        }),
        quiet().last_status.len() == 0 && quiet().pending is None && !quiet().flushing
            && !quiet().fallback_only,
{
}

/// A status line that Slack cannot show at all is replaced by a reaction, and any other error gives
/// up. Slack says that it cannot by one of eight words.
pub proof fn unsupported_lines_become_reactions(error: Seq<char>)
    ensures
        step_leads_to(DeliveryStep::SetStatus, None) == AfterStep::Next(DeliveryStep::RemoveEyes),
        ({
            let unsupported = {
                ||| has_part(error, "missing_scope"@)
                ||| has_part(error, "unknown_method"@)
                ||| has_part(error, "not_allowed"@)
                ||| has_part(error, "not_enabled"@)
                ||| has_part(error, "is_bot"@)
                ||| has_part(error, "unsupported"@)
                ||| has_part(error, "feature_not_enabled"@)
                ||| has_part(error, "invalid_arguments"@)
            };
            step_leads_to(DeliveryStep::SetStatus, Some(error)) == AfterStep::Next(
                if unsupported {
                    DeliveryStep::React
                } else {
                    DeliveryStep::Fail
                },
            )
        }),
        forall|any: Option<Seq<char>>| #[trigger]
            step_leads_to(DeliveryStep::RemoveEyes, any) == AfterStep::Done(Delivered::Status),
        forall|any: Option<Seq<char>>| #[trigger]
            step_leads_to(DeliveryStep::Fail, any) == AfterStep::Done(Delivered::Failed),
        step_leads_to(DeliveryStep::React, None) == AfterStep::Done(Delivered::Reaction),
        step_leads_to(DeliveryStep::React, Some(error)) == AfterStep::Done(
            if has_part(error, "already_reacted"@) || has_part(error, "no_reaction"@) {
                Delivered::Reaction
            } else {
                Delivered::Failed
            },
        ),
{
}

/// An answer of Slack is good exactly where its `ok` is true; else it says what is wrong.
pub proof fn answers_are_good_or_say_why(method: Seq<char>, payload: JsonModel)
    ensures
        told_error(method, payload) is None <==> payload.get("ok"@) == Some(JsonModel::Bool(true)),
        told_error(method, payload) matches Some(told) ==> told == "Slack API error for "@ + method
            + ": "@ + match payload.get("error"@) {
            Some(JsonModel::Text(error)) => error,
            _ => "unknown_error"@,
        },
{
}

/// In a form ASCII letters and digits and `-`, `_`, `.` and `~` stand for themselves, a space is a
/// plus, and any other byte is a percent sign and two hexadecimal digits in capitals.
pub proof fn forms_escape_all_but_plain_bytes(byte: u8)
    ensures
        ({
            let plain = {
                ||| 'a' as u8 <= byte <= 'z' as u8
                ||| 'A' as u8 <= byte <= 'Z' as u8
                ||| '0' as u8 <= byte <= '9' as u8
                ||| byte == '-' as u8 || byte == '_' as u8 || byte == '.' as u8 || byte == '~' as u8
            };
            &&& plain ==> form_byte(byte) == seq![byte as char]
            &&& byte == ' ' as u8 ==> form_byte(byte) == seq!['+']
            &&& !plain && byte != ' ' as u8 ==> form_byte(byte).len() == 3 && form_byte(byte)[0]
                == '%' && hex_value(form_byte(byte)[1]) * 16 + hex_value(form_byte(byte)[2]) == byte
                && (forall|i: int|
                1 <= i < 3 ==> '0' <= #[trigger] form_byte(byte)[i] <= '9' || 'A'
                    <= form_byte(byte)[i] <= 'F')
        }),
{
    assert(hex_value(hex_upper((byte / 16) as nat)) == byte / 16);
    assert(hex_value(hex_upper((byte % 16) as nat)) == byte % 16);
}

proof fn lemma_form_plain(text: Seq<char>)
    requires
        forall|i: int|
            0 <= i < text.len() ==> {
                ||| 'a' <= #[trigger] text[i] <= 'z'
                ||| text[i] == '_'
            },
    ensures
        form_bytes(encode_utf8(text)) == text,
{
    assert(is_ascii_chars(text)) by {
        assert forall|i: int| 0 <= i < text.len() implies (0 <= (#[trigger] text[i] as nat) < 128) by {
            assert('a' <= text[i] <= 'z' || text[i] == '_');
        }
    }
    is_ascii_chars_encode_utf8(text);
    lemma_form_plain_bytes(encode_utf8(text), text);
}

proof fn lemma_form_plain_bytes(bytes: Seq<u8>, text: Seq<char>)
    requires
        bytes.len() == text.len(),
        forall|i: int|
            0 <= i < text.len() ==> text[i] as u8 == #[trigger] bytes[i] && ('a' <= text[i] <= 'z'
                || text[i] == '_'),
    ensures
        form_bytes(bytes) == text,
    decreases bytes.len(),
{
    if bytes.len() > 0 {
        let last = bytes.len() - 1;
        assert forall|i: int| 0 <= i < last implies text.drop_last()[i] as u8
            == #[trigger] bytes.drop_last()[i] && ('a' <= text.drop_last()[i] <= 'z'
            || text.drop_last()[i] == '_') by {
            assert(bytes[i] == bytes.drop_last()[i]);
        }
        lemma_form_plain_bytes(bytes.drop_last(), text.drop_last());
        assert(text[last] as u8 == bytes[last]);
        assert(is_unreserved(bytes.last()));
        assert(bytes.last() as char == text.last());
        assert(form_bytes(bytes) =~= text);
    } else {
        assert(text =~= Seq::empty());
    }
}

/// A status line is set by its channel, its thread and its text, in this order; a reaction by its
/// channel, its message and the eyes.
pub proof fn requests_name_what_they_show(
    channel_id: Seq<char>,
    thread_ts: Seq<char>,
    status: Seq<char>,
)
    ensures
        step_sends(DeliveryStep::SetStatus, channel_id, thread_ts, status) == Some(
            (
                "assistant.threads.setStatus"@,
                "channel_id="@ + form_bytes(encode_utf8(channel_id)) + "&thread_ts="@ + form_bytes(
                    encode_utf8(thread_ts),
                ) + "&status="@ + form_bytes(encode_utf8(status)),
            ),
        ),
        ({
            let mark = "channel="@ + form_bytes(encode_utf8(channel_id)) + "&timestamp="@
                + form_bytes(encode_utf8(thread_ts)) + "&name=eyes"@;
            &&& step_sends(DeliveryStep::RemoveEyes, channel_id, thread_ts, status) == Some(
                ("reactions.remove"@, mark),
            )
            &&& step_sends(DeliveryStep::React, channel_id, thread_ts, status) == Some(
                (
                    if is_blank(status) {
                        "reactions.remove"@
                    } else {
                        "reactions.add"@
                    },
                    mark,
                ),
            )
        }),
        step_sends(DeliveryStep::Fail, channel_id, thread_ts, status) is None,
{
    let a = form_bytes(encode_utf8(channel_id));
    let b = form_bytes(encode_utf8(thread_ts));
    let c = form_bytes(encode_utf8(status));
    assert(status_fields(channel_id, thread_ts, status) == "channel_id="@ + a + "&thread_ts="@ + b
        + "&status="@ + c) by {
        assert("channel_id"@ + "="@ =~= "channel_id="@) by {
            reveal_strlit("channel_id");
            reveal_strlit("=");
            reveal_strlit("channel_id=");
        }
        assert("&"@ + "thread_ts"@ + "="@ =~= "&thread_ts="@) by {
            reveal_strlit("&");
            reveal_strlit("thread_ts");
            reveal_strlit("=");
            reveal_strlit("&thread_ts=");
        }
        assert("&"@ + "status"@ + "="@ =~= "&status="@) by {
            reveal_strlit("&");
            reveal_strlit("status");
            reveal_strlit("=");
            reveal_strlit("&status=");
        }
        lemma_plain_names();
        lemma_joined3(
            form_field("channel_id"@, channel_id),
            form_field("thread_ts"@, thread_ts),
            form_field("status"@, status),
        );
        lemma_six("channel_id"@, "="@, a, "&"@, "thread_ts"@, b, "status"@, c);
    }
    assert(reaction_fields(channel_id, thread_ts) == "channel="@ + a + "&timestamp="@ + b
        + "&name=eyes"@) by {
        assert("channel"@ + "="@ =~= "channel="@) by {
            reveal_strlit("channel");
            reveal_strlit("=");
            reveal_strlit("channel=");
        }
        assert("&"@ + "timestamp"@ + "="@ =~= "&timestamp="@) by {
            reveal_strlit("&");
            reveal_strlit("timestamp");
            reveal_strlit("=");
            reveal_strlit("&timestamp=");
        }
        assert("&"@ + "name"@ + "="@ + "eyes"@ =~= "&name=eyes"@) by {
            reveal_strlit("&");
            reveal_strlit("name");
            reveal_strlit("eyes");
            reveal_strlit("=");
            reveal_strlit("&name=eyes");
        }
        lemma_plain_names();
        lemma_joined3(
            form_field("channel"@, channel_id),
            form_field("timestamp"@, thread_ts),
            form_field("name"@, "eyes"@),
        );
        lemma_six("channel"@, "="@, a, "&"@, "timestamp"@, b, "name"@, "eyes"@);
        let head = "channel="@ + a + "&timestamp="@ + b;
        assert(head + ("&"@ + "name"@ + "="@) + "eyes"@ =~= head + ("&"@ + "name"@ + "="@
            + "eyes"@));
    }
}

proof fn lemma_plain_names()
    ensures
        form_bytes(encode_utf8("channel_id"@)) == "channel_id"@,
        form_bytes(encode_utf8("thread_ts"@)) == "thread_ts"@,
        form_bytes(encode_utf8("status"@)) == "status"@,
        form_bytes(encode_utf8("channel"@)) == "channel"@,
        form_bytes(encode_utf8("timestamp"@)) == "timestamp"@,
        form_bytes(encode_utf8("name"@)) == "name"@,
        form_bytes(encode_utf8("eyes"@)) == "eyes"@,
{
    reveal_strlit("channel_id");
    reveal_strlit("thread_ts");
    reveal_strlit("status");
    reveal_strlit("channel");
    reveal_strlit("timestamp");
    reveal_strlit("name");
    reveal_strlit("eyes");
    lemma_form_plain("channel_id"@);
    lemma_form_plain("thread_ts"@);
    lemma_form_plain("status"@);
    lemma_form_plain("channel"@);
    lemma_form_plain("timestamp"@);
    lemma_form_plain("name"@);
    lemma_form_plain("eyes"@);
}

proof fn lemma_six(
    first: Seq<char>,
    is: Seq<char>,
    a: Seq<char>,
    and: Seq<char>,
    second: Seq<char>,
    b: Seq<char>,
    third: Seq<char>,
    c: Seq<char>,
)
    ensures
        (first + is + a) + and + (second + is + b) + and + (third + is + c) == (first + is) + a + (
        and + second + is) + b + (and + third + is) + c,
{
    assert((first + is + a) + and + (second + is + b) =~= (first + is) + a + (and + second + is)
        + b);
    let head = (first + is) + a + (and + second + is) + b;
    assert(head + and + (third + is + c) =~= head + (and + third + is) + c);
}

proof fn lemma_joined3(a: Seq<char>, b: Seq<char>, c: Seq<char>)
    ensures
        joined_with(seq![a, b, c], "&"@) == a + "&"@ + b + "&"@ + c,
{
    reveal_with_fuel(joined_with, 4);
    assert(seq![a, b, c].drop_last() =~= seq![a, b]);
    assert(seq![a, b].drop_last() =~= seq![a]);
}

} // verus!
