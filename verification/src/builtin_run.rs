//! What the built-in tools make of their arguments and of what the system reports.
use vstd::prelude::*;

use crate::builtin::BuiltinKind;
use crate::edits::{apply_edits, edited};
use crate::json::{
    models, models_index, named_members_are_found, no_fields, optional_text, signed_model, Json,
    JsonModel, JsonObject,
};
use crate::paging::{lossy_text, page_bytes, page_of, text_from_bytes, FilePage, PageModel};
use crate::paths::{byte_len, byte_length, join_path, joined};
use crate::text::{has_prefix, join2, join3, strip_prefix};
use crate::tools::{
    executions_tell_their_outcome, failed_with, succeeded, ExecutionModel, ToolContext,
    ToolExecution, ToolOutcome,
};

verus! {

/// A JSON number, or null where there is none.
pub open spec fn number_or_null(value: Option<nat>) -> JsonModel {
    match value {
        Some(value) => JsonModel::Unsigned(value as u64),
        None => JsonModel::Null,
    }
}

/// The text of the member `key`, empty where there is none.
pub open spec fn text_or_empty(input: JsonModel, key: Seq<char>) -> Seq<char> {
    match input.text_at(key) {
        Some(text) => text,
        None => Seq::empty(),
    }
}

fn text_member(input: &Json, key: &str) -> (r: String)
    ensures
        r@ == text_or_empty(input@, key@),
{
    match input.str_at(key) {
        Some(text) => text.to_owned(),
        None => String::new(),
    }
}

/// The whole number of the member `key`, or `default`.
pub open spec fn number_or(input: JsonModel, key: Seq<char>, default: u64) -> u64 {
    match input.get(key) {
        Some(value) => match value.as_unsigned() {
            Some(number) => number,
            None => default,
        },
        None => default,
    }
}

fn number_member(input: &Json, key: &str, default: u64) -> (r: u64)
    ensures
        r == number_or(input@, key@, default),
{
    match input.get(key) {
        Some(value) => match value.as_u64() {
            Some(number) => number,
            None => default,
        },
        None => default,
    }
}

/// The member `key`, null where there is none.
pub open spec fn member_or_null(input: JsonModel, key: Seq<char>) -> JsonModel {
    match input.get(key) {
        Some(value) => value,
        None => JsonModel::Null,
    }
}

fn member_value(input: &Json, key: &str) -> (r: Json)
    ensures
        r@ == member_or_null(input@, key@),
{
    match input.get(key) {
        Some(value) => value.clone(),
        None => Json::Null,
    }
}

/// The result of `end`.
pub open spec fn end_answer(arguments: JsonModel) -> ExecutionModel {
    let acknowledged = arguments.get("acknowledge_outstanding"@) == Some(JsonModel::Bool(true));
    succeeded(
        JsonModel::Object(
            no_fields().push(("acknowledge_outstanding"@, JsonModel::Bool(acknowledged))),
        ),
    )
}

pub fn end_result(arguments: &Json) -> (r: ToolExecution)
    ensures
        r@ == end_answer(arguments@),
{
    let acknowledged = match arguments.get("acknowledge_outstanding") {
        Some(value) => match value.as_bool() {
            Some(acknowledged) => acknowledged,
            None => false,
        },
        None => false,
    };
    ToolExecution::success(
        JsonObject::new().with("acknowledge_outstanding", Json::Bool(acknowledged)).done(),
    )
}

/// The result of `tool.cancel`.
pub open spec fn cancel_answer(arguments: JsonModel) -> ExecutionModel {
    succeeded(
        JsonModel::Object(
            no_fields().push(("invocation_id"@, member_or_null(arguments, "invocation_id"@))),
        ),
    )
}

pub fn tool_cancel_result(arguments: &Json) -> (r: ToolExecution)
    ensures
        r@ == cancel_answer(arguments@),
{
    ToolExecution::success(
        JsonObject::new().with("invocation_id", member_value(arguments, "invocation_id")).done(),
    )
}

/// A point in time moved by a duration; it stops at the ends of the range.
pub open spec fn moved(now_ms: i64, duration_ms: i64) -> i64 {
    let sum = now_ms + duration_ms;
    if sum > i64::MAX {
        i64::MAX
    } else if sum < i64::MIN {
        i64::MIN
    } else {
        sum as i64
    }
}

pub fn move_time(now_ms: i64, duration_ms: i64) -> (r: i64)
    ensures
        r == moved(now_ms, duration_ms),
{
    let sum: i128 = (now_ms as i128) + (duration_ms as i128);
    if sum > i64::MAX as i128 {
        i64::MAX
    } else if sum < i64::MIN as i128 {
        i64::MIN
    } else {
        sum as i64
    }
}

/// The result of `wait`, which waits for `duration_ms` from `now_ms` on.
pub open spec fn wait_answer(
    now_ms: i64,
    duration_ms: i64,
    arguments: JsonModel,
) -> ExecutionModel {
    succeeded(
        JsonModel::Object(
            no_fields().push(("until_ms"@, signed_model(moved(now_ms, duration_ms)))).push(
                ("reason"@, member_or_null(arguments, "reason"@)),
            ),
        ),
    )
}

pub fn wait_result(now_ms: i64, duration_ms: i64, arguments: &Json) -> (r: ToolExecution)
    ensures
        r@ == wait_answer(now_ms, duration_ms, arguments@),
{
    ToolExecution::success(
        JsonObject::new().with("until_ms", Json::signed(move_time(now_ms, duration_ms))).with(
            "reason",
            member_value(arguments, "reason"),
        ).done(),
    )
}

/// How many events `history.list` asks for, and before which.
#[derive(Debug)]
pub struct HistoryRequest {
    pub limit: u64,
    pub before: Option<String>,
}

/// Whether a request is what `history.list` asks for.
pub open spec fn asks_history(request: HistoryRequest, input: JsonModel) -> bool {
    &&& request.limit == number_or(input, "limit"@, 20)
    &&& optional_text(request.before) == input.text_at("before_event_id"@)
}

pub fn history_request(input: &Json) -> (r: HistoryRequest)
    ensures
        asks_history(r, input@),
{
    let before = match input.str_at("before_event_id") {
        Some(text) => Some(text.to_owned()),
        None => None,
    };
    HistoryRequest { limit: number_member(input, "limit", 20), before }
}

/// An event as a history lists it.
#[derive(Debug)]
pub struct HistoryRow {
    pub event_id: String,
    pub kind: String,
}

/// One row of a history.
pub open spec fn row_json(row: HistoryRow) -> JsonModel {
    JsonModel::Object(
        no_fields().push(("event_id"@, JsonModel::Text(row.event_id@))).push(
            ("kind"@, JsonModel::Text(row.kind@)),
        ).push(("uri"@, JsonModel::Text("zork://history/"@ + row.event_id@))),
    )
}

/// A page of a history, and before which event the next one ends.
pub open spec fn history_json(rows: Seq<HistoryRow>) -> JsonModel {
    JsonModel::Object(
        no_fields().push(
            ("events"@, JsonModel::Array(rows.map_values(|row: HistoryRow| row_json(row)))),
        ).push(
            (
                "next_before_event_id"@,
                if rows.len() == 0 {
                    JsonModel::Null
                } else {
                    JsonModel::Text(rows[0].event_id@)
                },
            ),
        ),
    )
}

/// The result of `history.list`, from the events found or from what kept them from being found.
pub fn history_list(found: Result<&Vec<HistoryRow>, &str>) -> (r: ToolExecution)
    ensures
        r@ == match found {
            Ok(rows) => succeeded(history_json(rows@)),
            Err(error) => failed_with("History query failed: "@ + error@),
        },
{
    let rows = match found {
        Ok(rows) => rows,
        Err(error) => {
            return ToolExecution::failed(&join2("History query failed: ", error));
        },
    };
    let ghost expected = rows@.map_values(|row: HistoryRow| row_json(row));
    let mut items: Vec<Json> = Vec::new();
    let mut i: usize = 0;
    proof {
        assert(models(items@) =~= expected.take(0));
    }
    while i < rows.len()
        invariant
            i <= rows.len(),
            expected == rows@.map_values(|row: HistoryRow| row_json(row)),
            models(items@) == expected.take(i as int),
        decreases rows.len() - i,
    {
        let item = JsonObject::new().with("event_id", Json::text(&rows[i].event_id)).with(
            "kind",
            Json::text(&rows[i].kind),
        ).with("uri", Json::Text(join2("zork://history/", &rows[i].event_id))).done();
        let ghost before = items@;
        items.push(item);
        proof {
            assert(items@.drop_last() =~= before);
            assert(expected.take(i + 1) =~= expected.take(i as int).push(expected[i as int]));
        }
        i = i + 1;
    }
    proof {
        assert(expected.take(expected.len() as int) =~= expected);
    }
    let next = if rows.len() == 0 {
        Json::Null
    } else {
        Json::text(&rows[0].event_id)
    };
    ToolExecution::success(
        JsonObject::new().with("events", Json::array(items)).with(
            "next_before_event_id",
            next,
        ).done(),
    )
}

/// A path as a tool takes it: relative ones start from the workspace.
pub fn resolve_path(workspace: &str, path: &str) -> (r: String)
    ensures
        r@ == joined(workspace@, path@),
{
    join_path(workspace, path)
}

/// What `file.read` reads.
#[derive(Debug)]
pub enum ReadSource {
    /// An event of the session log.
    Event(String),
    /// A file.
    File(String),
}

#[derive(Debug)]
pub struct ReadRequest {
    pub source: ReadSource,
    pub offset: u64,
    pub limit: u64,
}

/// The event that a path names.
pub open spec fn event_in_path(path: Seq<char>) -> Option<Seq<char>> {
    if has_prefix(path, "zork://history/"@) {
        Some(path.skip("zork://history/"@.len() as int))
    } else {
        None
    }
}

/// Whether a request is what `file.read` is asked for.
pub open spec fn asks_read(request: ReadRequest, workspace: Seq<char>, input: JsonModel) -> bool {
    let path = text_or_empty(input, "path"@);
    &&& request.offset == number_or(input, "offset"@, 0)
    &&& request.limit == number_or(input, "limit"@, 65536)
    &&& match request.source {
        ReadSource::Event(event_id) => event_in_path(path) == Some(event_id@),
        ReadSource::File(file) => event_in_path(path) is None && file@ == joined(workspace, path),
    }
}

/// What `file.read` is asked for.
pub fn file_read_request(context: &ToolContext, input: &Json) -> (r: ReadRequest)
    ensures
        asks_read(r, context.workspace@, input@),
{
    let path = text_member(input, "path");
    let source = match strip_prefix(&path, "zork://history/") {
        Some(event_id) => ReadSource::Event(event_id),
        None => ReadSource::File(resolve_path(&context.workspace, &path)),
    };
    ReadRequest {
        source,
        offset: number_member(input, "offset", 0),
        limit: number_member(input, "limit", 65536),
    }
}

/// What came of reading.
#[derive(Debug)]
pub enum ReadReport {
    Page(FilePage),
    /// The event in its written form.
    Event(Vec<u8>),
    EventNotWritten(String),
    EventMissing(String),
    EventFailed(String),
    FileFailed { path: String, error: String },
}

/// A page as a result: its text, where it starts, how much there is, and where the next one starts.
pub open spec fn page_result(page: PageModel) -> ExecutionModel {
    succeeded(
        JsonModel::Object(
            no_fields().push(("content"@, JsonModel::Text(lossy_text(page.bytes)))).push(
                ("offset"@, JsonModel::Unsigned(page.offset)),
            ).push(("total_size"@, JsonModel::Unsigned(page.total_size as u64))).push(
                ("next_offset"@, number_or_null(page.next_offset)),
            ),
        ),
    )
}

fn page_execution(page: &FilePage) -> (r: ToolExecution)
    ensures
        r@ == page_result(page@),
{
    let next = match page.next_offset {
        Some(next) => Json::unsigned(next),
        None => Json::Null,
    };
    ToolExecution::success(
        JsonObject::new().with("content", Json::Text(text_from_bytes(&page.bytes))).with(
            "offset",
            Json::unsigned(page.offset),
        ).with("total_size", Json::unsigned(page.total_size)).with("next_offset", next).done(),
    )
}

/// The result of `file.read`. Events and files are paged alike.
pub fn file_read(report: &ReadReport, offset: u64, limit: u64) -> (r: ToolExecution)
    requires
        report matches ReadReport::Event(bytes) ==> bytes@.len() <= u64::MAX,
    ensures
        r@ == match *report {
            ReadReport::Page(page) => page_result(page@),
            ReadReport::Event(bytes) => page_result(page_of(bytes@, offset, limit)),
            ReadReport::EventNotWritten(error) => failed_with(
                "History event serialization failed: "@ + error@,
            ),
            ReadReport::EventMissing(event_id) => failed_with(
                "History event "@ + event_id@ + " was not found."@,
            ),
            ReadReport::EventFailed(error) => failed_with("History event read failed: "@ + error@),
            ReadReport::FileFailed { path, error } => failed_with(
                "Failed to read "@ + path@ + ": "@ + error@,
            ),
        },
{
    match report {
        ReadReport::Page(page) => page_execution(page),
        ReadReport::Event(bytes) => page_execution(&page_bytes(bytes, offset, limit)),
        ReadReport::EventNotWritten(error) => ToolExecution::failed(
            &join2("History event serialization failed: ", error),
        ),
        ReadReport::EventMissing(event_id) => ToolExecution::failed(
            &join3("History event ", event_id, " was not found."),
        ),
        ReadReport::EventFailed(error) => ToolExecution::failed(
            &join2("History event read failed: ", error),
        ),
        ReadReport::FileFailed { path, error } => {
            let mut message = join3("Failed to read ", path, ": ");
            message.append(error);
            ToolExecution::failed(&message)
        },
    }
}

/// What `file.write` writes, and where.
#[derive(Debug)]
pub struct WriteRequest {
    pub path: String,
    pub content: String,
}

/// Whether a request is what `file.write` is asked for.
pub open spec fn asks_write(request: WriteRequest, workspace: Seq<char>, input: JsonModel) -> bool {
    &&& request.path@ == joined(workspace, text_or_empty(input, "path"@))
    &&& request.content@ == text_or_empty(input, "content"@)
}

pub fn file_write_request(context: &ToolContext, input: &Json) -> (r: WriteRequest)
    ensures
        asks_write(r, context.workspace@, input@),
{
    WriteRequest {
        path: resolve_path(&context.workspace, &text_member(input, "path")),
        content: text_member(input, "content"),
    }
}

/// A failure of a file operation.
pub open spec fn file_failure(
    verb: Seq<char>,
    path: Seq<char>,
    error: Seq<char>,
) -> ExecutionModel {
    failed_with("Failed to "@ + verb + " "@ + path + ": "@ + error)
}

fn file_failed(verb: &str, path: &str, error: &str) -> (r: ToolExecution)
    ensures
        r@ == file_failure(verb@, path@, error@),
{
    let mut message = join3("Failed to ", verb, " ");
    message.append(path);
    message.append(": ");
    message.append(error);
    ToolExecution::failed(&message)
}

/// The result of `file.write`, which wrote `content` or failed.
pub fn file_write(request: &WriteRequest, error: Option<&str>) -> (r: ToolExecution)
    ensures
        r@ == match error {
            None => succeeded(
                JsonModel::Object(
                    no_fields().push(("path"@, JsonModel::Text(request.path@))).push(
                        ("bytes"@, JsonModel::Unsigned(byte_len(request.content@) as u64)),
                    ),
                ),
            ),
            Some(error) => file_failure("write"@, request.path@, error@),
        },
{
    match error {
        None => ToolExecution::success(
            JsonObject::new().with("path", Json::text(&request.path)).with(
                "bytes",
                Json::unsigned(byte_length(&request.content) as u64),
            ).done(),
        ),
        Some(error) => file_failed("write", &request.path, error),
    }
}

/// Where `file.edit` edits.
pub fn file_edit_path(context: &ToolContext, input: &Json) -> (r: String)
    ensures
        r@ == joined(context.workspace@, text_or_empty(input@, "path"@)),
{
    resolve_path(&context.workspace, &text_member(input, "path"))
}

/// A text after the edits that were asked for, and how many they were.
#[derive(Debug)]
pub struct EditedText {
    pub text: String,
    pub edits: usize,
}

/// What `file.edit` makes of the text of a file.
pub open spec fn edit_outcome(original: Seq<char>, input: JsonModel) -> Result<
    (Seq<char>, nat),
    Seq<char>,
> {
    match input.get("edits"@) {
        Some(JsonModel::Array(edits)) => match edited(original, edits) {
            Ok(text) => Ok((text, edits.len())),
            Err(message) => Err(message),
        },
        _ => Err("edits must be an array"@),
    }
}

/// Edits the text of a file.
pub fn file_edit_text(original: &str, input: &Json) -> (r: Result<EditedText, String>)
    requires
        original@.len() < usize::MAX,
        input@.get("edits"@) matches Some(JsonModel::Array(edits)) ==> edits.len() < u64::MAX,
    ensures
        match (r, edit_outcome(original@, input@)) {
            (Ok(done), Ok(expected)) => done.text@ == expected.0 && done.edits == expected.1,
            (Err(message), Err(expected)) => message@ == expected,
            _ => false,
        },
{
    match input.get("edits") {
        Some(Json::Array(edits)) => {
            proof {
                models_index(edits@);
            }
            match apply_edits(original, edits) {
                Ok(text) => Ok(EditedText { text, edits: edits.len() }),
                Err(message) => Err(message),
            }
        },
        _ => Err("edits must be an array".to_owned()),
    }
}

/// The result of `file.edit`, which made `count` edits or failed.
pub fn file_edit(path: &str, done: Result<u64, &str>) -> (r: ToolExecution)
    ensures
        r@ == match done {
            Ok(count) => succeeded(
                JsonModel::Object(
                    no_fields().push(("path"@, JsonModel::Text(path@))).push(
                        ("edits"@, JsonModel::Unsigned(count)),
                    ),
                ),
            ),
            Err(error) => file_failure("edit"@, path@, error@),
        },
{
    match done {
        Ok(count) => ToolExecution::success(
            JsonObject::new().with("path", Json::text(path)).with(
                "edits",
                Json::unsigned(count),
            ).done(),
        ),
        Err(error) => file_failed("edit", path, error),
    }
}

/// What `shell.run` runs, and where its output goes.
#[derive(Debug)]
pub struct ShellPlan {
    pub command: String,
    /// The directory of the output, below the workspace.
    pub output_dir: String,
    /// The file of the output, relative to the workspace.
    pub relative: String,
    /// The file of the output.
    pub live_path: String,
}

/// Whether a plan is what `shell.run` is asked for.
pub open spec fn plans_command(plan: ShellPlan, context: ToolContext, input: JsonModel) -> bool {
    &&& plan.command@ == text_or_empty(input, "command"@)
    &&& plan.output_dir@ == joined(context.workspace@, ".zork"@)
    &&& plan.relative@ == ".zork/live-"@ + context.invocation_id@ + ".log"@
    &&& plan.live_path@ == joined(context.workspace@, plan.relative@)
}

pub fn shell_plan(context: &ToolContext, input: &Json) -> (r: ShellPlan)
    ensures
        plans_command(r, *context, input@),
{
    let relative = join3(".zork/live-", &context.invocation_id, ".log");
    let live_path = join_path(&context.workspace, &relative);
    ShellPlan {
        command: text_member(input, "command"),
        output_dir: join_path(&context.workspace, ".zork"),
        relative,
        live_path,
    }
}

/// How much of the end of a command's output is shown.
pub const SHELL_TAIL_BYTES: u64 = 65_536;

/// How far a command is that was started.
#[derive(Debug)]
pub enum ShellPhase {
    /// It runs, and is waited for as long as its time is not over.
    Running,
    /// Its time is over, and it is being killed.
    Killing,
    /// It was killed, and is waited for once more.
    Dying,
    /// It has ended.
    Ended { timed_out: bool, status: Result<bool, String> },
}

/// What happens to a command that was started.
#[derive(Debug)]
pub enum ShellEvent {
    /// The wait for it ended: whether it succeeded, or why that is not known.
    WaitEnded(Result<bool, String>),
    TimeOver,
    /// It was killed, or could not be.
    Killed,
}

/// What to do next with a command.
#[derive(Clone, Copy, Debug, PartialEq, Eq, Structural)]
pub enum ShellAction {
    Wait,
    Kill,
    /// Take what its output has come to.
    Collect,
}

/// How a command goes on. Once its time is over it is killed and waited for again, however it ends
/// then; the time counts no more.
pub open spec fn shell_next(phase: ShellPhase, event: ShellEvent) -> (ShellPhase, ShellAction) {
    match phase {
        ShellPhase::Running => match event {
            ShellEvent::WaitEnded(status) => (
                ShellPhase::Ended { timed_out: false, status },
                ShellAction::Collect,
            ),
            ShellEvent::TimeOver => (ShellPhase::Killing, ShellAction::Kill),
            ShellEvent::Killed => (ShellPhase::Running, ShellAction::Wait),
        },
        ShellPhase::Killing => match event {
            ShellEvent::Killed => (ShellPhase::Dying, ShellAction::Wait),
            _ => (ShellPhase::Killing, ShellAction::Kill),
        },
        ShellPhase::Dying => match event {
            ShellEvent::WaitEnded(status) => (
                ShellPhase::Ended { timed_out: true, status },
                ShellAction::Collect,
            ),
            _ => (ShellPhase::Dying, ShellAction::Wait),
        },
        ShellPhase::Ended { timed_out, status } => (
            ShellPhase::Ended { timed_out, status },
            ShellAction::Collect,
        ),
    }
}

pub fn shell_step(phase: ShellPhase, event: ShellEvent) -> (r: (ShellPhase, ShellAction))
    ensures
        r == shell_next(phase, event),
{
    match phase {
        ShellPhase::Running => match event {
            ShellEvent::WaitEnded(status) => (
                ShellPhase::Ended { timed_out: false, status },
                ShellAction::Collect,
            ),
            ShellEvent::TimeOver => (ShellPhase::Killing, ShellAction::Kill),
            ShellEvent::Killed => (ShellPhase::Running, ShellAction::Wait),
        },
        ShellPhase::Killing => match event {
            ShellEvent::Killed => (ShellPhase::Dying, ShellAction::Wait),
            _ => (ShellPhase::Killing, ShellAction::Kill),
        },
        ShellPhase::Dying => match event {
            ShellEvent::WaitEnded(status) => (
                ShellPhase::Ended { timed_out: true, status },
                ShellAction::Collect,
            ),
            _ => (ShellPhase::Dying, ShellAction::Wait),
        },
        ShellPhase::Ended { timed_out, status } => (
            ShellPhase::Ended { timed_out, status },
            ShellAction::Collect,
        ),
    }
}

/// What the collector of a command's output reports.
#[derive(Debug)]
pub enum CollectorReport {
    Done,
    Failed(String),
    Crashed(String),
    Missing,
}

/// How a command ended.
#[derive(Debug)]
pub enum ShellEnd {
    DirectoryFailed(String),
    FileFailed(String),
    StartFailed(String),
    /// The command was started; it came to an end or was killed when its time was over.
    Ran {
        timed_out: bool,
        collector: CollectorReport,
        /// Whether the command succeeded, or why that is not known.
        status: Result<bool, String>,
        /// The end of its output.
        tail: Vec<u8>,
    },
}

/// How an invocation of `shell.run` ended whose command ran and whose output is there.
pub open spec fn shell_outcome(timed_out: bool, success: bool) -> ToolOutcome {
    if timed_out {
        ToolOutcome::TimedOut
    } else if success {
        ToolOutcome::Succeeded
    } else {
        ToolOutcome::Failed
    }
}

/// What is shown of the output of a command.
pub open spec fn shell_output(outcome: ToolOutcome, tail: Seq<u8>) -> Seq<char> {
    let text = lossy_text(tail);
    let shown = if text.len() == 0 {
        "(no output)"@
    } else {
        text
    };
    match outcome {
        ToolOutcome::TimedOut => shown
            + "\n\nCommand timed out; external effects may still be in flight."@,
        ToolOutcome::Failed => shown + "\n\nCommand exited unsuccessfully."@,
        _ => shown,
    }
}

/// The result of `shell.run`.
pub open spec fn shell_answer(end: ShellEnd, relative: Seq<char>) -> ExecutionModel {
    match end {
        ShellEnd::DirectoryFailed(error) => failed_with(
            "Failed to create live output directory: "@ + error@,
        ),
        ShellEnd::FileFailed(error) => failed_with(
            "Failed to create live output file: "@ + error@,
        ),
        ShellEnd::StartFailed(error) => failed_with("Failed to start command: "@ + error@),
        ShellEnd::Ran { timed_out, collector, status, tail } => match collector {
            CollectorReport::Failed(error) => failed_with(
                "Failed to persist command output: "@ + error@,
            ),
            CollectorReport::Crashed(error) => failed_with(
                "Output collector task failed: "@ + error@,
            ),
            CollectorReport::Missing => failed_with(
                "Output collector task ended without a result."@,
            ),
            CollectorReport::Done => match status {
                Err(error) => failed_with("Failed while waiting for command: "@ + error@),
                Ok(success) => {
                    let outcome = shell_outcome(timed_out, success);
                    ExecutionModel {
                        outcome,
                        data: JsonModel::Object(
                            no_fields().push(
                                ("output"@, JsonModel::Text(shell_output(outcome, tail@))),
                            ).push(("output_path"@, JsonModel::Text(relative))),
                        ),
                        result_schema_version: 1,
                        knowledge: None,
                    }
                },
            },
        },
    }
}

/// The result of `shell.run`, from how its command ended.
pub fn shell_run(end: &ShellEnd, relative: &str) -> (r: ToolExecution)
    ensures
        r@ == shell_answer(*end, relative@),
{
    let (timed_out, collector, status, tail) = match end {
        ShellEnd::DirectoryFailed(error) => {
            return ToolExecution::failed(
                &join2("Failed to create live output directory: ", error),
            );
        },
        ShellEnd::FileFailed(error) => {
            return ToolExecution::failed(&join2("Failed to create live output file: ", error));
        },
        ShellEnd::StartFailed(error) => {
            return ToolExecution::failed(&join2("Failed to start command: ", error));
        },
        ShellEnd::Ran { timed_out, collector, status, tail } => (
            *timed_out,
            collector,
            status,
            tail,
        ),
    };
    match collector {
        CollectorReport::Failed(error) => {
            return ToolExecution::failed(&join2("Failed to persist command output: ", error));
        },
        CollectorReport::Crashed(error) => {
            return ToolExecution::failed(&join2("Output collector task failed: ", error));
        },
        CollectorReport::Missing => {
            return ToolExecution::failed("Output collector task ended without a result.");
        },
        CollectorReport::Done => {},
    }
    let success = match status {
        Ok(success) => *success,
        Err(error) => {
            return ToolExecution::failed(&join2("Failed while waiting for command: ", error));
        },
    };
    let outcome = if timed_out {
        ToolOutcome::TimedOut
    } else if success {
        ToolOutcome::Succeeded
    } else {
        ToolOutcome::Failed
    };
    let mut message = text_from_bytes(tail);
    if message.as_str().is_empty() {
        message = "(no output)".to_owned();
    }
    match outcome {
        ToolOutcome::TimedOut => {
            message.append("\n\nCommand timed out; external effects may still be in flight.");
        },
        ToolOutcome::Failed => {
            message.append("\n\nCommand exited unsuccessfully.");
        },
        _ => {},
    }
    ToolExecution {
        outcome,
        data: JsonObject::new().with("output", Json::Text(message)).with(
            "output_path",
            Json::text(relative),
        ).done(),
        result_schema_version: 1,
        knowledge: None,
    }
}

/// How a built-in tool goes on: it is done, or something is to be read, written or run first.
#[derive(Debug)]
pub enum ToolStart {
    Done(ToolExecution),
    ListHistory(HistoryRequest),
    Read(ReadRequest),
    Write(WriteRequest),
    /// Edit the file at this path.
    Edit(String),
    Run(ShellPlan),
}

/// Starts a built-in tool. `duration_ms` is how long `wait` is asked to wait.
pub fn execute(
    kind: BuiltinKind,
    context: &ToolContext,
    arguments: &Json,
    now_ms: i64,
    duration_ms: i64,
) -> (r: ToolStart)
    ensures
        match (kind, r) {
            (BuiltinKind::End, ToolStart::Done(done)) => done@ == end_answer(arguments@),
            (BuiltinKind::Wait, ToolStart::Done(done)) => done@ == wait_answer(
                now_ms,
                duration_ms,
                arguments@,
            ),
            (BuiltinKind::ToolCancel, ToolStart::Done(done)) => done@ == cancel_answer(arguments@),
            (BuiltinKind::HistoryList, ToolStart::ListHistory(request)) => asks_history(
                request,
                arguments@,
            ),
            (BuiltinKind::FileRead, ToolStart::Read(request)) => asks_read(
                request,
                context.workspace@,
                arguments@,
            ),
            (BuiltinKind::FileWrite, ToolStart::Write(request)) => asks_write(
                request,
                context.workspace@,
                arguments@,
            ),
            (BuiltinKind::FileEdit, ToolStart::Edit(path)) => path@ == joined(
                context.workspace@,
                text_or_empty(arguments@, "path"@),
            ),
            (BuiltinKind::ShellRun, ToolStart::Run(plan)) => plans_command(
                plan,
                *context,
                arguments@,
            ),
            _ => false,
        },
{
    match kind {
        BuiltinKind::End => ToolStart::Done(end_result(arguments)),
        BuiltinKind::Wait => ToolStart::Done(wait_result(now_ms, duration_ms, arguments)),
        BuiltinKind::ToolCancel => ToolStart::Done(tool_cancel_result(arguments)),
        BuiltinKind::HistoryList => ToolStart::ListHistory(history_request(arguments)),
        BuiltinKind::FileRead => ToolStart::Read(file_read_request(context, arguments)),
        BuiltinKind::FileWrite => ToolStart::Write(file_write_request(context, arguments)),
        BuiltinKind::FileEdit => ToolStart::Edit(file_edit_path(context, arguments)),
        BuiltinKind::ShellRun => ToolStart::Run(shell_plan(context, arguments)),
    }
}

/// The result of a tool whose own task came to no end.
pub fn task_failed(error: &str) -> (r: ToolExecution)
    ensures
        r@ == failed_with("Blocking tool task failed: "@ + error@),
{
    ToolExecution::failed(&join2("Blocking tool task failed: ", error))
}

/// A command whose time is over is killed, then waited for once more, and then its output is taken;
/// if that is there and the second wait tells how the command ended, the result says that the time
/// was over. A command that ends in time is not killed.
pub proof fn timeouts_kill_and_wait_again(
    status: Result<bool, String>,
    tail: Vec<u8>,
    relative: Seq<char>,
)
    ensures
        ({
            let (killing, first) = shell_next(ShellPhase::Running, ShellEvent::TimeOver);
            let (dying, second) = shell_next(killing, ShellEvent::Killed);
            let (ended, third) = shell_next(dying, ShellEvent::WaitEnded(status));
            &&& first == ShellAction::Kill
            &&& second == ShellAction::Wait
            &&& third == ShellAction::Collect
            &&& ended == (ShellPhase::Ended { timed_out: true, status })
        }),
        shell_next(ShellPhase::Running, ShellEvent::WaitEnded(status)) == (
            ShellPhase::Ended { timed_out: false, status },
            ShellAction::Collect,
        ),
        status is Ok ==> shell_answer(
            ShellEnd::Ran { timed_out: true, collector: CollectorReport::Done, status, tail },
            relative,
        ).outcome == ToolOutcome::TimedOut,
{
}

/// `end` tells whether unfinished items are acknowledged: only a true value does. `tool.cancel`
/// hands on the invocation that it is to cancel, as it came.
pub proof fn ends_and_cancels_tell_what_was_asked(arguments: JsonModel)
    ensures
        end_answer(arguments).outcome is Succeeded,
        end_answer(arguments).data.get("acknowledge_outstanding"@) == Some(
            JsonModel::Bool(
                arguments.get("acknowledge_outstanding"@) == Some(JsonModel::Bool(true)),
            ),
        ),
        cancel_answer(arguments).outcome is Succeeded,
        cancel_answer(arguments).data.get("invocation_id"@) == Some(
            match arguments.get("invocation_id"@) {
                Some(id) => id,
                None => JsonModel::Null,
            },
        ),
{
    let ended = end_answer(arguments).data->Object_0;
    assert(ended[0].0 == "acknowledge_outstanding"@);
    named_members_are_found(ended);
    let cancelled = cancel_answer(arguments).data->Object_0;
    assert(cancelled[0].0 == "invocation_id"@);
    named_members_are_found(cancelled);
}

/// `wait` waits until its time is over, counted from now, and says what for. A time past the end of
/// the range is the end of the range.
pub proof fn waits_last_as_long_as_asked(now_ms: i64, duration_ms: i64, arguments: JsonModel)
    ensures
        wait_answer(now_ms, duration_ms, arguments).outcome is Succeeded,
        wait_answer(now_ms, duration_ms, arguments).data.get("until_ms"@) matches Some(until)
            && until.as_signed() matches Some(time) && {
            &&& i64::MIN <= now_ms + duration_ms <= i64::MAX ==> time == now_ms + duration_ms
            &&& now_ms + duration_ms > i64::MAX ==> time == i64::MAX
            &&& now_ms + duration_ms < i64::MIN ==> time == i64::MIN
        },
        wait_answer(now_ms, duration_ms, arguments).data.get("reason"@) == Some(
            match arguments.get("reason"@) {
                Some(reason) => reason,
                None => JsonModel::Null,
            },
        ),
{
    reveal_strlit("until_ms");
    reveal_strlit("reason");
    let fields = wait_answer(now_ms, duration_ms, arguments).data->Object_0;
    assert("until_ms"@.len() != "reason"@.len());
    assert(fields[0].0 == "until_ms"@ && fields[1].0 == "reason"@);
    named_members_are_found(fields);
}

/// A history is asked for as many events as the request says, 20 where it says nothing, before the
/// event that it names, if it names one.
pub proof fn histories_are_asked_for(request: HistoryRequest, input: JsonModel)
    requires
        asks_history(request, input),
    ensures
        request.limit == match input.get("limit"@) {
            Some(JsonModel::Unsigned(limit)) => limit,
            _ => 20,
        },
        match input.get("before_event_id"@) {
            Some(JsonModel::Text(id)) => request.before matches Some(before) && before@ == id,
            _ => request.before is None,
        },
{
}

/// A history lists its events in their order, each with its kind and with the path under which it
/// can be read; the next page ends before the first of them.
pub proof fn histories_list_their_events(rows: Seq<HistoryRow>)
    ensures
        history_json(rows).get("events"@) matches Some(JsonModel::Array(items)) && items.len()
            == rows.len() && forall|i: int|
            0 <= i < rows.len() ==> {
                &&& (#[trigger] items[i]).get("event_id"@) == Some(
                    JsonModel::Text(rows[i].event_id@),
                )
                &&& items[i].get("kind"@) == Some(JsonModel::Text(rows[i].kind@))
                &&& items[i].get("uri"@) matches Some(JsonModel::Text(uri)) && event_in_path(uri)
                    == Some(rows[i].event_id@)
            },
        history_json(rows).get("next_before_event_id"@) == Some(
            if rows.len() == 0 {
                JsonModel::Null
            } else {
                JsonModel::Text(rows[0].event_id@)
            },
        ),
{
    reveal_strlit("events");
    reveal_strlit("next_before_event_id");
    reveal_strlit("event_id");
    reveal_strlit("kind");
    reveal_strlit("uri");
    let fields = history_json(rows)->Object_0;
    assert("events"@.len() != "next_before_event_id"@.len());
    assert(fields[0].0 == "events"@ && fields[1].0 == "next_before_event_id"@);
    named_members_are_found(fields);
    let items = fields[0].1->Array_0;
    assert forall|i: int| 0 <= i < rows.len() implies {
        &&& (#[trigger] items[i]).get("event_id"@) == Some(JsonModel::Text(rows[i].event_id@))
        &&& items[i].get("kind"@) == Some(JsonModel::Text(rows[i].kind@))
        &&& items[i].get("uri"@) matches Some(JsonModel::Text(uri)) && event_in_path(uri) == Some(
            rows[i].event_id@,
        )
    } by {
        let row = row_json(rows[i])->Object_0;
        assert("event_id"@.len() == 8 && "kind"@.len() == 4 && "uri"@.len() == 3);
        assert(row[0].0 == "event_id"@ && row[1].0 == "kind"@ && row[2].0 == "uri"@);
        named_members_are_found(row);
        events_have_paths(rows[i].event_id@);
    }
}

/// The path of an event is `zork://history/` and its identity, and no other path names an event.
pub proof fn events_have_paths(event_id: Seq<char>)
    ensures
        event_in_path("zork://history/"@ + event_id) == Some(event_id),
        forall|path: Seq<char>|
            (#[trigger] event_in_path(path)) is Some ==> path == "zork://history/"@
                + event_in_path(path)->0,
{
    let head = "zork://history/"@;
    let whole = head + event_id;
    assert(whole.subrange(0, head.len() as int) =~= head);
    assert(whole.skip(head.len() as int) =~= event_id);
    assert forall|path: Seq<char>| (#[trigger] event_in_path(path)) is Some implies path
        == "zork://history/"@ + event_in_path(path)->0 by {
        assert(path =~= head + path.skip(head.len() as int));
    }
}

/// `file.read` reads the event that its path names, or else the file, from the offset on, 0 where
/// none is given, and up to the limit, 65536 bytes where none is given.
pub proof fn reads_go_where_the_path_leads(
    request: ReadRequest,
    workspace: Seq<char>,
    input: JsonModel,
    path: Seq<char>,
)
    requires
        asks_read(request, workspace, input),
        input.get("path"@) == Some(JsonModel::Text(path)),
    ensures
        request.offset == match input.get("offset"@) {
            Some(JsonModel::Unsigned(offset)) => offset,
            _ => 0,
        },
        request.limit == match input.get("limit"@) {
            Some(JsonModel::Unsigned(limit)) => limit,
            _ => 65536,
        },
        (exists|id: Seq<char>| path == #[trigger] ("zork://history/"@ + id)) ==> request.source
            is Event,
        request.source matches ReadSource::Event(id) ==> path == "zork://history/"@ + id@,
        request.source matches ReadSource::File(file) ==> file@ == joined(workspace, path),
{
    events_have_paths(Seq::empty());
    if exists|id: Seq<char>| path == #[trigger] ("zork://history/"@ + id) {
        let id = choose|id: Seq<char>| path == #[trigger] ("zork://history/"@ + id);
        events_have_paths(id);
    }
}

/// A page is answered with its text, where it starts, how much there is in all, and where the next
/// one starts, if there is one.
pub proof fn pages_are_answered_whole(page: PageModel)
    ensures
        page_result(page).outcome is Succeeded,
        page_result(page).data.get("content"@) == Some(JsonModel::Text(lossy_text(page.bytes))),
        page_result(page).data.get("offset"@) == Some(JsonModel::Unsigned(page.offset)),
        page_result(page).data.get("total_size"@) == Some(
            JsonModel::Unsigned(page.total_size as u64),
        ),
        page_result(page).data.get("next_offset"@) == Some(
            match page.next_offset {
                Some(next) => JsonModel::Unsigned(next as u64),
                None => JsonModel::Null,
            },
        ),
{
    reveal_strlit("content");
    reveal_strlit("offset");
    reveal_strlit("total_size");
    reveal_strlit("next_offset");
    assert("content"@.len() == 7 && "offset"@.len() == 6 && "total_size"@.len() == 10
        && "next_offset"@.len() == 11);
    let fields = page_result(page).data->Object_0;
    assert(fields[0].0 == "content"@ && fields[1].0 == "offset"@ && fields[2].0 == "total_size"@
        && fields[3].0 == "next_offset"@);
    named_members_are_found(fields);
}

/// `file.write` writes the content that it is given to the path that it is given; a failure of a
/// file operation says what failed, on which file and why.
pub proof fn writes_go_to_their_path(
    request: WriteRequest,
    workspace: Seq<char>,
    path: Seq<char>,
    content: Seq<char>,
    input: JsonModel,
    verb: Seq<char>,
    error: Seq<char>,
)
    requires
        asks_write(request, workspace, input),
        input.get("path"@) == Some(JsonModel::Text(path)),
        input.get("content"@) == Some(JsonModel::Text(content)),
    ensures
        request.path@ == joined(workspace, path),
        request.content@ == content,
        file_failure(verb, path, error).outcome is Failed,
        file_failure(verb, path, error).data.get("error"@) == Some(
            JsonModel::Text("Failed to "@ + verb + " "@ + path + ": "@ + error),
        ),
{
    executions_tell_their_outcome(
        JsonModel::Null,
        "Failed to "@ + verb + " "@ + path + ": "@ + error,
    );
}

/// `file.edit` makes all the edits that it is given in the text, and tells how many they are;
/// without a list of edits it makes none.
pub proof fn edits_are_made_as_given(original: Seq<char>, input: JsonModel)
    ensures
        input.get("edits"@) matches Some(JsonModel::Array(edits)) ==> {
            &&& edit_outcome(original, input) is Ok <==> edited(original, edits) is Ok
            &&& edit_outcome(original, input) matches Ok(done) ==> edited(original, edits) == Ok::<
                Seq<char>,
                Seq<char>,
            >(done.0) && done.1 == edits.len()
            &&& edit_outcome(original, input) matches Err(message) ==> edited(original, edits)
                == Err::<Seq<char>, Seq<char>>(message)
        },
        !(input.get("edits"@) matches Some(JsonModel::Array(_))) ==> edit_outcome(original, input)
            == Err::<(Seq<char>, nat), Seq<char>>("edits must be an array"@),
{
}

/// `shell.run` runs the command that it is given. Its output goes to a file of the invocation in the
/// directory `.zork` of the workspace.
pub proof fn commands_run_as_given(
    plan: ShellPlan,
    context: ToolContext,
    input: JsonModel,
    command: Seq<char>,
)
    requires
        plans_command(plan, context, input),
        input.get("command"@) == Some(JsonModel::Text(command)),
    ensures
        plan.command@ == command,
        plan.relative@ == ".zork/live-"@ + context.invocation_id@ + ".log"@,
        plan.live_path@ == joined(context.workspace@, plan.relative@),
        plan.output_dir@ == joined(context.workspace@, ".zork"@),
{
}

/// A command that ran and whose output is there has timed out if its time was over, has succeeded if
/// it ended well and has failed if it did not. The result shows the end of the output, or that there
/// was none, and the file of the whole; a timeout and a failure are said behind the output.
pub proof fn commands_tell_how_they_ended(
    timed_out: bool,
    success: bool,
    tail: Vec<u8>,
    relative: Seq<char>,
)
    ensures
        ({
            let end = ShellEnd::Ran {
                timed_out,
                collector: CollectorReport::Done,
                status: Ok(success),
                tail,
            };
            let answer = shell_answer(end, relative);
            let text = lossy_text(tail@);
            let shown = if text.len() == 0 {
                "(no output)"@
            } else {
                text
            };
            &&& answer.outcome is TimedOut <==> timed_out
            &&& answer.outcome is Succeeded <==> !timed_out && success
            &&& answer.outcome is Failed <==> !timed_out && !success
            &&& answer.data.get("output_path"@) == Some(JsonModel::Text(relative))
            &&& answer.data.get("output"@) == Some(
                JsonModel::Text(
                    if timed_out {
                        shown + "\n\nCommand timed out; external effects may still be in flight."@
                    } else if success {
                        shown
                    } else {
                        shown + "\n\nCommand exited unsuccessfully."@
                    },
                ),
            )
        }),
{
    reveal_strlit("output");
    reveal_strlit("output_path");
    assert("output"@.len() != "output_path"@.len());
    let end = ShellEnd::Ran {
        timed_out,
        collector: CollectorReport::Done,
        status: Ok(success),
        tail,
    };
    let fields = shell_answer(end, relative).data->Object_0;
    assert(fields[0].0 == "output"@ && fields[1].0 == "output_path"@);
    named_members_are_found(fields);
}

/// A command that could not be started, waited for, or whose output is lost has failed, and the
/// result says why.
pub proof fn lost_commands_have_failed(end: ShellEnd, relative: Seq<char>)
    requires
        !(end matches ShellEnd::Ran { collector, status, .. } && collector is Done && status is Ok),
    ensures
        shell_answer(end, relative).outcome is Failed,
        shell_answer(end, relative).data.get("error"@) == Some(
            JsonModel::Text(
                match end {
                    ShellEnd::DirectoryFailed(error) => "Failed to create live output directory: "@
                        + error@,
                    ShellEnd::FileFailed(error) => "Failed to create live output file: "@ + error@,
                    ShellEnd::StartFailed(error) => "Failed to start command: "@ + error@,
                    ShellEnd::Ran { collector, status, .. } => match collector {
                        CollectorReport::Failed(error) => "Failed to persist command output: "@
                            + error@,
                        CollectorReport::Crashed(error) => "Output collector task failed: "@
                            + error@,
                        CollectorReport::Missing =>
                            "Output collector task ended without a result."@,
                        CollectorReport::Done => "Failed while waiting for command: "@
                            + status->Err_0@,
                    },
                },
            ),
        ),
{
    reveal_strlit("error");
    let fields = shell_answer(end, relative).data->Object_0;
    assert(fields[0].0 == "error"@);
    named_members_are_found(fields);
}

/// A command is killed only when its time is over, is waited for after that, and once it has ended
/// nothing changes that.
pub proof fn commands_are_killed_only_late(phase: ShellPhase, event: ShellEvent)
    ensures
        shell_next(phase, event).1 is Kill ==> phase is Killing || (phase is Running
            && event is TimeOver),
        phase is Running && event is TimeOver ==> shell_next(phase, event).1 is Kill,
        phase is Ended ==> shell_next(phase, event).0 == phase,
        shell_next(phase, event).0 is Ended <==> shell_next(phase, event).1 is Collect,
        shell_next(phase, event).0 is Ended && !(phase is Ended) ==> event is WaitEnded && !(
        phase is Killing),
{
}

} // verus!
