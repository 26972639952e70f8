//! The contracts of the built-in tools.
use vstd::prelude::*;

use crate::json::{
    named_members_are_found, no_fields, no_items, optional, Json, JsonModel, JsonObject,
};
use crate::tools::{
    contract_fault, help_contract, is_valid_contract, text_pair, text_pair_json, text_single_json,
    tool_help_contract, typed, typed_json, ContractModel, NoToolState, RegistryEntry, ToolContract,
    ToolDefinitionError, ToolInstance, ToolRegistry, ToolVersion,
};

verus! {

/// The built-in tools.
#[derive(Clone, Copy, Debug, PartialEq, Eq, Structural)]
pub enum BuiltinKind {
    End,
    Wait,
    ToolCancel,
    HistoryList,
    FileRead,
    FileWrite,
    FileEdit,
    ShellRun,
}

/// The schema of an object with these members and no others.
pub open spec fn closed_object(
    properties: Seq<(Seq<char>, JsonModel)>,
    required: Option<JsonModel>,
) -> JsonModel {
    let start = no_fields().push(("type"@, JsonModel::Text("object"@))).push(
        ("properties"@, JsonModel::Object(properties)),
    );
    let middle = match required {
        Some(required) => start.push(("required"@, required)),
        None => start,
    };
    JsonModel::Object(middle.push(("additionalProperties"@, JsonModel::Bool(false))))
}

fn closed_object_json(properties: JsonObject, required: Option<Json>) -> (r: Json)
    ensures
        r@ == closed_object(properties@, optional(required)),
{
    let start = JsonObject::new().with("type", Json::text("object")).with(
        "properties",
        properties.done(),
    );
    let middle = match required {
        Some(required) => start.with("required", required),
        None => start,
    };
    middle.with("additionalProperties", Json::Bool(false)).done()
}

/// The schema of a value of a type with one bound.
pub open spec fn bounded(kind: Seq<char>, bound: Seq<char>, value: u64) -> JsonModel {
    JsonModel::Object(
        no_fields().push(("type"@, JsonModel::Text(kind))).push(
            (bound, JsonModel::Unsigned(value)),
        ),
    )
}

/// The schema of a value of a type with two bounds.
pub open spec fn within(
    kind: Seq<char>,
    lower: Seq<char>,
    least: u64,
    upper: Seq<char>,
    most: u64,
) -> JsonModel {
    JsonModel::Object(
        no_fields().push(("type"@, JsonModel::Text(kind))).push(
            (lower, JsonModel::Unsigned(least)),
        ).push((upper, JsonModel::Unsigned(most))),
    )
}

fn bounded_json(kind: &str, bound: &str, value: u64) -> (r: Json)
    ensures
        r@ == bounded(kind@, bound@, value),
{
    JsonObject::new().with("type", Json::text(kind)).with(bound, Json::unsigned(value)).done()
}

fn within_json(kind: &str, lower: &str, least: u64, upper: &str, most: u64) -> (r: Json)
    ensures
        r@ == within(kind@, lower@, least, upper@, most),
{
    JsonObject::new().with("type", Json::text(kind)).with(lower, Json::unsigned(least)).with(
        upper,
        Json::unsigned(most),
    ).done()
}

/// A JSON array of one text.
pub open spec fn text_single(text: Seq<char>) -> JsonModel {
    JsonModel::Array(no_items().push(JsonModel::Text(text)))
}

/// The arguments of `end`.
pub open spec fn end_schema() -> JsonModel {
    closed_object(no_fields().push(("acknowledge_outstanding"@, typed("boolean"@))), None)
}

fn end_schema_json() -> (r: Json)
    ensures
        r@ == end_schema(),
{
    closed_object_json(
        JsonObject::new().with("acknowledge_outstanding", typed_json("boolean")),
        None,
    )
}

/// The arguments of `wait`.
pub open spec fn wait_schema() -> JsonModel {
    closed_object(
        no_fields().push(("seconds"@, bounded("number"@, "exclusiveMinimum"@, 0))).push(
            ("reason"@, typed("string"@)),
        ),
        Some(text_single("seconds"@)),
    )
}

fn wait_schema_json() -> (r: Json)
    ensures
        r@ == wait_schema(),
{
    closed_object_json(
        JsonObject::new().with("seconds", bounded_json("number", "exclusiveMinimum", 0)).with(
            "reason",
            typed_json("string"),
        ),
        Some(text_single_json("seconds")),
    )
}

/// The arguments of `tool.cancel`.
pub open spec fn tool_cancel_schema() -> JsonModel {
    closed_object(
        no_fields().push(("invocation_id"@, bounded("string"@, "minLength"@, 1))),
        Some(text_single("invocation_id"@)),
    )
}

fn tool_cancel_schema_json() -> (r: Json)
    ensures
        r@ == tool_cancel_schema(),
{
    closed_object_json(
        JsonObject::new().with("invocation_id", bounded_json("string", "minLength", 1)),
        Some(text_single_json("invocation_id")),
    )
}

/// The arguments of `history.list`.
pub open spec fn history_list_schema() -> JsonModel {
    closed_object(
        no_fields().push(
            ("before_event_id"@, within("string"@, "minLength"@, 16, "maxLength"@, 16)),
        ).push(("limit"@, within("integer"@, "minimum"@, 1, "maximum"@, 200))),
        None,
    )
}

fn history_list_schema_json() -> (r: Json)
    ensures
        r@ == history_list_schema(),
{
    closed_object_json(
        JsonObject::new().with(
            "before_event_id",
            within_json("string", "minLength", 16, "maxLength", 16),
        ).with("limit", within_json("integer", "minimum", 1, "maximum", 200)),
        None,
    )
}

/// The arguments of `file.read`.
pub open spec fn file_read_schema() -> JsonModel {
    closed_object(
        no_fields().push(("path"@, bounded("string"@, "minLength"@, 1))).push(
            ("offset"@, bounded("integer"@, "minimum"@, 0)),
        ).push(("limit"@, within("integer"@, "minimum"@, 1, "maximum"@, 1_048_576))),
        Some(text_single("path"@)),
    )
}

fn file_read_schema_json() -> (r: Json)
    ensures
        r@ == file_read_schema(),
{
    closed_object_json(
        JsonObject::new().with("path", bounded_json("string", "minLength", 1)).with(
            "offset",
            bounded_json("integer", "minimum", 0),
        ).with("limit", within_json("integer", "minimum", 1, "maximum", 1_048_576)),
        Some(text_single_json("path")),
    )
}

/// The arguments of `file.write`.
pub open spec fn file_write_schema() -> JsonModel {
    closed_object(
        no_fields().push(("path"@, bounded("string"@, "minLength"@, 1))).push(
            ("content"@, typed("string"@)),
        ),
        Some(text_pair("path"@, "content"@)),
    )
}

fn file_write_schema_json() -> (r: Json)
    ensures
        r@ == file_write_schema(),
{
    closed_object_json(
        JsonObject::new().with("path", bounded_json("string", "minLength", 1)).with(
            "content",
            typed_json("string"),
        ),
        Some(text_pair_json("path", "content")),
    )
}

/// One edit of `file.edit`.
pub open spec fn edit_schema() -> JsonModel {
    closed_object(
        no_fields().push(("old_text"@, typed("string"@))).push(("new_text"@, typed("string"@))),
        Some(text_pair("old_text"@, "new_text"@)),
    )
}

/// The arguments of `file.edit`.
pub open spec fn file_edit_schema() -> JsonModel {
    closed_object(
        no_fields().push(("path"@, bounded("string"@, "minLength"@, 1))).push(
            (
                "edits"@,
                JsonModel::Object(
                    no_fields().push(("type"@, JsonModel::Text("array"@))).push(
                        ("minItems"@, JsonModel::Unsigned(1)),
                    ).push(("items"@, edit_schema())),
                ),
            ),
        ),
        Some(text_pair("path"@, "edits"@)),
    )
}

fn file_edit_schema_json() -> (r: Json)
    ensures
        r@ == file_edit_schema(),
{
    let edit = closed_object_json(
        JsonObject::new().with("old_text", typed_json("string")).with(
            "new_text",
            typed_json("string"),
        ),
        Some(text_pair_json("old_text", "new_text")),
    );
    let edits = JsonObject::new().with("type", Json::text("array")).with(
        "minItems",
        Json::unsigned(1),
    ).with("items", edit).done();
    closed_object_json(
        JsonObject::new().with("path", bounded_json("string", "minLength", 1)).with(
            "edits",
            edits,
        ),
        Some(text_pair_json("path", "edits")),
    )
}

/// The arguments of `shell.run`.
pub open spec fn shell_run_schema() -> JsonModel {
    closed_object(
        no_fields().push(("command"@, bounded("string"@, "minLength"@, 1))).push(
            ("timeout_seconds"@, bounded("number"@, "exclusiveMinimum"@, 0)),
        ),
        Some(text_single("command"@)),
    )
}

fn shell_run_schema_json() -> (r: Json)
    ensures
        r@ == shell_run_schema(),
{
    closed_object_json(
        JsonObject::new().with("command", bounded_json("string", "minLength", 1)).with(
            "timeout_seconds",
            bounded_json("number", "exclusiveMinimum", 0),
        ),
        Some(text_single_json("command")),
    )
}

/// The contract of a built-in tool.
pub open spec fn builtin_contract(kind: BuiltinKind) -> ContractModel {
    match kind {
        BuiltinKind::End => ContractModel {
            name: "end"@,
            version: "builtin-1"@,
            initial_description: "Finish the current turn when the requested work is complete. Unfinished work is checked before the turn ends."@,
            detailed_description: "Call end when this turn is complete. If the runtime reports unfinished items, resolve them or call end again with acknowledge_outstanding=true to explicitly finish while leaving them outstanding."@,
            input_schema: end_schema(),
        },
        BuiltinKind::Wait => ContractModel {
            name: "wait"@,
            version: "builtin-1"@,
            initial_description: "Pause until a duration elapses or new mailbox input arrives."@,
            detailed_description: "Pause this session for seconds unless new mailbox input arrives first. Tool completions do not by themselves end this explicit wait."@,
            input_schema: wait_schema(),
        },
        BuiltinKind::ToolCancel => ContractModel {
            name: "tool.cancel"@,
            version: "builtin-1"@,
            initial_description: "Request cancellation of one tool invocation by its zork-agent invocation ID."@,
            detailed_description: "Request cancellation of invocation_id. The request is persisted before cancellation is signalled. A cancellation request is not proof of cancellation; the target's later ToolResult is authoritative."@,
            input_schema: tool_cancel_schema(),
        },
        BuiltinKind::HistoryList => ContractModel {
            name: "history.list"@,
            version: "builtin-1"@,
            initial_description: "List bounded durable session history pages. Use file.read on a returned zork://history URI for full event content."@,
            detailed_description: "List at most limit visible events strictly before before_event_id, newest page first in durable order. Omit before_event_id for the most recent page. Read a specific returned event with file.read(path=\"zork://history/<event-id>\")."@,
            input_schema: history_list_schema(),
        },
        BuiltinKind::FileRead => ContractModel {
            name: "file.read"@,
            version: "builtin-1"@,
            initial_description: "Read files or zork://history/<event-id> with {path, offset?, limit?}. offset is a zero-based byte offset (default 0), limit is bytes (default 65536). Continue from the returned next_offset. start/end and line numbers are not read parameters."@,
            detailed_description: "Read at most limit bytes beginning at zero-based byte offset. Relative filesystem paths resolve from the session workspace. The same offset/limit contract applies to ordinary files and durable history events. Continue from next_offset until it is absent."@,
            input_schema: file_read_schema(),
        },
        BuiltinKind::FileWrite => ContractModel {
            name: "file.write"@,
            version: "builtin-1"@,
            initial_description: "Write complete file content, creating parent directories."@,
            detailed_description: "Replace path with content, creating parent directories as needed. Relative paths resolve from the session workspace; absolute paths and parent traversal are allowed because the workspace is not a sandbox."@,
            input_schema: file_write_schema(),
        },
        BuiltinKind::FileEdit => ContractModel {
            name: "file.edit"@,
            version: "builtin-1"@,
            initial_description: "Apply exact text replacements with {path, edits:[{old_text, new_text}]}. Each old_text must occur exactly once; replacements cannot overlap."@,
            detailed_description: "Each edits[].old_text must occur exactly once in the original file. All matches are resolved against the original content, replacements must not overlap, and the file is written once after validation."@,
            input_schema: file_edit_schema(),
        },
        BuiltinKind::ShellRun => ContractModel {
            name: "shell.run"@,
            version: "builtin-1"@,
            initial_description: "Run a shell command in the session workspace. Full output is retained in a live file."@,
            detailed_description: "Run command through /bin/sh in the session workspace with the agent process environment plus configured overrides. The workspace is not a sandbox. stdout and stderr are combined and streamed to .zork/live-<invocation-id>.log. The same file remains available after completion; the result contains its path and a bounded tail. timeout_seconds is optional."@,
            input_schema: shell_run_schema(),
        },
    }
}

/// The contract of a built-in tool, with `version`.
fn contract_of(kind: BuiltinKind, version: ToolVersion) -> (r: ToolContract)
    requires
        version@ == "builtin-1"@,
    ensures
        r@ == builtin_contract(kind),
{
    match kind {
        BuiltinKind::End => ToolContract {
            name: "end".to_owned(),
            version,
            initial_description: "Finish the current turn when the requested work is complete. Unfinished work is checked before the turn ends.".to_owned(),
            detailed_description: "Call end when this turn is complete. If the runtime reports unfinished items, resolve them or call end again with acknowledge_outstanding=true to explicitly finish while leaving them outstanding.".to_owned(),
            input_schema: end_schema_json(),
        },
        BuiltinKind::Wait => ToolContract {
            name: "wait".to_owned(),
            version,
            initial_description: "Pause until a duration elapses or new mailbox input arrives.".to_owned(),
            detailed_description: "Pause this session for seconds unless new mailbox input arrives first. Tool completions do not by themselves end this explicit wait.".to_owned(),
            input_schema: wait_schema_json(),
        },
        BuiltinKind::ToolCancel => ToolContract {
            name: "tool.cancel".to_owned(),
            version,
            initial_description: "Request cancellation of one tool invocation by its zork-agent invocation ID.".to_owned(),
            detailed_description: "Request cancellation of invocation_id. The request is persisted before cancellation is signalled. A cancellation request is not proof of cancellation; the target's later ToolResult is authoritative.".to_owned(),
            input_schema: tool_cancel_schema_json(),
        },
        BuiltinKind::HistoryList => ToolContract {
            name: "history.list".to_owned(),
            version,
            initial_description: "List bounded durable session history pages. Use file.read on a returned zork://history URI for full event content.".to_owned(),
            detailed_description: "List at most limit visible events strictly before before_event_id, newest page first in durable order. Omit before_event_id for the most recent page. Read a specific returned event with file.read(path=\"zork://history/<event-id>\").".to_owned(),
            input_schema: history_list_schema_json(),
        },
        BuiltinKind::FileRead => ToolContract {
            name: "file.read".to_owned(),
            version,
            initial_description: "Read files or zork://history/<event-id> with {path, offset?, limit?}. offset is a zero-based byte offset (default 0), limit is bytes (default 65536). Continue from the returned next_offset. start/end and line numbers are not read parameters.".to_owned(),
            detailed_description: "Read at most limit bytes beginning at zero-based byte offset. Relative filesystem paths resolve from the session workspace. The same offset/limit contract applies to ordinary files and durable history events. Continue from next_offset until it is absent.".to_owned(),
            input_schema: file_read_schema_json(),
        },
        BuiltinKind::FileWrite => ToolContract {
            name: "file.write".to_owned(),
            version,
            initial_description: "Write complete file content, creating parent directories.".to_owned(),
            detailed_description: "Replace path with content, creating parent directories as needed. Relative paths resolve from the session workspace; absolute paths and parent traversal are allowed because the workspace is not a sandbox.".to_owned(),
            input_schema: file_write_schema_json(),
        },
        BuiltinKind::FileEdit => ToolContract {
            name: "file.edit".to_owned(),
            version,
            initial_description: "Apply exact text replacements with {path, edits:[{old_text, new_text}]}. Each old_text must occur exactly once; replacements cannot overlap.".to_owned(),
            detailed_description: "Each edits[].old_text must occur exactly once in the original file. All matches are resolved against the original content, replacements must not overlap, and the file is written once after validation.".to_owned(),
            input_schema: file_edit_schema_json(),
        },
        BuiltinKind::ShellRun => ToolContract {
            name: "shell.run".to_owned(),
            version,
            initial_description: "Run a shell command in the session workspace. Full output is retained in a live file.".to_owned(),
            detailed_description: "Run command through /bin/sh in the session workspace with the agent process environment plus configured overrides. The workspace is not a sandbox. stdout and stderr are combined and streamed to .zork/live-<invocation-id>.log. The same file remains available after completion; the result contains its path and a bounded tail. timeout_seconds is optional.".to_owned(),
            input_schema: shell_run_schema_json(),
        },
    }
}

/// All built-in tools, in the order in which they are registered.
pub open spec fn builtin_kinds() -> Seq<BuiltinKind> {
    seq![
        BuiltinKind::End,
        BuiltinKind::Wait,
        BuiltinKind::ToolCancel,
        BuiltinKind::HistoryList,
        BuiltinKind::FileRead,
        BuiltinKind::FileWrite,
        BuiltinKind::FileEdit,
        BuiltinKind::ShellRun,
    ]
}

/// The built-in tools with their contracts.
pub fn builtin_contracts() -> (r: Result<Vec<(BuiltinKind, ToolContract)>, ToolDefinitionError>)
    ensures
        r is Ok,
        r->Ok_0@.len() == builtin_kinds().len(),
        forall|i: int|
            0 <= i < builtin_kinds().len() ==> (#[trigger] r->Ok_0@[i]).0 == builtin_kinds()[i]
                && r->Ok_0@[i].1@ == builtin_contract(builtin_kinds()[i]),
{
    let version = match ToolVersion::new("builtin-1") {
        Ok(version) => version,
        Err(error) => {
            proof {
                reveal_strlit("builtin-1");
            }
            return Err(error);
        },
    };
    let kinds = vec![
        BuiltinKind::End,
        BuiltinKind::Wait,
        BuiltinKind::ToolCancel,
        BuiltinKind::HistoryList,
        BuiltinKind::FileRead,
        BuiltinKind::FileWrite,
        BuiltinKind::FileEdit,
        BuiltinKind::ShellRun,
    ];
    proof {
        assert(kinds@ =~= builtin_kinds());
    }
    let mut out: Vec<(BuiltinKind, ToolContract)> = Vec::new();
    let mut i: usize = 0;
    while i < kinds.len()
        invariant
            i <= kinds.len(),
            kinds@ == builtin_kinds(),
            version@ == "builtin-1"@,
            out@.len() == i,
            forall|j: int|
                0 <= j < i ==> (#[trigger] out@[j]).0 == builtin_kinds()[j] && out@[j].1@
                    == builtin_contract(builtin_kinds()[j]),
        decreases kinds.len() - i,
    {
        out.push((kinds[i], contract_of(kinds[i], version.clone())));
        i = i + 1;
    }
    Ok(out)
}

/// Who carries out a tool that comes with the agent.
#[derive(Clone, Copy, Debug, PartialEq, Eq, Structural)]
pub enum ToolHandler {
    Builtin(BuiltinKind),
    Help,
}

/// The tools that come with the agent, in the order in which they are registered.
pub open spec fn agent_tools() -> Seq<(ContractModel, ToolHandler)> {
    builtin_kinds().map_values(
        |kind: BuiltinKind| (builtin_contract(kind), ToolHandler::Builtin(kind)),
    ).push((help_contract("builtin-1"@), ToolHandler::Help))
}

/// What a name stands for in a registry.
pub open spec fn stands_for(
    entries: Map<Seq<char>, RegistryEntry<ToolHandler, NoToolState>>,
    name: Seq<char>,
) -> Option<(ContractModel, ToolHandler)> {
    if entries.contains_key(name) && entries[name].current is Some {
        let instance = entries[name].current->0;
        Some((instance.spec_contract(), instance.spec_handler()))
    } else {
        None
    }
}

/// What a name stands for after tools were registered one after the other.
pub open spec fn stands_after(
    before: Option<(ContractModel, ToolHandler)>,
    name: Seq<char>,
    tools: Seq<(ContractModel, ToolHandler)>,
) -> Option<(ContractModel, ToolHandler)>
    decreases tools.len(),
{
    if tools.len() == 0 {
        before
    } else if tools.last().0.name == name {
        Some(tools.last())
    } else {
        stands_after(before, name, tools.drop_last())
    }
}

/// Whether the first `count` of the tools that come with the agent were registered.
pub open spec fn has_registered(
    before: Map<Seq<char>, RegistryEntry<ToolHandler, NoToolState>>,
    after: Map<Seq<char>, RegistryEntry<ToolHandler, NoToolState>>,
    count: int,
) -> bool {
    &&& forall|i: int| 0 <= i < count ==> is_valid_contract((#[trigger] agent_tools()[i]).0)
    &&& forall|name: Seq<char>| #[trigger]
        stands_for(after, name) == stands_after(
            stands_for(before, name),
            name,
            agent_tools().take(count),
        )
}

/// Registers a tool that comes with the agent, the one behind the first `count`.
fn register_next(
    registry: &mut ToolRegistry<ToolHandler, NoToolState>,
    contract: ToolContract,
    handler: ToolHandler,
    Ghost(before): Ghost<Map<Seq<char>, RegistryEntry<ToolHandler, NoToolState>>>,
    Ghost(count): Ghost<int>,
) -> (r: Result<(), ToolDefinitionError>)
    requires
        old(registry).well_formed(),
        0 <= count < agent_tools().len(),
        agent_tools()[count] == (contract@, handler),
        has_registered(before, old(registry)@, count),
    ensures
        final(registry).well_formed(),
        match r {
            Ok(_) => has_registered(before, final(registry)@, count + 1),
            Err(error) => {
                &&& has_registered(before, final(registry)@, count)
                &&& is_refused(agent_tools()[count].0, error)
            },
        },
{
    let ghost tools = agent_tools();
    let ghost model = contract@;
    let instance = match ToolInstance::new(contract, handler) {
        Ok(instance) => instance,
        Err(error) => {
            return Err(error);
        },
    };
    registry.register(instance, NoToolState);
    proof {
        assert(tools.take(count + 1).drop_last() =~= tools.take(count));
        assert(tools.take(count + 1).last() == tools[count]);
        assert forall|name: Seq<char>| #[trigger]
            stands_for(registry@, name) == stands_after(
                stands_for(before, name),
                name,
                tools.take(count + 1),
            ) by {
            if name != model.name {
                assert(stands_for(registry@, name) == stands_for(old(registry)@, name));
            }
        }
    }
    Ok(())
}

/// Whether `error` tells why a tool cannot have a contract.
pub open spec fn is_refused(contract: ContractModel, error: ToolDefinitionError) -> bool {
    &&& !is_valid_contract(contract)
    &&& match contract_fault(contract) {
        Some(fault) => error == fault,
        None => error is InvalidInputSchema,
    }
}

/// Registers the tools that come with the agent; the first whose contract cannot be ends that.
pub fn register_builtin_tools(registry: &mut ToolRegistry<ToolHandler, NoToolState>) -> (r: Result<
    (),
    ToolDefinitionError,
>)
    requires
        old(registry).well_formed(),
    ensures
        final(registry).well_formed(),
        match r {
            Ok(_) => has_registered(old(registry)@, final(registry)@, agent_tools().len() as int),
            Err(error) => exists|count: int|
                0 <= count < agent_tools().len() && is_refused(
                    (#[trigger] agent_tools()[count]).0,
                    error,
                ) && has_registered(old(registry)@, final(registry)@, count),
        },
{
    let ghost before = registry@;
    let ghost tools = agent_tools();
    let mut contracts = builtin_contracts()?;
    let ghost all = contracts@;
    let mut i: usize = 0;
    proof {
        assert(tools.take(0) =~= Seq::<(ContractModel, ToolHandler)>::empty());
        assert(tools.len() == 9);
    }
    while contracts.len() > 0
        invariant
            registry.well_formed(),
            before == old(registry)@,
            tools == agent_tools(),
            tools.len() == 9,
            i <= 8,
            all.len() == 8,
            contracts@ == all.skip(i as int),
            forall|j: int|
                0 <= j < 8 ==> (#[trigger] all[j]).0 == builtin_kinds()[j] && all[j].1@
                    == builtin_contract(builtin_kinds()[j]),
            has_registered(before, registry@, i as int),
        decreases contracts.len(),
    {
        proof {
            assert(contracts@[0] == all[i as int]);
            assert(tools[i as int] == (
                builtin_contract(builtin_kinds()[i as int]),
                ToolHandler::Builtin(builtin_kinds()[i as int]),
            ));
        }
        let (kind, contract) = contracts.remove(0);
        proof {
            assert(contracts@ =~= all.skip(i + 1));
        }
        match register_next(
            registry,
            contract,
            ToolHandler::Builtin(kind),
            Ghost(before),
            Ghost(i as int),
        ) {
            Ok(_) => {},
            Err(error) => {
                return Err(error);
            },
        }
        i = i + 1;
    }
    let version = match ToolVersion::new("builtin-1") {
        Ok(version) => version,
        Err(error) => {
            proof {
                reveal_strlit("builtin-1");
            }
            return Err(error);
        },
    };
    register_next(
        registry,
        tool_help_contract(version),
        ToolHandler::Help,
        Ghost(before),
        Ghost(8),
    )
}

/// The tools that come with the agent have different names.
proof fn lemma_names_differ(i: int, j: int)
    requires
        0 <= i < j < agent_tools().len(),
    ensures
        agent_tools()[i].0.name != agent_tools()[j].0.name,
{
    reveal_strlit("end");
    reveal_strlit("wait");
    reveal_strlit("tool.cancel");
    reveal_strlit("history.list");
    reveal_strlit("file.read");
    reveal_strlit("file.write");
    reveal_strlit("file.edit");
    reveal_strlit("shell.run");
    reveal_strlit("tool.help");
    let a = agent_tools()[i].0.name;
    let b = agent_tools()[j].0.name;
    if a.len() == b.len() {
        assert(a[0] != b[0] || a[5] != b[5]);
    }
}

proof fn lemma_stands(before: Option<(ContractModel, ToolHandler)>, i: int, count: int)
    requires
        0 <= i < count <= agent_tools().len(),
    ensures
        stands_after(before, agent_tools()[i].0.name, agent_tools().take(count)) == Some(
            agent_tools()[i],
        ),
    decreases count,
{
    let head = agent_tools().take(count);
    assert(head.last() == agent_tools()[count - 1]);
    assert(head.drop_last() =~= agent_tools().take(count - 1));
    if i < count - 1 {
        lemma_names_differ(i, count - 1);
        lemma_stands(before, i, count - 1);
    }
}

/// After they were registered, every tool that comes with the agent is offered under its own name,
/// whatever stood there.
pub proof fn agent_tools_are_offered(
    before: Map<Seq<char>, RegistryEntry<ToolHandler, NoToolState>>,
    after: Map<Seq<char>, RegistryEntry<ToolHandler, NoToolState>>,
    i: int,
)
    requires
        has_registered(before, after, agent_tools().len() as int),
        0 <= i < agent_tools().len(),
    ensures
        stands_for(after, agent_tools()[i].0.name) == Some(agent_tools()[i]),
{
    let name = agent_tools()[i].0.name;
    assert(agent_tools().take(agent_tools().len() as int) =~= agent_tools());
    lemma_stands(stands_for(before, name), i, agent_tools().len() as int);
}

/// Whether a schema declares the member `key` with values of that type.
pub open spec fn takes(schema: JsonModel, key: Seq<char>, kind: Seq<char>) -> bool {
    schema.get2("properties"@, key) matches Some(value) && value.get("type"@) == Some(
        JsonModel::Text(kind),
    )
}

/// Whether a schema bounds the member `key`.
pub open spec fn bounds(schema: JsonModel, key: Seq<char>, bound: Seq<char>, value: u64) -> bool {
    schema.get2("properties"@, key) matches Some(inner) && inner.get(bound) == Some(
        JsonModel::Unsigned(value),
    )
}

/// Whether a schema is that of an object with `count` declared members and no others.
pub open spec fn is_closed_object(schema: JsonModel, count: nat) -> bool {
    &&& schema.get("type"@) == Some(JsonModel::Text("object"@))
    &&& schema.get("additionalProperties"@) == Some(JsonModel::Bool(false))
    &&& schema.get("properties"@) matches Some(JsonModel::Object(declared)) && declared.len()
        == count
}

proof fn lemma_closed_object(properties: Seq<(Seq<char>, JsonModel)>, required: Option<JsonModel>)
    ensures
        is_closed_object(closed_object(properties, required), properties.len()),
        closed_object(properties, required).get("properties"@) == Some(
            JsonModel::Object(properties),
        ),
        closed_object(properties, required).get("required"@) == required,
{
    reveal_strlit("type");
    reveal_strlit("properties");
    reveal_strlit("required");
    reveal_strlit("additionalProperties");
    assert("type"@.len() == 4 && "properties"@.len() == 10 && "required"@.len() == 8
        && "additionalProperties"@.len() == 20);
    let fields = closed_object(properties, required)->Object_0;
    assert(fields[0].0 == "type"@ && fields[1].0 == "properties"@);
    assert(required is Some ==> fields[2].0 == "required"@ && fields[3].0
        == "additionalProperties"@);
    assert(required is None ==> fields[2].0 == "additionalProperties"@);
    named_members_are_found(fields);
}

proof fn lemma_typed(kind: Seq<char>)
    ensures
        typed(kind).get("type"@) == Some(JsonModel::Text(kind)),
{
    let fields = typed(kind)->Object_0;
    assert(fields[0].0 == "type"@);
    named_members_are_found(fields);
}

proof fn lemma_bounded(kind: Seq<char>, bound: Seq<char>, value: u64)
    requires
        bound != "type"@,
    ensures
        bounded(kind, bound, value).get("type"@) == Some(JsonModel::Text(kind)),
        bounded(kind, bound, value).get(bound) == Some(JsonModel::Unsigned(value)),
{
    let fields = bounded(kind, bound, value)->Object_0;
    assert(fields[0].0 == "type"@ && fields[1].0 == bound);
    named_members_are_found(fields);
}

proof fn lemma_within(
    kind: Seq<char>,
    lower: Seq<char>,
    least: u64,
    upper: Seq<char>,
    most: u64,
)
    requires
        lower != "type"@,
        upper != "type"@,
        lower != upper,
    ensures
        within(kind, lower, least, upper, most).get("type"@) == Some(JsonModel::Text(kind)),
        within(kind, lower, least, upper, most).get(lower) == Some(JsonModel::Unsigned(least)),
        within(kind, lower, least, upper, most).get(upper) == Some(JsonModel::Unsigned(most)),
{
    let fields = within(kind, lower, least, upper, most)->Object_0;
    assert(fields[0].0 == "type"@ && fields[1].0 == lower && fields[2].0 == upper);
    named_members_are_found(fields);
}

proof fn lemma_bound_names()
    ensures
        "minLength"@ != "type"@,
        "maxLength"@ != "type"@,
        "minimum"@ != "type"@,
        "maximum"@ != "type"@,
        "exclusiveMinimum"@ != "type"@,
        "minLength"@ != "maxLength"@,
        "minimum"@ != "maximum"@,
{
    reveal_strlit("type");
    reveal_strlit("minLength");
    reveal_strlit("maxLength");
    reveal_strlit("minimum");
    reveal_strlit("maximum");
    reveal_strlit("exclusiveMinimum");
    assert("type"@.len() == 4 && "minLength"@.len() == 9 && "maxLength"@.len() == 9
        && "minimum"@.len() == 7 && "maximum"@.len() == 7 && "exclusiveMinimum"@.len() == 16);
    assert("minLength"@[1] != "maxLength"@[1] && "minimum"@[1] != "maximum"@[1]);
}

proof fn lemma_two_members(a: Seq<char>, x: JsonModel, b: Seq<char>, y: JsonModel)
    requires
        a != b,
    ensures
        JsonModel::Object(no_fields().push((a, x)).push((b, y))).get(a) == Some(x),
        JsonModel::Object(no_fields().push((a, x)).push((b, y))).get(b) == Some(y),
{
    let fields = no_fields().push((a, x)).push((b, y));
    assert(fields[0].0 == a && fields[1].0 == b);
    named_members_are_found(fields);
}

proof fn lemma_one_member(a: Seq<char>, x: JsonModel)
    ensures
        JsonModel::Object(no_fields().push((a, x))).get(a) == Some(x),
{
    let fields = no_fields().push((a, x));
    assert(fields[0].0 == a);
    named_members_are_found(fields);
}

/// `end`, `wait` and `tool.cancel` take what they are called for: whether unfinished items are
/// acknowledged; how many seconds, more than none, and what for; and which invocation.
pub proof fn turn_tools_take_their_arguments()
    ensures
        ({
            let schema = builtin_contract(BuiltinKind::End).input_schema;
            &&& builtin_contract(BuiltinKind::End).name == "end"@
            &&& is_closed_object(schema, 1)
            &&& takes(schema, "acknowledge_outstanding"@, "boolean"@)
            &&& schema.get("required"@) is None
        }),
        ({
            let schema = builtin_contract(BuiltinKind::Wait).input_schema;
            &&& builtin_contract(BuiltinKind::Wait).name == "wait"@
            &&& is_closed_object(schema, 2)
            &&& takes(schema, "seconds"@, "number"@)
            &&& bounds(schema, "seconds"@, "exclusiveMinimum"@, 0)
            &&& takes(schema, "reason"@, "string"@)
            &&& schema.get("required"@) == Some(
                JsonModel::Array(seq![JsonModel::Text("seconds"@)]),
            )
        }),
        ({
            let schema = builtin_contract(BuiltinKind::ToolCancel).input_schema;
            &&& builtin_contract(BuiltinKind::ToolCancel).name == "tool.cancel"@
            &&& is_closed_object(schema, 1)
            &&& takes(schema, "invocation_id"@, "string"@)
            &&& bounds(schema, "invocation_id"@, "minLength"@, 1)
            &&& schema.get("required"@) == Some(
                JsonModel::Array(seq![JsonModel::Text("invocation_id"@)]),
            )
        }),
{
    lemma_bound_names();
    lemma_closed_object(no_fields().push(("acknowledge_outstanding"@, typed("boolean"@))), None);
    lemma_one_member("acknowledge_outstanding"@, typed("boolean"@));
    lemma_typed("boolean"@);
    let seconds = bounded("number"@, "exclusiveMinimum"@, 0);
    lemma_closed_object(
        no_fields().push(("seconds"@, seconds)).push(("reason"@, typed("string"@))),
        Some(text_single("seconds"@)),
    );
    reveal_strlit("seconds");
    reveal_strlit("reason");
    assert("seconds"@.len() != "reason"@.len());
    lemma_two_members("seconds"@, seconds, "reason"@, typed("string"@));
    lemma_bounded("number"@, "exclusiveMinimum"@, 0);
    lemma_typed("string"@);
    let id = bounded("string"@, "minLength"@, 1);
    lemma_closed_object(
        no_fields().push(("invocation_id"@, id)),
        Some(text_single("invocation_id"@)),
    );
    lemma_one_member("invocation_id"@, id);
    lemma_bounded("string"@, "minLength"@, 1);
    assert(text_single("seconds"@)->Array_0 =~= seq![JsonModel::Text("seconds"@)]);
    assert(text_single("invocation_id"@)->Array_0 =~= seq![JsonModel::Text("invocation_id"@)]);
}

/// `history.list` takes up to 200 events before an event of 16 characters; `file.read` takes a path,
/// an offset and a limit of up to a mebibyte; `file.write` takes a path and a content.
pub proof fn reading_tools_take_their_arguments()
    ensures
        ({
            let schema = builtin_contract(BuiltinKind::HistoryList).input_schema;
            &&& builtin_contract(BuiltinKind::HistoryList).name == "history.list"@
            &&& is_closed_object(schema, 2)
            &&& takes(schema, "before_event_id"@, "string"@)
            &&& bounds(schema, "before_event_id"@, "minLength"@, 16)
            &&& bounds(schema, "before_event_id"@, "maxLength"@, 16)
            &&& takes(schema, "limit"@, "integer"@)
            &&& bounds(schema, "limit"@, "minimum"@, 1)
            &&& bounds(schema, "limit"@, "maximum"@, 200)
            &&& schema.get("required"@) is None
        }),
        ({
            let schema = builtin_contract(BuiltinKind::FileRead).input_schema;
            &&& builtin_contract(BuiltinKind::FileRead).name == "file.read"@
            &&& is_closed_object(schema, 3)
            &&& takes(schema, "path"@, "string"@)
            &&& bounds(schema, "path"@, "minLength"@, 1)
            &&& takes(schema, "offset"@, "integer"@)
            &&& bounds(schema, "offset"@, "minimum"@, 0)
            &&& takes(schema, "limit"@, "integer"@)
            &&& bounds(schema, "limit"@, "minimum"@, 1)
            &&& bounds(schema, "limit"@, "maximum"@, 1_048_576)
            &&& schema.get("required"@) == Some(JsonModel::Array(seq![JsonModel::Text("path"@)]))
        }),
        ({
            let schema = builtin_contract(BuiltinKind::FileWrite).input_schema;
            &&& builtin_contract(BuiltinKind::FileWrite).name == "file.write"@
            &&& is_closed_object(schema, 2)
            &&& takes(schema, "path"@, "string"@)
            &&& bounds(schema, "path"@, "minLength"@, 1)
            &&& takes(schema, "content"@, "string"@)
            &&& schema.get("required"@) == Some(
                JsonModel::Array(seq![JsonModel::Text("path"@), JsonModel::Text("content"@)]),
            )
        }),
{
    lemma_bound_names();
    reveal_strlit("before_event_id");
    reveal_strlit("limit");
    reveal_strlit("path");
    reveal_strlit("offset");
    reveal_strlit("content");
    assert("before_event_id"@.len() == 15 && "limit"@.len() == 5 && "path"@.len() == 4
        && "offset"@.len() == 6 && "content"@.len() == 7);
    let id = within("string"@, "minLength"@, 16, "maxLength"@, 16);
    let limit = within("integer"@, "minimum"@, 1, "maximum"@, 200);
    lemma_closed_object(no_fields().push(("before_event_id"@, id)).push(("limit"@, limit)), None);
    lemma_two_members("before_event_id"@, id, "limit"@, limit);
    lemma_within("string"@, "minLength"@, 16, "maxLength"@, 16);
    lemma_within("integer"@, "minimum"@, 1, "maximum"@, 200);
    let path = bounded("string"@, "minLength"@, 1);
    let offset = bounded("integer"@, "minimum"@, 0);
    let most = within("integer"@, "minimum"@, 1, "maximum"@, 1_048_576);
    let three = no_fields().push(("path"@, path)).push(("offset"@, offset)).push(("limit"@, most));
    lemma_closed_object(three, Some(text_single("path"@)));
    assert(three[0].0 == "path"@ && three[1].0 == "offset"@ && three[2].0 == "limit"@);
    named_members_are_found(three);
    lemma_bounded("string"@, "minLength"@, 1);
    lemma_bounded("integer"@, "minimum"@, 0);
    lemma_within("integer"@, "minimum"@, 1, "maximum"@, 1_048_576);
    lemma_closed_object(
        no_fields().push(("path"@, path)).push(("content"@, typed("string"@))),
        Some(text_pair("path"@, "content"@)),
    );
    lemma_two_members("path"@, path, "content"@, typed("string"@));
    lemma_typed("string"@);
    assert(text_single("path"@)->Array_0 =~= seq![JsonModel::Text("path"@)]);
    assert(text_pair("path"@, "content"@)->Array_0 =~= seq![
        JsonModel::Text("path"@),
        JsonModel::Text("content"@),
    ]);
}

/// `file.edit` takes a path and at least one edit, each an old and a new text and nothing else;
/// `shell.run` takes a command and, if it is to end in time, more than no seconds.
pub proof fn changing_tools_take_their_arguments()
    ensures
        ({
            let schema = builtin_contract(BuiltinKind::FileEdit).input_schema;
            &&& builtin_contract(BuiltinKind::FileEdit).name == "file.edit"@
            &&& is_closed_object(schema, 2)
            &&& takes(schema, "path"@, "string"@)
            &&& bounds(schema, "path"@, "minLength"@, 1)
            &&& takes(schema, "edits"@, "array"@)
            &&& bounds(schema, "edits"@, "minItems"@, 1)
            &&& schema.get("required"@) == Some(
                JsonModel::Array(seq![JsonModel::Text("path"@), JsonModel::Text("edits"@)]),
            )
            &&& schema.get2("properties"@, "edits"@) matches Some(edits) && edits.get(
                "items"@,
            ) matches Some(edit) && is_closed_object(edit, 2) && takes(
                edit,
                "old_text"@,
                "string"@,
            ) && takes(edit, "new_text"@, "string"@) && edit.get("required"@) == Some(
                JsonModel::Array(seq![JsonModel::Text("old_text"@), JsonModel::Text("new_text"@)]),
            )
        }),
        ({
            let schema = builtin_contract(BuiltinKind::ShellRun).input_schema;
            &&& builtin_contract(BuiltinKind::ShellRun).name == "shell.run"@
            &&& is_closed_object(schema, 2)
            &&& takes(schema, "command"@, "string"@)
            &&& bounds(schema, "command"@, "minLength"@, 1)
            &&& takes(schema, "timeout_seconds"@, "number"@)
            &&& bounds(schema, "timeout_seconds"@, "exclusiveMinimum"@, 0)
            &&& schema.get("required"@) == Some(
                JsonModel::Array(seq![JsonModel::Text("command"@)]),
            )
        }),
{
    lemma_bound_names();
    reveal_strlit("path");
    reveal_strlit("edits");
    reveal_strlit("old_text");
    reveal_strlit("new_text");
    reveal_strlit("command");
    reveal_strlit("timeout_seconds");
    reveal_strlit("type");
    reveal_strlit("minItems");
    reveal_strlit("items");
    assert("path"@.len() == 4 && "edits"@.len() == 5 && "command"@.len() == 7
        && "timeout_seconds"@.len() == 15 && "type"@.len() == 4 && "minItems"@.len() == 8
        && "items"@.len() == 5);
    assert("old_text"@[0] != "new_text"@[0]);
    let path = bounded("string"@, "minLength"@, 1);
    lemma_bounded("string"@, "minLength"@, 1);
    lemma_typed("string"@);
    let list = no_fields().push(("type"@, JsonModel::Text("array"@))).push(
        ("minItems"@, JsonModel::Unsigned(1)),
    ).push(("items"@, edit_schema()));
    assert(list[0].0 == "type"@ && list[1].0 == "minItems"@ && list[2].0 == "items"@);
    named_members_are_found(list);
    lemma_closed_object(
        no_fields().push(("path"@, path)).push(("edits"@, JsonModel::Object(list))),
        Some(text_pair("path"@, "edits"@)),
    );
    lemma_two_members("path"@, path, "edits"@, JsonModel::Object(list));
    lemma_closed_object(
        no_fields().push(("old_text"@, typed("string"@))).push(("new_text"@, typed("string"@))),
        Some(text_pair("old_text"@, "new_text"@)),
    );
    lemma_two_members("old_text"@, typed("string"@), "new_text"@, typed("string"@));
    let timeout = bounded("number"@, "exclusiveMinimum"@, 0);
    lemma_bounded("number"@, "exclusiveMinimum"@, 0);
    lemma_closed_object(
        no_fields().push(("command"@, path)).push(("timeout_seconds"@, timeout)),
        Some(text_single("command"@)),
    );
    lemma_two_members("command"@, path, "timeout_seconds"@, timeout);
    assert(text_pair("path"@, "edits"@)->Array_0 =~= seq![
        JsonModel::Text("path"@),
        JsonModel::Text("edits"@),
    ]);
    assert(text_pair("old_text"@, "new_text"@)->Array_0 =~= seq![
        JsonModel::Text("old_text"@),
        JsonModel::Text("new_text"@),
    ]);
    assert(text_single("command"@)->Array_0 =~= seq![JsonModel::Text("command"@)]);
}

/// Every built-in tool is among those that come with the agent, carried out by itself, and so is
/// help; there is no other, and all of them have the same version.
pub proof fn agents_come_with_every_tool(kind: BuiltinKind)
    ensures
        exists|i: int|
            0 <= i < agent_tools().len() && #[trigger] agent_tools()[i] == (
                builtin_contract(kind),
                ToolHandler::Builtin(kind),
            ),
        exists|i: int|
            0 <= i < agent_tools().len() && (#[trigger] agent_tools()[i]).1 == ToolHandler::Help
                && agent_tools()[i].0.name == "tool.help"@,
        agent_tools().len() == 9,
        forall|i: int|
            0 <= i < agent_tools().len() ==> (#[trigger] agent_tools()[i]).0.version
                == "builtin-1"@,
{
    let all = agent_tools();
    assert(all[8].1 == ToolHandler::Help);
    let i = match kind {
        BuiltinKind::End => 0int,
        BuiltinKind::Wait => 1,
        BuiltinKind::ToolCancel => 2,
        BuiltinKind::HistoryList => 3,
        BuiltinKind::FileRead => 4,
        BuiltinKind::FileWrite => 5,
        BuiltinKind::FileEdit => 6,
        BuiltinKind::ShellRun => 7,
    };
    assert(all[i] == (builtin_contract(kind), ToolHandler::Builtin(kind)));
}

/// A tool that comes with the agent is refused only if its contract is none, and for what is wrong
/// with it.
pub proof fn only_bad_contracts_are_refused(contract: ContractModel, error: ToolDefinitionError)
    requires
        is_refused(contract, error),
    ensures
        !is_valid_contract(contract),
        contract_fault(contract) matches Some(fault) ==> error == fault,
        contract_fault(contract) is None ==> error is InvalidInputSchema,
{
}

/// What a name stands for after some tools were registered is the last of them that has the name, or
/// what it stood for before where none has.
pub proof fn last_registered_tool_stands(
    before: Option<(ContractModel, ToolHandler)>,
    name: Seq<char>,
    tools: Seq<(ContractModel, ToolHandler)>,
)
    ensures
        (forall|i: int| 0 <= i < tools.len() ==> (#[trigger] tools[i]).0.name != name)
            ==> stands_after(before, name, tools) == before,
        forall|i: int|
            0 <= i < tools.len() && (#[trigger] tools[i]).0.name == name && (forall|j: int|
                i < j < tools.len() ==> (#[trigger] tools[j]).0.name != name) ==> stands_after(
                before,
                name,
                tools,
            ) == Some(tools[i]),
    decreases tools.len(),
{
    if tools.len() > 0 {
        let rest = tools.drop_last();
        last_registered_tool_stands(before, name, rest);
        let last = (tools.len() - 1) as int;
        assert(tools.last() == tools[last]);
        assert forall|j: int| 0 <= j < rest.len() implies #[trigger] rest[j] == tools[j] by {}
        assert forall|i: int|
            0 <= i < tools.len() && (#[trigger] tools[i]).0.name == name && (forall|j: int|
                i < j < tools.len() ==> (#[trigger] tools[j]).0.name != name) implies stands_after(
            before,
            name,
            tools,
        ) == Some(tools[i]) by {
            if i < last {
                assert(tools[last].0.name != name);
                assert(rest[i].0.name == name);
            }
        }
    }
}

/// A model is told of each tool what it is for, and on request how it is used: these texts are the
/// promises that the tools keep.
pub proof fn tools_are_described_to_models(kind: BuiltinKind)
    ensures
        builtin_contract(kind).initial_description == match kind {
            BuiltinKind::End => "Finish the current turn when the requested work is complete. Unfinished work is checked before the turn ends."@,
            BuiltinKind::Wait => "Pause until a duration elapses or new mailbox input arrives."@,
            BuiltinKind::ToolCancel => "Request cancellation of one tool invocation by its zork-agent invocation ID."@,
            BuiltinKind::HistoryList => "List bounded durable session history pages. Use file.read on a returned zork://history URI for full event content."@,
            BuiltinKind::FileRead => "Read files or zork://history/<event-id> with {path, offset?, limit?}. offset is a zero-based byte offset (default 0), limit is bytes (default 65536). Continue from the returned next_offset. start/end and line numbers are not read parameters."@,
            BuiltinKind::FileWrite => "Write complete file content, creating parent directories."@,
            BuiltinKind::FileEdit => "Apply exact text replacements with {path, edits:[{old_text, new_text}]}. Each old_text must occur exactly once; replacements cannot overlap."@,
            BuiltinKind::ShellRun => "Run a shell command in the session workspace. Full output is retained in a live file."@,
        },
        builtin_contract(kind).detailed_description == match kind {
            BuiltinKind::End => "Call end when this turn is complete. If the runtime reports unfinished items, resolve them or call end again with acknowledge_outstanding=true to explicitly finish while leaving them outstanding."@,
            BuiltinKind::Wait => "Pause this session for seconds unless new mailbox input arrives first. Tool completions do not by themselves end this explicit wait."@,
            BuiltinKind::ToolCancel => "Request cancellation of invocation_id. The request is persisted before cancellation is signalled. A cancellation request is not proof of cancellation; the target's later ToolResult is authoritative."@,
            BuiltinKind::HistoryList => "List at most limit visible events strictly before before_event_id, newest page first in durable order. Omit before_event_id for the most recent page. Read a specific returned event with file.read(path=\"zork://history/<event-id>\")."@,
            BuiltinKind::FileRead => "Read at most limit bytes beginning at zero-based byte offset. Relative filesystem paths resolve from the session workspace. The same offset/limit contract applies to ordinary files and durable history events. Continue from next_offset until it is absent."@,
            BuiltinKind::FileWrite => "Replace path with content, creating parent directories as needed. Relative paths resolve from the session workspace; absolute paths and parent traversal are allowed because the workspace is not a sandbox."@,
            BuiltinKind::FileEdit => "Each edits[].old_text must occur exactly once in the original file. All matches are resolved against the original content, replacements must not overlap, and the file is written once after validation."@,
            BuiltinKind::ShellRun => "Run command through /bin/sh in the session workspace with the agent process environment plus configured overrides. The workspace is not a sandbox. stdout and stderr are combined and streamed to .zork/live-<invocation-id>.log. The same file remains available after completion; the result contains its path and a bounded tail. timeout_seconds is optional."@,
        },
{
}

} // verus!
