//! Logical tools: their contracts, the registry that offers them, and how a call is prepared.
use vstd::prelude::*;

use crate::json::{
    member, members_are_found, models, models_index, named_members_are_found, no_fields, no_items,
    optional_ref, to_value, Json, JsonModel, JsonObject,
};
use crate::text::{is_blank, join2, join3, less, less_total, less_transitive, same, text_less, trim};
use crate::text_map::{ascending, TextMap};

verus! {

/// The one tool that a model provider is shown.
pub const PROVIDER_CALL_NAME: &'static str = "call";

/// How a tool invocation ended.
#[derive(Clone, Copy, Debug, PartialEq, Eq, Structural)]
pub enum ToolOutcome {
    Succeeded,
    Failed,
    TimedOut,
    Cancelled,
}

/// The name of an outcome.
pub open spec fn outcome_name(outcome: ToolOutcome) -> Seq<char> {
    match outcome {
        ToolOutcome::Succeeded => "succeeded"@,
        ToolOutcome::Failed => "failed"@,
        ToolOutcome::TimedOut => "timed_out"@,
        ToolOutcome::Cancelled => "cancelled"@,
    }
}

impl ToolOutcome {
    pub fn as_str(self) -> (r: &'static str)
        ensures
            r@ == outcome_name(self),
    {
        match self {
            ToolOutcome::Succeeded => "succeeded",
            ToolOutcome::Failed => "failed",
            ToolOutcome::TimedOut => "timed_out",
            ToolOutcome::Cancelled => "cancelled",
        }
    }
}

/// A tool as a model provider is shown it.
#[derive(Debug)]
pub struct ToolDefinition {
    pub name: String,
    pub description: String,
    pub input_schema: Json,
}

/// A JSON object with one member, `type`.
pub open spec fn typed(name: Seq<char>) -> JsonModel {
    JsonModel::Object(no_fields().push(("type"@, JsonModel::Text(name))))
}

/// A JSON array of two texts.
pub open spec fn text_pair(a: Seq<char>, b: Seq<char>) -> JsonModel {
    JsonModel::Array(no_items().push(JsonModel::Text(a)).push(JsonModel::Text(b)))
}

/// The schema of a text that is not empty.
pub open spec fn nonempty_text_schema() -> JsonModel {
    JsonModel::Object(
        no_fields().push(("type"@, JsonModel::Text("string"@))).push(
            ("minLength"@, JsonModel::Unsigned(1)),
        ),
    )
}

/// The schema of the one provider call: the name of a logical tool and an object of arguments.
pub open spec fn call_schema() -> JsonModel {
    JsonModel::Object(
        no_fields().push(("type"@, JsonModel::Text("object"@))).push(
            (
                "properties"@,
                JsonModel::Object(
                    no_fields().push(("tool"@, nonempty_text_schema())).push(
                        ("arguments"@, typed("object"@)),
                    ),
                ),
            ),
        ).push(("required"@, text_pair("tool"@, "arguments"@))).push(
            ("additionalProperties"@, JsonModel::Bool(false)),
        ),
    )
}

pub(crate) fn typed_json(name: &str) -> (r: Json)
    ensures
        r@ == typed(name@),
{
    JsonObject::new().with("type", Json::text(name)).done()
}

pub(crate) fn nonempty_text_json() -> (r: Json)
    ensures
        r@ == nonempty_text_schema(),
{
    JsonObject::new().with("type", Json::text("string")).with("minLength", Json::unsigned(1)).done()
}

pub(crate) fn text_pair_json(a: &str, b: &str) -> (r: Json)
    ensures
        r@ == text_pair(a@, b@),
{
    let mut items: Vec<Json> = Vec::new();
    items.push(Json::text(a));
    let ghost one = items@;
    items.push(Json::text(b));
    proof {
        assert(items@.drop_last() =~= one);
        assert(one.drop_last() =~= Seq::<Json>::empty());
        reveal_with_fuel(models, 3);
    }
    Json::array(items)
}

/// The one tool that a model provider is shown, through which all logical tools are called.
pub fn provider_call_definition() -> (r: ToolDefinition)
    ensures
        r.name@ == "call"@,
        r.description@
            == "Call one zork-agent logical tool. Use the tool's complete name and put all tool-specific parameters in arguments."@,
        r.input_schema@ == call_schema(),
{
    let properties = JsonObject::new().with("tool", nonempty_text_json()).with(
        "arguments",
        typed_json("object"),
    ).done();
    ToolDefinition {
        name: "call".to_owned(),
        description:
            "Call one zork-agent logical tool. Use the tool's complete name and put all tool-specific parameters in arguments.".to_owned(),
        input_schema: JsonObject::new().with("type", Json::text("object")).with(
            "properties",
            properties,
        ).with("required", text_pair_json("tool", "arguments")).with(
            "additionalProperties",
            Json::Bool(false),
        ).done(),
    }
}

/// A call of a logical tool.
#[derive(Debug)]
pub struct DynamicCall {
    pub tool: String,
    pub arguments: Json,
}

#[derive(Debug)]
pub enum DynamicCallError {
    Invalid(String),
    EmptyTool,
}

impl DynamicCallError {
    pub fn message(&self) -> (r: String)
        ensures
            r@ == match self {
                DynamicCallError::Invalid(reason) => "invalid dynamic call: "@ + reason@,
                DynamicCallError::EmptyTool => "dynamic call tool must not be empty"@,
            },
    {
        match self {
            DynamicCallError::Invalid(reason) => join2("invalid dynamic call: ", reason),
            DynamicCallError::EmptyTool => "dynamic call tool must not be empty".to_owned(),
        }
    }
}

/// The two parts of a call, from an object with the members `tool` and `arguments` or from a list
/// of the two.
pub open spec fn call_parts(value: JsonModel) -> (Option<JsonModel>, Option<JsonModel>) {
    match value {
        JsonModel::Object(_) => (value.get("tool"@), value.get("arguments"@)),
        JsonModel::Array(items) => if items.len() == 2 {
            (Some(items[0]), Some(items[1]))
        } else {
            (None, None)
        },
        _ => (None, None),
    }
}

/// Whether `value` is a call: a text and an object.
pub open spec fn is_call(value: JsonModel) -> bool {
    call_parts(value).0 is Some && call_parts(value).0->0 is Text && call_parts(value).1 is Some
        && call_parts(value).1->0 is Object
}

impl DynamicCall {
    /// Reads a call. What else an object holds is passed over.
    pub fn from_value(value: &Json) -> (r: Result<DynamicCall, DynamicCallError>)
        ensures
            match r {
                Ok(call) => {
                    &&& is_call(value@)
                    &&& !is_blank(call.tool@)
                    &&& call_parts(value@) == (
                        Some(JsonModel::Text(call.tool@)),
                        Some(call.arguments@),
                    )
                },
                Err(DynamicCallError::EmptyTool) => is_call(value@) && is_blank(
                    (call_parts(value@).0->0)->Text_0,
                ),
                Err(DynamicCallError::Invalid(_)) => !is_call(value@),
            },
    {
        let (tool, arguments) = match value {
            Json::Object(_) => (value.get("tool"), value.get("arguments")),
            Json::Array(items) => {
                proof {
                    models_index(items@);
                }
                if items.len() == 2 {
                    (Some(&items[0]), Some(&items[1]))
                } else {
                    (None, None)
                }
            },
            _ => (None, None),
        };
        match (tool, arguments) {
            (Some(Json::Text(tool)), Some(Json::Object(_))) => {
                if trim(tool).as_str().is_empty() {
                    return Err(DynamicCallError::EmptyTool);
                }
                let arguments = match arguments {
                    Some(arguments) => arguments.clone(),
                    None => Json::Null,
                };
                Ok(DynamicCall { tool: tool.clone(), arguments })
            },
            _ => Err(
                DynamicCallError::Invalid(
                    "a call takes a text as tool and an object as arguments".to_owned(),
                ),
            ),
        }
    }
}

/// The version of a tool; never empty.
#[derive(Debug, PartialEq, Eq, PartialOrd, Ord, Hash)]
pub struct ToolVersion {
    text: String,
}

impl View for ToolVersion {
    type V = Seq<char>;

    closed spec fn view(&self) -> Seq<char> {
        self.text@
    }
}

impl Clone for ToolVersion {
    fn clone(&self) -> (r: ToolVersion)
        ensures
            r@ == self@,
    {
        proof {
            use_type_invariant(self);
        }
        ToolVersion { text: self.text.clone() }
    }
}

impl ToolVersion {
    #[verifier::type_invariant]
    closed spec fn well_formed(&self) -> bool {
        self.text@.len() > 0
    }

    pub fn new(value: &str) -> (r: Result<ToolVersion, ToolDefinitionError>)
        ensures
            match r {
                Ok(version) => value@.len() > 0 && version@ == value@,
                Err(error) => value@.len() == 0 && error is EmptyVersion,
            },
    {
        if value.is_empty() {
            return Err(ToolDefinitionError::EmptyVersion);
        }
        Ok(ToolVersion { text: value.to_owned() })
    }

    pub fn as_str(&self) -> (r: &str)
        ensures
            r@ == self@,
            r@.len() > 0,
    {
        proof {
            use_type_invariant(self);
        }
        self.text.as_str()
    }
}

/// What a tool is called, how it is described and what it takes.
#[derive(Debug)]
pub struct ToolContract {
    pub name: String,
    pub version: ToolVersion,
    pub initial_description: String,
    pub detailed_description: String,
    pub input_schema: Json,
}

/// What a contract says.
pub struct ContractModel {
    pub name: Seq<char>,
    pub version: Seq<char>,
    pub initial_description: Seq<char>,
    pub detailed_description: Seq<char>,
    pub input_schema: JsonModel,
}

impl View for ToolContract {
    type V = ContractModel;

    open spec fn view(&self) -> ContractModel {
        ContractModel {
            name: self.name@,
            version: self.version@,
            initial_description: self.initial_description@,
            detailed_description: self.detailed_description@,
            input_schema: self.input_schema@,
        }
    }
}

impl Clone for ToolContract {
    fn clone(&self) -> (r: ToolContract)
        ensures
            r@ == self@,
    {
        ToolContract {
            name: self.name.clone(),
            version: self.version.clone(),
            initial_description: self.initial_description.clone(),
            detailed_description: self.detailed_description.clone(),
            input_schema: self.input_schema.clone(),
        }
    }
}

#[derive(Debug)]
pub enum ToolDefinitionError {
    EmptyName,
    EmptyVersion,
    EmptyInitialDescription,
    EmptyDetailedDescription,
    InvalidInputSchema(String),
}

impl ToolDefinitionError {
    pub fn message(&self) -> (r: String)
        ensures
            r@ == match self {
                ToolDefinitionError::EmptyName => "tool name must not be empty"@,
                ToolDefinitionError::EmptyVersion => "tool version must not be empty"@,
                ToolDefinitionError::EmptyInitialDescription =>
                    "tool initial description must not be empty"@,
                ToolDefinitionError::EmptyDetailedDescription =>
                    "tool detailed description must not be empty"@,
                ToolDefinitionError::InvalidInputSchema(reason) => "invalid tool input schema: "@
                    + reason@,
            },
    {
        match self {
            ToolDefinitionError::EmptyName => "tool name must not be empty".to_owned(),
            ToolDefinitionError::EmptyVersion => "tool version must not be empty".to_owned(),
            ToolDefinitionError::EmptyInitialDescription =>
                "tool initial description must not be empty".to_owned(),
            ToolDefinitionError::EmptyDetailedDescription =>
                "tool detailed description must not be empty".to_owned(),
            ToolDefinitionError::InvalidInputSchema(reason) => join2(
                "invalid tool input schema: ",
                reason,
            ),
        }
    }
}

/// Whether `jsonschema::validator_for` accepts a value as a schema.
pub uninterp spec fn is_schema(schema: JsonModel) -> bool;

/// Whether the validator that `jsonschema::validator_for` makes of a schema accepts a value.
pub uninterp spec fn schema_accepts(schema: JsonModel, value: JsonModel) -> bool;

/// `jsonschema::validator_for`: what is wrong with a schema, if anything is. Whether something is
/// depends on the schema alone; of the wording nothing is said, since it can name any one of several
/// references that lead nowhere, and which one differs from process to process.
#[verifier::external_body]
pub(crate) fn schema_fault(schema: &Json) -> (r: Option<String>)
    ensures
        r is None <==> is_schema(schema@),
{
    jsonschema::validator_for(&to_value(schema)).err().map(|error| error.to_string())
}

/// `jsonschema::Validator::validate`: what is wrong with a value under a schema, if anything is.
/// Whether something is depends on the two alone; of the wording, which is that of one of the rules
/// that the value breaks, nothing is said.
#[verifier::external_body]
pub(crate) fn value_fault(schema: &Json, value: &Json) -> (r: Option<String>)
    requires
        is_schema(schema@),
    ensures
        r is None <==> schema_accepts(schema@, value@),
{
    let validator = jsonschema::validator_for(&to_value(schema)).ok()?;
    validator.validate(&to_value(value)).err().map(|error| error.to_string())
}

/// The first of the rules that a contract breaks; the schema is tested last.
pub open spec fn contract_fault(contract: ContractModel) -> Option<ToolDefinitionError> {
    if is_blank(contract.name) {
        Some(ToolDefinitionError::EmptyName)
    } else if is_blank(contract.initial_description) {
        Some(ToolDefinitionError::EmptyInitialDescription)
    } else if is_blank(contract.detailed_description) {
        Some(ToolDefinitionError::EmptyDetailedDescription)
    } else {
        None
    }
}

/// Whether a contract is one that a tool can have.
pub open spec fn is_valid_contract(contract: ContractModel) -> bool {
    contract_fault(contract) is None && contract.input_schema is Object && is_schema(
        contract.input_schema,
    )
}

/// Tests a contract.
pub fn validate_contract(contract: &ToolContract) -> (r: Result<(), ToolDefinitionError>)
    ensures
        r is Ok <==> is_valid_contract(contract@),
        match r {
            Err(error) => match contract_fault(contract@) {
                Some(fault) => error == fault,
                None => {
                    &&& error matches ToolDefinitionError::InvalidInputSchema(reason)
                    &&& !(contract@.input_schema is Object) ==> reason@
                        == "schema must be a JSON object"@
                },
            },
            Ok(_) => true,
        },
{
    if trim(&contract.name).as_str().is_empty() {
        return Err(ToolDefinitionError::EmptyName);
    }
    if trim(&contract.initial_description).as_str().is_empty() {
        return Err(ToolDefinitionError::EmptyInitialDescription);
    }
    if trim(&contract.detailed_description).as_str().is_empty() {
        return Err(ToolDefinitionError::EmptyDetailedDescription);
    }
    match &contract.input_schema {
        Json::Object(_) => {},
        _ => {
            return Err(
                ToolDefinitionError::InvalidInputSchema("schema must be a JSON object".to_owned()),
            );
        },
    }
    match schema_fault(&contract.input_schema) {
        Some(reason) => Err(ToolDefinitionError::InvalidInputSchema(reason)),
        None => Ok(()),
    }
}

/// The schemas of the members that an object schema names.
pub open spec fn properties(schema: JsonModel) -> Option<Seq<(Seq<char>, JsonModel)>> {
    match schema.get("properties"@) {
        Some(JsonModel::Object(fields)) => Some(fields),
        _ => None,
    }
}

/// Whether an object schema names the member `name`.
pub open spec fn names_member(schema: JsonModel, name: Seq<char>) -> bool {
    match properties(schema) {
        Some(fields) => member(fields, name) is Some,
        None => false,
    }
}

/// Whether an object schema forbids the members that it does not name.
pub open spec fn is_closed(schema: JsonModel) -> bool {
    schema.get("additionalProperties"@) == Some(JsonModel::Bool(false))
}

/// The schema of the member `name`: the one that the schema gives it by name, else the one that it
/// gives to all others.
pub open spec fn member_schema(schema: JsonModel, name: Seq<char>) -> Option<JsonModel> {
    match properties(schema) {
        Some(fields) if member(fields, name) is Some => member(fields, name),
        _ => match schema.get("additionalProperties"@) {
            Some(JsonModel::Object(fields)) => Some(JsonModel::Object(fields)),
            _ => None,
        },
    }
}

/// `value` without the members that closed schemas do not name, at any depth.
pub open spec fn pruned(value: JsonModel, schema: JsonModel) -> JsonModel
    decreases value, 0nat,
{
    match value {
        JsonModel::Object(fields) => JsonModel::Object(pruned_fields(fields, schema)),
        JsonModel::Array(items) => match schema.get("items"@) {
            Some(item_schema) => JsonModel::Array(pruned_items(items, item_schema)),
            None => value,
        },
        _ => value,
    }
}

pub open spec fn pruned_fields(fields: Seq<(Seq<char>, JsonModel)>, schema: JsonModel) -> Seq<
    (Seq<char>, JsonModel),
>
    decreases fields, 0nat,
{
    if fields.len() == 0 {
        Seq::empty()
    } else {
        let rest = pruned_fields(fields.drop_last(), schema);
        let name = fields.last().0;
        let value = fields.last().1;
        if is_closed(schema) && !names_member(schema, name) {
            rest
        } else {
            rest.push(
                (
                    name,
                    match member_schema(schema, name) {
                        Some(inner) => pruned(value, inner),
                        None => value,
                    },
                ),
            )
        }
    }
}

pub open spec fn pruned_items(items: Seq<JsonModel>, schema: JsonModel) -> Seq<JsonModel>
    decreases items, 0nat,
{
    if items.len() == 0 {
        Seq::empty()
    } else {
        pruned_items(items.drop_last(), schema).push(pruned(items.last(), schema))
    }
}

/// `value` without the members that closed schemas do not name, at any depth.
pub fn discard_unknown_fields(value: &Json, schema: &Json) -> (r: Json)
    ensures
        r@ == pruned(value@, schema@),
    decreases *value, 0nat,
{
    match value {
        Json::Object(fields) => Json::Object(discard_in_fields(fields, fields.len(), schema)),
        Json::Array(items) => match schema.get("items") {
            Some(item_schema) => Json::Array(discard_in_items(items, items.len(), item_schema)),
            None => value.clone(),
        },
        _ => value.clone(),
    }
}

fn schema_of_member<'a>(schema: &'a Json, name: &str) -> (r: Option<&'a Json>)
    ensures
        optional_ref(r) == member_schema(schema@, name@),
{
    let named = match schema.get("properties") {
        Some(known) => match known {
            Json::Object(_) => known.get(name),
            _ => None,
        },
        None => None,
    };
    if named.is_some() {
        return named;
    }
    match schema.get("additionalProperties") {
        Some(others) => match others {
            Json::Object(_) => Some(others),
            _ => None,
        },
        None => None,
    }
}

fn schema_names_member(schema: &Json, name: &str) -> (r: bool)
    ensures
        r == names_member(schema@, name@),
{
    match schema.get("properties") {
        Some(known) => match known {
            Json::Object(_) => known.get(name).is_some(),
            _ => false,
        },
        None => false,
    }
}

fn discard_in_fields(fields: &Vec<(String, Json)>, count: usize, schema: &Json) -> (r: Vec<
    (String, Json),
>)
    requires
        count <= fields.len(),
    ensures
        crate::json::members(r@) == pruned_fields(
            crate::json::members(fields@.take(count as int)),
            schema@,
        ),
        count == fields.len() ==> crate::json::members(r@) == pruned_fields(
            crate::json::members(fields@),
            schema@,
        ),
    decreases *fields, count,
{
    proof {
        assert(fields@.take(fields@.len() as int) =~= fields@);
    }
    if count == 0 {
        proof {
            assert(fields@.take(0) =~= Seq::<(String, Json)>::empty());
        }
        return Vec::new();
    }
    let mut out = discard_in_fields(fields, count - 1, schema);
    let ghost before = out@;
    let ghost head = fields@.take(count as int);
    proof {
        assert(head.drop_last() =~= fields@.take(count - 1));
        assert(crate::json::members(head).drop_last() =~= crate::json::members(
            fields@.take(count - 1),
        ));
    }
    let name = fields[count - 1].0.clone();
    let closed = match schema.get("additionalProperties") {
        Some(Json::Bool(allowed)) => !*allowed,
        _ => false,
    };
    if closed && !schema_names_member(schema, &name) {
        return out;
    }
    let value = match schema_of_member(schema, &name) {
        Some(inner) => discard_unknown_fields(&fields[count - 1].1, inner),
        None => fields[count - 1].1.clone(),
    };
    out.push((name, value));
    proof {
        assert(out@.drop_last() =~= before);
    }
    out
}

fn discard_in_items(items: &Vec<Json>, count: usize, schema: &Json) -> (r: Vec<Json>)
    requires
        count <= items.len(),
    ensures
        models(r@) == pruned_items(models(items@.take(count as int)), schema@),
        count == items.len() ==> models(r@) == pruned_items(models(items@), schema@),
    decreases *items, count,
{
    proof {
        assert(items@.take(items@.len() as int) =~= items@);
    }
    if count == 0 {
        proof {
            assert(items@.take(0) =~= Seq::<Json>::empty());
        }
        return Vec::new();
    }
    let mut out = discard_in_items(items, count - 1, schema);
    let ghost before = out@;
    proof {
        assert(items@.take(count as int).drop_last() =~= items@.take(count - 1));
        assert(models(items@.take(count as int)).drop_last() =~= models(items@.take(count - 1)));
    }
    let value = discard_unknown_fields(&items[count - 1], schema);
    out.push(value);
    proof {
        assert(out@.drop_last() =~= before);
    }
    out
}

/// Discarding unknown members twice is discarding them once.
pub proof fn discarding_is_idempotent(value: JsonModel, schema: JsonModel)
    ensures
        pruned(pruned(value, schema), schema) == pruned(value, schema),
    decreases value, 0nat,
{
    match value {
        JsonModel::Object(fields) => lemma_fields_idempotent(fields, schema),
        JsonModel::Array(items) => match schema.get("items"@) {
            Some(item_schema) => lemma_items_idempotent(items, item_schema),
            None => {},
        },
        _ => {},
    }
}

proof fn lemma_fields_idempotent(fields: Seq<(Seq<char>, JsonModel)>, schema: JsonModel)
    ensures
        pruned_fields(pruned_fields(fields, schema), schema) == pruned_fields(fields, schema),
    decreases fields, 0nat,
{
    if fields.len() > 0 {
        let rest = pruned_fields(fields.drop_last(), schema);
        lemma_fields_idempotent(fields.drop_last(), schema);
        let name = fields.last().0;
        let value = fields.last().1;
        match member_schema(schema, name) {
            Some(inner) => discarding_is_idempotent(value, inner),
            None => {},
        }
        let once = pruned_fields(fields, schema);
        if !(is_closed(schema) && !names_member(schema, name)) {
            assert(once.drop_last() =~= rest);
        }
    }
}

proof fn lemma_items_idempotent(items: Seq<JsonModel>, schema: JsonModel)
    ensures
        pruned_items(pruned_items(items, schema), schema) == pruned_items(items, schema),
    decreases items, 0nat,
{
    if items.len() > 0 {
        lemma_items_idempotent(items.drop_last(), schema);
        discarding_is_idempotent(items.last(), schema);
        assert(pruned_items(items, schema).drop_last() =~= pruned_items(
            items.drop_last(),
            schema,
        ));
    }
}

/// The session and the invocation that a tool runs for.
#[derive(Debug)]
pub struct ToolContext {
    pub session_id: String,
    pub invocation_id: String,
    pub workspace: String,
}

/// What a session has learned of a tool.
#[derive(Debug)]
pub enum ToolKnowledge {
    Current { name: String, version: ToolVersion },
    Removed { name: String },
}

/// What a session has learned, apart from how it is stored.
pub enum KnowledgeModel {
    Current { name: Seq<char>, version: Seq<char> },
    Removed { name: Seq<char> },
}

pub open spec fn knowledge_model(knowledge: Option<ToolKnowledge>) -> Option<KnowledgeModel> {
    match knowledge {
        Some(ToolKnowledge::Current { name, version }) => Some(
            KnowledgeModel::Current { name: name@, version: version@ },
        ),
        Some(ToolKnowledge::Removed { name }) => Some(KnowledgeModel::Removed { name: name@ }),
        None => None,
    }
}

/// How a tool invocation ended and what it returned.
#[derive(Debug)]
pub struct ToolExecution {
    pub outcome: ToolOutcome,
    pub data: Json,
    pub result_schema_version: u32,
    pub knowledge: Option<ToolKnowledge>,
}

/// What an execution says.
pub struct ExecutionModel {
    pub outcome: ToolOutcome,
    pub data: JsonModel,
    pub result_schema_version: u32,
    pub knowledge: Option<KnowledgeModel>,
}

impl View for ToolExecution {
    type V = ExecutionModel;

    open spec fn view(&self) -> ExecutionModel {
        ExecutionModel {
            outcome: self.outcome,
            data: self.data@,
            result_schema_version: self.result_schema_version,
            knowledge: knowledge_model(self.knowledge),
        }
    }
}

/// An execution that succeeded with `data`.
pub open spec fn succeeded(data: JsonModel) -> ExecutionModel {
    ExecutionModel {
        outcome: ToolOutcome::Succeeded,
        data,
        result_schema_version: 1,
        knowledge: None,
    }
}

/// The data of a failure.
pub open spec fn error_object(message: Seq<char>) -> JsonModel {
    JsonModel::Object(no_fields().push(("error"@, JsonModel::Text(message))))
}

/// An execution that failed for the reason `message`.
pub open spec fn failed_with(message: Seq<char>) -> ExecutionModel {
    ExecutionModel {
        outcome: ToolOutcome::Failed,
        data: error_object(message),
        result_schema_version: 1,
        knowledge: None,
    }
}

impl ToolExecution {
    pub fn success(data: Json) -> (r: ToolExecution)
        ensures
            r@ == succeeded(data@),
    {
        ToolExecution {
            outcome: ToolOutcome::Succeeded,
            data,
            result_schema_version: 1,
            knowledge: None,
        }
    }

    pub fn failed(message: &str) -> (r: ToolExecution)
        ensures
            r@ == failed_with(message@),
    {
        ToolExecution {
            outcome: ToolOutcome::Failed,
            data: JsonObject::new().with("error", Json::text(message)).done(),
            result_schema_version: 1,
            knowledge: None,
        }
    }
}

/// What a tool keeps of a session between its invocations.
#[derive(Debug)]
pub struct ToolState {
    pub schema_version: u32,
    pub value: Json,
}

/// Something that a tool has begun and not finished, as the tool describes it.
#[derive(Debug)]
pub struct OutstandingItem {
    pub description: Json,
}

/// How a tool reads what its earlier versions wrote.
pub trait ToolCompatibility {
    fn migrate_result(&self, schema_version: u32, value: Json) -> Result<Json, String>;

    fn migrate_state(&self, state: ToolState) -> Result<ToolState, String>;

    fn initial_state(&self) -> Option<ToolState>;

    fn fold(&self, state: Option<&ToolState>, result: &Json) -> Result<Option<ToolState>, String>;

    fn outstanding(&self, state: Option<&ToolState>) -> Vec<OutstandingItem>;
}

/// A tool that keeps nothing.
#[derive(Clone, Copy, Debug)]
pub struct NoToolState;

impl ToolCompatibility for NoToolState {
    fn migrate_result(&self, schema_version: u32, value: Json) -> (r: Result<Json, String>)
        ensures
            match r {
                Ok(same) => schema_version == 1 && same == value,
                Err(message) => schema_version != 1 && message@
                    == "unsupported result schema version "@ + crate::text::decimal(
                    schema_version as nat,
                ),
            },
    {
        if schema_version == 1 {
            Ok(value)
        } else {
            Err(
                join2(
                    "unsupported result schema version ",
                    &crate::text::decimal_text(schema_version as u64),
                ),
            )
        }
    }

    fn migrate_state(&self, state: ToolState) -> (r: Result<ToolState, String>)
        ensures
            r == Ok::<ToolState, String>(state),
    {
        Ok(state)
    }

    fn initial_state(&self) -> (r: Option<ToolState>)
        ensures
            r is None,
    {
        None
    }

    fn fold(&self, _state: Option<&ToolState>, _result: &Json) -> (r: Result<
        Option<ToolState>,
        String,
    >)
        ensures
            r == Ok::<Option<ToolState>, String>(None),
    {
        Ok(None)
    }

    fn outstanding(&self, _state: Option<&ToolState>) -> (r: Vec<OutstandingItem>)
        ensures
            r@.len() == 0,
    {
        Vec::new()
    }
}

/// A tool with a valid contract. `H` is what runs it.
#[derive(Debug)]
pub struct ToolInstance<H> {
    contract: ToolContract,
    handler: H,
}

impl<H> ToolInstance<H> {
    #[verifier::type_invariant]
    closed spec fn well_formed(&self) -> bool {
        is_valid_contract(self.contract@)
    }

    pub closed spec fn spec_contract(&self) -> ContractModel {
        self.contract@
    }

    pub closed spec fn spec_handler(&self) -> H {
        self.handler
    }

    pub fn new(contract: ToolContract, handler: H) -> (r: Result<
        ToolInstance<H>,
        ToolDefinitionError,
    >)
        ensures
            match r {
                Ok(instance) => is_valid_contract(contract@) && instance.spec_contract()
                    == contract@ && instance.spec_handler() == handler,
                Err(error) => !is_valid_contract(contract@) && match contract_fault(contract@) {
                    Some(fault) => error == fault,
                    None => error is InvalidInputSchema,
                },
            },
    {
        match validate_contract(&contract) {
            Ok(_) => Ok(ToolInstance { contract, handler }),
            Err(error) => Err(error),
        }
    }

    pub fn contract(&self) -> (r: &ToolContract)
        ensures
            r@ == self.spec_contract(),
            is_valid_contract(r@),
    {
        proof {
            use_type_invariant(self);
        }
        &self.contract
    }

    pub fn handler(&self) -> (r: &H)
        ensures
            *r == self.spec_handler(),
    {
        &self.handler
    }

    /// The arguments without unknown members, if the schema of the tool accepts what is left.
    pub fn prepare_arguments(&self, arguments: &Json) -> (r: Result<Json, String>)
        ensures
            match r {
                Ok(prepared) => prepared@ == pruned(
                    arguments@,
                    self.spec_contract().input_schema,
                ) && schema_accepts(self.spec_contract().input_schema, prepared@),
                Err(_) => !schema_accepts(
                    self.spec_contract().input_schema,
                    pruned(arguments@, self.spec_contract().input_schema),
                ),
            },
    {
        proof {
            use_type_invariant(self);
        }
        let prepared = discard_unknown_fields(arguments, &self.contract.input_schema);
        match value_fault(&self.contract.input_schema, &prepared) {
            Some(reason) => Err(reason),
            None => Ok(prepared),
        }
    }
}

/// A name in the registry: the tool that it stands for now, and how to read what any tool of that
/// name has written.
#[derive(Debug)]
pub struct RegistryEntry<H, C> {
    pub current: Option<ToolInstance<H>>,
    pub compatibility: C,
}

/// The tools that sessions can call, by name. `H` is what runs a tool, `C` what reads its results.
#[derive(Debug)]
pub struct ToolRegistry<H, C> {
    entries: TextMap<RegistryEntry<H, C>>,
}

/// What a name stands for.
#[derive(Debug)]
pub enum ToolResolution<'a, H> {
    Ready(&'a ToolInstance<H>),
    VersionChanged { current: ToolVersion },
    Unavailable,
}

#[derive(Debug)]
pub struct ToolIntroduction {
    pub name: String,
    pub version: ToolVersion,
    pub description: String,
}

/// How a tool is introduced.
pub struct IntroductionModel {
    pub name: Seq<char>,
    pub version: Seq<char>,
    pub description: Seq<char>,
}

impl View for ToolIntroduction {
    type V = IntroductionModel;

    open spec fn view(&self) -> IntroductionModel {
        IntroductionModel {
            name: self.name@,
            version: self.version@,
            description: self.description@,
        }
    }
}

pub open spec fn introduction_models(items: Seq<ToolIntroduction>) -> Seq<IntroductionModel> {
    items.map_values(|item: ToolIntroduction| item@)
}

/// How the offer of tools differs from what a session knows.
#[derive(Debug)]
pub enum ToolChange {
    Added { name: String, version: ToolVersion },
    Updated { name: String, version: ToolVersion },
    Removed { name: String },
}

/// What a change says.
pub enum ChangeModel {
    Added { name: Seq<char>, version: Seq<char> },
    Updated { name: Seq<char>, version: Seq<char> },
    Removed { name: Seq<char> },
}

impl ChangeModel {
    pub open spec fn name(self) -> Seq<char> {
        match self {
            ChangeModel::Added { name, .. } => name,
            ChangeModel::Updated { name, .. } => name,
            ChangeModel::Removed { name } => name,
        }
    }
}

impl View for ToolChange {
    type V = ChangeModel;

    open spec fn view(&self) -> ChangeModel {
        match self {
            ToolChange::Added { name, version } => ChangeModel::Added {
                name: name@,
                version: version@,
            },
            ToolChange::Updated { name, version } => ChangeModel::Updated {
                name: name@,
                version: version@,
            },
            ToolChange::Removed { name } => ChangeModel::Removed { name: name@ },
        }
    }
}

impl ToolChange {
    pub fn name(&self) -> (r: &str)
        ensures
            r@ == self@.name(),
    {
        match self {
            ToolChange::Added { name, .. } => name.as_str(),
            ToolChange::Updated { name, .. } => name.as_str(),
            ToolChange::Removed { name } => name.as_str(),
        }
    }
}

/// What a session has to be told of a name, from the version that is offered under it and the one
/// that the session knows.
pub open spec fn change_of(
    name: Seq<char>,
    offered: Option<Seq<char>>,
    known: Option<Seq<char>>,
) -> Option<ChangeModel> {
    match (offered, known) {
        (Some(version), None) => Some(ChangeModel::Added { name, version }),
        (Some(version), Some(before)) => if version == before {
            None
        } else {
            Some(ChangeModel::Updated { name, version })
        },
        (None, Some(_)) => Some(ChangeModel::Removed { name }),
        (None, None) => None,
    }
}

/// The version that a session knows of a name.
pub open spec fn known_version(known: Map<Seq<char>, ToolVersion>, name: Seq<char>) -> Option<
    Seq<char>,
> {
    if known.contains_key(name) {
        Some(known[name]@)
    } else {
        None
    }
}

impl<H, C> ToolRegistry<H, C> {
    /// The names that were ever registered, and what they stand for.
    pub closed spec fn view(&self) -> Map<Seq<char>, RegistryEntry<H, C>> {
        self.entries@
    }

    /// The names are kept in order, and each tool has the name that it is registered under.
    pub closed spec fn well_formed(&self) -> bool {
        &&& self.entries.well_formed()
        &&& forall|name: Seq<char>| #[trigger]
            self.entries@.contains_key(name) && self.entries@[name].current is Some
                ==> self.entries@[name].current->0.spec_contract().name == name
    }

    /// The contract of the tool that a name stands for now.
    pub open spec fn offered(&self, name: Seq<char>) -> Option<ContractModel> {
        if self@.contains_key(name) && self@[name].current is Some {
            Some(self@[name].current->0.spec_contract())
        } else {
            None
        }
    }

    /// The version of the tool that a name stands for now.
    pub open spec fn offered_version(&self, name: Seq<char>) -> Option<Seq<char>> {
        match self.offered(name) {
            Some(contract) => Some(contract.version),
            None => None,
        }
    }

    /// A registry without names.
    pub fn new() -> (r: ToolRegistry<H, C>)
        ensures
            r.well_formed(),
            r@ == Map::<Seq<char>, RegistryEntry<H, C>>::empty(),
    {
        ToolRegistry { entries: TextMap::new() }
    }

    /// Offers a tool under its name, in place of the one that was.
    pub fn register(&mut self, instance: ToolInstance<H>, compatibility: C)
        requires
            old(self).well_formed(),
        ensures
            final(self).well_formed(),
            final(self)@ == old(self)@.insert(
                instance.spec_contract().name,
                (RegistryEntry { current: Some(instance), compatibility }),
            ),
    {
        let name = instance.contract().name.clone();
        let _ = self.entries.insert(&name, RegistryEntry { current: Some(instance), compatibility });
    }

    /// Stops offering the tool of that name, and says whether there was one. The name stays, so
    /// that earlier results can be read.
    pub fn remove(&mut self, name: &str) -> (r: bool)
        requires
            old(self).well_formed(),
        ensures
            final(self).well_formed(),
            r == old(self).offered(name@) is Some,
            final(self)@ == if old(self)@.contains_key(name@) {
                old(self)@.insert(
                    name@,
                    (RegistryEntry {
                        current: None,
                        compatibility: old(self)@[name@].compatibility,
                    }),
                )
            } else {
                old(self)@
            },
    {
        match self.entries.remove(name) {
            Some(entry) => {
                let there = entry.current.is_some();
                let _ = self.entries.insert(
                    name,
                    RegistryEntry { current: None, compatibility: entry.compatibility },
                );
                proof {
                    assert(self@ =~= old(self)@.insert(
                        name@,
                        (RegistryEntry {
                            current: None,
                            compatibility: old(self)@[name@].compatibility,
                        }),
                    ));
                }
                there
            },
            None => {
                proof {
                    assert(self@ =~= old(self)@);
                }
                false
            },
        }
    }

    /// What a name stands for, to a session that knows the version `known` of it.
    pub fn resolve(&self, name: &str, known: Option<&ToolVersion>) -> (r: ToolResolution<'_, H>)
        requires
            self.well_formed(),
        ensures
            match r {
                ToolResolution::Ready(instance) => {
                    &&& self.offered(name@) is Some
                    &&& *instance == self@[name@].current->0
                    &&& known is Some && known->0@ == self.offered(name@)->0.version
                },
                ToolResolution::VersionChanged { current } => {
                    &&& self.offered_version(name@) == Some(current@)
                    &&& known is None || known->0@ != current@
                },
                ToolResolution::Unavailable => self.offered(name@) is None,
            },
    {
        let entry = match self.entries.get(name) {
            Some(entry) => entry,
            None => {
                return ToolResolution::Unavailable;
            },
        };
        match &entry.current {
            Some(instance) => {
                let current = instance.contract().version.clone();
                let ready = match known {
                    Some(version) => same(version.as_str(), current.as_str()),
                    None => false,
                };
                if ready {
                    ToolResolution::Ready(instance)
                } else {
                    ToolResolution::VersionChanged { current }
                }
            },
            None => ToolResolution::Unavailable,
        }
    }

    /// What reads the results of the tools of that name.
    pub fn compatibility(&self, name: &str) -> (r: Option<&C>)
        requires
            self.well_formed(),
        ensures
            match r {
                Some(compatibility) => self@.contains_key(name@) && *compatibility
                    == self@[name@].compatibility,
                None => !self@.contains_key(name@),
            },
    {
        match self.entries.get(name) {
            Some(entry) => Some(&entry.compatibility),
            None => None,
        }
    }

    /// The contract of the tool that a name stands for now.
    pub fn current_contract(&self, name: &str) -> (r: Option<ToolContract>)
        requires
            self.well_formed(),
        ensures
            match r {
                Some(contract) => self.offered(name@) == Some(contract@),
                None => self.offered(name@) is None,
            },
    {
        match self.entries.get(name) {
            Some(entry) => match &entry.current {
                Some(instance) => Some(instance.contract().clone()),
                None => None,
            },
            None => None,
        }
    }

    /// The names that were ever registered, in order.
    pub closed spec fn names(&self) -> Seq<Seq<char>> {
        self.entries.keys()
    }

    /// `names` lists each registered name once, in ascending order.
    pub proof fn names_are_those_registered(&self)
        requires
            self.well_formed(),
        ensures
            ascending(self.names()),
            forall|name: Seq<char>| self@.contains_key(name) <==> self.names().contains(name),
    {
        self.entries.keys_are_those_of_the_map();
    }

    /// The introductions of the tools that are offered under `names`.
    pub open spec fn catalog(&self, names: Seq<Seq<char>>) -> Seq<IntroductionModel>
        decreases names.len(),
    {
        if names.len() == 0 {
            Seq::empty()
        } else {
            let before = self.catalog(names.drop_last());
            match self.offered(names.last()) {
                Some(contract) => before.push(
                    IntroductionModel {
                        name: contract.name,
                        version: contract.version,
                        description: contract.initial_description,
                    },
                ),
                None => before,
            }
        }
    }

    /// The changes that a session has to be told of `names`.
    pub open spec fn changes_of(
        &self,
        known: Map<Seq<char>, ToolVersion>,
        names: Seq<Seq<char>>,
    ) -> Seq<ChangeModel>
        decreases names.len(),
    {
        if names.len() == 0 {
            Seq::empty()
        } else {
            let rest = self.changes_of(known, names.drop_first());
            match change_of(
                names[0],
                self.offered_version(names[0]),
                known_version(known, names[0]),
            ) {
                Some(change) => seq![change] + rest,
                None => rest,
            }
        }
    }

    /// The tools that are offered, in the order of their names.
    pub fn initial_catalog(&self) -> (r: Vec<ToolIntroduction>)
        requires
            self.well_formed(),
        ensures
            introduction_models(r@) == self.catalog(self.names()),
    {
        let mut out: Vec<ToolIntroduction> = Vec::new();
        let mut i: usize = 0;
        let ghost names = self.names();
        proof {
            assert(names.take(0) =~= Seq::<Seq<char>>::empty());
            assert(introduction_models(out@) =~= Seq::<IntroductionModel>::empty());
        }
        while i < self.entries.len()
            invariant
                self.well_formed(),
                names == self.entries.keys(),
                i <= names.len(),
                introduction_models(out@) == self.catalog(names.take(i as int)),
            decreases names.len() - i,
        {
            proof {
                assert(names.take(i + 1).drop_last() =~= names.take(i as int));
            }
            let entry = self.entries.value_at(i);
            match &entry.current {
                Some(instance) => {
                    let contract = instance.contract();
                    let introduction = ToolIntroduction {
                        name: contract.name.clone(),
                        version: contract.version.clone(),
                        description: contract.initial_description.clone(),
                    };
                    let ghost before = introduction_models(out@);
                    out.push(introduction);
                    proof {
                        assert(introduction_models(out@) =~= before.push(introduction@));
                    }
                },
                None => {},
            }
            i = i + 1;
        }
        proof {
            assert(names.take(names.len() as int) =~= names);
        }
        out
    }

    /// The change of one name.
    fn change_for(&self, name: &str, known: &TextMap<ToolVersion>) -> (r: Option<ToolChange>)
        requires
            self.well_formed(),
            known.well_formed(),
        ensures
            match r {
                Some(change) => change_of(
                    name@,
                    self.offered_version(name@),
                    known_version(known@, name@),
                ) == Some(change@),
                None => change_of(
                    name@,
                    self.offered_version(name@),
                    known_version(known@, name@),
                ) is None,
            },
    {
        let before = known.get(name);
        match self.current_contract(name) {
            Some(contract) => match before {
                Some(version) => if same(version.as_str(), contract.version.as_str()) {
                    None
                } else {
                    Some(ToolChange::Updated { name: name.to_owned(), version: contract.version })
                },
                None => Some(
                    ToolChange::Added { name: name.to_owned(), version: contract.version },
                ),
            },
            None => match before {
                Some(_) => Some(ToolChange::Removed { name: name.to_owned() }),
                None => None,
            },
        }
    }

    /// How the offer differs from the versions that a session knows, in the order of names.
    pub fn changes(&self, known: &TextMap<ToolVersion>) -> (r: Vec<ToolChange>)
        requires
            self.well_formed(),
            known.well_formed(),
        ensures
            change_models(r@) == self.changes_of(known@, merged(self.names(), known.keys())),
    {
        let mut out: Vec<ToolChange> = Vec::new();
        let ghost ours = self.entries.keys();
        let ghost theirs = known.keys();
        let ghost all = self.changes_of(known@, merged(ours, theirs));
        let mut i: usize = 0;
        let mut j: usize = 0;
        proof {
            assert(ours.skip(0) =~= ours);
            assert(theirs.skip(0) =~= theirs);
            assert(change_models(out@) + all =~= all);
        }
        while i < self.entries.len() || j < known.len()
            invariant
                self.well_formed(),
                known.well_formed(),
                ours == self.entries.keys(),
                theirs == known.keys(),
                i <= ours.len(),
                j <= theirs.len(),
                all == change_models(out@) + self.changes_of(
                    known@,
                    merged(ours.skip(i as int), theirs.skip(j as int)),
                ),
            decreases (ours.len() - i) + (theirs.len() - j),
        {
            let ghost rest = merged(ours.skip(i as int), theirs.skip(j as int));
            let ghost before_i = i;
            let ghost before_j = j;
            proof {
                if i < ours.len() {
                    assert(ours.skip(i as int).drop_first() =~= ours.skip(i + 1));
                }
                if j < theirs.len() {
                    assert(theirs.skip(j as int).drop_first() =~= theirs.skip(j + 1));
                }
            }
            let ours_first = if i == self.entries.len() {
                false
            } else if j == known.len() {
                true
            } else {
                !less(known.key_at(j), self.entries.key_at(i))
            };
            let both = ours_first && j < known.len() && same(self.entries.key_at(i), known.key_at(j));
            let name = if ours_first {
                self.entries.key_at(i).to_owned()
            } else {
                known.key_at(j).to_owned()
            };
            if ours_first {
                i = i + 1;
            }
            if both || !ours_first {
                j = j + 1;
            }
            proof {
                if before_i < ours.len() && before_j < theirs.len() {
                    less_total(ours[before_i as int], theirs[before_j as int]);
                }
                lemma_merged_step(ours.skip(before_i as int), theirs.skip(before_j as int));
                assert(rest.len() > 0 && rest[0] == name@);
                assert(rest.drop_first() == merged(ours.skip(i as int), theirs.skip(j as int)));
            }
            match self.change_for(&name, known) {
                Some(change) => {
                    let ghost before = change_models(out@);
                    out.push(change);
                    proof {
                        assert(change_models(out@) =~= before.push(change@));
                        assert(before + (seq![change@] + self.changes_of(
                            known@,
                            rest.drop_first(),
                        )) =~= before.push(change@) + self.changes_of(known@, rest.drop_first()));
                    }
                },
                None => {},
            }
        }
        proof {
            assert(ours.skip(i as int) =~= Seq::<Seq<char>>::empty());
            assert(theirs.skip(j as int) =~= Seq::<Seq<char>>::empty());
            assert(change_models(out@) + Seq::<ChangeModel>::empty() =~= change_models(out@));
        }
        out
    }
}

/// What a list of changes says.
pub open spec fn change_models(changes: Seq<ToolChange>) -> Seq<ChangeModel> {
    changes.map_values(|change: ToolChange| change@)
}

/// Two ascending lists as one, a text of both once.
pub open spec fn merged(a: Seq<Seq<char>>, b: Seq<Seq<char>>) -> Seq<Seq<char>>
    decreases a.len() + b.len(),
{
    if a.len() == 0 {
        b
    } else if b.len() == 0 {
        a
    } else if a[0] == b[0] {
        seq![a[0]] + merged(a.drop_first(), b.drop_first())
    } else if text_less(b[0], a[0]) {
        seq![b[0]] + merged(a, b.drop_first())
    } else {
        seq![a[0]] + merged(a.drop_first(), b)
    }
}

proof fn lemma_merged_step(a: Seq<Seq<char>>, b: Seq<Seq<char>>)
    ensures
        a.len() > 0 && b.len() > 0 && a[0] == b[0] ==> merged(a, b)[0] == a[0] && merged(
            a,
            b,
        ).drop_first() == merged(a.drop_first(), b.drop_first()) && merged(a, b).len() > 0,
        a.len() > 0 && b.len() > 0 && a[0] != b[0] && text_less(b[0], a[0]) ==> merged(a, b)[0]
            == b[0] && merged(a, b).drop_first() == merged(a, b.drop_first()) && merged(a, b).len()
            > 0,
        a.len() > 0 && b.len() > 0 && a[0] != b[0] && !text_less(b[0], a[0]) ==> merged(a, b)[0]
            == a[0] && merged(a, b).drop_first() == merged(a.drop_first(), b) && merged(a, b).len()
            > 0,
        a.len() > 0 && b.len() == 0 ==> merged(a, b)[0] == a[0] && merged(a, b).drop_first()
            == merged(a.drop_first(), b) && merged(a, b).len() > 0,
        a.len() == 0 && b.len() > 0 ==> merged(a, b)[0] == b[0] && merged(a, b).drop_first()
            == merged(a, b.drop_first()) && merged(a, b).len() > 0,
{
    if a.len() > 0 && b.len() > 0 {
        if a[0] == b[0] {
            assert(merged(a, b).drop_first() =~= merged(a.drop_first(), b.drop_first()));
        } else if text_less(b[0], a[0]) {
            assert(merged(a, b).drop_first() =~= merged(a, b.drop_first()));
        } else {
            assert(merged(a, b).drop_first() =~= merged(a.drop_first(), b));
        }
    } else if a.len() > 0 {
        if a.drop_first().len() == 0 {
            assert(a.drop_first() =~= b);
        }
    }
}

/// A merged list holds what either list holds.
proof fn lemma_merged_contains(a: Seq<Seq<char>>, b: Seq<Seq<char>>)
    ensures
        forall|name: Seq<char>| #[trigger]
            merged(a, b).contains(name) <==> a.contains(name) || b.contains(name),
    decreases a.len() + b.len(),
{
    lemma_merged_step(a, b);
    let all = merged(a, b);
    if a.len() == 0 || b.len() == 0 {
        assert forall|name: Seq<char>| #[trigger]
            all.contains(name) <==> a.contains(name) || b.contains(name) by {}
    } else {
        let (x, y) = if a[0] == b[0] {
            (a.drop_first(), b.drop_first())
        } else if text_less(b[0], a[0]) {
            (a, b.drop_first())
        } else {
            (a.drop_first(), b)
        };
        lemma_merged_contains(x, y);
        assert(all.drop_first() == merged(x, y));
        assert forall|name: Seq<char>| #[trigger]
            all.contains(name) <==> a.contains(name) || b.contains(name) by {
            lemma_contains_first(all, name);
            lemma_contains_first(a, name);
            lemma_contains_first(b, name);
        }
    }
}

proof fn lemma_contains_first(s: Seq<Seq<char>>, name: Seq<char>)
    requires
        s.len() > 0,
    ensures
        s.contains(name) <==> s[0] == name || s.drop_first().contains(name),
{
    if s.contains(name) && s[0] != name {
        let i = choose|i: int| 0 <= i < s.len() && s[i] == name;
        assert(s.drop_first()[i - 1] == name);
    }
    if s.drop_first().contains(name) {
        let i = choose|i: int| 0 <= i < s.drop_first().len() && s.drop_first()[i] == name;
        assert(s[i + 1] == name);
    }
    if s[0] == name {
        assert(s.contains(name));
    }
}

proof fn lemma_changes_contain<H, C>(
    registry: &ToolRegistry<H, C>,
    known: Map<Seq<char>, ToolVersion>,
    names: Seq<Seq<char>>,
)
    ensures
        forall|change: ChangeModel| #[trigger]
            registry.changes_of(known, names).contains(change) <==> names.contains(change.name())
                && change_of(
                change.name(),
                registry.offered_version(change.name()),
                known_version(known, change.name()),
            ) == Some(change),
    decreases names.len(),
{
    let all = registry.changes_of(known, names);
    if names.len() > 0 {
        let rest = registry.changes_of(known, names.drop_first());
        lemma_changes_contain(registry, known, names.drop_first());
        assert forall|change: ChangeModel| #[trigger]
            all.contains(change) <==> names.contains(change.name()) && change_of(
                change.name(),
                registry.offered_version(change.name()),
                known_version(known, change.name()),
            ) == Some(change) by {
            lemma_contains_first(names, change.name());
            match change_of(
                names[0],
                registry.offered_version(names[0]),
                known_version(known, names[0]),
            ) {
                Some(first) => {
                    assert(all == seq![first] + rest);
                    if all.contains(change) && change != first {
                        let i = choose|i: int| 0 <= i < all.len() && all[i] == change;
                        assert(rest[i - 1] == change);
                    }
                    if rest.contains(change) {
                        let i = choose|i: int| 0 <= i < rest.len() && rest[i] == change;
                        assert(all[i + 1] == change);
                    }
                    if change == first {
                        assert(all[0] == change);
                    }
                },
                None => {},
            }
        }
    }
}

/// A session is told of exactly the names whose offered version is not the one that it knows.
pub proof fn changes_tell_all_differences<H, C>(
    registry: &ToolRegistry<H, C>,
    known: &TextMap<ToolVersion>,
    change: ChangeModel,
)
    requires
        registry.well_formed(),
        known.well_formed(),
    ensures
        registry.changes_of(known@, merged(registry.names(), known.keys())).contains(change)
            <==> change_of(
            change.name(),
            registry.offered_version(change.name()),
            known_version(known@, change.name()),
        ) == Some(change),
{
    let names = merged(registry.names(), known.keys());
    lemma_changes_contain(registry, known@, names);
    lemma_merged_contains(registry.names(), known.keys());
    registry.names_are_those_registered();
    known.keys_are_those_of_the_map();
}

/// A list is ascending if its first text comes before all others and they are ascending.
proof fn lemma_ascending_first(s: Seq<Seq<char>>)
    requires
        s.len() > 0,
    ensures
        ascending(s) <==> ascending(s.drop_first()) && forall|text: Seq<char>| #[trigger]
            s.drop_first().contains(text) ==> text_less(s[0], text),
{
    let rest = s.drop_first();
    if ascending(s) {
        assert forall|i: int, j: int| 0 <= i < j < rest.len() implies text_less(
            #[trigger] rest[i],
            #[trigger] rest[j],
        ) by {
            assert(rest[i] == s[i + 1] && rest[j] == s[j + 1]);
        }
        assert forall|text: Seq<char>| #[trigger] rest.contains(text) implies text_less(
            s[0],
            text,
        ) by {
            let i = choose|i: int| 0 <= i < rest.len() && rest[i] == text;
            assert(s[i + 1] == text);
        }
    }
    if ascending(rest) && forall|text: Seq<char>| #[trigger]
        rest.contains(text) ==> text_less(s[0], text) {
        assert forall|i: int, j: int| 0 <= i < j < s.len() implies text_less(
            #[trigger] s[i],
            #[trigger] s[j],
        ) by {
            assert(rest[j - 1] == s[j]);
            if i > 0 {
                assert(rest[i - 1] == s[i]);
            } else {
                assert(rest.contains(s[j]));
            }
        }
    }
}

/// Two ascending lists give an ascending one.
proof fn lemma_merged_ascending(a: Seq<Seq<char>>, b: Seq<Seq<char>>)
    requires
        ascending(a),
        ascending(b),
    ensures
        ascending(merged(a, b)),
    decreases a.len() + b.len(),
{
    if a.len() > 0 && b.len() > 0 {
        lemma_merged_step(a, b);
        lemma_ascending_first(a);
        lemma_ascending_first(b);
        less_total(a[0], b[0]);
        let (x, y) = if a[0] == b[0] {
            (a.drop_first(), b.drop_first())
        } else if text_less(b[0], a[0]) {
            (a, b.drop_first())
        } else {
            (a.drop_first(), b)
        };
        lemma_merged_ascending(x, y);
        lemma_merged_contains(x, y);
        let all = merged(a, b);
        assert(all.drop_first() == merged(x, y));
        assert forall|text: Seq<char>| #[trigger] all.drop_first().contains(text) implies text_less(
            all[0],
            text,
        ) by {
            lemma_contains_first(a, text);
            lemma_contains_first(b, text);
            if a.drop_first().contains(text) && all[0] != a[0] {
                less_transitive(b[0], a[0], text);
            }
            if b.drop_first().contains(text) && all[0] != b[0] {
                less_transitive(a[0], b[0], text);
            }
        }
        lemma_ascending_first(all);
    }
}

proof fn lemma_changes_ascending<H, C>(
    registry: &ToolRegistry<H, C>,
    known: Map<Seq<char>, ToolVersion>,
    names: Seq<Seq<char>>,
)
    requires
        ascending(names),
    ensures
        ascending(change_names(registry.changes_of(known, names))),
    decreases names.len(),
{
    if names.len() > 0 {
        let rest = registry.changes_of(known, names.drop_first());
        lemma_ascending_first(names);
        lemma_changes_ascending(registry, known, names.drop_first());
        lemma_changes_contain(registry, known, names.drop_first());
        let all = registry.changes_of(known, names);
        let told = change_names(all);
        if all.len() == rest.len() + 1 {
            assert(told.drop_first() =~= change_names(rest));
            assert forall|text: Seq<char>| #[trigger] told.drop_first().contains(
                text,
            ) implies text_less(told[0], text) by {
                let i = choose|i: int|
                    0 <= i < change_names(rest).len() && change_names(rest)[i] == text;
                assert(rest.contains(rest[i]));
            }
            lemma_ascending_first(told);
        }
    }
}

/// The names that changes are about.
pub open spec fn change_names(changes: Seq<ChangeModel>) -> Seq<Seq<char>> {
    changes.map_values(|change: ChangeModel| change.name())
}

/// A session is told of changes by name, in ascending order, and of each name at most once.
pub proof fn changes_are_sorted_by_name<H, C>(
    registry: &ToolRegistry<H, C>,
    known: &TextMap<ToolVersion>,
)
    requires
        registry.well_formed(),
        known.well_formed(),
    ensures
        ({
            let names = change_names(
                registry.changes_of(known@, merged(registry.names(), known.keys())),
            );
            &&& ascending(names)
            &&& names.no_duplicates()
        }),
{
    registry.names_are_those_registered();
    known.keys_are_those_of_the_map();
    lemma_merged_ascending(registry.names(), known.keys());
    lemma_changes_ascending(registry, known@, merged(registry.names(), known.keys()));
    let names = change_names(registry.changes_of(known@, merged(registry.names(), known.keys())));
    assert forall|i: int, j: int| 0 <= i < names.len() && 0 <= j < names.len() && i
        != j implies names[i] != names[j] by {
        less_total(names[i], names[j]);
        if i < j {
            assert(text_less(names[i], names[j]));
        } else {
            assert(text_less(names[j], names[i]));
        }
    }
}

/// A session that knows the offer, and nothing else, is told nothing.
pub proof fn known_offer_has_no_changes<H, C>(
    registry: &ToolRegistry<H, C>,
    known: &TextMap<ToolVersion>,
)
    requires
        registry.well_formed(),
        known.well_formed(),
    ensures
        registry.changes_of(known@, merged(registry.names(), known.keys())).len() == 0 <==> (
        forall|name: Seq<char>|
            registry.offered_version(name) == #[trigger] known_version(known@, name)),
{
    let names = merged(registry.names(), known.keys());
    let all = registry.changes_of(known@, names);
    if forall|name: Seq<char>| registry.offered_version(name) == #[trigger] known_version(
        known@,
        name,
    ) {
        if all.len() > 0 {
            let change = all[0];
            assert(all.contains(change));
            changes_tell_all_differences(registry, known, change);
            assert(registry.offered_version(change.name()) == known_version(known@, change.name()));
        }
    }
    if all.len() == 0 {
        assert forall|name: Seq<char>| registry.offered_version(name) == #[trigger] known_version(
            known@,
            name,
        ) by {
            match change_of(name, registry.offered_version(name), known_version(known@, name)) {
                Some(change) => {
                    assert(change.name() == name);
                    changes_tell_all_differences(registry, known, change);
                },
                None => {},
            }
        }
    }
}

/// A tool that is registered is offered, and what stands under other names stays; after it is
/// removed its name offers nothing, and what stands under other names stays.
pub proof fn registered_tools_are_offered<H, C>(
    before: &ToolRegistry<H, C>,
    after: &ToolRegistry<H, C>,
    entry: RegistryEntry<H, C>,
    name: Seq<char>,
    other: Seq<char>,
)
    requires
        after@ == before@.insert(name, entry),
    ensures
        entry.current is Some ==> after.offered(name) == Some(entry.current->0.spec_contract()),
        entry.current is None ==> after.offered(name) is None,
        other != name ==> after.offered(other) == before.offered(other),
{
}

/// What asking for the detailed usage of one tool returns.
pub open spec fn help_answer<H, C>(
    registry: &ToolRegistry<H, C>,
    arguments: JsonModel,
) -> ExecutionModel {
    match arguments.text_at("tool"@) {
        None => failed_with("tool.help requires an exact tool name."@),
        Some(name) => match registry.offered(name) {
            None => ExecutionModel {
                outcome: ToolOutcome::Failed,
                data: JsonModel::Object(
                    no_fields().push(
                        ("error"@, JsonModel::Text("Tool "@ + name + " is unavailable."@)),
                    ).push(("tool"@, JsonModel::Text(name))),
                ),
                result_schema_version: 1,
                knowledge: Some(KnowledgeModel::Removed { name }),
            },
            Some(contract) => ExecutionModel {
                outcome: ToolOutcome::Succeeded,
                data: JsonModel::Object(
                    no_fields().push(("tool"@, JsonModel::Text(contract.name))).push(
                        ("version"@, JsonModel::Text(contract.version)),
                    ).push(("description"@, JsonModel::Text(contract.detailed_description))),
                ),
                result_schema_version: 1,
                knowledge: Some(KnowledgeModel::Current { name, version: contract.version }),
            },
        },
    }
}

/// Answers a call of `tool.help`. Without a registry there is nothing to say of a tool.
pub fn tool_help<H, C>(
    registry: Option<&ToolRegistry<H, C>>,
    arguments: &Json,
) -> (r: ToolExecution)
    requires
        registry is Some ==> registry->0.well_formed(),
    ensures
        r@ == match registry {
            Some(registry) => help_answer(registry, arguments@),
            None => if arguments@.text_at("tool"@) is None {
                failed_with("tool.help requires an exact tool name."@)
            } else {
                failed_with("Tool registry is unavailable."@)
            },
        },
{
    let name = match arguments.str_at("tool") {
        Some(name) => name,
        None => {
            return ToolExecution::failed("tool.help requires an exact tool name.");
        },
    };
    let registry = match registry {
        Some(registry) => registry,
        None => {
            return ToolExecution::failed("Tool registry is unavailable.");
        },
    };
    match registry.current_contract(name) {
        None => ToolExecution {
            outcome: ToolOutcome::Failed,
            data: JsonObject::new().with(
                "error",
                Json::Text(join3("Tool ", name, " is unavailable.")),
            ).with("tool", Json::text(name)).done(),
            result_schema_version: 1,
            knowledge: Some(ToolKnowledge::Removed { name: name.to_owned() }),
        },
        Some(contract) => {
            let data = JsonObject::new().with("tool", Json::text(&contract.name)).with(
                "version",
                Json::text(contract.version.as_str()),
            ).with("description", Json::text(&contract.detailed_description)).done();
            ToolExecution {
                outcome: ToolOutcome::Succeeded,
                data,
                result_schema_version: 1,
                knowledge: Some(
                    ToolKnowledge::Current { name: name.to_owned(), version: contract.version },
                ),
            }
        },
    }
}

/// The contract of `tool.help`.
pub open spec fn help_contract(version: Seq<char>) -> ContractModel {
    ContractModel {
        name: "tool.help"@,
        version,
        initial_description:
            "Use tool.help when you need the current detailed usage of a specific logical tool."@,
        detailed_description:
            "Return the latest detailed usage and current version for one exact logical tool name. This does not search or recommend tools."@,
        input_schema: JsonModel::Object(
            no_fields().push(("type"@, JsonModel::Text("object"@))).push(
                (
                    "properties"@,
                    JsonModel::Object(no_fields().push(("tool"@, nonempty_text_schema()))),
                ),
            ).push(
                ("required"@, JsonModel::Array(no_items().push(JsonModel::Text("tool"@)))),
            ).push(("additionalProperties"@, JsonModel::Bool(false))),
        ),
    }
}

pub(crate) fn text_single_json(text: &str) -> (r: Json)
    ensures
        r@ == JsonModel::Array(no_items().push(JsonModel::Text(text@))),
{
    let mut items: Vec<Json> = Vec::new();
    items.push(Json::text(text));
    proof {
        assert(items@.drop_last() =~= Seq::<Json>::empty());
        reveal_with_fuel(models, 2);
    }
    Json::array(items)
}

/// The contract of `tool.help`.
pub fn tool_help_contract(version: ToolVersion) -> (r: ToolContract)
    ensures
        r@ == help_contract(version@),
{
    ToolContract {
        name: "tool.help".to_owned(),
        version,
        initial_description:
            "Use tool.help when you need the current detailed usage of a specific logical tool.".to_owned(),
        detailed_description:
            "Return the latest detailed usage and current version for one exact logical tool name. This does not search or recommend tools.".to_owned(),
        input_schema: JsonObject::new().with("type", Json::text("object")).with(
            "properties",
            JsonObject::new().with("tool", nonempty_text_json()).done(),
        ).with("required", text_single_json("tool")).with(
            "additionalProperties",
            Json::Bool(false),
        ).done(),
    }
}

/// A list that is cleaned stays as long as it was, and each of its items is the item that stood
/// there, cleaned by the schema of the items. Without one the list stays as it is.
pub proof fn cleaning_keeps_lists_whole(items: Seq<JsonModel>, schema: JsonModel)
    ensures
        pruned(JsonModel::Array(items), schema) matches JsonModel::Array(kept) && kept.len()
            == items.len() && forall|i: int|
            0 <= i < items.len() ==> #[trigger] kept[i] == match schema.get("items"@) {
                Some(item_schema) => pruned(items[i], item_schema),
                None => items[i],
            },
{
    match schema.get("items"@) {
        Some(item_schema) => lemma_items_kept(items, item_schema),
        None => {},
    }
}

proof fn lemma_items_kept(items: Seq<JsonModel>, schema: JsonModel)
    ensures
        pruned_items(items, schema).len() == items.len(),
        forall|i: int|
            0 <= i < items.len() ==> #[trigger] pruned_items(items, schema)[i] == pruned(
                items[i],
                schema,
            ),
    decreases items.len(),
{
    if items.len() > 0 {
        lemma_items_kept(items.drop_last(), schema);
        assert forall|i: int| 0 <= i < items.len() implies #[trigger] pruned_items(items, schema)[i]
            == pruned(items[i], schema) by {
            if i < items.len() - 1 {
                assert(items.drop_last()[i] == items[i]);
                assert(pruned_items(items, schema)[i] == pruned_items(items.drop_last(), schema)[i]);
            }
        }
    }
}

/// Whether a schema gives `name` a schema of its own.
pub open spec fn is_declared(schema: JsonModel, name: Seq<char>) -> bool {
    schema.get("properties"@) matches Some(JsonModel::Object(declared)) && exists|i: int|
        0 <= i < declared.len() && (#[trigger] declared[i]).0 == name
}

/// Whether a member of that name may stay: other members are allowed, or it is declared.
pub open spec fn may_stay(schema: JsonModel, name: Seq<char>) -> bool {
    schema.get("additionalProperties"@) == Some(JsonModel::Bool(false)) ==> is_declared(
        schema,
        name,
    )
}

/// The schema that the member `name` is cleaned by, if there is one.
pub open spec fn cleaned_by(schema: JsonModel, name: Seq<char>) -> Option<JsonModel> {
    if is_declared(schema, name) {
        (schema.get("properties"@)->0).get(name)
    } else if schema.get("additionalProperties"@) matches Some(other) && other is Object {
        schema.get("additionalProperties"@)
    } else {
        None
    }
}

proof fn lemma_declared(schema: JsonModel, name: Seq<char>)
    ensures
        is_declared(schema, name) == names_member(schema, name),
        cleaned_by(schema, name) == member_schema(schema, name),
{
    match schema.get("properties"@) {
        Some(JsonModel::Object(declared)) => {
            members_are_found(declared, name);
        },
        _ => {},
    }
}

/// Of the members of an object those that may stay are kept, in their order and under their names,
/// and no others. Each is cleaned by the schema that is declared for it, else by the one for all
/// others, and stays as it is where there is neither.
pub proof fn cleaning_keeps_known_members(
    fields: Seq<(Seq<char>, JsonModel)>,
    schema: JsonModel,
)
    ensures
        pruned(JsonModel::Object(fields), schema) == JsonModel::Object(
            fields.filter(|field: (Seq<char>, JsonModel)| may_stay(schema, field.0)).map_values(
                |field: (Seq<char>, JsonModel)|
                    (
                        field.0,
                        match cleaned_by(schema, field.0) {
                            Some(inner) => pruned(field.1, inner),
                            None => field.1,
                        },
                    ),
            ),
        ),
{
    lemma_fields_kept(fields, schema);
}

proof fn lemma_fields_kept(fields: Seq<(Seq<char>, JsonModel)>, schema: JsonModel)
    ensures
        pruned_fields(fields, schema) == fields.filter(
            |field: (Seq<char>, JsonModel)| may_stay(schema, field.0),
        ).map_values(
            |field: (Seq<char>, JsonModel)|
                (
                    field.0,
                    match cleaned_by(schema, field.0) {
                        Some(inner) => pruned(field.1, inner),
                        None => field.1,
                    },
                ),
        ),
    decreases fields.len(),
{
    let stays = |field: (Seq<char>, JsonModel)| may_stay(schema, field.0);
    let cleaned = |field: (Seq<char>, JsonModel)|
        (
            field.0,
            match cleaned_by(schema, field.0) {
                Some(inner) => pruned(field.1, inner),
                None => field.1,
            },
        );
    reveal(Seq::filter);
    if fields.len() > 0 {
        let rest = fields.drop_last();
        lemma_fields_kept(rest, schema);
        lemma_declared(schema, fields.last().0);
        if stays(fields.last()) {
            assert(rest.filter(stays).push(fields.last()).map_values(cleaned) =~= rest.filter(
                stays,
            ).map_values(cleaned).push(cleaned(fields.last())));
        }
    } else {
        assert(fields.filter(stays).map_values(cleaned) =~= Seq::empty());
    }
}

/// Whether a value holds, at any depth, only members that may stay.
pub open spec fn all_known(value: JsonModel, schema: JsonModel) -> bool
    decreases value, 0nat,
{
    match value {
        JsonModel::Object(fields) => fields_known(fields, schema),
        JsonModel::Array(items) => match schema.get("items"@) {
            Some(item_schema) => items_known(items, item_schema),
            None => true,
        },
        _ => true,
    }
}

pub open spec fn fields_known(fields: Seq<(Seq<char>, JsonModel)>, schema: JsonModel) -> bool
    decreases fields, 0nat,
{
    fields.len() == 0 || {
        &&& fields_known(fields.drop_last(), schema)
        &&& may_stay(schema, fields.last().0)
        &&& match cleaned_by(schema, fields.last().0) {
            Some(inner) => all_known(fields.last().1, inner),
            None => true,
        }
    }
}

pub open spec fn items_known(items: Seq<JsonModel>, schema: JsonModel) -> bool
    decreases items, 0nat,
{
    items.len() == 0 || (items_known(items.drop_last(), schema) && all_known(items.last(), schema))
}

/// A value that holds only members that may stay is returned as it is, and what is returned holds
/// no others: cleaning takes away the unknown members and nothing else. Values that are neither
/// lists nor objects stay what they are.
pub proof fn cleaning_discards_only_the_unknown(value: JsonModel, schema: JsonModel)
    ensures
        all_known(value, schema) ==> pruned(value, schema) == value,
        all_known(pruned(value, schema), schema),
        !(value is Object || value is Array) ==> pruned(value, schema) == value,
    decreases value, 0nat,
{
    match value {
        JsonModel::Object(fields) => lemma_known_fields(fields, schema),
        JsonModel::Array(items) => match schema.get("items"@) {
            Some(item_schema) => lemma_known_items(items, item_schema),
            None => {},
        },
        _ => {},
    }
}

proof fn lemma_known_fields(fields: Seq<(Seq<char>, JsonModel)>, schema: JsonModel)
    ensures
        fields_known(fields, schema) ==> pruned_fields(fields, schema) == fields,
        fields_known(pruned_fields(fields, schema), schema),
    decreases fields, 0nat,
{
    if fields.len() > 0 {
        let rest = fields.drop_last();
        lemma_known_fields(rest, schema);
        lemma_declared(schema, fields.last().0);
        let value = fields.last().1;
        match member_schema(schema, fields.last().0) {
            Some(inner) => cleaning_discards_only_the_unknown(value, inner),
            None => {},
        }
        let kept = pruned_fields(fields, schema);
        if may_stay(schema, fields.last().0) {
            assert(kept.drop_last() =~= pruned_fields(rest, schema));
            if fields_known(fields, schema) {
                assert(kept =~= fields);
            }
        }
    } else {
        assert(fields =~= Seq::empty());
    }
}

proof fn lemma_known_items(items: Seq<JsonModel>, schema: JsonModel)
    ensures
        items_known(items, schema) ==> pruned_items(items, schema) == items,
        items_known(pruned_items(items, schema), schema),
    decreases items, 0nat,
{
    if items.len() > 0 {
        let rest = items.drop_last();
        lemma_known_items(rest, schema);
        cleaning_discards_only_the_unknown(items.last(), schema);
        let kept = pruned_items(items, schema);
        assert(kept.drop_last() =~= pruned_items(rest, schema));
        if items_known(items, schema) {
            assert(kept =~= items);
        }
    } else {
        assert(items =~= Seq::empty());
    }
}

/// Arguments that a schema accepts and that hold nothing unknown to it reach the tool as they came.
pub proof fn accepted_arguments_pass(arguments: JsonModel, schema: JsonModel)
    requires
        all_known(arguments, schema),
        schema_accepts(schema, arguments),
    ensures
        schema_accepts(schema, pruned(arguments, schema)),
        pruned(arguments, schema) == arguments,
{
    cleaning_discards_only_the_unknown(arguments, schema);
}

/// What a session knows of a name after it was told of a change of it.
pub open spec fn learned(known: Option<Seq<char>>, told: Option<ChangeModel>) -> Option<Seq<char>> {
    match told {
        Some(ChangeModel::Added { version, .. }) => Some(version),
        Some(ChangeModel::Updated { version, .. }) => Some(version),
        Some(ChangeModel::Removed { .. }) => None,
        None => known,
    }
}

/// A session that is told of a change of a name knows the version that is offered: a name that it
/// did not know was added, one that is offered no more was removed, and one that it knew in another
/// version was updated. Of a name that did not change it is told nothing.
pub proof fn told_changes_bring_up_to_date(
    name: Seq<char>,
    offered: Option<Seq<char>>,
    known: Option<Seq<char>>,
)
    ensures
        ({
            let told = change_of(name, offered, known);
            &&& learned(known, told) == offered
            &&& told is Some ==> told->0.name() == name
            &&& told is None <==> offered == known
            &&& told matches Some(change) ==> {
                &&& change is Added <==> known is None
                &&& change is Removed <==> offered is None
            }
        }),
{
}

/// Whether a list introduces a tool: by its name, its version and the description for the start.
pub open spec fn introduces(list: Seq<IntroductionModel>, contract: ContractModel) -> bool {
    exists|i: int|
        0 <= i < list.len() && (#[trigger] list[i]).name == contract.name && list[i].version
            == contract.version && list[i].description == contract.initial_description
}

/// Whether a tool of that name and version is offered.
pub open spec fn is_offered<H, C>(registry: &ToolRegistry<H, C>, item: IntroductionModel) -> bool {
    exists|name: Seq<char>|
        (#[trigger] registry.offered(name)) is Some && registry.offered(name)->0.name == item.name
            && registry.offered(name)->0.version == item.version
}

/// Every tool that is offered is introduced, with its version and the description for the start,
/// and nothing else is.
pub proof fn catalogs_introduce_what_is_offered<H, C>(registry: &ToolRegistry<H, C>)
    requires
        registry.well_formed(),
    ensures
        forall|name: Seq<char>|
            (#[trigger] registry.offered(name)) is Some ==> introduces(
                registry.catalog(registry.names()),
                registry.offered(name)->0,
            ),
        forall|i: int|
            0 <= i < registry.catalog(registry.names()).len() ==> is_offered(
                registry,
                #[trigger] registry.catalog(registry.names())[i],
            ),
{
    let names = registry.names();
    registry.names_are_those_registered();
    lemma_catalog(registry, names);
    assert forall|name: Seq<char>| (#[trigger] registry.offered(name)) is Some implies introduces(
        registry.catalog(registry.names()),
        registry.offered(name)->0,
    ) by {
        assert(names.contains(name));
        let at = choose|at: int| 0 <= at < names.len() && names[at] == name;
        assert(registry.offered(names[at]) is Some);
    }
}

proof fn lemma_catalog<H, C>(registry: &ToolRegistry<H, C>, names: Seq<Seq<char>>)
    ensures
        forall|at: int|
            0 <= at < names.len() && registry.offered(#[trigger] names[at]) is Some ==> introduces(
                registry.catalog(names),
                registry.offered(names[at])->0,
            ),
        forall|i: int|
            0 <= i < registry.catalog(names).len() ==> is_offered(
                registry,
                #[trigger] registry.catalog(names)[i],
            ),
    decreases names.len(),
{
    if names.len() > 0 {
        let rest = names.drop_last();
        lemma_catalog(registry, rest);
        let all = registry.catalog(names);
        let before = registry.catalog(rest);
        assert forall|at: int|
            0 <= at < names.len() && registry.offered(
                #[trigger] names[at],
            ) is Some implies introduces(all, registry.offered(names[at])->0) by {
            let contract = registry.offered(names[at])->0;
            if at < names.len() - 1 {
                assert(rest[at] == names[at]);
                let i = choose|i: int|
                    0 <= i < before.len() && (#[trigger] before[i]).name == contract.name
                        && before[i].version == contract.version && before[i].description
                        == contract.initial_description;
                assert(all[i] == before[i]);
            } else {
                assert(all[all.len() - 1].name == contract.name);
            }
        }
        assert forall|i: int| 0 <= i < all.len() implies is_offered(
            registry,
            #[trigger] all[i],
        ) by {
            if i < before.len() {
                assert(all[i] == before[i]);
            } else {
                assert(registry.offered(names.last()) is Some);
            }
        }
    }
}

/// Help on a tool that is offered gives its name, its version and the detailed description, and the
/// session then knows that version; help on any other name fails and the session forgets the name.
/// A request that names no tool fails.
pub proof fn help_describes_the_offered_tool<H, C>(
    registry: &ToolRegistry<H, C>,
    arguments: JsonModel,
)
    ensures
        ({
            let answer = help_answer(registry, arguments);
            match arguments.get("tool"@) {
                Some(JsonModel::Text(name)) => match registry.offered(name) {
                    Some(contract) => {
                        &&& answer.outcome is Succeeded
                        &&& answer.data.get("tool"@) == Some(JsonModel::Text(contract.name))
                        &&& answer.data.get("version"@) == Some(JsonModel::Text(contract.version))
                        &&& answer.data.get("description"@) == Some(
                            JsonModel::Text(contract.detailed_description),
                        )
                        &&& answer.knowledge == Some(
                            KnowledgeModel::Current { name, version: contract.version },
                        )
                    },
                    None => {
                        &&& answer.outcome is Failed
                        &&& answer.data.get("error"@) == Some(
                            JsonModel::Text("Tool "@ + name + " is unavailable."@),
                        )
                        &&& answer.data.get("tool"@) == Some(JsonModel::Text(name))
                        &&& answer.knowledge == Some(KnowledgeModel::Removed { name })
                    },
                },
                _ => {
                    &&& answer.outcome is Failed
                    &&& answer.data.get("error"@) == Some(
                        JsonModel::Text("tool.help requires an exact tool name."@),
                    )
                    &&& answer.knowledge is None
                },
            }
        }),
{
    reveal_strlit("tool");
    reveal_strlit("version");
    reveal_strlit("description");
    reveal_strlit("error");
    assert("tool"@.len() == 4 && "version"@.len() == 7 && "description"@.len() == 11
        && "error"@.len() == 5);
    let fields = help_answer(registry, arguments).data->Object_0;
    match arguments.get("tool"@) {
        Some(JsonModel::Text(name)) => match registry.offered(name) {
            Some(_) => {
                assert(fields.len() == 3 && fields[0].0 == "tool"@ && fields[1].0 == "version"@
                    && fields[2].0 == "description"@);
            },
            None => {
                assert(fields.len() == 2 && fields[0].0 == "error"@ && fields[1].0 == "tool"@);
            },
        },
        _ => {
            assert(fields[0].0 == "error"@);
        },
    }
    named_members_are_found(fields);
}

/// A call is an object whose `tool` is a text and whose `arguments` are an object, whatever else it
/// holds, or a list of the two; nothing else is. The two parts are handed on as they are.
pub proof fn calls_name_a_tool_and_its_arguments(
    value: JsonModel,
    tool: Seq<char>,
    arguments: Seq<(Seq<char>, JsonModel)>,
)
    ensures
        value is Object && value.get("tool"@) == Some(JsonModel::Text(tool)) && value.get(
            "arguments"@,
        ) == Some(JsonModel::Object(arguments)) ==> is_call(value) && call_parts(value) == (
            Some(JsonModel::Text(tool)),
            Some(JsonModel::Object(arguments)),
        ),
        value == JsonModel::Array(seq![JsonModel::Text(tool), JsonModel::Object(arguments)])
            ==> is_call(value) && call_parts(value) == (
            Some(JsonModel::Text(tool)),
            Some(JsonModel::Object(arguments)),
        ),
        is_call(value) ==> value is Object || value is Array,
        is_call(value) && value is Object ==> {
            &&& value.get("tool"@) matches Some(JsonModel::Text(_))
            &&& value.get("arguments"@) matches Some(JsonModel::Object(_))
        },
        is_call(value) && value is Array ==> value->Array_0.len() == 2 && value->Array_0[0] is Text
            && value->Array_0[1] is Object,
{
}

/// A contract is refused for the first of its texts that is blank, in the order of name, initial and
/// detailed description, and else only for its schema.
pub proof fn contracts_say_something(contract: ContractModel)
    ensures
        is_valid_contract(contract) <==> {
            &&& !is_blank(contract.name)
            &&& !is_blank(contract.initial_description)
            &&& !is_blank(contract.detailed_description)
            &&& contract.input_schema is Object
            &&& is_schema(contract.input_schema)
        },
        contract_fault(contract) matches Some(fault) ==> (fault is EmptyName
            || fault is EmptyInitialDescription || fault is EmptyDetailedDescription),
        contract_fault(contract) matches Some(fault) ==> (fault is EmptyName <==> is_blank(
            contract.name,
        )),
        contract_fault(contract) matches Some(fault) && fault is EmptyInitialDescription
            ==> is_blank(contract.initial_description),
        contract_fault(contract) matches Some(fault) && fault is EmptyDetailedDescription
            ==> !is_blank(contract.initial_description) && is_blank(contract.detailed_description),
{
}

/// A provider is shown a call that takes a text that is not empty as `tool` and an object as
/// `arguments`, both of them required, and nothing else.
pub proof fn providers_are_shown_one_call()
    ensures
        call_schema().get("type"@) == Some(JsonModel::Text("object"@)),
        call_schema().get2("properties"@, "tool"@) matches Some(tool) && tool.get("type"@) == Some(
            JsonModel::Text("string"@),
        ) && tool.get("minLength"@) == Some(JsonModel::Unsigned(1)),
        call_schema().get2("properties"@, "arguments"@) matches Some(arguments) && arguments.get(
            "type"@,
        ) == Some(JsonModel::Text("object"@)),
        call_schema().get("required"@) == Some(
            JsonModel::Array(seq![JsonModel::Text("tool"@), JsonModel::Text("arguments"@)]),
        ),
        call_schema().get("additionalProperties"@) == Some(JsonModel::Bool(false)),
{
    reveal_strlit("type");
    reveal_strlit("properties");
    reveal_strlit("required");
    reveal_strlit("additionalProperties");
    reveal_strlit("tool");
    reveal_strlit("arguments");
    reveal_strlit("minLength");
    let fields = call_schema()->Object_0;
    assert(fields[0].0 == "type"@ && fields[1].0 == "properties"@ && fields[2].0 == "required"@
        && fields[3].0 == "additionalProperties"@);
    named_members_are_found(fields);
    let known = fields[1].1->Object_0;
    assert(known[0].0 == "tool"@ && known[1].0 == "arguments"@);
    named_members_are_found(known);
    let text = nonempty_text_schema()->Object_0;
    assert(text[0].0 == "type"@ && text[1].0 == "minLength"@);
    named_members_are_found(text);
    let object = typed("object"@)->Object_0;
    assert(object[0].0 == "type"@);
    named_members_are_found(object);
    assert(fields[2].1->Array_0 =~= seq![JsonModel::Text("tool"@), JsonModel::Text("arguments"@)]);
}

/// A failure says why under `error`, and a success hands on the data; neither changes what the
/// session knows of tools.
pub proof fn executions_tell_their_outcome(data: JsonModel, message: Seq<char>)
    ensures
        succeeded(data).outcome is Succeeded && succeeded(data).data == data,
        failed_with(message).outcome is Failed && failed_with(message).data.get("error"@) == Some(
            JsonModel::Text(message),
        ),
        succeeded(data).result_schema_version == 1 && failed_with(message).result_schema_version
            == 1,
        succeeded(data).knowledge is None && failed_with(message).knowledge is None,
{
    let fields = error_object(message)->Object_0;
    assert(fields[0].0 == "error"@);
    named_members_are_found(fields);
}

/// Each outcome has a name of its own.
pub proof fn outcomes_have_names(outcome: ToolOutcome)
    ensures
        outcome is Succeeded <==> outcome_name(outcome) == "succeeded"@,
        outcome is Failed <==> outcome_name(outcome) == "failed"@,
        outcome is TimedOut <==> outcome_name(outcome) == "timed_out"@,
        outcome is Cancelled <==> outcome_name(outcome) == "cancelled"@,
{
    reveal_strlit("succeeded");
    reveal_strlit("failed");
    reveal_strlit("timed_out");
    reveal_strlit("cancelled");
    assert("succeeded"@[0] != "timed_out"@[0] && "succeeded"@[0] != "cancelled"@[0]
        && "timed_out"@[0] != "cancelled"@[0]);
}

/// Help is asked for by a text that is not empty and nothing else, and its contract can be read as
/// the others can.
pub proof fn help_takes_the_name_of_a_tool(version: Seq<char>)
    ensures
        ({
            let contract = help_contract(version);
            let schema = contract.input_schema;
            &&& contract.name == "tool.help"@ && contract.version == version
            &&& schema.get("type"@) == Some(JsonModel::Text("object"@))
            &&& schema.get2("properties"@, "tool"@) matches Some(tool) && tool.get("type"@) == Some(
                JsonModel::Text("string"@),
            ) && tool.get("minLength"@) == Some(JsonModel::Unsigned(1))
            &&& schema.get("required"@) == Some(JsonModel::Array(seq![JsonModel::Text("tool"@)]))
            &&& schema.get("additionalProperties"@) == Some(JsonModel::Bool(false))
        }),
{
    reveal_strlit("type");
    reveal_strlit("properties");
    reveal_strlit("required");
    reveal_strlit("additionalProperties");
    reveal_strlit("minLength");
    assert("type"@.len() == 4 && "properties"@.len() == 10 && "required"@.len() == 8
        && "additionalProperties"@.len() == 20 && "minLength"@.len() == 9);
    let fields = help_contract(version).input_schema->Object_0;
    assert(fields[0].0 == "type"@ && fields[1].0 == "properties"@ && fields[2].0 == "required"@
        && fields[3].0 == "additionalProperties"@);
    named_members_are_found(fields);
    let known = fields[1].1->Object_0;
    assert(known[0].0 == "tool"@);
    named_members_are_found(known);
    let text = nonempty_text_schema()->Object_0;
    assert(text[0].0 == "type"@ && text[1].0 == "minLength"@);
    named_members_are_found(text);
    assert(fields[2].1->Array_0 =~= seq![JsonModel::Text("tool"@)]);
}

/// Tools are introduced in the order of their names, each once.
pub proof fn catalogs_are_sorted_by_name<H, C>(registry: &ToolRegistry<H, C>)
    requires
        registry.well_formed(),
    ensures
        ascending(
            registry.catalog(registry.names()).map_values(|item: IntroductionModel| item.name),
        ),
{
    registry.names_are_those_registered();
    assert forall|name: Seq<char>|
        (#[trigger] registry.offered(name)) is Some implies registry.offered(name)->0.name
        == name by {
        assert(registry.entries@.contains_key(name));
    }
    lemma_catalog_ascending(registry, registry.names());
}

proof fn lemma_catalog_ascending<H, C>(registry: &ToolRegistry<H, C>, names: Seq<Seq<char>>)
    requires
        ascending(names),
        forall|name: Seq<char>|
            (#[trigger] registry.offered(name)) is Some ==> registry.offered(name)->0.name == name,
    ensures
        ascending(registry.catalog(names).map_values(|item: IntroductionModel| item.name)),
        forall|i: int|
            0 <= i < registry.catalog(names).len() ==> names.contains(
                (#[trigger] registry.catalog(names)[i]).name,
            ),
    decreases names.len(),
{
    let title = |item: IntroductionModel| item.name;
    if names.len() > 0 {
        let rest = names.drop_last();
        assert forall|i: int, j: int| 0 <= i < j < rest.len() implies text_less(
            #[trigger] rest[i],
            #[trigger] rest[j],
        ) by {
            assert(rest[i] == names[i] && rest[j] == names[j]);
        }
        lemma_catalog_ascending(registry, rest);
        let before = registry.catalog(rest);
        let all = registry.catalog(names);
        let listed = all.map_values(title);
        assert forall|i: int| 0 <= i < all.len() implies names.contains(
            (#[trigger] all[i]).name,
        ) by {
            if i < before.len() {
                assert(all[i] == before[i]);
                let k = choose|k: int| 0 <= k < rest.len() && rest[k] == before[i].name;
                assert(names[k] == before[i].name);
            } else {
                assert(names[names.len() - 1] == all[i].name);
            }
        }
        assert forall|i: int, j: int| 0 <= i < j < listed.len() implies text_less(
            #[trigger] listed[i],
            #[trigger] listed[j],
        ) by {
            assert(listed[i] == all[i].name && listed[j] == all[j].name);
            assert(all[i] == before[i]);
            if j < before.len() {
                assert(all[j] == before[j]);
                assert(before.map_values(title)[i] == before[i].name);
                assert(before.map_values(title)[j] == before[j].name);
            } else {
                let k = choose|k: int| 0 <= k < rest.len() && rest[k] == before[i].name;
                assert(names[k] == before[i].name);
                assert(names[names.len() - 1] == all[j].name);
            }
        }
    }
}

/// A model is told what help is for, and on request that it neither searches nor recommends.
pub proof fn help_is_described_to_models(version: Seq<char>)
    ensures
        help_contract(version).initial_description
            == "Use tool.help when you need the current detailed usage of a specific logical tool."@,
        help_contract(version).detailed_description
            == "Return the latest detailed usage and current version for one exact logical tool name. This does not search or recommend tools."@,
{
}

} // verus!
