//! JSON values as the library reads and builds them.
use serde_json::Value;
use vstd::prelude::*;
use vstd::utf8::{
    decode_utf8, encode_utf8, encode_utf8_decode_utf8, encode_utf8_valid_utf8, valid_utf8,
};

use crate::paging::copy_range;
use crate::sse::utf8_text;
use crate::text::same;

verus! {

/// A JSON value. Whole numbers are kept as integers. A number with a fraction or an exponent is
/// kept as its text: the library passes it on and does not compute with it. The members of an
/// object are kept in the order in which they were put.
#[derive(Debug)]
pub enum Json {
    Null,
    Bool(bool),
    Unsigned(u64),
    Negative(i64),
    Decimal(String),
    Text(String),
    Array(Vec<Json>),
    Object(Vec<(String, Json)>),
}

/// What a JSON value is, apart from how it is stored.
#[verifier::ext_equal]
pub enum JsonModel {
    Null,
    Bool(bool),
    Unsigned(u64),
    Negative(i64),
    Decimal(Seq<char>),
    Text(Seq<char>),
    Array(Seq<JsonModel>),
    Object(Seq<(Seq<char>, JsonModel)>),
}

/// The first member of that name.
pub open spec fn member(fields: Seq<(Seq<char>, JsonModel)>, key: Seq<char>) -> Option<JsonModel>
    decreases fields.len(),
{
    if fields.len() == 0 {
        None
    } else if fields[0].0 == key {
        Some(fields[0].1)
    } else {
        member(fields.drop_first(), key)
    }
}

impl JsonModel {
    /// The member `key` of an object; other values have none.
    pub open spec fn get(self, key: Seq<char>) -> Option<JsonModel> {
        match self {
            JsonModel::Object(fields) => member(fields, key),
            _ => None,
        }
    }

    pub open spec fn as_text(self) -> Option<Seq<char>> {
        match self {
            JsonModel::Text(text) => Some(text),
            _ => None,
        }
    }

    pub open spec fn as_bool(self) -> Option<bool> {
        match self {
            JsonModel::Bool(value) => Some(value),
            _ => None,
        }
    }

    pub open spec fn as_unsigned(self) -> Option<u64> {
        match self {
            JsonModel::Unsigned(value) => Some(value),
            _ => None,
        }
    }

    /// The value as an `i64`, if it is a whole number in that range.
    pub open spec fn as_signed(self) -> Option<i64> {
        match self {
            JsonModel::Unsigned(value) => if value <= i64::MAX {
                Some(value as i64)
            } else {
                None
            },
            JsonModel::Negative(value) => Some(value),
            _ => None,
        }
    }

    /// The text of the member `key`.
    pub open spec fn text_at(self, key: Seq<char>) -> Option<Seq<char>> {
        match self.get(key) {
            Some(value) => value.as_text(),
            None => None,
        }
    }

    /// The part `key` of a record of `count` parts: a member of an object, or the item `at` of a list
    /// of the parts in their order.
    pub open spec fn part(self, key: Seq<char>, at: int, count: int) -> Option<JsonModel> {
        match self {
            JsonModel::Array(items) => if items.len() == count {
                Some(items[at])
            } else {
                None
            },
            _ => self.get(key),
        }
    }

    /// The text of a part of a record.
    pub open spec fn text_part(self, key: Seq<char>, at: int, count: int) -> Option<Seq<char>> {
        match self.part(key, at, count) {
            Some(value) => value.as_text(),
            None => None,
        }
    }

    /// The member `inner` of the member `outer`.
    pub open spec fn get2(self, outer: Seq<char>, inner: Seq<char>) -> Option<JsonModel> {
        match self.get(outer) {
            Some(value) => value.get(inner),
            None => None,
        }
    }
}

impl View for Json {
    type V = JsonModel;

    open spec fn view(&self) -> JsonModel {
        model(*self)
    }
}

/// What a value is.
pub open spec fn model(value: Json) -> JsonModel
    decreases value,
{
    match value {
        Json::Null => JsonModel::Null,
        Json::Bool(value) => JsonModel::Bool(value),
        Json::Unsigned(value) => JsonModel::Unsigned(value),
        Json::Negative(value) => JsonModel::Negative(value),
        Json::Decimal(text) => JsonModel::Decimal(text@),
        Json::Text(text) => JsonModel::Text(text@),
        Json::Array(items) => JsonModel::Array(models(items@)),
        Json::Object(fields) => JsonModel::Object(members(fields@)),
    }
}

/// What a list of values is.
pub open spec fn models(items: Seq<Json>) -> Seq<JsonModel>
    decreases items,
{
    if items.len() == 0 {
        Seq::empty()
    } else {
        models(items.drop_last()).push(model(items.last()))
    }
}

/// What a list of members is.
pub open spec fn members(fields: Seq<(String, Json)>) -> Seq<(Seq<char>, JsonModel)>
    decreases fields,
{
    if fields.len() == 0 {
        Seq::empty()
    } else {
        members(fields.drop_last()).push((fields.last().0@, model(fields.last().1)))
    }
}

/// A list of values is one value after the other.
pub proof fn models_index(items: Seq<Json>)
    ensures
        models(items).len() == items.len(),
        forall|i: int| 0 <= i < items.len() ==> #[trigger] models(items)[i] == items[i]@,
    decreases items.len(),
{
    if items.len() > 0 {
        models_index(items.drop_last());
        assert forall|i: int| 0 <= i < items.len() implies #[trigger] models(items)[i]
            == items[i]@ by {
            if i < items.len() - 1 {
                assert(items.drop_last()[i] == items[i]);
                assert(models(items)[i] == models(items.drop_last())[i]);
            }
        }
    }
}

/// A list of members is one member after the other.
pub proof fn members_index(fields: Seq<(String, Json)>)
    ensures
        members(fields).len() == fields.len(),
        forall|i: int|
            0 <= i < fields.len() ==> #[trigger] members(fields)[i] == (
                fields[i].0@,
                fields[i].1@,
            ),
    decreases fields.len(),
{
    if fields.len() > 0 {
        members_index(fields.drop_last());
        assert forall|i: int| 0 <= i < fields.len() implies #[trigger] members(fields)[i] == (
            fields[i].0@,
            fields[i].1@,
        ) by {
            if i < fields.len() - 1 {
                assert(fields.drop_last()[i] == fields[i]);
                assert(members(fields)[i] == members(fields.drop_last())[i]);
            }
        }
    }
}

/// What an optional value is.
pub open spec fn optional(value: Option<Json>) -> Option<JsonModel> {
    match value {
        Some(value) => Some(value@),
        None => None,
    }
}

/// What an optional value behind a reference is.
pub open spec fn optional_ref(value: Option<&Json>) -> Option<JsonModel> {
    match value {
        Some(value) => Some(value@),
        None => None,
    }
}

/// What an optional text is.
pub open spec fn optional_text(value: Option<String>) -> Option<Seq<char>> {
    match value {
        Some(value) => Some(value@),
        None => None,
    }
}

/// What an optional text behind a reference is.
pub open spec fn optional_str(value: Option<&str>) -> Option<Seq<char>> {
    match value {
        Some(value) => Some(value@),
        None => None,
    }
}

impl Clone for Json {
    fn clone(&self) -> (r: Json)
        ensures
            r@ == self@,
        decreases *self,
    {
        match self {
            Json::Null => Json::Null,
            Json::Bool(value) => Json::Bool(*value),
            Json::Unsigned(value) => Json::Unsigned(*value),
            Json::Negative(value) => Json::Negative(*value),
            Json::Decimal(text) => Json::Decimal(text.clone()),
            Json::Text(text) => Json::Text(text.clone()),
            Json::Array(items) => Json::Array(clone_items(items, items.len())),
            Json::Object(fields) => Json::Object(clone_fields(fields, fields.len())),
        }
    }
}

/// Copies of the first `count` values.
fn clone_items(items: &Vec<Json>, count: usize) -> (r: Vec<Json>)
    requires
        count <= items.len(),
    ensures
        models(r@) == models(items@.take(count as int)),
        count == items.len() ==> models(r@) == models(items@),
    decreases *items, count,
{
    if count == 0 {
        proof {
            assert(items@.take(0) =~= Seq::<Json>::empty());
            assert(items.len() == 0 ==> items@ =~= Seq::<Json>::empty());
        }
        Vec::new()
    } else {
        let mut out = clone_items(items, count - 1);
        let last = items[count - 1].clone();
        let ghost before = out@;
        out.push(last);
        proof {
            assert(out@.drop_last() =~= before);
            assert(items@.take(count as int).drop_last() =~= items@.take(count - 1));
            assert(items@.take(items@.len() as int) =~= items@);
        }
        out
    }
}

/// Copies of the first `count` members.
fn clone_fields(fields: &Vec<(String, Json)>, count: usize) -> (r: Vec<(String, Json)>)
    requires
        count <= fields.len(),
    ensures
        members(r@) == members(fields@.take(count as int)),
        count == fields.len() ==> members(r@) == members(fields@),
    decreases *fields, count,
{
    if count == 0 {
        proof {
            assert(fields@.take(0) =~= Seq::<(String, Json)>::empty());
            assert(fields.len() == 0 ==> fields@ =~= Seq::<(String, Json)>::empty());
        }
        Vec::new()
    } else {
        let mut out = clone_fields(fields, count - 1);
        let key = fields[count - 1].0.clone();
        let value = fields[count - 1].1.clone();
        let ghost before = out@;
        out.push((key, value));
        proof {
            assert(out@.drop_last() =~= before);
            assert(fields@.take(count as int).drop_last() =~= fields@.take(count - 1));
            assert(fields@.take(fields@.len() as int) =~= fields@);
        }
        out
    }
}

impl Json {
    /// The member `key` of an object; other values have none.
    pub fn get(&self, key: &str) -> (r: Option<&Json>)
        ensures
            optional_ref(r) == self@.get(key@),
    {
        match self {
            Json::Object(fields) => {
                proof {
                    members_index(fields@);
                    assert(members(fields@).skip(0) =~= members(fields@));
                }
                let mut i: usize = 0;
                while i < fields.len()
                    invariant
                        i <= fields.len(),
                        *self == Json::Object(*fields),
                        member(members(fields@), key@) == member(
                            members(fields@).skip(i as int),
                            key@,
                        ),
                    decreases fields.len() - i,
                {
                    proof {
                        members_index(fields@);
                        assert(members(fields@).skip(i as int).drop_first() =~= members(
                            fields@,
                        ).skip(i + 1));
                    }
                    if same(&fields[i].0, key) {
                        return Some(&fields[i].1);
                    }
                    i = i + 1;
                }
                None
            },
            _ => None,
        }
    }

    pub fn as_str(&self) -> (r: Option<&str>)
        ensures
            optional_str(r) == self@.as_text(),
    {
        match self {
            Json::Text(text) => Some(text.as_str()),
            _ => None,
        }
    }

    pub fn as_bool(&self) -> (r: Option<bool>)
        ensures
            r == self@.as_bool(),
    {
        match self {
            Json::Bool(value) => Some(*value),
            _ => None,
        }
    }

    pub fn as_u64(&self) -> (r: Option<u64>)
        ensures
            r == self@.as_unsigned(),
    {
        match self {
            Json::Unsigned(value) => Some(*value),
            _ => None,
        }
    }

    pub fn as_i64(&self) -> (r: Option<i64>)
        ensures
            r == self@.as_signed(),
    {
        match self {
            Json::Unsigned(value) => if *value <= i64::MAX as u64 {
                Some(*value as i64)
            } else {
                None
            },
            Json::Negative(value) => Some(*value),
            _ => None,
        }
    }

    /// The text of the member `key`.
    pub fn str_at(&self, key: &str) -> (r: Option<&str>)
        ensures
            optional_str(r) == self@.text_at(key@),
    {
        match self.get(key) {
            Some(value) => value.as_str(),
            None => None,
        }
    }

    /// The part `key` of a record of `count` parts, which is an object or a list.
    pub fn part(&self, key: &str, at: usize, count: usize) -> (r: Option<&Json>)
        requires
            at < count,
        ensures
            optional_ref(r) == self@.part(key@, at as int, count as int),
    {
        match self {
            Json::Array(items) => {
                proof {
                    models_index(items@);
                }
                if items.len() == count {
                    Some(&items[at])
                } else {
                    None
                }
            },
            _ => self.get(key),
        }
    }

    /// The text of a part of a record.
    pub fn str_part(&self, key: &str, at: usize, count: usize) -> (r: Option<&str>)
        requires
            at < count,
        ensures
            optional_str(r) == self@.text_part(key@, at as int, count as int),
    {
        match self.part(key, at, count) {
            Some(value) => value.as_str(),
            None => None,
        }
    }

    /// The member `inner` of the member `outer`.
    pub fn get2(&self, outer: &str, inner: &str) -> (r: Option<&Json>)
        ensures
            optional_ref(r) == self@.get2(outer@, inner@),
    {
        match self.get(outer) {
            Some(value) => value.get(inner),
            None => None,
        }
    }

    pub fn text(text: &str) -> (r: Json)
        ensures
            r@ == JsonModel::Text(text@),
    {
        Json::Text(text.to_owned())
    }

    pub fn unsigned(value: u64) -> (r: Json)
        ensures
            r@ == JsonModel::Unsigned(value),
    {
        Json::Unsigned(value)
    }

    pub fn signed(value: i64) -> (r: Json)
        ensures
            r@ == signed_model(value),
    {
        if value >= 0 {
            Json::Unsigned(value as u64)
        } else {
            Json::Negative(value)
        }
    }

    /// A text, or null where there is none.
    pub fn text_or_null(text: &Option<String>) -> (r: Json)
        ensures
            r@ == text_or_null_model(optional_text(*text)),
    {
        match text {
            Some(text) => Json::Text(text.clone()),
            None => Json::Null,
        }
    }

    pub fn array(items: Vec<Json>) -> (r: Json)
        ensures
            r@ == JsonModel::Array(models(items@)),
    {
        Json::Array(items)
    }
}

/// A signed number: a nonnegative one is the same value as an unsigned one.
pub open spec fn signed_model(value: i64) -> JsonModel {
    if value >= 0 {
        JsonModel::Unsigned(value as u64)
    } else {
        JsonModel::Negative(value)
    }
}

pub open spec fn text_or_null_model(text: Option<Seq<char>>) -> JsonModel {
    match text {
        Some(text) => JsonModel::Text(text),
        None => JsonModel::Null,
    }
}

/// The members of an empty object.
pub open spec fn no_fields() -> Seq<(Seq<char>, JsonModel)> {
    Seq::empty()
}

/// The items of an empty array.
pub open spec fn no_items() -> Seq<JsonModel> {
    Seq::empty()
}

/// An object under construction.
pub struct JsonObject {
    pub fields: Vec<(String, Json)>,
}

impl View for JsonObject {
    type V = Seq<(Seq<char>, JsonModel)>;

    open spec fn view(&self) -> Seq<(Seq<char>, JsonModel)> {
        members(self.fields@)
    }
}

impl JsonObject {
    pub fn new() -> (r: JsonObject)
        ensures
            r@ == no_fields(),
    {
        JsonObject { fields: Vec::new() }
    }

    /// The object with one more member.
    pub fn with(self, key: &str, value: Json) -> (r: JsonObject)
        ensures
            r@ == self@.push((key@, value@)),
    {
        let mut fields = self.fields;
        fields.push((key.to_owned(), value));
        proof {
            assert(fields@.drop_last() =~= self.fields@);
        }
        JsonObject { fields }
    }

    pub fn done(self) -> (r: Json)
        ensures
            r@ == JsonModel::Object(self@),
    {
        Json::Object(self.fields)
    }
}

/// An array under construction.
pub struct JsonArray {
    pub items: Vec<Json>,
}

impl View for JsonArray {
    type V = Seq<JsonModel>;

    open spec fn view(&self) -> Seq<JsonModel> {
        models(self.items@)
    }
}

impl JsonArray {
    pub fn new() -> (r: JsonArray)
        ensures
            r@ == no_items(),
    {
        JsonArray { items: Vec::new() }
    }

    /// The array with one more item.
    pub fn with(self, value: Json) -> (r: JsonArray)
        ensures
            r@ == self@.push(value@),
    {
        let mut items = self.items;
        items.push(value);
        proof {
            assert(items@.drop_last() =~= self.items@);
        }
        JsonArray { items }
    }

    pub fn done(self) -> (r: Json)
        ensures
            r@ == JsonModel::Array(self@),
    {
        Json::Array(self.items)
    }
}

/// The position of the first member of that name, or the number of members where there is none.
pub open spec fn place(fields: Seq<(Seq<char>, JsonModel)>, key: Seq<char>) -> int
    decreases fields.len(),
{
    if fields.len() == 0 || fields[0].0 == key {
        0
    } else {
        1 + place(fields.drop_first(), key)
    }
}

/// The members with `key` set to `value`: in the place of the member of that name, or behind the
/// others.
pub open spec fn with_member(
    fields: Seq<(Seq<char>, JsonModel)>,
    key: Seq<char>,
    value: JsonModel,
) -> Seq<(Seq<char>, JsonModel)> {
    let at = place(fields, key);
    if at < fields.len() {
        fields.update(at, (key, value))
    } else {
        fields.push((key, value))
    }
}

/// An object with `key` set to `value`; another value stays what it is.
pub open spec fn with_value(object: JsonModel, key: Seq<char>, value: JsonModel) -> JsonModel {
    match object {
        JsonModel::Object(fields) => JsonModel::Object(with_member(fields, key, value)),
        _ => object,
    }
}

proof fn lemma_place(fields: Seq<(Seq<char>, JsonModel)>, key: Seq<char>)
    ensures
        0 <= place(fields, key) <= fields.len(),
        forall|i: int| 0 <= i < place(fields, key) ==> (#[trigger] fields[i]).0 != key,
        place(fields, key) < fields.len() ==> fields[place(fields, key)].0 == key && member(
            fields,
            key,
        ) == Some(fields[place(fields, key)].1),
        place(fields, key) == fields.len() ==> member(fields, key) is None,
    decreases fields.len(),
{
    if fields.len() > 0 && fields[0].0 != key {
        let rest = fields.drop_first();
        lemma_place(rest, key);
        assert forall|i: int| 0 <= i < place(fields, key) implies (#[trigger] fields[i]).0
            != key by {
            if i > 0 {
                assert(rest[i - 1] == fields[i]);
            }
        }
    }
}

proof fn lemma_member_at(fields: Seq<(Seq<char>, JsonModel)>, key: Seq<char>, at: int)
    requires
        0 <= at < fields.len(),
        fields[at].0 == key,
        forall|i: int| 0 <= i < at ==> (#[trigger] fields[i]).0 != key,
    ensures
        member(fields, key) == Some(fields[at].1),
{
    lemma_place(fields, key);
}

/// A member that was set is found under its name, and the others stay what they were.
pub proof fn setting_a_member_keeps_the_others(
    fields: Seq<(Seq<char>, JsonModel)>,
    key: Seq<char>,
    value: JsonModel,
    other: Seq<char>,
)
    ensures
        member(with_member(fields, key, value), other) == (if other == key {
            Some(value)
        } else {
            member(fields, other)
        }),
{
    let after = with_member(fields, key, value);
    let at = place(fields, key);
    lemma_place(fields, key);
    lemma_place(fields, other);
    lemma_place(after, other);
    if other == key {
        lemma_member_at(after, key, at);
    } else {
        let from = place(fields, other);
        if from < fields.len() {
            assert(after[from] == fields[from]);
            assert forall|i: int| 0 <= i < from implies (#[trigger] after[i]).0 != other by {
                assert(fields[i].0 != other);
            }
            lemma_member_at(after, other, from);
        } else {
            let there = place(after, other);
            if there < after.len() {
                assert(after[there].0 == other);
                if there < fields.len() {
                    assert(fields[there].0 != other);
                }
            }
        }
    }
}

/// A member that is found stands somewhere.
pub proof fn members_are_found(fields: Seq<(Seq<char>, JsonModel)>, key: Seq<char>)
    ensures
        member(fields, key) is Some <==> exists|i: int|
            0 <= i < fields.len() && (#[trigger] fields[i]).0 == key,
{
    lemma_place(fields, key);
}

impl Json {
    /// An object with `key` set to `value`; another value stays what it is.
    pub fn with_value(self, key: &str, value: Json) -> (r: Json)
        ensures
            r@ == with_value(self@, key@, value@),
    {
        match self {
            Json::Object(fields) => {
                let mut fields = fields;
                let ghost before = fields@;
                let mut at: usize = 0;
                proof {
                    members_index(before);
                    assert(members(before).skip(0) =~= members(before));
                }
                while at < fields.len() && !same(&fields[at].0, key)
                    invariant
                        at <= fields.len(),
                        fields@ == before,
                        place(members(before), key@) == at + place(
                            members(before).skip(at as int),
                            key@,
                        ),
                    decreases fields.len() - at,
                {
                    proof {
                        members_index(before);
                        assert(members(before).skip(at as int).drop_first() =~= members(
                            before,
                        ).skip(at + 1));
                    }
                    at = at + 1;
                }
                proof {
                    members_index(before);
                }
                if at < fields.len() {
                    fields.set(at, (key.to_owned(), value));
                    proof {
                        members_index(fields@);
                        assert(members(fields@) =~= with_member(members(before), key@, value@));
                    }
                } else {
                    fields.push((key.to_owned(), value));
                    proof {
                        assert(fields@.drop_last() =~= before);
                    }
                }
                Json::Object(fields)
            },
            other => other,
        }
    }
}

/// The value that a JSON text stands for, as `serde_json::from_str` reads it; none where it
/// reports an error.
pub uninterp spec fn json_value(text: Seq<char>) -> Option<JsonModel>;

/// The JSON text of a value in one line, as the `Display` of `serde_json::Value` writes it.
pub uninterp spec fn json_text(value: JsonModel) -> Seq<char>;

/// The JSON text of a value over several lines, as the alternate `Display` of `serde_json::Value`
/// writes it.
pub uninterp spec fn json_pretty(value: JsonModel) -> Seq<char>;

/// `serde_json::Value`, which the functions below convert to and from.
#[verifier::external_type_specification]
#[verifier::external_body]
pub struct ExSerdeValue(serde_json::Value);

/// The same value in the form of `serde_json::Value`, variant by variant.
#[verifier::external_body]
pub(crate) fn to_value(value: &Json) -> Value {
    match value {
        Json::Null => Value::Null,
        Json::Bool(value) => Value::from(*value),
        Json::Unsigned(value) => Value::from(*value),
        Json::Negative(value) => Value::from(*value),
        Json::Decimal(text) => text.parse().map_or(Value::Null, Value::Number),
        Json::Text(text) => Value::String(text.clone()),
        Json::Array(items) => items.iter().map(to_value).collect(),
        Json::Object(fields) => fields.iter().map(|f| (f.0.clone(), to_value(&f.1))).collect(),
    }
}

/// The same value in the form of the library, variant by variant.
#[verifier::external_body]
fn from_value(value: Value) -> Json {
    match value {
        Value::Null => Json::Null,
        Value::Bool(value) => Json::Bool(value),
        Value::Number(n) if n.is_u64() => n.as_u64().map_or(Json::Null, Json::Unsigned),
        Value::Number(n) if n.is_i64() => n.as_i64().map_or(Json::Null, Json::Negative),
        Value::Number(n) => Json::Decimal(n.to_string()),
        Value::String(text) => Json::Text(text),
        Value::Array(items) => Json::Array(items.into_iter().map(from_value).collect()),
        Value::Object(fields) =>
            Json::Object(fields.into_iter().map(|f| (f.0, from_value(f.1))).collect()),
    }
}

/// `serde_json::from_str`: the value that `text` stands for.
#[verifier::external_body]
pub(crate) fn parse_json(text: &str) -> (r: Option<Json>)
    ensures
        optional(r) == json_value(text@),
{
    serde_json::from_str::<Value>(text).ok().map(from_value)
}

/// `Display` of `serde_json::Value`, which writes what `serde_json::to_string` does: the JSON text of
/// a value in one line.
#[verifier::external_body]
pub(crate) fn compact_text(value: &Json) -> (r: String)
    ensures
        r@ == json_text(value@),
{
    to_value(value).to_string()
}

/// `Display` of `serde_json::Value` with `{:#}`, which writes what `serde_json::to_string_pretty`
/// does: the JSON text of a value over several lines.
#[verifier::external_body]
pub(crate) fn pretty_text(value: &Json) -> (r: String)
    ensures
        r@ == json_pretty(value@),
{
    format!("{:#}", to_value(value))
}

/// The value that bytes stand for as JSON; they are UTF-8.
pub open spec fn json_in_bytes(bytes: Seq<u8>) -> Option<JsonModel> {
    if valid_utf8(bytes) {
        json_value(decode_utf8(bytes))
    } else {
        None
    }
}

/// Reads bytes as JSON.
pub fn parse_bytes(bytes: &Vec<u8>) -> (r: Option<Json>)
    ensures
        optional(r) == json_in_bytes(bytes@),
{
    let copy = copy_range(bytes, 0, bytes.len());
    proof {
        assert(copy@ =~= bytes@);
    }
    match utf8_text(copy) {
        Some(text) => {
            proof {
                vstd::utf8::encode_utf8_valid_utf8(text@);
                vstd::utf8::encode_utf8_decode_utf8(text@);
            }
            parse_json(&text)
        },
        None => None,
    }
}

/// In a list of members with different names each is found under its name.
pub proof fn named_members_are_found(fields: Seq<(Seq<char>, JsonModel)>)
    requires
        forall|i: int, j: int| 0 <= i < j < fields.len() ==> fields[i].0 != fields[j].0,
    ensures
        forall|i: int| 0 <= i < fields.len() ==> member(fields, (#[trigger] fields[i]).0) == Some(
            fields[i].1,
        ),
        forall|key: Seq<char>|
            (forall|i: int| 0 <= i < fields.len() ==> (#[trigger] fields[i]).0 != key) ==> (
            #[trigger] member(fields, key)) is None,
{
    assert forall|i: int| 0 <= i < fields.len() implies member(fields, (#[trigger] fields[i]).0)
        == Some(fields[i].1) by {
        lemma_member_at(fields, fields[i].0, i);
    }
    assert forall|key: Seq<char>|
        (forall|i: int| 0 <= i < fields.len() ==> (#[trigger] fields[i]).0 != key) implies (
    #[trigger] member(fields, key)) is None by {
        members_are_found(fields, key);
    }
}

/// A member that is put behind others is found unless one of its name stands before it.
pub proof fn members_behind_are_found(
    fields: Seq<(Seq<char>, JsonModel)>,
    key: Seq<char>,
    value: JsonModel,
)
    ensures
        forall|other: Seq<char>| #[trigger]
            member(fields.push((key, value)), other) == if member(fields, other) is Some {
                member(fields, other)
            } else if other == key {
                Some(value)
            } else {
                None
            },
    decreases fields.len(),
{
    let after = fields.push((key, value));
    assert forall|other: Seq<char>| #[trigger] member(after, other) == if member(
        fields,
        other,
    ) is Some {
        member(fields, other)
    } else if other == key {
        Some(value)
    } else {
        None
    } by {
        if fields.len() == 0 {
            assert(after.drop_first() =~= Seq::empty());
            assert(after[0] == (key, value));
            assert(member(after.drop_first(), other) is None);
        } else {
            members_behind_are_found(fields.drop_first(), key, value);
            assert(after.drop_first() =~= fields.drop_first().push((key, value)));
            assert(after[0] == fields[0]);
        }
    }
}

/// What a value is read as: a text, a flag or a whole number is read as what it is and as nothing
/// else, and a number only where it fits.
pub proof fn values_are_read_as_what_they_are(value: JsonModel, key: Seq<char>)
    ensures
        value.as_text() is Some <==> value is Text,
        value matches JsonModel::Text(text) ==> value.as_text() == Some(text),
        value matches JsonModel::Bool(flag) ==> value.as_bool() == Some(flag),
        value.as_bool() is Some <==> value is Bool,
        value matches JsonModel::Unsigned(number) ==> value.as_unsigned() == Some(number),
        value.as_unsigned() is Some <==> value is Unsigned,
        value matches JsonModel::Unsigned(number) ==> value.as_signed() == if number
            <= 9223372036854775807 {
            Some(number as i64)
        } else {
            None
        },
        value matches JsonModel::Negative(number) ==> value.as_signed() == Some(number),
        !(value is Unsigned || value is Negative) ==> value.as_signed() is None,
        value.get(key) matches Some(JsonModel::Text(text)) ==> value.text_at(key) == Some(text),
        !(value.get(key) matches Some(JsonModel::Text(_))) ==> value.text_at(key) is None,
        !(value is Object) ==> value.get(key) is None,
        forall|number: i64| (#[trigger] signed_model(number)).as_signed() == Some(number),
        forall|text: Seq<char>| #[trigger]
            text_or_null_model(Some(text)) == JsonModel::Text(text),
        text_or_null_model(None) == JsonModel::Null,
{
}

/// A record is read alike from an object with the parts under their names and from a list of the
/// parts; a list of another length is no record.
pub proof fn records_are_objects_or_lists(
    value: JsonModel,
    items: Seq<JsonModel>,
    key: Seq<char>,
    at: int,
    count: int,
)
    requires
        0 <= at < count,
    ensures
        value is Object ==> value.part(key, at, count) == value.get(key),
        value == JsonModel::Array(items) && items.len() == count ==> value.part(key, at, count)
            == Some(items[at]),
        value == JsonModel::Array(items) && items.len() != count ==> value.part(
            key,
            at,
            count,
        ) is None,
{
}

/// Bytes are JSON exactly where they are the UTF-8 form of a text that is, and then stand for the
/// same value.
pub proof fn bytes_are_json_if_their_text_is(text: Seq<char>, bytes: Seq<u8>)
    ensures
        json_in_bytes(encode_utf8(text)) == json_value(text),
        !valid_utf8(bytes) ==> json_in_bytes(bytes) is None,
{
    encode_utf8_valid_utf8(text);
    encode_utf8_decode_utf8(text);
}

/// Setting a member makes a difference to objects only.
pub proof fn only_objects_have_members(
    object: JsonModel,
    key: Seq<char>,
    value: JsonModel,
    other: Seq<char>,
)
    ensures
        !(object is Object) ==> with_value(object, key, value) == object,
        object is Object ==> with_value(object, key, value).get(key) == Some(value),
        object is Object && other != key ==> with_value(object, key, value).get(other)
            == object.get(other),
{
    if object is Object {
        setting_a_member_keeps_the_others(object->Object_0, key, value, key);
        setting_a_member_keeps_the_others(object->Object_0, key, value, other);
    }
}

} // verus!
