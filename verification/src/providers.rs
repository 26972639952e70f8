//! What every provider of models offers: its templates, its credentials and how it is asked.
use vstd::prelude::*;

use crate::inbound::{filled, nonempty};
use crate::json::{optional_text, Json, JsonModel};
use crate::text::{is_blank, trimmed};

verus! {

/// A way in which a provider is paid.
#[derive(Clone, Copy, Debug)]
pub struct BillingKind {
    pub id: &'static str,
    pub label: &'static str,
}

/// A provider as it is listed.
#[derive(Debug)]
pub struct ProviderInfo {
    pub id: &'static str,
    pub label: &'static str,
    pub billing: Vec<BillingKind>,
}

/// What a listed provider is.
pub struct InfoModel {
    pub id: Seq<char>,
    pub label: Seq<char>,
    pub billing: Seq<(Seq<char>, Seq<char>)>,
}

impl View for ProviderInfo {
    type V = InfoModel;

    open spec fn view(&self) -> InfoModel {
        InfoModel {
            id: self.id@,
            label: self.label@,
            billing: self.billing@.map_values(|kind: BillingKind| (kind.id@, kind.label@)),
        }
    }
}

/// What a new profile starts from.
#[derive(Debug)]
pub struct ProfileTemplate {
    pub provider: String,
    pub billing: String,
    pub base_url: String,
    pub headers: Json,
    pub models: Json,
}

/// What a template is.
pub struct TemplateModel {
    pub provider: Seq<char>,
    pub billing: Seq<char>,
    pub base_url: Seq<char>,
    pub headers: JsonModel,
    pub models: JsonModel,
}

impl View for ProfileTemplate {
    type V = TemplateModel;

    open spec fn view(&self) -> TemplateModel {
        TemplateModel {
            provider: self.provider@,
            billing: self.billing@,
            base_url: self.base_url@,
            headers: self.headers@,
            models: self.models@,
        }
    }
}

/// What a template or the reason why there is none is.
pub open spec fn template_result(value: Result<ProfileTemplate, String>) -> Result<
    TemplateModel,
    Seq<char>,
> {
    match value {
        Ok(template) => Ok(template@),
        Err(error) => Err(error@),
    }
}

/// What a text or the reason why there is none is.
pub open spec fn text_result(value: Result<String, String>) -> Result<Seq<char>, Seq<char>> {
    match value {
        Ok(text) => Ok(text@),
        Err(error) => Err(error@),
    }
}

/// What is known of an account and of what is left of it.
#[derive(Debug)]
pub struct QuotaSnapshot {
    pub account: Json,
    pub rate_limits: Json,
    pub auth: Option<Json>,
}

/// The text of a member that is not blank.
pub open spec fn filled_member(value: JsonModel, key: Seq<char>) -> Option<Seq<char>> {
    filled(value.text_at(key))
}

pub(crate) fn filled_at(value: &Json, key: &str) -> (r: Option<String>)
    ensures
        optional_text(r) == filled_member(value@, key@),
{
    nonempty(value.str_at(key))
}

/// The first of two credentials that is there.
pub open spec fn first_filled(
    auth: JsonModel,
    first: Seq<char>,
    second: Seq<char>,
    missing: Seq<char>,
) -> Result<Seq<char>, Seq<char>> {
    match filled_member(auth, first) {
        Some(text) => Ok(text),
        None => match filled_member(auth, second) {
            Some(text) => Ok(text),
            None => Err(missing),
        },
    }
}

pub(crate) fn credential(auth: &Json, first: &str, second: &str, missing: &str) -> (r: Result<
    String,
    String,
>)
    ensures
        text_result(r) == first_filled(auth@, first@, second@, missing@),
{
    match filled_at(auth, first) {
        Some(text) => Ok(text),
        None => match filled_at(auth, second) {
            Some(text) => Ok(text),
            None => Err(missing.to_owned()),
        },
    }
}

/// Whether an HTTP status says that a request succeeded.
pub open spec fn is_success(status: u16) -> bool {
    200 <= status < 300
}

/// A provider of models.
pub trait AuthProvider {
    /// How the provider is listed.
    spec fn listed(&self) -> InfoModel;

    /// What a profile with that billing starts from, or why there is none.
    spec fn offered(&self, billing: Seq<char>) -> Result<TemplateModel, Seq<char>>;

    /// A profile with what the provider adds to it.
    spec fn decorated(&self, document: JsonModel) -> JsonModel;

    /// The credential that a request carries, or why there is none.
    spec fn carried(&self, auth: JsonModel) -> Result<Seq<char>, Seq<char>>;

    /// Whether one can log in with a code shown on another device.
    spec fn has_device_code(&self, billing: Seq<char>) -> bool;

    fn info(&self) -> (r: ProviderInfo)
        ensures
            r@ == self.listed(),
    ;

    fn template(&self, billing: &str) -> (r: Result<ProfileTemplate, String>)
        ensures
            template_result(r) == self.offered(billing@),
    ;

    fn decorate_document(&self, document: Json) -> (r: Json)
        ensures
            r@ == self.decorated(document@),
    ;

    fn bearer(&self, auth: &Json) -> (r: Result<String, String>)
        ensures
            text_result(r) == self.carried(auth@),
    ;

    fn supports_device_code(&self, billing: &str) -> (r: bool)
        ensures
            r == self.has_device_code(billing@),
    ;
}

/// Whether an object holds no text of that name that says something.
pub open spec fn lacks(value: JsonModel, key: Seq<char>) -> bool {
    value.get(key) is Some && value.get(key)->0 is Text ==> is_blank(value.get(key)->0->Text_0)
}

/// A credential is the first of two that is there and not blank, without the white space around it;
/// where neither is, that is said. A request succeeded if its status is one of the two hundreds.
pub proof fn credentials_are_found_by_name(
    auth: JsonModel,
    first: Seq<char>,
    second: Seq<char>,
    missing: Seq<char>,
    text: Seq<char>,
    status: u16,
)
    ensures
        auth.get(first) == Some(JsonModel::Text(text)) && !is_blank(text) ==> first_filled(
            auth,
            first,
            second,
            missing,
        ) == Ok::<Seq<char>, Seq<char>>(trimmed(text)),
        lacks(auth, first) && auth.get(second) == Some(JsonModel::Text(text)) && !is_blank(text)
            ==> first_filled(auth, first, second, missing) == Ok::<Seq<char>, Seq<char>>(
            trimmed(text),
        ),
        lacks(auth, first) && lacks(auth, second) ==> first_filled(auth, first, second, missing)
            == Err::<Seq<char>, Seq<char>>(missing),
        is_success(status) <==> status / 100 == 2,
{
}

} // verus!
