//! How a request to a provider is made: where it goes and what it carries.
use vstd::prelude::*;

use crate::json::{members, members_are_found, members_index, optional_text, Json, JsonModel};
use crate::paths::{strip_trailing, without_trailing};
use crate::profiles::ModelLimits;
use crate::providers::{AuthProvider, ProfileTemplate, TemplateModel};
use crate::text::join3;
use crate::text_map::TextMap;

verus! {

/// The headers that an object names: its members that are texts.
pub open spec fn headers_of(value: JsonModel) -> Map<Seq<char>, Seq<char>> {
    Map::new(|key: Seq<char>| value.text_at(key) is Some, |key: Seq<char>| value.text_at(key)->0)
}

/// The texts of a map.
pub open spec fn header_texts(headers: TextMap<String>) -> Map<Seq<char>, Seq<char>> {
    headers@.map_values(|text: String| text@)
}

/// The headers with those of another object over them.
fn add_headers(headers: TextMap<String>, value: &Json) -> (r: TextMap<String>)
    requires
        headers.well_formed(),
    ensures
        r.well_formed(),
        header_texts(r) == header_texts(headers).union_prefer_right(headers_of(value@)),
{
    let mut out = headers;
    match value {
        Json::Object(fields) => {
            let ghost names = members(fields@);
            proof {
                members_index(fields@);
            }
            let mut i: usize = 0;
            while i < fields.len()
                invariant
                    i <= fields.len(),
                    *value == Json::Object(*fields),
                    names == members(fields@),
                    names.len() == fields@.len(),
                    forall|j: int|
                        0 <= j < fields@.len() ==> (#[trigger] names[j]).0 == fields@[j].0@,
                    out.well_formed(),
                    forall|key: Seq<char>| #[trigger]
                        out@.contains_key(key) <==> headers@.contains_key(key) || (
                        value@.text_at(key) is Some && exists|j: int|
                            0 <= j < i && (#[trigger] names[j]).0 == key),
                    forall|key: Seq<char>| #[trigger]
                        out@.contains_key(key) ==> out@[key]@ == if value@.text_at(key) is Some
                            && (exists|j: int| 0 <= j < i && (#[trigger] names[j]).0 == key) {
                            value@.text_at(key)->0
                        } else {
                            headers@[key]@
                        },
                decreases fields.len() - i,
            {
                let ghost before = out@;
                let ghost here = names[i as int].0;
                proof {
                    assert(here == fields@[i as int].0@);
                }
                if let Some(text) = value.str_at(&fields[i].0) {
                    let copy = text.to_owned();
                    out.insert(&fields[i].0, copy);
                    proof {
                        assert forall|key: Seq<char>| #[trigger]
                            out@.contains_key(key) implies out@[key]@ == if value@.text_at(
                            key,
                        ) is Some && (exists|j: int|
                            0 <= j < i + 1 && (#[trigger] names[j]).0 == key) {
                            value@.text_at(key)->0
                        } else {
                            headers@[key]@
                        } by {
                            if key == here {
                                assert(names[i as int].0 == key);
                            } else {
                                assert(before.contains_key(key));
                                assert(out@[key] == before[key]);
                            }
                        }
                    }
                }
                i = i + 1;
            }
            proof {
                let all = header_texts(headers).union_prefer_right(headers_of(value@));
                assert forall|key: Seq<char>|
                    header_texts(out).contains_key(key) == all.contains_key(key) by {
                    members_are_found(names, key);
                    assert(out@.contains_key(key) <==> header_texts(out).contains_key(key));
                }
                assert forall|key: Seq<char>| #[trigger]
                    header_texts(out).contains_key(key) implies header_texts(out)[key]
                    == all[key] by {
                    members_are_found(names, key);
                    assert(out@.contains_key(key));
                }
                assert(header_texts(out) =~= all);
            }
        },
        _ => {
            proof {
                assert(header_texts(out) =~= header_texts(headers).union_prefer_right(
                    headers_of(value@),
                ));
            }
        },
    }
    out
}

/// The headers that an object names.
pub fn headers_from_value(value: &Json) -> (r: TextMap<String>)
    ensures
        r.well_formed(),
        header_texts(r) == headers_of(value@),
{
    let none: TextMap<String> = TextMap::new();
    proof {
        assert(header_texts(none).union_prefer_right(headers_of(value@)) =~= headers_of(value@));
    }
    add_headers(none, value)
}

/// Where requests of a profile go: its own address, or that of the template.
pub open spec fn address(document: JsonModel, template: TemplateModel) -> Seq<char> {
    without_trailing(
        match document.text_at("base_url"@) {
            Some(url) => url,
            None => template.base_url,
        },
        '/',
    )
}

/// The headers of a profile: those of the template with the profile's own over them.
pub open spec fn profile_headers(document: JsonModel, template: TemplateModel) -> Map<
    Seq<char>,
    Seq<char>,
> {
    match document.get("headers"@) {
        Some(own) => headers_of(template.headers).union_prefer_right(headers_of(own)),
        None => headers_of(template.headers),
    }
}

/// Where requests of a profile go and the headers that they carry.
pub fn prepare_endpoint<P: AuthProvider>(
    provider: &P,
    document: &Json,
    template: &ProfileTemplate,
) -> (r: (String, TextMap<String>))
    ensures
        r.0@ == address(provider.decorated(document@), template@),
        r.1.well_formed(),
        header_texts(r.1) == profile_headers(provider.decorated(document@), template@),
{
    let decorated = provider.decorate_document(document.clone());
    let base_url = match decorated.str_at("base_url") {
        Some(url) => strip_trailing(url, '/'),
        None => strip_trailing(&template.base_url, '/'),
    };
    let mut headers = headers_from_value(&template.headers);
    if let Some(own) = decorated.get("headers") {
        headers = add_headers(headers, own);
    }
    (base_url, headers)
}

/// The model of a profile that a session selected.
#[derive(Debug)]
pub struct SelectedModel {
    pub api: String,
    pub streaming: bool,
    pub parallel_tool_calls: bool,
    pub service_tier: Option<String>,
    pub limits: Option<ModelLimits>,
}

/// All that a request to a provider needs.
pub struct ProviderExecution {
    pub profile_id: String,
    pub provider: String,
    pub model: String,
    pub api: String,
    pub streaming: bool,
    pub parallel_tool_calls: bool,
    pub service_tier: Option<String>,
    pub thinking: String,
    pub limits: ModelLimits,
    pub base_url: String,
    pub headers: TextMap<String>,
    pub bearer: String,
}

/// A profile as it is kept.
pub struct StoredProfile {
    pub provider: String,
    pub billing: String,
    pub auth: Json,
    /// The whole profile, the other fields with it.
    pub document: Json,
}

/// Why a profile cannot be used, in the order in which it is found out.
pub open spec fn execution_error<P: AuthProvider>(
    provider: P,
    profile: StoredProfile,
    model: Seq<char>,
    selected: SelectedModel,
) -> Option<Seq<char>> {
    if selected.limits is None {
        Some("model "@ + model + " does not declare token limits"@)
    } else {
        match provider.offered(profile.billing@) {
            Err(error) => Some(error),
            Ok(_) => match provider.carried(profile.auth@) {
                Err(error) => Some(error),
                Ok(_) => None,
            },
        }
    }
}

/// The model of a selection with its limits, which a request needs.
pub fn selected_limits(selected: &SelectedModel, model: &str) -> (r: Result<ModelLimits, String>)
    ensures
        match r {
            Ok(limits) => selected.limits == Some(limits),
            Err(error) => selected.limits is None && error@ == "model "@ + model@
                + " does not declare token limits"@,
        },
{
    match &selected.limits {
        Some(limits) => Ok(*limits),
        None => Err(join3("model ", model, " does not declare token limits")),
    }
}

/// All that a request of a session needs, from its profile with credentials that are fresh.
pub fn load_selected<P: AuthProvider>(
    provider: &P,
    profile_id: &str,
    profile: &StoredProfile,
    model: &str,
    thinking: &str,
    selected: &SelectedModel,
) -> (r: Result<ProviderExecution, String>)
    ensures
        match r {
            Ok(execution) => {
                &&& execution_error(*provider, *profile, model@, *selected) is None
                &&& execution.profile_id@ == profile_id@
                &&& execution.provider@ == profile.provider@
                &&& execution.model@ == model@
                &&& execution.api@ == selected.api@
                &&& execution.streaming == selected.streaming
                &&& execution.parallel_tool_calls == selected.parallel_tool_calls
                &&& optional_text(execution.service_tier) == optional_text(selected.service_tier)
                &&& execution.thinking@ == thinking@
                &&& Some(execution.limits) == selected.limits
                &&& execution.base_url@ == address(
                    provider.decorated(profile.document@),
                    provider.offered(profile.billing@)->Ok_0,
                )
                &&& execution.headers.well_formed()
                &&& header_texts(execution.headers) == profile_headers(
                    provider.decorated(profile.document@),
                    provider.offered(profile.billing@)->Ok_0,
                )
                &&& provider.carried(profile.auth@) == Ok::<Seq<char>, Seq<char>>(execution.bearer@)
            },
            Err(error) => execution_error(*provider, *profile, model@, *selected) == Some(error@),
        },
{
    let limits = match selected_limits(selected, model) {
        Ok(limits) => limits,
        Err(error) => {
            return Err(error);
        },
    };
    let template = match provider.template(&profile.billing) {
        Ok(template) => template,
        Err(error) => {
            return Err(error);
        },
    };
    let (base_url, headers) = prepare_endpoint(provider, &profile.document, &template);
    let bearer = match provider.bearer(&profile.auth) {
        Ok(bearer) => bearer,
        Err(error) => {
            return Err(error);
        },
    };
    let service_tier = match &selected.service_tier {
        Some(tier) => Some(tier.clone()),
        None => None,
    };
    Ok(
        ProviderExecution {
            profile_id: profile_id.to_owned(),
            provider: profile.provider.clone(),
            model: model.to_owned(),
            api: selected.api.clone(),
            streaming: selected.streaming,
            parallel_tool_calls: selected.parallel_tool_calls,
            service_tier,
            thinking: thinking.to_owned(),
            limits,
            base_url,
            headers,
            bearer,
        },
    )
}

/// What a profile says of a header goes before what its template says.
pub proof fn own_headers_win(document: JsonModel, template: TemplateModel, name: Seq<char>)
    requires
        document.get("headers"@) is Some,
        document.get("headers"@)->0.text_at(name) is Some,
    ensures
        profile_headers(document, template).contains_key(name),
        profile_headers(document, template)[name] == document.get("headers"@)->0.text_at(name)->0,
{
}

/// A request carries a header of the profile as the profile says it, and any other header as the
/// template says it; it carries no others.
pub proof fn requests_carry_the_named_headers(
    document: JsonModel,
    template: TemplateModel,
    name: Seq<char>,
)
    ensures
        ({
            let own = match document.get("headers"@) {
                Some(headers) => headers.get(name),
                None => None,
            };
            let headers = profile_headers(document, template);
            &&& own matches Some(JsonModel::Text(value)) ==> headers.contains_key(name)
                && headers[name] == value
            &&& !(own matches Some(JsonModel::Text(_))) ==> match template.headers.get(name) {
                Some(JsonModel::Text(value)) => headers.contains_key(name) && headers[name]
                    == value,
                _ => !headers.contains_key(name),
            }
        }),
{
}

/// Requests go to the address of the profile, or to that of the template where the profile names
/// none, without the slashes at its end.
pub proof fn requests_go_to_the_own_address(document: JsonModel, template: TemplateModel)
    ensures
        document.get("base_url"@) matches Some(JsonModel::Text(url)) ==> address(document, template)
            == without_trailing(url, '/'),
        !(document.get("base_url"@) matches Some(JsonModel::Text(_))) ==> address(document, template)
            == without_trailing(template.base_url, '/'),
{
}

/// A profile can be used exactly where the model has its limits, the provider offers the billing and
/// there is a credential; else the first of these that fails is told.
pub proof fn usable_profiles_are_complete<P: AuthProvider>(
    provider: P,
    profile: StoredProfile,
    model: Seq<char>,
    selected: SelectedModel,
)
    ensures
        execution_error(provider, profile, model, selected) is None <==> {
            &&& selected.limits is Some
            &&& provider.offered(profile.billing@) is Ok
            &&& provider.carried(profile.auth@) is Ok
        },
        selected.limits is None ==> execution_error(provider, profile, model, selected) == Some(
            "model "@ + model + " does not declare token limits"@,
        ),
        selected.limits is Some && provider.offered(profile.billing@) is Err ==> execution_error(
            provider,
            profile,
            model,
            selected,
        ) == Some(provider.offered(profile.billing@)->Err_0),
        selected.limits is Some && provider.offered(profile.billing@) is Ok && provider.carried(
            profile.auth@,
        ) is Err ==> execution_error(provider, profile, model, selected) == Some(
            provider.carried(profile.auth@)->Err_0,
        ),
{
}

} // verus!
