//! The gateway's side of the agent's interface: which profile a session gets, and what the agent's
//! answers mean.
use vstd::prelude::*;

use crate::api::{ApiErrorCode, ApiErrorDetail, SelectionModel, SessionSelection, SessionView};
use crate::config::{loopback, loopback_base_url, ContextConfig};
use crate::json::{optional, optional_ref, Json, JsonModel};
use crate::text::{join2, join3, less, less_total, less_transitive, same, text_less};

verus! {

/// A model of a profile.
#[derive(Debug)]
pub struct AgentModel {
    pub id: String,
    pub thinking: Vec<String>,
    pub default_thinking: String,
    pub default: bool,
}

/// A profile, as the agent lists it.
#[derive(Debug)]
pub struct AgentProfile {
    pub profile_id: String,
    pub billing: String,
    pub auth_configured: bool,
    pub account: Json,
    pub rate_limits: Json,
    pub models: Vec<AgentModel>,
}

/// Whether a list of texts holds `text`.
pub open spec fn holds(list: Seq<String>, text: Seq<char>) -> bool {
    exists|i: int| 0 <= i < list.len() && (#[trigger] list[i])@ == text
}

fn list_holds(list: &Vec<String>, text: &str) -> (r: bool)
    ensures
        r == holds(list@, text@),
{
    let mut i: usize = 0;
    while i < list.len()
        invariant
            i <= list.len(),
            forall|j: int| 0 <= j < i ==> (#[trigger] list@[j])@ != text@,
        decreases list.len() - i,
    {
        if same(&list[i], text) {
            return true;
        }
        i = i + 1;
    }
    false
}

/// Whether a profile can serve a model at a thinking level.
pub open spec fn serves(profile: AgentProfile, model: Seq<char>, thinking: Seq<char>) -> bool {
    profile.auth_configured && exists|i: int|
        0 <= i < profile.models@.len() && (#[trigger] profile.models@[i]).id@ == model && holds(
            profile.models@[i].thinking@,
            thinking,
        )
}

fn profile_serves(profile: &AgentProfile, model: &str, thinking: &str) -> (r: bool)
    ensures
        r == serves(*profile, model@, thinking@),
{
    if !profile.auth_configured {
        return false;
    }
    let mut i: usize = 0;
    while i < profile.models.len()
        invariant
            i <= profile.models.len(),
            profile.auth_configured,
            forall|j: int|
                0 <= j < i ==> !((#[trigger] profile.models@[j]).id@ == model@ && holds(
                    profile.models@[j].thinking@,
                    thinking@,
                )),
        decreases profile.models.len() - i,
    {
        if same(&profile.models[i].id, model) && list_holds(&profile.models[i].thinking, thinking) {
            return true;
        }
        i = i + 1;
    }
    false
}

/// What is left of a profile's quota, before it is turned into a number.
#[derive(Debug)]
pub enum ScoreSource {
    /// Nothing, or nothing is known.
    Nothing,
    /// No end to it.
    Unlimited,
    /// A balance: a number, or the text of one.
    Balance(Json),
    /// The percentage that is used.
    UsedPercent(Json),
}

/// What a score comes from.
pub enum SourceModel {
    Nothing,
    Unlimited,
    Balance(JsonModel),
    UsedPercent(JsonModel),
}

impl View for ScoreSource {
    type V = SourceModel;

    open spec fn view(&self) -> SourceModel {
        match self {
            ScoreSource::Nothing => SourceModel::Nothing,
            ScoreSource::Unlimited => SourceModel::Unlimited,
            ScoreSource::Balance(value) => SourceModel::Balance(value@),
            ScoreSource::UsedPercent(value) => SourceModel::UsedPercent(value@),
        }
    }
}

/// Whether a value is a number.
pub open spec fn is_number(value: JsonModel) -> bool {
    value is Unsigned || value is Negative || value is Decimal
}

/// The number of the member `usedPercent` of a window of the limits.
pub open spec fn used_percent(limits: JsonModel, window: Seq<char>) -> Option<JsonModel> {
    match limits.get2("rateLimits"@, window) {
        Some(window) => match window.get("usedPercent"@) {
            Some(value) => if is_number(value) {
                Some(value)
            } else {
                None
            },
            None => None,
        },
        None => None,
    }
}

/// Where the score of a profile comes from: the balance of its credits where it is billed by usage,
/// else what of its longer window is used, or of its shorter one.
pub open spec fn score_source_of(
    billing: Seq<char>,
    account: JsonModel,
    limits: JsonModel,
) -> SourceModel {
    if account.get("ok"@) != Some(JsonModel::Bool(true)) || limits.get("ok"@) != Some(
        JsonModel::Bool(true),
    ) {
        SourceModel::Nothing
    } else if billing == "usage"@ {
        match limits.get2("rateLimits"@, "credits"@) {
            Some(credits) => if credits.get("unlimited"@) == Some(JsonModel::Bool(true)) {
                SourceModel::Unlimited
            } else {
                match credits.get("balance"@) {
                    Some(balance) => if is_number(balance) || balance is Text {
                        SourceModel::Balance(balance)
                    } else {
                        SourceModel::Nothing
                    },
                    None => SourceModel::Nothing,
                }
            },
            None => SourceModel::Nothing,
        }
    } else {
        match used_percent(limits, "secondary"@) {
            Some(used) => SourceModel::UsedPercent(used),
            None => match used_percent(limits, "primary"@) {
                Some(used) => SourceModel::UsedPercent(used),
                None => SourceModel::Nothing,
            },
        }
    }
}

fn is_true(value: Option<&Json>) -> (r: bool)
    ensures
        r == (optional_ref(value) == Some(JsonModel::Bool(true))),
{
    match value {
        Some(Json::Bool(value)) => *value,
        _ => false,
    }
}

fn read_used(limits: &Json, window: &str) -> (r: Option<Json>)
    ensures
        optional(r) == used_percent(limits@, window@),
{
    match limits.get2("rateLimits", window) {
        Some(window) => match window.get("usedPercent") {
            Some(value) => match value {
                Json::Unsigned(_) | Json::Negative(_) | Json::Decimal(_) => Some(value.clone()),
                _ => None,
            },
            None => None,
        },
        None => None,
    }
}

/// Where the score of a profile comes from.
pub fn score_source(profile: &AgentProfile) -> (r: ScoreSource)
    ensures
        r@ == score_source_of(profile.billing@, profile.account@, profile.rate_limits@),
{
    if !is_true(profile.account.get("ok")) || !is_true(profile.rate_limits.get("ok")) {
        return ScoreSource::Nothing;
    }
    if same(&profile.billing, "usage") {
        let credits = match profile.rate_limits.get2("rateLimits", "credits") {
            Some(credits) => credits,
            None => {
                return ScoreSource::Nothing;
            },
        };
        if is_true(credits.get("unlimited")) {
            return ScoreSource::Unlimited;
        }
        return match credits.get("balance") {
            Some(balance) => match balance {
                Json::Unsigned(_) | Json::Negative(_) | Json::Decimal(_) | Json::Text(
                    _,
                ) => ScoreSource::Balance(balance.clone()),
                _ => ScoreSource::Nothing,
            },
            None => ScoreSource::Nothing,
        };
    }
    match read_used(&profile.rate_limits, "secondary") {
        Some(used) => ScoreSource::UsedPercent(used),
        None => match read_used(&profile.rate_limits, "primary") {
            Some(used) => ScoreSource::UsedPercent(used),
            None => ScoreSource::Nothing,
        },
    }
}

/// A profile with its score. Scores are compared and nothing else: any numbers that stand in the
/// order of what is left serve, zero for nothing.
#[derive(Debug)]
pub struct ScoredProfile {
    pub profile: AgentProfile,
    pub score: u64,
}

/// Whether the profile at `i` can serve what is asked.
pub open spec fn candidate(profiles: Seq<ScoredProfile>, asked: SelectionModel, i: int) -> bool {
    0 <= i < profiles.len() && serves(profiles[i].profile, asked.model, asked.thinking)
}

/// Whether the profile at `i` has something left.
pub open spec fn has_left(profiles: Seq<ScoredProfile>, asked: SelectionModel, i: int) -> bool {
    candidate(profiles, asked, i) && profiles[i].score > 0
}

/// Whether the profile at `i` is a subscription that has something left.
pub open spec fn is_subscription(
    profiles: Seq<ScoredProfile>,
    asked: SelectionModel,
    i: int,
) -> bool {
    has_left(profiles, asked, i) && profiles[i].profile.billing@ == "subscription"@
}

pub open spec fn any_left(profiles: Seq<ScoredProfile>, asked: SelectionModel) -> bool {
    exists|i: int| has_left(profiles, asked, i)
}

pub open spec fn any_subscription(profiles: Seq<ScoredProfile>, asked: SelectionModel) -> bool {
    exists|i: int| is_subscription(profiles, asked, i)
}

/// Whether the choice falls among profiles of this kind: subscriptions that have something left,
/// else any that have, else all that can serve.
pub open spec fn in_pool(profiles: Seq<ScoredProfile>, asked: SelectionModel, i: int) -> bool {
    if any_subscription(profiles, asked) {
        is_subscription(profiles, asked, i)
    } else if any_left(profiles, asked) {
        has_left(profiles, asked, i)
    } else {
        candidate(profiles, asked, i)
    }
}

/// Whether the profile at `i` comes before the one at `j`: it has more left, or the earlier name,
/// or the earlier place.
pub open spec fn preferred(profiles: Seq<ScoredProfile>, i: int, j: int) -> bool {
    let a = profiles[i];
    let b = profiles[j];
    a.score > b.score || (a.score == b.score && (text_less(
        a.profile.profile_id@,
        b.profile.profile_id@,
    ) || (a.profile.profile_id@ == b.profile.profile_id@ && i < j)))
}

/// Whether the profile at `i` is the one that an automatic choice takes.
pub open spec fn is_recommended(
    profiles: Seq<ScoredProfile>,
    asked: SelectionModel,
    i: int,
) -> bool {
    in_pool(profiles, asked, i) && forall|j: int|
        #[trigger] in_pool(profiles, asked, j) && j != i ==> preferred(profiles, i, j)
}

/// Whether the profile at `i` is the first of that name that can serve what is asked.
pub open spec fn is_named(profiles: Seq<ScoredProfile>, asked: SelectionModel, i: int) -> bool {
    candidate(profiles, asked, i) && profiles[i].profile.profile_id@ == asked.profile_id
        && forall|j: int|
        0 <= j < i ==> !(#[trigger] candidate(profiles, asked, j)
            && profiles[j].profile.profile_id@ == asked.profile_id)
}

/// Whether the profile at `i` is chosen.
pub open spec fn is_chosen(profiles: Seq<ScoredProfile>, asked: SelectionModel, i: int) -> bool {
    if asked.profile_id == "auto"@ {
        is_recommended(profiles, asked, i)
    } else {
        is_named(profiles, asked, i)
    }
}

fn better(profiles: &Vec<ScoredProfile>, i: usize, j: usize) -> (r: bool)
    requires
        i < profiles.len(),
        j < profiles.len(),
    ensures
        r == preferred(profiles@, i as int, j as int),
{
    let a = &profiles[i];
    let b = &profiles[j];
    if a.score != b.score {
        return a.score > b.score;
    }
    less(&a.profile.profile_id, &b.profile.profile_id) || (same(
        &a.profile.profile_id,
        &b.profile.profile_id,
    ) && i < j)
}

proof fn lemma_preferred_total(profiles: Seq<ScoredProfile>, i: int, j: int)
    requires
        i != j,
    ensures
        preferred(profiles, i, j) || preferred(profiles, j, i),
        !(preferred(profiles, i, j) && preferred(profiles, j, i)),
{
    less_total(profiles[i].profile.profile_id@, profiles[j].profile.profile_id@);
}

proof fn lemma_preferred_transitive(profiles: Seq<ScoredProfile>, i: int, j: int, k: int)
    requires
        preferred(profiles, i, j),
        preferred(profiles, j, k),
    ensures
        preferred(profiles, i, k),
{
    let a = profiles[i].profile.profile_id@;
    let b = profiles[j].profile.profile_id@;
    let c = profiles[k].profile.profile_id@;
    if text_less(a, b) && text_less(b, c) {
        less_transitive(a, b, c);
    }
}

/// The profile that an automatic choice takes.
pub fn recommended_profile(profiles: &Vec<ScoredProfile>, asked: &SessionSelection) -> (r: Option<
    usize,
>)
    ensures
        match r {
            Some(i) => is_recommended(profiles@, asked@, i as int),
            None => forall|i: int| !candidate(profiles@, asked@, i),
        },
{
    let mut subscription: bool = false;
    let mut left: bool = false;
    let mut i: usize = 0;
    while i < profiles.len()
        invariant
            i <= profiles.len(),
            left == exists|j: int| 0 <= j < i && #[trigger] has_left(profiles@, asked@, j),
            subscription == exists|j: int|
                0 <= j < i && #[trigger] is_subscription(profiles@, asked@, j),
        decreases profiles.len() - i,
    {
        if profiles[i].score > 0 && profile_serves(
            &profiles[i].profile,
            &asked.model,
            &asked.thinking,
        ) {
            left = true;
            proof {
                assert(has_left(profiles@, asked@, i as int));
            }
            if same(&profiles[i].profile.billing, "subscription") {
                subscription = true;
                proof {
                    assert(is_subscription(profiles@, asked@, i as int));
                }
            }
        }
        i = i + 1;
    }
    proof {
        assert(left == any_left(profiles@, asked@));
        assert(subscription == any_subscription(profiles@, asked@));
    }
    let mut best: Option<usize> = None;
    let mut k: usize = 0;
    while k < profiles.len()
        invariant
            k <= profiles.len(),
            left == any_left(profiles@, asked@),
            subscription == any_subscription(profiles@, asked@),
            match best {
                Some(b) => {
                    &&& b < k
                    &&& in_pool(profiles@, asked@, b as int)
                    &&& forall|j: int|
                        0 <= j < k && j != b && #[trigger] in_pool(profiles@, asked@, j)
                            ==> preferred(profiles@, b as int, j)
                },
                None => forall|j: int| 0 <= j < k ==> !#[trigger] in_pool(profiles@, asked@, j),
            },
        decreases profiles.len() - k,
    {
        let serving = profile_serves(&profiles[k].profile, &asked.model, &asked.thinking);
        let pooled = if subscription {
            serving && profiles[k].score > 0 && same(&profiles[k].profile.billing, "subscription")
        } else if left {
            serving && profiles[k].score > 0
        } else {
            serving
        };
        proof {
            assert(pooled == in_pool(profiles@, asked@, k as int));
        }
        if pooled {
            match best {
                Some(b) => {
                    proof {
                        lemma_preferred_total(profiles@, b as int, k as int);
                    }
                    if better(profiles, k, b) {
                        proof {
                            assert forall|j: int|
                                0 <= j < k + 1 && j != k && #[trigger] in_pool(
                                    profiles@,
                                    asked@,
                                    j,
                                ) implies preferred(profiles@, k as int, j) by {
                                if j != b {
                                    lemma_preferred_transitive(
                                        profiles@,
                                        k as int,
                                        b as int,
                                        j,
                                    );
                                }
                            }
                        }
                        best = Some(k);
                    }
                },
                None => {
                    best = Some(k);
                },
            }
        }
        k = k + 1;
    }
    proof {
        match best {
            Some(b) => {
                assert forall|j: int| #[trigger] in_pool(profiles@, asked@, j) && j
                    != b implies preferred(profiles@, b as int, j) by {
                    assert(0 <= j < profiles@.len());
                }
            },
            None => {
                assert forall|j: int| !candidate(profiles@, asked@, j) by {
                    if any_subscription(profiles@, asked@) {
                        let s = choose|s: int| is_subscription(profiles@, asked@, s);
                        assert(in_pool(profiles@, asked@, s));
                    } else if any_left(profiles@, asked@) {
                        let s = choose|s: int| has_left(profiles@, asked@, s);
                        assert(in_pool(profiles@, asked@, s));
                    } else if candidate(profiles@, asked@, j) {
                        assert(in_pool(profiles@, asked@, j));
                    }
                }
            },
        }
    }
    best
}

/// The selection that a request for a profile, a model and a thinking level comes to. The model and
/// the thinking level stay what was asked.
pub fn resolve_selection(profiles: &Vec<ScoredProfile>, asked: &SessionSelection) -> (r: Option<
    SessionSelection,
>)
    ensures
        match r {
            Some(selection) => exists|i: int|
                {
                    &&& #[trigger] is_chosen(profiles@, asked@, i)
                    &&& selection@ == (SelectionModel {
                        profile_id: profiles@[i].profile.profile_id@,
                        model: asked@.model,
                        thinking: asked@.thinking,
                    })
                },
            None => {
                &&& forall|i: int| !is_chosen(profiles@, asked@, i)
                &&& asked@.profile_id == "auto"@ ==> forall|i: int|
                    !candidate(profiles@, asked@, i)
            },
        },
{
    let chosen: Option<usize> = if same(&asked.profile_id, "auto") {
        let best = recommended_profile(profiles, asked);
        proof {
            if best is None {
                assert forall|i: int| !is_chosen(profiles@, asked@, i) by {
                    assert(!candidate(profiles@, asked@, i));
                    assert(!has_left(profiles@, asked@, i));
                }
            } else {
                assert(is_chosen(profiles@, asked@, best->0 as int));
            }
        }
        best
    } else {
        let mut found: Option<usize> = None;
        let mut i: usize = 0;
        while i < profiles.len() && found.is_none()
            invariant
                i <= profiles.len(),
                asked@.profile_id != "auto"@,
                match found {
                    Some(at) => is_named(profiles@, asked@, at as int),
                    None => forall|j: int|
                        0 <= j < i ==> !(#[trigger] candidate(profiles@, asked@, j)
                            && profiles@[j].profile.profile_id@ == asked@.profile_id),
                },
            decreases profiles.len() - i,
        {
            if profile_serves(&profiles[i].profile, &asked.model, &asked.thinking) && same(
                &profiles[i].profile.profile_id,
                &asked.profile_id,
            ) {
                proof {
                    assert(candidate(profiles@, asked@, i as int));
                }
                found = Some(i);
            }
            i = i + 1;
        }
        proof {
            if found is None {
                assert forall|j: int| !is_chosen(profiles@, asked@, j) by {
                    assert(candidate(profiles@, asked@, j) ==> 0 <= j < profiles@.len());
                }
            } else {
                assert(is_chosen(profiles@, asked@, found->0 as int));
            }
        }
        found
    };
    match chosen {
        Some(i) => Some(
            SessionSelection {
                profile_id: profiles[i].profile.profile_id.clone(),
                model: asked.model.clone(),
                thinking: asked.thinking.clone(),
            },
        ),
        None => None,
    }
}

/// The default model of a profile: the first that is marked as one.
pub open spec fn default_model(models: Seq<AgentModel>) -> Option<AgentModel>
    decreases models.len(),
{
    if models.len() == 0 {
        None
    } else if models[0].default {
        Some(models[0])
    } else {
        default_model(models.drop_first())
    }
}

/// The model and the thinking level that a profile names as its defaults, if it can be used and
/// offers that level.
pub open spec fn profile_default(profile: AgentProfile) -> Option<(Seq<char>, Seq<char>)> {
    match default_model(profile.models@) {
        Some(model) => if profile.auth_configured && holds(
            model.thinking@,
            model.default_thinking@,
        ) {
            Some((model.id@, model.default_thinking@))
        } else {
            None
        },
        None => None,
    }
}

/// A profile can serve its own defaults.
proof fn lemma_default_serves(profile: AgentProfile)
    requires
        profile_default(profile) is Some,
    ensures
        profile_default(profile) matches Some((model, thinking)) && serves(
            profile,
            model,
            thinking,
        ),
{
    let at = lemma_default_model(profile.models@);
    assert(profile.models@[at] == default_model(profile.models@)->0);
}

/// Where the default model stands.
proof fn lemma_default_model(models: Seq<AgentModel>) -> (at: int)
    requires
        default_model(models) is Some,
    ensures
        0 <= at < models.len(),
        models[at] == default_model(models)->0,
    decreases models.len(),
{
    if models[0].default {
        0
    } else {
        lemma_default_model(models.drop_first()) + 1
    }
}

/// The defaults of the first profile that names some.
pub open spec fn first_default(profiles: Seq<ScoredProfile>) -> Option<(Seq<char>, Seq<char>)>
    decreases profiles.len(),
{
    if profiles.len() == 0 {
        None
    } else {
        match profile_default(profiles[0].profile) {
            Some(found) => Some(found),
            None => first_default(profiles.drop_first()),
        }
    }
}

fn read_default(profile: &AgentProfile) -> (r: Option<(String, String)>)
    ensures
        match r {
            Some((model, thinking)) => profile_default(*profile) == Some((model@, thinking@)),
            None => profile_default(*profile) is None,
        },
{
    let mut i: usize = 0;
    proof {
        assert(profile.models@.skip(0) =~= profile.models@);
    }
    while i < profile.models.len()
        invariant
            i <= profile.models.len(),
            default_model(profile.models@) == default_model(profile.models@.skip(i as int)),
        decreases profile.models.len() - i,
    {
        proof {
            assert(profile.models@.skip(i as int).drop_first() =~= profile.models@.skip(i + 1));
        }
        if profile.models[i].default {
            let model = &profile.models[i];
            if profile.auth_configured && list_holds(&model.thinking, &model.default_thinking) {
                return Some((model.id.clone(), model.default_thinking.clone()));
            }
            return None;
        }
        i = i + 1;
    }
    None
}

/// The selection of a session that names none: the first defaults that a profile names, on the
/// profile that an automatic choice takes.
pub fn default_selection(profiles: &Vec<ScoredProfile>) -> (r: Option<SessionSelection>)
    ensures
        match (r, first_default(profiles@)) {
            (Some(selection), Some((model, thinking))) => exists|i: int|
                {
                    &&& #[trigger] is_chosen(
                        profiles@,
                        (SelectionModel { profile_id: "auto"@, model, thinking }),
                        i,
                    )
                    &&& selection@ == (SelectionModel {
                        profile_id: profiles@[i].profile.profile_id@,
                        model,
                        thinking,
                    })
                },
            (None, None) => true,
            _ => false,
        },
{
    let mut i: usize = 0;
    proof {
        assert(profiles@.skip(0) =~= profiles@);
    }
    while i < profiles.len()
        invariant
            i <= profiles.len(),
            first_default(profiles@) == first_default(profiles@.skip(i as int)),
        decreases profiles.len() - i,
    {
        proof {
            assert(profiles@.skip(i as int).drop_first() =~= profiles@.skip(i + 1));
        }
        if let Some((model, thinking)) = read_default(&profiles[i].profile) {
            let asked = SessionSelection { profile_id: "auto".to_owned(), model, thinking };
            proof {
                assert(profiles@.skip(i as int)[0] == profiles@[i as int]);
                assert(first_default(profiles@) == Some((model@, thinking@)));
                lemma_default_serves(profiles@[i as int].profile);
                assert(candidate(profiles@, asked@, i as int));
                assert(asked@ == (SelectionModel {
                    profile_id: "auto"@,
                    model: model@,
                    thinking: thinking@,
                }));
            }
            return resolve_selection(profiles, &asked);
        }
        i = i + 1;
    }
    None
}

/// At most one profile is chosen for what is asked: the choice does not depend on anything else.
pub proof fn choice_is_unique(
    profiles: Seq<ScoredProfile>,
    asked: SelectionModel,
    i: int,
    j: int,
)
    requires
        is_chosen(profiles, asked, i),
        is_chosen(profiles, asked, j),
    ensures
        i == j,
{
    if i != j {
        lemma_preferred_total(profiles, i, j);
    }
}

/// The kinds of sessions that a gateway keeps.
#[derive(Clone, Copy, Debug, PartialEq, Eq, Structural)]
pub enum BindingKind {
    Normal,
    Proactive,
}

/// The system prompt of a session: that of its kind.
pub fn system_prompt_for_binding<'a>(
    kind: BindingKind,
    thread_prompt: &'a str,
    proactive_prompt: &'a str,
) -> (r: &'a str)
    ensures
        r@ == match kind {
            BindingKind::Normal => thread_prompt@,
            BindingKind::Proactive => proactive_prompt@,
        },
{
    match kind {
        BindingKind::Normal => thread_prompt,
        BindingKind::Proactive => proactive_prompt,
    }
}

/// The address of the agent.
pub fn base_url(agent_bind: &str) -> (r: String)
    ensures
        r@ == loopback(agent_bind@),
{
    loopback_base_url(agent_bind)
}

/// An error of a request to the agent, with the status that the gateway answers with.
#[derive(Debug)]
pub struct AgentHttpError {
    pub status: u16,
    pub message: String,
}

/// What an error of a request says.
pub struct HttpErrorModel {
    pub status: u16,
    pub message: Seq<char>,
}

impl View for AgentHttpError {
    type V = HttpErrorModel;

    open spec fn view(&self) -> HttpErrorModel {
        HttpErrorModel { status: self.status, message: self.message@ }
    }
}

/// An error that is the agent's fault.
pub open spec fn bad_gateway(message: Seq<char>) -> HttpErrorModel {
    HttpErrorModel { status: 502, message }
}

fn agent_fault(message: &str) -> (r: AgentHttpError)
    ensures
        r@ == bad_gateway(message@),
{
    AgentHttpError { status: 502, message: message.to_owned() }
}

/// An answer of the agent that is an error: the fault of the request stays that, everything else is
/// the agent's. `body` is the error in the answer, or why there is none.
pub fn agent_http_error(
    status: u16,
    status_line: &str,
    operation: &str,
    body: Result<&ApiErrorDetail, &str>,
) -> (r: AgentHttpError)
    ensures
        r.status == (if 400 <= status < 500 {
            status
        } else {
            502
        }),
        r.message@ == match body {
            Ok(error) => error.message@,
            Err(error) => "invalid "@ + operation@ + " error response for HTTP "@ + status_line@
                + ": "@ + error@,
        },
{
    let message = match body {
        Ok(error) => error.message.clone(),
        Err(error) => {
            let mut message = join3("invalid ", operation, " error response for HTTP ");
            message.append(status_line);
            message.append(": ");
            message.append(error);
            message
        },
    };
    AgentHttpError {
        status: if 400 <= status && status < 500 {
            status
        } else {
            502
        },
        message,
    }
}

/// Whether a session that the agent created is the one that was asked for.
pub fn check_created(created: &SessionView, asked: &SessionSelection) -> (r: Result<
    (),
    AgentHttpError,
>)
    ensures
        match r {
            Ok(_) => created.profile_id@ == asked@.profile_id && created.model@ == asked@.model
                && created.thinking@ == asked@.thinking && created.workspace@.len() > 0,
            Err(error) => {
                let same_selection = created.profile_id@ == asked@.profile_id && created.model@
                    == asked@.model && created.thinking@ == asked@.thinking;
                &&& error@ == if !same_selection {
                    bad_gateway("zork-agent returned a different session selection"@)
                } else {
                    bad_gateway("zork-agent returned an empty session workspace"@)
                }
                &&& same_selection ==> created.workspace@.len() == 0
            },
        },
{
    if !same(&created.profile_id, &asked.profile_id) || !same(&created.model, &asked.model)
        || !same(&created.thinking, &asked.thinking) {
        return Err(agent_fault("zork-agent returned a different session selection"));
    }
    if created.workspace.as_str().is_empty() {
        return Err(agent_fault("zork-agent returned an empty session workspace"));
    }
    Ok(())
}

/// Whether a session whose selection was changed is the one that was asked for.
pub fn check_updated(
    session: &SessionView,
    session_id: &str,
    asked: &SessionSelection,
) -> (r: Result<
    SessionSelection,
    AgentHttpError,
>)
    ensures
        match r {
            Ok(selection) => session.session_id@ == session_id@ && selection@ == asked@
                && session.profile_id@ == asked@.profile_id && session.model@ == asked@.model
                && session.thinking@ == asked@.thinking,
            Err(error) => {
                &&& session.session_id@ != session_id@ || session.profile_id@ != asked@.profile_id
                    || session.model@ != asked@.model || session.thinking@ != asked@.thinking
                &&& error@ == bad_gateway("zork-agent returned a different session selection"@)
            },
        },
{
    let updated = session.selection();
    if !same(&session.session_id, session_id) || !same(&updated.profile_id, &asked.profile_id)
        || !same(&updated.model, &asked.model) || !same(&updated.thinking, &asked.thinking) {
        return Err(agent_fault("zork-agent returned a different session selection"));
    }
    Ok(updated)
}

/// The context policy in an answer of the agent, which keeps the only copy of it.
pub fn check_context(session: &SessionView, session_id: &str, update: Option<ContextConfig>) -> (r:
    Result<ContextConfig, AgentHttpError>)
    ensures
        match r {
            Ok(context) => session.session_id@ == session_id@ && context == session.context
                && (update is Some ==> update->0 == context),
            Err(error) => {
                &&& session.session_id@ != session_id@ || (update is Some && update->0
                    != session.context)
                &&& error@ == bad_gateway("zork-agent returned a different session context"@)
            },
        },
{
    let differs = match update {
        Some(expected) => expected != session.context,
        None => false,
    };
    if !same(&session.session_id, session_id) || differs {
        return Err(agent_fault("zork-agent returned a different session context"));
    }
    Ok(session.context)
}

/// A binding that has a session of the agent gets no second one.
pub fn check_unbound(session_id: Option<&str>) -> (r: Result<(), AgentHttpError>)
    ensures
        match r {
            Ok(_) => session_id is None,
            Err(error) => session_id is Some && error@ == (HttpErrorModel {
                status: 409,
                message: "binding already has an Agent session"@,
            }),
        },
{
    match session_id {
        Some(_) => Err(
            AgentHttpError {
                status: 409,
                message: "binding already has an Agent session".to_owned(),
            },
        ),
        None => Ok(()),
    }
}

/// How a binding gets its session of the agent.
#[derive(Debug)]
pub enum BindStep {
    /// It has one.
    Bound(String),
    /// One is created, with this selection.
    Create(SessionSelection),
    /// No profile can be selected; the binding is marked so.
    Blocked,
}

/// What is noted of a binding for which no profile can be selected.
pub const SELECTION_BLOCK: &'static str = "no_selectable_profiles";

/// How a binding that has the session `session_id`, or none, gets its session.
pub fn ensure_binding_session(session_id: Option<&str>, profiles: &Vec<ScoredProfile>) -> (r:
    BindStep)
    ensures
        match r {
            BindStep::Bound(id) => session_id is Some && id@ == session_id->0@,
            BindStep::Create(selection) => session_id is None && match first_default(profiles@) {
                Some((model, thinking)) => exists|i: int|
                    {
                        &&& #[trigger] is_chosen(
                            profiles@,
                            (SelectionModel { profile_id: "auto"@, model, thinking }),
                            i,
                        )
                        &&& selection@ == (SelectionModel {
                            profile_id: profiles@[i].profile.profile_id@,
                            model,
                            thinking,
                        })
                    },
                None => false,
            },
            BindStep::Blocked => session_id is None && first_default(profiles@) is None,
        },
{
    match session_id {
        Some(id) => BindStep::Bound(id.to_owned()),
        None => match default_selection(profiles) {
            Some(selection) => BindStep::Create(selection),
            None => BindStep::Blocked,
        },
    }
}

/// The name of an error code as it is printed.
pub open spec fn code_name(code: ApiErrorCode) -> Seq<char> {
    match code {
        ApiErrorCode::InvalidRequest => "InvalidRequest"@,
        ApiErrorCode::InternalError => "InternalError"@,
        ApiErrorCode::SessionNotFound => "SessionNotFound"@,
        ApiErrorCode::SessionOverloaded => "SessionOverloaded"@,
        ApiErrorCode::GlobalOverloaded => "GlobalOverloaded"@,
        ApiErrorCode::RunnerCircuitOpen => "RunnerCircuitOpen"@,
        ApiErrorCode::SessionDeleting => "SessionDeleting"@,
        ApiErrorCode::SessionUnavailable => "SessionUnavailable"@,
        ApiErrorCode::SelectionUnavailable => "SelectionUnavailable"@,
        ApiErrorCode::InvalidCursor => "InvalidCursor"@,
        ApiErrorCode::ProfileNotFound => "ProfileNotFound"@,
        ApiErrorCode::Unauthorized => "Unauthorized"@,
    }
}

fn code_text(code: ApiErrorCode) -> (r: &'static str)
    ensures
        r@ == code_name(code),
{
    match code {
        ApiErrorCode::InvalidRequest => "InvalidRequest",
        ApiErrorCode::InternalError => "InternalError",
        ApiErrorCode::SessionNotFound => "SessionNotFound",
        ApiErrorCode::SessionOverloaded => "SessionOverloaded",
        ApiErrorCode::GlobalOverloaded => "GlobalOverloaded",
        ApiErrorCode::RunnerCircuitOpen => "RunnerCircuitOpen",
        ApiErrorCode::SessionDeleting => "SessionDeleting",
        ApiErrorCode::SessionUnavailable => "SessionUnavailable",
        ApiErrorCode::SelectionUnavailable => "SelectionUnavailable",
        ApiErrorCode::InvalidCursor => "InvalidCursor",
        ApiErrorCode::ProfileNotFound => "ProfileNotFound",
        ApiErrorCode::Unauthorized => "Unauthorized",
    }
}

/// What an answer to a cancellation means: whether there was a session to cancel. `error` is the
/// error in the answer, if it is not the expected one and could be read.
pub fn cancelled(status: u16, status_line: &str, error: Option<&ApiErrorDetail>) -> (r: Result<
    bool,
    String,
>)
    ensures
        match r {
            Ok(true) => status == 204,
            Ok(false) => status == 404 && error is Some && error->0.code
                == ApiErrorCode::SessionNotFound,
            Err(message) => status != 204 && message@ == match error {
                None => "invalid cancel zork-agent session error response for HTTP "@
                    + status_line@,
                Some(error) => if status == 404 {
                    "cancel zork-agent session returned HTTP 404 with error code "@ + code_name(
                        error.code,
                    )
                } else {
                    "zork-agent cancellation failed: "@ + error.message@
                },
            } && !(status == 404 && error is Some && error->0.code
                == ApiErrorCode::SessionNotFound),
        },
{
    if status == 204 {
        return Ok(true);
    }
    match error {
        None => Err(
            join2("invalid cancel zork-agent session error response for HTTP ", status_line),
        ),
        Some(error) => {
            if status == 404 {
                if error.code == ApiErrorCode::SessionNotFound {
                    return Ok(false);
                }
                return Err(
                    join2(
                        "cancel zork-agent session returned HTTP 404 with error code ",
                        code_text(error.code),
                    ),
                );
            }
            Err(join2("zork-agent cancellation failed: ", &error.message))
        },
    }
}

/// Whether a profile can be used for a model at a thinking level: it has its credentials, and it
/// lists the model with that level.
pub open spec fn can_be_used(
    profile: AgentProfile,
    model: Seq<char>,
    thinking: Seq<char>,
) -> bool {
    profile.auth_configured && exists|m: int, t: int|
        #![trigger profile.models@[m].thinking@[t]]
        0 <= m < profile.models@.len() && profile.models@[m].id@ == model && 0 <= t
            < profile.models@[m].thinking@.len() && profile.models@[m].thinking@[t]@ == thinking
}

proof fn lemma_can_be_used(profile: AgentProfile, model: Seq<char>, thinking: Seq<char>)
    ensures
        serves(profile, model, thinking) == can_be_used(profile, model, thinking),
{
    if serves(profile, model, thinking) {
        let m = choose|m: int|
            0 <= m < profile.models@.len() && (#[trigger] profile.models@[m]).id@ == model && holds(
                profile.models@[m].thinking@,
                thinking,
            );
        let list = profile.models@[m].thinking@;
        let t = choose|t: int| 0 <= t < list.len() && (#[trigger] list[t])@ == thinking;
        assert(profile.models@[m].thinking@[t]@ == thinking);
    }
    if can_be_used(profile, model, thinking) {
        let (m, t) = choose|m: int, t: int|
            #![trigger profile.models@[m].thinking@[t]]
            0 <= m < profile.models@.len() && profile.models@[m].id@ == model && 0 <= t
                < profile.models@[m].thinking@.len() && profile.models@[m].thinking@[t]@
                == thinking;
        assert(holds(profile.models@[m].thinking@, thinking));
    }
}

/// An automatic choice takes a profile that can be used for what is asked. If a subscription that
/// can be used has something left it takes a subscription, else one that has something left if there
/// is any, and of those the one with the most left, of equals the one with the earlier name.
pub proof fn automatic_choices_take_the_most_left(
    profiles: Seq<ScoredProfile>,
    asked: SelectionModel,
    i: int,
    j: int,
)
    requires
        asked.profile_id == "auto"@,
        is_chosen(profiles, asked, i),
        0 <= j < profiles.len(),
        can_be_used(profiles[j].profile, asked.model, asked.thinking),
    ensures
        0 <= i < profiles.len(),
        can_be_used(profiles[i].profile, asked.model, asked.thinking),
        profiles[j].score > 0 ==> profiles[i].score > 0,
        profiles[j].score > 0 && profiles[j].profile.billing@ == "subscription"@ ==> {
            &&& profiles[i].profile.billing@ == "subscription"@
            &&& profiles[i].score >= profiles[j].score
            &&& profiles[i].score == profiles[j].score ==> !text_less(
                profiles[j].profile.profile_id@,
                profiles[i].profile.profile_id@,
            )
        },
        profiles[i].profile.billing@ != "subscription"@ || profiles[i].score == 0 ==> {
            &&& profiles[i].score >= profiles[j].score
            &&& profiles[i].score == profiles[j].score ==> !text_less(
                profiles[j].profile.profile_id@,
                profiles[i].profile.profile_id@,
            )
        },
{
    lemma_can_be_used(profiles[i].profile, asked.model, asked.thinking);
    lemma_can_be_used(profiles[j].profile, asked.model, asked.thinking);
    less_total(profiles[i].profile.profile_id@, profiles[j].profile.profile_id@);
    assert(candidate(profiles, asked, j));
    if profiles[j].score > 0 {
        assert(has_left(profiles, asked, j));
        if profiles[j].profile.billing@ == "subscription"@ {
            assert(is_subscription(profiles, asked, j));
            assert(in_pool(profiles, asked, j));
        }
    }
    if profiles[i].profile.billing@ != "subscription"@ || profiles[i].score == 0 {
        if any_left(profiles, asked) {
            let k = choose|k: int| has_left(profiles, asked, k);
            if profiles[j].score > 0 {
                assert(in_pool(profiles, asked, j));
            }
        } else {
            assert(in_pool(profiles, asked, j));
        }
    }
}

/// A choice by name takes a profile of that name that can be used for what is asked.
pub proof fn named_choices_take_that_profile(
    profiles: Seq<ScoredProfile>,
    asked: SelectionModel,
    i: int,
)
    requires
        asked.profile_id != "auto"@,
    ensures
        is_chosen(profiles, asked, i) ==> {
            &&& 0 <= i < profiles.len()
            &&& profiles[i].profile.profile_id@ == asked.profile_id
            &&& can_be_used(profiles[i].profile, asked.model, asked.thinking)
        },
        0 <= i < profiles.len() && profiles[i].profile.profile_id@ == asked.profile_id
            && can_be_used(profiles[i].profile, asked.model, asked.thinking) ==> exists|k: int|
            k <= i && #[trigger] is_chosen(profiles, asked, k),
    decreases i,
{
    if 0 <= i < profiles.len() {
        lemma_can_be_used(profiles[i].profile, asked.model, asked.thinking);
        if candidate(profiles, asked, i) && profiles[i].profile.profile_id@ == asked.profile_id {
            if !is_named(profiles, asked, i) {
                let j = choose|j: int|
                    0 <= j < i && #[trigger] candidate(profiles, asked, j)
                        && profiles[j].profile.profile_id@ == asked.profile_id;
                named_choices_take_that_profile(profiles, asked, j);
                lemma_can_be_used(profiles[j].profile, asked.model, asked.thinking);
            } else {
                assert(is_chosen(profiles, asked, i));
            }
        }
    }
}

/// What is left of a profile that is billed by usage is its balance, or has no end; of any other it
/// is what its longer window has left, or its shorter one where the longer one says nothing. Where
/// the account or the limits are not good nothing is known.
pub proof fn quotas_are_read_by_billing(billing: Seq<char>, account: JsonModel, limits: JsonModel)
    ensures
        ({
            let good = account.get("ok"@) == Some(JsonModel::Bool(true)) && limits.get("ok"@)
                == Some(JsonModel::Bool(true));
            let source = score_source_of(billing, account, limits);
            let windows = limits.get("rateLimits"@);
            &&& !good ==> source is Nothing
            &&& good && billing == "usage"@ && windows is Some ==> match windows->0.get(
                "credits"@,
            ) {
                Some(credits) => {
                    &&& credits.get("unlimited"@) == Some(JsonModel::Bool(true)) <==> source is
                        Unlimited
                    &&& source matches SourceModel::Balance(balance) ==> credits.get("balance"@)
                        == Some(balance)
                    &&& credits.get("balance"@) matches Some(balance) ==> (credits.get(
                        "unlimited"@,
                    ) != Some(JsonModel::Bool(true)) && (balance is Unsigned || balance is Negative
                        || balance is Decimal || balance is Text) ==> source
                        == SourceModel::Balance(balance))
                },
                None => source is Nothing,
            }
            &&& good && billing != "usage"@ ==> !(source is Balance || source is Unlimited)
            &&& good && billing != "usage"@ && windows is Some ==> {
                let longer = windows->0.get2("secondary"@, "usedPercent"@);
                let shorter = windows->0.get2("primary"@, "usedPercent"@);
                &&& longer is Some && is_number(longer->0) ==> source == SourceModel::UsedPercent(
                    longer->0,
                )
                &&& !(longer is Some && is_number(longer->0)) && shorter is Some && is_number(
                    shorter->0,
                ) ==> source == SourceModel::UsedPercent(shorter->0)
            }
        }),
{
}

/// The defaults of a profile are those of the first of its models that is marked, if the profile has
/// its credentials and the model offers its default level; a session that names nothing gets the
/// defaults of the first profile that has some.
pub proof fn defaults_are_the_first_that_serve(profiles: Seq<ScoredProfile>)
    ensures
        match first_default(profiles) {
            Some(found) => exists|k: int|
                {
                    &&& 0 <= k < profiles.len()
                    &&& is_default_of((#[trigger] profiles[k]).profile, found.0, found.1)
                    &&& forall|j: int|
                        0 <= j < k ==> no_default((#[trigger] profiles[j]).profile)
                },
            None => forall|j: int|
                0 <= j < profiles.len() ==> no_default((#[trigger] profiles[j]).profile),
        },
    decreases profiles.len(),
{
    if profiles.len() > 0 {
        let rest = profiles.drop_first();
        lemma_profile_default(profiles[0].profile);
        defaults_are_the_first_that_serve(rest);
        assert forall|j: int| 0 <= j < rest.len() implies #[trigger] profiles[j + 1] == rest[j] by {}
        if profile_default(profiles[0].profile) is None {
            match first_default(rest) {
                Some(found) => {
                    let k = choose|k: int|
                        {
                            &&& 0 <= k < rest.len()
                            &&& is_default_of((#[trigger] rest[k]).profile, found.0, found.1)
                            &&& forall|j: int|
                                0 <= j < k ==> no_default((#[trigger] rest[j]).profile)
                        };
                    assert forall|j: int| 0 <= j < k + 1 implies no_default(
                        (#[trigger] profiles[j]).profile,
                    ) by {
                        if j > 0 {
                            assert(rest[j - 1] == profiles[j]);
                        }
                    }
                    assert(profiles[k + 1] == rest[k]);
                },
                None => {
                    assert forall|j: int| 0 <= j < profiles.len() implies no_default(
                        (#[trigger] profiles[j]).profile,
                    ) by {
                        if j > 0 {
                            assert(rest[j - 1] == profiles[j]);
                        }
                    }
                },
            }
        } else {
            let (model, thinking) = first_default(profiles)->0;
            assert(is_default_of(profiles[0].profile, model, thinking));
        }
    }
}

/// Whether a profile with its credentials has these defaults: they are those of its first marked
/// model, which offers the level.
pub open spec fn is_default_of(
    profile: AgentProfile,
    model: Seq<char>,
    thinking: Seq<char>,
) -> bool {
    &&& profile.auth_configured
    &&& exists|m: int|
        {
            &&& 0 <= m < profile.models@.len()
            &&& (#[trigger] profile.models@[m]).default
            &&& profile.models@[m].id@ == model
            &&& profile.models@[m].default_thinking@ == thinking
            &&& holds(profile.models@[m].thinking@, thinking)
            &&& forall|n: int| 0 <= n < m ==> !(#[trigger] profile.models@[n]).default
        }
}

/// Whether a profile has no defaults.
pub open spec fn no_default(profile: AgentProfile) -> bool {
    forall|model: Seq<char>, thinking: Seq<char>|
        !#[trigger] is_default_of(profile, model, thinking)
}

proof fn lemma_first_marked(models: Seq<AgentModel>)
    ensures
        match default_model(models) {
            Some(model) => exists|m: int|
                {
                    &&& 0 <= m < models.len()
                    &&& #[trigger] models[m] == model
                    &&& models[m].default
                    &&& forall|n: int| 0 <= n < m ==> !(#[trigger] models[n]).default
                },
            None => forall|n: int| 0 <= n < models.len() ==> !(#[trigger] models[n]).default,
        },
    decreases models.len(),
{
    if models.len() > 0 && !models[0].default {
        let rest = models.drop_first();
        lemma_first_marked(rest);
        match default_model(rest) {
            Some(model) => {
                let m = choose|m: int|
                    {
                        &&& 0 <= m < rest.len()
                        &&& #[trigger] rest[m] == model
                        &&& rest[m].default
                        &&& forall|n: int| 0 <= n < m ==> !(#[trigger] rest[n]).default
                    };
                assert(models[m + 1] == rest[m]);
                assert forall|n: int| 0 <= n < m + 1 implies !(#[trigger] models[n]).default by {
                    if n > 0 {
                        assert(rest[n - 1] == models[n]);
                    }
                }
            },
            None => {
                assert forall|n: int| 0 <= n < models.len() implies !(
                #[trigger] models[n]).default by {
                    if n > 0 {
                        assert(rest[n - 1] == models[n]);
                    }
                }
            },
        }
    }
}

proof fn lemma_profile_default(profile: AgentProfile)
    ensures
        match profile_default(profile) {
            Some(found) => is_default_of(profile, found.0, found.1),
            None => no_default(profile),
        },
{
    let models = profile.models@;
    lemma_first_marked(models);
    assert forall|model: Seq<char>, thinking: Seq<char>| #[trigger]
        is_default_of(profile, model, thinking) implies profile_default(profile) == Some(
        (model, thinking),
    ) by {
        let m = choose|m: int|
            {
                &&& 0 <= m < models.len()
                &&& (#[trigger] models[m]).default
                &&& models[m].id@ == model
                &&& models[m].default_thinking@ == thinking
                &&& holds(models[m].thinking@, thinking)
                &&& forall|n: int| 0 <= n < m ==> !(#[trigger] models[n]).default
            };
        let marked = default_model(models)->0;
        let k = choose|k: int|
            {
                &&& 0 <= k < models.len()
                &&& #[trigger] models[k] == marked
                &&& models[k].default
                &&& forall|n: int| 0 <= n < k ==> !(#[trigger] models[n]).default
            };
        if k < m {
            assert(!models[k].default);
        } else if m < k {
            assert(!models[m].default);
        }
    }
}

/// What goes wrong between the gateway and the agent is answered as a bad gateway, with what went
/// wrong; error codes are printed under their own names.
pub proof fn agent_faults_are_bad_gateways(message: Seq<char>, code: ApiErrorCode)
    ensures
        bad_gateway(message).status == 502 && bad_gateway(message).message == message,
        code is SessionNotFound ==> code_name(code) == "SessionNotFound"@,
        code is InvalidRequest ==> code_name(code) == "InvalidRequest"@,
        code is InternalError ==> code_name(code) == "InternalError"@,
        code is SessionOverloaded ==> code_name(code) == "SessionOverloaded"@,
        code is GlobalOverloaded ==> code_name(code) == "GlobalOverloaded"@,
        code is RunnerCircuitOpen ==> code_name(code) == "RunnerCircuitOpen"@,
        code is SessionDeleting ==> code_name(code) == "SessionDeleting"@,
        code is SessionUnavailable ==> code_name(code) == "SessionUnavailable"@,
        code is SelectionUnavailable ==> code_name(code) == "SelectionUnavailable"@,
        code is InvalidCursor ==> code_name(code) == "InvalidCursor"@,
        code is ProfileNotFound ==> code_name(code) == "ProfileNotFound"@,
        code is Unauthorized ==> code_name(code) == "Unauthorized"@,
{
}

/// The best of the profiles before `count` that the choice falls among, if there is one.
proof fn lemma_best(profiles: Seq<ScoredProfile>, asked: SelectionModel, count: int) -> (best:
    Option<int>)
    requires
        0 <= count <= profiles.len(),
    ensures
        match best {
            Some(b) => {
                &&& 0 <= b < count
                &&& in_pool(profiles, asked, b)
                &&& forall|j: int|
                    0 <= j < count && j != b && #[trigger] in_pool(profiles, asked, j) ==> preferred(
                        profiles,
                        b,
                        j,
                    )
            },
            None => forall|j: int| 0 <= j < count ==> !#[trigger] in_pool(profiles, asked, j),
        },
    decreases count,
{
    if count == 0 {
        None
    } else {
        let last = count - 1;
        let before = lemma_best(profiles, asked, last);
        if !in_pool(profiles, asked, last) {
            before
        } else {
            match before {
                None => Some(last),
                Some(b) => {
                    lemma_preferred_total(profiles, b, last);
                    if preferred(profiles, b, last) {
                        Some(b)
                    } else {
                        assert forall|j: int|
                            0 <= j < count && j != last && #[trigger] in_pool(
                                profiles,
                                asked,
                                j,
                            ) implies preferred(profiles, last, j) by {
                            if j != b {
                                lemma_preferred_transitive(profiles, last, b, j);
                            }
                        }
                        Some(last)
                    }
                },
            }
        }
    }
}

/// Where a profile can be used for what is asked an automatic choice finds one. Of two with the same
/// name and as much left it takes the first.
pub proof fn automatic_choices_find_a_profile(
    profiles: Seq<ScoredProfile>,
    asked: SelectionModel,
    j: int,
)
    requires
        asked.profile_id == "auto"@,
        0 <= j < profiles.len(),
        can_be_used(profiles[j].profile, asked.model, asked.thinking),
    ensures
        exists|i: int| #[trigger] is_chosen(profiles, asked, i),
        forall|i: int| #[trigger]
            is_chosen(profiles, asked, i) && profiles[i].score == profiles[j].score
                && profiles[i].profile.billing@ == profiles[j].profile.billing@
                && profiles[i].profile.profile_id@ == profiles[j].profile.profile_id@ ==> i <= j,
{
    lemma_can_be_used(profiles[j].profile, asked.model, asked.thinking);
    assert(candidate(profiles, asked, j));
    let best = lemma_best(profiles, asked, profiles.len() as int);
    assert(exists|k: int| in_pool(profiles, asked, k)) by {
        if any_subscription(profiles, asked) {
            let k = choose|k: int| is_subscription(profiles, asked, k);
            assert(in_pool(profiles, asked, k));
        } else if any_left(profiles, asked) {
            let k = choose|k: int| has_left(profiles, asked, k);
            assert(in_pool(profiles, asked, k));
        } else {
            assert(in_pool(profiles, asked, j));
        }
    }
    let k = choose|k: int| in_pool(profiles, asked, k);
    assert(0 <= k < profiles.len());
    let b = best->0;
    assert(is_recommended(profiles, asked, b)) by {
        assert forall|i: int| #[trigger] in_pool(profiles, asked, i) && i != b implies preferred(
            profiles,
            b,
            i,
        ) by {
            assert(0 <= i < profiles.len());
        }
    }
    assert(is_chosen(profiles, asked, b));
    assert forall|i: int| #[trigger]
        is_chosen(profiles, asked, i) && profiles[i].score == profiles[j].score
            && profiles[i].profile.billing@ == profiles[j].profile.billing@
            && profiles[i].profile.profile_id@ == profiles[j].profile.profile_id@ implies i <= j by {
        assert(in_pool(profiles, asked, i));
        assert(in_pool(profiles, asked, j));
        less_total(profiles[i].profile.profile_id@, profiles[j].profile.profile_id@);
    }
}

} // verus!
