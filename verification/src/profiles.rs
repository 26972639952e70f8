//! The profile that a session runs on: its limits and how the provider is reached.
use vstd::prelude::*;

use crate::api::SessionSelection;

verus! {

/// What a model takes and gives.
#[derive(Clone, Copy, Debug, PartialEq, Eq, Structural)]
pub struct ModelLimits {
    pub context_window_tokens: u64,
    pub max_output_tokens: u32,
    pub reserve_percent: u64,
}

#[derive(Clone, Copy, Debug, PartialEq, Eq, Structural)]
pub enum ProfileResolveError {
    NotFound,
    InvalidSelection,
    AuthUnavailable,
    Backend,
}

#[derive(Clone, Copy, Debug, PartialEq, Eq, Structural)]
pub enum ModelError {
    InvalidSelection,
    ProfileUnavailable,
    Unavailable,
}

/// Tokens that the step of a handoff needs besides its output.
pub const HANDOFF_STEP_OVERHEAD_TOKENS: u64 = 4_096;

/// `a` less `b`, nothing where that is negative.
pub open spec fn less_or_zero(a: int, b: int) -> int {
    if a > b {
        a - b
    } else {
        0
    }
}

/// The tokens of input at which a session hands off: what the window leaves beside the output or
/// the reserve, whichever is more, and at most what it leaves beside the output and the step of the
/// handoff. The reserve is a percentage of the window; it stops growing at the largest number.
pub open spec fn handoff_trigger(
    context_window_tokens: u64,
    max_output_tokens: u64,
    reserve_percent: u64,
) -> int {
    let window = context_window_tokens as int;
    let output = max_output_tokens as int;
    let product = window * reserve_percent;
    let reserve = (if product > u64::MAX {
        u64::MAX as int
    } else {
        product
    }) / 100;
    let beside_reserve = less_or_zero(
        window,
        if output > reserve {
            output
        } else {
            reserve
        },
    );
    let beside_step = less_or_zero(
        less_or_zero(window, output),
        HANDOFF_STEP_OVERHEAD_TOKENS as int,
    );
    if beside_reserve < beside_step {
        beside_reserve
    } else {
        beside_step
    }
}

fn subtract(a: u64, b: u64) -> (r: u64)
    ensures
        r == less_or_zero(a as int, b as int),
{
    if a > b {
        a - b
    } else {
        0
    }
}

pub fn handoff_input_trigger(
    context_window_tokens: u64,
    max_output_tokens: u64,
    reserve_percent: u64,
) -> (r: u64)
    ensures
        r == handoff_trigger(context_window_tokens, max_output_tokens, reserve_percent),
{
    let output_ceiling: u64 = subtract(context_window_tokens, max_output_tokens);
    proof {
        assert(0 <= context_window_tokens * reserve_percent <= u64::MAX * u64::MAX)
            by (nonlinear_arith)
            requires
                0 <= context_window_tokens <= u64::MAX,
                0 <= reserve_percent <= u64::MAX,
        ;
    }
    let product: u128 = (context_window_tokens as u128) * (reserve_percent as u128);
    let capped: u64 = if product > u64::MAX as u128 {
        u64::MAX
    } else {
        product as u64
    };
    let percent_reserve: u64 = capped / 100;
    let reserved: u64 = if max_output_tokens > percent_reserve {
        max_output_tokens
    } else {
        percent_reserve
    };
    let beside_reserve: u64 = subtract(context_window_tokens, reserved);
    let beside_step: u64 = subtract(output_ceiling, HANDOFF_STEP_OVERHEAD_TOKENS);
    if beside_reserve < beside_step {
        beside_reserve
    } else {
        beside_step
    }
}

/// Input up to the trigger, the output of the model and the step of the handoff fit into the window
/// together, wherever anything fits at all.
pub proof fn handoff_leaves_room(
    context_window_tokens: u64,
    max_output_tokens: u64,
    reserve_percent: u64,
)
    ensures
        ({
            let trigger = handoff_trigger(
                context_window_tokens,
                max_output_tokens,
                reserve_percent,
            );
            &&& 0 <= trigger <= context_window_tokens
            &&& trigger > 0 ==> trigger + max_output_tokens + HANDOFF_STEP_OVERHEAD_TOKENS
                <= context_window_tokens
        }),
{
}

/// How much input a step of a session may have before it is handed off: nothing is known without a
/// selection or without its limits.
pub fn input_budget(limits: Option<Result<ModelLimits, ProfileResolveError>>) -> (r: Option<u64>)
    ensures
        r == match limits {
            Some(Ok(limits)) => Some(
                handoff_trigger(
                    limits.context_window_tokens,
                    limits.max_output_tokens as u64,
                    limits.reserve_percent,
                ) as u64,
            ),
            _ => None,
        },
{
    match limits {
        Some(Ok(limits)) => Some(
            handoff_input_trigger(
                limits.context_window_tokens,
                limits.max_output_tokens as u64,
                limits.reserve_percent,
            ),
        ),
        _ => None,
    }
}

/// How much output a step of a session may have.
pub fn max_output_tokens(limits: Option<Result<ModelLimits, ProfileResolveError>>) -> (r: Option<
    u32,
>)
    ensures
        r == match limits {
            Some(Ok(limits)) => Some(limits.max_output_tokens),
            _ => None,
        },
{
    match limits {
        Some(Ok(limits)) => Some(limits.max_output_tokens),
        _ => None,
    }
}

/// The limits of a selected model. `document_found` says whether the profile could be read;
/// `selected` is the model that the selection names in it, with its limits if it has any.
pub fn model_limits(document_found: bool, selected: Option<Option<ModelLimits>>) -> (r: Result<
    ModelLimits,
    ProfileResolveError,
>)
    ensures
        r == (if !document_found {
            Err(ProfileResolveError::NotFound)
        } else {
            match selected {
                Some(Some(limits)) => Ok(limits),
                _ => Err(ProfileResolveError::InvalidSelection),
            }
        }),
{
    if !document_found {
        return Err(ProfileResolveError::NotFound);
    }
    match selected {
        Some(Some(limits)) => Ok(limits),
        _ => Err(ProfileResolveError::InvalidSelection),
    }
}

/// How a provider is reached for a selection.
#[derive(Debug)]
pub struct ProfileExecution {
    pub profile_id: String,
    pub provider: String,
    pub model: String,
    pub api: String,
    pub streaming: bool,
    pub parallel_tool_calls: bool,
    pub service_tier: Option<String>,
    pub base_url: String,
    pub headers: Vec<(String, String)>,
    pub thinking: String,
    pub limits: ModelLimits,
    pub bearer: String,
}

/// How the built-in stand-in for a provider is reached.
pub fn fake_execution(selection: &SessionSelection, limits: ModelLimits, no_streaming: bool) -> (r:
    ProfileExecution)
    ensures
        r.profile_id@ == selection.profile_id@,
        r.provider@ == "openai"@,
        r.model@ == selection.model@,
        r.api@ == "openai-completions"@,
        r.streaming == !no_streaming,
        !r.parallel_tool_calls,
        r.service_tier is None,
        r.base_url@ == "http://127.0.0.1:9/v1"@,
        r.headers@.len() == 0,
        r.thinking@ == selection.thinking@,
        r.limits == limits,
        r.bearer@ == "fake"@,
{
    ProfileExecution {
        profile_id: selection.profile_id.clone(),
        provider: "openai".to_owned(),
        model: selection.model.clone(),
        api: "openai-completions".to_owned(),
        streaming: !no_streaming,
        parallel_tool_calls: false,
        service_tier: None,
        base_url: "http://127.0.0.1:9/v1".to_owned(),
        headers: Vec::new(),
        thinking: selection.thinking.clone(),
        limits,
        bearer: "fake".to_owned(),
    }
}

/// What resolving a selection gives. The stand-in needs the limits alone; a provider needs the
/// execution that was loaded, of which the process can switch streaming off.
pub fn resolve(
    fake: bool,
    no_streaming: bool,
    selection: &SessionSelection,
    limits: Result<ModelLimits, ProfileResolveError>,
    loaded: Option<ProfileExecution>,
) -> (r: Result<ProfileExecution, ProfileResolveError>)
    ensures
        fake ==> match limits {
            Ok(limits) => r is Ok && r->Ok_0.limits == limits && r->Ok_0.streaming == !no_streaming
                && r->Ok_0.bearer@ == "fake"@ && r->Ok_0.profile_id@ == selection.profile_id@
                && r->Ok_0.provider@ == "openai"@ && r->Ok_0.model@ == selection.model@
                && r->Ok_0.api@ == "openai-completions"@ && r->Ok_0.base_url@
                == "http://127.0.0.1:9/v1"@ && r->Ok_0.thinking@ == selection.thinking@
                && r->Ok_0.headers@.len() == 0 && !r->Ok_0.parallel_tool_calls
                && r->Ok_0.service_tier is None,
            Err(error) => r == Err::<ProfileExecution, ProfileResolveError>(error),
        },
        !fake ==> match loaded {
            Some(execution) => r == Ok::<ProfileExecution, ProfileResolveError>(
                ProfileExecution { streaming: execution.streaming && !no_streaming, ..execution },
            ),
            None => r == Err::<ProfileExecution, ProfileResolveError>(
                ProfileResolveError::AuthUnavailable,
            ),
        },
{
    if fake {
        return match limits {
            Ok(limits) => Ok(fake_execution(selection, limits, no_streaming)),
            Err(error) => Err(error),
        };
    }
    match loaded {
        Some(execution) => {
            let mut execution = execution;
            execution.streaming = execution.streaming && !no_streaming;
            Ok(execution)
        },
        None => Err(ProfileResolveError::AuthUnavailable),
    }
}

/// The error of a request whose profile could not be resolved.
pub fn resolve_error(error: ProfileResolveError) -> (r: ModelError)
    ensures
        r == match error {
            ProfileResolveError::InvalidSelection => ModelError::InvalidSelection,
            ProfileResolveError::NotFound | ProfileResolveError::AuthUnavailable =>
                ModelError::ProfileUnavailable,
            ProfileResolveError::Backend => ModelError::Unavailable,
        },
{
    match error {
        ProfileResolveError::InvalidSelection => ModelError::InvalidSelection,
        ProfileResolveError::NotFound
        | ProfileResolveError::AuthUnavailable => ModelError::ProfileUnavailable,
        ProfileResolveError::Backend => ModelError::Unavailable,
    }
}

/// Whether a request may go to the provider: it was made for the limits that the profile has now.
pub fn admit_request(max_output_tokens: Option<u32>, limits: &ModelLimits) -> (r: Result<
    (),
    ModelError,
>)
    ensures
        r == (if max_output_tokens == Some(limits.max_output_tokens) {
            Ok::<(), ModelError>(())
        } else {
            Err::<(), ModelError>(ModelError::InvalidSelection)
        }),
{
    match max_output_tokens {
        Some(tokens) => if tokens == limits.max_output_tokens {
            Ok(())
        } else {
            Err(ModelError::InvalidSelection)
        },
        None => Err(ModelError::InvalidSelection),
    }
}

/// A session hands off as late as it can: no input that is larger than the trigger leaves room in
/// the window for the output and the step of the handoff and beside the reserve, and the trigger
/// itself does, wherever anything does.
pub proof fn handoff_is_as_late_as_possible(
    context_window_tokens: u64,
    max_output_tokens: u64,
    reserve_percent: u64,
    input: int,
)
    requires
        context_window_tokens * reserve_percent <= u64::MAX,
        input >= 0,
    ensures
        ({
            let trigger = handoff_trigger(
                context_window_tokens,
                max_output_tokens,
                reserve_percent,
            );
            let reserve = context_window_tokens * reserve_percent / 100;
            &&& input + max_output_tokens + 4096 <= context_window_tokens && input + reserve
                <= context_window_tokens ==> input <= trigger
            &&& trigger > 0 ==> trigger + max_output_tokens + 4096 <= context_window_tokens
                && trigger + reserve <= context_window_tokens
        }),
{
}

} // verus!
