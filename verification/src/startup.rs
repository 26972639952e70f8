//! What the programs decide when they start: where they listen and what they hand to their tools.
use vstd::prelude::*;

use crate::config::{loopback, loopback_base_url};
use crate::execution::header_texts;
use crate::inbound::{filled, nonempty};
use crate::json::{no_fields, optional_str, optional_text, Json, JsonModel, JsonObject};
use crate::paths::{join_path, joined};
use crate::text::{contains, has_part, is_blank, join2, join3, same, trim, trimmed};
use crate::text_map::TextMap;

verus! {

/// Where the gateway listens for Slack: only where the configuration says so, and not where the
/// broker listens. `configured` is what the configuration says, if it could be read.
pub open spec fn gateway_place(configured: Option<Seq<char>>, runtime: Seq<char>) -> Option<
    Seq<char>,
> {
    match filled(configured) {
        Some(bind) => if bind == runtime {
            None
        } else {
            Some(bind)
        },
        None => None,
    }
}

/// Where the gateway listens for Slack.
pub fn gateway_bind(configured: Option<&str>, runtime: &str) -> (r: Option<String>)
    ensures
        optional_text(r) == gateway_place(optional_str(configured), runtime@),
{
    match nonempty(configured) {
        Some(bind) => if same(&bind, runtime) {
            None
        } else {
            Some(bind)
        },
        None => None,
    }
}

/// Where the administration listens: never where the broker listens.
pub open spec fn admin_place(configured: Option<Seq<char>>, runtime: Seq<char>) -> Seq<char> {
    match filled(configured) {
        Some(bind) => if bind == runtime {
            "127.0.0.1:3001"@
        } else {
            bind
        },
        None => "127.0.0.1:3001"@,
    }
}

/// Where the administration listens.
pub fn admin_bind(configured: Option<&str>, runtime: &str) -> (r: String)
    ensures
        r@ == admin_place(optional_str(configured), runtime@),
{
    match nonempty(configured) {
        Some(bind) => if same(&bind, runtime) {
            "127.0.0.1:3001".to_owned()
        } else {
            bind
        },
        None => "127.0.0.1:3001".to_owned(),
    }
}

/// The token of the administration, if the configuration names one.
pub fn admin_token(configured: Option<&str>) -> (r: Option<String>)
    ensures
        optional_text(r) == filled(optional_str(configured)),
{
    nonempty(configured)
}

/// Where the agent listens.
pub fn agent_bind(configured: &str) -> (r: String)
    ensures
        r@ == if trimmed(configured@).len() == 0 {
            "127.0.0.1:3010"@
        } else {
            configured@
        },
{
    if trim(configured).as_str().is_empty() {
        "127.0.0.1:3010".to_owned()
    } else {
        configured.to_owned()
    }
}

/// The message for an address that is none.
pub fn invalid_listen(listen: &str) -> (r: String)
    ensures
        r@ == "invalid agent listen address "@ + listen@,
{
    join2("invalid agent listen address ", listen)
}

/// The directories that tools find commands in: those of the installation first. There is no such
/// list where the directory of the installation holds the sign that separates two of them.
pub open spec fn command_path(data_root: Seq<char>, inherited: Option<Seq<char>>) -> Option<
    Seq<char>,
> {
    let own = joined(data_root, "bin"@);
    if has_part(own, ":"@) {
        None
    } else {
        match inherited {
            Some(path) => Some(own + ":"@ + path),
            None => Some(own),
        }
    }
}

/// The variables that tools run with.
pub open spec fn tool_environment(
    data_root: Seq<char>,
    runtime_bind: Seq<char>,
    path: Seq<char>,
) -> Map<Seq<char>, Seq<char>> {
    Map::<Seq<char>, Seq<char>>::empty().insert(
        "BROKER_API_BASE"@,
        loopback(runtime_bind),
    ).insert("REPOS_ROOT"@, joined(data_root, "repos"@)).insert("PATH"@, path)
}

/// The variables that tools run with.
pub fn session_tool_environment(data_root: &str, runtime_bind: &str, inherited: Option<&str>) -> (r:
    Option<TextMap<String>>)
    ensures
        match (r, command_path(data_root@, optional_str(inherited))) {
            (Some(variables), Some(path)) => variables.well_formed()
                && header_texts(variables) == tool_environment(
                data_root@,
                runtime_bind@,
                path,
            ),
            (None, None) => true,
            _ => false,
        },
{
    let own = join_path(data_root, "bin");
    if contains(&own, ":") {
        return None;
    }
    let path = match inherited {
        Some(rest) => join3(&own, ":", rest),
        None => own,
    };
    let mut variables: TextMap<String> = TextMap::new();
    let _ = variables.insert("BROKER_API_BASE", loopback_base_url(runtime_bind));
    let _ = variables.insert("REPOS_ROOT", join_path(data_root, "repos"));
    let _ = variables.insert("PATH", path);
    proof {
        assert(header_texts(variables) =~= tool_environment(
            data_root@,
            runtime_bind@,
            path@,
        ));
    }
    Some(variables)
}

/// The answer of a program that is ready.
pub fn ready_answer(pid: u32, service: &str) -> (r: Json)
    ensures
        r@ == JsonModel::Object(
            no_fields().push(("ok"@, JsonModel::Bool(true))).push(
                ("pid"@, JsonModel::Unsigned(pid as u64)),
            ).push(("service"@, JsonModel::Text(service@))),
        ),
{
    JsonObject::new().with("ok", Json::Bool(true)).with("pid", Json::Unsigned(pid as u64)).with(
        "service",
        Json::text(service),
    ).done()
}

/// Nothing else listens where the broker listens, unless the broker has taken the place that the
/// administration falls back on.
pub proof fn listeners_are_apart(
    gateway: Option<Seq<char>>,
    admin: Option<Seq<char>>,
    runtime: Seq<char>,
)
    requires
        runtime != "127.0.0.1:3001"@,
    ensures
        gateway_place(gateway, runtime) != Some(runtime),
        admin_place(admin, runtime) != runtime,
{
}

/// The gateway listens where the configuration says, without the white space around it, unless the
/// broker listens there; the administration does so too, and at its own place where the
/// configuration says nothing or the broker listens there.
pub proof fn programs_listen_where_configured(configured: Seq<char>, runtime: Seq<char>)
    ensures
        gateway_place(None, runtime) is None,
        is_blank(configured) ==> gateway_place(Some(configured), runtime) is None,
        !is_blank(configured) && trimmed(configured) != runtime ==> gateway_place(
            Some(configured),
            runtime,
        ) == Some(trimmed(configured)),
        trimmed(configured) == runtime ==> gateway_place(Some(configured), runtime) is None,
        admin_place(None, runtime) == "127.0.0.1:3001"@,
        is_blank(configured) ==> admin_place(Some(configured), runtime) == "127.0.0.1:3001"@,
        !is_blank(configured) && trimmed(configured) != runtime ==> admin_place(
            Some(configured),
            runtime,
        ) == trimmed(configured),
        !is_blank(configured) && trimmed(configured) == runtime ==> admin_place(
            Some(configured),
            runtime,
        ) == "127.0.0.1:3001"@,
{
}

/// Tools find the commands of the installation before all others, and find the others where they did
/// before. They are told where the broker and the repositories are, and nothing else.
pub proof fn tools_find_own_commands_first(
    data_root: Seq<char>,
    runtime_bind: Seq<char>,
    inherited: Seq<char>,
    path: Seq<char>,
)
    ensures
        ({
            let own = joined(data_root, "bin"@);
            &&& has_part(own, ":"@) ==> command_path(data_root, Some(inherited)) is None
                && command_path(data_root, None) is None
            &&& !has_part(own, ":"@) ==> command_path(data_root, Some(inherited)) == Some(
                own + ":"@ + inherited,
            ) && command_path(data_root, None) == Some(own)
        }),
        ({
            let variables = tool_environment(data_root, runtime_bind, path);
            &&& variables.dom() =~= set!["BROKER_API_BASE"@, "REPOS_ROOT"@, "PATH"@]
            &&& variables["BROKER_API_BASE"@] == loopback(runtime_bind)
            &&& variables["REPOS_ROOT"@] == joined(data_root, "repos"@)
            &&& variables["PATH"@] == path
        }),
{
    reveal_strlit("BROKER_API_BASE");
    reveal_strlit("REPOS_ROOT");
    reveal_strlit("PATH");
    assert("BROKER_API_BASE"@.len() == 15 && "REPOS_ROOT"@.len() == 10 && "PATH"@.len() == 4);
}

} // verus!
