//! The configuration of an installation, its command line and its addresses.
use vstd::prelude::*;

use crate::json::{optional_str, optional_text};
use crate::paths::{
    after_last, byte_len, join_path, joined, replace_char, replaced, socket_path, strip_trailing,
    text_after_last, unix_socket_path, without_trailing, UNIX_SOCK_MAX_BYTES,
};
use crate::text::{
    chars_of, decimal, decimal_text, is_blank, is_digit, join2, join3, number_of, parse_u32, same,
    split, split_text, texts, trim, trimmed, u32_of,
};

verus! {

pub const DEFAULT_GATEWAY_BIND: &'static str = "127.0.0.1:18790";

pub const DEFAULT_RUNTIME_BIND: &'static str = "127.0.0.1:3000";

pub const DEFAULT_CONTROL_BIND: &'static str = "127.0.0.1:3001";

pub const DEFAULT_AGENT_BIND: &'static str = "127.0.0.1:3010";

pub const DEFAULT_SLACK_API: &'static str = "https://slack.com/api";

#[derive(Debug)]
pub struct FileConfig {
    pub context: ContextConfig,
    pub im_connections: Vec<ImConnectionConfig>,
    pub bind: BindConfig,
    pub urls: UrlConfig,
    pub admin: AdminConfig,
}

impl Default for FileConfig {
    fn default() -> (r: FileConfig)
        ensures
            r.context == default_context(),
            r.im_connections@.len() == 0,
            r.bind.gateway@ == "127.0.0.1:18790"@,
            r.bind.runtime@ == "127.0.0.1:3000"@,
            r.bind.control@ == "127.0.0.1:3001"@,
            r.bind.agent@ == "127.0.0.1:3010"@,
            r.urls.gateway@.len() == 0,
            r.urls.runtime@.len() == 0,
            r.urls.admin@.len() == 0,
            r.admin.token@.len() == 0,
    {
        FileConfig {
            context: ContextConfig::default(),
            im_connections: Vec::new(),
            bind: BindConfig::default(),
            urls: UrlConfig::default(),
            admin: AdminConfig { token: String::new() },
        }
    }
}

/// How a session that outgrows its context goes on.
#[derive(Clone, Copy, Debug, PartialEq, Eq, Structural)]
pub enum ContextStrategy {
    Compaction,
    Handoff,
}

#[derive(Clone, Copy, Debug, PartialEq, Eq, Structural)]
pub struct ContextConfig {
    pub strategy: ContextStrategy,
    /// Approximate token target; call/result groups are never split.
    pub keep_recent_tokens: u32,
}

pub open spec fn default_context() -> ContextConfig {
    ContextConfig { strategy: ContextStrategy::Compaction, keep_recent_tokens: 20_000 }
}

impl Default for ContextConfig {
    fn default() -> (r: ContextConfig)
        ensures
            r == default_context(),
    {
        ContextConfig { strategy: ContextStrategy::Compaction, keep_recent_tokens: 20_000 }
    }
}

#[derive(Debug)]
pub struct ImConnectionConfig {
    pub id: String,
    pub name: String,
    pub enabled: bool,
    pub mode: ImMode,
    pub provider: ImProviderConfig,
}

#[derive(Debug)]
pub enum ImProviderConfig {
    Slack(SlackProviderConfig),
}

#[derive(Debug)]
pub struct SlackProviderConfig {
    pub app_token: String,
    pub bot_token: String,
    pub api_base_url: String,
}

#[derive(Clone, Copy, Debug, PartialEq, Eq, Structural)]
pub enum ImMode {
    Normal,
    Proactive,
}

/// A connection is enabled unless its configuration says otherwise.
pub fn default_enabled() -> (r: bool)
    ensures
        r,
{
    true
}

impl ImConnectionConfig {
    pub fn provider_name(&self) -> (r: &'static str)
        ensures
            r@ == "slack"@,
    {
        match &self.provider {
            ImProviderConfig::Slack(_) => "slack",
        }
    }

    pub fn slack(&self) -> (r: Option<&SlackProviderConfig>)
        ensures
            r == Some(&self.provider->Slack_0),
    {
        match &self.provider {
            ImProviderConfig::Slack(config) => Some(config),
        }
    }

    /// Whether both tokens are there.
    pub open spec fn is_configured(&self) -> bool {
        !is_blank(self.provider->Slack_0.app_token@) && !is_blank(
            self.provider->Slack_0.bot_token@,
        )
    }

    pub fn configured(&self) -> (r: bool)
        ensures
            r == self.is_configured(),
    {
        match &self.provider {
            ImProviderConfig::Slack(config) => {
                !trim(&config.app_token).as_str().is_empty() && !trim(
                    &config.bot_token,
                ).as_str().is_empty()
            },
        }
    }
}

/// A base address without the white space around it and the slashes at its end.
pub open spec fn base_address(value: Seq<char>) -> Seq<char> {
    without_trailing(trimmed(value), '/')
}

impl SlackProviderConfig {
    pub fn api_base_url(&self) -> (r: String)
        ensures
            r@ == if is_blank(self.api_base_url@) {
                "https://slack.com/api"@
            } else {
                base_address(self.api_base_url@)
            },
    {
        let value = trim(&self.api_base_url);
        if value.as_str().is_empty() {
            "https://slack.com/api".to_owned()
        } else {
            strip_trailing(&value, '/')
        }
    }
}

#[derive(Debug)]
pub struct BindConfig {
    pub gateway: String,
    pub runtime: String,
    pub control: String,
    pub agent: String,
}

#[derive(Debug)]
pub struct UrlConfig {
    pub gateway: String,
    pub runtime: String,
    pub admin: String,
}

#[derive(Debug)]
pub struct AdminConfig {
    pub token: String,
}

impl Default for BindConfig {
    fn default() -> (r: BindConfig)
        ensures
            r.gateway@ == "127.0.0.1:18790"@,
            r.runtime@ == "127.0.0.1:3000"@,
            r.control@ == "127.0.0.1:3001"@,
            r.agent@ == "127.0.0.1:3010"@,
    {
        BindConfig {
            gateway: default_gateway_bind(),
            runtime: default_runtime_bind(),
            control: default_control_bind(),
            agent: default_agent_bind(),
        }
    }
}

impl Default for UrlConfig {
    fn default() -> (r: UrlConfig)
        ensures
            r.gateway@.len() == 0,
            r.runtime@.len() == 0,
            r.admin@.len() == 0,
    {
        UrlConfig { gateway: String::new(), runtime: String::new(), admin: String::new() }
    }
}

pub fn default_gateway_bind() -> (r: String)
    ensures
        r@ == "127.0.0.1:18790"@,
{
    "127.0.0.1:18790".to_owned()
}

pub fn default_runtime_bind() -> (r: String)
    ensures
        r@ == "127.0.0.1:3000"@,
{
    "127.0.0.1:3000".to_owned()
}

pub fn default_control_bind() -> (r: String)
    ensures
        r@ == "127.0.0.1:3001"@,
{
    "127.0.0.1:3001".to_owned()
}

pub fn default_agent_bind() -> (r: String)
    ensures
        r@ == "127.0.0.1:3010"@,
{
    "127.0.0.1:3010".to_owned()
}

/// What the command line of a process says.
#[derive(Debug)]
pub struct ProcessArgs {
    pub data_root: String,
    pub listen_host: Option<String>,
    pub agent_token: Option<String>,
    pub fake_agent: bool,
    pub no_streaming: bool,
    pub ui_dir: Option<String>,
}

/// The options that have been read so far.
pub struct ArgsModel {
    pub data_root: Option<Seq<char>>,
    pub listen_host: Option<Seq<char>>,
    pub agent_token: Option<Seq<char>>,
    pub fake_agent: bool,
    pub no_streaming: bool,
    pub ui_dir: Option<Seq<char>>,
}

/// No option.
pub open spec fn no_args() -> ArgsModel {
    ArgsModel {
        data_root: None,
        listen_host: None,
        agent_token: None,
        fake_agent: false,
        no_streaming: false,
        ui_dir: None,
    }
}

/// The options after `args`, or what is wrong with them. An option that takes a value takes the
/// next argument, whatever it is; a later option replaces an earlier one; arguments that are no
/// options are passed over.
pub open spec fn args_read(read: ArgsModel, args: Seq<Seq<char>>) -> Result<ArgsModel, Seq<char>>
    decreases args.len(),
{
    if args.len() == 0 {
        Ok(read)
    } else if args[0] == "--data"@ {
        if args.len() < 2 {
            Err("missing value for --data"@)
        } else {
            args_read(ArgsModel { data_root: Some(args[1]), ..read }, args.skip(2))
        }
    } else if args[0] == "--listen"@ {
        if args.len() < 2 {
            Err("missing value for --listen"@)
        } else {
            args_read(ArgsModel { listen_host: Some(args[1]), ..read }, args.skip(2))
        }
    } else if args[0] == "--agent-token"@ {
        if args.len() < 2 {
            Err("missing value for --agent-token"@)
        } else if args[1].len() == 0 {
            Err("--agent-token must not be empty"@)
        } else {
            args_read(ArgsModel { agent_token: Some(args[1]), ..read }, args.skip(2))
        }
    } else if args[0] == "--ui-dir"@ {
        if args.len() < 2 {
            Err("missing value for --ui-dir"@)
        } else {
            args_read(ArgsModel { ui_dir: Some(args[1]), ..read }, args.skip(2))
        }
    } else if args[0] == "--fake-agent"@ {
        args_read(ArgsModel { fake_agent: true, ..read }, args.skip(1))
    } else if args[0] == "--no-streaming"@ {
        args_read(ArgsModel { no_streaming: true, ..read }, args.skip(1))
    } else if args[0] == "--help"@ || args[0] == "-h"@ {
        args_read(read, args.skip(1))
    } else if args[0].len() > 0 && args[0][0] == '-' {
        Err("unknown argument: "@ + args[0])
    } else {
        args_read(read, args.skip(1))
    }
}

spec fn args_model(
    data_root: Option<String>,
    listen_host: Option<String>,
    agent_token: Option<String>,
    fake_agent: bool,
    no_streaming: bool,
    ui_dir: Option<String>,
) -> ArgsModel {
    ArgsModel {
        data_root: optional_text(data_root),
        listen_host: optional_text(listen_host),
        agent_token: optional_text(agent_token),
        fake_agent,
        no_streaming,
        ui_dir: optional_text(ui_dir),
    }
}

/// Reads the command line `args`. Without `--data` the data root is `default_root`.
pub fn parse_process_args_from(args: &Vec<String>, default_root: &str) -> (r: Result<
    ProcessArgs,
    String,
>)
    ensures
        match (r, args_read(no_args(), texts(args@))) {
            (Ok(parsed), Ok(read)) => {
                &&& parsed.data_root@ == match read.data_root {
                    Some(root) => root,
                    None => default_root@,
                }
                &&& optional_text(parsed.listen_host) == read.listen_host
                &&& optional_text(parsed.agent_token) == read.agent_token
                &&& parsed.fake_agent == read.fake_agent
                &&& parsed.no_streaming == read.no_streaming
                &&& optional_text(parsed.ui_dir) == read.ui_dir
            },
            (Err(message), Err(expected)) => message@ == expected,
            _ => false,
        },
{
    let mut data_root: Option<String> = None;
    let mut listen_host: Option<String> = None;
    let mut agent_token: Option<String> = None;
    let mut fake_agent: bool = false;
    let mut no_streaming: bool = false;
    let mut ui_dir: Option<String> = None;
    let mut i: usize = 0;
    proof {
        assert(texts(args@).skip(0) =~= texts(args@));
    }
    while i < args.len()
        invariant
            i <= args.len(),
            args_read(no_args(), texts(args@)) == args_read(
                args_model(
                    data_root,
                    listen_host,
                    agent_token,
                    fake_agent,
                    no_streaming,
                    ui_dir,
                ),
                texts(args@).skip(i as int),
            ),
        decreases args.len() - i,
    {
        let ghost rest = texts(args@).skip(i as int);
        proof {
            assert(rest.skip(1) =~= texts(args@).skip(i + 1));
            assert(i + 1 < args.len() ==> rest.skip(2) =~= texts(args@).skip(i + 2));
        }
        let arg = args[i].as_str();
        i = i + 1;
        if same(arg, "--data") {
            if i == args.len() {
                return Err("missing value for --data".to_owned());
            }
            data_root = Some(args[i].clone());
            i = i + 1;
        } else if same(arg, "--listen") {
            if i == args.len() {
                return Err("missing value for --listen".to_owned());
            }
            listen_host = Some(args[i].clone());
            i = i + 1;
        } else if same(arg, "--agent-token") {
            if i == args.len() {
                return Err("missing value for --agent-token".to_owned());
            }
            if args[i].as_str().is_empty() {
                return Err("--agent-token must not be empty".to_owned());
            }
            agent_token = Some(args[i].clone());
            i = i + 1;
        } else if same(arg, "--ui-dir") {
            if i == args.len() {
                return Err("missing value for --ui-dir".to_owned());
            }
            ui_dir = Some(args[i].clone());
            i = i + 1;
        } else if same(arg, "--fake-agent") {
            fake_agent = true;
        } else if same(arg, "--no-streaming") {
            no_streaming = true;
        } else if same(arg, "--help") || same(arg, "-h") {
        } else {
            let v = chars_of(arg);
            if v.len() > 0 && v[0] == '-' {
                return Err(join2("unknown argument: ", arg));
            }
        }
    }
    let root = match data_root {
        Some(root) => root,
        None => default_root.to_owned(),
    };
    Ok(
        ProcessArgs {
            data_root: root,
            listen_host,
            agent_token,
            fake_agent,
            no_streaming,
            ui_dir,
        },
    )
}

/// A value of the environment without the white space around it, if anything is left.
pub open spec fn env_value(value: Option<Seq<char>>) -> Option<Seq<char>> {
    match value {
        Some(text) => if is_blank(text) {
            None
        } else {
            Some(trimmed(text))
        },
        None => None,
    }
}

pub fn clean_env(value: Option<&str>) -> (r: Option<String>)
    ensures
        optional_text(r) == env_value(optional_str(value)),
{
    match value {
        Some(text) => {
            let clean = trim(text);
            if clean.as_str().is_empty() {
                None
            } else {
                Some(clean)
            }
        },
        None => None,
    }
}

/// The home directory that the environment names: `HOME` before `USERPROFILE`, else here.
pub open spec fn home(home: Option<Seq<char>>, user_profile: Option<Seq<char>>) -> Seq<char> {
    match env_value(home) {
        Some(path) => path,
        None => match env_value(user_profile) {
            Some(path) => path,
            None => "."@,
        },
    }
}

/// The data root of an installation that names none, from the values of `HOME` and
/// `USERPROFILE`.
pub fn default_data_root(home_value: Option<&str>, user_profile: Option<&str>) -> (r: String)
    ensures
        r@ == joined(home(optional_str(home_value), optional_str(user_profile)), ".zork"@),
{
    let base = match clean_env(home_value) {
        Some(path) => path,
        None => match clean_env(user_profile) {
            Some(path) => path,
            None => ".".to_owned(),
        },
    };
    join_path(&base, ".zork")
}

pub fn config_path(data_root: &str) -> (r: String)
    ensures
        r@ == joined(data_root@, "config.json"@),
{
    join_path(data_root, "config.json")
}

pub fn zork_sock_path(data_root: &str) -> (r: String)
    ensures
        r@ == socket_path(data_root@, "sup"@),
        byte_len(r@) <= UNIX_SOCK_MAX_BYTES,
{
    unix_socket_path(data_root, "sup")
}

pub fn zork_pid_path(data_root: &str) -> (r: String)
    ensures
        r@ == joined(data_root@, "zork.pid"@),
{
    join_path(data_root, "zork.pid")
}

pub fn ready_pid_path(data_root: &str, name: &str) -> (r: String)
    ensures
        r@ == joined(joined(data_root@, "run"@), name@ + ".pid"@),
{
    join_path(&join_path(data_root, "run"), &join2(name, ".pid"))
}

/// What a ready file of process `pid` holds.
pub fn ready_pid_body(pid: u32) -> (r: String)
    ensures
        r@ == decimal(pid as nat).push('\n'),
{
    let mut out = decimal_text(pid as u64);
    out.push('\n');
    out
}

/// The process that a ready file names.
pub fn parse_ready_pid(body: &str) -> (r: Option<u32>)
    ensures
        r == u32_of(trimmed(body@)),
{
    parse_u32(&trim(body))
}

/// Whether the ready file with this content, if there is one, is that of `current` and is to be
/// removed when it stops.
pub fn clears_ready_pid(body: Option<&str>, current: u32) -> (r: bool)
    ensures
        r == match body {
            Some(text) => u32_of(trimmed(text@)) == Some(current),
            None => false,
        },
{
    match body {
        Some(text) => match parse_ready_pid(text) {
            Some(pid) => pid == current,
            None => false,
        },
        None => false,
    }
}

/// An address with another host; the port stays.
pub open spec fn host_replaced(bind: Seq<char>, host: Seq<char>) -> Seq<char> {
    host + ":"@ + after_last(bind, ':')
}

pub fn replace_host(bind: &str, host: &str) -> (r: String)
    ensures
        r@ == host_replaced(bind@, host@),
{
    join3(host, ":", &text_after_last(bind, ':'))
}

/// Lets the gateway, the runtime and the control server listen on `host`; nothing else changes.
pub fn apply_listen(config: &mut FileConfig, host: &str)
    ensures
        final(config).bind.gateway@ == host_replaced(old(config).bind.gateway@, host@),
        final(config).bind.runtime@ == host_replaced(old(config).bind.runtime@, host@),
        final(config).bind.control@ == host_replaced(old(config).bind.control@, host@),
        final(config).bind.agent == old(config).bind.agent,
        final(config).context == old(config).context,
        final(config).im_connections == old(config).im_connections,
        final(config).urls == old(config).urls,
        final(config).admin == old(config).admin,
{
    config.bind.gateway = replace_host(&config.bind.gateway, host);
    config.bind.runtime = replace_host(&config.bind.runtime, host);
    config.bind.control = replace_host(&config.bind.control, host);
}

pub fn has_configured_im_connection(config: &FileConfig) -> (r: bool)
    ensures
        r == exists|i: int|
            0 <= i < config.im_connections@.len() && (
            #[trigger] config.im_connections@[i]).is_configured(),
{
    let mut i: usize = 0;
    while i < config.im_connections.len()
        invariant
            i <= config.im_connections.len(),
            forall|j: int| 0 <= j < i ==> !(#[trigger] config.im_connections@[j]).is_configured(),
        decreases config.im_connections.len() - i,
    {
        if config.im_connections[i].configured() {
            return true;
        }
        i = i + 1;
    }
    false
}

/// The address of a local server that listens on `bind`.
pub open spec fn loopback(bind: Seq<char>) -> Seq<char> {
    "http://127.0.0.1:"@ + after_last(bind, ':')
}

pub fn loopback_base_url(bind: &str) -> (r: String)
    ensures
        r@ == loopback(bind@),
{
    join2("http://127.0.0.1:", &text_after_last(bind, ':'))
}

/// A configured address without the slashes at its end, or the local one.
pub open spec fn base_url_of(url: Seq<char>, bind: Seq<char>) -> Seq<char> {
    if is_blank(url) {
        loopback(bind)
    } else {
        without_trailing(url, '/')
    }
}

fn base_url(url: &str, bind: &str) -> (r: String)
    ensures
        r@ == base_url_of(url@, bind@),
{
    if trim(url).as_str().is_empty() {
        loopback_base_url(bind)
    } else {
        strip_trailing(url, '/')
    }
}

pub fn gateway_base_url(config: &FileConfig) -> (r: String)
    ensures
        r@ == base_url_of(config.urls.gateway@, config.bind.gateway@),
{
    base_url(&config.urls.gateway, &config.bind.gateway)
}

pub fn runtime_base_url(config: &FileConfig) -> (r: String)
    ensures
        r@ == base_url_of(config.urls.runtime@, config.bind.runtime@),
{
    base_url(&config.urls.runtime, &config.bind.runtime)
}

/// The address of the admin interface. White space around a configured one is dropped.
pub fn admin_base_url(config: &FileConfig) -> (r: String)
    ensures
        r@ == if is_blank(config.urls.admin@) {
            loopback(config.bind.control@)
        } else {
            base_address(config.urls.admin@)
        },
{
    let value = trim(&config.urls.admin);
    if value.as_str().is_empty() {
        loopback_base_url(&config.bind.control)
    } else {
        strip_trailing(&value, '/')
    }
}

/// The address of one session in the admin interface.
pub fn admin_session_url(admin_base: &str, session_key: &str) -> (r: String)
    ensures
        r@ == base_address(admin_base@) + "/admin/sessions/"@ + replaced(
            session_key@,
            ':',
            "%3A"@,
        ),
{
    let base = strip_trailing(&trim(admin_base), '/');
    join3(&base, "/admin/sessions/", &encode_session_key(session_key))
}

pub fn encode_session_key(session_key: &str) -> (r: String)
    ensures
        r@ == replaced(session_key@, ':', "%3A"@),
{
    replace_char(session_key, ':', "%3A")
}

/// The texts at the positions that are not marked.
pub open spec fn unmarked(names: Seq<Seq<char>>, marks: Seq<bool>) -> Seq<Seq<char>>
    decreases names.len(),
{
    if names.len() == 0 {
        Seq::empty()
    } else if marks[names.len() - 1] {
        unmarked(names.drop_last(), marks)
    } else {
        unmarked(names.drop_last(), marks).push(names.last())
    }
}

/// The commands that were not found, in their order; `found` says of each whether it was.
pub fn missing_commands(names: &Vec<String>, found: &Vec<bool>) -> (r: Vec<String>)
    requires
        names.len() == found.len(),
    ensures
        texts(r@) == unmarked(texts(names@), found@),
{
    let mut out: Vec<String> = Vec::new();
    let mut i: usize = 0;
    proof {
        assert(texts(names@).take(0) =~= Seq::<Seq<char>>::empty());
        assert(texts(out@) =~= Seq::<Seq<char>>::empty());
    }
    while i < names.len()
        invariant
            i <= names.len(),
            names.len() == found.len(),
            texts(out@) == unmarked(texts(names@).take(i as int), found@),
        decreases names.len() - i,
    {
        proof {
            assert(texts(names@).take(i + 1).drop_last() =~= texts(names@).take(i as int));
        }
        if !found[i] {
            let ghost before = out@;
            out.push(names[i].clone());
            proof {
                assert(texts(out@) =~= texts(before).push(names@[i as int]@));
            }
        }
        i = i + 1;
    }
    proof {
        assert(texts(names@).take(names@.len() as int) =~= texts(names@));
    }
    out
}

/// The files of a name in the directories that a search path lists, in order.
pub open spec fn searched(path: Seq<char>, name: Seq<char>) -> Seq<Seq<char>> {
    split(path, ':').map_values(|dir: Seq<char>| joined(dir, name))
}

/// The places of a command on the search path, in order; the first that is a file is the command.
pub fn path_candidates(path: Option<&str>, name: &str) -> (r: Vec<String>)
    ensures
        texts(r@) == match path {
            Some(path) => searched(path@, name@),
            None => Seq::<Seq<char>>::empty(),
        },
{
    let mut out: Vec<String> = Vec::new();
    let path = match path {
        Some(path) => path,
        None => {
            proof {
                assert(texts(out@) =~= Seq::<Seq<char>>::empty());
            }
            return out;
        },
    };
    let dirs = split_text(path, ':');
    let ghost all = texts(dirs@);
    let mut i: usize = 0;
    while i < dirs.len()
        invariant
            i <= dirs.len(),
            all == texts(dirs@),
            out@.len() == i,
            forall|j: int| 0 <= j < i ==> (#[trigger] out@[j])@ == joined(all[j], name@),
        decreases dirs.len() - i,
    {
        out.push(join_path(&dirs[i], name));
        i = i + 1;
    }
    proof {
        assert(texts(out@) =~= searched(path@, name@));
    }
    out
}

/// The places of a program of the installation, in order: its own directory, the one of the running
/// program, the search path.
pub fn bin_candidates(name: &str, data_root: &str, exe_dir: Option<&str>, path: Option<&str>) -> (r:
    Vec<String>)
    ensures
        texts(r@) == (seq![joined(joined(data_root@, "bin"@), name@)] + (match exe_dir {
            Some(dir) => seq![joined(dir@, name@)],
            None => Seq::<Seq<char>>::empty(),
        })) + match path {
            Some(path) => searched(path@, name@),
            None => Seq::<Seq<char>>::empty(),
        },
{
    let mut out: Vec<String> = Vec::new();
    out.push(join_path(&join_path(data_root, "bin"), name));
    if let Some(dir) = exe_dir {
        out.push(join_path(dir, name));
    }
    let ghost near = texts(out@);
    let mut rest = path_candidates(path, name);
    let ghost far = texts(rest@);
    proof {
        assert(near =~= seq![joined(joined(data_root@, "bin"@), name@)] + (match exe_dir {
            Some(dir) => seq![joined(dir@, name@)],
            None => Seq::<Seq<char>>::empty(),
        }));
    }
    out.append(&mut rest);
    proof {
        assert(texts(out@) =~= near + far);
    }
    out
}

/// The first place that is a file; `is_file` says of each whether it is.
pub fn first_file(is_file: &Vec<bool>) -> (r: Option<usize>)
    ensures
        match r {
            Some(i) => i < is_file@.len() && is_file@[i as int] && forall|j: int|
                0 <= j < i ==> !is_file@[j],
            None => forall|j: int| 0 <= j < is_file@.len() ==> !is_file@[j],
        },
{
    let mut i: usize = 0;
    while i < is_file.len()
        invariant
            i <= is_file.len(),
            forall|j: int| 0 <= j < i ==> !is_file@[j],
        decreases is_file.len() - i,
    {
        if is_file[i] {
            return Some(i);
        }
        i = i + 1;
    }
    None
}

/// The directories above a program that are searched: the three nearest.
pub open spec fn searched_above(exe_dirs: Seq<Seq<char>>) -> Seq<Seq<char>> {
    exe_dirs.subrange(1, if exe_dirs.len() < 4 {
        exe_dirs.len() as int
    } else {
        4
    })
}

/// The directories in which the admin interface is looked for, in order. `exe_dirs` are the
/// directory of the running program and, after it, the directories above, the nearest first.
pub open spec fn ui_candidates(
    data_root: Seq<char>,
    explicit: Option<Seq<char>>,
    exe_dirs: Seq<Seq<char>>,
) -> Seq<Seq<char>> {
    let first = match explicit {
        Some(path) => seq![path],
        None => Seq::<Seq<char>>::empty(),
    };
    let own = first + seq![joined(data_root, "ui"@), "/ui"@];
    let near = if exe_dirs.len() == 0 {
        Seq::<Seq<char>>::empty()
    } else {
        seq![joined(exe_dirs[0], "ui"@)] + searched_above(exe_dirs).map_values(
            |dir: Seq<char>| joined(dir, "apps/admin-ui/dist"@),
        )
    };
    (own + near).push("apps/admin-ui/dist"@)
}

pub fn ui_dir_candidates(
    data_root: &str,
    explicit: Option<&str>,
    exe_dirs: &Vec<String>,
) -> (r: Vec<String>)
    ensures
        texts(r@) == ui_candidates(data_root@, optional_str(explicit), texts(exe_dirs@)),
{
    let mut out: Vec<String> = Vec::new();
    if let Some(path) = explicit {
        out.push(path.to_owned());
    }
    out.push(join_path(data_root, "ui"));
    out.push("/ui".to_owned());
    let ghost own = texts(out@);
    let ghost first = match optional_str(explicit) {
        Some(path) => seq![path],
        None => Seq::<Seq<char>>::empty(),
    };
    proof {
        assert(own =~= first + seq![joined(data_root@, "ui"@), "/ui"@]);
    }
    let ghost dirs = texts(exe_dirs@);
    if exe_dirs.len() > 0 {
        out.push(join_path(&exe_dirs[0], "ui"));
        let mut i: usize = 1;
        let ghost f = |dir: Seq<char>| joined(dir, "apps/admin-ui/dist"@);
        proof {
            assert(texts(out@) =~= own + (seq![joined(dirs[0], "ui"@)] + dirs.subrange(
                1,
                1,
            ).map_values(f)));
        }
        while i < exe_dirs.len() && i < 4
            invariant
                1 <= i <= exe_dirs.len(),
                i <= 4,
                dirs == texts(exe_dirs@),
                f == (|dir: Seq<char>| joined(dir, "apps/admin-ui/dist"@)),
                texts(out@) == own + (seq![joined(dirs[0], "ui"@)] + dirs.subrange(
                    1,
                    i as int,
                ).map_values(f)),
            decreases exe_dirs.len() - i,
        {
            let ghost before = texts(out@);
            out.push(join_path(&exe_dirs[i], "apps/admin-ui/dist"));
            proof {
                assert(texts(out@) =~= before.push(f(dirs[i as int])));
                assert(dirs.subrange(1, i + 1).map_values(f) =~= dirs.subrange(
                    1,
                    i as int,
                ).map_values(f).push(f(dirs[i as int])));
                assert(before.push(f(dirs[i as int])) =~= own + (seq![joined(dirs[0], "ui"@)]
                    + dirs.subrange(1, i + 1).map_values(f)));
            }
            i = i + 1;
        }
    } else {
        proof {
            assert(own + Seq::<Seq<char>>::empty() =~= own);
        }
    }
    let ghost before = texts(out@);
    out.push("apps/admin-ui/dist".to_owned());
    proof {
        assert(texts(out@) =~= before.push("apps/admin-ui/dist"@));
    }
    out
}

/// The first candidate that holds the interface, else the place below the data root.
pub fn resolve_ui_dir(data_root: &str, candidates: &Vec<String>, holds_ui: &Vec<bool>) -> (r:
    String)
    requires
        candidates.len() == holds_ui.len(),
    ensures
        match first_marked(holds_ui@) {
            Some(i) => r@ == candidates@[i]@,
            None => r@ == joined(data_root@, "ui"@),
        },
{
    let mut i: usize = 0;
    while i < candidates.len()
        invariant
            i <= candidates.len(),
            candidates.len() == holds_ui.len(),
            forall|j: int| 0 <= j < i ==> !(#[trigger] holds_ui@[j]),
        decreases candidates.len() - i,
    {
        if holds_ui[i] {
            proof {
                lemma_first_marked(holds_ui@, i as int);
            }
            return candidates[i].clone();
        }
        i = i + 1;
    }
    join_path(data_root, "ui")
}

/// The first position that is marked.
pub open spec fn first_marked(marks: Seq<bool>) -> Option<int> {
    if exists|i: int| 0 <= i < marks.len() && (#[trigger] marks[i]) {
        Some(
            choose|i: int|
                0 <= i < marks.len() && (#[trigger] marks[i]) && forall|j: int|
                    0 <= j < i ==> !(#[trigger] marks[j]),
        )
    } else {
        None
    }
}

proof fn lemma_first_marked(marks: Seq<bool>, i: int)
    requires
        0 <= i < marks.len(),
        marks[i],
        forall|j: int| 0 <= j < i ==> !(#[trigger] marks[j]),
    ensures
        first_marked(marks) == Some(i),
{
    let k = choose|i: int|
        0 <= i < marks.len() && (#[trigger] marks[i]) && forall|j: int|
            0 <= j < i ==> !(#[trigger] marks[j]);
    assert(k == i) by {
        if k < i {
            assert(!marks[k]);
        }
        if i < k {
            assert(!marks[i]);
        }
    }
}

proof fn lemma_decimal(n: nat)
    ensures
        decimal(n).len() > 0,
        forall|i: int| 0 <= i < decimal(n).len() ==> is_digit(#[trigger] decimal(n)[i]),
        number_of(decimal(n)) == n,
    decreases n,
{
    if n < 10 {
        let s = decimal(n);
        assert(s.drop_last() =~= Seq::<char>::empty());
        assert(number_of(s) == (number_of(s.drop_last()) * 10 + ((s.last() as u32) - 48)) as nat);
    } else {
        lemma_decimal(n / 10);
        let s = decimal(n);
        assert(s.drop_last() =~= decimal(n / 10));
    }
}

/// The process that a ready file of process `pid` names is `pid`.
pub proof fn ready_pid_round_trips(pid: u32)
    ensures
        u32_of(trimmed(decimal(pid as nat).push('\n'))) == Some(pid),
{
    let d = decimal(pid as nat);
    lemma_decimal(pid as nat);
    let s = d.push('\n');
    assert forall|i: int| 0 <= i < d.len() implies !crate::text::is_space(#[trigger] s[i]) by {
        assert(s[i] == d[i]);
    }
    crate::text::trim_range(s, 0, d.len() as int);
    assert(s.subrange(0, d.len() as int) =~= d);
    assert(is_digit(d[0]));
}

/// Listening on another host keeps every port: what follows the last colon of an address stays.
pub proof fn listening_keeps_ports(bind: Seq<char>, host: Seq<char>)
    ensures
        after_last(host_replaced(bind, host), ':') == after_last(bind, ':'),
        loopback(host_replaced(bind, host)) == loopback(bind),
{
    let port = after_last(bind, ':');
    lemma_after_last(bind, ':');
    reveal_strlit(":");
    lemma_after_mark(host + ":"@, port, ':');
}

proof fn lemma_after_last(s: Seq<char>, mark: char)
    ensures
        forall|i: int| 0 <= i < after_last(s, mark).len() ==> #[trigger] after_last(s, mark)[i] != mark,
    decreases s.len(),
{
    if s.len() > 0 && s.last() != mark {
        lemma_after_last(s.drop_last(), mark);
        let before = after_last(s.drop_last(), mark);
        assert forall|i: int| 0 <= i < after_last(s, mark).len() implies #[trigger] after_last(
            s,
            mark,
        )[i] != mark by {
            if i < before.len() {
                assert(after_last(s, mark)[i] == before[i]);
            }
        }
    }
}

proof fn lemma_after_mark(head: Seq<char>, tail: Seq<char>, mark: char)
    requires
        head.len() > 0,
        head.last() == mark,
        forall|i: int| 0 <= i < tail.len() ==> #[trigger] tail[i] != mark,
    ensures
        after_last(head + tail, mark) == tail,
    decreases tail.len(),
{
    if tail.len() == 0 {
        assert(head + tail =~= head);
        assert(after_last(head, mark) =~= tail);
    } else {
        assert((head + tail).drop_last() =~= head + tail.drop_last());
        lemma_after_mark(head, tail.drop_last(), mark);
        assert(after_last(head + tail, mark) =~= tail);
    }
}

/// The options of a command line: the ones that take a value take the argument behind them, and the
/// last of a name counts; those that take none are switched on; help and arguments that are no
/// options change nothing. An option that is not known, that lacks its value, or an empty token, is
/// refused.
pub proof fn options_are_read_one_by_one(
    read: ArgsModel,
    value: Seq<char>,
    rest: Seq<Seq<char>>,
    other: Seq<char>,
)
    ensures
        args_read(read, seq!["--data"@, value] + rest) == args_read(
            ArgsModel { data_root: Some(value), ..read },
            rest,
        ),
        args_read(read, seq!["--listen"@, value] + rest) == args_read(
            ArgsModel { listen_host: Some(value), ..read },
            rest,
        ),
        value.len() > 0 ==> args_read(read, seq!["--agent-token"@, value] + rest) == args_read(
            ArgsModel { agent_token: Some(value), ..read },
            rest,
        ),
        value.len() == 0 ==> args_read(read, seq!["--agent-token"@, value] + rest) == Err::<
            ArgsModel,
            Seq<char>,
        >("--agent-token must not be empty"@),
        args_read(read, seq!["--ui-dir"@, value] + rest) == args_read(
            ArgsModel { ui_dir: Some(value), ..read },
            rest,
        ),
        args_read(read, seq!["--fake-agent"@] + rest) == args_read(
            ArgsModel { fake_agent: true, ..read },
            rest,
        ),
        args_read(read, seq!["--no-streaming"@] + rest) == args_read(
            ArgsModel { no_streaming: true, ..read },
            rest,
        ),
        args_read(read, seq!["--help"@] + rest) == args_read(read, rest),
        args_read(read, seq!["-h"@] + rest) == args_read(read, rest),
        other.len() == 0 || other[0] != '-' ==> args_read(read, seq![other] + rest) == args_read(
            read,
            rest,
        ),
        args_read(read, seq!["--data"@]) == Err::<ArgsModel, Seq<char>>(
            "missing value for --data"@,
        ),
        args_read(read, seq!["--listen"@]) == Err::<ArgsModel, Seq<char>>(
            "missing value for --listen"@,
        ),
        args_read(read, seq!["--agent-token"@]) == Err::<ArgsModel, Seq<char>>(
            "missing value for --agent-token"@,
        ),
        args_read(read, seq!["--ui-dir"@]) == Err::<ArgsModel, Seq<char>>(
            "missing value for --ui-dir"@,
        ),
        args_read(read, Seq::empty()) == Ok::<ArgsModel, Seq<char>>(read),
        !is_option(other) && other.len() > 0 && other[0] == '-' ==> args_read(
            read,
            seq![other] + rest,
        ) == Err::<ArgsModel, Seq<char>>("unknown argument: "@ + other),
{
    reveal_strlit("--data");
    reveal_strlit("--listen");
    reveal_strlit("--agent-token");
    reveal_strlit("--ui-dir");
    reveal_strlit("--fake-agent");
    reveal_strlit("--no-streaming");
    reveal_strlit("--help");
    reveal_strlit("-h");
    assert("--data"@.len() == 6 && "--listen"@.len() == 8 && "--agent-token"@.len() == 13
        && "--ui-dir"@.len() == 8 && "--fake-agent"@.len() == 12 && "--no-streaming"@.len() == 14
        && "--help"@.len() == 6 && "-h"@.len() == 2);
    assert("--data"@[2] != "--help"@[2] && "--listen"@[2] != "--ui-dir"@[2]);
    assert("--data"@[0] == '-' && "--listen"@[0] == '-' && "--agent-token"@[0] == '-'
        && "--ui-dir"@[0] == '-' && "--fake-agent"@[0] == '-' && "--no-streaming"@[0] == '-'
        && "--help"@[0] == '-' && "-h"@[0] == '-');
    assert((seq!["--data"@, value] + rest).skip(2) =~= rest);
    assert((seq!["--listen"@, value] + rest).skip(2) =~= rest);
    assert((seq!["--agent-token"@, value] + rest).skip(2) =~= rest);
    assert((seq!["--ui-dir"@, value] + rest).skip(2) =~= rest);
    assert((seq!["--fake-agent"@] + rest).skip(1) =~= rest);
    assert((seq!["--no-streaming"@] + rest).skip(1) =~= rest);
    assert((seq!["--help"@] + rest).skip(1) =~= rest);
    assert((seq!["-h"@] + rest).skip(1) =~= rest);
    assert((seq![other] + rest).skip(1) =~= rest);
    assert((seq![other] + rest)[0] == other);
}

/// Whether an argument is the name of an option.
pub open spec fn is_option(argument: Seq<char>) -> bool {
    argument == "--data"@ || argument == "--listen"@ || argument == "--agent-token"@ || argument
        == "--ui-dir"@ || argument == "--fake-agent"@ || argument == "--no-streaming"@ || argument
        == "--help"@ || argument == "-h"@
}

/// A session that outgrows its context is compacted to 20000 tokens unless something else is
/// configured, and a connection is configured once it has both of its tokens.
pub proof fn defaults_compact_sessions(connection: &ImConnectionConfig)
    ensures
        default_context().strategy is Compaction,
        default_context().keep_recent_tokens == 20_000,
        connection.is_configured() <==> !is_blank(connection.provider->Slack_0.app_token@)
            && !is_blank(connection.provider->Slack_0.bot_token@),
        no_args().data_root is None && no_args().listen_host is None && no_args().agent_token is None
            && no_args().ui_dir is None && !no_args().fake_agent && !no_args().no_streaming,
{
}

/// The home directory is that of `HOME`, else that of `USERPROFILE`, else the current one; blank
/// values count as missing, and the white space around others is dropped.
pub proof fn homes_come_from_the_environment(first: Seq<char>, second: Seq<char>)
    ensures
        !is_blank(first) ==> home(Some(first), Some(second)) == trimmed(first),
        is_blank(first) && !is_blank(second) ==> home(Some(first), Some(second)) == trimmed(second),
        !is_blank(second) ==> home(None, Some(second)) == trimmed(second),
        home(None, None) == "."@,
        is_blank(first) && is_blank(second) ==> home(Some(first), Some(second)) == "."@,
{
}

/// An address that is configured is used without the slashes at its end; where none is, the local
/// server on the port of the bind address is.
pub proof fn addresses_fall_back_on_this_machine(url: Seq<char>, bind: Seq<char>)
    ensures
        is_blank(url) ==> base_url_of(url, bind) == "http://127.0.0.1:"@ + after_last(bind, ':'),
        !is_blank(url) ==> base_url_of(url, bind) == without_trailing(url, '/'),
        loopback(bind) == "http://127.0.0.1:"@ + after_last(bind, ':'),
        base_address(url) == without_trailing(trimmed(url), '/'),
{
}

/// The commands that are missing are exactly those that were not found, in their order.
pub proof fn missing_commands_were_not_found(names: Seq<Seq<char>>, marks: Seq<bool>)
    requires
        names.len() == marks.len(),
    ensures
        forall|name: Seq<char>| #[trigger]
            unmarked(names, marks).contains(name) <==> exists|i: int|
                0 <= i < names.len() && #[trigger] names[i] == name && !marks[i],
        unmarked(names, marks).len() == marks.filter(|mark: bool| !mark).len(),
{
    lemma_unmarked(names, marks);
    assert(marks.take(names.len() as int) =~= marks);
}

proof fn lemma_unmarked(names: Seq<Seq<char>>, marks: Seq<bool>)
    requires
        names.len() <= marks.len(),
    ensures
        forall|name: Seq<char>| #[trigger]
            unmarked(names, marks).contains(name) <==> exists|i: int|
                0 <= i < names.len() && #[trigger] names[i] == name && !marks[i],
        unmarked(names, marks).len() == marks.take(names.len() as int).filter(
            |mark: bool| !mark,
        ).len(),
    decreases names.len(),
{
    reveal(Seq::filter);
    let left = |mark: bool| !mark;
    if names.len() > 0 {
        let rest = names.drop_last();
        let last = (names.len() - 1) as int;
        lemma_unmarked(rest, marks);
        assert(marks.take(names.len() as int).drop_last() =~= marks.take(rest.len() as int));
        assert(marks.take(names.len() as int).last() == marks[last]);
        let all = unmarked(names, marks);
        let before = unmarked(rest, marks);
        assert forall|name: Seq<char>| #[trigger] all.contains(name) <==> exists|i: int|
            0 <= i < names.len() && #[trigger] names[i] == name && !marks[i] by {
            if all.contains(name) {
                let k = choose|k: int| 0 <= k < all.len() && all[k] == name;
                if k < before.len() {
                    assert(before[k] == name);
                    assert(before.contains(name));
                    let i = choose|i: int|
                        0 <= i < rest.len() && #[trigger] rest[i] == name && !marks[i];
                    assert(names[i] == name);
                } else {
                    assert(names[last] == name);
                }
            }
            if exists|i: int| 0 <= i < names.len() && #[trigger] names[i] == name && !marks[i] {
                let i = choose|i: int|
                    0 <= i < names.len() && #[trigger] names[i] == name && !marks[i];
                if i < last {
                    assert(rest[i] == name);
                    assert(before.contains(name));
                    let k = choose|k: int| 0 <= k < before.len() && before[k] == name;
                    assert(all[k] == name);
                } else {
                    assert(all[all.len() - 1] == name);
                }
            }
        }
    } else {
        assert(marks.take(0) =~= Seq::empty());
        assert(unmarked(names, marks) =~= Seq::empty());
    }
}

/// A command is looked for in every directory of the search path, in its order. The interface is
/// looked for first where it is asked for, then below the data root, in `/ui`, beside the program,
/// in the three directories above it, and last here.
pub proof fn places_are_searched_in_order(
    path: Seq<char>,
    name: Seq<char>,
    data_root: Seq<char>,
    explicit: Option<Seq<char>>,
    exe_dirs: Seq<Seq<char>>,
)
    ensures
        searched(path, name).len() == split(path, ':').len(),
        forall|i: int|
            0 <= i < split(path, ':').len() ==> #[trigger] searched(path, name)[i] == joined(
                split(path, ':')[i],
                name,
            ),
        ({
            let places = ui_candidates(data_root, explicit, exe_dirs);
            let own = if explicit is Some {
                1int
            } else {
                0
            };
            &&& explicit is Some ==> places[0] == explicit->0
            &&& places[own] == joined(data_root, "ui"@)
            &&& places[own + 1] == "/ui"@
            &&& places[places.len() - 1] == "apps/admin-ui/dist"@
            &&& exe_dirs.len() > 0 ==> places[own + 2] == joined(exe_dirs[0], "ui"@)
            &&& forall|k: int|
                1 <= k < exe_dirs.len() && k <= 3 ==> places[own + 2 + k] == joined(
                    #[trigger] exe_dirs[k],
                    "apps/admin-ui/dist"@,
                )
            &&& places.len() == own + 3 + if exe_dirs.len() < 4 {
                exe_dirs.len()
            } else {
                4
            }
        }),
{
    let places = ui_candidates(data_root, explicit, exe_dirs);
    let own = if explicit is Some {
        1int
    } else {
        0
    };
    assert forall|k: int| 1 <= k < exe_dirs.len() && k <= 3 implies places[own + 2 + k] == joined(
        #[trigger] exe_dirs[k],
        "apps/admin-ui/dist"@,
    ) by {
        assert(searched_above(exe_dirs)[k - 1] == exe_dirs[k]);
    }
}

/// The first position that is marked is marked, and none before it is; there is one wherever any is
/// marked.
pub proof fn first_marks_come_first(marks: Seq<bool>)
    ensures
        match first_marked(marks) {
            Some(i) => 0 <= i < marks.len() && marks[i] && forall|j: int|
                0 <= j < i ==> !(#[trigger] marks[j]),
            None => forall|j: int| 0 <= j < marks.len() ==> !(#[trigger] marks[j]),
        },
{
    if exists|i: int| 0 <= i < marks.len() && (#[trigger] marks[i]) {
        let i = choose|i: int| 0 <= i < marks.len() && (#[trigger] marks[i]);
        let first = lemma_first_of(marks, i);
        lemma_first_marked(marks, first);
    }
}

proof fn lemma_first_of(marks: Seq<bool>, i: int) -> (first: int)
    requires
        0 <= i < marks.len(),
        marks[i],
    ensures
        0 <= first <= i,
        marks[first],
        forall|j: int| 0 <= j < first ==> !(#[trigger] marks[j]),
    decreases i,
{
    if exists|j: int| 0 <= j < i && (#[trigger] marks[j]) {
        let j = choose|j: int| 0 <= j < i && (#[trigger] marks[j]);
        lemma_first_of(marks, j)
    } else {
        i
    }
}

} // verus!
