use zork::config::{
    admin_base_url, admin_session_url, apply_listen, bin_candidates, clean_env, clears_ready_pid,
    config_path, default_data_root, encode_session_key, first_file, gateway_base_url,
    has_configured_im_connection, loopback_base_url, missing_commands, parse_process_args_from,
    parse_ready_pid, path_candidates, ready_pid_body, ready_pid_path, replace_host, resolve_ui_dir,
    runtime_base_url, ui_dir_candidates, zork_pid_path, zork_sock_path, FileConfig, ImConnectionConfig,
    ImMode, ImProviderConfig, SlackProviderConfig,
};
use zork::paths::{byte_length, fnv_hex, join_path, unix_socket_path, UNIX_SOCK_MAX_BYTES};
use zork::startup::{
    admin_bind, admin_token, agent_bind, gateway_bind, invalid_listen, ready_answer,
    session_tool_environment,
};

fn args(list: &[&str]) -> Vec<String> {
    list.iter().map(|item| item.to_string()).collect()
}

fn slack(id: &str, app: &str, bot: &str, base: &str, mode: ImMode) -> ImConnectionConfig {
    ImConnectionConfig {
        id: id.to_owned(),
        name: id.to_owned(),
        enabled: true,
        mode,
        provider: ImProviderConfig::Slack(SlackProviderConfig {
            app_token: app.to_owned(),
            bot_token: bot.to_owned(),
            api_base_url: base.to_owned(),
        }),
    }
}

#[test]
fn listen_rewrites_hosts() {
    let mut config = FileConfig::default();
    apply_listen(&mut config, "0.0.0.0");
    assert_eq!(config.bind.gateway, "0.0.0.0:18790");
    assert_eq!(
        loopback_base_url(&config.bind.control),
        "http://127.0.0.1:3001"
    );
}

#[test]
fn listen_leaves_the_agent_alone() {
    let mut config = FileConfig::default();
    apply_listen(&mut config, "::1");
    assert_eq!(config.bind.runtime, "::1:3000");
    assert_eq!(config.bind.agent, "127.0.0.1:3010");
    assert_eq!(replace_host("3000", "0.0.0.0"), "0.0.0.0:3000");
}

#[test]
fn admin_session_url_encodes_key() {
    let url = admin_session_url("http://127.0.0.1:3001/", "C123:100.200");
    assert_eq!(url, "http://127.0.0.1:3001/admin/sessions/C123%3A100.200");
}

#[test]
fn session_keys_lose_their_colons() {
    assert_eq!(encode_session_key("a:b:c"), "a%3Ab%3Ac");
    assert_eq!(encode_session_key("plain"), "plain");
}

#[test]
fn unix_sockets_fit_under_sun_len() {
    let dir = tempfile::tempdir().unwrap();
    let root = dir.path().to_string_lossy().into_owned();
    let sock = zork_sock_path(&root);
    assert!(sock.starts_with(&join_path(&root, "run")));
    assert!(byte_length(&sock) <= UNIX_SOCK_MAX_BYTES);
}

#[test]
fn long_data_root_falls_back_to_tmp() {
    let long = format!("/{}", "x".repeat(180));
    let sock = unix_socket_path(&long, "sup");
    assert!(sock.starts_with("/tmp/"));
    assert!(byte_length(&sock) <= UNIX_SOCK_MAX_BYTES);
}

#[test]
fn long_socket_kinds_fall_back_to_the_token_alone() {
    let long = format!("/{}", "x".repeat(180));
    let sock = unix_socket_path(&long, &"k".repeat(120));
    assert_eq!(sock, format!("/tmp/z{}.sock", fnv_hex(long.as_bytes())));
}

#[test]
fn hash_of_nothing_is_the_start_value() {
    assert_eq!(fnv_hex(b""), "cbf29ce484222325");
    assert_eq!(fnv_hex(b"a"), "af63dc4c8601ec8c");
}

#[test]
fn agent_token_is_an_optional_startup_argument() {
    let absent = parse_process_args_from(&Vec::<String>::new(), "/home/.zork").unwrap();
    assert_eq!(absent.agent_token, None);

    let supplied =
        parse_process_args_from(&args(&["--agent-token", "exact secret"]), "/home/.zork").unwrap();
    assert_eq!(supplied.agent_token.as_deref(), Some("exact secret"));

    assert!(parse_process_args_from(&args(&["--agent-token"]), "/home/.zork").is_err());
    assert!(parse_process_args_from(&args(&["--agent-token", ""]), "/home/.zork").is_err());
}

#[test]
fn no_streaming_is_an_optional_process_wide_flag() {
    let absent = parse_process_args_from(&Vec::<String>::new(), "/home/.zork").unwrap();
    assert!(!absent.no_streaming);

    let supplied = parse_process_args_from(&args(&["--no-streaming"]), "/home/.zork").unwrap();
    assert!(supplied.no_streaming);
}

#[test]
fn startup_arguments_are_read_in_order() {
    let parsed = parse_process_args_from(
        &args(&[
            "ignored", "--data", "/a", "--listen", "0.0.0.0", "--ui-dir", "/ui", "--fake-agent",
            "--data", "/b", "-h",
        ]),
        "/home/.zork",
    )
    .unwrap();
    assert_eq!(parsed.data_root, "/b");
    assert_eq!(parsed.listen_host.as_deref(), Some("0.0.0.0"));
    assert_eq!(parsed.ui_dir.as_deref(), Some("/ui"));
    assert!(parsed.fake_agent);
    assert_eq!(
        parse_process_args_from(&args(&["--what"]), "/home/.zork").unwrap_err(),
        "unknown argument: --what"
    );
    assert_eq!(
        parse_process_args_from(&args(&["--data"]), "/home/.zork").unwrap_err(),
        "missing value for --data"
    );
    assert_eq!(
        parse_process_args_from(&args(&["--agent-token", ""]), "/home/.zork").unwrap_err(),
        "--agent-token must not be empty"
    );
}

#[test]
fn paths_of_an_installation() {
    assert_eq!(default_data_root(Some(" /home/me "), None), "/home/me/.zork");
    assert_eq!(default_data_root(Some("  "), Some("/profile")), "/profile/.zork");
    assert_eq!(default_data_root(None, None), "./.zork");
    assert_eq!(config_path("/data"), "/data/config.json");
    assert_eq!(zork_pid_path("/data/"), "/data/zork.pid");
    assert_eq!(ready_pid_path("/data", "zork-agent"), "/data/run/zork-agent.pid");
    assert_eq!(clean_env(Some("  x ")).as_deref(), Some("x"));
    assert_eq!(clean_env(Some("   ")), None);
}

#[test]
fn ready_files_name_their_process() {
    assert_eq!(ready_pid_body(4711), "4711\n");
    assert_eq!(parse_ready_pid(&ready_pid_body(4711)), Some(4711));
    assert_eq!(parse_ready_pid(&ready_pid_body(u32::MAX)), Some(u32::MAX));
    assert_eq!(parse_ready_pid("4294967296"), None);
    assert_eq!(parse_ready_pid("12a"), None);
    assert!(clears_ready_pid(Some(" 7\n"), 7));
    assert!(!clears_ready_pid(Some("8"), 7));
    assert!(!clears_ready_pid(None, 7));
}

#[test]
fn connections_need_both_tokens() {
    let first = slack("work", "xapp-1", "xoxb-1", "", ImMode::Normal);
    let second = slack("community", " ", "xoxb-2", "https://slack.example/api/", ImMode::Proactive);
    assert_eq!(first.provider_name(), "slack");
    assert!(first.configured());
    assert!(!second.configured());
    assert_eq!(first.slack().unwrap().api_base_url(), "https://slack.com/api");
    assert_eq!(
        second.slack().unwrap().api_base_url(),
        "https://slack.example/api"
    );
    let mut config = FileConfig::default();
    assert!(!has_configured_im_connection(&config));
    config.im_connections.push(second);
    assert!(!has_configured_im_connection(&config));
    config.im_connections.push(first);
    assert!(has_configured_im_connection(&config));
}

#[test]
fn base_urls_prefer_what_is_configured() {
    let mut config = FileConfig::default();
    assert_eq!(gateway_base_url(&config), "http://127.0.0.1:18790");
    assert_eq!(runtime_base_url(&config), "http://127.0.0.1:3000");
    assert_eq!(admin_base_url(&config), "http://127.0.0.1:3001");
    config.urls.gateway = "https://gateway.example//".to_owned();
    config.urls.admin = " https://admin.example/ ".to_owned();
    assert_eq!(gateway_base_url(&config), "https://gateway.example");
    assert_eq!(admin_base_url(&config), "https://admin.example");
}

#[test]
fn commands_are_searched_in_order() {
    assert_eq!(
        path_candidates(Some("/usr/bin:/bin"), "gh"),
        vec!["/usr/bin/gh".to_owned(), "/bin/gh".to_owned()]
    );
    assert!(path_candidates(None, "gh").is_empty());
    assert_eq!(
        bin_candidates("zork", "/data", Some("/opt"), Some("/bin")),
        vec!["/data/bin/zork".to_owned(), "/opt/zork".to_owned(), "/bin/zork".to_owned()]
    );
    assert_eq!(first_file(&vec![false, true, true]), Some(1));
    assert_eq!(first_file(&vec![false]), None);
    assert_eq!(
        missing_commands(&args(&["git", "gh", "rg"]), &vec![true, false, false]),
        args(&["gh", "rg"])
    );
}

#[test]
fn the_interface_is_looked_for_near_the_program() {
    let candidates = ui_dir_candidates("/data", Some("/mine"), &args(&["/opt/bin", "/opt", "/"]));
    let deep = args(&["/a/b/c/d/e", "/a/b/c/d", "/a/b/c", "/a/b", "/a", "/"]);
    assert_eq!(
        ui_dir_candidates("/data", None, &deep)[2..],
        args(&[
            "/a/b/c/d/e/ui",
            "/a/b/c/d/apps/admin-ui/dist",
            "/a/b/c/apps/admin-ui/dist",
            "/a/b/apps/admin-ui/dist",
            "apps/admin-ui/dist",
        ])
    );
    assert_eq!(
        candidates,
        args(&[
            "/mine",
            "/data/ui",
            "/ui",
            "/opt/bin/ui",
            "/opt/apps/admin-ui/dist",
            "/apps/admin-ui/dist",
            "apps/admin-ui/dist",
        ])
    );
    let mut holds = vec![false; candidates.len()];
    assert_eq!(resolve_ui_dir("/data", &candidates, &holds), "/data/ui");
    holds[4] = true;
    assert_eq!(
        resolve_ui_dir("/data", &candidates, &holds),
        "/opt/apps/admin-ui/dist"
    );
}

#[test]
fn listeners_stay_out_of_each_others_way() {
    assert_eq!(
        gateway_bind(Some(" 127.0.0.1:18790 "), "127.0.0.1:3000").as_deref(),
        Some("127.0.0.1:18790")
    );
    assert_eq!(gateway_bind(Some("127.0.0.1:3000"), "127.0.0.1:3000"), None);
    assert_eq!(gateway_bind(None, "127.0.0.1:3000"), None);
    assert_eq!(admin_bind(Some("127.0.0.1:3000"), "127.0.0.1:3000"), "127.0.0.1:3001");
    assert_eq!(admin_bind(Some("127.0.0.1:9"), "127.0.0.1:3000"), "127.0.0.1:9");
    assert_eq!(admin_bind(None, "127.0.0.1:3000"), "127.0.0.1:3001");
    assert_eq!(admin_token(Some(" secret ")).as_deref(), Some("secret"));
    assert_eq!(admin_token(Some("")), None);
    assert_eq!(agent_bind(" "), "127.0.0.1:3010");
    assert_eq!(agent_bind("0.0.0.0:1"), "0.0.0.0:1");
    assert_eq!(invalid_listen("x"), "invalid agent listen address x");
}

#[test]
fn tools_run_with_the_installation_first() {
    let variables =
        session_tool_environment("/data", "0.0.0.0:3000", Some("/usr/bin:/bin")).unwrap();
    assert_eq!(variables.get("PATH").unwrap(), "/data/bin:/usr/bin:/bin");
    assert_eq!(variables.get("REPOS_ROOT").unwrap(), "/data/repos");
    assert_eq!(variables.get("BROKER_API_BASE").unwrap(), "http://127.0.0.1:3000");
    assert!(session_tool_environment("/da:ta", "x:1", None).is_none());
    let ready = ready_answer(7, "zork-agent");
    assert_eq!(ready.get("pid").unwrap().as_u64(), Some(7));
    assert_eq!(ready.str_at("service"), Some("zork-agent"));
}
