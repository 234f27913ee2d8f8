use potato_core::mcp::{
    check_client_key, check_client_route, check_env_entry, check_header, check_launch, check_whitelist, tool_enabled,
    Launch, LaunchView, Whitelist,
};

fn message<T: std::fmt::Debug>(r: Result<T, potato_core::error::Error>) -> (u16, String) {
    let e = r.err().unwrap();
    (e.status, e.message)
}

#[test]
fn client_keys_are_short_ascii_names() {
    assert!(check_client_key("github_mcp-2").is_ok());
    assert!(check_client_key(&"k".repeat(64)).is_ok());
    for bad in ["", "has space", "slash/", "ключ", &"k".repeat(65)] {
        assert_eq!(message(check_client_key(bad)), (400, "Invalid MCP client key".to_string()), "{bad}");
    }
}

#[test]
fn creation_needs_a_new_key_and_updates_an_existing_one() {
    assert!(check_client_route("POST", false).is_ok());
    assert_eq!(message(check_client_route("POST", true)), (409, "MCP client already exists".to_string()));
    assert_eq!(message(check_client_route("DELETE", false)), (404, "MCP client not found".to_string()));
    assert!(check_client_route("PUT", true).is_ok());
}

#[test]
fn whitelists_are_string_lists_or_null() {
    assert!(check_whitelist(&Whitelist::Null).is_ok());
    assert!(check_whitelist(&Whitelist::List(vec![Some("read".into()), Some("write".into())])).is_ok());
    let expected = (400, "Tool whitelist must be a string list or null".to_string());
    assert_eq!(message(check_whitelist(&Whitelist::List(vec![Some("read".into()), None]))), expected);
    assert_eq!(message(check_whitelist(&Whitelist::Other)), expected);
}

#[test]
fn tools_are_offered_only_from_enabled_clients_and_their_whitelist() {
    let list = vec![Some("read".to_string()), None];
    assert!(tool_enabled(true, None, "anything"));
    assert!(tool_enabled(true, Some(&list), "read"));
    assert!(!tool_enabled(true, Some(&list), "write"));
    assert!(!tool_enabled(false, None, "read"));
    assert!(!tool_enabled(true, Some(&vec![]), "read"));
}

fn launch(transport: &str, command: &str, args: Option<Vec<Option<&str>>>, cwd: &str, url: &str) -> LaunchView {
    LaunchView {
        transport: Some(transport.to_string()),
        command: Some(command.to_string()),
        args: args.map(|a| a.into_iter().map(|s| s.map(str::to_string)).collect()),
        cwd: Some(cwd.to_string()),
        url: Some(url.to_string()),
    }
}

#[test]
fn launch_settings_are_checked_by_transport() {
    assert_eq!(check_launch(&launch("stdio", "npx", Some(vec![Some("-y")]), "", ""), false).unwrap(), Launch::Stdio);
    assert_eq!(
        message(check_launch(&launch("websocket", "", None, "", ""), true)),
        (501, "This MCP transport is not migrated yet".to_string())
    );
    assert_eq!(message(check_launch(&launch("stdio", " ", Some(vec![]), "", ""), true)).1, "command is required");
    let bounded = "MCP arguments must be a bounded list of strings".to_string();
    assert_eq!(message(check_launch(&launch("stdio", "npx", None, "", ""), true)).1, bounded);
    assert_eq!(message(check_launch(&launch("stdio", "npx", Some(vec![None]), "", ""), true)).1, bounded);
    let many = Some(vec![Some("a"); 129]);
    assert_eq!(message(check_launch(&launch("stdio", "npx", many, "", ""), true)).1, bounded);
    let long = "x".repeat(16001);
    assert_eq!(message(check_launch(&launch("stdio", "npx", Some(vec![Some(long.as_str())]), "", ""), true)).1, bounded);
    assert_eq!(
        message(check_launch(&launch("stdio", "npx", Some(vec![]), "rel/dir", ""), false)).1,
        "MCP working directory must be absolute"
    );
    assert!(check_launch(&launch("stdio", "npx", Some(vec![]), "/abs", ""), true).is_ok());
    assert_eq!(
        check_launch(&launch("streamable_http", "", None, "", "https://mcp.example.org/v1"), false).unwrap(),
        Launch::Http("https://mcp.example.org/v1".to_string())
    );
    assert_eq!(message(check_launch(&launch("streamable_http", "", None, "", ""), false)).1, "url is required");
    assert_eq!(
        message(check_launch(&launch("streamable_http", "", None, "", "https://mcp.example.org/v1?token=1"), false)),
        (400, "Provider URL must be HTTP(S), without credentials, query or fragment".to_string())
    );
    assert_eq!(
        message(check_launch(&launch("streamable_http", "", None, "", "mcp.example.org"), false)),
        (400, "A valid provider base URL is required".to_string())
    );
}

#[test]
fn environment_entries_are_bounded_text() {
    assert!(check_env_entry("TOKEN", Some("secret")).is_ok());
    let bad_key = (400, "Invalid MCP environment key".to_string());
    assert_eq!(message(check_env_entry("", Some("v"))), bad_key);
    assert_eq!(message(check_env_entry("A=B", Some("v"))), bad_key);
    assert_eq!(message(check_env_entry("A\0", Some("v"))), bad_key);
    assert_eq!(message(check_env_entry(&"K".repeat(129), Some("v"))), bad_key);
    assert_eq!(message(check_env_entry("K", None)).1, "MCP environment values must be text");
    assert_eq!(message(check_env_entry("K", Some("a\0b"))).1, "Invalid MCP environment value");
    assert_eq!(message(check_env_entry("K", Some(&"v".repeat(16001)))).1, "Invalid MCP environment value");
    assert!(check_env_entry("K", Some(&"v".repeat(16000))).is_ok());
}

#[test]
fn transport_headers_are_reserved() {
    assert!(check_header("authorization", Some("Bearer x")).is_ok());
    for reserved in ["host", "content-length", "content-type", "accept", "mcp-session-id"] {
        assert_eq!(message(check_header(reserved, Some("x"))), (400, "Reserved MCP header".to_string()));
    }
    assert_eq!(message(check_header("x-api-key", None)).1, "MCP header must be text");
}
