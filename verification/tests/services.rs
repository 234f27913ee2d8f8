use base64::Engine;
use potato_core::console::ready_payloads;
use potato_core::file_search::{
    content_hits, finish, glob_hit, search_page, searchable_text, Finder, Paging, PathGlob, Walk,
};
use potato_core::legacy::{
    adopt_active, credential_text, decrypt_value, first_setting, image_base, legacy_cipher, master_key_bytes,
};
use potato_core::paths::LibPath;
use potato_core::shell::{check_cwd, isolation, shell_options, ShellOptions};

fn port_of(payload: &str) -> Option<u64> {
    serde_json::from_str::<serde_json::Value>(payload).ok().and_then(|v| v["port"].as_u64())
}

fn ready_port(text: &str) -> Option<u64> {
    ready_payloads(text).iter().find_map(|p| port_of(p))
}

#[test]
fn ready_port_from_stdout_parses_protocol_line() {
    let text = "INFO before\nQWENPAW_BACKEND_READY {\"port\":54321}\n";
    assert_eq!(ready_payloads(text), vec!["{\"port\":54321}".to_string()]);
    assert_eq!(ready_port(text), Some(54321));
}

#[test]
fn ready_port_from_stdout_ignores_other_output() {
    assert_eq!(ready_port("QWENPAW_BACKEND_READY nope"), None);
    assert_eq!(ready_port("ordinary stdout"), None);
    assert!(ready_payloads("ordinary stdout").is_empty());
}

#[test]
fn a_later_announcement_is_found_after_a_malformed_one() {
    let text = "QWENPAW_BACKEND_READY nope\r\n  QWENPAW_BACKEND_READY {\"port\":8088}  \nafter";
    assert_eq!(ready_payloads(text), vec!["nope".to_string(), "{\"port\":8088}".to_string()]);
    assert_eq!(ready_port(text), Some(8088));
}

fn page(limit: u64, offset: usize) -> Paging {
    Paging::new(search_page("你好", Some(offset), Some(limit)).unwrap())
}

#[test]
fn content_search_pages_across_lines() {
    let finder = Finder::new("你好", false, false).unwrap();
    let text = "你好 one\n你好 two\nother";
    let mut first = page(1, 0);
    let mut hits = content_hits(&finder, text, &mut first);
    assert_eq!(hits.len(), 2);
    assert_eq!((hits[0].line, hits[0].text.as_str(), hits[0].excerpt), (1, "你好 one", false));
    assert_eq!(finish(&mut hits, &first), Some(1));
    assert_eq!(hits.len(), 1);

    let mut second = page(1, 1);
    let mut hits = content_hits(&finder, text, &mut second);
    assert_eq!(hits.len(), 1);
    assert_eq!((hits[0].line, hits[0].text.as_str()), (2, "你好 two"));
    assert_eq!((second.matched, second.found), (2, 1));
    assert_eq!(finish(&mut hits, &second), None);
}

#[test]
fn literal_and_case_insensitive_searches() {
    let literal = Finder::new("a.b", true, false).unwrap();
    let mut p = page(50, 0);
    let hits = content_hits(&literal, "axb\na.b\n", &mut p);
    assert_eq!(hits.len(), 1);
    assert_eq!(hits[0].line, 2);

    let folded = Finder::new("HELLO", false, true).unwrap();
    let mut p = page(50, 0);
    assert_eq!(content_hits(&folded, "say hello\n", &mut p).len(), 1);
    let exact = Finder::new("HELLO", false, false).unwrap();
    let mut p = page(50, 0);
    assert_eq!(content_hits(&exact, "say hello\n", &mut p).len(), 0);
}

#[test]
fn invalid_expressions_and_globs_are_rejected() {
    let e = Finder::new("(", false, false).err().unwrap();
    assert_eq!((e.status, e.message.as_str()), (400, "Invalid or overly complex search expression"));
    assert!(Finder::new("(", true, false).is_ok());
    let e = PathGlob::new("a[").err().unwrap();
    assert_eq!((e.status, e.message.as_str()), (400, "Invalid glob pattern"));
}

#[test]
fn long_lines_are_cut_around_the_match() {
    let line = format!("{}needle{}", "x".repeat(300), "y".repeat(1000));
    let finder = Finder::new("needle", false, false).unwrap();
    let mut p = page(50, 0);
    let hits = content_hits(&finder, &line, &mut p);
    assert_eq!(hits.len(), 1);
    assert!(hits[0].excerpt);
    assert_eq!(hits[0].text.len(), 800);
    assert!(hits[0].text.starts_with(&format!("{}needle", "x".repeat(120))));
}

#[test]
fn glob_matches_never_cross_separators() {
    let g = PathGlob::new("**/*.rs").unwrap();
    let mut p = page(50, 0);
    assert!(glob_hit(&g, "src/a.rs", &mut p));
    assert!(!glob_hit(&g, "src/a.txt", &mut p));
    assert_eq!(p.matched, 1);
    let star = PathGlob::new("*.rs").unwrap();
    assert!(!glob_hit(&star, "src/a.rs", &mut p));
    assert!(glob_hit(&star, "a.rs", &mut p));
}

#[test]
fn only_small_utf8_text_is_searched() {
    assert_eq!(searchable_text(b"plain".to_vec()).as_deref(), Some("plain"));
    assert_eq!(searchable_text(vec![b'a', 0, b'b']), None);
    assert_eq!(searchable_text(vec![0xff, 0xfe]), None);
    assert_eq!(searchable_text(vec![b'a'; 2_000_001]), None);
    assert!(searchable_text(vec![b'a'; 2_000_000]).is_some());
}

#[test]
fn the_walk_stops_after_its_cap() {
    let mut w = Walk::new();
    for _ in 0..20_000 {
        assert!(w.enter());
    }
    assert!(!w.capped);
    assert!(!w.enter());
    assert!(w.capped);
    assert_eq!(w.reported_visited(), 20_000);
    w.skip();
    assert_eq!(w.skipped, 1);
}

#[test]
fn shell_arguments_are_validated() {
    assert_eq!(
        shell_options("ls", None, None, "", None).unwrap(),
        ShellOptions { timeout: 60, escalation: false, network: false }
    );
    let e = shell_options("  ", None, None, "", None).err().unwrap();
    assert_eq!((e.status, e.message.as_str()), (400, "command is required"));
    let e = shell_options("ls", Some(None), None, "", None).err().unwrap();
    assert_eq!(e.message, "Invalid timeout");
    let e = shell_options("ls", Some(Some(0)), None, "", None).err().unwrap();
    assert_eq!(e.message, "Command or timeout is invalid");
    let e = shell_options("ls", Some(Some(3601)), None, "", None).err().unwrap();
    assert_eq!(e.message, "Command or timeout is invalid");
    let e = shell_options("ls", None, Some("sometimes"), "", None).err().unwrap();
    assert_eq!(e.message, "Invalid sandbox_permissions");
    let e = shell_options("ls", None, Some("require_escalated"), " ", None).err().unwrap();
    assert_eq!(e.message, "justification is required");
    let e = shell_options("ls", None, None, "", Some(None)).err().unwrap();
    assert_eq!(e.message, "network_access must be boolean");
    let e = shell_options("ls", None, None, "", Some(Some(true))).err().unwrap();
    assert_eq!(e.message, "justification is required");
    assert_eq!(
        shell_options("ls", Some(Some(5)), Some("require_escalated"), "needs docker", Some(Some(true))).unwrap(),
        ShellOptions { timeout: 5, escalation: true, network: true }
    );
}

#[test]
fn working_directories_outside_the_project_need_escalation_or_full_access() {
    let project = LibPath::parse("/work/project");
    assert!(check_cwd(&LibPath::parse("/work/project/src"), &project, false, false).is_ok());
    assert_eq!(check_cwd(&LibPath::parse("/tmp"), &project, false, false).err().unwrap().status, 403);
    assert!(check_cwd(&LibPath::parse("/tmp"), &project, true, false).is_ok());
    assert!(check_cwd(&LibPath::parse("/tmp"), &project, false, true).is_ok());
}

#[test]
fn denials_forbid_every_unsandboxed_run() {
    assert_eq!(isolation(true, false, 1, true).err().unwrap().status, 403);
    assert_eq!(isolation(false, false, 2, false).err().unwrap().status, 403);
    let i = isolation(false, false, 1, true).unwrap();
    assert!(!i.unsandboxed && !i.sandbox_unavailable && !i.charged);
    let i = isolation(false, false, 0, false).unwrap();
    assert!(i.unsandboxed && i.sandbox_unavailable && i.charged);
    let i = isolation(false, true, 0, true).unwrap();
    assert!(!i.unsandboxed && i.charged);
}

fn hex_key(key: &[u8]) -> String {
    key.iter().map(|b| format!("{b:02x}")).collect()
}

#[test]
fn legacy_master_keys_are_64_hex_digits() {
    let bytes = master_key_bytes(&format!("  {}\n", hex_key(&[42u8; 32]))).unwrap();
    assert_eq!(bytes, vec![42u8; 32]);
    assert_eq!(master_key_bytes(&"AbCd".repeat(16)).unwrap()[0], 0xab);
    let e = master_key_bytes("abc").err().unwrap();
    assert_eq!((e.status, e.message.as_str()), (400, "Legacy master key is invalid"));
    assert!(master_key_bytes(&"g".repeat(64)).is_err());
}

#[test]
fn legacy_values_decrypt_with_the_master_key() {
    let key = [42u8; 32];
    let cipher = fernet::Fernet::new(&base64::engine::general_purpose::URL_SAFE.encode(key)).unwrap();
    let token = format!("ENC:{}", cipher.encrypt(b"legacy-test-key"));
    let store = legacy_cipher(Some(&hex_key(&key))).unwrap();
    assert!(store.is_some());
    assert_eq!(decrypt_value(&store, &token).unwrap(), "legacy-test-key");
    assert_eq!(decrypt_value(&store, "sk-plain").unwrap(), "sk-plain");
    let e = decrypt_value(&store, "ENC:not-a-token").err().unwrap();
    assert_eq!(e.status, 409);
    assert!(legacy_cipher(None).unwrap().is_none());
    assert_eq!(decrypt_value(&None, "plain").unwrap(), "plain");
    assert_eq!(decrypt_value(&None, &token).err().unwrap().status, 409);
    assert_eq!(legacy_cipher(Some("nope")).err().unwrap().status, 400);
}

#[test]
fn decrypted_credentials_must_be_text() {
    assert_eq!(credential_text(Some(b"abc".to_vec())).unwrap(), "abc");
    let e = credential_text(Some(vec![0xff])).err().unwrap();
    assert_eq!((e.status, e.message.as_str()), (400, "Legacy credential is not text"));
    assert_eq!(credential_text(None).err().unwrap().status, 409);
}

#[test]
fn legacy_image_endpoints_become_base_urls() {
    assert_eq!(image_base("").as_deref(), Some("https://api.openai.com/v1"));
    assert_eq!(
        image_base(" https://images.example.org/v1/images/generations ").as_deref(),
        Some("https://images.example.org/v1")
    );
    assert_eq!(image_base("https://images.example.org/v1"), None);
}

#[test]
fn legacy_settings_prefer_the_first_non_empty_candidate() {
    let c = vec![None, Some(String::new()), Some("b".to_string()), Some("c".to_string())];
    assert_eq!(first_setting(&c), Some(2));
    assert_eq!(first_setting(&vec![None, Some(String::new())]), None);
    assert!(adopt_active(true, false, false, true, true));
    assert!(adopt_active(false, true, false, true, true));
    assert!(!adopt_active(false, true, true, true, true));
    assert!(!adopt_active(true, false, false, true, false));
    assert!(!adopt_active(false, false, false, true, true));
}
