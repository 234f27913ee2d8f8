use potato_core::console::{
    desktop_pid_file, desktop_port_file, first_chars, last_chars, parse_pid, parse_port, python_site_packages,
    ready_payload, record_stderr, termination_message, trim_captured_stderr, validated_local_path, version_ok,
    working_dir,
};
use potato_core::paths::LibPath;

const MAX_CAPTURED_STDERR_CHARS: usize = 4000;
const STDERR_TRUNCATION_MARKER: &str = "\n[...stderr truncated...]\n";

#[test]
fn unix_site_packages_live_under_lib_python311() {
    let site = python_site_packages(&LibPath::parse("/app/python/bin/python3"));
    assert_eq!(site, LibPath::parse("/app/python/lib/python3.11/site-packages"));
    assert_eq!(site.display(), "/app/python/lib/python3.11/site-packages");
}

#[test]
fn site_packages_of_a_short_path_is_empty() {
    let site = python_site_packages(&LibPath::parse("python3"));
    assert_eq!(site.display(), "");
    let site = python_site_packages(&LibPath::parse("bin/python3"));
    assert_eq!(site.display(), "lib/python3.11/site-packages");
}

#[test]
fn trim_captured_stderr_preserves_head_and_tail() {
    let mut text = format!("{}middle{}", "head".repeat(1200), "tail".repeat(1200));

    trim_captured_stderr(&mut text);

    assert!(text.chars().count() <= MAX_CAPTURED_STDERR_CHARS);
    assert!(text.starts_with("head"));
    assert!(text.contains(STDERR_TRUNCATION_MARKER));
    assert!(text.ends_with("tail"));
    assert!(!text.contains("middle"));
}

#[test]
fn short_stderr_is_kept_whole() {
    let mut text = "中".repeat(4000);
    trim_captured_stderr(&mut text);
    assert_eq!(text, "中".repeat(4000));
    let mut text = "中".repeat(4001);
    trim_captured_stderr(&mut text);
    assert_eq!(text.chars().count(), 4000);
}

#[test]
fn first_and_last_chars_count_characters() {
    assert_eq!(first_chars("héllo", 2), "hé");
    assert_eq!(first_chars("hé", 10), "hé");
    assert_eq!(last_chars("héllo", 3), "llo");
    assert_eq!(last_chars("hé", 10), "hé");
    assert_eq!(last_chars("hé", 0), "");
}

#[test]
fn termination_message_reports_code_signal_and_stderr() {
    assert_eq!(
        termination_message(Some(-3), None, "  boom \n"),
        "backend process exited unexpectedly with code -3\n\nLast stderr:\nboom"
    );
    assert_eq!(
        termination_message(None, Some(9), " \n"),
        "backend process exited unexpectedly by signal 9"
    );
    assert_eq!(termination_message(None, None, ""), "backend process exited unexpectedly");
    assert_eq!(
        termination_message(Some(0), Some(9), "x"),
        "backend process exited unexpectedly with code 0\n\nLast stderr:\nx"
    );
}

#[test]
fn ready_payload_finds_the_protocol_line() {
    assert_eq!(
        ready_payload("  QWENPAW_BACKEND_READY {\"port\":54321}\r").as_deref(),
        Some("{\"port\":54321}")
    );
    assert_eq!(ready_payload("QWENPAW_BACKEND_READY nope").as_deref(), Some("nope"));
    assert_eq!(ready_payload("ordinary stdout"), None);
    assert_eq!(ready_payload("QWENPAW_BACKEND_READY"), None);
}

#[test]
fn local_paths_must_be_absolute_and_clean() {
    assert_eq!(validated_local_path("  ").unwrap_err(), "local path is empty");
    assert_eq!(
        validated_local_path("/tmp/a\u{7}").unwrap_err(),
        "local path contains control characters"
    );
    assert_eq!(validated_local_path("tmp/a").unwrap_err(), "local path must be absolute");
    assert_eq!(validated_local_path("/tmp//a/").unwrap().display(), "/tmp/a");
}

#[test]
fn prefers_potato_working_dir_env() {
    let home = LibPath::parse("/home/u");
    let dir = working_dir(Some("/tmp/potato-paths-test"), Some("/q"), None, Some(&home), (true, true, true));
    assert_eq!(dir, Some(LibPath::parse("/tmp/potato-paths-test")));
}

#[test]
fn working_dir_falls_back_to_existing_home_directories() {
    let home = LibPath::parse("/home/u");
    assert_eq!(working_dir(None, Some("/q"), Some("/c"), Some(&home), (false, false, false)).unwrap().display(), "/q");
    assert_eq!(working_dir(None, None, None, Some(&home), (false, true, true)).unwrap().display(), "/home/u/.qwenpaw");
    assert_eq!(working_dir(None, None, None, Some(&home), (false, false, true)).unwrap().display(), "/home/u/.copaw");
    assert_eq!(working_dir(None, None, None, Some(&home), (false, false, false)).unwrap().display(), "/home/u/.potato");
    assert_eq!(working_dir(None, None, None, None, (true, true, true)), None);
    let w = LibPath::parse("/home/u/.potato");
    assert_eq!(desktop_port_file(Some(&w)).unwrap().display(), "/home/u/.potato/desktop_port");
    assert_eq!(desktop_pid_file(Some(&w)).unwrap().display(), "/home/u/.potato/desktop_backend.pid");
    assert_eq!(desktop_port_file(None), None);
}

#[test]
fn recorded_ports_and_pids_are_checked() {
    assert_eq!(parse_port(" 54321\n"), Some(54321));
    assert_eq!(parse_port("+8080"), Some(8080));
    assert_eq!(parse_port("80"), None);
    assert_eq!(parse_port("65536"), None);
    assert_eq!(parse_port("12a"), None);
    assert_eq!(parse_port(""), None);
    assert_eq!(parse_pid("42"), Some(42));
    assert_eq!(parse_pid("0"), None);
    assert_eq!(parse_pid("4294967296"), None);
    assert_eq!(parse_pid("-1"), None);
}

#[test]
fn version_probe_accepts_http_200() {
    assert!(version_ok("HTTP/1.1 200 OK\r\nContent-Length: 2\r\n\r\n{}"));
    assert!(version_ok("HTTP/1.0 200 OK"));
    assert!(!version_ok("HTTP/1.1 404 Not Found"));
    assert!(!version_ok(""));
}

#[test]
fn recorded_stderr_stays_bounded() {
    let mut buffer = String::new();
    for _ in 0..100 {
        record_stderr(&mut buffer, "x".repeat(100).as_bytes());
    }
    assert_eq!(buffer.chars().count(), 4000);
    assert!(buffer.contains("[...stderr truncated...]"));
    let mut raw = String::new();
    record_stderr(&mut raw, &[b'a', 0xff, b'b']);
    assert_eq!(raw, "a\u{fffd}b");
}
