use potato_core::api::{check_computer_use, check_language, check_limits, check_modes, check_transcription};
use potato_core::cloud_memory::{memory_matches, owner_key, to_hex};
use potato_core::computer::protected;
use potato_core::jobs::{
    active, check_offset, ending, find_job, keep_whole_characters, list_jobs, output_query, page, reopen, room_for_job,
    Ending, JobRef, Stream,
};
use potato_core::permissions::FileMode;
use potato_core::providers::{key_names, provider_ident, validate_protocol};

#[test]
fn self_and_protected_apps_cannot_be_controlled() {
    let own = 4242;
    assert!(protected("Potato Rust Preview", "", 10, own));
    assert!(protected("终端", "com.apple.Terminal", 10, own));
    assert!(protected("anything", "", own, own));
    assert!(!protected("Calculator", "com.apple.calculator", 10, own));
    assert!(protected("WezTerm", "", 10, own));
    assert!(!protected("Terminal Helper", "", 10, own));
}

#[test]
fn live_statuses_and_endings() {
    assert!(active(Some("running")));
    assert!(active(Some("awaiting_approval")));
    assert!(!active(Some("completed")));
    assert!(!active(None));
    assert!(room_for_job(15).is_ok());
    assert_eq!(room_for_job(16).unwrap_err().message, "Too many running shell jobs (16)");
    assert_eq!(ending(true, true, false, 0), Ending::Completed);
    assert_eq!(ending(true, false, true, 0).name(), "terminated");
    assert_eq!(ending(false, false, true, 408).name(), "cancelled");
    assert_eq!(ending(false, false, false, 408).name(), "timed_out");
    assert_eq!(ending(false, false, false, 500).name(), "failed");
    let r = reopen(Some("running"), Some("pending"), Some(3));
    assert!(r.interrupted && r.continuation_interrupted);
    assert_eq!(r.archive_attempt, None);
    let r = reopen(Some("completed"), Some("done"), Some(2));
    assert!(!r.interrupted && !r.continuation_interrupted);
    assert_eq!(r.archive_attempt, Some(2));
}

#[test]
fn output_requests_are_validated_and_paged() {
    let q = output_query(None, None, None, None, None, None).unwrap();
    assert_eq!((q.stream, q.offset, q.limit, q.attempt), (Stream::Stdout, 0, 8000, None));
    let q = output_query(Some("stderr"), Some(10), Some(1), None, Some(1), Some(2)).unwrap();
    assert_eq!((q.stream, q.limit, q.attempt), (Stream::Stderr, 4, Some(1)));
    assert_eq!(output_query(None, None, Some(99_999), None, None, None).unwrap().limit, 16_000);
    assert_eq!(output_query(Some("stdin"), None, None, None, None, None).unwrap_err().message, "stream must be stdout or stderr");
    assert_eq!(output_query(None, None, None, Some(Some(3)), None, None).unwrap_err().message, "Invalid attempt index");
    assert_eq!(output_query(None, None, None, Some(None), None, None).unwrap_err().status, 400);
    assert_eq!(output_query(None, None, None, Some(Some(2)), None, Some(2)).unwrap_err().status, 404);
    assert_eq!(output_query(None, None, None, None, Some(0), None).unwrap_err().message, "Attempt not found");
    assert!(check_offset(5, 5).is_ok());
    assert_eq!(check_offset(6, 5).unwrap_err().status, 400);
    let p = page(10, 5, 20);
    assert_eq!((p.next_offset, p.has_more), (15, true));
    assert!(!page(15, 5, 20).has_more);
}

#[test]
fn pages_never_split_a_character() {
    let bytes = "a中".as_bytes().to_vec();
    assert_eq!(keep_whole_characters(bytes[..3].to_vec()), b"a".to_vec());
    assert_eq!(keep_whole_characters(bytes.clone()), bytes);
    assert_eq!(keep_whole_characters(vec![b'a', 0xff, b'b']), vec![b'a', 0xff, b'b']);
}

#[test]
fn provider_protocols_and_key_names() {
    assert!(validate_protocol("OpenAIChatModel").is_ok());
    assert!(validate_protocol("OpenAIResponseModel").is_ok());
    assert_eq!(validate_protocol("AnthropicChatModel").unwrap_err().status, 501);
    assert_eq!(provider_ident("deep-seek v2"), "DEEP_SEEK_V2");
    assert_eq!(provider_ident("--"), "");
    assert_eq!(
        key_names("deepseek", "deepseek-chat"),
        vec!["DEEPSEEK_API_KEY", "POTATO_DEEPSEEK_API_KEY", "DEEPSEEK_CLAUDE", "DEEPSEEK_OPENAI"]
    );
    assert_eq!(
        key_names("Gemini", "GPT-4o"),
        vec!["GEMINI_API_KEY", "POTATO_GEMINI_API_KEY", "GOOGLE_API_KEY", "GEMINI_OPENAI", "GEMINI_CLAUDE"]
    );
    assert_eq!(key_names("kimi", "k2")[2], "MOONSHOT_API_KEY");
}

#[test]
fn account_cache_keys_hash_relay_and_email() {
    assert_eq!(owner_key("", ""), "01ba4719c80b6fe911b091a7c05124b64eeece964e09c058ef8f9805daca546b");
    assert_eq!(owner_key("relay", "a@b").len(), 64);
    assert_ne!(owner_key("relay", "a@b"), owner_key("relay", "a@c"));
    assert_eq!(to_hex(&[0x00, 0xab, 0x10]), "00ab10");
}

#[test]
fn memory_search_normalizes_and_needs_every_term() {
    assert!(memory_matches("ＣＯＦＦＥＥ 无糖", "我喜欢无糖 coffee"));
    assert!(!memory_matches("coffee tea", "coffee only"));
    assert!(memory_matches("  ", "anything"));
}

#[test]
fn settings_changes_are_validated() {
    assert!(check_language("en").is_ok());
    assert_eq!(check_language("fr").unwrap_err().message, "Unsupported workspace language");
    assert_eq!(check_language("").unwrap_err().message, "language is required");
    assert!(check_limits(Some(Some(1000)), None).is_ok());
    assert_eq!(check_limits(Some(Some(0)), None).unwrap_err().message, "max_iters must be between 1 and 1000");
    assert_eq!(check_limits(None, Some(None)).unwrap_err().message, "max_parallel_reads must be between 1 and 16");
    assert!(check_modes(Some(Some("STRICT")), Some(Some("read-only"))).is_ok());
    assert_eq!(check_modes(Some(Some("OFF")), None).unwrap_err().message, "approval_level must be AUTO, STRICT or NEVER");
    assert_eq!(check_modes(None, Some(Some("full-access"))).unwrap(), Some(FileMode::FullAccess));
    assert_eq!(FileMode::FullAccess.name(), "danger-full-access");
    assert_eq!(check_modes(None, Some(Some("everything"))).unwrap_err().message, "Unsupported native file access mode");
    assert_eq!(check_modes(Some(Some("NEVER")), None).unwrap(), None);
    assert_eq!(check_modes(Some(None), None).unwrap_err().message, "approval_level must be a string");
    assert_eq!(check_transcription("doubao_asr").is_ok(), true);
    assert_eq!(check_transcription("azure").unwrap_err().status, 501);
    assert!(check_computer_use(0).is_ok());
    assert!(check_computer_use(1).is_err());
}

#[test]
fn a_job_is_reachable_only_from_its_own_session() {
    let jobs = vec![
        JobRef { id: "j1".to_owned(), session: "s".to_owned(), created_at: None },
        JobRef { id: "j2".to_owned(), session: "t".to_owned(), created_at: None },
    ];
    assert_eq!(find_job(&jobs, "s", "j1").unwrap(), 0);
    assert_eq!(find_job(&jobs, "t", "j2").unwrap(), 1);
    let e = find_job(&jobs, "s2", "j1").unwrap_err();
    assert_eq!((e.status, e.message.as_str()), (404, "Job not found in this conversation"));
    assert_eq!(find_job(&jobs, "s", "missing").unwrap_err().status, 404);
}

#[test]
fn jobs_are_listed_oldest_first_keeping_the_newest_hundred() {
    let job = |id: usize, session: &str, created: Option<&str>| JobRef {
        id: id.to_string(),
        session: session.to_owned(),
        created_at: created.map(str::to_owned),
    };
    let jobs = vec![
        job(0, "s", Some("2024-05-02T00:00:00Z")),
        job(1, "t", Some("2024-01-01T00:00:00Z")),
        job(2, "s", Some("2024-05-01T00:00:00Z")),
        job(3, "s", None),
        job(4, "s", Some("2024-05-01T00:00:00Z")),
    ];
    assert_eq!(list_jobs(&jobs, "s"), (vec![3, 2, 4, 0], 4));
    assert_eq!(list_jobs(&jobs, "t"), (vec![1], 1));
    assert_eq!(list_jobs(&jobs, "u"), (vec![], 0));
    let many: Vec<JobRef> = (0..105).map(|i| job(i, "s", Some(&format!("2024-01-01T00:00:{:03}", 104 - i)))).collect();
    let (listed, total) = list_jobs(&many, "s");
    assert_eq!(total, 105);
    assert_eq!(listed.len(), 100);
    assert_eq!(listed[0], 99);
    assert_eq!(listed[99], 0);
}
