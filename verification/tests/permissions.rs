use potato_core::approval::{
    after_review, audit_source, check_pending, choose_reply, gate, sensitive, settle, validate, GateInput,
    GateStep, Reply, ReviewOutcome, ReviewStep, SettleInput, Settlement, WaitEnd,
};
use potato_core::paths::LibPath;
use potato_core::permissions::{
    directory_decision, ApprovalPolicy, Decision, DirectoryRule, FileMode, Operation, PermissionConfig,
    Reviewer,
};

fn p(s: &str) -> LibPath {
    LibPath::parse(s)
}

fn rule(id: &str, path: &str, recursive: bool, ops: Vec<Operation>, decision: Decision, session: Option<&str>) -> DirectoryRule {
    DirectoryRule {
        id: id.to_owned(),
        kind: "directory".to_owned(),
        path: p(path),
        recursive,
        operations: ops,
        decision,
        lifetime: "persistent".to_owned(),
        created_by: "user".to_owned(),
        session_id: session.map(str::to_owned),
        identity: "1:2".to_owned(),
    }
}

#[test]
fn labels_and_names_of_policies_and_modes() {
    assert_eq!(FileMode::ReadOnly.label(), "只读");
    assert_eq!(FileMode::WorkspaceWrite.label(), "工作区读写");
    assert_eq!(FileMode::FullAccess.label(), "完全访问");
    assert_eq!(ApprovalPolicy::Auto.label(), "按规则确认");
    assert_eq!(ApprovalPolicy::Strict.label(), "每次确认");
    assert_eq!(ApprovalPolicy::Never.label(), "禁止需确认的操作");
    assert_eq!(FileMode::parse("danger-full-access"), Some(FileMode::FullAccess));
    assert_eq!(FileMode::parse("full-access"), Some(FileMode::FullAccess));
    assert_eq!(FileMode::parse("full"), None);
    assert_eq!(ApprovalPolicy::parse("STRICT"), Some(ApprovalPolicy::Strict));
    assert_eq!(ApprovalPolicy::parse("OFF"), None);
    assert!(validate("NEVER").is_ok());
    assert_eq!(validate("bogus").unwrap_err().message, "approval_level must be AUTO, STRICT or NEVER");
}

#[test]
fn reviewer_selection_needs_both_fields() {
    let mut c = PermissionConfig::default_config();
    assert!(c.validate().is_ok());
    c.reviewer_model = "gpt".to_owned();
    assert_eq!(
        c.validate().unwrap_err().message,
        "Choose both approver provider and model, or leave both empty to follow the active model"
    );
    c.reviewer_provider_id = "deepseek".to_owned();
    c.reviewer_model = "   ".to_owned();
    assert_eq!(c.validate().unwrap_err().status, 400);
    c.reviewer_model = "gpt".to_owned();
    c.reviewer_provider_id = "x".repeat(256);
    assert!(c.validate().is_ok());
    c.reviewer_provider_id = "x".repeat(257);
    assert_eq!(c.validate().unwrap_err().message, "Approver selection is too long");
    c.reviewer_provider_id = "openai".to_owned();
    assert!(c.validate().is_ok());
}

#[test]
fn only_read_tools_have_operations() {
    assert_eq!(Operation::for_tool("read_file"), Some(Operation::Read));
    assert_eq!(Operation::for_tool("list_directory"), Some(Operation::List));
    assert_eq!(Operation::for_tool("glob_search"), Some(Operation::Search));
    assert_eq!(Operation::for_tool("write_file"), None);
}

#[test]
fn sensitive_paths_cover_credentials_and_authority() {
    assert!(sensitive(&p("/home/u/project/.env")));
    assert!(sensitive(&p("/home/u/project/.ENV.local")));
    assert!(sensitive(&p(".git/config")));
    assert!(sensitive(&p("AGENTS.md")));
    assert!(sensitive(&p("keys/server.PEM")));
    assert!(sensitive(&p(".potato/config.json")));
    assert!(!sensitive(&p(".potato/memory/note.md")));
    assert!(!sensitive(&p(".potato/artifacts/result.txt")));
    assert!(sensitive(&p(".potato/memory/.env")));
    assert!(!sensitive(&p("src/main.rs")));
}

#[test]
fn denials_win_and_grants_skip_sensitive_paths() {
    let rules = vec![
        rule("allow", "/outside", true, vec![Operation::Read, Operation::Search], Decision::Allow, None),
        rule("deny", "/outside/private", true, vec![Operation::Read], Decision::Deny, None),
    ];
    let fresh = vec![true, true];
    let d = directory_decision(&rules, &fresh, &p("/outside/a.txt"), "read_file", "s");
    assert_eq!(d.map(|(d, id)| (d, id)), Some((Decision::Allow, "allow".to_owned())));
    let d = directory_decision(&rules, &fresh, &p("/outside/private/x"), "read_file", "s");
    assert_eq!(d, Some((Decision::Deny, "deny".to_owned())));
    let d = directory_decision(&rules, &fresh, &p("/outside"), "grep_search", "s");
    assert_eq!(d, Some((Decision::Deny, "deny".to_owned())));
    assert_eq!(directory_decision(&rules, &fresh, &p("/outside/.env"), "read_file", "s"), None);
    assert_eq!(directory_decision(&rules, &fresh, &p("/outside-similar/a"), "read_file", "s"), None);
    assert_eq!(directory_decision(&rules, &vec![false, true], &p("/outside/a.txt"), "read_file", "s"), None);
    assert_eq!(directory_decision(&rules, &fresh, &p("/outside/a.txt"), "write_file", "s"), None);
}

#[test]
fn session_rules_never_cross_sessions_and_nonrecursive_rules_stay_narrow() {
    let rules = vec![
        rule("mine", "/outside", false, vec![Operation::Read, Operation::List], Decision::Allow, Some("s")),
    ];
    let fresh = vec![true];
    assert!(directory_decision(&rules, &fresh, &p("/outside/a"), "read_file", "s").is_some());
    assert!(directory_decision(&rules, &fresh, &p("/outside/a"), "read_file", "other").is_none());
    assert!(directory_decision(&rules, &fresh, &p("/outside/nested/b"), "read_file", "s").is_none());
    assert!(directory_decision(&rules, &fresh, &p("/outside"), "list_directory", "s").is_some());
    assert!(directory_decision(&rules, &fresh, &p("/outside/nested"), "list_directory", "s").is_none());
}

#[test]
fn rule_identity_must_be_unchanged() {
    let r = rule("x", "/outside", true, vec![Operation::Read], Decision::Allow, None);
    assert!(r.unchanged(&p("/outside"), "1:2"));
    assert!(!r.unchanged(&p("/outside"), "1:3"));
    assert!(!r.unchanged(&p("/elsewhere"), "1:2"));
    assert!(r.matches(&p("/outside/deep/file"), Operation::Read, "s"));
}

fn input(level: ApprovalPolicy) -> GateInput {
    GateInput {
        level,
        rule: None,
        automatic: false,
        cancelled: false,
        tool: "read_file".to_owned(),
        reason: "outside the project".to_owned(),
        exact_grant: false,
        reviewer: Reviewer::User,
        has_directory: true,
    }
}

#[test]
fn never_rejects_what_would_ask_and_strict_always_asks() {
    match gate(&input(ApprovalPolicy::Never)) {
        GateStep::Deny { status, message, .. } => {
            assert_eq!(status, 403);
            assert_eq!(message, "Approval required: outside the project. NEVER policy rejects this action without waiting.");
        }
        _ => panic!("NEVER must reject"),
    }
    let strict = GateInput { exact_grant: true, rule: Some((Decision::Allow, "r".into())), automatic: true, ..input(ApprovalPolicy::Strict) };
    assert!(matches!(gate(&strict), GateStep::Ask { allow_session: false, allow_directory: false }));
    let denied = GateInput { rule: Some((Decision::Deny, "r".into())), ..input(ApprovalPolicy::Auto) };
    match gate(&denied) {
        GateStep::Deny { status, audit, .. } => assert_eq!((status, audit.as_deref()), (403, Some("directory_rule:r"))),
        _ => panic!("a directory denial always rejects"),
    }
}

#[test]
fn auto_honours_grants_then_the_reviewer() {
    let auto = GateInput { automatic: true, tool: "web_search".into(), ..input(ApprovalPolicy::Auto) };
    assert!(matches!(gate(&auto), GateStep::Allow { audit } if audit == "configured_search_service"));
    let granted = GateInput { exact_grant: true, ..input(ApprovalPolicy::Auto) };
    assert!(matches!(gate(&granted), GateStep::Allow { audit } if audit == "session_exact_grant"));
    let model = GateInput { reviewer: Reviewer::Model, ..input(ApprovalPolicy::Auto) };
    assert!(matches!(gate(&model), GateStep::Review));
    assert!(matches!(gate(&input(ApprovalPolicy::Auto)), GateStep::Ask { allow_session: true, allow_directory: true }));
    let cancelled = GateInput { cancelled: true, ..input(ApprovalPolicy::Auto) };
    assert!(matches!(gate(&cancelled), GateStep::Deny { status: 499, audit: None, .. }));
}

#[test]
fn review_outcomes() {
    assert!(matches!(after_review(true, true, Some(ReviewOutcome::Allow), false), ReviewStep::Stale));
    assert!(matches!(after_review(false, false, Some(ReviewOutcome::Allow), false), ReviewStep::TargetChanged));
    assert!(matches!(after_review(false, true, Some(ReviewOutcome::Deny), true), ReviewStep::Repeated));
    assert!(matches!(after_review(false, true, None, false), ReviewStep::AskUser));
}

fn waited(end: WaitEnd, level: ApprovalPolicy) -> SettleInput {
    SettleInput {
        end,
        cancelled: false,
        changed: false,
        target_unchanged: true,
        level,
        tool: "read_file".to_owned(),
        reason: "outside".to_owned(),
        has_directory: true,
        epoch_unchanged: true,
    }
}

#[test]
fn strict_once_is_not_remembered_and_changes_invalidate_answers() {
    assert!(matches!(settle(&waited(WaitEnd::Answered(Reply::Session), ApprovalPolicy::Strict)), Settlement::Grant { remember: false, .. }));
    assert!(matches!(settle(&waited(WaitEnd::Answered(Reply::Session), ApprovalPolicy::Auto)), Settlement::Grant { remember: true, .. }));
    assert!(matches!(settle(&waited(WaitEnd::Answered(Reply::Once), ApprovalPolicy::Auto)), Settlement::Grant { remember: false, .. }));
    let changed = SettleInput { changed: true, ..waited(WaitEnd::Answered(Reply::Once), ApprovalPolicy::Auto) };
    assert!(matches!(settle(&changed), Settlement::Reject { status: 409, .. }));
    assert!(matches!(settle(&waited(WaitEnd::Expired, ApprovalPolicy::Auto)), Settlement::Reject { status: 403, .. }));
    assert!(matches!(settle(&waited(WaitEnd::Answered(Reply::Directory), ApprovalPolicy::Strict)), Settlement::Reject { status: 403, .. }));
    assert!(matches!(settle(&waited(WaitEnd::Answered(Reply::Directory), ApprovalPolicy::Auto)), Settlement::SaveDirectory { .. }));
    let revoked = SettleInput { epoch_unchanged: false, ..waited(WaitEnd::Answered(Reply::Once), ApprovalPolicy::Auto) };
    assert!(matches!(settle(&revoked), Settlement::Reject { status: 409, .. }));
}

#[test]
fn approval_scopes_and_expiry() {
    assert!(matches!(choose_reply(false, None, false), Ok(Reply::Once)));
    assert!(matches!(choose_reply(false, Some("session"), true), Ok(Reply::Session)));
    assert_eq!(choose_reply(false, Some("session"), false).unwrap_err().status, 400);
    assert_eq!(choose_reply(true, Some("directory"), true).unwrap_err().status, 400);
    assert!(matches!(choose_reply(true, Some("exact"), false), Ok(Reply::Deny)));
    assert_eq!(check_pending(false, false, 0, 0).unwrap_err().status, 403);
    assert_eq!(check_pending(true, false, 0, 300).unwrap_err().status, 409);
    assert!(check_pending(true, false, 0, 299).is_ok());
    assert_eq!(check_pending(true, true, 0, 0).unwrap_err().status, 409);
    assert_eq!(audit_source("allowed", "directory_rule:x"), "directory_rule");
    assert_eq!(audit_source("allowed", "session_exact_grant"), "session_exact_grant");
    assert_eq!(audit_source("allowed_once", "x"), "user");
    assert_eq!(audit_source("denied", "x"), "policy");
}
