use potato_core::approval::{approval_guidance, approval_level, file_mode};
use potato_core::cloud_memory::{cloud_digest, MemoryRow};
use potato_core::memory::{memory_guidance, IndexRead};
use potato_core::permissions::{ApprovalPolicy, FileMode, Reviewer};

#[test]
fn request_settings_override_running_ones() {
    assert_eq!(approval_level(None, None).unwrap(), ApprovalPolicy::Auto);
    assert_eq!(approval_level(Some(Some("STRICT")), Some(Some("NEVER"))).unwrap(), ApprovalPolicy::Strict);
    assert_eq!(approval_level(None, Some(Some("NEVER"))).unwrap(), ApprovalPolicy::Never);
    assert_eq!(approval_level(Some(None), Some(Some("NEVER"))).err().unwrap().message, "approval_level must be a string");
    assert_eq!(
        approval_level(Some(Some("auto")), None).err().unwrap().message,
        "approval_level must be AUTO, STRICT or NEVER"
    );
    assert_eq!(file_mode(None, None).unwrap(), FileMode::WorkspaceWrite);
    assert_eq!(file_mode(None, Some(Some("full-access"))).unwrap(), FileMode::FullAccess);
    assert_eq!(file_mode(Some(Some("read-only")), None).unwrap(), FileMode::ReadOnly);
    let e = file_mode(Some(Some("everything")), None).err().unwrap();
    assert_eq!((e.status, e.message.as_str()), (400, "Unsupported native file access mode"));
    assert_eq!(file_mode(Some(None), None).err().unwrap().message, "sandbox_mode must be a string");
}

#[test]
fn guidance_names_policy_approver_mode_and_shell() {
    let text = approval_guidance(ApprovalPolicy::Auto, FileMode::WorkspaceWrite, Reviewer::Model, true, "{\"available\":true}");
    assert!(text.starts_with(
        "Approval policy: AUTO. Approver: independent model auto-review; submit the concrete tool directly"
    ));
    assert!(text.contains(". File access: workspace-write. Shell sandbox: {\"available\":true}.\nOrdinary project reads"));
    assert!(text.ends_with("then continue with a concrete recovery plan."));
    let strict = approval_guidance(ApprovalPolicy::Strict, FileMode::FullAccess, Reviewer::Model, true, "{}");
    assert!(strict.starts_with("Approval policy: STRICT. Approver: user; every operation is reviewed manually. File access: danger-full-access."));
    assert!(strict.ends_with("\nShell runs without OS file isolation, subject to approval."));
    let never = approval_guidance(ApprovalPolicy::Never, FileMode::ReadOnly, Reviewer::User, false, "{}");
    assert!(never.contains("Approver: none; operations requiring approval are blocked"));
    assert!(never.contains("\nProject file and project memory writes are disabled."));
    assert!(never.ends_with("\nOS sandbox is unavailable. The runtime routes necessary host execution through approval; no unreviewed fallback occurs. Prefer file tools when sufficient."));
    let user = approval_guidance(ApprovalPolicy::Auto, FileMode::WorkspaceWrite, Reviewer::User, true, "{}");
    assert!(user.contains("Approver: user; submit the concrete tool and let the host present any required approval."));
}

#[test]
fn memory_guidance_lists_roots_and_index_previews() {
    let none = memory_guidance("/g", "/p", "/g/MEMORY.md", &IndexRead::Missing, "/p/MEMORY.md", &IndexRead::Missing);
    assert_eq!(none, "Memory locations: user-wide /g; project /p (created on first write).");
    let both = memory_guidance(
        "/g",
        "/p",
        "/g/MEMORY.md",
        &IndexRead::Text("- a.md: notes".to_string()),
        "/p/MEMORY.md",
        &IndexRead::Failed,
    );
    assert_eq!(
        both,
        "Memory locations: user-wide /g; project /p (created on first write).\nMemory index reference (/g/MEMORY.md; complete):\n- a.md: notes\nEnd memory index reference.\n\nMemory index at /p/MEMORY.md could not be read; other notes remain available through file tools.\n"
    );
    let blank = memory_guidance("/g", "/p", "/g/MEMORY.md", &IndexRead::Text(" \n\t".to_string()), "/p/MEMORY.md", &IndexRead::Missing);
    assert_eq!(blank, none);
    let long = "x".repeat(2500);
    let cut = memory_guidance("/g", "/p", "/g/MEMORY.md", &IndexRead::Text(long), "/p/MEMORY.md", &IndexRead::Missing);
    assert!(cut.contains("(/g/MEMORY.md; preview truncated; read_file can retrieve the rest):\n"));
    assert!(cut.contains(&format!(":\n{}\nEnd memory index reference.\n", "x".repeat(2000))));
    assert!(!cut.contains(&"x".repeat(2001)));
}

fn row(id: &str, text: &str, updated: &str) -> MemoryRow {
    MemoryRow { id: id.to_string(), text: text.to_string(), updated: updated.to_string() }
}

#[test]
fn cloud_digest_lists_newest_first_on_single_lines() {
    let rows = vec![
        row("aaaaaaaaaaaa", "old\nline", "2024-01-01"),
        row("b", "new", "2025-01-01"),
        row("c", "same\rtime", "2024-01-01"),
    ];
    assert_eq!(
        cloud_digest(&rows, "2025-06-01T00:00:00+00:00", false),
        "Personal memory (cloud, 3 items, synced 2025-06-01T00:00:00+00:00):\n- [b] new\n- [aaaaaaaa] old line\n- [c] same time"
    );
    assert_eq!(cloud_digest(&Vec::new(), "t", true), "Personal memory (cloud, 0 items, synced t, offline):");
}

#[test]
fn cloud_digest_stops_within_its_budget() {
    let rows: Vec<MemoryRow> =
        (0..40).map(|i| row(&format!("{i:02}"), &format!("{}{}", "x".repeat(150), i), &format!("{i:02}"))).collect();
    let digest = cloud_digest(&rows, "t", false);
    assert!(digest.len() <= 4000);
    assert!(digest.starts_with("Personal memory (cloud, 40 items, synced t):\n- [39] "));
    let listed = digest.matches("\n- [").count();
    assert!(listed > 20 && listed < 40);
    assert!(digest.ends_with(&format!("\n- … {} more; use memory_search", 40 - listed)));
    let line = format!("\n- [39] {}", "x".repeat(120));
    assert!(digest.contains(&line));
}
