//! Deterministic approval policy. A grant changes prompting, never file
//! confinement.
use vstd::prelude::*;
use crate::paths::LibPath;
use crate::error::Error;
use crate::permissions::{ApprovalPolicy, Decision, FileMode, Reviewer, approval_policy_name, file_mode_name};
use crate::text::{cat, cat3, str_eq};
use crate::text::{lower_eq, lower_prefix, lower_suffix, lower_equals, lower_starts_with, lower_ends_with};

verus! {

pub open spec fn level_name(level: Seq<char>) -> bool {
    level == "AUTO"@ || level == "STRICT"@ || level == "NEVER"@
}

/// Accepts an approval level name.
pub fn validate(level: &str) -> (r: Result<(), Error>)
    ensures
        level_name(level@) ==> r is Ok,
        !level_name(level@) ==> (r matches Err(e) && e.status == 400 && e.message@
            == "approval_level must be AUTO, STRICT or NEVER"@),
{
    if str_eq(level, "AUTO") || str_eq(level, "STRICT") || str_eq(level, "NEVER") {
        Ok(())
    } else {
        Err(Error::new(400, "approval_level must be AUTO, STRICT or NEVER"))
    }
}

/// Component names that can change the agent's authority or hold credentials.
pub open spec fn protected_name(n: Seq<char>) -> bool {
    lower_equals(n, ".git"@) || lower_equals(n, ".agents"@) || lower_equals(n, ".codex"@)
        || lower_equals(n, ".ssh"@) || lower_equals(n, ".aws"@) || lower_equals(n, ".gnupg"@)
        || lower_equals(n, "agents.md"@) || lower_equals(n, "soul.md"@)
        || lower_equals(n, "profile.md"@) || lower_equals(n, "skill.md"@)
        || lower_equals(n, "policy.yaml"@) || lower_equals(n, ".env"@)
        || lower_starts_with(n, ".env."@) || lower_ends_with(n, ".pem"@)
        || lower_ends_with(n, ".key"@)
}

/// Whether component `i` makes the path sensitive. A `.potato` directory is
/// sensitive unless the next component is its public `memory` or
/// `artifacts` area.
pub open spec fn sensitive_at(parts: Seq<Seq<char>>, i: int) -> bool {
    if lower_equals(parts[i], ".potato"@) {
        !(i + 1 < parts.len() && (lower_equals(parts[i + 1], "memory"@) || lower_equals(
            parts[i + 1],
            "artifacts"@,
        )))
    } else {
        protected_name(parts[i])
    }
}

pub open spec fn spec_sensitive(parts: Seq<Seq<char>>) -> bool {
    exists|i: int| 0 <= i < parts.len() && #[trigger] sensitive_at(parts, i)
}

fn protected_component(n: &Vec<char>) -> (r: bool)
    ensures
        r == protected_name(n@),
{
    lower_eq(n, ".git") || lower_eq(n, ".agents") || lower_eq(n, ".codex") || lower_eq(n, ".ssh")
        || lower_eq(n, ".aws") || lower_eq(n, ".gnupg") || lower_eq(n, "agents.md")
        || lower_eq(n, "soul.md") || lower_eq(n, "profile.md") || lower_eq(n, "skill.md")
        || lower_eq(n, "policy.yaml") || lower_eq(n, ".env") || lower_prefix(n, ".env.")
        || lower_suffix(n, ".pem") || lower_suffix(n, ".key")
}

/// Paths that can change the agent's authority or contain credentials.
/// Reading them explicitly is possible, but automatic recursive search skips
/// them, and directory grants never cover them.
pub fn sensitive(path: &LibPath) -> (r: bool)
    ensures
        r == spec_sensitive(path.spec_parts()),
{
    let parts = &path.parts;
    let ghost ps = path.spec_parts();
    for i in 0..parts.len()
        invariant
            ps == path.spec_parts(),
            parts == path.parts,
            forall|j: int| 0 <= j < i ==> !sensitive_at(ps, j),
    {
        proof {
            crate::paths::lemma_parts_view_index(parts@, i as int);
            if i + 1 < parts.len() {
                crate::paths::lemma_parts_view_index(parts@, i + 1);
            }
        }
        let hit = if lower_eq(&parts[i], ".potato") {
            !(i + 1 < parts.len() && (lower_eq(&parts[i + 1], "memory") || lower_eq(
                &parts[i + 1],
                "artifacts",
            )))
        } else {
            protected_component(&parts[i])
        };
        if hit {
            proof {
                assert(sensitive_at(ps, i as int));
            }
            return true;
        }
    }
    false
}

/// The tools whose exact approvals may be reused for the session.
pub open spec fn reusable_tool(name: Seq<char>) -> bool {
    name == "read_file"@ || name == "list_directory"@ || name == "grep_search"@ || name == "glob_search"@
}

fn is_reusable_tool(name: &str) -> (r: bool)
    ensures
        r == reusable_tool(name@),
{
    str_eq(name, "read_file") || str_eq(name, "list_directory") || str_eq(name, "grep_search")
        || str_eq(name, "glob_search")
}

/// What the approval step does next with an action.
pub enum GateStep {
    /// Reject with this status; `audit` is the reason recorded, where the
    /// rejection is recorded at all.
    Deny { status: u16, audit: Option<String>, message: String },
    /// Run the action; `audit` is the reason recorded.
    Allow { audit: String },
    /// Hand the action to the independent model that vets actions.
    Review,
    /// Ask the user; the flags say which reusable answers are offered.
    Ask { allow_session: bool, allow_directory: bool },
}

/// Everything the approval step decides on.
pub struct GateInput {
    pub level: ApprovalPolicy,
    /// The directory-rule decision for the target, if any.
    pub rule: Option<(Decision, String)>,
    /// The action is ordinary project work that the policy runs without asking.
    pub automatic: bool,
    pub cancelled: bool,
    pub tool: String,
    /// Why the action needs approval (shown to the user and audited).
    pub reason: String,
    /// An unexpired exact grant for this session and action exists.
    pub exact_grant: bool,
    pub reviewer: Reviewer,
    /// A directory could be suggested for a reusable directory grant.
    pub has_directory: bool,
}

pub open spec fn denied_by_rule(rule: Option<(Decision, String)>) -> bool {
    rule matches Some((d, _)) && d == Decision::Deny
}

pub open spec fn allowed_by_rule(rule: Option<(Decision, String)>) -> bool {
    rule matches Some((d, _)) && d == Decision::Allow
}

pub open spec fn rule_id(rule: Option<(Decision, String)>) -> Seq<char> {
    match rule {
        Some((_, id)) => id@,
        None => Seq::<char>::empty(),
    }
}

/// The approval decision, in the order the runtime applies its checks.
pub open spec fn spec_gate(i: GateInput, step: GateStep) -> bool {
    let auto = i.level == ApprovalPolicy::Auto;
    let reusable = auto && reusable_tool(i.tool@);
    if denied_by_rule(i.rule) {
        step matches GateStep::Deny { status, audit, message } && status == 403
            && audit is Some && audit->0@ == "directory_rule:"@ + rule_id(i.rule)
            && message@ == "Access denied by a directory rule"@
    } else if i.cancelled {
        step matches GateStep::Deny { status, audit, message } && status == 499 && audit is None
            && message@ == "Tool cancelled"@
    } else if i.automatic && i.level != ApprovalPolicy::Strict {
        step matches GateStep::Allow { audit } && audit@ == (if i.tool@ == "web_search"@ {
            "configured_search_service"@
        } else {
            "project_policy"@
        })
    } else if i.level == ApprovalPolicy::Never {
        step matches GateStep::Deny { status, audit, message } && status == 403 && audit is Some && audit->0@ == i.reason@
            && message@ == "Approval required: "@ + i.reason@
                + ". NEVER policy rejects this action without waiting."@
    } else if auto && allowed_by_rule(i.rule) {
        step matches GateStep::Allow { audit } && audit@ == "directory_rule:"@ + rule_id(i.rule)
    } else if reusable && i.exact_grant {
        step matches GateStep::Allow { audit } && audit@ == "session_exact_grant"@
    } else if auto && i.reviewer == Reviewer::Model {
        step is Review
    } else {
        step matches GateStep::Ask { allow_session, allow_directory } && allow_session == reusable
            && allow_directory == (i.has_directory && auto)
    }
}

/// Decides what happens to an action before anyone is asked: a directory
/// denial always rejects; `NEVER` rejects whatever would ask; `STRICT`
/// asks every time, whatever grants or rules exist; `AUTO` runs ordinary
/// work, honours directory grants and exact session grants, then hands the
/// rest to the configured approver.
pub fn gate(i: &GateInput) -> (step: GateStep)
    ensures
        spec_gate(*i, step),
{
    let auto = i.level == ApprovalPolicy::Auto;
    let reusable = auto && is_reusable_tool(i.tool.as_str());
    match &i.rule {
        Some((Decision::Deny, id)) => {
            return GateStep::Deny {
                status: 403,
                audit: Some(cat("directory_rule:", id.as_str())),
                message: "Access denied by a directory rule".to_owned(),
            };
        },
        _ => {},
    }
    if i.cancelled {
        return GateStep::Deny {
            status: 499,
            audit: None,
            message: "Tool cancelled".to_owned(),
        };
    }
    if i.automatic && i.level != ApprovalPolicy::Strict {
        let audit = if str_eq(i.tool.as_str(), "web_search") {
            "configured_search_service".to_owned()
        } else {
            "project_policy".to_owned()
        };
        return GateStep::Allow { audit };
    }
    if i.level == ApprovalPolicy::Never {
        let message = cat3(
            "Approval required: ",
            i.reason.as_str(),
            ". NEVER policy rejects this action without waiting.",
        );
        return GateStep::Deny { status: 403, audit: Some(i.reason.clone()), message };
    }
    if auto {
        match &i.rule {
            Some((Decision::Allow, id)) => {
                return GateStep::Allow { audit: cat("directory_rule:", id.as_str()) };
            },
            _ => {},
        }
    }
    if reusable && i.exact_grant {
        return GateStep::Allow { audit: "session_exact_grant".to_owned() };
    }
    if auto && i.reviewer == Reviewer::Model {
        return GateStep::Review;
    }
    GateStep::Ask { allow_session: reusable, allow_directory: i.has_directory && auto }
}

/// The independent model's verdict.
#[derive(Clone, Copy, Debug, PartialEq, Eq, Structural)]
pub enum ReviewOutcome {
    Allow,
    Deny,
    AskUser,
}

/// What follows a model review.
pub enum ReviewStep {
    /// Permissions, instructions or the target changed meanwhile (409).
    Stale,
    /// The target path changed since review (409).
    TargetChanged,
    Allow,
    /// The model denied (403).
    Deny,
    /// The same denied action was requested again; the turn stops.
    Repeated,
    /// The user decides.
    AskUser,
}

/// Decides after a model review. `stale` covers cancellation and any change
/// of permissions, review generation or pending instructions;
/// `target_unchanged` is the re-check of the reviewed path.
pub fn after_review(stale: bool, target_unchanged: bool, assessment: Option<ReviewOutcome>, repeated: bool) -> (s: ReviewStep)
    ensures
        stale ==> s is Stale,
        !stale && !target_unchanged ==> s is TargetChanged,
        !stale && target_unchanged ==> match assessment {
            Some(ReviewOutcome::Allow) => s is Allow,
            Some(ReviewOutcome::Deny) => if repeated { s is Repeated } else { s is Deny },
            _ => s is AskUser,
        },
{
    if stale {
        return ReviewStep::Stale;
    }
    if !target_unchanged {
        return ReviewStep::TargetChanged;
    }
    match assessment {
        Some(ReviewOutcome::Allow) => ReviewStep::Allow,
        Some(ReviewOutcome::Deny) => if repeated { ReviewStep::Repeated } else { ReviewStep::Deny },
        _ => ReviewStep::AskUser,
    }
}

/// A user's answer to an approval request.
#[derive(Clone, Copy, Debug, PartialEq, Eq, Structural)]
pub enum Reply {
    Once,
    Session,
    Deny,
    Directory,
}

/// How waiting for the user ended.
#[derive(Clone, Copy, Debug, PartialEq, Eq, Structural)]
pub enum WaitEnd {
    Answered(Reply),
    Cancelled,
    /// The request was dropped without an answer.
    Unavailable,
    /// No answer within the time limit.
    Expired,
}

/// The reply that the wait amounts to, and the outcome recorded for it.
pub open spec fn wait_reply(end: WaitEnd) -> Reply {
    match end {
        WaitEnd::Answered(r) => r,
        _ => Reply::Deny,
    }
}

pub open spec fn wait_outcome(end: WaitEnd) -> Seq<char> {
    match end {
        WaitEnd::Answered(Reply::Once) => "allowed_once"@,
        WaitEnd::Answered(Reply::Session) => "allowed_session"@,
        WaitEnd::Answered(Reply::Directory) => "allowed_directory"@,
        WaitEnd::Answered(Reply::Deny) => "denied"@,
        WaitEnd::Cancelled => "cancelled"@,
        WaitEnd::Unavailable => "unavailable"@,
        WaitEnd::Expired => "expired"@,
    }
}

fn outcome_name(end: WaitEnd) -> (s: &'static str)
    ensures
        s@ == wait_outcome(end),
{
    match end {
        WaitEnd::Answered(Reply::Once) => "allowed_once",
        WaitEnd::Answered(Reply::Session) => "allowed_session",
        WaitEnd::Answered(Reply::Directory) => "allowed_directory",
        WaitEnd::Answered(Reply::Deny) => "denied",
        WaitEnd::Cancelled => "cancelled",
        WaitEnd::Unavailable => "unavailable",
        WaitEnd::Expired => "expired",
    }
}

/// What the runtime does once waiting has ended.
pub enum Settlement {
    /// Fail with this status; `audit` holds the outcome and reason to
    /// record, if any.
    Reject { status: u16, audit: Option<(String, String)>, message: String },
    /// Re-check and save the chosen directory rule, then record `outcome`.
    SaveDirectory { outcome: String },
    /// Run the action, record `outcome` with the reason; `remember` adds an
    /// exact session grant.
    Grant { outcome: String, remember: bool },
}

/// Everything settling depends on.
pub struct SettleInput {
    pub end: WaitEnd,
    /// The turn was cancelled by the time waiting ended.
    pub cancelled: bool,
    /// Permissions, review generation, instructions, policy or file mode
    /// changed while waiting.
    pub changed: bool,
    /// The target path re-check succeeded.
    pub target_unchanged: bool,
    pub level: ApprovalPolicy,
    pub tool: String,
    pub reason: String,
    pub has_directory: bool,
    /// The session's approval epoch is the one seen before waiting.
    pub epoch_unchanged: bool,
}

pub open spec fn spec_settle(i: SettleInput, s: Settlement) -> bool {
    let reply = wait_reply(i.end);
    let auto = i.level == ApprovalPolicy::Auto;
    if i.cancelled {
        s matches Settlement::Reject { status, audit, message } && status == 499 && audit is None
            && message@ == "Tool cancelled"@
    } else if i.changed {
        s matches Settlement::Reject { status, audit, message } && status == 409
            && (audit matches Some((o, r)) && o@ == "denied"@ && r@ == "policy_changed"@)
            && message@ == "Permissions changed while waiting; retry under the current policy"@
    } else if reply == Reply::Deny {
        s matches Settlement::Reject { status, audit, message } && status == 403
            && (audit matches Some((o, r)) && o@ == wait_outcome(i.end) && r@ == i.reason@)
            && message@ == "Tool action "@ + wait_outcome(i.end) + ": "@ + i.reason@
                + ". Continue other authorized work; do not retry unchanged."@
    } else if !i.target_unchanged {
        s matches Settlement::Reject { status, audit, .. } && status == 409 && audit is None
    } else if reply == Reply::Directory {
        if !i.has_directory || !auto {
            s matches Settlement::Reject { status, audit, message } && status == 403 && audit is None
                && message@ == "Directory grant unavailable"@
        } else {
            s matches Settlement::SaveDirectory { outcome } && outcome@ == wait_outcome(i.end)
        }
    } else if !i.epoch_unchanged {
        s matches Settlement::Reject { status, audit, message } && status == 409 && audit is None
            && message@ == "Approval was revoked while waiting"@
    } else {
        s matches Settlement::Grant { outcome, remember } && outcome@ == wait_outcome(i.end)
            && remember == (auto && reusable_tool(i.tool@) && reply == Reply::Session)
    }
}

/// Settles an approval once waiting has ended. Only `AUTO` read tools can
/// remember a session answer; a directory answer needs `AUTO` and a
/// suggested directory; any change while waiting rejects the answer.
pub fn settle(i: &SettleInput) -> (s: Settlement)
    ensures
        spec_settle(*i, s),
{
    let reply = match i.end {
        WaitEnd::Answered(r) => r,
        _ => Reply::Deny,
    };
    let outcome = outcome_name(i.end);
    let auto = i.level == ApprovalPolicy::Auto;
    if i.cancelled {
        return Settlement::Reject { status: 499, audit: None, message: "Tool cancelled".to_owned() };
    }
    if i.changed {
        return Settlement::Reject {
            status: 409,
            audit: Some(("denied".to_owned(), "policy_changed".to_owned())),
            message: "Permissions changed while waiting; retry under the current policy".to_owned(),
        };
    }
    if reply == Reply::Deny {
        let mut message = cat3("Tool action ", outcome, ": ");
        message.append(i.reason.as_str());
        message.append(". Continue other authorized work; do not retry unchanged.");
        return Settlement::Reject {
            status: 403,
            audit: Some((outcome.to_owned(), i.reason.clone())),
            message,
        };
    }
    if !i.target_unchanged {
        return Settlement::Reject {
            status: 409,
            audit: None,
            message: "File or directory changed after permission review".to_owned(),
        };
    }
    if reply == Reply::Directory {
        if !i.has_directory || !auto {
            return Settlement::Reject {
                status: 403,
                audit: None,
                message: "Directory grant unavailable".to_owned(),
            };
        }
        return Settlement::SaveDirectory { outcome: outcome.to_owned() };
    }
    if !i.epoch_unchanged {
        return Settlement::Reject {
            status: 409,
            audit: None,
            message: "Approval was revoked while waiting".to_owned(),
        };
    }
    let remember = auto && is_reusable_tool(i.tool.as_str()) && reply == Reply::Session;
    Settlement::Grant { outcome: outcome.to_owned(), remember }
}

/// Which answers a pending request can take, from its scope argument
/// (`exact` when absent).
pub open spec fn spec_choose_reply(deny: bool, scope: Option<Seq<char>>, allow_session: bool, r: Result<Reply, Error>) -> bool {
    let s = match scope {
        Some(s) => s,
        None => "exact"@,
    };
    if !(s == "exact"@ || s == "session"@) || (s == "session"@ && !allow_session) {
        r matches Err(e) && e.status == 400
    } else {
        r matches Ok(reply) && reply == (if deny {
            Reply::Deny
        } else if s == "session"@ {
            Reply::Session
        } else {
            Reply::Once
        })
    }
}

/// Turns an approve or deny request into a reply; a session-wide answer
/// is only offered where the request allowed it.
pub fn choose_reply(deny: bool, scope: Option<&str>, allow_session: bool) -> (r: Result<Reply, Error>)
    ensures
        spec_choose_reply(deny, match scope { Some(s) => Some(s@), None => None }, allow_session, r),
{
    proof {
        reveal_strlit("exact");
        reveal_strlit("session");
    }
    let (exact, session) = match scope {
        None => (true, false),
        Some(s) => (str_eq(s, "exact"), str_eq(s, "session")),
    };
    if !(exact || session) || (session && !allow_session) {
        return Err(Error::new(400, "Approval scope is not available for this action"));
    }
    assert("exact"@.len() != "session"@.len());
    Ok(if deny {
        Reply::Deny
    } else if session {
        Reply::Session
    } else {
        Reply::Once
    })
}

/// Whether a pending request can still take an answer: it belongs to the
/// asking session and user, the turn still waits, and it is younger than
/// 300 seconds.
pub fn check_pending(belongs: bool, closed: bool, created_at: i64, now: i64) -> (r: Result<(), Error>)
    ensures
        !belongs ==> (r matches Err(e) && e.status == 403),
        belongs && (closed || created_at + 300 <= now) ==> (r matches Err(e) && e.status == 409),
        belongs && !closed && created_at + 300 > now ==> r is Ok,
{
    if !belongs {
        return Err(Error::new(403, "Approval belongs to another session"));
    }
    if closed || (created_at as i128) + 300 <= now as i128 {
        return Err(Error::new(409, "Approval expired or turn cancelled"));
    }
    Ok(())
}

/// Classifies an audit event's source from its reason and outcome.
pub open spec fn spec_audit_source(outcome: Seq<char>, reason: Seq<char>) -> Seq<char> {
    if "directory_rule:"@.len() <= reason.len() && reason.take("directory_rule:"@.len() as int) == "directory_rule:"@ {
        "directory_rule"@
    } else if reason == "session_exact_grant"@ {
        "session_exact_grant"@
    } else if "allowed_"@.len() <= outcome.len() && outcome.take("allowed_"@.len() as int) == "allowed_"@ {
        "user"@
    } else {
        "policy"@
    }
}

fn starts_with_lit(s: &str, lit: &str) -> (r: bool)
    ensures
        r == (lit@.len() <= s@.len() && s@.take(lit@.len() as int) == lit@),
{
    let a = crate::text::chars_of(s);
    let b = crate::text::chars_of(lit);
    if b.len() > a.len() {
        return false;
    }
    for i in 0..b.len()
        invariant
            a@ == s@,
            b@ == lit@,
            b.len() <= a.len(),
            forall|j: int| 0 <= j < i ==> a@[j] == b@[j],
    {
        if a[i] != b[i] {
            proof {
                assert(s@.take(lit@.len() as int)[i as int] == a@[i as int]);
            }
            return false;
        }
    }
    proof {
        assert(s@.take(lit@.len() as int) =~= lit@);
    }
    true
}

/// The source recorded with an audit event.
pub fn audit_source(outcome: &str, reason: &str) -> (s: &'static str)
    ensures
        s@ == spec_audit_source(outcome@, reason@),
{
    if starts_with_lit(reason, "directory_rule:") {
        "directory_rule"
    } else if str_eq(reason, "session_exact_grant") {
        "session_exact_grant"
    } else if starts_with_lit(outcome, "allowed_") {
        "user"
    } else {
        "policy"
    }
}

/// A setting as a request or the running settings give it: `None` where
/// absent, `Some(None)` where present but not text.
pub open spec fn setting(v: Option<Option<&str>>) -> Option<Option<Seq<char>>> {
    match v {
        None => None,
        Some(None) => Some(None),
        Some(Some(s)) => Some(Some(s@)),
    }
}

/// The approval level in force: the request's, else the running one, else
/// `AUTO`; it must be text naming a level.
pub open spec fn spec_chosen_policy(request: Option<Option<Seq<char>>>, running: Option<Option<Seq<char>>>)
    -> Result<ApprovalPolicy, Seq<char>> {
    let v = if request is Some { request } else { running };
    match v {
        None => Ok(ApprovalPolicy::Auto),
        Some(None) => Err("approval_level must be a string"@),
        Some(Some(s)) => if s == "AUTO"@ {
            Ok(ApprovalPolicy::Auto)
        } else if s == "STRICT"@ {
            Ok(ApprovalPolicy::Strict)
        } else if s == "NEVER"@ {
            Ok(ApprovalPolicy::Never)
        } else {
            Err("approval_level must be AUTO, STRICT or NEVER"@)
        },
    }
}

/// The approval level in force for a request.
pub fn approval_level(request: Option<Option<&str>>, running: Option<Option<&str>>) -> (r: Result<
    ApprovalPolicy,
    Error,
>)
    ensures
        match spec_chosen_policy(setting(request), setting(running)) {
            Ok(p) => r == Ok::<ApprovalPolicy, Error>(p),
            Err(m) => r matches Err(e) && e.status == 400 && e.message@ == m,
        },
{
    let v = if request.is_some() { request } else { running };
    match v {
        None => Ok(ApprovalPolicy::Auto),
        Some(None) => Err(Error::new(400, "approval_level must be a string")),
        Some(Some(s)) => match ApprovalPolicy::parse(s) {
            Some(p) => Ok(p),
            None => Err(Error::new(400, "approval_level must be AUTO, STRICT or NEVER")),
        },
    }
}

/// The file access mode in force: the request's, else the running one, else
/// `workspace-write`; it must be text naming a mode.
pub open spec fn spec_chosen_mode(request: Option<Option<Seq<char>>>, running: Option<Option<Seq<char>>>)
    -> Result<FileMode, Seq<char>> {
    let v = if request is Some { request } else { running };
    match v {
        None => Ok(FileMode::WorkspaceWrite),
        Some(None) => Err("sandbox_mode must be a string"@),
        Some(Some(s)) => if s == "read-only"@ {
            Ok(FileMode::ReadOnly)
        } else if s == "workspace-write"@ {
            Ok(FileMode::WorkspaceWrite)
        } else if s == "danger-full-access"@ || s == "full-access"@ {
            Ok(FileMode::FullAccess)
        } else {
            Err("Unsupported native file access mode"@)
        },
    }
}

/// The file access mode in force for a request.
pub fn file_mode(request: Option<Option<&str>>, running: Option<Option<&str>>) -> (r: Result<
    FileMode,
    Error,
>)
    ensures
        match spec_chosen_mode(setting(request), setting(running)) {
            Ok(m) => r == Ok::<FileMode, Error>(m),
            Err(m) => r matches Err(e) && e.status == 400 && e.message@ == m,
        },
{
    let v = if request.is_some() { request } else { running };
    match v {
        None => Ok(FileMode::WorkspaceWrite),
        Some(None) => Err(Error::new(400, "sandbox_mode must be a string")),
        Some(Some(s)) => match FileMode::parse(s) {
            Some(m) => Ok(m),
            None => Err(Error::new(400, "Unsupported native file access mode")),
        },
    }
}

pub open spec fn policy_guidance(p: ApprovalPolicy) -> Seq<char> {
    match p {
        ApprovalPolicy::Auto => "Ordinary project reads/searches, enabled project edits and configured web search normally run without prompting. Other effects, sensitive paths and global memory writes pass through approval unless an applicable grant exists. Runtime deny rules still apply."@,
        ApprovalPolicy::Strict => "Every action routed through the approval gate requires confirmation, including ordinary project reads and edits; reusable grants do not skip it. Call the needed tool without adding a separate conversational permission question."@,
        ApprovalPolicy::Never => "Actions that would need approval and interactive questions are rejected immediately, including actions with cached grants. Continue permitted project work or report missing input; do not request escalation or wait for an unavailable approval."@,
    }
}

pub open spec fn files_guidance(m: FileMode) -> Seq<char> {
    match m {
        FileMode::ReadOnly => "Project file and project memory writes are disabled. Global memory_write still follows its separate approval gate. Use read/search tools for permitted inspection."@,
        FileMode::WorkspaceWrite => "File tools can write within the project and supported memory locations, subject to approval and protected paths."@,
        FileMode::FullAccess => "Native shell can be invoked subject to approval. File tools retain their project/memory confinement and protected-path checks."@,
    }
}

pub open spec fn shell_guidance(m: FileMode, sandbox_available: bool) -> Seq<char> {
    if m == FileMode::FullAccess {
        "Shell runs without OS file isolation, subject to approval."@
    } else if sandbox_available {
        "Shell runs in an OS sandbox and enters automatic recovery on sandbox denial. Use network_access=true with justification for networking within file isolation, or require_escalated with justification for a single unsandboxed action. Inspect job recovery and partial effects if diagnosis is requested, then continue with a concrete recovery plan."@
    } else {
        "OS sandbox is unavailable. The runtime routes necessary host execution through approval; no unreviewed fallback occurs. Prefer file tools when sufficient."@
    }
}

pub open spec fn approver_guidance(p: ApprovalPolicy, approver: Reviewer) -> Seq<char> {
    match p {
        ApprovalPolicy::Never => "none; operations requiring approval are blocked"@,
        ApprovalPolicy::Strict => "user; every operation is reviewed manually"@,
        ApprovalPolicy::Auto => if approver == Reviewer::Model {
            "independent model auto-review; submit the concrete tool directly, without asking the user for approval first. The host will ask the user only if the review needs authorization or cannot complete"@
        } else {
            "user; submit the concrete tool and let the host present any required approval"@
        },
    }
}

/// What the model is told about approval, file access and the shell
/// sandbox, whose status is `sandbox` as shown to it.
pub open spec fn spec_guidance(
    p: ApprovalPolicy,
    m: FileMode,
    approver: Reviewer,
    sandbox_available: bool,
    sandbox: Seq<char>,
) -> Seq<char> {
    "Approval policy: "@ + approval_policy_name(p) + ". Approver: "@ + approver_guidance(p, approver)
        + ". File access: "@ + file_mode_name(m) + ". Shell sandbox: "@ + sandbox + ".\n"@
        + policy_guidance(p) + "\n"@ + files_guidance(m) + "\n"@ + shell_guidance(m, sandbox_available)
}

/// The approval guidance given to the model.
pub fn approval_guidance(
    p: ApprovalPolicy,
    m: FileMode,
    approver: Reviewer,
    sandbox_available: bool,
    sandbox: &str,
) -> (r: String)
    ensures
        r@ == spec_guidance(p, m, approver, sandbox_available, sandbox@),
{
    let policy = match p {
        ApprovalPolicy::Auto => "Ordinary project reads/searches, enabled project edits and configured web search normally run without prompting. Other effects, sensitive paths and global memory writes pass through approval unless an applicable grant exists. Runtime deny rules still apply.",
        ApprovalPolicy::Strict => "Every action routed through the approval gate requires confirmation, including ordinary project reads and edits; reusable grants do not skip it. Call the needed tool without adding a separate conversational permission question.",
        ApprovalPolicy::Never => "Actions that would need approval and interactive questions are rejected immediately, including actions with cached grants. Continue permitted project work or report missing input; do not request escalation or wait for an unavailable approval.",
    };
    let files = match m {
        FileMode::ReadOnly => "Project file and project memory writes are disabled. Global memory_write still follows its separate approval gate. Use read/search tools for permitted inspection.",
        FileMode::WorkspaceWrite => "File tools can write within the project and supported memory locations, subject to approval and protected paths.",
        FileMode::FullAccess => "Native shell can be invoked subject to approval. File tools retain their project/memory confinement and protected-path checks.",
    };
    let shell = if m == FileMode::FullAccess {
        "Shell runs without OS file isolation, subject to approval."
    } else if sandbox_available {
        "Shell runs in an OS sandbox and enters automatic recovery on sandbox denial. Use network_access=true with justification for networking within file isolation, or require_escalated with justification for a single unsandboxed action. Inspect job recovery and partial effects if diagnosis is requested, then continue with a concrete recovery plan."
    } else {
        "OS sandbox is unavailable. The runtime routes necessary host execution through approval; no unreviewed fallback occurs. Prefer file tools when sufficient."
    };
    let who = match p {
        ApprovalPolicy::Never => "none; operations requiring approval are blocked",
        ApprovalPolicy::Strict => "user; every operation is reviewed manually",
        ApprovalPolicy::Auto => if approver == Reviewer::Model {
            "independent model auto-review; submit the concrete tool directly, without asking the user for approval first. The host will ask the user only if the review needs authorization or cannot complete"
        } else {
            "user; submit the concrete tool and let the host present any required approval"
        },
    };
    let mut out = String::new();
    out.append("Approval policy: ");
    out.append(p.name());
    out.append(". Approver: ");
    out.append(who);
    out.append(". File access: ");
    out.append(m.name());
    out.append(". Shell sandbox: ");
    out.append(sandbox);
    out.append(".\n");
    out.append(policy);
    out.append("\n");
    out.append(files);
    out.append("\n");
    out.append(shell);
    proof {
        assert(out@ =~= spec_guidance(p, m, approver, sandbox_available, sandbox@));
    }
    out
}

/// Under `AUTO`, a directory rule that allows the target runs the action and
/// records that rule, unless the turn is cancelled or the action is ordinary
/// automatic work: the user's grant is never set aside to ask again or to
/// hand the action to review.
pub proof fn law_directory_grant_runs_without_asking(i: GateInput, step: GateStep)
    requires
        spec_gate(i, step),
        i.level == ApprovalPolicy::Auto,
        i.rule matches Some((d, _)) && d == Decision::Allow,
        !i.cancelled,
        !i.automatic,
    ensures
        step matches GateStep::Allow { audit } && (i.rule matches Some((_, rid)) && audit@ == "directory_rule:"@
            + rid@),
        !(step is Ask),
        !(step is Review),
{
}

/// A directory rule that denies the target rejects the action with 403,
/// whatever the policy, the grants or the approver.
pub proof fn law_directory_denial_always_rejects(i: GateInput, step: GateStep)
    requires
        spec_gate(i, step),
        i.rule matches Some((d, _)) && d == Decision::Deny,
    ensures
        step matches GateStep::Deny { status, .. } && status == 403,
{
}

/// A user's Deny, on a turn that was neither cancelled nor changed while
/// waiting, rejects the action with 403, records it as denied with its
/// reason, and tells the model not to retry it unchanged.
pub proof fn law_denied_answer_is_rejected(i: SettleInput, s: Settlement)
    requires
        spec_settle(i, s),
        i.end == WaitEnd::Answered(Reply::Deny),
        !i.cancelled,
        !i.changed,
    ensures
        s matches Settlement::Reject { status, audit, message } && status == 403 && (audit matches Some((o, r))
            && o@ == "denied"@ && r@ == i.reason@) && message@ == "Tool action denied: "@ + i.reason@
            + ". Continue other authorized work; do not retry unchanged."@,
{
    reveal_strlit("Tool action ");
    reveal_strlit("denied");
    reveal_strlit(": ");
    reveal_strlit("Tool action denied: ");
    assert("Tool action "@ + "denied"@ + ": "@ =~= "Tool action denied: "@);
}

/// An action runs, or a directory grant is saved, only on an approving
/// answer (once, for the session, or for the directory) given on a turn
/// that was neither cancelled nor changed while waiting; a Deny, a
/// cancelled wait, a dropped request or an expired one never runs it.
pub proof fn law_only_approving_answers_run(i: SettleInput, s: Settlement)
    requires
        spec_settle(i, s),
        s is Grant || s is SaveDirectory,
    ensures
        !i.cancelled,
        !i.changed,
        i.target_unchanged,
        i.end matches WaitEnd::Answered(r) && r != Reply::Deny,
        s is Grant ==> (i.end == WaitEnd::Answered(Reply::Once) || i.end == WaitEnd::Answered(Reply::Session))
            && i.epoch_unchanged,
        s is SaveDirectory ==> i.end == WaitEnd::Answered(Reply::Directory) && i.level == ApprovalPolicy::Auto
            && i.has_directory,
{
}

/// A path is sensitive whenever one of its components, in ASCII lower
/// case, is `.git`, `.agents`, `.codex`, `.ssh`, `.aws`, `.gnupg`,
/// `agents.md`, `soul.md`, `profile.md`, `skill.md`, `policy.yaml` or
/// `.env`, starts with `.env.`, or ends with `.pem` or `.key`.
pub proof fn law_credential_components_are_sensitive(parts: Seq<Seq<char>>, k: int)
    requires
        0 <= k < parts.len(),
        lower_equals(parts[k], ".git"@) || lower_equals(parts[k], ".agents"@) || lower_equals(parts[k], ".codex"@)
            || lower_equals(parts[k], ".ssh"@) || lower_equals(parts[k], ".aws"@) || lower_equals(
            parts[k],
            ".gnupg"@,
        ) || lower_equals(parts[k], "agents.md"@) || lower_equals(parts[k], "soul.md"@) || lower_equals(
            parts[k],
            "profile.md"@,
        ) || lower_equals(parts[k], "skill.md"@) || lower_equals(parts[k], "policy.yaml"@) || lower_equals(
            parts[k],
            ".env"@,
        ) || lower_starts_with(parts[k], ".env."@) || lower_ends_with(parts[k], ".pem"@) || lower_ends_with(
            parts[k],
            ".key"@,
        ),
    ensures
        spec_sensitive(parts),
{
    reveal_strlit(".git");
    reveal_strlit(".agents");
    reveal_strlit(".codex");
    reveal_strlit(".ssh");
    reveal_strlit(".aws");
    reveal_strlit(".gnupg");
    reveal_strlit("agents.md");
    reveal_strlit("soul.md");
    reveal_strlit("profile.md");
    reveal_strlit("skill.md");
    reveal_strlit("policy.yaml");
    reveal_strlit(".env");
    reveal_strlit(".env.");
    reveal_strlit(".pem");
    reveal_strlit(".key");
    reveal_strlit(".potato");
    let n = parts[k];
    if lower_equals(n, ".potato"@) {
        let lit = ".potato"@;
        assert(crate::text::lower_code(n[0int + 0int]) == lit[0] as u32);
        assert(crate::text::lower_code(n[0int + 1int]) == lit[1] as u32);
        assert(crate::text::lower_code(n[0int + 6int]) == lit[6] as u32);
        assert(n.len() - 3 + 2 == 6);
        assert(n.len() - 4 + 3 == 6);
        assert(false);
    }
    assert(sensitive_at(parts, k));
}

/// `STRICT` asks the user every time, whatever grants, allowing rules or
/// approver exist; only a denying rule or cancellation comes first.
pub proof fn law_strict_always_asks(i: GateInput, step: GateStep)
    requires
        spec_gate(i, step),
        i.level == ApprovalPolicy::Strict,
        !(i.rule matches Some((d, _)) && d == Decision::Deny),
        !i.cancelled,
    ensures
        step matches GateStep::Ask { allow_session, allow_directory } && !allow_session && !allow_directory,
{
}

/// `NEVER` rejects with 403 every action that is not ordinary automatic
/// work, without waiting for anyone.
pub proof fn law_never_rejects_what_would_ask(i: GateInput, step: GateStep)
    requires
        spec_gate(i, step),
        i.level == ApprovalPolicy::Never,
        !i.automatic,
    ensures
        step matches GateStep::Deny { status, .. } && (status == 403 || status == 499),
        !i.cancelled ==> (step matches GateStep::Deny { status, .. } && status == 403),
{
}

/// A cancelled turn never runs, reviews or asks: it is rejected with 499,
/// or with 403 where a directory rule denies the target.
pub proof fn law_cancelled_action_never_runs(i: GateInput, step: GateStep)
    requires
        spec_gate(i, step),
        i.cancelled,
    ensures
        step matches GateStep::Deny { status, .. } && (status == 499 || status == 403),
{
}

/// A cancelled or changed wait never runs the action: cancellation answers
/// 499, a change of permissions 409.
pub proof fn law_cancelled_or_changed_wait_is_rejected(i: SettleInput, s: Settlement)
    requires
        spec_settle(i, s),
        i.cancelled || i.changed,
    ensures
        s matches Settlement::Reject { status, .. } && status == (if i.cancelled { 499u16 } else { 409u16 }),
{
}

/// Only a lowered `.potato` directory can make a path sensitive besides the
/// listed credential and authority names: a path none of whose components
/// is listed, and whose `.potato` components are all followed by `memory`
/// or `artifacts`, is not sensitive; a `.potato` component followed by
/// anything else is.
pub proof fn law_potato_area_and_ordinary_paths(parts: Seq<Seq<char>>, k: int)
    ensures
        0 <= k < parts.len() && lower_equals(parts[k], ".potato"@) && !(k + 1 < parts.len() && (lower_equals(
            parts[k + 1],
            "memory"@,
        ) || lower_equals(parts[k + 1], "artifacts"@))) ==> spec_sensitive(parts),
        (forall|j: int|
            0 <= j < parts.len() ==> !(lower_equals(#[trigger] parts[j], ".git"@) || lower_equals(parts[j], ".agents"@)
                || lower_equals(parts[j], ".codex"@) || lower_equals(parts[j], ".ssh"@) || lower_equals(
                parts[j],
                ".aws"@,
            ) || lower_equals(parts[j], ".gnupg"@) || lower_equals(parts[j], "agents.md"@) || lower_equals(
                parts[j],
                "soul.md"@,
            ) || lower_equals(parts[j], "profile.md"@) || lower_equals(parts[j], "skill.md"@) || lower_equals(
                parts[j],
                "policy.yaml"@,
            ) || lower_equals(parts[j], ".env"@) || lower_starts_with(parts[j], ".env."@) || lower_ends_with(
                parts[j],
                ".pem"@,
            ) || lower_ends_with(parts[j], ".key"@)) && (lower_equals(parts[j], ".potato"@) ==> j + 1 < parts.len()
                && (lower_equals(parts[j + 1], "memory"@) || lower_equals(parts[j + 1], "artifacts"@))))
            ==> !spec_sensitive(parts),
{
    if 0 <= k < parts.len() && lower_equals(parts[k], ".potato"@) && !(k + 1 < parts.len() && (lower_equals(
        parts[k + 1],
        "memory"@,
    ) || lower_equals(parts[k + 1], "artifacts"@))) {
        assert(sensitive_at(parts, k));
    }
}

} // verus!
