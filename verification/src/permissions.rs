//! User-owned permission settings and read capabilities. Directory rules
//! never grant write, shell or network access.
use vstd::prelude::*;
use crate::error::Error;
use crate::paths::{LibPath, parts_start_with};
use crate::text::{is_blank, blank, str_eq};
use crate::approval::{sensitive, spec_sensitive};

verus! {

/// How actions that need approval are prompted.
#[derive(Clone, Copy, Debug, PartialEq, Eq, Structural)]
pub enum ApprovalPolicy {
    Auto,
    Strict,
    Never,
}

/// File capability granted to tools.
#[derive(Clone, Copy, Debug, PartialEq, Eq, Structural)]
pub enum FileMode {
    ReadOnly,
    WorkspaceWrite,
    FullAccess,
}

/// Who reviews actions that need approval under the `AUTO` policy.
#[derive(Clone, Copy, Debug, PartialEq, Eq, Structural)]
pub enum Reviewer {
    User,
    Model,
}

/// Read operations that a directory rule may cover.
#[derive(Clone, Copy, Debug, PartialEq, Eq, Structural)]
pub enum Operation {
    Read,
    List,
    Search,
}

/// The effect of a directory rule.
#[derive(Clone, Copy, Debug, PartialEq, Eq, Structural)]
pub enum Decision {
    Allow,
    Deny,
}

pub open spec fn file_mode_label(m: FileMode) -> Seq<char> {
    match m {
        FileMode::ReadOnly => "只读"@,
        FileMode::WorkspaceWrite => "工作区读写"@,
        FileMode::FullAccess => "完全访问"@,
    }
}

pub open spec fn file_mode_name(m: FileMode) -> Seq<char> {
    match m {
        FileMode::ReadOnly => "read-only"@,
        FileMode::WorkspaceWrite => "workspace-write"@,
        FileMode::FullAccess => "danger-full-access"@,
    }
}

pub open spec fn approval_policy_label(p: ApprovalPolicy) -> Seq<char> {
    match p {
        ApprovalPolicy::Auto => "按规则确认"@,
        ApprovalPolicy::Strict => "每次确认"@,
        ApprovalPolicy::Never => "禁止需确认的操作"@,
    }
}

pub open spec fn approval_policy_name(p: ApprovalPolicy) -> Seq<char> {
    match p {
        ApprovalPolicy::Auto => "AUTO"@,
        ApprovalPolicy::Strict => "STRICT"@,
        ApprovalPolicy::Never => "NEVER"@,
    }
}

impl FileMode {
    /// The user-facing label of the mode.
    pub fn label(self) -> (s: &'static str)
        ensures
            s@ == file_mode_label(self),
    {
        match self {
            FileMode::ReadOnly => "只读",
            FileMode::WorkspaceWrite => "工作区读写",
            FileMode::FullAccess => "完全访问",
        }
    }

    /// The wire name of the mode.
    pub fn name(self) -> (s: &'static str)
        ensures
            s@ == file_mode_name(self),
    {
        match self {
            FileMode::ReadOnly => "read-only",
            FileMode::WorkspaceWrite => "workspace-write",
            FileMode::FullAccess => "danger-full-access",
        }
    }

    /// Reads a wire name; `full-access` is an accepted alias of
    /// `danger-full-access`.
    pub fn parse(s: &str) -> (r: Option<FileMode>)
        ensures
            r == (if s@ == "read-only"@ {
                Some(FileMode::ReadOnly)
            } else if s@ == "workspace-write"@ {
                Some(FileMode::WorkspaceWrite)
            } else if s@ == "danger-full-access"@ || s@ == "full-access"@ {
                Some(FileMode::FullAccess)
            } else {
                None
            }),
    {
        if str_eq(s, "read-only") {
            Some(FileMode::ReadOnly)
        } else if str_eq(s, "workspace-write") {
            Some(FileMode::WorkspaceWrite)
        } else if str_eq(s, "danger-full-access") || str_eq(s, "full-access") {
            Some(FileMode::FullAccess)
        } else {
            None
        }
    }
}

impl ApprovalPolicy {
    /// The user-facing label of the policy.
    pub fn label(self) -> (s: &'static str)
        ensures
            s@ == approval_policy_label(self),
    {
        match self {
            ApprovalPolicy::Auto => "按规则确认",
            ApprovalPolicy::Strict => "每次确认",
            ApprovalPolicy::Never => "禁止需确认的操作",
        }
    }

    /// The wire name of the policy.
    pub fn name(self) -> (s: &'static str)
        ensures
            s@ == approval_policy_name(self),
    {
        match self {
            ApprovalPolicy::Auto => "AUTO",
            ApprovalPolicy::Strict => "STRICT",
            ApprovalPolicy::Never => "NEVER",
        }
    }

    /// Reads `AUTO`, `STRICT` or `NEVER`.
    pub fn parse(s: &str) -> (r: Option<ApprovalPolicy>)
        ensures
            r == (if s@ == "AUTO"@ {
                Some(ApprovalPolicy::Auto)
            } else if s@ == "STRICT"@ {
                Some(ApprovalPolicy::Strict)
            } else if s@ == "NEVER"@ {
                Some(ApprovalPolicy::Never)
            } else {
                None
            }),
    {
        if str_eq(s, "AUTO") {
            Some(ApprovalPolicy::Auto)
        } else if str_eq(s, "STRICT") {
            Some(ApprovalPolicy::Strict)
        } else if str_eq(s, "NEVER") {
            Some(ApprovalPolicy::Never)
        } else {
            None
        }
    }
}

/// Permission settings: prompting policy, file capability and approver.
pub struct PermissionConfig {
    pub approval_level: ApprovalPolicy,
    pub sandbox_mode: FileMode,
    pub reviewer: Reviewer,
    pub reviewer_provider_id: String,
    pub reviewer_model: String,
}

/// Whether an approver model selection is acceptable: both fields blank or both
/// set, and neither longer than 256 bytes.
pub open spec fn reviewer_selection_mismatched(c: PermissionConfig) -> bool {
    blank(c.reviewer_provider_id@) != blank(c.reviewer_model@)
}

pub open spec fn reviewer_selection_too_long(c: PermissionConfig) -> bool {
    vstd::utf8::encode_utf8(c.reviewer_provider_id@).len() > 256
        || vstd::utf8::encode_utf8(c.reviewer_model@).len() > 256
}

impl PermissionConfig {
    /// The defaults: `AUTO`, `workspace-write`, model review following the
    /// active model.
    pub fn default_config() -> (c: PermissionConfig)
        ensures
            c.approval_level == ApprovalPolicy::Auto,
            c.sandbox_mode == FileMode::WorkspaceWrite,
            c.reviewer == Reviewer::Model,
            c.reviewer_provider_id@.len() == 0,
            c.reviewer_model@.len() == 0,
    {
        PermissionConfig {
            approval_level: ApprovalPolicy::Auto,
            sandbox_mode: FileMode::WorkspaceWrite,
            reviewer: Reviewer::Model,
            reviewer_provider_id: String::new(),
            reviewer_model: String::new(),
        }
    }

    /// Checks the reviewing model selection.
    pub fn validate(&self) -> (r: Result<(), Error>)
        ensures
            reviewer_selection_mismatched(*self) ==> (r matches Err(e) && e.status == 400 && e.message@
                == "Choose both approver provider and model, or leave both empty to follow the active model"@),
            !reviewer_selection_mismatched(*self) && reviewer_selection_too_long(*self) ==> (
                r matches Err(e) && e.status == 400 && e.message@ == "Approver selection is too long"@),
            r is Ok <==> !reviewer_selection_mismatched(*self) && !reviewer_selection_too_long(*self),
    {
        if is_blank(self.reviewer_provider_id.as_str()) != is_blank(self.reviewer_model.as_str()) {
            return Err(Error::new(400, "Choose both approver provider and model, or leave both empty to follow the active model"));
        }
        if self.reviewer_provider_id.as_str().as_bytes().len() > 256 || self.reviewer_model.as_str().as_bytes().len() > 256 {
            return Err(Error::new(400, "Approver selection is too long"));
        }
        Ok(())
    }
}

pub open spec fn operation_for_tool(name: Seq<char>) -> Option<Operation> {
    if name == "read_file"@ {
        Some(Operation::Read)
    } else if name == "list_directory"@ {
        Some(Operation::List)
    } else if name == "grep_search"@ || name == "glob_search"@ {
        Some(Operation::Search)
    } else {
        None
    }
}

impl Operation {
    /// The read operation that a tool performs, if it is one of the
    /// directory-rule tools.
    pub fn for_tool(name: &str) -> (r: Option<Operation>)
        ensures
            r == operation_for_tool(name@),
    {
        if str_eq(name, "read_file") {
            Some(Operation::Read)
        } else if str_eq(name, "list_directory") {
            Some(Operation::List)
        } else if str_eq(name, "grep_search") || str_eq(name, "glob_search") {
            Some(Operation::Search)
        } else {
            None
        }
    }
}

/// A user-owned read rule on a directory.
pub struct DirectoryRule {
    pub id: String,
    pub kind: String,
    pub path: LibPath,
    pub recursive: bool,
    pub operations: Vec<Operation>,
    pub decision: Decision,
    pub lifetime: String,
    pub created_by: String,
    pub session_id: Option<String>,
    /// File-system identity of `path` when the rule was made.
    pub identity: String,
}

/// A rule without a session applies everywhere; a session rule only to its
/// own session.
pub open spec fn session_applies(rule_session: Option<String>, session: Seq<char>) -> bool {
    match rule_session {
        None => true,
        Some(s) => s@ == session,
    }
}

/// `path.parent() == Some(dir)`.
pub open spec fn parent_is(path: LibPath, dir: LibPath) -> bool {
    path.spec_parts().len() > 0 && path.absolute == dir.absolute
        && path.spec_parts().drop_last() == dir.spec_parts()
}

/// The rule covers `operation` on `path` (the file-system identity check
/// stands apart, see `directory_decision`).
pub open spec fn rule_matches(r: DirectoryRule, path: LibPath, operation: Operation, session: Seq<char>) -> bool {
    &&& (operation != Operation::Search || r.recursive)
    &&& r.operations@.contains(operation)
    &&& session_applies(r.session_id, session)
    &&& (path.spec_same(&r.path) || if r.recursive {
        path.spec_starts_with(&r.path)
    } else {
        operation == Operation::Read && parent_is(path, r.path)
    })
}

/// The deny rule blocks `operation` on `path`. A read denial also blocks
/// list and search; a recursive search cannot bypass a denial beneath its
/// root.
pub open spec fn deny_blocks(r: DirectoryRule, path: LibPath, operation: Operation, session: Seq<char>) -> bool {
    &&& r.decision == Decision::Deny
    &&& session_applies(r.session_id, session)
    &&& (r.operations@.contains(operation) || r.operations@.contains(Operation::Read))
    &&& ((path.spec_starts_with(&r.path) && (r.recursive || path.spec_same(&r.path) || parent_is(path, r.path)))
        || (operation != Operation::Read && r.path.spec_starts_with(&path)))
}

fn contains_operation(ops: &Vec<Operation>, op: Operation) -> (r: bool)
    ensures
        r == ops@.contains(op),
{
    for i in 0..ops.len()
        invariant
            forall|j: int| 0 <= j < i ==> ops@[j] != op,
    {
        if ops[i] == op {
            proof {
                assert(ops@[i as int] == op);
            }
            return true;
        }
    }
    false
}

fn session_matches(rule_session: &Option<String>, session: &str) -> (r: bool)
    ensures
        r == session_applies(*rule_session, session@),
{
    match rule_session {
        None => true,
        Some(s) => str_eq(s.as_str(), session),
    }
}

fn is_parent(path: &LibPath, dir: &LibPath) -> (r: bool)
    ensures
        r == parent_is(*path, *dir),
{
    match path.parent() {
        None => false,
        Some(p) => p.same(dir),
    }
}

impl DirectoryRule {
    /// Whether the directory still resolves to itself with the recorded
    /// identity, given its current canonical form and identity.
    pub fn unchanged(&self, canonical: &LibPath, current_identity: &str) -> (r: bool)
        ensures
            r == (canonical.spec_same(&self.path) && current_identity@ == self.identity@),
    {
        canonical.same(&self.path) && str_eq(current_identity, self.identity.as_str())
    }

    /// Whether the rule covers `operation` on the canonical `path` in `session`.
    pub fn matches(&self, path: &LibPath, operation: Operation, session: &str) -> (r: bool)
        ensures
            r == rule_matches(*self, *path, operation, session@),
    {
        (operation != Operation::Search || self.recursive)
            && contains_operation(&self.operations, operation)
            && session_matches(&self.session_id, session)
            && (path.same(&self.path) || if self.recursive {
                path.starts_with(&self.path)
            } else {
                operation == Operation::Read && is_parent(path, &self.path)
            })
    }

    /// Whether this rule is a denial that blocks `operation` on `path`.
    pub fn blocks(&self, path: &LibPath, operation: Operation, session: &str) -> (r: bool)
        ensures
            r == deny_blocks(*self, *path, operation, session@),
    {
        self.decision == Decision::Deny
            && session_matches(&self.session_id, session)
            && (contains_operation(&self.operations, operation) || contains_operation(&self.operations, Operation::Read))
            && ((path.starts_with(&self.path) && (self.recursive || path.same(&self.path) || is_parent(path, &self.path)))
                || (operation != Operation::Read && self.path.starts_with(path)))
    }
}

/// The applicable denial with the smallest index, if any.
pub open spec fn first_denial(rules: Seq<DirectoryRule>, path: LibPath, op: Operation, session: Seq<char>, i: int) -> bool {
    &&& 0 <= i < rules.len()
    &&& deny_blocks(rules[i], path, op, session)
    &&& forall|j: int| 0 <= j < i ==> !deny_blocks(#[trigger] rules[j], path, op, session)
}

pub open spec fn some_denial(rules: Seq<DirectoryRule>, path: LibPath, op: Operation, session: Seq<char>) -> bool {
    exists|i: int| 0 <= i < rules.len() && deny_blocks(#[trigger] rules[i], path, op, session)
}

/// A rule that grants: it matches and its directory is unchanged.
pub open spec fn grants(rules: Seq<DirectoryRule>, unchanged: Seq<bool>, path: LibPath, op: Operation, session: Seq<char>, i: int) -> bool {
    0 <= i < rules.len() && rule_matches(rules[i], path, op, session) && unchanged[i]
}

pub open spec fn some_grant(rules: Seq<DirectoryRule>, unchanged: Seq<bool>, path: LibPath, op: Operation, session: Seq<char>) -> bool {
    exists|i: int| #[trigger] grants(rules, unchanged, path, op, session, i)
}

/// The decision that the rules give for tool `name` on the canonical
/// `path`, in the order the rules are read.
pub open spec fn spec_directory_decision(
    rules: Seq<DirectoryRule>,
    unchanged: Seq<bool>,
    path: LibPath,
    name: Seq<char>,
    session: Seq<char>,
    r: Option<(Decision, String)>,
) -> bool {
    match operation_for_tool(name) {
        None => r is None,
        Some(op) => if some_denial(rules, path, op, session) {
            r matches Some((d, id)) && d == Decision::Deny && exists|i: int|
                #[trigger] first_denial(rules, path, op, session, i) && id@ == rules[i].id@
        } else if !spec_sensitive(path.spec_parts()) && some_grant(rules, unchanged, path, op, session) {
            r matches Some((d, id)) && d == Decision::Allow && exists|i: int|
                #[trigger] grants(rules, unchanged, path, op, session, i)
                && (forall|j: int| i < j < rules.len() ==> !grants(rules, unchanged, path, op, session, j))
                && id@ == rules[i].id@
        } else {
            r is None
        },
    }
}

/// The directory-rule decision for tool `name` on the canonical `path` in
/// `session`. `rules` lists the persistent rules, then the session rules;
/// `unchanged[i]` says whether the directory of `rules[i]` still resolves
/// to itself with its recorded identity. Denials win over grants, and grants
/// never cover sensitive paths.
pub fn directory_decision(
    rules: &Vec<DirectoryRule>,
    unchanged: &Vec<bool>,
    path: &LibPath,
    name: &str,
    session: &str,
) -> (r: Option<(Decision, String)>)
    requires
        unchanged.len() == rules.len(),
    ensures
        spec_directory_decision(rules@, unchanged@, *path, name@, session@, r),
{
    let op = match Operation::for_tool(name) {
        None => return None,
        Some(op) => op,
    };
    for i in 0..rules.len()
        invariant
            operation_for_tool(name@) == Some(op),
            forall|j: int| 0 <= j < i ==> !deny_blocks(#[trigger] rules@[j], *path, op, session@),
    {
        if rules[i].blocks(path, op, session) {
            let id = rules[i].id.clone();
            proof {
                assert(first_denial(rules@, *path, op, session@, i as int));
                assert(deny_blocks(rules@[i as int], *path, op, session@));
                assert(id@ == rules@[i as int].id@);
                assert(operation_for_tool(name@) == Some(op));
            }
            return Some((Decision::Deny, id));
        }
    }
    let is_sensitive = sensitive(path);
    let mut allow: Option<(Decision, String)> = None;
    let ghost mut last: int = -1;
    for i in 0..rules.len()
        invariant
            operation_for_tool(name@) == Some(op),
            is_sensitive == spec_sensitive(path.spec_parts()),
            unchanged.len() == rules.len(),
            !some_denial(rules@, *path, op, session@),
            -1 <= last < i,
            last >= 0 ==> grants(rules@, unchanged@, *path, op, session@, last),
            forall|j: int| last < j < i ==> !grants(rules@, unchanged@, *path, op, session@, j),
            is_sensitive ==> allow is None,
            !is_sensitive ==> (last < 0 <==> allow is None),
            !is_sensitive && last >= 0 ==> (allow matches Some((d, id)) && d == Decision::Allow && id@ == rules@[last].id@),
    {
        if rules[i].matches(path, op, session) && unchanged[i] {
            if rules[i].decision == Decision::Deny {
                proof {
                    let r = rules@[i as int];
                    if path.spec_same(&r.path) {
                        assert(path.spec_parts().take(r.path.spec_parts().len() as int) =~= path.spec_parts());
                    }
                    assert(deny_blocks(r, *path, op, session@));
                }
                return Some((Decision::Deny, rules[i].id.clone()));
            }
            if !is_sensitive {
                allow = Some((Decision::Allow, rules[i].id.clone()));
            }
            proof {
                last = i as int;
            }
        }
    }
    proof {
        if !is_sensitive && some_grant(rules@, unchanged@, *path, op, session@) {
            let k = choose|k: int| #[trigger] grants(rules@, unchanged@, *path, op, session@, k);
            assert(last >= 0);
        }
    }
    allow
}

} // verus!
