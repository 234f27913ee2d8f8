//! The checks a shell command passes before it is offered for approval:
//! its arguments, its working directory, and whether it may run outside
//! the OS sandbox.
use vstd::prelude::*;
use crate::error::{Error, missing, required};
use crate::paths::LibPath;
use crate::permissions::{Decision, DirectoryRule, session_applies};
use crate::text::str_eq;

verus! {

/// The validated options of a shell command.
#[derive(Clone, Copy, Debug, PartialEq, Eq, Structural)]
pub struct ShellOptions {
    /// Seconds, 1..=3600.
    pub timeout: u64,
    /// A single justified run without the OS sandbox was requested.
    pub escalation: bool,
    pub network: bool,
}

/// The outcome of checking a command's arguments. `timeout` and `network`
/// are `None` where absent and `Some(None)` where present with the wrong
/// type; `sandbox_permissions` is `None` where absent or not a string.
pub open spec fn spec_shell_options(
    command: &str,
    timeout: Option<Option<u64>>,
    sandbox_permissions: Option<Seq<char>>,
    justification: Seq<char>,
    network: Option<Option<bool>>,
) -> Result<ShellOptions, (u16, Seq<char>)> {
    let t: u64 = match timeout {
        Some(Some(n)) => n,
        _ => 60,
    };
    let mode = match sandbox_permissions {
        Some(m) => m,
        None => "use_default"@,
    };
    let net = match network {
        Some(Some(b)) => b,
        _ => false,
    };
    if missing(command@, "command"@) is Some {
        Err(missing(command@, "command"@)->0)
    } else if timeout == Some(None::<u64>) {
        Err((400u16, "Invalid timeout"@))
    } else if command.len() > 64_000 || !(1 <= t <= 3600) {
        Err((400u16, "Command or timeout is invalid"@))
    } else if !(mode == "use_default"@ || mode == "require_escalated"@) {
        Err((400u16, "Invalid sandbox_permissions"@))
    } else if mode == "require_escalated"@ && missing(justification, "justification"@) is Some {
        Err(missing(justification, "justification"@)->0)
    } else if network == Some(None::<bool>) {
        Err((400u16, "network_access must be boolean"@))
    } else if net && missing(justification, "justification"@) is Some {
        Err(missing(justification, "justification"@)->0)
    } else {
        Ok(ShellOptions { timeout: t, escalation: mode == "require_escalated"@, network: net })
    }
}

/// Checks a shell command's arguments.
pub fn shell_options(
    command: &str,
    timeout: Option<Option<u64>>,
    sandbox_permissions: Option<&str>,
    justification: &str,
    network: Option<Option<bool>>,
) -> (r: Result<ShellOptions, Error>)
    ensures
        match spec_shell_options(command, timeout, crate::jobs::opt_view(sandbox_permissions), justification@, network) {
            Ok(o) => r == Ok::<ShellOptions, Error>(o),
            Err((status, message)) => r matches Err(e) && e.status == status && e.message@ == message,
        },
{
    proof {
        reveal_strlit("use_default");
        reveal_strlit("require_escalated");
        assert("use_default"@.len() != "require_escalated"@.len());
    }
    if let Err(e) = required(command, "command") {
        return Err(e);
    }
    let t = match timeout {
        Some(Some(n)) => n,
        Some(None) => {
            return Err(Error::new(400, "Invalid timeout"));
        },
        None => 60,
    };
    if command.len() > 64_000 || !(1 <= t && t <= 3600) {
        return Err(Error::new(400, "Command or timeout is invalid"));
    }
    let mode = match sandbox_permissions {
        Some(m) => m,
        None => "use_default",
    };
    let escalation = if str_eq(mode, "use_default") {
        false
    } else if str_eq(mode, "require_escalated") {
        if let Err(e) = required(justification, "justification") {
            return Err(e);
        }
        true
    } else {
        return Err(Error::new(400, "Invalid sandbox_permissions"));
    };
    let network = match network {
        Some(Some(b)) => b,
        Some(None) => {
            return Err(Error::new(400, "network_access must be boolean"));
        },
        None => false,
    };
    if network {
        if let Err(e) = required(justification, "justification") {
            return Err(e);
        }
    }
    Ok(ShellOptions { timeout: t, escalation, network })
}

/// A working directory outside the project needs a justified unsandboxed
/// run or full file access.
pub fn check_cwd(cwd: &LibPath, project: &LibPath, escalation: bool, full_access: bool) -> (r: Result<(), Error>)
    ensures
        !cwd.spec_starts_with(project) && !escalation && !full_access ==> (r matches Err(e) && e.status == 403),
        cwd.spec_starts_with(project) || escalation || full_access ==> r is Ok,
{
    if !cwd.starts_with(project) && !escalation && !full_access {
        return Err(
            Error::new(
                403,
                "cwd lies outside the project. Use the project cwd or request a justified single unsandboxed execution; the task may continue.",
            ),
        );
    }
    Ok(())
}

/// The rules whose directories a command of `session` may not touch: the
/// denials that apply to that session.
pub open spec fn denies_for(r: DirectoryRule, session: Seq<char>) -> bool {
    r.decision == Decision::Deny && session_applies(r.session_id, session)
}

/// The indexes of the denial rules that bind a command of `session`.
pub fn denied_rules(rules: &Vec<DirectoryRule>, session: &str) -> (r: Vec<usize>)
    ensures
        forall|k: int| 0 <= k < r.len() ==> #[trigger] r@[k] < rules.len() && denies_for(rules@[r@[k] as int], session@),
        forall|i: int| 0 <= i < rules.len() && denies_for(#[trigger] rules@[i], session@) ==> r@.contains(i as usize),
        forall|a: int, b: int| 0 <= a < b < r.len() ==> r@[a] < r@[b],
{
    let mut out: Vec<usize> = Vec::new();
    for i in 0..rules.len()
        invariant
            forall|k: int| 0 <= k < out.len() ==> #[trigger] out@[k] < i && denies_for(rules@[out@[k] as int], session@),
            forall|j: int| 0 <= j < i && denies_for(#[trigger] rules@[j], session@) ==> out@.contains(j as usize),
            forall|a: int, b: int| 0 <= a < b < out.len() ==> out@[a] < out@[b],
    {
        let applies = match &rules[i].session_id {
            None => true,
            Some(s) => str_eq(s.as_str(), session),
        };
        if rules[i].decision == Decision::Deny && applies {
            let ghost before = out@;
            out.push(i);
            proof {
                assert forall|j: int| 0 <= j < i + 1 && denies_for(#[trigger] rules@[j], session@) implies out@.contains(
                    j as usize,
                ) by {
                    if j == i {
                        assert(out@[out.len() - 1] == i);
                    } else {
                        let k = choose|k: int| 0 <= k < before.len() && before[k] == j as usize;
                        assert(out@[k] == j as usize);
                    }
                }
            }
        }
    }
    out
}

/// How a command will run.
#[derive(Clone, Copy, Debug, PartialEq, Eq, Structural)]
pub struct Isolation {
    /// Without the OS sandbox.
    pub unsandboxed: bool,
    /// Because the sandbox is not available here.
    pub sandbox_unavailable: bool,
    /// Counts against the session's budget of recovery runs.
    pub charged: bool,
}

/// Decides how a command runs: active directory denials can only be
/// enforced by the sandbox, so they forbid an unsandboxed run, whether
/// requested or forced by a missing sandbox; a missing sandbox otherwise
/// turns the run into one that needs approval to run unsandboxed.
pub fn isolation(escalation: bool, network: bool, denials: usize, sandbox_available: bool) -> (r: Result<Isolation, Error>)
    ensures
        escalation && denials > 0 ==> (r matches Err(e) && e.status == 403),
        !escalation && denials > 0 && !sandbox_available ==> (r matches Err(e) && e.status == 403),
        !(denials > 0 && (escalation || !sandbox_available)) ==> (r matches Ok(i) && i.unsandboxed == (
        escalation || !sandbox_available) && i.sandbox_unavailable == (!escalation && !sandbox_available)
            && i.charged == (escalation || network || (!escalation && !sandbox_available))),
{
    if escalation && denials > 0 {
        return Err(
            Error::new(
                403,
                "Unsandboxed execution cannot enforce active directory deny rules. Use a sandboxed command or file tools.",
            ),
        );
    }
    let unavailable = !escalation && !sandbox_available;
    if unavailable && denials > 0 {
        return Err(
            Error::new(
                403,
                "OS sandbox unavailable and directory deny rules prohibit unsandboxed fallback; continue with permitted file tools.",
            ),
        );
    }
    Ok(
        Isolation {
            unsandboxed: escalation || unavailable,
            sandbox_unavailable: unavailable,
            charged: escalation || network || unavailable,
        },
    )
}

} // verus!
