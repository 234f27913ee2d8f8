//! Validation of settings changed through the local API.
use vstd::prelude::*;
use crate::error::{Error, missing, required};
use crate::text::str_eq;
use crate::permissions::FileMode;

verus! {

pub open spec fn supported_language(l: Seq<char>) -> bool {
    l == "zh"@ || l == "en"@ || l == "id"@ || l == "ru"@
}

/// Accepts a workspace language: required, and one of zh, en, id, ru.
pub fn check_language(language: &str) -> (r: Result<(), Error>)
    ensures
        missing(language@, "language"@) matches Some((status, message)) ==> (r matches Err(e) && e.status
            == status && e.message@ == message),
        missing(language@, "language"@) is None && !supported_language(language@) ==> (r matches Err(e)
            && e.status == 400 && e.message@ == "Unsupported workspace language"@),
        missing(language@, "language"@) is None && supported_language(language@) ==> r is Ok,
{
    if let Err(e) = required(language, "language") {
        return Err(e);
    }
    if !(str_eq(language, "zh") || str_eq(language, "en") || str_eq(language, "id") || str_eq(language, "ru")) {
        return Err(Error::new(400, "Unsupported workspace language"));
    }
    Ok(())
}

/// A numeric setting in range, where it is given: `Some(None)` is a value
/// that is not an unsigned integer.
pub open spec fn limit_ok(v: Option<Option<u64>>, low: u64, high: u64) -> bool {
    match v {
        None => true,
        Some(Some(n)) => low <= n <= high,
        Some(None) => false,
    }
}

fn in_range(v: Option<Option<u64>>, low: u64, high: u64) -> (r: bool)
    ensures
        r == limit_ok(v, low, high),
{
    match v {
        None => true,
        Some(Some(n)) => low <= n && n <= high,
        Some(None) => false,
    }
}

/// Checks the turn limits of a running-config change: `max_iters` in
/// 1..=1000, then `max_parallel_reads` in 1..=16.
pub fn check_limits(max_iters: Option<Option<u64>>, max_parallel_reads: Option<Option<u64>>) -> (r: Result<(), Error>)
    ensures
        !limit_ok(max_iters, 1, 1000) ==> (r matches Err(e) && e.status == 400 && e.message@
            == "max_iters must be between 1 and 1000"@),
        limit_ok(max_iters, 1, 1000) && !limit_ok(max_parallel_reads, 1, 16) ==> (r matches Err(e)
            && e.status == 400 && e.message@ == "max_parallel_reads must be between 1 and 16"@),
        limit_ok(max_iters, 1, 1000) && limit_ok(max_parallel_reads, 1, 16) ==> r is Ok,
{
    if !in_range(max_iters, 1, 1000) {
        return Err(Error::new(400, "max_iters must be between 1 and 1000"));
    }
    if !in_range(max_parallel_reads, 1, 16) {
        return Err(Error::new(400, "max_parallel_reads must be between 1 and 16"));
    }
    Ok(())
}

pub open spec fn approval_level_name(l: Seq<char>) -> bool {
    l == "AUTO"@ || l == "STRICT"@ || l == "NEVER"@
}

/// A file access mode name; `full-access` is the earlier name of
/// `danger-full-access` and is migrated to it.
pub open spec fn file_access_name(m: Seq<char>) -> bool {
    m == "read-only"@ || m == "workspace-write"@ || m == "danger-full-access"@ || m == "full-access"@
}

pub open spec fn opt_str(v: Option<Option<&str>>) -> Option<Option<Seq<char>>> {
    match v {
        None => None,
        Some(None) => Some(None),
        Some(Some(s)) => Some(Some(s@)),
    }
}

/// The first problem with the policy fields of a running-config change:
/// `approval_level` then `sandbox_mode`, each a known name where given
/// (`Some(None)` is a value that is not a string).
pub open spec fn modes_problem(level: Option<Option<Seq<char>>>, mode: Option<Option<Seq<char>>>) -> Option<Seq<char>> {
    match level {
        Some(None) => Some("approval_level must be a string"@),
        Some(Some(l)) if !approval_level_name(l) => Some("approval_level must be AUTO, STRICT or NEVER"@),
        _ => match mode {
            Some(None) => Some("sandbox_mode must be a string"@),
            Some(Some(m)) if !file_access_name(m) => Some("Unsupported native file access mode"@),
            _ => None,
        },
    }
}

/// Checks the approval level and file access mode of a running-config
/// change, and gives the file access mode to store where one is given:
/// `full-access` is stored as `danger-full-access`.
pub fn check_modes(approval_level: Option<Option<&str>>, sandbox_mode: Option<Option<&str>>) -> (r: Result<
    Option<FileMode>,
    Error,
>)
    ensures
        match modes_problem(opt_str(approval_level), opt_str(sandbox_mode)) {
            Some(m) => r matches Err(e) && e.status == 400 && e.message@ == m,
            None => r matches Ok(stored) && match sandbox_mode {
                Some(Some(m)) => stored == Some(if m@ == "read-only"@ {
                    FileMode::ReadOnly
                } else if m@ == "workspace-write"@ {
                    FileMode::WorkspaceWrite
                } else {
                    FileMode::FullAccess
                }),
                _ => stored is None,
            },
        },
{
    match approval_level {
        Some(None) => {
            return Err(Error::new(400, "approval_level must be a string"));
        },
        Some(Some(l)) => {
            if let Err(e) = crate::approval::validate(l) {
                return Err(e);
            }
        },
        None => {},
    }
    match sandbox_mode {
        Some(None) => Err(Error::new(400, "sandbox_mode must be a string")),
        Some(Some(m)) => match FileMode::parse(m) {
            Some(mode) => Ok(Some(mode)),
            None => Err(Error::new(400, "Unsupported native file access mode")),
        },
        None => Ok(None),
    }
}

pub open spec fn transcription_kind(k: Seq<char>) -> bool {
    k == "disabled"@ || k == "whisper_api"@ || k == "doubao_asr"@
}

/// Accepts a speech transcription provider type that the runtime offers.
pub fn check_transcription(kind: &str) -> (r: Result<(), Error>)
    ensures
        missing(kind@, "transcription_provider_type"@) matches Some((status, message)) ==> (r matches Err(e)
            && e.status == status && e.message@ == message),
        missing(kind@, "transcription_provider_type"@) is None && !transcription_kind(kind@) ==> (r matches Err(
            e,
        ) && e.status == 501 && e.message@ == "This speech provider is not available in Rust"@),
        missing(kind@, "transcription_provider_type"@) is None && transcription_kind(kind@) ==> r is Ok,
{
    if let Err(e) = required(kind, "transcription_provider_type") {
        return Err(e);
    }
    if !(str_eq(kind, "disabled") || str_eq(kind, "whisper_api") || str_eq(kind, "doubao_asr")) {
        return Err(Error::new(501, "This speech provider is not available in Rust"));
    }
    Ok(())
}

/// Computer-use settings never pre-approve applications.
pub fn check_computer_use(always_allowed_apps: usize) -> (r: Result<(), Error>)
    ensures
        always_allowed_apps > 0 ==> (r matches Err(e) && e.status == 400 && e.message@
            == "Native computer actions require exact approval"@),
        always_allowed_apps == 0 ==> r is Ok,
{
    if always_allowed_apps > 0 {
        return Err(Error::new(400, "Native computer actions require exact approval"));
    }
    Ok(())
}

/// Some saved provider has this id.
pub open spec fn known_id(ids: Seq<String>, id: Seq<char>) -> bool {
    exists|i: int| 0 <= i < ids.len() && (#[trigger] ids[i])@ == id
}

fn has_id(ids: &Vec<String>, id: &str) -> (r: bool)
    ensures
        r == known_id(ids@, id@),
{
    for i in 0..ids.len()
        invariant
            forall|j: int| 0 <= j < i ==> (#[trigger] ids@[j])@ != id@,
    {
        if str_eq(ids[i].as_str(), id) {
            return true;
        }
    }
    false
}

/// Why a new custom provider is refused, if it is, in the order the checks
/// run: a blank id, an id already taken, a protocol not migrated, a base URL
/// that is given but not a plain HTTP(S) address, a blank name.
pub open spec fn custom_provider_problem(
    ids: Seq<String>,
    id: Seq<char>,
    name: Seq<char>,
    protocol: Option<Seq<char>>,
    url: Seq<char>,
) -> Option<(u16, Seq<char>)> {
    let p = match protocol {
        Some(p) => p,
        None => "OpenAIChatModel"@,
    };
    if missing(id, "id"@) is Some {
        missing(id, "id"@)
    } else if known_id(ids, id) {
        Some((409u16, "Provider already exists"@))
    } else if !crate::providers::native_protocol(p) {
        Some((501u16, "This model protocol has not been migrated"@))
    } else if url.len() > 0 && crate::web::provider_url_problem(crate::web::parsed_url(url)) is Some {
        Some((400u16, crate::web::provider_url_problem(crate::web::parsed_url(url))->0))
    } else {
        missing(name, "name"@)
    }
}

/// Checks a new custom provider against the saved provider ids.
pub fn check_custom_provider(ids: &Vec<String>, id: &str, name: &str, protocol: Option<&str>, url: &str) -> (r: Result<
    (),
    Error,
>)
    ensures
        match custom_provider_problem(
            ids@,
            id@,
            name@,
            match protocol {
                Some(p) => Some(p@),
                None => None,
            },
            url@,
        ) {
            None => r is Ok,
            Some((status, m)) => r matches Err(e) && e.status == status && e.message@ == m,
        },
{
    if let Err(e) = required(id, "id") {
        return Err(e);
    }
    if has_id(ids, id) {
        return Err(Error::new(409, "Provider already exists"));
    }
    let p: &str = match protocol {
        Some(p) => p,
        None => "OpenAIChatModel",
    };
    if let Err(e) = crate::providers::validate_protocol(p) {
        return Err(e);
    }
    if url.unicode_len() > 0 {
        if let Err(e) = crate::web::validate_url(url) {
            return Err(e);
        }
    }
    required(name, "name")
}

/// Checks the selection of the active model: both fields set, and the
/// provider saved.
pub fn check_active_model(ids: &Vec<String>, provider_id: &str, model: &str) -> (r: Result<(), Error>)
    ensures
        missing(provider_id@, "provider_id"@) matches Some((s, m)) ==> (r matches Err(e) && e.status == s
            && e.message@ == m),
        missing(provider_id@, "provider_id"@) is None ==> match missing(model@, "model"@) {
            Some((s, m)) => r matches Err(e) && e.status == s && e.message@ == m,
            None => true,
        },
        missing(provider_id@, "provider_id"@) is None && missing(model@, "model"@) is None && !known_id(
            ids@,
            provider_id@,
        ) ==> (r matches Err(e) && e.status == 404 && e.message@ == "Provider not found"@),
        missing(provider_id@, "provider_id"@) is None && missing(model@, "model"@) is None && known_id(
            ids@,
            provider_id@,
        ) ==> r is Ok,
{
    if let Err(e) = required(provider_id, "provider_id") {
        return Err(e);
    }
    if let Err(e) = required(model, "model") {
        return Err(e);
    }
    if !has_id(ids, provider_id) {
        return Err(Error::new(404, "Provider not found"));
    }
    Ok(())
}

/// A saved API key as shown: empty where there is none, masked otherwise.
pub fn masked_key(key: &str) -> (r: &'static str)
    ensures
        key@.len() == 0 ==> r@ == ""@,
        key@.len() > 0 ==> r@ == "********"@,
{
    if key.unicode_len() == 0 {
        ""
    } else {
        "********"
    }
}

} // verus!
