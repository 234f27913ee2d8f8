//! The rules for configuring MCP clients: client keys, which requests apply
//! to which clients, launch settings, environment entries, headers and tool
//! whitelists.
use vstd::prelude::*;
use crate::context::{utf8_len, utf8_length};
use crate::error::{Error, missing, required};
use crate::text::{chars_of, str_eq};

use crate::web::{parsed_url, provider_url_problem, validate_url};

verus! {

pub open spec fn key_char(c: char) -> bool {
    ('a' <= c && c <= 'z') || ('A' <= c && c <= 'Z') || ('0' <= c && c <= '9') || c == '_' || c == '-'
}

/// A client key: 1 to 64 characters, ASCII letters, digits, `_` and `-`.
pub open spec fn spec_client_key(key: Seq<char>) -> bool {
    0 < key.len() <= 64 && forall|i: int| 0 <= i < key.len() ==> key_char(#[trigger] key[i])
}

/// Checks a client key.
pub fn check_client_key(key: &str) -> (r: Result<(), Error>)
    ensures
        spec_client_key(key@) ==> r is Ok,
        !spec_client_key(key@) ==> (r matches Err(e) && e.status == 400 && e.message@ == "Invalid MCP client key"@),
{
    let c = chars_of(key);
    if c.len() == 0 || c.len() > 64 {
        return Err(Error::new(400, "Invalid MCP client key"));
    }
    for i in 0..c.len()
        invariant
            c@ == key@,
            forall|j: int| 0 <= j < i ==> key_char(#[trigger] c@[j]),
    {
        let ch = c[i];
        if !(('a' <= ch && ch <= 'z') || ('A' <= ch && ch <= 'Z') || ('0' <= ch && ch <= '9') || ch == '_' || ch
            == '-') {
            proof {
                assert(!key_char(c@[i as int]));
            }
            return Err(Error::new(400, "Invalid MCP client key"));
        }
    }
    Ok(())
}

/// Whether a request may address a client: a new one is created with
/// `POST` and must not exist; any other request needs an existing client.
pub fn check_client_route(method: &str, exists: bool) -> (r: Result<(), Error>)
    ensures
        method@ == "POST"@ && exists ==> (r matches Err(e) && e.status == 409 && e.message@
            == "MCP client already exists"@),
        method@ != "POST"@ && !exists ==> (r matches Err(e) && e.status == 404 && e.message@
            == "MCP client not found"@),
        (method@ == "POST"@) != exists ==> r is Ok,
{
    let post = str_eq(method, "POST");
    if post && exists {
        return Err(Error::new(409, "MCP client already exists"));
    }
    if !post && !exists {
        return Err(Error::new(404, "MCP client not found"));
    }
    Ok(())
}

/// A tool whitelist as sent: `null`, an array (each entry where it is a
/// string), or anything else.
#[derive(Debug)]
pub enum Whitelist {
    Null,
    List(Vec<Option<String>>),
    Other,
}

/// A whitelist is `null` or a list of strings.
pub open spec fn spec_whitelist_ok(w: &Whitelist) -> bool {
    match w {
        Whitelist::Null => true,
        Whitelist::List(v) => forall|i: int| 0 <= i < v.len() ==> (#[trigger] v@[i]) is Some,
        Whitelist::Other => false,
    }
}

pub fn check_whitelist(w: &Whitelist) -> (r: Result<(), Error>)
    ensures
        spec_whitelist_ok(w) ==> r is Ok,
        !spec_whitelist_ok(w) ==> (r matches Err(e) && e.status == 400 && e.message@
            == "Tool whitelist must be a string list or null"@),
{
    match w {
        Whitelist::Null => Ok(()),
        Whitelist::List(v) => {
            for i in 0..v.len()
                invariant
                    *w == Whitelist::List(*v),
                    forall|j: int| 0 <= j < i ==> (#[trigger] v@[j]) is Some,
            {
                if v[i].is_none() {
                    return Err(Error::new(400, "Tool whitelist must be a string list or null"));
                }
            }
            Ok(())
        },
        Whitelist::Other => Err(Error::new(400, "Tool whitelist must be a string list or null")),
    }
}

/// Whether a tool of a client may be offered: the client is enabled and
/// either has no whitelist or lists the tool (entries that are not strings
/// list nothing).
pub open spec fn spec_tool_enabled(enabled: bool, tools: Option<Seq<Option<Seq<char>>>>, name: Seq<char>) -> bool {
    enabled && match tools {
        None => true,
        Some(t) => t.contains(Some(name)),
    }
}

pub open spec fn texts_view(v: Seq<Option<String>>) -> Seq<Option<Seq<char>>> {
    v.map_values(
        |o: Option<String>|
            match o {
                Some(s) => Some(s@),
                None => None,
            },
    )
}

pub fn tool_enabled(enabled: bool, tools: Option<&Vec<Option<String>>>, name: &str) -> (r: bool)
    ensures
        r == spec_tool_enabled(
            enabled,
            match tools {
                Some(v) => Some(texts_view(v@)),
                None => None,
            },
            name@,
        ),
{
    if !enabled {
        return false;
    }
    match tools {
        None => true,
        Some(v) => {
            let ghost t = texts_view(v@);
            for i in 0..v.len()
                invariant
                    t == texts_view(v@),
                    tools == Some(v),
                    enabled,
                    forall|j: int| 0 <= j < i ==> t[j] != Some(name@),
            {
                let hit = match &v[i] {
                    Some(s) => str_eq(s.as_str(), name),
                    None => false,
                };
                proof {
                    assert(t[i as int] == match v@[i as int] {
                        Some(s) => Some(s@),
                        None => None::<Seq<char>>,
                    });
                }
                if hit {
                    proof {
                        assert(t[i as int] == Some(name@));
                    }
                    return true;
                }
            }
            false
        },
    }
}

/// What the launch checks read of a client's merged settings: each field
/// where it is a string, and the arguments where they are an array.
#[derive(Debug)]
pub struct LaunchView {
    pub transport: Option<String>,
    pub command: Option<String>,
    pub args: Option<Vec<Option<String>>>,
    pub cwd: Option<String>,
    pub url: Option<String>,
}

pub open spec fn text_or_empty(o: Option<String>) -> Seq<char> {
    match o {
        Some(s) => s@,
        None => Seq::empty(),
    }
}

/// Launch arguments: at most 128 strings of at most 16 000 bytes each.
pub open spec fn spec_args_ok(args: Option<Seq<Option<Seq<char>>>>) -> bool {
    match args {
        None => false,
        Some(a) => a.len() <= 128 && forall|i: int|
            0 <= i < a.len() ==> (#[trigger] a[i] matches Some(s) && utf8_len(s) <= 16000),
    }
}

/// How a client is reached once its settings pass the checks.
#[derive(Debug, PartialEq, Eq)]
pub enum Launch {
    /// A local command; its arguments and working directory passed.
    Stdio,
    /// A remote server at this URL: HTTP(S), with a host and without
    /// credentials, query or fragment.
    Http(String),
}

/// Checks a client's launch settings. `cwd_absolute` says whether the
/// working directory is an absolute path on this system.
pub fn check_launch(c: &LaunchView, cwd_absolute: bool) -> (r: Result<Launch, Error>)
    ensures
        ({
            let transport = text_or_empty(c.transport);
            let stdio = transport == "stdio"@;
            let http = transport == "streamable_http"@;
            let args = match c.args {
                Some(v) => Some(texts_view(v@)),
                None => None,
            };
            let cwd = text_or_empty(c.cwd);
            let url = text_or_empty(c.url);
            &&& !stdio && !http ==> (r matches Err(e) && e.status == 501 && e.message@
                == "This MCP transport is not migrated yet"@)
            &&& stdio ==> match missing(text_or_empty(c.command), "command"@) {
                Some((status, message)) => r matches Err(e) && e.status == status && e.message@ == message,
                None => if !spec_args_ok(args) {
                    r matches Err(e) && e.status == 400 && e.message@
                        == "MCP arguments must be a bounded list of strings"@
                } else if cwd.len() > 0 && !cwd_absolute {
                    r matches Err(e) && e.status == 400 && e.message@ == "MCP working directory must be absolute"@
                } else {
                    r == Ok::<Launch, Error>(Launch::Stdio)
                },
            }
            &&& http ==> match missing(url, "url"@) {
                Some((status, message)) => r matches Err(e) && e.status == status && e.message@ == message,
                None => match provider_url_problem(parsed_url(url)) {
                    Some(m) => r matches Err(e) && e.status == 400 && e.message@ == m,
                    None => r matches Ok(Launch::Http(u)) && u@ == url,
                },
            }
        }),
{
    proof {
        reveal_strlit("stdio");
        reveal_strlit("streamable_http");
        assert("stdio"@.len() != "streamable_http"@.len());
    }
    let transport: &str = match &c.transport {
        Some(t) => t.as_str(),
        None => "",
    };
    let stdio = str_eq(transport, "stdio");
    let http = str_eq(transport, "streamable_http");
    proof {
        reveal_strlit("");
    }
    if !stdio && !http {
        return Err(Error::new(501, "This MCP transport is not migrated yet"));
    }
    if stdio {
        let command: &str = match &c.command {
            Some(t) => t.as_str(),
            None => "",
        };
        if let Err(e) = required(command, "command") {
            return Err(e);
        }
        let ok = match &c.args {
            None => false,
            Some(a) => {
                let ghost av = texts_view(a@);
                let mut good = a.len() <= 128;
                let mut i: usize = 0;
                while good && i < a.len()
                    invariant
                        av == texts_view(a@),
                        i <= a.len(),
                        good ==> a.len() <= 128,
                        good ==> forall|j: int| 0 <= j < i ==> (#[trigger] av[j] matches Some(s) && utf8_len(s) <= 16000),
                        !good ==> !spec_args_ok(Some(av)),
                    decreases a.len() - i,
                {
                    proof {
                        assert(av[i as int] == match a@[i as int] {
                            Some(s) => Some(s@),
                            None => None::<Seq<char>>,
                        });
                    }
                    let fits = match &a[i] {
                        Some(s) => utf8_length(s.as_str()) <= 16000,
                        None => false,
                    };
                    if !fits {
                        proof {
                            assert(!(av[i as int] matches Some(s) && utf8_len(s) <= 16000));
                        }
                        good = false;
                    }
                    i = i + 1;
                }
                good
            },
        };
        if !ok {
            return Err(Error::new(400, "MCP arguments must be a bounded list of strings"));
        }
        let cwd_empty = match &c.cwd {
            Some(t) => t.as_str().unicode_len() == 0,
            None => true,
        };
        if !cwd_empty && !cwd_absolute {
            return Err(Error::new(400, "MCP working directory must be absolute"));
        }
        return Ok(Launch::Stdio);
    }
    let url: &str = match &c.url {
        Some(t) => t.as_str(),
        None => "",
    };
    if let Err(e) = required(url, "url") {
        return Err(e);
    }
    if let Err(e) = validate_url(url) {
        return Err(e);
    }
    Ok(Launch::Http(url.to_owned()))
}

/// Whether the text holds `c`.
fn holds(s: &str, c: char) -> (r: bool)
    ensures
        r == s@.contains(c),
{
    let v = chars_of(s);
    for i in 0..v.len()
        invariant
            v@ == s@,
            forall|j: int| 0 <= j < i ==> v@[j] != c,
    {
        if v[i] == c {
            proof {
                assert(s@[i as int] == c);
            }
            return true;
        }
    }
    false
}

/// An environment entry: a key of 1 to 128 bytes without `=` or NUL, and a
/// text value of at most 16 000 bytes without NUL.
pub fn check_env_entry(key: &str, value: Option<&str>) -> (r: Result<(), Error>)
    ensures
        ({
            let bad_key = key@.len() == 0 || utf8_len(key@) > 128 || key@.contains('=') || key@.contains('\0');
            &&& bad_key ==> (r matches Err(e) && e.status == 400 && e.message@ == "Invalid MCP environment key"@)
            &&& !bad_key && value is None ==> (r matches Err(e) && e.status == 400 && e.message@
                == "MCP environment values must be text"@)
            &&& !bad_key ==> (value matches Some(v) ==> if v@.contains('\0') || utf8_len(v@) > 16000 {
                r matches Err(e) && e.status == 400 && e.message@ == "Invalid MCP environment value"@
            } else {
                r is Ok
            })
        }),
{
    if key.unicode_len() == 0 || utf8_length(key) > 128 || holds(key, '=') || holds(key, '\0') {
        return Err(Error::new(400, "Invalid MCP environment key"));
    }
    let value = match value {
        Some(v) => v,
        None => {
            return Err(Error::new(400, "MCP environment values must be text"));
        },
    };
    if holds(value, '\0') || utf8_length(value) > 16000 {
        return Err(Error::new(400, "Invalid MCP environment value"));
    }
    Ok(())
}

/// Header names a client may not set: those the transport owns.
pub open spec fn reserved_header(name: Seq<char>) -> bool {
    name == "host"@ || name == "content-length"@ || name == "content-type"@ || name == "accept"@ || (4
        <= name.len() && name.take(4) == "mcp-"@)
}

/// A header a client sets: `name` is its canonical lower-case form. It
/// must not be reserved, and its value must be text.
pub fn check_header(name: &str, value: Option<&str>) -> (r: Result<(), Error>)
    ensures
        reserved_header(name@) ==> (r matches Err(e) && e.status == 400 && e.message@ == "Reserved MCP header"@),
        !reserved_header(name@) && value is None ==> (r matches Err(e) && e.status == 400 && e.message@
            == "MCP header must be text"@),
        !reserved_header(name@) && value is Some ==> r is Ok,
{
    proof {
        reveal_strlit("mcp-");
    }
    let c = chars_of(name);
    let prefixed = c.len() >= 4 && c[0] == 'm' && c[1] == 'c' && c[2] == 'p' && c[3] == '-';
    proof {
        if c.len() >= 4 {
            assert(name@.take(4) =~= seq![c@[0], c@[1], c@[2], c@[3]]);
            assert("mcp-"@ =~= seq!['m', 'c', 'p', '-']);
        }
    }
    if str_eq(name, "host") || str_eq(name, "content-length") || str_eq(name, "content-type") || str_eq(
        name,
        "accept",
    ) || prefixed {
        return Err(Error::new(400, "Reserved MCP header"));
    }
    if value.is_none() {
        return Err(Error::new(400, "MCP header must be text"));
    }
    Ok(())
}

} // verus!
