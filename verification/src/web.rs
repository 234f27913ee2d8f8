//! Web addresses as the URL standard parses them, and the checks that the
//! runtime makes on them: provider base URLs, the cloud service, the cloud
//! login page and local API paths.
use vstd::prelude::*;
use vstd::utf8::{decode_utf8, encode_utf8, valid_utf8};
use crate::error::Error;
use crate::file_ops::utf8_string;
use crate::text::{chars_of, str_eq};
use crate::template::{begins, begins_exec};

verus! {

/// The parts of a parsed URL that the runtime reads.
pub struct UrlParts {
    pub scheme: String,
    /// The host as text, where there is one.
    pub host: Option<String>,
    pub username: String,
    pub password: Option<String>,
    pub path: String,
    pub query: Option<String>,
    pub fragment: Option<String>,
    /// The origin as text: `scheme://host` with the port unless it is the
    /// scheme's default; `null` for an opaque origin, which equals no other.
    pub origin: String,
    /// The name-value pairs of the query, form-decoded, in order.
    pub pairs: Vec<(String, String)>,
}

pub struct UrlModel {
    pub scheme: Seq<char>,
    pub host: Option<Seq<char>>,
    pub username: Seq<char>,
    pub password: Option<Seq<char>>,
    pub path: Seq<char>,
    pub query: Option<Seq<char>>,
    pub fragment: Option<Seq<char>>,
    pub origin: Seq<char>,
    pub pairs: Seq<(Seq<char>, Seq<char>)>,
}

pub open spec fn opt_text(o: Option<String>) -> Option<Seq<char>> {
    match o {
        Some(s) => Some(s@),
        None => None,
    }
}

pub open spec fn pair_texts(v: Seq<(String, String)>) -> Seq<(Seq<char>, Seq<char>)> {
    v.map_values(|p: (String, String)| (p.0@, p.1@))
}

impl View for UrlParts {
    type V = UrlModel;

    open spec fn view(&self) -> UrlModel {
        UrlModel {
            scheme: self.scheme@,
            host: opt_text(self.host),
            username: self.username@,
            password: opt_text(self.password),
            path: self.path@,
            query: opt_text(self.query),
            fragment: opt_text(self.fragment),
            origin: self.origin@,
            pairs: pair_texts(self.pairs@),
        }
    }
}

pub open spec fn opt_url(o: Option<UrlParts>) -> Option<UrlModel> {
    match o {
        Some(p) => Some(p@),
        None => None,
    }
}

/// What `url::Url::parse` makes of a text: `None` where it is no URL.
pub uninterp spec fn parsed_url(input: Seq<char>) -> Option<UrlModel>;

/// `url::Url::parse`, with the parts of the URL read out: its scheme,
/// host, credentials, path, query, fragment, origin and query pairs. The
/// contract only names the result; parsing depends on the input alone.
#[verifier::external_body]
fn parse_url(input: &str) -> (r: Option<UrlParts>)
    ensures
        opt_url(r) == parsed_url(input@),
{
    let u = match url::Url::parse(input) {
        Ok(u) => u,
        Err(_) => return None,
    };
    Some(UrlParts {
        scheme: u.scheme().to_owned(), host: u.host_str().map(String::from),
        username: u.username().to_owned(), password: u.password().map(String::from),
        path: u.path().to_owned(), query: u.query().map(String::from),
        fragment: u.fragment().map(String::from), origin: u.origin().ascii_serialization(),
        pairs: u.query_pairs().into_owned().collect(),
    })
}

/// Why a provider base URL is refused, if it is: it must parse, use HTTP or
/// HTTPS, name a host and carry no credentials, query or fragment.
pub open spec fn provider_url_problem(u: Option<UrlModel>) -> Option<Seq<char>> {
    match u {
        None => Some("A valid provider base URL is required"@),
        Some(p) => if !(p.scheme == "https"@ || p.scheme == "http"@) || p.host is None
            || p.username.len() > 0 || p.password is Some || p.query is Some || p.fragment is Some {
            Some("Provider URL must be HTTP(S), without credentials, query or fragment"@)
        } else {
            None
        },
    }
}

/// Checks a parsed provider base URL.
pub fn check_provider_url(u: &Option<UrlParts>) -> (r: Result<(), Error>)
    ensures
        match provider_url_problem(opt_url(*u)) {
            None => r is Ok,
            Some(m) => r matches Err(e) && e.status == 400 && e.message@ == m,
        },
{
    match u {
        None => Err(Error::new(400, "A valid provider base URL is required")),
        Some(p) => {
            let web = str_eq(p.scheme.as_str(), "https") || str_eq(p.scheme.as_str(), "http");
            if !web || p.host.is_none() || p.username.as_str().unicode_len() > 0 || p.password.is_some()
                || p.query.is_some() || p.fragment.is_some() {
                return Err(
                    Error::new(400, "Provider URL must be HTTP(S), without credentials, query or fragment"),
                );
            }
            Ok(())
        },
    }
}

/// Checks a provider base URL.
pub fn validate_url(url: &str) -> (r: Result<(), Error>)
    ensures
        match provider_url_problem(parsed_url(url@)) {
            None => r is Ok,
            Some(m) => r matches Err(e) && e.status == 400 && e.message@ == m,
        },
{
    check_provider_url(&parse_url(url))
}

/// The cloud service that login must use.
pub open spec fn service_address() -> Seq<char> {
    "https://potato-remote.recodex.top/"@
}

/// A local test service: plain HTTP on this machine.
pub open spec fn local_service(u: UrlModel) -> bool {
    u.scheme == "http"@ && (u.host == Some("127.0.0.1"@) || u.host == Some("localhost"@))
}

/// The cloud service address: `value` must be the Potato service, or, where
/// `local_allowed`, a local test service; either way the bare root without
/// credentials, query or fragment.
pub open spec fn spec_service_url(value: Seq<char>, local_allowed: bool) -> Result<UrlModel, Seq<char>> {
    match parsed_url(value) {
        None => Err("云端服务地址无效"@),
        Some(u) => if (!(local_allowed && local_service(u)) && value != service_address()) || u.path != "/"@
            || u.query is Some || u.fragment is Some || u.username.len() > 0 || u.password is Some {
            Err("云端登录必须使用 Potato 服务"@)
        } else {
            Ok(u)
        },
    }
}

/// Checks the address of the cloud service and gives its parts.
pub fn service_url(value: &str, local_allowed: bool) -> (r: Result<UrlParts, Error>)
    ensures
        match spec_service_url(value@, local_allowed) {
            Ok(u) => r matches Ok(p) && p@ == u,
            Err(m) => r matches Err(e) && e.status == 400 && e.message@ == m,
        },
{
    match parse_url(value) {
        None => Err(Error::new(400, "云端服务地址无效")),
        Some(u) => {
            let local = str_eq(u.scheme.as_str(), "http") && match &u.host {
                Some(h) => str_eq(h.as_str(), "127.0.0.1") || str_eq(h.as_str(), "localhost"),
                None => false,
            };
            if (!(local_allowed && local) && !str_eq(value, "https://potato-remote.recodex.top/")) || !str_eq(u.path.as_str(), "/")
                || u.query.is_some() || u.fragment.is_some() || u.username.as_str().unicode_len() > 0
                || u.password.is_some() {
                return Err(Error::new(400, "云端登录必须使用 Potato 服务"));
            }
            Ok(u)
        },
    }
}

/// Two origins are the same: neither is opaque, and they are written alike
/// (equal scheme, host and port).
pub open spec fn same_origin(a: UrlModel, b: UrlModel) -> bool {
    a.origin != "null"@ && a.origin == b.origin
}

/// Why a login page handed out by the service is refused, if it is: it
/// must parse, share the service's origin, be the authorize page and carry
/// exactly one query pair, `id`, equal to the login's id.
pub open spec fn login_page_problem(page: Seq<char>, relay: UrlModel, id: Seq<char>) -> Option<(u16, Seq<char>)> {
    match parsed_url(page) {
        None => Some((502u16, "登录地址无效"@)),
        Some(u) => if !same_origin(u, relay) || u.path != "/v1/cloud/auth/authorize"@ || u.fragment is Some
            || u.username.len() > 0 || u.password is Some || u.pairs.len() != 1 || u.pairs[0].0 != "id"@
            || u.pairs[0].1 != id {
            Some((502u16, "登录页面不属于云端服务"@))
        } else {
            None
        },
    }
}

fn same_origin_exec(a: &UrlParts, b: &UrlParts) -> (r: bool)
    ensures
        r == same_origin(a@, b@),
{
    !str_eq(a.origin.as_str(), "null") && str_eq(a.origin.as_str(), b.origin.as_str())
}

/// Checks the login page that the cloud service hands out.
pub fn check_login_page(page: &str, relay: &UrlParts, id: &str) -> (r: Result<(), Error>)
    ensures
        match login_page_problem(page@, relay@, id@) {
            None => r is Ok,
            Some((status, m)) => r matches Err(e) && e.status == status && e.message@ == m,
        },
{
    match parse_url(page) {
        None => Err(Error::new(502, "登录地址无效")),
        Some(u) => {
            let bad = !same_origin_exec(&u, relay) || !str_eq(u.path.as_str(), "/v1/cloud/auth/authorize")
                || u.fragment.is_some() || u.username.as_str().unicode_len() > 0 || u.password.is_some()
                || u.pairs.len() != 1 || !str_eq(u.pairs[0].0.as_str(), "id") || !str_eq(
                u.pairs[0].1.as_str(),
                id,
            );
            proof {
                if u.pairs.len() == 1 {
                    assert(u@.pairs[0] == (u.pairs[0].0@, u.pairs[0].1@));
                }
            }
            if bad {
                return Err(Error::new(502, "登录页面不属于云端服务"));
            }
            Ok(())
        },
    }
}

/// The value of a hexadecimal digit.
pub open spec fn hex_value(b: u8) -> Option<u8> {
    if 0x30 <= b <= 0x39 {
        Some((b - 0x30) as u8)
    } else if 0x61 <= b <= 0x66 {
        Some((b - 0x61 + 10) as u8)
    } else if 0x41 <= b <= 0x46 {
        Some((b - 0x41 + 10) as u8)
    } else {
        None
    }
}

/// Percent-decoding: each `%` followed by two hexadecimal digits becomes the
/// byte they spell; every other byte stays.
pub open spec fn percent_decoded(b: Seq<u8>) -> Seq<u8>
    decreases b.len(),
{
    if b.len() == 0 {
        Seq::empty()
    } else if b[0] == 0x25 && b.len() >= 3 && hex_value(b[1]) is Some && hex_value(b[2]) is Some {
        seq![(hex_value(b[1])->0 * 16 + hex_value(b[2])->0) as u8] + percent_decoded(b.skip(3))
    } else {
        seq![b[0]] + percent_decoded(b.skip(1))
    }
}

/// `percent_encoding::percent_decode_str`: the UTF-8 bytes of the text with
/// every `%` and two hexadecimal digits decoded.
#[verifier::external_body]
fn percent_decode_bytes(s: &str) -> (r: Vec<u8>)
    ensures
        r@ == percent_decoded(encode_utf8(s@)),
{
    percent_encoding::percent_decode_str(s).collect()
}

/// A local API request: its decoded path and query pairs.
pub struct ApiPath {
    pub path: String,
    pub pairs: Vec<(String, String)>,
}

/// A local API path as the runtime routes it: it must begin with `/api/`,
/// parse as a path of a local URL and decode to UTF-8.
pub open spec fn spec_api_path(path: Seq<char>) -> Result<(Seq<char>, Seq<(Seq<char>, Seq<char>)>), Seq<char>> {
    if !begins(path, "/api/"@) {
        Err("Only local API paths are accepted"@)
    } else {
        match parsed_url("http://native"@ + path) {
            None => Err("Invalid API path"@),
            Some(u) => {
                let bytes = percent_decoded(encode_utf8(u.path));
                if !valid_utf8(bytes) {
                    Err("Invalid path encoding"@)
                } else {
                    Ok((decode_utf8(bytes), u.pairs))
                }
            },
        }
    }
}

/// Reads a local API path.
pub fn api_path(path: &str) -> (r: Result<ApiPath, Error>)
    ensures
        match spec_api_path(path@) {
            Ok((p, q)) => r matches Ok(a) && a.path@ == p && pair_texts(a.pairs@) == q,
            Err(m) => r matches Err(e) && e.status == 400 && e.message@ == m,
        },
{
    let c = chars_of(path);
    if !begins_exec(&c, "/api/") {
        return Err(Error::new(400, "Only local API paths are accepted"));
    }
    let full = crate::text::cat("http://native", path);
    match parse_url(full.as_str()) {
        None => Err(Error::new(400, "Invalid API path")),
        Some(u) => {
            let bytes = percent_decode_bytes(u.path.as_str());
            match utf8_string(bytes) {
                None => Err(Error::new(400, "Invalid path encoding")),
                Some(p) => Ok(ApiPath { path: p, pairs: u.pairs }),
            }
        },
    }
}

/// The first value given for `key` in a query, or the empty text.
pub open spec fn query_value(pairs: Seq<(Seq<char>, Seq<char>)>, key: Seq<char>) -> Seq<char>
    decreases pairs.len(),
{
    if pairs.len() == 0 {
        Seq::empty()
    } else if pairs[0].0 == key {
        pairs[0].1
    } else {
        query_value(pairs.drop_first(), key)
    }
}

impl ApiPath {
    /// The first value given for `key` in the query, or the empty text.
    pub fn query(&self, key: &str) -> (r: String)
        ensures
            r@ == query_value(pair_texts(self.pairs@), key@),
    {
        let ghost q = pair_texts(self.pairs@);
        let mut i: usize = 0;
        proof {
            assert(q.skip(0) =~= q);
        }
        while i < self.pairs.len()
            invariant
                q == pair_texts(self.pairs@),
                q.len() == self.pairs.len(),
                i <= self.pairs.len(),
                query_value(q, key@) == query_value(q.skip(i as int), key@),
            decreases self.pairs.len() - i,
        {
            proof {
                assert(q.skip(i as int)[0] == q[i as int]);
                assert(q.skip(i as int).drop_first() =~= q.skip(i + 1));
            }
            if str_eq(self.pairs[i].0.as_str(), key) {
                return self.pairs[i].1.clone();
            }
            i = i + 1;
        }
        proof {
            reveal_strlit("");
        }
        String::new()
    }
}

} // verus!
