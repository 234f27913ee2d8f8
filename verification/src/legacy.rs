//! Reading credentials of the legacy application: its master key, its
//! encrypted values, and which of its settings carry over.
use vstd::prelude::*;
use crate::error::Error;
use crate::text::{chars_of, str_eq, trim, trimmed};
use vstd::utf8::{valid_utf8, decode_utf8};

verus! {

#[verifier::external_type_specification]
#[verifier::external_body]
pub struct ExFernet(fernet::Fernet);

pub open spec fn hex_value(c: char) -> int {
    if '0' <= c && c <= '9' {
        c as int - 48
    } else if 'a' <= c && c <= 'f' {
        c as int - 87
    } else {
        c as int - 55
    }
}

pub open spec fn is_hex(c: char) -> bool {
    ('0' <= c && c <= '9') || ('a' <= c && c <= 'f') || ('A' <= c && c <= 'F')
}

/// The key is 64 hexadecimal digits once trimmed.
pub open spec fn master_key_ok(text: Seq<char>) -> bool {
    let t = trimmed(text);
    t.len() == 64 && forall|i: int| 0 <= i < 64 ==> is_hex(#[trigger] t[i])
}

/// The 32 bytes that the digits encode, two digits per byte.
pub open spec fn key_bytes(t: Seq<char>) -> Seq<u8> {
    Seq::new(32, |i: int| (hex_value(t[2 * i]) * 16 + hex_value(t[2 * i + 1])) as u8)
}

fn hex_digit_value(c: char) -> (v: u8)
    requires
        is_hex(c),
    ensures
        v == hex_value(c),
        v < 16,
{
    if '0' <= c && c <= '9' {
        (c as u32 - 48) as u8
    } else if 'a' <= c && c <= 'f' {
        (c as u32 - 87) as u8
    } else {
        (c as u32 - 55) as u8
    }
}

/// Decodes the legacy master key: 64 hexadecimal digits, surrounding
/// white space ignored.
pub fn master_key_bytes(text: &str) -> (r: Result<Vec<u8>, Error>)
    ensures
        master_key_ok(text@) ==> (r matches Ok(b) && b@ == key_bytes(trimmed(text@))),
        !master_key_ok(text@) ==> (r matches Err(e) && e.status == 400 && e.message@
            == "Legacy master key is invalid"@),
{
    let t = trim(text);
    let c = chars_of(t.as_str());
    if c.len() != 64 {
        return Err(Error::new(400, "Legacy master key is invalid"));
    }
    for i in 0..64
        invariant
            c.len() == 64,
            c@ == trimmed(text@),
            forall|j: int| 0 <= j < i ==> is_hex(#[trigger] c@[j]),
    {
        let ch = c[i];
        if !(('0' <= ch && ch <= '9') || ('a' <= ch && ch <= 'f') || ('A' <= ch && ch <= 'F')) {
            proof {
                assert(!is_hex(c@[i as int]));
            }
            return Err(Error::new(400, "Legacy master key is invalid"));
        }
    }
    let mut out: Vec<u8> = Vec::new();
    for i in 0..32
        invariant
            c.len() == 64,
            c@ == trimmed(text@),
            forall|j: int| 0 <= j < 64 ==> is_hex(#[trigger] c@[j]),
            out@ == key_bytes(c@).take(i as int),
    {
        let hi = hex_digit_value(c[2 * i]);
        let lo = hex_digit_value(c[2 * i + 1]);
        out.push(hi * 16 + lo);
        proof {
            assert(key_bytes(c@).take(i + 1) =~= key_bytes(c@).take(i as int).push((hi * 16 + lo) as u8));
        }
    }
    proof {
        assert(key_bytes(c@).take(32) =~= key_bytes(c@));
    }
    Ok(out)
}

/// URL-safe base64 with padding.
pub uninterp spec fn base64_url(bytes: Seq<u8>) -> Seq<char>;

/// `base64::engine::general_purpose::URL_SAFE.encode`: URL-safe base64 of
/// the bytes, with padding.
#[verifier::external_body]
fn encode_url_safe(bytes: &[u8]) -> (s: String)
    ensures
        s@ == base64_url(bytes@),
{
    base64::Engine::encode(&base64::engine::general_purpose::URL_SAFE, bytes)
}

/// Whether `fernet::Fernet::new` accepts the key text.
pub uninterp spec fn fernet_accepts(key: Seq<char>) -> bool;

/// `fernet::Fernet::new`: a cipher for a URL-safe base64 key of 32 bytes;
/// `None` where the key text is refused.
#[verifier::external_body]
fn fernet_new(key: &str) -> (r: Option<fernet::Fernet>)
    ensures
        r is Some <==> fernet_accepts(key@),
{
    fernet::Fernet::new(key)
}

/// The cipher of the legacy key store. `key_text` is the content of its
/// master key file, `None` where there is none.
pub fn legacy_cipher(key_text: Option<&str>) -> (r: Result<Option<fernet::Fernet>, Error>)
    ensures
        match key_text {
            None => r matches Ok(c) && c is None,
            Some(t) => if master_key_ok(t@) {
                r matches Ok(c) && (c is Some <==> fernet_accepts(base64_url(key_bytes(trimmed(t@)))))
            } else {
                r matches Err(e) && e.status == 400
            },
        },
{
    match key_text {
        None => Ok(None),
        Some(t) => {
            let bytes = match master_key_bytes(t) {
                Ok(b) => b,
                Err(e) => {
                    return Err(e);
                },
            };
            let key = encode_url_safe(bytes.as_slice());
            Ok(fernet_new(key.as_str()))
        },
    }
}

/// `fernet::Fernet::decrypt`: the plaintext of a token, or `None`. The
/// outcome also depends on the clock (tokens from the future are refused),
/// so nothing more is stated.
#[verifier::external_body]
fn fernet_decrypt(cipher: &fernet::Fernet, token: &str) -> (r: Option<Vec<u8>>) {
    cipher.decrypt(token).ok()
}

/// What a decrypted credential becomes: its text when it is UTF-8.
pub fn credential_text(plain: Option<Vec<u8>>) -> (r: Result<String, Error>)
    ensures
        match plain {
            None => r matches Err(e) && e.status == 409,
            Some(b) => if valid_utf8(b@) {
                r matches Ok(s) && s@ == decode_utf8(b@)
            } else {
                r matches Err(e) && e.status == 400 && e.message@ == "Legacy credential is not text"@
            },
        },
{
    match plain {
        None => Err(Error::new(409, "Legacy credential cannot be decrypted; original settings were not changed")),
        Some(bytes) => match crate::file_ops::edit_source(Some(bytes)) {
            Ok(Some(s)) => Ok(s),
            _ => Err(Error::new(400, "Legacy credential is not text")),
        },
    }
}

/// The encrypted token of a stored value: what follows `ENC:`.
pub open spec fn encrypted_token(v: Seq<char>) -> Option<Seq<char>> {
    if v.len() >= 4 && v.take(4) == "ENC:"@ {
        Some(v.skip(4))
    } else {
        None
    }
}

/// A stored legacy value in the clear: plain values are kept; encrypted
/// ones need the key store and must decrypt to text.
pub fn decrypt_value(cipher: &Option<fernet::Fernet>, value: &str) -> (r: Result<String, Error>)
    ensures
        encrypted_token(value@) is None ==> (r matches Ok(s) && s@ == value@),
        encrypted_token(value@) is Some && cipher is None ==> (r matches Err(e) && e.status == 409),
        encrypted_token(value@) is Some && cipher is Some ==> (r matches Err(e) ==> (e.status == 409
            || (e.status == 400 && e.message@ == "Legacy credential is not text"@))),
{
    proof {
        reveal_strlit("ENC:");
    }
    let c = chars_of(value);
    let is_enc = c.len() >= 4 && c[0] == 'E' && c[1] == 'N' && c[2] == 'C' && c[3] == ':';
    proof {
        if c.len() >= 4 {
            assert(value@.take(4) =~= seq![c@[0], c@[1], c@[2], c@[3]]);
            assert("ENC:"@ =~= seq!['E', 'N', 'C', ':']);
        }
    }
    if !is_enc {
        return Ok(value.to_owned());
    }
    let cipher = match cipher {
        Some(f) => f,
        None => {
            return Err(
                Error::new(
                    409,
                    "Open the old application once to export its legacy keychain key, then retry import",
                ),
            );
        },
    };
    let token = crate::text::string_from_chars(&tail4(&c));
    credential_text(fernet_decrypt(cipher, token.as_str()))
}

fn tail4(c: &Vec<char>) -> (r: Vec<char>)
    requires
        c.len() >= 4,
    ensures
        r@ == c@.skip(4),
{
    let mut r: Vec<char> = Vec::new();
    let mut i: usize = 4;
    while i < c.len()
        invariant
            4 <= i <= c.len(),
            r@ == c@.subrange(4, i as int),
        decreases c.len() - i,
    {
        r.push(c[i]);
        proof {
            assert(c@.subrange(4, i + 1) == c@.subrange(4, i as int).push(c@[i as int]));
        }
        i = i + 1;
    }
    proof {
        assert(r@ =~= c@.skip(4));
    }
    r
}

/// The base URL of a legacy image service: the trimmed endpoint (the
/// public OpenAI one where blank) without its `/images/generations`
/// suffix; `None` for an endpoint of another shape.
pub open spec fn spec_image_base(endpoint: Seq<char>) -> Option<Seq<char>> {
    let t = trimmed(endpoint);
    let e = if t.len() == 0 {
        "https://api.openai.com/v1/images/generations"@
    } else {
        t
    };
    let suffix = "/images/generations"@;
    if e.len() >= suffix.len() && e.skip(e.len() - suffix.len()) == suffix {
        Some(e.take(e.len() - suffix.len()))
    } else {
        None
    }
}

/// Derives the base URL of the legacy image service.
pub fn image_base(endpoint: &str) -> (r: Option<String>)
    ensures
        match spec_image_base(endpoint@) {
            Some(b) => r matches Some(s) && s@ == b,
            None => r is None,
        },
{
    let t = trim(endpoint);
    let e = if t.as_str().unicode_len() == 0 {
        "https://api.openai.com/v1/images/generations".to_owned()
    } else {
        t
    };
    let c = chars_of(e.as_str());
    let suffix = chars_of("/images/generations");
    if suffix.len() > c.len() {
        return None;
    }
    let start = c.len() - suffix.len();
    let ghost es = c@;
    for j in 0..suffix.len()
        invariant
            start + suffix.len() == c.len(),
            es == c@,
            suffix@ == "/images/generations"@,
            c@ == (if trimmed(endpoint@).len() == 0 {
                "https://api.openai.com/v1/images/generations"@
            } else {
                trimmed(endpoint@)
            }),
            forall|k: int| 0 <= k < j ==> c@[start + k] == suffix@[k],
    {
        if c[start + j] != suffix[j] {
            proof {
                assert(c@.skip(start as int)[j as int] == c@[start + j]);
            }
            return None;
        }
    }
    proof {
        assert(c@.skip(start as int) =~= suffix@);
    }
    let mut b: Vec<char> = Vec::new();
    for i in 0..start
        invariant
            start <= c.len(),
            b@ == c@.take(i as int),
    {
        b.push(c[i]);
        proof {
            assert(c@.take(i + 1) == c@.take(i as int).push(c@[i as int]));
        }
    }
    Some(crate::text::string_from_chars(&b))
}

/// The first of the candidate settings that is set and not empty.
pub fn first_setting(candidates: &Vec<Option<String>>) -> (r: Option<usize>)
    ensures
        match r {
            Some(i) => i < candidates.len() && (candidates@[i as int] matches Some(s) && s@.len() > 0)
                && forall|j: int| #![trigger candidates@[j]] 0 <= j < i ==> !(candidates@[j] matches Some(s) && s@.len() > 0),
            None => forall|j: int| #![trigger candidates@[j]] 0 <= j < candidates.len() ==> !(candidates@[j] matches Some(s) && s@.len() > 0),
        },
{
    for i in 0..candidates.len()
        invariant
            forall|j: int| #![trigger candidates@[j]] 0 <= j < i ==> !(candidates@[j] matches Some(s) && s@.len() > 0),
    {
        match &candidates[i] {
            Some(s) => {
                if s.as_str().unicode_len() > 0 {
                    return Some(i);
                }
            },
            None => {},
        }
    }
    None
}

/// Whether the legacy active model is adopted: only where no native choice
/// stands (none, or an automatic cloud fallback the user did not pick), the
/// legacy choice exists, and its provider is known.
pub fn adopt_active(native_unset: bool, native_is_cloud: bool, cloud_was_manual: bool, legacy_set: bool, provider_known: bool) -> (r: bool)
    ensures
        r == ((native_unset || (native_is_cloud && !cloud_was_manual)) && legacy_set && provider_known),
{
    (native_unset || (native_is_cloud && !cloud_was_manual)) && legacy_set && provider_known
}

} // verus!
