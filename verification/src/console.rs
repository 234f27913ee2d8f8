//! Decisions of the desktop shell around its backend process: how much of
//! the backend's stderr is kept, what an unexpected exit reports, where the
//! bundled Python keeps its packages, and which stdout line announces the
//! backend's port.
use vstd::prelude::*;
use crate::paths::LibPath;
use crate::text::{blank, cat, cat3, chars_of, push_char, signed_decimal, signed_text, trim, trimmed};

verus! {

/// At most this many characters of stderr are kept.
pub open spec fn max_captured_stderr_chars() -> nat {
    4000
}

pub open spec fn truncation_marker() -> Seq<char> {
    "\n[...stderr truncated...]\n"@
}

/// `text.chars().take(count)`.
pub open spec fn spec_first_chars(text: Seq<char>, count: nat) -> Seq<char> {
    if count <= text.len() {
        text.take(count as int)
    } else {
        text
    }
}

/// The last `count` characters (all of them when there are fewer).
pub open spec fn spec_last_chars(text: Seq<char>, count: nat) -> Seq<char> {
    if count <= text.len() {
        text.skip(text.len() - count)
    } else {
        text
    }
}

/// The kept stderr: unchanged up to the limit, else its head and tail
/// around the marker, `4000` characters in all.
pub open spec fn spec_trim_stderr(text: Seq<char>) -> Seq<char> {
    if text.len() <= max_captured_stderr_chars() {
        text
    } else {
        let keep = max_captured_stderr_chars() - truncation_marker().len();
        let head = keep / 2;
        let tail = keep - head;
        spec_first_chars(text, head as nat) + truncation_marker() + spec_last_chars(text, tail as nat)
    }
}

/// The first `count` characters of `text`.
pub fn first_chars(text: &str, count: usize) -> (r: String)
    ensures
        r@ == spec_first_chars(text@, count as nat),
{
    let mut r = String::new();
    let mut taken: usize = 0;
    for c in it: text.chars()
        invariant
            it.seq() == text@,
            taken == it.index(),
            taken <= count,
            r@ == text@.take(taken as int),
    {
        if taken == count {
            proof {
                assert(count <= text@.len());
            }
            return r;
        }
        push_char(&mut r, c);
        proof {
            assert(text@.take(taken + 1) == text@.take(taken as int).push(c));
        }
        taken = taken + 1;
    }
    proof {
        assert(text@.take(text@.len() as int) == text@);
    }
    r
}

/// The last `count` characters of `text`.
pub fn last_chars(text: &str, count: usize) -> (r: String)
    ensures
        r@ == spec_last_chars(text@, count as nat),
{
    let chars = crate::text::chars_of(text);
    let n = chars.len();
    let start = if count <= n {
        n - count
    } else {
        0
    };
    let mut r = String::new();
    let mut i = start;
    while i < n
        invariant
            chars@ == text@,
            n == chars.len(),
            start <= i <= n,
            r@ == text@.subrange(start as int, i as int),
        decreases n - i,
    {
        push_char(&mut r, chars[i]);
        proof {
            assert(text@.subrange(start as int, i + 1) == text@.subrange(start as int, i as int).push(
                chars@[i as int],
            ));
        }
        i = i + 1;
    }
    proof {
        assert(r@ =~= spec_last_chars(text@, count as nat));
    }
    r
}

/// Keeps captured stderr within `4000` characters, its head and tail
/// around a truncation marker.
pub fn trim_captured_stderr(text: &mut String)
    ensures
        final(text)@ == spec_trim_stderr(old(text)@),
        final(text)@.len() <= max_captured_stderr_chars(),
{
    proof {
        reveal_strlit("\n[...stderr truncated...]\n");
    }
    let total = text.as_str().unicode_len();
    if total <= 4000 {
        return;
    }
    let marker = "\n[...stderr truncated...]\n";
    let marker_len = marker.unicode_len();
    let keep = if marker_len <= 4000 {
        4000 - marker_len
    } else {
        0
    };
    let head_chars = keep / 2;
    let tail_chars = keep - head_chars;
    let head = first_chars(text.as_str(), head_chars);
    let tail = last_chars(text.as_str(), tail_chars);
    *text = cat3(head.as_str(), marker, tail.as_str());
}

/// The message shown when the backend exits unexpectedly, with the last
/// captured stderr when there is any.
pub open spec fn spec_termination_message(code: Option<i32>, signal: Option<i32>, last_stderr: Seq<char>) -> Seq<char> {
    let head = match (code, signal) {
        (Some(c), _) => "backend process exited unexpectedly with code "@ + signed_decimal(c as int),
        (None, Some(s)) => "backend process exited unexpectedly by signal "@ + signed_decimal(s as int),
        _ => "backend process exited unexpectedly"@,
    };
    let stderr = trimmed(last_stderr);
    if stderr.len() == 0 {
        head
    } else {
        head + "\n\nLast stderr:\n"@ + stderr
    }
}

/// Describes an unexpected backend exit.
pub fn termination_message(code: Option<i32>, signal: Option<i32>, last_stderr: &str) -> (m: String)
    ensures
        m@ == spec_termination_message(code, signal, last_stderr@),
{
    let mut message = match (code, signal) {
        (Some(c), _) => {
            let n = signed_text(c as i64);
            cat("backend process exited unexpectedly with code ", n.as_str())
        },
        (None, Some(s)) => {
            let n = signed_text(s as i64);
            cat("backend process exited unexpectedly by signal ", n.as_str())
        },
        _ => "backend process exited unexpectedly".to_owned(),
    };
    let stderr = trim(last_stderr);
    if stderr.as_str().unicode_len() > 0 {
        message.append("\n\nLast stderr:\n");
        message.append(stderr.as_str());
    }
    message
}

/// The line prefix with which the backend announces its port.
pub open spec fn ready_prefix() -> Seq<char> {
    "QWENPAW_BACKEND_READY "@
}

/// The announcement's payload on a stdout line: the trimmed line after the
/// prefix, if it starts with it.
pub open spec fn spec_ready_payload(line: Seq<char>) -> Option<Seq<char>> {
    let t = trimmed(line);
    if ready_prefix().len() <= t.len() && t.take(ready_prefix().len() as int) == ready_prefix() {
        Some(t.skip(ready_prefix().len() as int))
    } else {
        None
    }
}

/// The announcement payloads of the lines, in order.
pub open spec fn ready_payloads_of(lines: Seq<Seq<char>>) -> Seq<Seq<char>>
    decreases lines.len(),
{
    if lines.len() == 0 {
        Seq::empty()
    } else {
        let earlier = ready_payloads_of(lines.drop_last());
        match spec_ready_payload(lines.last()) {
            Some(p) => earlier.push(p),
            None => earlier,
        }
    }
}

/// The payloads of every port announcement in a block of stdout, in order;
/// the first that parses as `{"port": ...}` gives the port.
pub fn ready_payloads(text: &str) -> (r: Vec<String>)
    ensures
        r@.map_values(|s: String| s@) == ready_payloads_of(crate::file_ops::text_lines(text@)),
{
    let lines = crate::file_ops::lines_of(text);
    let ghost ls = crate::file_ops::text_lines(text@);
    let mut out: Vec<String> = Vec::new();
    let mut k: usize = 0;
    proof {
        assert(ls.take(0) =~= Seq::<Seq<char>>::empty());
        assert(out@.map_values(|s: String| s@) =~= Seq::<Seq<char>>::empty());
    }
    while k < lines.len()
        invariant
            lines@.map_values(|l: Vec<char>| l@) == ls,
            k <= lines.len(),
            out@.map_values(|s: String| s@) == ready_payloads_of(ls.take(k as int)),
        decreases lines.len() - k,
    {
        let line = crate::text::string_from_chars(&lines[k]);
        proof {
            assert(ls[k as int] == lines@[k as int]@);
            assert(ls.take(k + 1).drop_last() =~= ls.take(k as int));
            assert(ls.take(k + 1).last() == ls[k as int]);
        }
        let ghost before = out@;
        match ready_payload(line.as_str()) {
            Some(p) => {
                out.push(p);
                proof {
                    assert(out@.map_values(|s: String| s@) =~= before.map_values(|s: String| s@).push(
                        out@[out@.len() - 1]@,
                    ));
                }
            },
            None => {},
        }
        k = k + 1;
    }
    proof {
        assert(ls.take(lines@.len() as int) =~= ls);
    }
    out
}

/// Finds the port announcement's payload on one stdout line.
pub fn ready_payload(line: &str) -> (r: Option<String>)
    ensures
        match spec_ready_payload(line@) {
            Some(p) => r matches Some(s) && s@ == p,
            None => r is None,
        },
{
    let t = trim(line);
    let c = crate::text::chars_of(t.as_str());
    let prefix = crate::text::chars_of("QWENPAW_BACKEND_READY ");
    if prefix.len() > c.len() {
        return None;
    }
    for i in 0..prefix.len()
        invariant
            c@ == t@,
            t@ == trimmed(line@),
            prefix@ == ready_prefix(),
            prefix.len() <= c.len(),
            forall|j: int| 0 <= j < i ==> c@[j] == prefix@[j],
    {
        if c[i] != prefix[i] {
            proof {
                assert(t@.take(prefix@.len() as int)[i as int] == c@[i as int]);
            }
            return None;
        }
    }
    proof {
        assert(t@.take(prefix@.len() as int) =~= prefix@);
    }
    let mut out = String::new();
    let mut i = prefix.len();
    while i < c.len()
        invariant
            c@ == t@,
            prefix.len() <= i <= c.len(),
            out@ == t@.subrange(prefix.len() as int, i as int),
        decreases c.len() - i,
    {
        push_char(&mut out, c[i]);
        proof {
            assert(t@.subrange(prefix.len() as int, i + 1) == t@.subrange(prefix.len() as int, i as int).push(
                c@[i as int],
            ));
        }
        i = i + 1;
    }
    proof {
        assert(out@ =~= t@.skip(prefix@.len() as int));
    }
    Some(out)
}

/// `lib/python3.11/site-packages`, the bundled interpreter's package
/// directory relative to its root.
pub open spec fn site_packages_parts() -> Seq<Seq<char>> {
    seq!["lib"@, "python3.11"@, "site-packages"@]
}

/// The package directory of a Unix Python at `<root>/bin/python3`:
/// `<root>/lib/python3.11/site-packages`, or the empty path when the
/// interpreter's path has fewer than two components to strip.
pub fn python_site_packages(python: &LibPath) -> (r: LibPath)
    ensures
        python.spec_parts().len() >= 2 ==> r.absolute == python.absolute && r.spec_parts()
            == python.spec_parts().take(python.spec_parts().len() - 2) + site_packages_parts(),
        python.spec_parts().len() < 2 ==> !r.absolute && r.spec_parts().len() == 0,
{
    let empty = LibPath { absolute: false, parts: Vec::new() };
    proof {
        assert(empty.spec_parts() =~= Seq::<Seq<char>>::empty());
    }
    let bin = match python.parent() {
        Some(p) => p,
        None => {
            return empty;
        },
    };
    let root = match bin.parent() {
        Some(p) => p,
        None => {
            assert(bin.spec_parts().len() == bin.parts.len());
            return empty;
        },
    };
    let mut tail: Vec<Vec<char>> = Vec::new();
    tail.push(crate::text::chars_of("lib"));
    tail.push(crate::text::chars_of("python3.11"));
    tail.push(crate::text::chars_of("site-packages"));
    let rel = LibPath { absolute: false, parts: tail };
    proof {
        assert(rel.spec_parts() =~= site_packages_parts());
        assert(python.spec_parts().drop_last().drop_last() =~= python.spec_parts().take(
            python.spec_parts().len() - 2,
        ));
    }
    root.join(&rel)
}

/// Why a path from the front end cannot be opened locally, if it cannot
/// (existence is checked by the caller): it must be non-blank, free of
/// control characters and absolute.
pub open spec fn local_path_problem(raw: Seq<char>) -> Option<Seq<char>> {
    if blank(raw) {
        Some("local path is empty"@)
    } else if exists|i: int| 0 <= i < raw.len() && crate::memory::is_control(#[trigger] raw[i]) {
        Some("local path contains control characters"@)
    } else if !(raw.len() > 0 && raw[0] == '/') {
        Some("local path must be absolute"@)
    } else {
        None
    }
}

fn has_control(raw: &str) -> (r: bool)
    ensures
        r == exists|i: int| 0 <= i < raw@.len() && crate::memory::is_control(#[trigger] raw@[i]),
{
    for c in it: raw.chars()
        invariant
            it.seq() == raw@,
            forall|j: int| 0 <= j < it.index() ==> !crate::memory::is_control(#[trigger] raw@[j]),
    {
        let u = c as u32;
        if u <= 0x1f || (0x7f <= u && u <= 0x9f) {
            proof {
                assert(crate::memory::is_control(raw@[it.index() as int]));
            }
            return true;
        }
    }
    false
}

/// Checks a local path before the shell opens or reveals it.
pub fn validated_local_path(raw: &str) -> (r: Result<LibPath, String>)
    ensures
        match local_path_problem(raw@) {
            Some(m) => r matches Err(e) && e@ == m,
            None => r matches Ok(p) && p.absolute && p.spec_parts() == crate::paths::path_parts(raw@),
        },
{
    if crate::text::is_blank(raw) {
        return Err("local path is empty".to_owned());
    }
    if has_control(raw) {
        return Err("local path contains control characters".to_owned());
    }
    let path = LibPath::parse(raw);
    if !path.absolute {
        return Err("local path must be absolute".to_owned());
    }
    Ok(path)
}

/// Appends a line of captured stderr, decoded with invalid UTF-8 shown as
/// U+FFFD, and keeps the capture bounded.
pub fn record_stderr(buffer: &mut String, line: &[u8])
    ensures
        final(buffer)@ == spec_trim_stderr(old(buffer)@ + crate::jobs::utf8_lossy(line@)),
{
    let text = crate::jobs::lossy_text(line);
    buffer.append(text.as_str());
    trim_captured_stderr(buffer);
}

/// Where the desktop shell keeps its state: the first of the three
/// working-directory variables that is set, else the first of `.potato`,
/// `.qwenpaw`, `.copaw` under the home directory that exists, else
/// `.potato` there; nothing without a home directory. `exists` says which
/// of the three home candidates exist.
pub open spec fn spec_working_dir(
    env: (Option<Seq<char>>, Option<Seq<char>>, Option<Seq<char>>),
    home: Option<LibPath>,
    exists: (bool, bool, bool),
) -> Option<(bool, Seq<Seq<char>>)> {
    match env {
        (Some(d), _, _) => Some((crate::paths::path_absolute(d), crate::paths::path_parts(d))),
        (None, Some(d), _) => Some((crate::paths::path_absolute(d), crate::paths::path_parts(d))),
        (None, None, Some(d)) => Some((crate::paths::path_absolute(d), crate::paths::path_parts(d))),
        (None, None, None) => match home {
            None => None,
            Some(h) => {
                let name = if exists.0 {
                    ".potato"@
                } else if exists.1 {
                    ".qwenpaw"@
                } else if exists.2 {
                    ".copaw"@
                } else {
                    ".potato"@
                };
                Some((h.absolute, h.spec_parts().push(name)))
            },
        },
    }
}

/// `home` joined with one component.
pub fn named(home: &LibPath, name: &str) -> (r: LibPath)
    ensures
        r.absolute == home.absolute,
        r.spec_parts() == home.spec_parts().push(name@),
{
    let mut parts: Vec<Vec<char>> = Vec::new();
    for i in 0..home.parts.len()
        invariant
            crate::paths::parts_view(parts@) == home.spec_parts().take(i as int),
    {
        let c = crate::paths::copy_chars(&home.parts[i]);
        let ghost before = parts@;
        parts.push(c);
        proof {
            crate::paths::lemma_parts_view_push(before, c);
            crate::paths::lemma_parts_view_index(home.parts@, i as int);
            assert(home.spec_parts().take(i + 1) =~= home.spec_parts().take(i as int).push(c@));
        }
    }
    let c = chars_of(name);
    let ghost before = parts@;
    parts.push(c);
    proof {
        crate::paths::lemma_parts_view_push(before, c);
        assert(home.spec_parts().take(home.parts.len() as int) =~= home.spec_parts());
    }
    LibPath { absolute: home.absolute, parts }
}

/// Resolves the working directory of the desktop shell.
pub fn working_dir(
    potato: Option<&str>,
    qwenpaw: Option<&str>,
    copaw: Option<&str>,
    home: Option<&LibPath>,
    exists: (bool, bool, bool),
) -> (r: Option<LibPath>)
    ensures
        match spec_working_dir(
            (
                crate::jobs::opt_view(potato),
                crate::jobs::opt_view(qwenpaw),
                crate::jobs::opt_view(copaw),
            ),
            match home {
                Some(h) => Some(*h),
                None => None,
            },
            exists,
        ) {
            Some((absolute, parts)) => r matches Some(p) && p.absolute == absolute && p.spec_parts() == parts,
            None => r is None,
        },
{
    if let Some(d) = potato {
        return Some(LibPath::parse(d));
    }
    if let Some(d) = qwenpaw {
        return Some(LibPath::parse(d));
    }
    if let Some(d) = copaw {
        return Some(LibPath::parse(d));
    }
    let home = match home {
        Some(h) => h,
        None => {
            return None;
        },
    };
    Some(
        if exists.0 {
            named(home, ".potato")
        } else if exists.1 {
            named(home, ".qwenpaw")
        } else if exists.2 {
            named(home, ".copaw")
        } else {
            named(home, ".potato")
        },
    )
}

/// The file in which the desktop backend records its port.
pub fn desktop_port_file(working: Option<&LibPath>) -> (r: Option<LibPath>)
    ensures
        match working {
            None => r is None,
            Some(w) => r matches Some(p) && p.absolute == w.absolute && p.spec_parts() == w.spec_parts().push(
                "desktop_port"@,
            ),
        },
{
    match working {
        None => None,
        Some(w) => Some(named(w, "desktop_port")),
    }
}

/// The file in which the desktop backend records its process id.
pub fn desktop_pid_file(working: Option<&LibPath>) -> (r: Option<LibPath>)
    ensures
        match working {
            None => r is None,
            Some(w) => r matches Some(p) && p.absolute == w.absolute && p.spec_parts() == w.spec_parts().push(
                "desktop_backend.pid"@,
            ),
        },
{
    match working {
        None => None,
        Some(w) => Some(named(w, "desktop_backend.pid")),
    }
}

/// The value of decimal digits, most significant first.
pub open spec fn digits_value(s: Seq<char>) -> int
    decreases s.len(),
{
    if s.len() == 0 {
        0
    } else {
        digits_value(s.drop_last()) * 10 + (s.last() as int - 48)
    }
}

pub open spec fn all_digits(s: Seq<char>) -> bool {
    s.len() > 0 && forall|i: int| 0 <= i < s.len() ==> '0' <= #[trigger] s[i] && s[i] <= '9'
}

/// `str::parse` of an unsigned integer no larger than `max`: an optional
/// `+`, then at least one ASCII digit.
pub open spec fn parse_unsigned(s: Seq<char>, max: int) -> Option<int> {
    let d = if s.len() > 0 && s[0] == '+' {
        s.skip(1)
    } else {
        s
    };
    if all_digits(d) && digits_value(d) <= max {
        Some(digits_value(d))
    } else {
        None
    }
}

proof fn lemma_digits_value_nonneg(s: Seq<char>)
    requires
        forall|i: int| 0 <= i < s.len() ==> '0' <= #[trigger] s[i] && s[i] <= '9',
    ensures
        digits_value(s) >= 0,
    decreases s.len(),
{
    if s.len() > 0 {
        lemma_digits_value_nonneg(s.drop_last());
    }
}

proof fn lemma_digits_value_grows(s: Seq<char>, k: int)
    requires
        0 <= k <= s.len(),
        forall|i: int| 0 <= i < s.len() ==> '0' <= #[trigger] s[i] && s[i] <= '9',
    ensures
        digits_value(s.take(k)) <= digits_value(s),
    decreases s.len() - k,
{
    if k < s.len() {
        lemma_digits_value_grows(s, k + 1);
        assert(s.take(k + 1).drop_last() =~= s.take(k));
        lemma_digits_value_nonneg(s.take(k));
    } else {
        assert(s.take(k) =~= s);
    }
}

/// Parses an unsigned decimal no larger than `max`.
pub fn parse_number(text: &str, max: u64) -> (r: Option<u64>)
    ensures
        match parse_unsigned(text@, max as int) {
            Some(v) => r matches Some(x) && x as int == v,
            None => r is None,
        },
{
    let c = chars_of(text);
    let start: usize = if c.len() > 0 && c[0] == '+' {
        1
    } else {
        0
    };
    let ghost d = if text@.len() > 0 && text@[0] == '+' {
        text@.skip(1)
    } else {
        text@
    };
    proof {
        if start == 1 {
            assert(d =~= c@.skip(1));
        } else {
            assert(d =~= c@);
        }
    }
    if start >= c.len() {
        return None;
    }
    let mut value: u64 = 0;
    let mut i = start;
    while i < c.len()
        invariant
            c@ == text@,
            start <= i <= c.len(),
            start < c.len(),
            d == c@.skip(start as int),
            d == (if text@.len() > 0 && text@[0] == '+' {
                text@.skip(1)
            } else {
                text@
            }),
            forall|j: int| 0 <= j < i - start ==> '0' <= #[trigger] d[j] && d[j] <= '9',
            value == digits_value(d.take(i - start)),
            value <= max,
        decreases c.len() - i,
    {
        let ch = c[i];
        proof {
            assert(d[i - start] == ch);
            assert(d.take(i - start + 1).drop_last() =~= d.take(i - start));
        }
        if !('0' <= ch && ch <= '9') {
            proof {
                assert(!all_digits(d));
            }
            return None;
        }
        let digit = (ch as u32 - 48) as u64;
        if (value as u128) * 10 + (digit as u128) > max as u128 {
            proof {
                assert(digits_value(d.take(i - start + 1)) == value * 10 + digit);
                if all_digits(d) {
                    lemma_digits_value_grows(d, i - start + 1);
                }
            }
            return None;
        }
        value = value * 10 + digit;
        i = i + 1;
    }
    proof {
        assert(d.take(d.len() as int) =~= d);
    }
    Some(value)
}

/// A recorded port of a desktop backend: a trimmed decimal in 1024..=65535.
pub fn parse_port(text: &str) -> (r: Option<u16>)
    ensures
        match parse_unsigned(trimmed(text@), 65535) {
            Some(v) => if 1024 <= v { r matches Some(p) && p as int == v } else { r is None },
            None => r is None,
        },
{
    let t = trim(text);
    match parse_number(t.as_str(), 65535) {
        Some(v) => if v >= 1024 {
            Some(v as u16)
        } else {
            None
        },
        None => None,
    }
}

/// A recorded process id of a desktop backend: a trimmed positive decimal
/// that fits 32 bits.
pub fn parse_pid(text: &str) -> (r: Option<u32>)
    ensures
        match parse_unsigned(trimmed(text@), 0xffff_ffff) {
            Some(v) => if v > 0 { r matches Some(p) && p as int == v } else { r is None },
            None => r is None,
        },
{
    let t = trim(text);
    match parse_number(t.as_str(), 0xffff_ffff) {
        Some(v) => if v > 0 {
            Some(v as u32)
        } else {
            None
        },
        None => None,
    }
}

/// Whether a response to the version probe reports success.
pub fn version_ok(response: &str) -> (r: bool)
    ensures
        r == (response@.len() >= 12 && (response@.take(12) == "HTTP/1.0 200"@ || response@.take(12)
            == "HTTP/1.1 200"@)),
{
    let c = chars_of(response);
    if c.len() < 12 {
        return false;
    }
    let head = crate::text::string_from_chars(&prefix12(&c));
    crate::text::str_eq(head.as_str(), "HTTP/1.0 200") || crate::text::str_eq(head.as_str(), "HTTP/1.1 200")
}

fn prefix12(c: &Vec<char>) -> (r: Vec<char>)
    requires
        c.len() >= 12,
    ensures
        r@ == c@.take(12),
{
    let mut r: Vec<char> = Vec::new();
    for i in 0..12
        invariant
            c.len() >= 12,
            r@ == c@.take(i as int),
    {
        r.push(c[i]);
        proof {
            assert(c@.take(i + 1) == c@.take(i as int).push(c@[i as int]));
        }
    }
    r
}

} // verus!
