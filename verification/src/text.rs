//! Character-level helpers shared by the policy modules.
use vstd::prelude::*;

verus! {

/// `char::to_ascii_lowercase` on code points: ASCII capitals move to the
/// lower-case block, every other character keeps its code.
pub open spec fn lower_code(c: char) -> u32 {
    if 65 <= (c as u32) && (c as u32) <= 90 {
        (c as u32 + 32) as u32
    } else {
        c as u32
    }
}

/// Whether `lit` occurs at `start` in `s`, ignoring ASCII case in `s`
/// (`lit` is written in lower case).
pub open spec fn lower_occurs_at(s: Seq<char>, start: int, lit: Seq<char>) -> bool {
    &&& 0 <= start
    &&& start + lit.len() <= s.len()
    &&& forall|i: int| 0 <= i < lit.len() ==> lower_code(#[trigger] s[start + i]) == lit[i] as u32
}

/// `s.to_ascii_lowercase() == lit`.
pub open spec fn lower_equals(s: Seq<char>, lit: Seq<char>) -> bool {
    s.len() == lit.len() && lower_occurs_at(s, 0, lit)
}

/// `s.to_ascii_lowercase().starts_with(lit)`.
pub open spec fn lower_starts_with(s: Seq<char>, lit: Seq<char>) -> bool {
    lower_occurs_at(s, 0, lit)
}

/// `s.to_ascii_lowercase().ends_with(lit)`.
pub open spec fn lower_ends_with(s: Seq<char>, lit: Seq<char>) -> bool {
    s.len() >= lit.len() && lower_occurs_at(s, s.len() - lit.len(), lit)
}

/// Checks whether `lit` occurs at `start` in `s`, ignoring ASCII case in `s`.
pub fn lower_at(s: &Vec<char>, start: usize, lit: &str) -> (r: bool)
    ensures
        r == lower_occurs_at(s@, start as int, lit@),
{
    if start > s.len() {
        return false;
    }
    let mut i: usize = start;
    let ghost mut k: int = 0;
    for c in it: lit.chars()
        invariant
            it.seq() == lit@,
            k == it.index(),
            i == start + k,
            i <= s.len(),
            forall|j: int| 0 <= j < k ==> start + j < s.len() && lower_code(#[trigger] s@[start + j]) == lit@[j] as u32,
    {
        if i >= s.len() {
            return false;
        }
        let d = s[i];
        let code = d as u32;
        let lowered = if 65 <= code && code <= 90 { code + 32 } else { code };
        if lowered != c as u32 {
            proof {
                assert(lit@[k] == c);
            }
            return false;
        }
        i = i + 1;
        proof {
            k = k + 1;
        }
    }
    assert(k == lit@.len());
    true
}

/// Case-insensitive (ASCII) comparison of a component with a lower-case literal.
pub fn lower_eq(s: &Vec<char>, lit: &str) -> (r: bool)
    ensures
        r == lower_equals(s@, lit@),
{
    let n = lit.unicode_len();
    n == s.len() && lower_at(s, 0, lit)
}

/// Case-insensitive (ASCII) prefix test against a lower-case literal.
pub fn lower_prefix(s: &Vec<char>, lit: &str) -> (r: bool)
    ensures
        r == lower_starts_with(s@, lit@),
{
    lower_at(s, 0, lit)
}

/// Case-insensitive (ASCII) suffix test against a lower-case literal.
pub fn lower_suffix(s: &Vec<char>, lit: &str) -> (r: bool)
    ensures
        r == lower_ends_with(s@, lit@),
{
    let n = lit.unicode_len();
    if n > s.len() {
        return false;
    }
    lower_at(s, s.len() - n, lit)
}

/// The Unicode `White_Space` property, which `char::is_whitespace` and
/// `str::trim` use.
pub open spec fn is_white_space(c: char) -> bool {
    let u = c as u32;
    (0x9 <= u && u <= 0xD) || u == 0x20 || u == 0x85 || u == 0xA0 || u == 0x1680
        || (0x2000 <= u && u <= 0x200A) || u == 0x2028 || u == 0x2029 || u == 0x202F
        || u == 0x205F || u == 0x3000
}

/// `s.trim().is_empty()`: every character is white space.
pub open spec fn blank(s: Seq<char>) -> bool {
    forall|i: int| 0 <= i < s.len() ==> is_white_space(#[trigger] s[i])
}

/// `char::is_whitespace`.
pub fn white_space(c: char) -> (r: bool)
    ensures
        r == is_white_space(c),
{
    let u = c as u32;
    (0x9 <= u && u <= 0xD) || u == 0x20 || u == 0x85 || u == 0xA0 || u == 0x1680
        || (0x2000 <= u && u <= 0x200A) || u == 0x2028 || u == 0x2029 || u == 0x202F
        || u == 0x205F || u == 0x3000
}

/// Whether `s.trim()` is empty.
pub fn is_blank(s: &str) -> (r: bool)
    ensures
        r == blank(s@),
{
    for c in it: s.chars()
        invariant
            it.seq() == s@,
            forall|j: int| 0 <= j < it.index() ==> is_white_space(#[trigger] s@[j]),
    {
        if !white_space(c) {
            return false;
        }
    }
    true
}

/// String equality with a literal.
pub fn str_eq(s: &str, lit: &str) -> (r: bool)
    ensures
        r == (s@ == lit@),
{
    let a = chars_of(s);
    let b = chars_of(lit);
    if a.len() != b.len() {
        return false;
    }
    for i in 0..a.len()
        invariant
            a@ == s@,
            b@ == lit@,
            a.len() == b.len(),
            forall|j: int| 0 <= j < i ==> a@[j] == b@[j],
    {
        if a[i] != b[i] {
            return false;
        }
    }
    proof {
        assert(a@ =~= b@);
    }
    true
}

/// Concatenates two string slices.
pub fn cat(a: &str, b: &str) -> (s: String)
    ensures
        s@ == a@ + b@,
{
    let mut s = a.to_owned();
    s.append(b);
    s
}

/// Concatenates three string slices.
pub fn cat3(a: &str, b: &str, c: &str) -> (s: String)
    ensures
        s@ == a@ + b@ + c@,
{
    let mut s = a.to_owned();
    s.append(b);
    s.append(c);
    s
}

/// `String::push`: appends one character.
#[verifier::external_body]
pub(crate) fn push_char(s: &mut String, c: char)
    ensures
        final(s)@ == old(s)@.push(c),
{
    s.push(c);
}

/// Builds a `String` holding exactly the given characters.
pub fn string_from_chars(v: &Vec<char>) -> (s: String)
    ensures
        s@ == v@,
{
    let mut s = String::new();
    for i in 0..v.len()
        invariant
            s@ == v@.take(i as int),
    {
        push_char(&mut s, v[i]);
        proof {
            assert(v@.take(i + 1) == v@.take(i as int).push(v@[i as int]));
        }
    }
    proof {
        assert(v@.take(v.len() as int) == v@);
    }
    s
}

/// Collects the characters of a string slice.
pub fn chars_of(s: &str) -> (v: Vec<char>)
    ensures
        v@ == s@,
{
    let mut v: Vec<char> = Vec::new();
    for c in it: s.chars()
        invariant
            it.seq() == s@,
            v@ == s@.take(it.index() as int),
    {
        proof {
            assert(s@.take(it.index() + 1) == s@.take(it.index() as int).push(c));
        }
        v.push(c);
    }
    proof {
        assert(s@.take(s@.len() as int) == s@);
    }
    v
}

/// Leading white space of `s`, in characters.
pub open spec fn lead_ws(s: Seq<char>) -> nat
    decreases s.len(),
{
    if s.len() > 0 && is_white_space(s[0]) {
        1 + lead_ws(s.drop_first())
    } else {
        0
    }
}

/// Trailing white space of `s`, in characters.
pub open spec fn trail_ws(s: Seq<char>) -> nat
    decreases s.len(),
{
    if s.len() > 0 && is_white_space(s.last()) {
        1 + trail_ws(s.drop_last())
    } else {
        0
    }
}

/// `str::trim`: `s` without its leading and trailing white space.
pub open spec fn trimmed(s: Seq<char>) -> Seq<char> {
    let t = s.skip(lead_ws(s) as int);
    t.take(t.len() - trail_ws(t))
}

proof fn lemma_lead_ws(s: Seq<char>, i: int)
    requires
        0 <= i <= s.len(),
        forall|j: int| 0 <= j < i ==> is_white_space(#[trigger] s[j]),
        i == s.len() || !is_white_space(s[i]),
    ensures
        lead_ws(s) == i,
    decreases i,
{
    if i > 0 {
        let t = s.drop_first();
        assert forall|j: int| 0 <= j < i - 1 implies is_white_space(#[trigger] t[j]) by {
            assert(t[j] == s[j + 1]);
        }
        if i - 1 < t.len() {
            assert(t[i - 1] == s[i]);
        }
        lemma_lead_ws(t, i - 1);
    }
}

proof fn lemma_trail_ws(s: Seq<char>, k: int)
    requires
        0 <= k <= s.len(),
        forall|j: int| s.len() - k <= j < s.len() ==> is_white_space(#[trigger] s[j]),
        k == s.len() || !is_white_space(s[s.len() - k - 1]),
    ensures
        trail_ws(s) == k,
    decreases k,
{
    if k > 0 {
        let t = s.drop_last();
        assert forall|j: int| t.len() - (k - 1) <= j < t.len() implies is_white_space(#[trigger] t[j]) by {
            assert(t[j] == s[j]);
        }
        if k - 1 < t.len() {
            assert(t[t.len() - (k - 1) - 1] == s[s.len() - k - 1]);
        }
        lemma_trail_ws(t, k - 1);
    }
}

/// `str::trim` into a new string.
pub fn trim(s: &str) -> (r: String)
    ensures
        r@ == trimmed(s@),
{
    let c = chars_of(s);
    let n = c.len();
    let mut start: usize = 0;
    while start < n && white_space(c[start])
        invariant
            c@ == s@,
            n == c.len(),
            start <= n,
            forall|j: int| 0 <= j < start ==> is_white_space(#[trigger] c@[j]),
        decreases n - start,
    {
        start = start + 1;
    }
    proof {
        lemma_lead_ws(s@, start as int);
    }
    let mut end: usize = n;
    while end > start && white_space(c[end - 1])
        invariant
            c@ == s@,
            n == c.len(),
            start <= end <= n,
            forall|j: int| end <= j < n ==> is_white_space(#[trigger] c@[j]),
        decreases end - start,
    {
        end = end - 1;
    }
    let ghost t = s@.skip(start as int);
    proof {
        assert forall|j: int| t.len() - (n - end) <= j < t.len() implies is_white_space(#[trigger] t[j]) by {
            assert(t[j] == c@[j + start]);
        }
        if n - end < t.len() {
            assert(t[t.len() - (n - end) - 1] == c@[end - 1]);
        }
        lemma_trail_ws(t, (n - end) as int);
    }
    let mut out = String::new();
    let mut i = start;
    while i < end
        invariant
            c@ == s@,
            start <= i <= end <= n,
            n == c.len(),
            out@ == s@.subrange(start as int, i as int),
        decreases end - i,
    {
        push_char(&mut out, c[i]);
        proof {
            assert(s@.subrange(start as int, i + 1) == s@.subrange(start as int, i as int).push(c@[i as int]));
        }
        i = i + 1;
    }
    proof {
        assert(out@ =~= t.take(t.len() - (n - end)));
    }
    out
}

/// The decimal digit for `d < 10`.
pub open spec fn digit(d: nat) -> char {
    ((d + 48) as u8) as char
}

/// The decimal digits of `n`, most significant first.
pub open spec fn decimal(n: nat) -> Seq<char>
    decreases n,
{
    if n < 10 {
        seq![digit(n)]
    } else {
        decimal(n / 10).push(digit(n % 10))
    }
}

/// `n` written in decimal, with a minus sign when negative.
pub open spec fn signed_decimal(n: int) -> Seq<char> {
    if n < 0 {
        seq!['-'] + decimal((-n) as nat)
    } else {
        decimal(n as nat)
    }
}

/// Appends the decimal digits of `n`.
pub fn push_decimal(out: &mut String, n: u64)
    ensures
        final(out)@ == old(out)@ + decimal(n as nat),
    decreases n,
{
    if n >= 10 {
        push_decimal(out, n / 10);
    }
    let d = (n % 10) as u8;
    push_char(out, (d + 48) as char);
    proof {
        assert(((d + 48) as u8) as char == digit((n % 10) as nat));
    }
}

/// `n` in decimal, as `format!("{n}")` writes it.
pub fn signed_text(n: i64) -> (s: String)
    ensures
        s@ == signed_decimal(n as int),
{
    let mut s = String::new();
    if n < 0 {
        push_char(&mut s, '-');
        let m: u64 = (-(n as i128)) as u64;
        push_decimal(&mut s, m);
    } else {
        push_decimal(&mut s, n as u64);
    }
    s
}

} // verus!
