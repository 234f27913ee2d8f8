//! Validation of Office generation input: bounded counts, XML-safe text and
//! a deliberately small, same-sheet numeric formula language.
use vstd::prelude::*;
use crate::error::Error;
use crate::text::{cat, push_decimal, decimal, chars_of, lower_eq, lower_equals, str_eq};
use crate::context::utf8_length;
use vstd::string::StringSliceAdditionalSpecFns;

verus! {

/// The message of every rejected Office input.
pub open spec fn invalid_message(detail: Seq<char>) -> Seq<char> {
    "Office generation failed: "@ + detail
}

/// The error for rejected Office input.
pub fn invalid(detail: &str) -> (e: Error)
    ensures
        e.status == 400,
        e.message@ == invalid_message(detail@),
{
    Error { status: 400, message: cat("Office generation failed: ", detail) }
}

/// Requires between one and `max` items.
pub fn bounded(count: usize, max: usize, label: &str) -> (r: Result<(), Error>)
    ensures
        (count == 0 || count > max) ==> (r matches Err(e) && e.status == 400 && e.message@ == label@
            + " must contain 1..="@ + decimal(max as nat) + " items"@),
        !(count == 0 || count > max) ==> r is Ok,
{
    if count == 0 || count > max {
        let mut message = cat(label, " must contain 1..=");
        push_decimal(&mut message, max as u64);
        message.append(" items");
        return Err(Error { status: 400, message });
    }
    Ok(())
}

/// A character that cannot stand in XML text: a control character other
/// than tab, line feed and carriage return, or U+FFFE, U+FFFF.
pub open spec fn xml_forbidden(c: char) -> bool {
    !(c == '\t' || c == '\n' || c == '\r') && ((c as u32) < 0x20 || c == '\u{fffe}' || c == '\u{ffff}')
}

/// Office text holds at most 32 000 bytes and no XML-forbidden character.
pub open spec fn office_text_ok(s: &str) -> bool {
    s.len() <= 32_000 && forall|i: int| 0 <= i < s@.len() ==> !xml_forbidden(#[trigger] s@[i])
}

pub(crate) fn has_forbidden(value: &str) -> (r: bool)
    ensures
        r == exists|i: int| 0 <= i < value@.len() && xml_forbidden(#[trigger] value@[i]),
{
    for c in it: value.chars()
        invariant
            it.seq() == value@,
            forall|j: int| 0 <= j < it.index() ==> !xml_forbidden(#[trigger] value@[j]),
    {
        if !(c == '\t' || c == '\n' || c == '\r') && ((c as u32) < 0x20 || c == '\u{fffe}'
            || c == '\u{ffff}') {
            proof {
                assert(xml_forbidden(value@[it.index() as int]));
            }
            return true;
        }
    }
    false
}

/// Checks text that goes into a generated document.
pub fn text(value: &str) -> (r: Result<(), Error>)
    ensures
        office_text_ok(value) ==> r is Ok,
        !office_text_ok(value) ==> (r matches Err(e) && e.status == 400 && e.message@
            == "Office text is too long or contains invalid XML characters"@),
{
    let ok = value.len() <= 32_000 && !has_forbidden(value);
    if !ok {
        return Err(Error::new(400, "Office text is too long or contains invalid XML characters"));
    }
    Ok(())
}

pub open spec fn is_upper(b: u8) -> bool {
    65 <= b <= 90
}

pub open spec fn is_digit(b: u8) -> bool {
    48 <= b <= 57
}

pub open spec fn is_alnum(b: u8) -> bool {
    is_upper(b) || is_digit(b) || (97 <= b <= 122)
}

/// Bytes that continue a reference or function name.
pub open spec fn name_byte(b: u8) -> bool {
    is_alnum(b) || b == 36
}

/// Operators, separators and number characters that pass unchanged.
pub open spec fn plain_byte(b: u8) -> bool {
    is_digit(b) || b == 46 || b == 43 || b == 45 || b == 42 || b == 47 || b == 44 || b == 58
        || b == 32 || b == 37
}

/// Where the name starting at `p` ends.
pub open spec fn name_end(b: Seq<u8>, p: int) -> int
    decreases b.len() - p,
{
    if 0 <= p < b.len() && name_byte(b[p]) {
        name_end(b, p + 1)
    } else {
        p
    }
}

/// The bytes without `$`.
pub open spec fn without_dollars(s: Seq<u8>) -> Seq<u8>
    decreases s.len(),
{
    if s.len() == 0 {
        s
    } else if s.last() == 36 {
        without_dollars(s.drop_last())
    } else {
        without_dollars(s.drop_last()).push(s.last())
    }
}

/// The position of the first digit from `i` on, or -1.
pub open spec fn first_digit(s: Seq<u8>, i: int) -> int
    decreases s.len() - i,
{
    if i < 0 || i >= s.len() {
        -1
    } else if is_digit(s[i]) {
        i
    } else {
        first_digit(s, i + 1)
    }
}

/// The column number of letters, `A` = 1 and `AA` = 27, computed with
/// checked `usize` arithmetic as `b - 'A' + 1` per byte: `None` on a byte
/// below `A` or on overflow.
pub open spec fn column_number(s: Seq<u8>) -> Option<int>
    decreases s.len(),
{
    if s.len() == 0 {
        Some(0)
    } else {
        match column_number(s.drop_last()) {
            None => None,
            Some(n) => if n * 26 > usize::MAX || s.last() < 65 || n * 26 + (s.last() - 64)
                > usize::MAX {
                None
            } else {
                Some(n * 26 + (s.last() - 64))
            },
        }
    }
}

/// `s.parse::<usize>()` for a non-empty string of name bytes: the value, or
/// the parser's message for the first problem from the left.
pub open spec fn parse_count(s: Seq<u8>) -> Result<int, Seq<char>>
    decreases s.len(),
{
    if s.len() == 0 {
        Ok(0)
    } else {
        match parse_count(s.drop_last()) {
            Err(m) => Err(m),
            Ok(n) => if !is_digit(s.last()) {
                Err("invalid digit found in string"@)
            } else if n * 10 + (s.last() - 48) > usize::MAX {
                Err("number too large to fit in target type"@)
            } else {
                Ok(n * 10 + (s.last() - 48))
            },
        }
    }
}

pub open spec fn supported_function(t: Seq<u8>) -> bool {
    t == "SUM".spec_bytes() || t == "AVERAGE".spec_bytes() || t == "MIN".spec_bytes() || t
        == "MAX".spec_bytes() || t == "COUNT".spec_bytes() || t == "ABS".spec_bytes() || t
        == "ROUND".spec_bytes()
}

/// What is wrong with a name token (its `$` removed), if anything: an
/// all-capitals token must be a supported function; anything else is a
/// cell reference inside `rows` x `columns`.
pub open spec fn token_problem(t: Seq<u8>, rows: usize, columns: usize) -> Option<Seq<char>> {
    if forall|i: int| 0 <= i < t.len() ==> is_upper(#[trigger] t[i]) {
        if supported_function(t) {
            None
        } else {
            Some("Supported functions: SUM, AVERAGE, MIN, MAX, COUNT, ABS, ROUND"@)
        }
    } else if first_digit(t, 0) < 0 {
        Some("Invalid cell reference"@)
    } else {
        let split = first_digit(t, 0);
        match column_number(t.take(split)) {
            None => Some("Invalid column"@),
            Some(col) => match parse_count(t.skip(split)) {
                Err(m) => Some(m),
                Ok(row) => if col == 0 || col > columns || row == 0 || row > rows {
                    Some("Formula references must stay inside the supplied sheet rectangle"@)
                } else {
                    None
                },
            },
        }
    }
}

/// The first problem of the formula bytes from `pos` on, at nesting `depth`.
pub open spec fn scan(b: Seq<u8>, pos: int, depth: int, rows: usize, columns: usize) -> Option<Seq<char>>
    decreases b.len() - pos,
{
    if pos < 0 || pos >= b.len() {
        if depth != 0 {
            Some("Unbalanced formula"@)
        } else {
            None
        }
    } else if b[pos] == 40 {
        if depth + 1 > 32 {
            Some("Formula nesting exceeds 32"@)
        } else {
            scan(b, pos + 1, depth + 1, rows, columns)
        }
    } else if b[pos] == 41 {
        if depth - 1 < 0 {
            Some("Unbalanced formula"@)
        } else {
            scan(b, pos + 1, depth - 1, rows, columns)
        }
    } else if is_upper(b[pos]) || b[pos] == 36 {
        let end = name_end(b, pos);
        proof {
            lemma_name_end_bounds(b, pos);
        }
        if end <= pos {
            None
        } else {
            match token_problem(without_dollars(b.subrange(pos, end)), rows, columns) {
                Some(m) => Some(m),
                None => scan(b, end, depth, rows, columns),
            }
        }
    } else if plain_byte(b[pos]) {
        scan(b, pos + 1, depth, rows, columns)
    } else {
        Some("Use uppercase same-sheet numeric formulas; unsupported formula syntax"@)
    }
}

/// What is wrong with a formula over a sheet of `rows` x `columns`, if
/// anything.
pub open spec fn formula_problem(value: &str, rows: usize, columns: usize) -> Option<Seq<char>> {
    let b = value.spec_bytes();
    if b.len() == 0 || b[0] != 61 || b.len() > 512 {
        Some("Formula must begin with = and contain at most 512 bytes"@)
    } else {
        scan(b, 1, 0, rows, columns)
    }
}

pub proof fn lemma_name_end_bounds(b: Seq<u8>, p: int)
    requires
        0 <= p <= b.len(),
    ensures
        p <= name_end(b, p) <= b.len(),
        forall|j: int| p <= j < name_end(b, p) ==> name_byte(#[trigger] b[j]),
    decreases b.len() - p,
{
    if p < b.len() && name_byte(b[p]) {
        lemma_name_end_bounds(b, p + 1);
    }
}

fn strip_dollars(b: &[u8], start: usize, end: usize) -> (t: Vec<u8>)
    requires
        start <= end <= b@.len(),
    ensures
        t@ == without_dollars(b@.subrange(start as int, end as int)),
{
    let mut t: Vec<u8> = Vec::new();
    let mut i = start;
    while i < end
        invariant
            start <= i <= end <= b@.len(),
            t@ == without_dollars(b@.subrange(start as int, i as int)),
        decreases end - i,
    {
        proof {
            assert(b@.subrange(start as int, i + 1).drop_last() =~= b@.subrange(start as int, i as int));
        }
        if b[i] != 36 {
            t.push(b[i]);
        }
        i = i + 1;
    }
    t
}

fn is_function(t: &Vec<u8>) -> (r: bool)
    ensures
        r == supported_function(t@),
{
    bytes_eq(t, "SUM".as_bytes()) || bytes_eq(t, "AVERAGE".as_bytes()) || bytes_eq(t, "MIN".as_bytes())
        || bytes_eq(t, "MAX".as_bytes()) || bytes_eq(t, "COUNT".as_bytes()) || bytes_eq(
        t,
        "ABS".as_bytes(),
    ) || bytes_eq(t, "ROUND".as_bytes())
}

fn bytes_eq(a: &Vec<u8>, b: &[u8]) -> (r: bool)
    ensures
        r == (a@ == b@),
{
    if a.len() != b.len() {
        return false;
    }
    for i in 0..a.len()
        invariant
            a.len() == b@.len(),
            forall|j: int| 0 <= j < i ==> a@[j] == b@[j],
    {
        if a[i] != b[i] {
            return false;
        }
    }
    proof {
        assert(a@ =~= b@);
    }
    true
}

fn column_of(t: &Vec<u8>, split: usize) -> (r: Option<usize>)
    requires
        split <= t.len(),
    ensures
        match column_number(t@.take(split as int)) {
            Some(n) => r matches Some(c) && c as int == n,
            None => r is None,
        },
{
    let mut n: usize = 0;
    for i in 0..split
        invariant
            split <= t.len(),
            column_number(t@.take(i as int)) == Some(n as int),
    {
        proof {
            assert(t@.take(i + 1).drop_last() =~= t@.take(i as int));
        }
        let b = t[i];
        let m = match n.checked_mul(26) {
            Some(m) => m,
            None => {
                proof {
                    lemma_column_stays_none(t@, i + 1, split as int);
                }
                return None;
            },
        };
        if b < 65 {
            proof {
                lemma_column_stays_none(t@, i + 1, split as int);
            }
            return None;
        }
        n = match m.checked_add((b - 65 + 1) as usize) {
            Some(v) => v,
            None => {
                proof {
                    lemma_column_stays_none(t@, i + 1, split as int);
                }
                return None;
            },
        };
    }
    Some(n)
}

proof fn lemma_column_stays_none(s: Seq<u8>, i: int, j: int)
    requires
        0 <= i <= j <= s.len(),
        column_number(s.take(i)) is None,
    ensures
        column_number(s.take(j)) is None,
    decreases j - i,
{
    if i < j {
        assert(s.take(i + 1).drop_last() =~= s.take(i));
        lemma_column_stays_none(s, i + 1, j);
    }
}

proof fn lemma_parse_stays_err(s: Seq<u8>, i: int, j: int)
    requires
        0 <= i <= j <= s.len(),
        parse_count(s.take(i)) is Err,
    ensures
        parse_count(s.take(j)) == parse_count(s.take(i)),
    decreases j - i,
{
    if i < j {
        assert(s.take(i + 1).drop_last() =~= s.take(i));
        lemma_parse_stays_err(s, i + 1, j);
    }
}

fn parse_row(t: &Vec<u8>, split: usize) -> (r: Result<usize, &'static str>)
    requires
        split <= t.len(),
    ensures
        match parse_count(t@.skip(split as int)) {
            Ok(n) => r matches Ok(v) && v as int == n,
            Err(m) => r matches Err(s) && s@ == m,
        },
{
    let ghost s = t@.skip(split as int);
    let mut n: usize = 0;
    let mut i = split;
    while i < t.len()
        invariant
            split <= i <= t.len(),
            s == t@.skip(split as int),
            parse_count(s.take(i - split)) == Ok::<int, Seq<char>>(n as int),
        decreases t.len() - i,
    {
        let k = i - split;
        proof {
            assert(s.take(k + 1).drop_last() =~= s.take(k as int));
            assert(s.take(k + 1).last() == t@[i as int]);
        }
        let b = t[i];
        if b < 48 || b > 57 {
            proof {
                lemma_parse_stays_err(s, k + 1, s.len() as int);
                assert(s.take(s.len() as int) =~= s);
            }
            return Err("invalid digit found in string");
        }
        let next = match n.checked_mul(10) {
            Some(m) => m.checked_add((b - 48) as usize),
            None => None,
        };
        match next {
            Some(v) => {
                n = v;
            },
            None => {
                proof {
                    lemma_parse_stays_err(s, k + 1, s.len() as int);
                    assert(s.take(s.len() as int) =~= s);
                }
                return Err("number too large to fit in target type");
            },
        }
        i = i + 1;
    }
    proof {
        assert(s.take(s.len() as int) =~= s);
    }
    Ok(n)
}

fn check_token(t: &Vec<u8>, rows: usize, columns: usize) -> (r: Option<&'static str>)
    ensures
        match token_problem(t@, rows, columns) {
            Some(m) => r matches Some(s) && s@ == m,
            None => r is None,
        },
{
    let mut upper = true;
    let mut split: Option<usize> = None;
    for i in 0..t.len()
        invariant
            upper == forall|j: int| 0 <= j < i ==> is_upper(#[trigger] t@[j]),
            match split {
                Some(k) => k < i && first_digit(t@, 0) == k,
                None => forall|j: int| 0 <= j < i ==> !is_digit(#[trigger] t@[j]),
            },
    {
        if !(65 <= t[i] && t[i] <= 90) {
            upper = false;
        }
        if split.is_none() && 48 <= t[i] && t[i] <= 57 {
            proof {
                lemma_first_digit_at(t@, 0, i as int);
            }
            split = Some(i);
        }
    }
    if upper {
        if is_function(t) {
            return None;
        }
        return Some("Supported functions: SUM, AVERAGE, MIN, MAX, COUNT, ABS, ROUND");
    }
    let split = match split {
        Some(k) => k,
        None => {
            proof {
                lemma_first_digit_none(t@, 0);
            }
            return Some("Invalid cell reference");
        },
    };
    let col = match column_of(t, split) {
        Some(c) => c,
        None => {
            return Some("Invalid column");
        },
    };
    let row = match parse_row(t, split) {
        Ok(r) => r,
        Err(m) => {
            return Some(m);
        },
    };
    if col == 0 || col > columns || row == 0 || row > rows {
        return Some("Formula references must stay inside the supplied sheet rectangle");
    }
    None
}

proof fn lemma_first_digit_at(s: Seq<u8>, i: int, k: int)
    requires
        0 <= i <= k < s.len(),
        is_digit(s[k]),
        forall|j: int| i <= j < k ==> !is_digit(#[trigger] s[j]),
    ensures
        first_digit(s, i) == k,
    decreases k - i,
{
    if i < k {
        lemma_first_digit_at(s, i + 1, k);
    }
}

proof fn lemma_first_digit_none(s: Seq<u8>, i: int)
    requires
        0 <= i <= s.len(),
        forall|j: int| i <= j < s.len() ==> !is_digit(#[trigger] s[j]),
    ensures
        first_digit(s, i) == -1,
    decreases s.len() - i,
{
    if i < s.len() {
        lemma_first_digit_none(s, i + 1);
    }
}

/// Checks a formula against the supported subset before it is evaluated:
/// it starts with `=` within 512 bytes, nests at most 32 deep with balanced
/// parentheses, calls only SUM, AVERAGE, MIN, MAX, COUNT, ABS and ROUND, and
/// refers only to cells inside the `rows` x `columns` sheet rectangle.
pub fn validate_formula(value: &str, rows: usize, columns: usize) -> (r: Result<(), Error>)
    ensures
        match formula_problem(value, rows, columns) {
            Some(m) => r matches Err(e) && e.status == 400 && e.message@ == invalid_message(m),
            None => r is Ok,
        },
{
    let bytes = value.as_bytes();
    let n = bytes.len();
    if n == 0 || bytes[0] != 61 || n > 512 {
        return Err(invalid("Formula must begin with = and contain at most 512 bytes"));
    }
    let ghost b = bytes@;
    let mut depth: i32 = 0;
    let mut pos: usize = 1;
    while pos < n
        invariant
            b == bytes@,
            b == value.spec_bytes(),
            n == b.len(),
            n <= 512,
            1 <= pos <= n,
            0 <= depth <= 32,
            formula_problem(value, rows, columns) == scan(b, pos as int, depth as int, rows, columns),
        decreases n - pos,
    {
        let c = bytes[pos];
        if c == 40 {
            depth = depth + 1;
            if depth > 32 {
                return Err(invalid("Formula nesting exceeds 32"));
            }
            pos = pos + 1;
        } else if c == 41 {
            if depth - 1 < 0 {
                return Err(invalid("Unbalanced formula"));
            }
            depth = depth - 1;
            pos = pos + 1;
        } else if (65 <= c && c <= 90) || c == 36 {
            let start = pos;
            while pos < n && ((65 <= bytes[pos] && bytes[pos] <= 90) || (48 <= bytes[pos] && bytes[pos]
                <= 57) || (97 <= bytes[pos] && bytes[pos] <= 122) || bytes[pos] == 36)
                invariant
                    b == bytes@,
                    n == b.len(),
                    start < n,
                    start <= pos <= n,
                    name_end(b, start as int) == name_end(b, pos as int),
                decreases n - pos,
            {
                pos = pos + 1;
            }
            proof {
                assert(name_end(b, pos as int) == pos as int);
            }
            let token = strip_dollars(bytes, start, pos);
            match check_token(&token, rows, columns) {
                Some(m) => {
                    return Err(invalid(m));
                },
                None => {},
            }
        } else if (48 <= c && c <= 57) || c == 46 || c == 43 || c == 45 || c == 42 || c == 47 || c == 44
            || c == 58 || c == 32 || c == 37 {
            pos = pos + 1;
        } else {
            return Err(invalid("Use uppercase same-sheet numeric formulas; unsupported formula syntax"));
        }
    }
    if depth != 0 {
        return Err(invalid("Unbalanced formula"));
    }
    Ok(())
}

/// Display width units of a character: 1 for ASCII, 2 otherwise.
pub open spec fn char_units(c: char) -> int {
    if (c as u32) < 0x80 {
        1
    } else {
        2
    }
}

/// Display width units of a text.
pub open spec fn units(s: Seq<char>) -> int
    decreases s.len(),
{
    if s.len() == 0 {
        0
    } else {
        units(s.drop_last()) + char_units(s.last())
    }
}

/// The rendered lines of one line of bullet text: 64 units per line, at
/// least one.
pub open spec fn wrapped(s: Seq<char>) -> int {
    let u = units(s);
    if u == 0 {
        1
    } else {
        (u + 63) / 64
    }
}

/// The rendered lines of the `\n`-separated pieces of a bullet.
pub open spec fn bullet_lines(pieces: Seq<Seq<char>>) -> int
    decreases pieces.len(),
{
    if pieces.len() == 0 {
        0
    } else {
        bullet_lines(pieces.drop_last()) + wrapped(pieces.last())
    }
}

/// A slide as the layout hints read it: its title where it is a string;
/// its bullets where they are an array (each where it is a string); and,
/// where it has a chart, the chart's categories where they are an array.
#[derive(Debug)]
pub struct SlideView {
    pub title: Option<String>,
    pub bullets: Option<Vec<Option<String>>>,
    pub chart: Option<Option<Vec<Option<String>>>>,
}

/// A layout hint about a slide (1-based).
#[derive(Clone, Copy, Debug, PartialEq, Eq, Structural)]
pub enum LayoutHint {
    LongTitle(usize),
    DenseBody(usize),
    CrowdedChart(usize),
}

fn text_units(s: &str) -> (u: u128)
    ensures
        u == units(s@),
        u <= 2 * s@.len(),
{
    let c = crate::text::chars_of(s);
    let mut u: u128 = 0;
    for i in 0..c.len()
        invariant
            c@ == s@,
            u == units(s@.take(i as int)),
            u <= 2 * i,
    {
        proof {
            assert(s@.take(i + 1).drop_last() =~= s@.take(i as int));
            assert(s@.take(i + 1).last() == c@[i as int]);
        }
        if (c[i] as u32) < 0x80 {
            u = u + 1;
        } else {
            u = u + 2;
        }
    }
    proof {
        assert(s@.take(c@.len() as int) =~= s@);
    }
    u
}

pub open spec fn text_or_empty(o: Option<String>) -> Seq<char> {
    match o {
        Some(s) => s@,
        None => Seq::empty(),
    }
}

/// The rendered lines of a slide's bullets.
pub open spec fn body_lines(bullets: Seq<Option<String>>) -> int
    decreases bullets.len(),
{
    if bullets.len() == 0 {
        0
    } else {
        body_lines(bullets.drop_last()) + bullet_lines(crate::file_ops::nl_pieces(text_or_empty(bullets.last())))
    }
}

/// The chart's categories crowd: more than 12, or one over 20 units.
pub open spec fn crowded(categories: Seq<Option<String>>) -> bool {
    categories.len() > 12 || exists|i: int| 0 <= i < categories.len() && units(text_or_empty(#[trigger] categories[i])) > 20
}

/// The hints of one slide, in order: title, body, chart.
pub open spec fn slide_hints(slide: SlideView, number: int) -> Seq<(int, int)> {
    let title = if units(text_or_empty(slide.title)) > 52 {
        seq![(0int, number)]
    } else {
        Seq::empty()
    };
    let body = match slide.bullets {
        Some(b) => if body_lines(b@) > 9 {
            seq![(1int, number)]
        } else {
            Seq::empty()
        },
        None => Seq::empty(),
    };
    let chart = match slide.chart {
        Some(Some(c)) => if crowded(c@) {
            seq![(2int, number)]
        } else {
            Seq::empty()
        },
        _ => Seq::empty(),
    };
    title + body + chart
}

/// The hints of the slides, slide by slide; slide numbers are 1-based.
pub open spec fn all_hints(slides: Seq<SlideView>) -> Seq<(int, int)>
    decreases slides.len(),
{
    if slides.len() == 0 {
        Seq::empty()
    } else {
        all_hints(slides.drop_last()) + slide_hints(slides.last(), slides.len() as int)
    }
}

impl View for LayoutHint {
    type V = (int, int);

    open spec fn view(&self) -> (int, int) {
        match self {
            LayoutHint::LongTitle(n) => (0, *n as int),
            LayoutHint::DenseBody(n) => (1, *n as int),
            LayoutHint::CrowdedChart(n) => (2, *n as int),
        }
    }
}

proof fn lemma_bullet_lines_positive(pieces: Seq<Seq<char>>)
    ensures
        bullet_lines(pieces) >= pieces.len(),
    decreases pieces.len(),
{
    if pieces.len() > 0 {
        lemma_bullet_lines_positive(pieces.drop_last());
        lemma_units_nonneg(pieces.last());
    }
}

proof fn lemma_units_nonneg(s: Seq<char>)
    ensures
        units(s) >= 0,
    decreases s.len(),
{
    if s.len() > 0 {
        lemma_units_nonneg(s.drop_last());
    }
}

/// The rendered lines of a bullet.
fn bullet_line_count(text: &str) -> (n: u128)
    ensures
        n == bullet_lines(crate::file_ops::nl_pieces(text@)),
{
    let c = crate::text::chars_of(text);
    let ghost s = text@;
    let mut acc: u128 = 0;
    let mut cur: u128 = 0;
    let ghost mut done: Seq<Seq<char>> = Seq::empty();
    let ghost mut piece: Seq<char> = Seq::empty();
    proof {
        assert(s.take(0) =~= Seq::<char>::empty());
        assert(crate::file_ops::nl_pieces(s.take(0)) =~= done.push(piece));
    }
    for i in 0..c.len()
        invariant
            c@ == s,
            s == text@,
            crate::file_ops::nl_pieces(s.take(i as int)) == done.push(piece),
            acc == bullet_lines(done),
            cur == units(piece),
            acc + cur <= 3 * i,
    {
        proof {
            assert(s.take(i + 1).drop_last() =~= s.take(i as int));
            assert(s.take(i + 1).last() == c@[i as int]);
            lemma_units_nonneg(piece);
        }
        if c[i] == '\n' {
            let w: u128 = if cur == 0 {
                1
            } else {
                (cur + 63) / 64
            };
            proof {
                assert(w <= cur + 1) by (nonlinear_arith)
                    requires
                        w == (if cur == 0 {
                            1int
                        } else {
                            (cur + 63) / 64
                        }),
                        cur >= 0,
                ;
                assert(done.push(piece).drop_last() =~= done);
                assert(bullet_lines(done.push(piece)) == bullet_lines(done) + wrapped(piece));
                done = done.push(piece);
                piece = Seq::empty();
                assert(crate::file_ops::nl_pieces(s.take(i + 1)) =~= done.push(piece));
            }
            acc = acc + w;
            cur = 0;
        } else {
            proof {
                assert(piece.push(c@[i as int]).drop_last() =~= piece);
                piece = piece.push(c@[i as int]);
                assert(crate::file_ops::nl_pieces(s.take(i + 1)) =~= done.push(piece));
            }
            if (c[i] as u32) < 0x80 {
                cur = cur + 1;
            } else {
                cur = cur + 2;
            }
        }
    }
    proof {
        assert(s.take(c@.len() as int) =~= s);
        assert(done.push(piece).drop_last() =~= done);
    }
    let w: u128 = if cur == 0 {
        1
    } else {
        (cur + 63) / 64
    };
    proof {
        assert(w <= cur + 1) by (nonlinear_arith)
            requires
                w == (if cur == 0 {
                    1int
                } else {
                    (cur + 63) / 64
                }),
                cur >= 0,
        ;
    }
    acc + w
}

proof fn lemma_body_lines_grow(b: Seq<Option<String>>)
    ensures
        body_lines(b) >= b.len(),
        forall|k: int| 0 <= k <= b.len() ==> body_lines(#[trigger] b.take(k)) <= body_lines(b),
    decreases b.len(),
{
    if b.len() > 0 {
        lemma_body_lines_grow(b.drop_last());
        crate::file_ops::lemma_nl_pieces_nonempty(text_or_empty(b.last()));
        lemma_bullet_lines_positive(crate::file_ops::nl_pieces(text_or_empty(b.last())));
        assert forall|k: int| 0 <= k <= b.len() implies body_lines(#[trigger] b.take(k)) <= body_lines(b) by {
            if k < b.len() {
                assert(b.take(k) =~= b.drop_last().take(k));
            } else {
                assert(b.take(k) =~= b);
            }
        }
    } else {
        assert(b.take(0) =~= b);
    }
}

/// Whether the bullets render in more than 9 lines.
fn dense(bullets: &Vec<Option<String>>) -> (r: bool)
    ensures
        r == (body_lines(bullets@) > 9),
{
    proof {
        lemma_body_lines_grow(bullets@);
    }
    let mut total: u128 = 0;
    for i in 0..bullets.len()
        invariant
            total == body_lines(bullets@.take(i as int)),
            total <= 9,
            forall|k: int| 0 <= k <= bullets@.len() ==> body_lines(#[trigger] bullets@.take(k)) <= body_lines(bullets@),
    {
        proof {
            assert(bullets@.take(i + 1).drop_last() =~= bullets@.take(i as int));
            assert(bullets@.take(i + 1).last() == bullets@[i as int]);
        }
        let n = match &bullets[i] {
            Some(t) => bullet_line_count(t.as_str()),
            None => {
                proof {
                    let e = Seq::<char>::empty();
                    assert(crate::file_ops::nl_pieces(e) =~= seq![e]);
                    assert(seq![e].drop_last() =~= Seq::<Seq<char>>::empty());
                    assert(seq![e].last() == e);
                    assert(units(e) == 0);
                    assert(wrapped(e) == 1);
                    assert(bullet_lines(Seq::<Seq<char>>::empty()) == 0);
                    assert(bullet_lines(seq![e]) == bullet_lines(seq![e].drop_last()) + wrapped(seq![e].last()));
                    assert(bullet_lines(seq![e]) == 1);
                }
                1
            },
        };
        proof {
            assert(n == bullet_lines(crate::file_ops::nl_pieces(text_or_empty(bullets@[i as int]))));
            assert(body_lines(bullets@.take(i + 1)) == total + n);
        }
        if n > 9 - total {
            proof {
                assert(body_lines(bullets@.take(i + 1)) > 9);
            }
            return true;
        }
        total = total + n;
    }
    proof {
        assert(bullets@.take(bullets@.len() as int) =~= bullets@);
    }
    false
}

fn crowded_chart(categories: &Vec<Option<String>>) -> (r: bool)
    ensures
        r == crowded(categories@),
{
    if categories.len() > 12 {
        return true;
    }
    for i in 0..categories.len()
        invariant
            forall|j: int| 0 <= j < i ==> units(text_or_empty(#[trigger] categories@[j])) <= 20,
    {
        let u = match &categories[i] {
            Some(t) => text_units(t.as_str()),
            None => {
                proof {
                    assert(units(Seq::<char>::empty()) == 0);
                }
                0
            },
        };
        if u > 20 {
            return true;
        }
    }
    false
}

/// Layout hints for a presentation: titles over 52 units, bodies over 9
/// rendered lines, and crowded chart labels, slide by slide.
pub fn layout_hints(slides: &Vec<SlideView>) -> (r: Vec<LayoutHint>)
    requires
        slides.len() < usize::MAX,
    ensures
        r@.map_values(|h: LayoutHint| h@) == all_hints(slides@),
{
    let mut out: Vec<LayoutHint> = Vec::new();
    for i in 0..slides.len()
        invariant
            slides.len() < usize::MAX,
            out@.map_values(|h: LayoutHint| h@) == all_hints(slides@.take(i as int)),
    {
        proof {
            assert(slides@.take(i + 1).drop_last() =~= slides@.take(i as int));
            assert(slides@.take(i + 1).last() == slides@[i as int]);
        }
        let slide = &slides[i];
        let number = i + 1;
        let ghost before = out@.map_values(|h: LayoutHint| h@);
        let title_units = match &slide.title {
            Some(t) => text_units(t.as_str()),
            None => {
                proof {
                    assert(units(Seq::<char>::empty()) == 0);
                }
                0
            },
        };
        let long_title = title_units > 52;
        if long_title {
            out.push(LayoutHint::LongTitle(number));
        }
        let ghost after_title = out@.map_values(|h: LayoutHint| h@);
        let dense_body = match &slide.bullets {
            Some(b) => dense(b),
            None => false,
        };
        if dense_body {
            out.push(LayoutHint::DenseBody(number));
        }
        let ghost after_body = out@.map_values(|h: LayoutHint| h@);
        let crowded_labels = match &slide.chart {
            Some(Some(c)) => crowded_chart(c),
            _ => false,
        };
        if crowded_labels {
            out.push(LayoutHint::CrowdedChart(number));
        }
        proof {
            let n = number as int;
            let t: Seq<(int, int)> = if long_title { seq![(0int, n)] } else { Seq::empty() };
            let b: Seq<(int, int)> = if dense_body { seq![(1int, n)] } else { Seq::empty() };
            let ch: Seq<(int, int)> = if crowded_labels { seq![(2int, n)] } else { Seq::empty() };
            assert(after_title =~= before + t);
            assert(after_body =~= before + t + b);
            assert(out@.map_values(|h: LayoutHint| h@) =~= before + t + b + ch);
            assert(slide_hints(slides@[i as int], (i + 1) as int) =~= t + b + ch);
        }
    }
    proof {
        assert(slides@.take(slides@.len() as int) =~= slides@);
    }
    out
}

/// The text of a layout hint.
pub fn hint_message(h: LayoutHint) -> (s: String)
    ensures
        s@ == match h {
            LayoutHint::LongTitle(n) => "Slide "@ + decimal(n as nat)
                + ": long title may wrap or overflow; inspect in PowerPoint"@,
            LayoutHint::DenseBody(n) => "Slide "@ + decimal(n as nat)
                + ": dense body text may overflow; split into more slides"@,
            LayoutHint::CrowdedChart(n) => "Slide "@ + decimal(n as nat)
                + ": chart labels may crowd; shorten labels or use fewer categories"@,
        },
{
    let mut s = String::new();
    s.append("Slide ");
    let n = match h {
        LayoutHint::LongTitle(n) => n,
        LayoutHint::DenseBody(n) => n,
        LayoutHint::CrowdedChart(n) => n,
    };
    push_decimal(&mut s, n as u64);
    match h {
        LayoutHint::LongTitle(_) => s.append(": long title may wrap or overflow; inspect in PowerPoint"),
        LayoutHint::DenseBody(_) => s.append(": dense body text may overflow; split into more slides"),
        LayoutHint::CrowdedChart(_) => s.append(": chart labels may crowd; shorten labels or use fewer categories"),
    }
    s
}

/// Office text, as characters: at most 32 000 bytes of UTF-8 and no
/// XML-forbidden character.
pub open spec fn text_ok(s: Seq<char>) -> bool {
    crate::context::utf8_len(s) <= 32_000 && forall|i: int| 0 <= i < s.len() ==> !xml_forbidden(#[trigger] s[i])
}

fn check_text(value: &String) -> (r: Result<(), Error>)
    ensures
        text_ok(value@) ==> r is Ok,
        !text_ok(value@) ==> (r matches Err(e) && e.status == 400 && e.message@
            == "Office text is too long or contains invalid XML characters"@),
{
    if utf8_length(value.as_str()) > 32_000 || has_forbidden(value.as_str()) {
        return Err(Error::new(400, "Office text is too long or contains invalid XML characters"));
    }
    Ok(())
}

/// A series of a chart: its name, how many values it has, and whether all
/// of them are finite numbers.
#[derive(Debug)]
pub struct SeriesView {
    pub name: String,
    pub values: usize,
    pub all_finite: bool,
}

/// A chart as its validation reads it.
#[derive(Debug)]
pub struct ChartView {
    pub kind: String,
    pub title: String,
    pub categories: Vec<String>,
    pub series: Vec<SeriesView>,
}

pub open spec fn text_message() -> Seq<char> {
    "Office text is too long or contains invalid XML characters"@
}

/// The error of the first series that fails, if one does: its name must
/// be Office text, and its values finite and one per category.
pub open spec fn series_error(ss: Seq<SeriesView>, categories: int) -> Option<Seq<char>>
    decreases ss.len(),
{
    if ss.len() == 0 {
        None
    } else {
        match series_error(ss.drop_last(), categories) {
            Some(m) => Some(m),
            None => {
                let last = ss.last();
                if !text_ok(last.name@) {
                    Some(text_message())
                } else if last.values != categories || !last.all_finite {
                    Some(invalid_message("Chart values must be finite and match categories"@))
                } else {
                    None
                }
            },
        }
    }
}

pub open spec fn count_message(label: Seq<char>, max: nat) -> Seq<char> {
    label + " must contain 1..="@ + decimal(max) + " items"@
}

/// The first rule a chart breaks, as the error message: its kind, title,
/// category and series counts, a pie's single series, its categories' text,
/// then its series.
pub open spec fn chart_error(c: ChartView) -> Option<Seq<char>> {
    let kind = c.kind@;
    if !(kind == "column"@ || kind == "bar"@ || kind == "line"@ || kind == "pie"@) {
        Some(invalid_message("Chart kind must be column, bar, line or pie"@))
    } else if !text_ok(c.title@) {
        Some(text_message())
    } else if c.categories.len() == 0 || c.categories.len() > 30 {
        Some(count_message("Chart categories"@, 30))
    } else if c.series.len() == 0 || c.series.len() > 6 {
        Some(count_message("Chart series"@, 6))
    } else if kind == "pie"@ && c.series.len() != 1 {
        Some(invalid_message("Pie charts require one series"@))
    } else if exists|i: int| 0 <= i < c.categories.len() && !text_ok(#[trigger] c.categories@[i]@) {
        Some(text_message())
    } else {
        series_error(c.series@, c.categories.len() as int)
    }
}

/// Validates a chart: every error is a 400 with the message that
/// `chart_error` gives.
pub fn check_chart(c: &ChartView) -> (r: Result<(), Error>)
    ensures
        chart_error(*c) is None ==> r is Ok,
        chart_error(*c) matches Some(m) ==> (r matches Err(e) && e.status == 400 && e.message@ == m),
{
    proof {
        reveal_strlit("pie");
    }
    let k = c.kind.as_str();
    let pie = crate::text::str_eq(k, "pie");
    if !(crate::text::str_eq(k, "column") || crate::text::str_eq(k, "bar") || crate::text::str_eq(k, "line") || pie) {
        return Err(invalid("Chart kind must be column, bar, line or pie"));
    }
    if let Err(e) = check_text(&c.title) {
        return Err(e);
    }
    if let Err(e) = bounded(c.categories.len(), 30, "Chart categories") {
        return Err(e);
    }
    if let Err(e) = bounded(c.series.len(), 6, "Chart series") {
        return Err(e);
    }
    if pie && c.series.len() != 1 {
        return Err(invalid("Pie charts require one series"));
    }
    let ghost rest = if exists|j: int| 0 <= j < c.categories.len() && !text_ok(#[trigger] c.categories@[j]@) {
        Some(text_message())
    } else {
        series_error(c.series@, c.categories.len() as int)
    };
    assert(chart_error(*c) == rest);
    for i in 0..c.categories.len()
        invariant
            chart_error(*c) == rest,
            rest == if exists|j: int| 0 <= j < c.categories.len() && !text_ok(#[trigger] c.categories@[j]@) {
                Some(text_message())
            } else {
                series_error(c.series@, c.categories.len() as int)
            },
            forall|j: int| 0 <= j < i ==> text_ok(#[trigger] c.categories@[j]@),
    {
        if let Err(e) = check_text(&c.categories[i]) {
            proof {
                assert(!text_ok(c.categories@[i as int]@));
            }
            return Err(e);
        }
    }
    let n = c.categories.len();
    for i in 0..c.series.len()
        invariant
            n == c.categories.len(),
            forall|j: int| 0 <= j < c.categories.len() ==> text_ok(#[trigger] c.categories@[j]@),
            series_error(c.series@.take(i as int), n as int) is None,
            chart_error(*c) == series_error(c.series@, n as int),
    {
        proof {
            assert(c.series@.take(i + 1).drop_last() =~= c.series@.take(i as int));
            assert(c.series@.take(i + 1).last() == c.series@[i as int]);
        }
        let sv = &c.series[i];
        if let Err(e) = check_text(&sv.name) {
            proof {
                lemma_series_error_prefix(c.series@, i + 1, n as int);
            }
            return Err(e);
        }
        if sv.values != n || !sv.all_finite {
            proof {
                lemma_series_error_prefix(c.series@, i + 1, n as int);
            }
            return Err(invalid("Chart values must be finite and match categories"));
        }
    }
    proof {
        assert(c.series@.take(c.series@.len() as int) =~= c.series@);
    }
    Ok(())
}

proof fn lemma_series_error_prefix(ss: Seq<SeriesView>, k: int, categories: int)
    requires
        0 <= k <= ss.len(),
        series_error(ss.take(k), categories) is Some,
    ensures
        series_error(ss, categories) == series_error(ss.take(k), categories),
    decreases ss.len() - k,
{
    if k < ss.len() {
        assert(ss.take(k + 1).drop_last() =~= ss.take(k));
        lemma_series_error_prefix(ss, k + 1, categories);
    } else {
        assert(ss.take(k) =~= ss);
    }
}

/// The kinds of document that can be generated.
#[derive(Clone, Copy, Debug, PartialEq, Eq, Structural)]
pub enum OfficeKind {
    Pptx,
    Docx,
    Xlsx,
}

/// The checks made on a generation request before the document is built:
/// the format must be the output file's extension (in ASCII lower case),
/// the serialized input at most 1 MB, and the format one of pptx, docx and
/// xlsx.
pub open spec fn spec_office_request(format: Seq<char>, extension: Option<Seq<char>>, input_bytes: int) -> Result<
    OfficeKind,
    (u16, Seq<char>),
> {
    if !(extension matches Some(x) && lower_equals(x, format)) {
        Err((400, "Office format must match output extension"@))
    } else if input_bytes > 1_000_000 {
        Err((413, "Office input exceeds 1 MB"@))
    } else if format == "pptx"@ {
        Ok(OfficeKind::Pptx)
    } else if format == "docx"@ {
        Ok(OfficeKind::Docx)
    } else if format == "xlsx"@ {
        Ok(OfficeKind::Xlsx)
    } else {
        Err((400, invalid_message("Unsupported Office format"@)))
    }
}

/// Checks a generation request; `extension` is that of the output path,
/// `input_bytes` the length of the serialized document.
pub fn check_office_request(format: &str, extension: Option<&str>, input_bytes: usize) -> (r: Result<OfficeKind, Error>)
    ensures
        match spec_office_request(format@, match extension {
            Some(x) => Some(x@),
            None => None,
        }, input_bytes as int) {
            Ok(k) => r == Ok::<OfficeKind, Error>(k),
            Err((status, message)) => r matches Err(e) && e.status == status && e.message@ == message,
        },
{
    let matches = match extension {
        Some(x) => {
            let c = chars_of(x);
            lower_eq(&c, format)
        },
        None => false,
    };
    if !matches {
        return Err(Error::new(400, "Office format must match output extension"));
    }
    if input_bytes > 1_000_000 {
        return Err(Error::new(413, "Office input exceeds 1 MB"));
    }
    if str_eq(format, "pptx") {
        Ok(OfficeKind::Pptx)
    } else if str_eq(format, "docx") {
        Ok(OfficeKind::Docx)
    } else if str_eq(format, "xlsx") {
        Ok(OfficeKind::Xlsx)
    } else {
        Err(invalid("Unsupported Office format"))
    }
}

/// A slide holds at most 30 bullets, and a chart slide none.
pub fn check_slide(bullets: usize, has_chart: bool) -> (r: Result<(), Error>)
    ensures
        bullets > 30 ==> (r matches Err(e) && e.status == 400 && e.message@ == invalid_message(
            "At most 30 bullets per slide"@,
        )),
        bullets <= 30 && has_chart && bullets > 0 ==> (r matches Err(e) && e.status == 400 && e.message@
            == invalid_message("Chart slides require empty bullets; use a separate text slide"@)),
        r is Ok <==> bullets <= 30 && !(has_chart && bullets > 0),
{
    if bullets > 30 {
        return Err(invalid("At most 30 bullets per slide"));
    }
    if has_chart && bullets > 0 {
        return Err(invalid("Chart slides require empty bullets; use a separate text slide"));
    }
    Ok(())
}

/// A generated document holds at most 20 MB.
pub fn check_office_output(bytes: usize) -> (r: Result<(), Error>)
    ensures
        r is Ok <==> bytes <= 20_000_000,
        r matches Err(e) ==> e.status == 413 && e.message@ == "Office output exceeds 20 MB"@,
{
    if bytes > 20_000_000 {
        return Err(Error::new(413, "Office output exceeds 20 MB"));
    }
    Ok(())
}

} // verus!
