//! Text-level rules of project file changes and line-range reads: what an
//! append or an edit produces, when an edit is ambiguous, and how a range
//! of numbered lines is shown.
use vstd::prelude::*;
use crate::error::{Error, missing, required};
use crate::text::{blank, cat, chars_of, decimal, push_char, push_decimal, str_eq};
use crate::context::{utf8_len, utf8_length};
use vstd::utf8::{valid_utf8, decode_utf8};
use crate::paths::{chars_eq, LibPath};
use crate::text::{lower_eq, lower_equals};

verus! {

/// The largest text file an edit may produce, in bytes.
pub open spec fn max_edit_bytes() -> nat {
    1_000_000
}

/// Whether `p` occurs in `s` at `i`.
pub open spec fn occurs_at(s: Seq<char>, p: Seq<char>, i: int) -> bool {
    0 <= i && i + p.len() <= s.len() && s.subrange(i, i + p.len()) == p
}

/// How many times a non-empty `p` occurs in `s`, counted left to right
/// without overlap, as `str::matches` finds them.
pub open spec fn match_count(s: Seq<char>, p: Seq<char>) -> nat
    decreases s.len(),
{
    if p.len() == 0 || s.len() == 0 {
        0
    } else if occurs_at(s, p, 0) {
        1 + match_count(s.skip(p.len() as int), p)
    } else {
        match_count(s.skip(1), p)
    }
}

/// `s` with every such occurrence of a non-empty `p` replaced by `n`, as
/// `str::replace` does.
pub open spec fn replaced(s: Seq<char>, p: Seq<char>, n: Seq<char>) -> Seq<char>
    decreases s.len(),
{
    if p.len() == 0 || s.len() == 0 {
        s
    } else if occurs_at(s, p, 0) {
        n + replaced(s.skip(p.len() as int), p, n)
    } else {
        seq![s[0]] + replaced(s.skip(1), p, n)
    }
}

/// A file change requested by a tool.
#[derive(Clone, Copy, Debug, PartialEq, Eq, Structural)]
pub enum Change {
    Append,
    Edit,
}

/// The text after a change, or the status and message of its refusal.
/// `before` is the current text, `None` where the file does not exist;
/// absent or non-string arguments are `None` (`old` is the empty text).
pub open spec fn spec_change(
    before: Option<Seq<char>>,
    change: Option<Change>,
    content: Option<Seq<char>>,
    old: Seq<char>,
    new: Option<Seq<char>>,
    replace_all: bool,
) -> Result<Seq<char>, (u16, Seq<char>)> {
    let text = match before {
        Some(t) => t,
        None => Seq::empty(),
    };
    let after: Result<Seq<char>, (u16, Seq<char>)> = match change {
        None => Err((400u16, "Unknown file change operation"@)),
        Some(Change::Append) => match content {
            None => Err((400u16, "content is required"@)),
            Some(c) => Ok(text + c),
        },
        Some(Change::Edit) => if before is None {
            Err((404u16, "Edit target does not exist"@))
        } else if blank(old) {
            Err((400u16, "old_text is required"@))
        } else if new is None {
            Err((400u16, "new_text is required"@))
        } else if match_count(text, old) == 0 {
            Err((409u16, "old_text was not found; read the current file before editing"@))
        } else if match_count(text, old) > 1 && !replace_all {
            Err(
                (409u16, "old_text matches multiple locations; include more context or set replace_all"@),
            )
        } else {
            Ok(replaced(text, old, new->0))
        },
    };
    match after {
        Ok(a) => if utf8_len(a) > max_edit_bytes() {
            Err((413u16, "File exceeds 1 MB edit limit"@))
        } else {
            Ok(a)
        },
        Err(e) => Err(e),
    }
}

/// The operation named by a tool, if it is a file change.
pub fn change_kind(operation: &str) -> (r: Option<Change>)
    ensures
        r == (if operation@ == "append_file"@ {
            Some(Change::Append)
        } else if operation@ == "edit_file"@ {
            Some(Change::Edit)
        } else {
            None
        }),
{
    if str_eq(operation, "append_file") {
        Some(Change::Append)
    } else if str_eq(operation, "edit_file") {
        Some(Change::Edit)
    } else {
        None
    }
}

pub(crate) fn occurs_here(s: &Vec<char>, p: &Vec<char>, i: usize) -> (r: bool)
    requires
        i <= s.len(),
    ensures
        r == occurs_at(s@, p@, i as int),
{
    if p.len() > s.len() - i {
        return false;
    }
    for j in 0..p.len()
        invariant
            i + p.len() <= s.len(),
            forall|k: int| 0 <= k < j ==> s@[i + k] == p@[k],
    {
        if s[i + j] != p[j] {
            proof {
                assert(s@.subrange(i as int, i + p.len())[j as int] == s@[i + j]);
            }
            return false;
        }
    }
    proof {
        assert(s@.subrange(i as int, i + p.len()) =~= p@);
    }
    true
}

proof fn lemma_occurs_shift(s: Seq<char>, p: Seq<char>, i: int)
    requires
        0 <= i <= s.len(),
    ensures
        occurs_at(s.skip(i), p, 0) == occurs_at(s, p, i),
{
    if occurs_at(s, p, i) {
        assert(s.skip(i).subrange(0, p.len() as int) =~= s.subrange(i, i + p.len()));
    }
    if occurs_at(s.skip(i), p, 0) {
        assert(s.skip(i).subrange(0, p.len() as int) =~= s.subrange(i, i + p.len()));
    }
}

/// Counts and replaces the occurrences of a non-empty pattern.
fn count_and_replace(s: &Vec<char>, p: &Vec<char>, n: &Vec<char>) -> (r: (usize, Vec<char>))
    requires
        p.len() > 0,
    ensures
        r.0 == match_count(s@, p@),
        r.1@ == replaced(s@, p@, n@),
{
    let mut i: usize = 0;
    let mut count: usize = 0;
    let mut out: Vec<char> = Vec::new();
    proof {
        assert(s@.skip(0) =~= s@);
        assert(out@ + replaced(s@, p@, n@) =~= replaced(s@, p@, n@));
    }
    while i < s.len()
        invariant
            i <= s.len(),
            p.len() > 0,
            count + match_count(s@.skip(i as int), p@) == match_count(s@, p@),
            count <= i,
            out@ + replaced(s@.skip(i as int), p@, n@) == replaced(s@, p@, n@),
        decreases s.len() - i,
    {
        let ghost rest = s@.skip(i as int);
        proof {
            lemma_occurs_shift(s@, p@, i as int);
        }
        if occurs_here(s, p, i) {
            proof {
                assert(rest.skip(p.len() as int) =~= s@.skip(i + p.len()));
            }
            let ghost base = out@;
            for k in 0..n.len()
                invariant
                    out@ == base + n@.take(k as int),
            {
                out.push(n[k]);
                proof {
                    assert(n@.take(k + 1) == n@.take(k as int).push(n@[k as int]));
                }
            }
            proof {
                assert(n@.take(n.len() as int) =~= n@);
                assert(base + replaced(rest, p@, n@) == base + (n@ + replaced(rest.skip(p.len() as int), p@, n@)));
                assert(base + (n@ + replaced(rest.skip(p.len() as int), p@, n@)) =~= (base + n@) + replaced(
                    rest.skip(p.len() as int),
                    p@,
                    n@,
                ));
            }
            i = i + p.len();
            count = count + 1;
        } else {
            proof {
                assert(rest.skip(1) =~= s@.skip(i + 1));
                assert(rest[0] == s@[i as int]);
            }
            let ghost base = out@;
            out.push(s[i]);
            proof {
                assert(base + replaced(rest, p@, n@) == base + (seq![rest[0]] + replaced(rest.skip(1), p@, n@)));
                assert(base + (seq![rest[0]] + replaced(rest.skip(1), p@, n@)) =~= base.push(s@[i as int])
                    + replaced(rest.skip(1), p@, n@));
            }
            i = i + 1;
        }
    }
    proof {
        assert(s@.skip(i as int).len() == 0);
    }
    (count, out)
}

pub open spec fn opt_view(o: Option<&str>) -> Option<Seq<char>> {
    match o {
        Some(s) => Some(s@),
        None => None,
    }
}

/// Applies an append or an edit to a file's text. `before` is `None` where
/// the file does not exist; `old` is empty where the argument is absent.
/// An edit needs exactly one occurrence of `old`, or `replace_all`.
pub fn change_text(
    before: Option<&str>,
    change: Option<Change>,
    content: Option<&str>,
    old: &str,
    new: Option<&str>,
    replace_all: bool,
) -> (r: Result<String, Error>)
    ensures
        match spec_change(opt_view(before), change, opt_view(content), old@, opt_view(new), replace_all) {
            Ok(a) => r matches Ok(s) && s@ == a,
            Err((status, message)) => r matches Err(e) && e.status == status && e.message@ == message,
        },
{
    let text = match before {
        Some(t) => t,
        None => "",
    };
    proof {
        reveal_strlit("");
    }
    let after = match change {
        None => {
            return Err(Error::new(400, "Unknown file change operation"));
        },
        Some(Change::Append) => match content {
            None => {
                return Err(Error::new(400, "content is required"));
            },
            Some(c) => cat(text, c),
        },
        Some(Change::Edit) => {
            if before.is_none() {
                return Err(Error::new(404, "Edit target does not exist"));
            }
            if crate::text::is_blank(old) {
                return Err(Error::new(400, "old_text is required"));
            }
            let new = match new {
                None => {
                    return Err(Error::new(400, "new_text is required"));
                },
                Some(n) => n,
            };
            let s = chars_of(text);
            let p = chars_of(old);
            let n = chars_of(new);
            proof {
                if p.len() == 0 {
                    assert(crate::text::blank(old@));
                }
            }
            let (count, out) = count_and_replace(&s, &p, &n);
            if count == 0 {
                return Err(Error::new(409, "old_text was not found; read the current file before editing"));
            }
            if count > 1 && !replace_all {
                return Err(
                    Error::new(
                        409,
                        "old_text matches multiple locations; include more context or set replace_all",
                    ),
                );
            }
            crate::text::string_from_chars(&out)
        },
    };
    if utf8_length(after.as_str()) > 1_000_000 {
        return Err(Error::new(413, "File exceeds 1 MB edit limit"));
    }
    Ok(after)
}

/// An edit of a snippet that occurs exactly once changes that snippet and
/// keeps the rest of the file.
pub proof fn law_unique_edit_is_local(s: Seq<char>, p: Seq<char>, n: Seq<char>, i: int)
    requires
        p.len() > 0,
        occurs_at(s, p, i),
        forall|j: int| 0 <= j < i ==> !occurs_at(s, p, j),
        match_count(s, p) == 1,
    ensures
        replaced(s, p, n) == s.take(i) + n + s.skip(i + p.len()),
    decreases i,
{
    if i == 0 {
        lemma_no_match_identity(s.skip(p.len() as int), p, n);
        assert(s.take(0) + n + s.skip(p.len() as int) =~= n + s.skip(p.len() as int));
    } else {
        assert(!occurs_at(s, p, 0));
        let t = s.skip(1);
        assert(occurs_at(t, p, i - 1)) by {
            assert(t.subrange(i - 1, i - 1 + p.len()) =~= s.subrange(i, i + p.len()));
        }
        assert forall|j: int| 0 <= j < i - 1 implies !occurs_at(t, p, j) by {
            if occurs_at(t, p, j) {
                assert(t.subrange(j, j + p.len()) =~= s.subrange(j + 1, j + 1 + p.len()));
                assert(occurs_at(s, p, j + 1));
            }
        }
        law_unique_edit_is_local(t, p, n, i - 1);
        assert(seq![s[0]] + (t.take(i - 1) + n + t.skip(i - 1 + p.len())) =~= s.take(i) + n + s.skip(
            i + p.len(),
        ));
    }
}

proof fn lemma_no_match_identity(s: Seq<char>, p: Seq<char>, n: Seq<char>)
    requires
        p.len() > 0,
        match_count(s, p) == 0,
    ensures
        replaced(s, p, n) == s,
    decreases s.len(),
{
    if s.len() > 0 {
        lemma_no_match_identity(s.skip(1), p, n);
        assert(seq![s[0]] + s.skip(1) =~= s);
    }
}

/// Splits `s` at every line feed; one more piece than line feeds.
pub open spec fn nl_pieces(s: Seq<char>) -> Seq<Seq<char>>
    decreases s.len(),
{
    if s.len() == 0 {
        seq![Seq::<char>::empty()]
    } else {
        let prev = nl_pieces(s.drop_last());
        if s.last() == '\n' {
            prev.push(Seq::<char>::empty())
        } else {
            prev.update(prev.len() - 1, prev.last().push(s.last()))
        }
    }
}

pub proof fn lemma_nl_pieces_nonempty(s: Seq<char>)
    ensures
        nl_pieces(s).len() >= 1,
    decreases s.len(),
{
    if s.len() > 0 {
        lemma_nl_pieces_nonempty(s.drop_last());
    }
}

/// A line that ended with a line feed loses a carriage return before it.
pub open spec fn strip_cr(line: Seq<char>) -> Seq<char> {
    if line.len() > 0 && line.last() == '\r' {
        line.drop_last()
    } else {
        line
    }
}

/// `str::lines`: the pieces between line feeds, each without a carriage
/// return before its line feed, and no final empty line.
pub open spec fn text_lines(s: Seq<char>) -> Seq<Seq<char>> {
    let pieces = nl_pieces(s);
    let k = pieces.len() - 1;
    let ended = pieces.take(k).map_values(|l: Seq<char>| strip_cr(l));
    if pieces[k].len() == 0 {
        ended
    } else {
        ended.push(pieces[k])
    }
}

/// Lines `from + 1 ..= to` (1-based), each as `"<number>: <line>"`, joined
/// by line feeds.
pub open spec fn numbered(lines: Seq<Seq<char>>, from: int, to: int) -> Seq<char>
    decreases to - from,
{
    if to <= from {
        Seq::empty()
    } else {
        let item = decimal(to as nat) + ": "@ + lines[to - 1];
        if to - 1 == from {
            item
        } else {
            numbered(lines, from, to - 1) + "\n"@ + item
        }
    }
}

/// The validated 1-based line range of a read: `start` defaults to 1 and
/// `end` to 399 lines later; at most 10 000 lines.
pub open spec fn spec_line_range(start: Option<usize>, end: Option<usize>) -> Option<(usize, usize)> {
    let s: int = match start {
        Some(v) => v as int,
        None => 1,
    };
    let e: int = match end {
        Some(v) => v as int,
        None => if s + 399 > usize::MAX {
            usize::MAX as int
        } else {
            s + 399
        },
    };
    if s == 0 || e < s || e - s >= 10_000 {
        None
    } else {
        Some((s as usize, e as usize))
    }
}

/// Validates the requested line range.
pub fn line_range(start: Option<usize>, end: Option<usize>) -> (r: Result<(usize, usize), Error>)
    ensures
        match spec_line_range(start, end) {
            Some(range) => r == Ok::<(usize, usize), Error>(range),
            None => r matches Err(e) && e.status == 400 && e.message@
                == "Use a 1-based line range containing at most 10000 lines"@,
        },
{
    let s = match start {
        Some(v) => v,
        None => 1,
    };
    let e = match end {
        Some(v) => v,
        None => s.saturating_add(399),
    };
    if s == 0 || e < s || e - s >= 10_000 {
        return Err(Error::new(400, "Use a 1-based line range containing at most 10000 lines"));
    }
    Ok((s, e))
}

/// A numbered range of a text file's lines.
#[derive(Debug)]
pub struct LineRange {
    pub start_line: usize,
    pub end_line: usize,
    pub total_lines: usize,
    pub content: String,
    pub next_start_line: Option<usize>,
}

/// The lines of a text, as `str::lines` splits them.
pub fn lines_of(text: &str) -> (lines: Vec<Vec<char>>)
    ensures
        lines@.map_values(|l: Vec<char>| l@) == text_lines(text@),
{
    split_lines(text)
}

fn split_lines(text: &str) -> (lines: Vec<Vec<char>>)
    ensures
        lines@.map_values(|l: Vec<char>| l@) == text_lines(text@),
{
    let c = chars_of(text);
    let mut lines: Vec<Vec<char>> = Vec::new();
    let mut cur: Vec<char> = Vec::new();
    let ghost mut raw: Seq<Seq<char>> = Seq::empty();
    for i in 0..c.len()
        invariant
            c@ == text@,
            nl_pieces(text@.take(i as int)) == raw.push(cur@),
            lines@.map_values(|l: Vec<char>| l@) == raw.map_values(|l: Seq<char>| strip_cr(l)),
    {
        proof {
            assert(text@.take(i + 1).drop_last() =~= text@.take(i as int));
            assert(text@.take(i + 1).last() == c@[i as int]);
        }
        if c[i] == '\n' {
            let ghost piece = cur@;
            let mut line = cur;
            if line.len() > 0 && line[line.len() - 1] == '\r' {
                line.pop();
            }
            proof {
                assert(line@ == strip_cr(piece)) by {
                    if piece.len() > 0 && piece.last() == '\r' {
                        assert(line@ =~= piece.drop_last());
                    }
                }
            }
            let ghost before = lines@;
            lines.push(line);
            cur = Vec::new();
            proof {
                assert(lines@.map_values(|l: Vec<char>| l@) =~= before.map_values(|l: Vec<char>| l@).push(
                    strip_cr(piece),
                ));
                raw = raw.push(piece);
                assert(raw.map_values(|l: Seq<char>| strip_cr(l)) =~= raw.drop_last().map_values(
                    |l: Seq<char>| strip_cr(l),
                ).push(strip_cr(piece)));
                assert(nl_pieces(text@.take(i + 1)) =~= raw.push(cur@));
            }
        } else {
            let ghost before = cur@;
            cur.push(c[i]);
            proof {
                lemma_nl_pieces_nonempty(text@.take(i as int));
                assert(nl_pieces(text@.take(i + 1)) =~= raw.push(cur@));
            }
        }
    }
    proof {
        assert(text@.take(c.len() as int) =~= text@);
        let pieces = nl_pieces(text@);
        assert(pieces.take(pieces.len() - 1) =~= raw);
    }
    if cur.len() > 0 {
        let ghost before = lines@;
        lines.push(cur);
        proof {
            assert(lines@.map_values(|l: Vec<char>| l@) =~= before.map_values(|l: Vec<char>| l@).push(
                lines@.last()@,
            ));
        }
    }
    lines
}

pub open spec fn has_nul(s: Seq<char>) -> bool {
    exists|i: int| 0 <= i < s.len() && s[i] == '\0'
}

/// The requested lines of a text, numbered; `start` may be one past the
/// last line, which gives no lines.
pub open spec fn spec_render(text: Seq<char>, start: usize, end: usize) -> Result<
    (Seq<char>, int, int, Option<int>),
    (u16, Seq<char>),
> {
    let lines = text_lines(text);
    let n = lines.len() as int;
    let actual_end = if end < n {
        end as int
    } else {
        n
    };
    if has_nul(text) {
        Err((400u16, "File contains binary data"@))
    } else if start > n + 1 {
        Err((400u16, "start_line is beyond the "@ + decimal(n as nat) + " lines in the file"@))
    } else {
        Ok(
            (
                numbered(lines, start - 1, actual_end),
                actual_end,
                n,
                if actual_end < n {
                    Some(actual_end + 1)
                } else {
                    None
                },
            ),
        )
    }
}

pub(crate) fn contains_nul(text: &str) -> (r: bool)
    ensures
        r == has_nul(text@),
{
    for c in it: text.chars()
        invariant
            it.seq() == text@,
            forall|j: int| 0 <= j < it.index() ==> text@[j] != '\0',
    {
        if c == '\0' {
            proof {
                assert(text@[it.index() as int] == '\0');
            }
            return true;
        }
    }
    false
}

/// Numbers and joins the lines of a range of a UTF-8 text; binary text is
/// refused.
pub fn render_lines(text: &str, start: usize, end: usize) -> (r: Result<LineRange, Error>)
    requires
        1 <= start <= end,
    ensures
        match spec_render(text@, start, end) {
            Ok((content, last, total, next)) => r matches Ok(range) && range.content@ == content
                && range.start_line == start && range.end_line == last && range.total_lines == total
                && match next {
                    Some(k) => range.next_start_line == Some(k as usize),
                    None => range.next_start_line is None,
                },
            Err((status, message)) => r matches Err(e) && e.status == status && e.message@ == message,
        },
{
    if contains_nul(text) {
        return Err(Error::new(400, "File contains binary data"));
    }
    let lines = split_lines(text);
    let ghost ls = text_lines(text@);
    let n = lines.len();
    proof {
        assert(ls.len() == n);
    }
    if n < start - 1 {
        let mut message = "start_line is beyond the ".to_owned();
        push_decimal(&mut message, n as u64);
        message.append(" lines in the file");
        return Err(Error { status: 400, message });
    }
    let actual_end = if end < n {
        end
    } else {
        n
    };
    let mut content = String::new();
    let mut i = start - 1;
    while i < actual_end
        invariant
            1 <= start,
            start - 1 <= i <= actual_end <= n,
            n == lines.len(),
            ls == text_lines(text@),
            ls == lines@.map_values(|l: Vec<char>| l@),
            content@ == numbered(ls, start - 1, i as int),
        decreases actual_end - i,
    {
        if i > start - 1 {
            content.append("\n");
        }
        push_decimal(&mut content, (i + 1) as u64);
        content.append(": ");
        let line = &lines[i];
        proof {
            assert(ls[i as int] == line@);
        }
        let ghost base = content@;
        for j in 0..line.len()
            invariant
                content@ == base + line@.take(j as int),
        {
            push_char(&mut content, line[j]);
            proof {
                assert(line@.take(j + 1) == line@.take(j as int).push(line@[j as int]));
            }
        }
        proof {
            assert(line@.take(line.len() as int) =~= line@);
            if i == start - 1 {
                assert(content@ =~= numbered(ls, start - 1, i + 1));
            } else {
                assert(content@ =~= numbered(ls, start - 1, i + 1));
            }
        }
        i = i + 1;
    }
    let next_start_line = if actual_end < n {
        Some(actual_end + 1)
    } else {
        None
    };
    Ok(LineRange { start_line: start, end_line: actual_end, total_lines: n, content, next_start_line })
}

/// `String::from_utf8`: the decoded text when the bytes are valid UTF-8.
#[verifier::external_body]
pub(crate) fn utf8_string(bytes: Vec<u8>) -> (r: Option<String>)
    ensures
        r is Some <==> valid_utf8(bytes@),
        r matches Some(s) ==> s@ == decode_utf8(bytes@),
{
    String::from_utf8(bytes).ok()
}

/// The text of a file read for a line range: at most 16 MB of UTF-8.
pub fn read_text(bytes: Vec<u8>) -> (r: Result<String, Error>)
    ensures
        bytes@.len() > 16_000_000 ==> (r matches Err(e) && e.status == 413),
        bytes@.len() <= 16_000_000 && !valid_utf8(bytes@) ==> (r matches Err(e) && e.status == 400
            && e.message@ == "File is not UTF-8 text"@),
        bytes@.len() <= 16_000_000 && valid_utf8(bytes@) ==> (r matches Ok(s) && s@ == decode_utf8(bytes@)),
{
    if bytes.len() > 16_000_000 {
        return Err(
            Error::new(
                413,
                "Text file exceeds the 16 MB read limit; narrow it with a search or shell command",
            ),
        );
    }
    match utf8_string(bytes) {
        Some(s) => Ok(s),
        None => Err(Error::new(400, "File is not UTF-8 text")),
    }
}

/// The current text of a file to change: empty where it does not exist.
pub fn edit_source(before: Option<Vec<u8>>) -> (r: Result<Option<String>, Error>)
    ensures
        match before {
            None => r matches Ok(None),
            Some(b) => if valid_utf8(b@) {
                r matches Ok(Some(s)) && s@ == decode_utf8(b@)
            } else {
                r matches Err(e) && e.status == 400 && e.message@ == "File is not UTF-8 text"@
            },
        },
{
    match before {
        None => Ok(None),
        Some(b) => match utf8_string(b) {
            Some(s) => Ok(Some(s)),
            None => Err(Error::new(400, "File is not UTF-8 text")),
        },
    }
}

/// A component that is not an ordinary name: `.` or `..`.
pub open spec fn dot_part(part: Seq<char>) -> bool {
    part == seq!['.'] || part == seq!['.', '.']
}

/// A component a written project file may not have: `.`, `..` or Git
/// metadata.
pub open spec fn unwritable_part(part: Seq<char>) -> bool {
    dot_part(part) || lower_equals(part, ".git"@)
}

/// The components of `target` relative to `project`: the rest after the
/// project where `target` is absolute, else `target` itself.
pub open spec fn relative_parts(project: LibPath, target: LibPath) -> Seq<Seq<char>> {
    if target.absolute {
        target.spec_parts().skip(project.spec_parts().len() as int)
    } else {
        target.spec_parts()
    }
}

fn is_dot_part(part: &Vec<char>) -> (r: bool)
    ensures
        r == dot_part(part@),
{
    if part.len() == 1 && part[0] == '.' {
        proof {
            assert(part@ =~= seq!['.']);
        }
        return true;
    }
    if part.len() == 2 && part[0] == '.' && part[1] == '.' {
        proof {
            assert(part@ =~= seq!['.', '.']);
        }
        return true;
    }
    proof {
        if part@.len() == 1 {
            assert(part@ != seq!['.']);
        }
    }
    false
}

/// The relative path of `target` in `project`; `Err` with the message
/// where an absolute target lies outside the project.
fn relative_in(project: &LibPath, target: &LibPath, outside: &str) -> (r: Result<LibPath, Error>)
    ensures
        target.absolute && !target.spec_starts_with(project) ==> (r matches Err(e) && e.status == 403
            && e.message@ == outside@),
        !(target.absolute && !target.spec_starts_with(project)) ==> (r matches Ok(p) && !p.absolute
            && p.spec_parts() == relative_parts(*project, *target)),
{
    if target.absolute {
        match target.strip_prefix(project) {
            Some(p) => Ok(p),
            None => Err(Error::new(403, outside)),
        }
    } else {
        let parts = crate::paths::copy_parts(&target.parts, target.parts.len());
        proof {
            assert(target.spec_parts().take(target.parts.len() as int) =~= target.spec_parts());
        }
        Ok(LibPath { absolute: false, parts })
    }
}

/// The file a text write goes to, relative to the project: at most 1 MB
/// of content; an absolute target inside the project; a path of ordinary
/// components that names a file outside Git metadata.
pub fn write_target(project: &LibPath, target: &LibPath, content_bytes: usize) -> (r: Result<LibPath, Error>)
    ensures
        content_bytes > 1_000_000 ==> (r matches Err(e) && e.status == 413 && e.message@
            == "File exceeds 1 MB edit limit"@),
        content_bytes <= 1_000_000 && target.absolute && !target.spec_starts_with(project) ==> (r matches Err(e)
            && e.status == 403 && e.message@ == "File writes are limited to the conversation project"@),
        content_bytes <= 1_000_000 && !(target.absolute && !target.spec_starts_with(project)) ==> ({
            let rel = relative_parts(*project, *target);
            if rel.len() == 0 || exists|i: int| 0 <= i < rel.len() && unwritable_part(#[trigger] rel[i]) {
                r matches Err(e) && e.status == 400 && e.message@ == "Expected a project file outside Git metadata"@
            } else {
                r matches Ok(p) && !p.absolute && p.spec_parts() == rel
            }
        }),
{
    if content_bytes > 1_000_000 {
        return Err(Error::new(413, "File exceeds 1 MB edit limit"));
    }
    let rel = match relative_in(project, target, "File writes are limited to the conversation project") {
        Ok(p) => p,
        Err(e) => {
            return Err(e);
        },
    };
    if rel.parts.len() == 0 {
        return Err(Error::new(400, "Expected a project file outside Git metadata"));
    }
    for i in 0..rel.parts.len()
        invariant
            content_bytes <= 1_000_000,
            !(target.absolute && !target.spec_starts_with(project)),
            !rel.absolute,
            rel.spec_parts() == relative_parts(*project, *target),
            rel.spec_parts().len() > 0,
            forall|j: int| 0 <= j < i ==> !unwritable_part(#[trigger] rel.spec_parts()[j]),
    {
        proof {
            crate::paths::lemma_parts_view_index(rel.parts@, i as int);
        }
        if is_dot_part(&rel.parts[i]) || lower_eq(&rel.parts[i], ".git") {
            proof {
                assert(unwritable_part(rel.spec_parts()[i as int]));
            }
            return Err(Error::new(400, "Expected a project file outside Git metadata"));
        }
    }
    Ok(rel)
}

/// The template an Office document is filled from, relative to the
/// project: an absolute path must lie inside the project, and the path may
/// hold only ordinary components and nothing sensitive.
pub fn template_target(project: &LibPath, target: &LibPath) -> (r: Result<LibPath, Error>)
    ensures
        target.absolute && !target.spec_starts_with(project) ==> (r matches Err(e) && e.status == 403 && e.message@
            == "Template must be inside the project"@),
        !(target.absolute && !target.spec_starts_with(project)) ==> ({
            let rel = relative_parts(*project, *target);
            if (exists|i: int| 0 <= i < rel.len() && dot_part(#[trigger] rel[i])) || crate::approval::spec_sensitive(rel) {
                r matches Err(e) && e.status == 403 && e.message@ == "Template must be an ordinary project file"@
            } else {
                r matches Ok(p) && !p.absolute && p.spec_parts() == rel
            }
        }),
{
    let rel = match relative_in(project, target, "Template must be inside the project") {
        Ok(p) => p,
        Err(e) => {
            return Err(e);
        },
    };
    for i in 0..rel.parts.len()
        invariant
            !(target.absolute && !target.spec_starts_with(project)),
            !rel.absolute,
            rel.spec_parts() == relative_parts(*project, *target),
            forall|j: int| 0 <= j < i ==> !dot_part(#[trigger] rel.spec_parts()[j]),
    {
        proof {
            crate::paths::lemma_parts_view_index(rel.parts@, i as int);
        }
        if is_dot_part(&rel.parts[i]) {
            proof {
                assert(dot_part(rel.spec_parts()[i as int]));
            }
            return Err(Error::new(403, "Template must be an ordinary project file"));
        }
    }
    if crate::approval::sensitive(&rel) {
        return Err(Error::new(403, "Template must be an ordinary project file"));
    }
    Ok(rel)
}

/// What a save expects the file to hold: nothing (`null`), this text, or
/// a value that no file content equals.
#[derive(Debug)]
pub enum Expected {
    Absent,
    Text(String),
    Other,
}

/// Checks that a file still holds what the save expects; `before` is its
/// current content, `None` where it does not exist. With no expectation
/// nothing is checked.
pub fn check_expected(before: &Option<Vec<u8>>, expected: &Option<Expected>) -> (r: Result<(), Error>)
    ensures
        expected is None ==> r is Ok,
        expected is Some && (before matches Some(b) && !valid_utf8(b@)) ==> (r matches Err(e) && e.status == 400
            && e.message@ == "File is not UTF-8 text"@),
        expected matches Some(x) ==> (!(before matches Some(b) && !valid_utf8(b@)) ==> ({
            let same = match (before, x) {
                (None, Expected::Absent) => true,
                (Some(b), Expected::Text(t)) => decode_utf8(b@) == t@,
                _ => false,
            };
            &&& same ==> r is Ok
            &&& !same ==> (r matches Err(e) && e.status == 409 && e.message@
                == "File changed; read it again before saving"@)
        })),
{
    let x = match expected {
        None => {
            return Ok(());
        },
        Some(x) => x,
    };
    let same = match before {
        None => match x {
            Expected::Absent => true,
            _ => false,
        },
        Some(b) => {
            let text = match utf8_string(copy_bytes(b)) {
                Some(t) => t,
                None => {
                    return Err(Error::new(400, "File is not UTF-8 text"));
                },
            };
            match x {
                Expected::Text(t) => crate::text::str_eq(text.as_str(), t.as_str()),
                _ => false,
            }
        },
    };
    if !same {
        return Err(Error::new(409, "File changed; read it again before saving"));
    }
    Ok(())
}

fn copy_bytes(b: &Vec<u8>) -> (r: Vec<u8>)
    ensures
        r@ == b@,
{
    let mut r: Vec<u8> = Vec::new();
    for i in 0..b.len()
        invariant
            r@ == b@.take(i as int),
    {
        r.push(b[i]);
        proof {
            assert(b@.take(i + 1) == b@.take(i as int).push(b@[i as int]));
        }
    }
    proof {
        assert(b@.take(b@.len() as int) =~= b@);
    }
    r
}

/// Whether a file still holds what it held when a write was prepared.
pub fn unchanged(before: &Option<Vec<u8>>, now: &Option<Vec<u8>>) -> (r: bool)
    ensures
        r == match (before, now) {
            (None, None) => true,
            (Some(a), Some(b)) => a@ == b@,
            _ => false,
        },
{
    match (before, now) {
        (None, None) => true,
        (Some(a), Some(b)) => {
            if a.len() != b.len() {
                return false;
            }
            for i in 0..a.len()
                invariant
                    *before == Some(*a),
                    *now == Some(*b),
                    a.len() == b.len(),
                    forall|j: int| 0 <= j < i ==> a@[j] == b@[j],
            {
                if a[i] != b[i] {
                    return false;
                }
            }
            proof {
                assert(a@ =~= b@);
            }
            true
        },
        (Some(_), None) => false,
        (None, Some(_)) => false,
    }
}

/// An Office artifact: at most 20 MB, and only ever a new file.
pub fn check_artifact(content_bytes: usize, exists: bool) -> (r: Result<(), Error>)
    ensures
        content_bytes > 20_000_000 ==> (r matches Err(e) && e.status == 413 && e.message@
            == "Office artifact exceeds 20 MB"@),
        content_bytes <= 20_000_000 && exists ==> (r matches Err(e) && e.status == 409 && e.message@
            == "Office output already exists; choose a new file name"@),
        content_bytes <= 20_000_000 && !exists ==> r is Ok,
{
    if content_bytes > 20_000_000 {
        return Err(Error::new(413, "Office artifact exceeds 20 MB"));
    }
    if exists {
        return Err(Error::new(409, "Office output already exists; choose a new file name"));
    }
    Ok(())
}

/// Appending content to a file's text keeps the old text as the result's
/// prefix and puts the content after it; the append succeeds unless the
/// result exceeds the edit limit, and it never depends on the edit arguments.
pub proof fn law_append_adds_content_at_the_end(
    before: Option<Seq<char>>,
    c: Seq<char>,
    old: Seq<char>,
    new: Option<Seq<char>>,
    replace_all: bool,
)
    ensures
        spec_change(before, Some(Change::Append), Some(c), old, new, replace_all) matches Ok(a) ==> ({
            let t = match before {
                Some(t) => t,
                None => Seq::<char>::empty(),
            };
            &&& a.len() == t.len() + c.len()
            &&& a.subrange(0, t.len() as int) == t
            &&& a.subrange(t.len() as int, a.len() as int) == c
        }),
        spec_change(before, Some(Change::Append), Some(c), old, new, replace_all) matches Err((status, _)) ==> status
            == 413,
{
    let t = match before {
        Some(t) => t,
        None => Seq::<char>::empty(),
    };
    assert((t + c).subrange(0, t.len() as int) =~= t);
    assert((t + c).subrange(t.len() as int, (t + c).len() as int) =~= c);
}

} // verus!
