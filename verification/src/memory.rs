//! Memory notes: their names, and the literal keyword search over them.
use vstd::prelude::*;
use crate::cloud_memory::{occurs_anywhere, ws_pieces};
use crate::computer::{contains_text, lowercase, unicode_lowercase};
use crate::context::{utf8_len, utf8_length};
use crate::error::Error;
use crate::file_ops::{lines_of, text_lines, utf8_string};
use vstd::utf8::{valid_utf8, decode_utf8};
use crate::file_search::SearchPage;
use crate::paths::segments;
use crate::text::{chars_of, lower_equals, lower_eq};

verus! {

/// `char::is_control`: the Unicode control characters (category Cc).
pub open spec fn is_control(c: char) -> bool {
    (c as u32) <= 0x1f || (0x7f <= (c as u32) && (c as u32) <= 0x9f)
}

/// A path segment a note name may not have.
pub open spec fn bad_segment(s: Seq<char>) -> bool {
    s.len() == 0 || s == seq!['.'] || s == seq!['.', '.'] || lower_equals(s, ".git"@)
}

/// A relative Markdown note path: at most 240 bytes, ending in `.md`, no
/// backslash, colon or control character, and no empty, `.`, `..` or
/// `.git` segment.
pub open spec fn spec_valid_note(name: &str) -> bool {
    let s = name@;
    &&& name.len() <= 240
    &&& s.len() >= 3 && s.skip(s.len() - 3) == ".md"@
    &&& forall|i: int| 0 <= i < s.len() ==> #[trigger] s[i] != '\\' && s[i] != ':' && !is_control(s[i])
    &&& forall|k: int| 0 <= k < segments(s).len() ==> !bad_segment(#[trigger] segments(s)[k])
}

fn segment_ok(seg: &Vec<char>) -> (r: bool)
    ensures
        r == !bad_segment(seg@),
{
    if seg.len() == 0 {
        return false;
    }
    if seg.len() == 1 && seg[0] == '.' {
        proof {
            assert(seg@ =~= seq!['.']);
        }
        return false;
    }
    if seg.len() == 2 && seg[0] == '.' && seg[1] == '.' {
        proof {
            assert(seg@ =~= seq!['.', '.']);
        }
        return false;
    }
    !lower_eq(seg, ".git")
}

/// Rejects a note name that is not a relative Markdown path.
pub fn valid_note(name: &str) -> (r: Result<(), Error>)
    ensures
        spec_valid_note(name) ==> r is Ok,
        !spec_valid_note(name) ==> (r matches Err(e) && e.status == 400 && e.message@
            == "Expected a relative Markdown note path"@),
{
    proof {
        reveal_strlit(".md");
    }
    let c = chars_of(name);
    let n = c.len();
    let ok_len = name.len() <= 240 && n >= 3 && c[n - 3] == '.' && c[n - 2] == 'm' && c[n - 1] == 'd';
    proof {
        if n >= 3 {
            assert(c@.skip(n - 3) =~= seq![c@[n - 3], c@[n - 2], c@[n - 1]]);
            assert(".md"@ =~= seq!['.', 'm', 'd']);
        }
    }
    if !ok_len {
        return Err(Error::new(400, "Expected a relative Markdown note path"));
    }
    let mut cur: Vec<char> = Vec::new();
    let ghost mut done: Seq<Seq<char>> = Seq::empty();
    for i in 0..n
        invariant
            c@ == name@,
            n == c.len(),
            name.len() <= 240,
            name@.len() >= 3 && name@.skip(name@.len() - 3) == ".md"@,
            segments(name@.take(i as int)) == done.push(cur@),
            forall|j: int| 0 <= j < i ==> #[trigger] c@[j] != '\\' && c@[j] != ':' && !is_control(c@[j]),
            forall|k: int| 0 <= k < done.len() ==> !bad_segment(#[trigger] done[k]),
    {
        proof {
            assert(name@.take(i + 1).drop_last() =~= name@.take(i as int));
            assert(name@.take(i + 1).last() == c@[i as int]);
        }
        let ch = c[i];
        let code = ch as u32;
        if ch == '\\' || ch == ':' || code <= 0x1f || (0x7f <= code && code <= 0x9f) {
            proof {
                assert(name@[i as int] == ch);
            }
            return Err(Error::new(400, "Expected a relative Markdown note path"));
        }
        if ch == '/' {
            if !segment_ok(&cur) {
                proof {
                    lemma_segments_prefix_kept(name@, i + 1, done.len() as int);
                    assert(segments(name@.take(i + 1)) =~= done.push(cur@).push(Seq::empty()));
                    assert(segments(name@)[done.len() as int] == cur@);
                    assert(bad_segment(segments(name@)[done.len() as int]));
                }
                return Err(Error::new(400, "Expected a relative Markdown note path"));
            }
            proof {
                done = done.push(cur@);
            }
            cur = Vec::new();
            proof {
                assert(segments(name@.take(i + 1)) =~= done.push(cur@));
            }
        } else {
            cur.push(ch);
            proof {
                crate::paths::lemma_segments_nonempty(name@.take(i as int));
                assert(segments(name@.take(i + 1)) =~= done.push(cur@));
            }
        }
    }
    proof {
        assert(name@.take(n as int) =~= name@);
    }
    proof {
        assert(segments(name@) == done.push(cur@));
    }
    if !segment_ok(&cur) {
        proof {
            assert(bad_segment(segments(name@)[done.len() as int]));
        }
        return Err(Error::new(400, "Expected a relative Markdown note path"));
    }
    proof {
        assert forall|j: int| 0 <= j < name@.len() implies #[trigger] name@[j] != '\\' && name@[j] != ':'
            && !is_control(name@[j]) by {
            assert(c@[j] == name@[j]);
        }
    }
    Ok(())
}

/// The segments of a prefix are kept by the whole text, except that the
/// last one may grow.
proof fn lemma_segments_prefix_kept(s: Seq<char>, i: int, k: int)
    requires
        0 <= i <= s.len(),
        0 <= k < segments(s.take(i)).len() - 1,
    ensures
        segments(s)[k] == segments(s.take(i))[k],
        segments(s).len() >= segments(s.take(i)).len(),
    decreases s.len() - i,
{
    if i < s.len() {
        assert(s.take(i + 1).drop_last() =~= s.take(i));
        crate::paths::lemma_segments_nonempty(s.take(i));
        let prev = segments(s.take(i));
        let next = segments(s.take(i + 1));
        assert(next.len() >= prev.len());
        assert(next[k] == prev[k]);
        lemma_segments_prefix_kept(s, i + 1, k);
    } else {
        assert(s.take(i) =~= s);
    }
}

/// The lower-case terms of the non-empty pieces.
pub open spec fn terms_of(pieces: Seq<Seq<char>>) -> Seq<Seq<char>>
    decreases pieces.len(),
{
    if pieces.len() == 0 {
        Seq::empty()
    } else {
        let t = terms_of(pieces.drop_last());
        if pieces.last().len() > 0 {
            t.push(unicode_lowercase(pieces.last()))
        } else {
            t
        }
    }
}

/// The terms of a query: its white-space separated words, each in lower
/// case.
pub open spec fn query_terms(query: Seq<char>) -> Seq<Seq<char>> {
    terms_of(ws_pieces(query))
}

/// Splits a memory query into its terms: at most 4096 bytes, and at least
/// one word.
pub fn note_query(query: &str) -> (r: Result<Vec<String>, Error>)
    ensures
        utf8_len(query@) > 4096 ==> (r matches Err(e) && e.status == 400 && e.message@
            == "Memory query exceeds 4096 bytes"@),
        utf8_len(query@) <= 4096 && query_terms(query@).len() == 0 ==> (r matches Err(e) && e.status == 400
            && e.message@ == "Memory query is empty"@),
        utf8_len(query@) <= 4096 && query_terms(query@).len() > 0 ==> (r matches Ok(t) && t@.map_values(
            |s: String| s@,
        ) == query_terms(query@)),
{
    if utf8_length(query) > 4096 {
        return Err(Error::new(400, "Memory query exceeds 4096 bytes"));
    }
    let qc = chars_of(query);
    let ghost qs = query@;
    let mut terms: Vec<String> = Vec::new();
    let mut cur: Vec<char> = Vec::new();
    let ghost mut done: Seq<Seq<char>> = Seq::empty();
    for i in 0..qc.len()
        invariant
            qc@ == qs,
            qs == query@,
            ws_pieces(qs.take(i as int)) == done.push(cur@),
            terms@.map_values(|s: String| s@) == terms_of(done),
    {
        proof {
            assert(qs.take(i + 1).drop_last() =~= qs.take(i as int));
            assert(qs.take(i + 1).last() == qc@[i as int]);
        }
        let c = qc[i];
        if crate::text::white_space(c) {
            if cur.len() > 0 {
                let word = crate::text::string_from_chars(&cur);
                let ghost before = terms@;
                terms.push(lowercase(word.as_str()));
                proof {
                    assert(terms@.map_values(|s: String| s@) =~= before.map_values(|s: String| s@).push(
                        unicode_lowercase(cur@),
                    ));
                }
            }
            proof {
                assert(done.push(cur@).drop_last() =~= done);
                done = done.push(cur@);
            }
            cur = Vec::new();
            proof {
                assert(ws_pieces(qs.take(i + 1)) =~= done.push(cur@));
            }
        } else {
            cur.push(c);
            proof {
                assert(ws_pieces(qs.take(i + 1)) =~= done.push(cur@));
            }
        }
    }
    proof {
        assert(qs.take(qc.len() as int) =~= qs);
        assert(done.push(cur@).drop_last() =~= done);
    }
    if cur.len() > 0 {
        let word = crate::text::string_from_chars(&cur);
        let ghost before = terms@;
        terms.push(lowercase(word.as_str()));
        proof {
            assert(terms@.map_values(|s: String| s@) =~= before.map_values(|s: String| s@).push(
                unicode_lowercase(cur@),
            ));
        }
    }
    if terms.len() == 0 {
        return Err(Error::new(400, "Memory query is empty"));
    }
    Ok(terms)
}

/// The paging of a memory search: `limit` defaults to 20 and is clamped to
/// 1..=100.
pub fn note_page(offset: Option<u64>, limit: Option<u64>) -> (p: SearchPage)
    ensures
        p.offset == offset.unwrap_or(0) as usize,
        p.limit == ({
            let l = limit.unwrap_or(20);
            if l < 1 {
                1
            } else if l > 100 {
                100
            } else {
                l
            }
        }),
{
    let l = match limit {
        Some(l) => l,
        None => 20,
    };
    let limit = if l < 1 {
        1
    } else if l > 100 {
        100
    } else {
        l as usize
    };
    let o = match offset {
        Some(o) => o,
        None => 0,
    };
    SearchPage { offset: o as usize, limit }
}

/// Every term occurs in the text.
pub open spec fn has_all(h: Seq<char>, terms: Seq<Seq<char>>) -> bool {
    forall|k: int| 0 <= k < terms.len() ==> contains_text(h, #[trigger] terms[k])
}

/// Some term occurs in the text.
pub open spec fn has_any(h: Seq<char>, terms: Seq<Seq<char>>) -> bool {
    exists|k: int| 0 <= k < terms.len() && contains_text(h, #[trigger] terms[k])
}

/// The lines holding some term, in lower case, in order.
pub open spec fn hit_lines(lines: Seq<Seq<char>>, terms: Seq<Seq<char>>) -> Seq<Seq<char>>
    decreases lines.len(),
{
    if lines.len() == 0 {
        Seq::empty()
    } else {
        let h = hit_lines(lines.drop_last(), terms);
        if has_any(unicode_lowercase(lines.last()), terms) {
            h.push(lines.last())
        } else {
            h
        }
    }
}

/// The lines joined by line feeds.
pub open spec fn joined(ls: Seq<Seq<char>>) -> Seq<char>
    decreases ls.len(),
{
    if ls.len() == 0 {
        Seq::empty()
    } else if ls.len() == 1 {
        ls[0]
    } else {
        joined(ls.drop_last()) + seq!['\n'] + ls.last()
    }
}

/// The first `n` elements, or all where there are fewer.
pub open spec fn at_most<A>(s: Seq<A>, n: int) -> Seq<A> {
    if s.len() <= n {
        s
    } else {
        s.take(n)
    }
}

/// The excerpt of a matching note: its first 8 lines that hold a term,
/// joined, or the note's start where no line does; at most 2000 characters.
pub open spec fn note_excerpt(content: Seq<char>, terms: Seq<Seq<char>>) -> Seq<char> {
    let hits = hit_lines(text_lines(content), terms);
    if hits.len() == 0 {
        at_most(content, 2000)
    } else {
        at_most(joined(at_most(hits, 8)), 2000)
    }
}

fn holds_any(h: &Vec<char>, terms: &Vec<Vec<char>>) -> (r: bool)
    ensures
        r == has_any(h@, terms@.map_values(|t: Vec<char>| t@)),
{
    let ghost tv = terms@.map_values(|t: Vec<char>| t@);
    for k in 0..terms.len()
        invariant
            tv == terms@.map_values(|t: Vec<char>| t@),
            forall|j: int| 0 <= j < k ==> !contains_text(h@, #[trigger] tv[j]),
    {
        proof {
            assert(tv[k as int] == terms@[k as int]@);
        }
        if occurs_anywhere(h, &terms[k]) {
            return true;
        }
    }
    false
}

fn holds_all(h: &Vec<char>, terms: &Vec<Vec<char>>) -> (r: bool)
    ensures
        r == has_all(h@, terms@.map_values(|t: Vec<char>| t@)),
{
    let ghost tv = terms@.map_values(|t: Vec<char>| t@);
    for k in 0..terms.len()
        invariant
            tv == terms@.map_values(|t: Vec<char>| t@),
            forall|j: int| 0 <= j < k ==> contains_text(h@, #[trigger] tv[j]),
    {
        proof {
            assert(tv[k as int] == terms@[k as int]@);
        }
        if !occurs_anywhere(h, &terms[k]) {
            return false;
        }
    }
    true
}

/// The first `n` characters of `v`, or all of them.
fn first_of(v: &Vec<char>, n: usize) -> (r: Vec<char>)
    ensures
        r@ == at_most(v@, n as int),
{
    let mut out: Vec<char> = Vec::new();
    let m = if v.len() <= n {
        v.len()
    } else {
        n
    };
    for i in 0..m
        invariant
            m <= v.len(),
            out@ == v@.take(i as int),
    {
        out.push(v[i]);
        proof {
            assert(v@.take(i + 1) == v@.take(i as int).push(v@[i as int]));
        }
    }
    proof {
        assert(v@.take(v@.len() as int) =~= v@);
    }
    out
}

/// Whether a note matches a search, and its excerpt if it does: every
/// term occurs in the lower-case text of its name, a line feed and its
/// content.
pub fn note_hit(terms: &Vec<String>, name: &str, content: &str) -> (r: Option<String>)
    ensures
        ({
            let t = terms@.map_values(|s: String| s@);
            let h = unicode_lowercase(name@ + seq!['\n'] + content@);
            &&& has_all(h, t) ==> (r matches Some(x) && x@ == note_excerpt(content@, t))
            &&& !has_all(h, t) ==> r is None
        }),
{
    let ghost t = terms@.map_values(|s: String| s@);
    let mut tc: Vec<Vec<char>> = Vec::new();
    for k in 0..terms.len()
        invariant
            t == terms@.map_values(|s: String| s@),
            tc@.map_values(|v: Vec<char>| v@) == t.take(k as int),
    {
        let ghost before = tc@;
        tc.push(chars_of(terms[k].as_str()));
        proof {
            assert(tc@.map_values(|v: Vec<char>| v@) =~= before.map_values(|v: Vec<char>| v@).push(t[k as int]));
            assert(t.take(k + 1) =~= t.take(k as int).push(t[k as int]));
        }
    }
    proof {
        assert(t.take(terms@.len() as int) =~= t);
    }
    let mut whole = String::new();
    whole.append(name);
    whole.append("\n");
    whole.append(content);
    proof {
        reveal_strlit("\n");
        assert("\n"@ =~= seq!['\n']);
    }
    let hay = chars_of(lowercase(whole.as_str()).as_str());
    if !holds_all(&hay, &tc) {
        return None;
    }
    let lines = lines_of(content);
    let ghost ls = text_lines(content@);
    let mut hits: Vec<Vec<char>> = Vec::new();
    for i in 0..lines.len()
        invariant
            lines@.map_values(|l: Vec<char>| l@) == ls,
            tc@.map_values(|v: Vec<char>| v@) == t,
            hits@.map_values(|l: Vec<char>| l@) == hit_lines(ls.take(i as int), t),
    {
        proof {
            assert(ls.take(i + 1).drop_last() =~= ls.take(i as int));
            assert(ls.take(i + 1).last() == lines@[i as int]@);
        }
        let text = crate::text::string_from_chars(&lines[i]);
        let low = chars_of(lowercase(text.as_str()).as_str());
        if holds_any(&low, &tc) {
            let ghost before = hits@;
            let line = first_of(&lines[i], lines[i].len());
            proof {
                assert(line@ == lines@[i as int]@);
            }
            hits.push(line);
            proof {
                assert(hits@.map_values(|l: Vec<char>| l@) =~= before.map_values(|l: Vec<char>| l@).push(
                    lines@[i as int]@,
                ));
            }
        }
    }
    proof {
        assert(ls.take(lines@.len() as int) =~= ls);
    }
    let ghost hv = hits@.map_values(|l: Vec<char>| l@);
    if hits.len() == 0 {
        let c = chars_of(content);
        let e = first_of(&c, 2000);
        return Some(crate::text::string_from_chars(&e));
    }
    let m = if hits.len() <= 8 {
        hits.len()
    } else {
        8
    };
    let mut out: Vec<char> = Vec::new();
    for k in 0..m
        invariant
            m <= hits.len(),
            hv == hits@.map_values(|l: Vec<char>| l@),
            out@ == joined(hv.take(k as int)),
    {
        proof {
            assert(hv.take(k + 1).drop_last() =~= hv.take(k as int));
            assert(hv.take(k + 1).last() == hits@[k as int]@);
            if k == 0 {
                assert(hv.take(1) =~= seq![hits@[0]@]);
            }
        }
        let ghost before = out@;
        if k > 0 {
            out.push('\n');
        }
        let line = &hits[k];
        for j in 0..line.len()
            invariant
                out@ == (if k > 0 {
                    before + seq!['\n']
                } else {
                    before
                }) + line@.take(j as int),
        {
            out.push(line[j]);
            proof {
                assert(line@.take(j + 1) =~= line@.take(j as int).push(line@[j as int]));
            }
        }
        proof {
            assert(line@.take(line@.len() as int) =~= line@);
            if k == 0 {
                assert(before =~= Seq::<char>::empty());
                assert(out@ =~= line@);
            }
        }
    }
    proof {
        assert(at_most(hv, 8) =~= hv.take(m as int));
    }
    let e = first_of(&out, 2000);
    Some(crate::text::string_from_chars(&e))
}

/// The largest note read, in bytes.
pub const MAX_NOTE: usize = 1_000_000;

/// The text of a note read from disk: at most 1 MB of UTF-8 without NUL.
pub fn note_text(bytes: Vec<u8>) -> (r: Result<String, Error>)
    ensures
        bytes@.len() > MAX_NOTE ==> (r matches Err(e) && e.status == 413 && e.message@
            == "Memory note exceeds 1 MB; split it into smaller notes"@),
        bytes@.len() <= MAX_NOTE && !valid_utf8(bytes@) ==> (r matches Err(e) && e.status == 400 && e.message@
            == "Memory note must be UTF-8 text"@),
        bytes@.len() <= MAX_NOTE && valid_utf8(bytes@) && decode_utf8(bytes@).contains('\0') ==> (r matches Err(e)
            && e.status == 400 && e.message@ == "Memory note contains binary data"@),
        bytes@.len() <= MAX_NOTE && valid_utf8(bytes@) && !decode_utf8(bytes@).contains('\0') ==> (r matches Ok(
            t,
        ) && t@ == decode_utf8(bytes@)),
{
    if bytes.len() > MAX_NOTE {
        return Err(Error::new(413, "Memory note exceeds 1 MB; split it into smaller notes"));
    }
    let ghost b = bytes@;
    let text = match utf8_string(bytes) {
        Some(t) => t,
        None => {
            return Err(Error::new(400, "Memory note must be UTF-8 text"));
        },
    };
    let c = chars_of(text.as_str());
    for i in 0..c.len()
        invariant
            c@ == text@,
            b == bytes@,
            b.len() <= MAX_NOTE,
            valid_utf8(b),
            text@ == decode_utf8(b),
            forall|j: int| 0 <= j < i ==> c@[j] != '\0',
    {
        if c[i] == '\0' {
            proof {
                assert(text@[i as int] == '\0');
            }
            return Err(Error::new(400, "Memory note contains binary data"));
        }
    }
    Ok(text)
}

/// Whether a note that failed to read is passed over by a search: one that
/// is not UTF-8 text, has gone, or is too large.
pub fn skipped_by_search(status: u16) -> (r: bool)
    ensures
        r == (status == 400 || status == 404 || status == 413),
{
    status == 400 || status == 404 || status == 413
}

/// The bytes a memory search reads at most.
pub const SCAN_BYTES: u64 = 32_000_000;

/// The bytes of notes a search has read, and whether it stopped at its cap.
#[derive(Clone, Copy, Debug, PartialEq, Eq, Structural)]
pub struct NoteScan {
    pub bytes: u64,
    pub capped: bool,
}

impl NoteScan {
    pub fn new() -> (s: NoteScan)
        ensures
            s.bytes == 0 && !s.capped,
    {
        NoteScan { bytes: 0, capped: false }
    }

    /// Counts a note of `size` bytes; `false` once the total passes the
    /// cap, and the search stops.
    pub fn take_note(&mut self, size: u64) -> (more: bool)
        ensures
            final(self).bytes == if old(self).bytes + size > u64::MAX {
                u64::MAX as int
            } else {
                old(self).bytes + size
            },
            more == (final(self).bytes <= SCAN_BYTES),
            final(self).capped == (old(self).capped || !more),
    {
        self.bytes = self.bytes.saturating_add(size);
        if self.bytes > SCAN_BYTES {
            self.capped = true;
            false
        } else {
            true
        }
    }
}

/// How a memory index read turned out.
pub enum IndexRead {
    /// The memory root or its index does not exist.
    Missing,
    /// The index text.
    Text(String),
    /// The index exists but could not be read.
    Failed,
}

/// The only prefix of `s` within `n` bytes that ends on a character
/// boundary and cannot be extended.
pub open spec fn index_head(s: Seq<char>, n: int) -> int {
    choose|k: int| crate::context::head_count(s, n, k)
}

proof fn lemma_head_count_unique(s: Seq<char>, n: int, j: int, k: int)
    requires
        crate::context::head_count(s, n, j),
        crate::context::head_count(s, n, k),
    ensures
        j == k,
{
    if j < k {
        crate::context::lemma_utf8_len_monotone(s, j + 1, k);
    } else if k < j {
        crate::context::lemma_utf8_len_monotone(s, k + 1, j);
    }
}

/// The largest index preview shown, in bytes.
pub const INDEX_PREVIEW_BYTES: usize = 2000;

/// What the guidance says of one memory index found at `path`.
pub open spec fn index_note(path: Seq<char>, read: IndexRead) -> Seq<char> {
    match read {
        IndexRead::Missing => Seq::empty(),
        IndexRead::Failed => "\nMemory index at "@ + path
            + " could not be read; other notes remain available through file tools.\n"@,
        IndexRead::Text(t) => if crate::text::blank(t@) {
            Seq::empty()
        } else {
            let k = index_head(t@, INDEX_PREVIEW_BYTES as int);
            "\nMemory index reference ("@ + path + "; "@ + (if k < t@.len() {
                "preview truncated; read_file can retrieve the rest"@
            } else {
                "complete"@
            }) + "):\n"@ + t@.take(k) + "\nEnd memory index reference.\n"@
        },
    }
}

/// The memory guidance: where the user-wide and project notes live, then
/// the index of each, user-wide first.
pub open spec fn spec_memory_guidance(
    global: Seq<char>,
    project: Seq<char>,
    global_index: Seq<char>,
    global_read: IndexRead,
    project_index: Seq<char>,
    project_read: IndexRead,
) -> Seq<char> {
    "Memory locations: user-wide "@ + global + "; project "@ + project + " (created on first write)."@
        + index_note(global_index, global_read) + index_note(project_index, project_read)
}

fn push_index_note(out: &mut String, path: &str, read: &IndexRead)
    ensures
        final(out)@ == old(out)@ + index_note(path@, *read),
{
    match read {
        IndexRead::Missing => {
            proof {
                assert(final(out)@ =~= old(out)@ + Seq::<char>::empty()) by {
                    assert(out@ == old(out)@);
                }
            }
        },
        IndexRead::Failed => {
            out.append("\nMemory index at ");
            out.append(path);
            out.append(" could not be read; other notes remain available through file tools.\n");
        },
        IndexRead::Text(t) => {
            if crate::text::is_blank(t.as_str()) {
                proof {
                    assert(out@ =~= old(out)@ + Seq::<char>::empty());
                }
                return;
            }
            let preview = crate::context::head(t.as_str(), INDEX_PREVIEW_BYTES);
            let ghost k = choose|k: int|
                crate::context::head_count(t@, INDEX_PREVIEW_BYTES as int, k) && preview@ == t@.take(k);
            proof {
                lemma_head_count_unique(t@, INDEX_PREVIEW_BYTES as int, k, index_head(t@, INDEX_PREVIEW_BYTES as int));
            }
            let ghost before = out@;
            out.append("\nMemory index reference (");
            out.append(path);
            out.append("; ");
            if preview.as_str().unicode_len() < t.as_str().unicode_len() {
                out.append("preview truncated; read_file can retrieve the rest");
            } else {
                out.append("complete");
            }
            out.append("):\n");
            out.append(preview.as_str());
            out.append("\nEnd memory index reference.\n");
            proof {
                assert(out@ =~= before + index_note(path@, *read));
            }
        },
    }
}

/// The memory guidance given to the model. `global` and `project` are the
/// memory roots as shown; `global_index` and `project_index` their index
/// files, with how reading each went (a missing root reads as `Missing`).
pub fn memory_guidance(
    global: &str,
    project: &str,
    global_index: &str,
    global_read: &IndexRead,
    project_index: &str,
    project_read: &IndexRead,
) -> (r: String)
    ensures
        r@ == spec_memory_guidance(
            global@,
            project@,
            global_index@,
            *global_read,
            project_index@,
            *project_read,
        ),
{
    let mut out = String::new();
    out.append("Memory locations: user-wide ");
    out.append(global);
    out.append("; project ");
    out.append(project);
    out.append(" (created on first write).");
    let ghost start = out@;
    push_index_note(&mut out, global_index, global_read);
    push_index_note(&mut out, project_index, project_read);
    proof {
        assert(out@ =~= spec_memory_guidance(
            global@,
            project@,
            global_index@,
            *global_read,
            project_index@,
            *project_read,
        ));
    }
    out
}

} // verus!
