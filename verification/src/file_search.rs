//! What a bounded project search visits, skips and returns.
use vstd::prelude::*;
use crate::approval::{sensitive, spec_sensitive};
use crate::error::{Error, missing, required};
use crate::paths::{LibPath, parts_start_with, path_absolute, path_parts};
use crate::text::{lower_eq, lower_equals, str_eq};
use vstd::utf8::{valid_utf8, decode_utf8};

verus! {

/// The validated paging of a search.
#[derive(Clone, Copy, Debug, PartialEq, Eq, Structural)]
pub struct SearchPage {
    pub offset: usize,
    /// Results per page, 1..=200.
    pub limit: usize,
}

/// Validates a search's pattern and paging: the pattern is required and at
/// most 4096 bytes; `limit` defaults to 50 and is clamped to 1..=200.
pub fn search_page(pattern: &str, offset: Option<usize>, limit: Option<u64>) -> (r: Result<SearchPage, Error>)
    ensures
        missing(pattern@, "pattern"@) matches Some((status, message)) ==> (r matches Err(e) && e.status
            == status && e.message@ == message),
        missing(pattern@, "pattern"@) is None && pattern.len() > 4096 ==> (r matches Err(e) && e.status
            == 400 && e.message@ == "Search pattern exceeds 4096 bytes"@),
        missing(pattern@, "pattern"@) is None && pattern.len() <= 4096 ==> (r matches Ok(p) && p.offset
            == offset.unwrap_or(0) && p.limit == ({
            let l = limit.unwrap_or(50);
            if l < 1 {
                1
            } else if l > 200 {
                200
            } else {
                l
            }
        })),
{
    if let Err(e) = required(pattern, "pattern") {
        return Err(e);
    }
    if pattern.len() > 4096 {
        return Err(Error::new(400, "Search pattern exceeds 4096 bytes"));
    }
    let l = match limit {
        Some(l) => l,
        None => 50,
    };
    let limit = if l < 1 {
        1
    } else if l > 200 {
        200
    } else {
        l as usize
    };
    Ok(SearchPage { offset: offset.unwrap_or(0), limit })
}

/// What a search does with one directory entry.
#[derive(Clone, Copy, Debug, PartialEq, Eq, Structural)]
pub enum Visit {
    /// Counted as skipped: sensitive, private or a symbolic link.
    Skip,
    /// A directory to search.
    Descend,
    /// Passed over without counting: a tool or dependency directory, or
    /// neither a file nor a directory.
    Ignore,
    /// A regular file to match.
    Match,
}

/// Directories that are never searched.
pub open spec fn excluded_dir(leaf: Seq<char>) -> bool {
    leaf == ".git"@ || leaf == "node_modules"@ || leaf == "target"@ || leaf == ".venv"@
}

#[derive(Clone, Copy, Debug, PartialEq, Eq, Structural)]
pub struct EntryKind {
    pub dir: bool,
    pub file: bool,
    pub symlink: bool,
}

/// A path joined to another, as (absolute, components): an absolute second
/// path replaces the first.
pub open spec fn join_view(a_abs: bool, a: Seq<Seq<char>>, b_abs: bool, b: Seq<Seq<char>>) -> (bool, Seq<Seq<char>>) {
    if b_abs {
        (true, b)
    } else {
        (a_abs, a + b)
    }
}

/// The entry's path relative to the search root.
pub open spec fn entry_path(relative: LibPath, leaf: Seq<char>) -> (bool, Seq<Seq<char>>) {
    join_view(relative.absolute, relative.spec_parts(), path_absolute(leaf), path_parts(leaf))
}

/// The decision for an entry named `leaf` in directory `relative` of the
/// search root: a `.potato` directory outside sensitive places is entered
/// to reach its public memory and artifacts; other sensitive paths, the
/// private area outside the workspace, and symbolic links are skipped.
pub open spec fn spec_visit(
    root: LibPath,
    relative: LibPath,
    leaf: Seq<char>,
    kind: EntryKind,
    private: LibPath,
    workspace: LibPath,
) -> Visit {
    let path = entry_path(relative, leaf);
    let absolute = join_view(root.absolute, root.spec_parts(), path.0, path.1);
    let under_private = absolute.0 == private.absolute && parts_start_with(absolute.1, private.spec_parts());
    let under_workspace = absolute.0 == workspace.absolute && parts_start_with(
        absolute.1,
        workspace.spec_parts(),
    );
    let container = lower_equals(leaf, ".potato"@) && kind.dir && !spec_sensitive(relative.spec_parts());
    if (spec_sensitive(path.1) && !container) || (under_private && !under_workspace) {
        Visit::Skip
    } else if kind.symlink {
        Visit::Skip
    } else if kind.dir {
        if excluded_dir(leaf) {
            Visit::Ignore
        } else {
            Visit::Descend
        }
    } else if !kind.file {
        Visit::Ignore
    } else {
        Visit::Match
    }
}

/// Decides what to do with a directory entry; `leaf` is its name. Also
/// returns the entry's path relative to the search root.
pub fn visit(
    root: &LibPath,
    relative: &LibPath,
    leaf: &str,
    kind: &EntryKind,
    private: &LibPath,
    workspace: &LibPath,
) -> (r: (Visit, LibPath))
    ensures
        r.0 == spec_visit(*root, *relative, leaf@, *kind, *private, *workspace),
        (r.1.absolute, r.1.spec_parts()) == entry_path(*relative, leaf@),
{
    let name = LibPath::parse(leaf);
    let path = relative.join(&name);
    let absolute = root.join(&path);
    let lc = crate::text::chars_of(leaf);
    let container = lower_eq(&lc, ".potato") && kind.dir && !sensitive(relative);
    let decision = if (sensitive(&path) && !container) || (absolute.starts_with(private)
        && !absolute.starts_with(workspace)) {
        Visit::Skip
    } else if kind.symlink {
        Visit::Skip
    } else if kind.dir {
        if str_eq(leaf, ".git") || str_eq(leaf, "node_modules") || str_eq(leaf, "target") || str_eq(
            leaf,
            ".venv",
        ) {
            Visit::Ignore
        } else {
            Visit::Descend
        }
    } else if !kind.file {
        Visit::Ignore
    } else {
        Visit::Match
    };
    (decision, path)
}

#[verifier::external_type_specification]
#[verifier::external_body]
pub struct ExRegex(regex::Regex);

#[verifier::external_type_specification]
#[verifier::external_body]
pub struct ExGlobSet(globset::GlobSet);

/// A character with a meaning in a regular expression.
pub open spec fn meta_character(c: char) -> bool {
    c == '\\' || c == '.' || c == '+' || c == '*' || c == '?' || c == '(' || c == ')' || c == '|' || c == '['
        || c == ']' || c == '{' || c == '}' || c == '^' || c == '$' || c == '#' || c == '&' || c == '-' || c
        == '~'
}

/// The pattern with a backslash before every regular-expression
/// metacharacter.
pub open spec fn escaped(pattern: Seq<char>) -> Seq<char>
    decreases pattern.len(),
{
    if pattern.len() == 0 {
        Seq::empty()
    } else {
        escaped(pattern.drop_last()) + if meta_character(pattern.last()) {
            seq!['\\', pattern.last()]
        } else {
            seq![pattern.last()]
        }
    }
}

/// `regex::escape`: a pattern that matches the text literally.
#[verifier::external_body]
fn escape(pattern: &str) -> (r: String)
    ensures
        r@ == escaped(pattern@),
{
    regex::escape(pattern)
}

/// Whether the expression compiles within the 2 MB size limit.
pub uninterp spec fn regex_accepts(expr: Seq<char>, case_insensitive: bool) -> bool;

/// The byte offset at which the leftmost-first match of the expression in
/// the text starts, if there is a match.
pub uninterp spec fn regex_start(expr: Seq<char>, case_insensitive: bool, text: Seq<char>) -> Option<int>;

/// `regex::RegexBuilder::build` with a 2 MB size limit.
#[verifier::external_body]
fn build_regex(expr: &str, case_insensitive: bool) -> (r: Option<regex::Regex>)
    ensures
        r is Some <==> regex_accepts(expr@, case_insensitive),
{
    regex::RegexBuilder::new(expr).case_insensitive(case_insensitive).size_limit(2_000_000).build().ok()
}

/// A compiled content search, with the expression it was built from.
pub struct Finder {
    regex: regex::Regex,
    expr: String,
    case_insensitive: bool,
}

impl Finder {
    pub closed spec fn spec_expr(&self) -> Seq<char> {
        self.expr@
    }

    pub closed spec fn spec_case_insensitive(&self) -> bool {
        self.case_insensitive
    }

    /// Compiles a content search: the pattern as a regular expression, or
    /// taken literally.
    pub fn new(pattern: &str, literal: bool, case_insensitive: bool) -> (r: Result<Finder, Error>)
        ensures
            ({
                let expr = if literal {
                    escaped(pattern@)
                } else {
                    pattern@
                };
                &&& regex_accepts(expr, case_insensitive) ==> (r matches Ok(f) && f.spec_expr() == expr
                    && f.spec_case_insensitive() == case_insensitive)
                &&& !regex_accepts(expr, case_insensitive) ==> (r matches Err(e) && e.status == 400
                    && e.message@ == "Invalid or overly complex search expression"@)
            }),
    {
        let expr = if literal {
            escape(pattern)
        } else {
            pattern.to_owned()
        };
        match build_regex(expr.as_str(), case_insensitive) {
            Some(regex) => Ok(Finder { regex, expr, case_insensitive }),
            None => Err(Error::new(400, "Invalid or overly complex search expression")),
        }
    }
}

/// `regex::Regex::find`: where the finder's expression first matches in the
/// text, as a byte offset.
#[verifier::external_body]
fn find_start(f: &Finder, text: &str) -> (r: Option<usize>)
    ensures
        regex_start(f.spec_expr(), f.spec_case_insensitive(), text@) == match r {
            Some(k) => Some(k as int),
            None => None,
        },
{
    f.regex.find(text).map(|m| m.start())
}

/// Whether the glob pattern builds, with `/` matched only literally and a backslash
/// escaping the character after it.
pub uninterp spec fn glob_accepts(pattern: Seq<char>) -> bool;

/// Whether the glob built from the pattern matches a path (one that holds
/// no backslash, which some systems read as a separator).
pub uninterp spec fn glob_match(pattern: Seq<char>, path: Seq<char>) -> bool;

/// `globset::GlobBuilder::build`, with `literal_separator` and
/// `backslash_escape` set, then `globset::GlobSetBuilder::build` on that one
/// glob: `None` where either refuses the pattern (the second refuses one
/// whose automaton would be too large, where a single matcher would panic).
#[verifier::external_body]
fn build_glob(pattern: &str) -> (r: Option<globset::GlobSet>)
    ensures
        r is Some <==> glob_accepts(pattern@),
{
    let glob = match globset::GlobBuilder::new(pattern).literal_separator(true).backslash_escape(true).build() {
        Ok(glob) => glob,
        Err(_) => return None,
    };
    globset::GlobSetBuilder::new().add(glob).build().ok()
}

/// A compiled file-name search, with the pattern it was built from.
pub struct PathGlob {
    matcher: globset::GlobSet,
    pattern: String,
}

impl PathGlob {
    pub closed spec fn spec_pattern(&self) -> Seq<char> {
        self.pattern@
    }

    /// Compiles a glob in which `*` never crosses `/`.
    pub fn new(pattern: &str) -> (r: Result<PathGlob, Error>)
        ensures
            glob_accepts(pattern@) ==> (r matches Ok(g) && g.spec_pattern() == pattern@),
            !glob_accepts(pattern@) ==> (r matches Err(e) && e.status == 400 && e.message@
                == "Invalid glob pattern"@),
    {
        match build_glob(pattern) {
            Some(matcher) => Ok(PathGlob { matcher, pattern: pattern.to_owned() }),
            None => Err(Error::new(400, "Invalid glob pattern")),
        }
    }
}

/// `globset::GlobSet::is_match` on a relative path. Off Unix a backslash in the
/// path is read as `/` first, so for such a path the result is not named.
#[verifier::external_body]
fn glob_is_match(g: &PathGlob, path: &str) -> (r: bool)
    ensures
        !path@.contains('\\') ==> r == glob_match(g.spec_pattern(), path@),
{
    g.matcher.is_match(path)
}

/// Paging across all matches of a search: matches before `offset` are
/// counted but not returned; one more than `limit` is collected to tell
/// whether more follow.
#[derive(Clone, Copy, Debug, PartialEq, Eq, Structural)]
pub struct Paging {
    pub offset: usize,
    pub limit: usize,
    pub matched: usize,
    pub found: usize,
}

impl Paging {
    pub fn new(page: SearchPage) -> (p: Paging)
        ensures
            p.offset == page.offset && p.limit == page.limit && p.matched == 0 && p.found == 0,
    {
        Paging { offset: page.offset, limit: page.limit, matched: 0, found: 0 }
    }

    /// Counts a match; returns whether it belongs to the page.
    pub fn record(&mut self) -> (keep: bool)
        requires
            old(self).matched < usize::MAX,
            old(self).found < usize::MAX,
        ensures
            keep == (old(self).matched >= old(self).offset),
            final(self).matched == old(self).matched + 1,
            final(self).found == old(self).found + if keep { 1int } else { 0int },
            final(self).offset == old(self).offset && final(self).limit == old(self).limit,
    {
        let keep = self.matched >= self.offset;
        self.matched = self.matched + 1;
        if keep {
            self.found = self.found + 1;
        }
        keep
    }

    /// Enough was collected to know that more follow.
    pub fn full(&self) -> (r: bool)
        ensures
            r == (self.found > self.limit),
    {
        self.found > self.limit
    }
}

/// A matching line of a content search.
#[derive(Debug)]
pub struct Hit {
    /// 1-based.
    pub line: usize,
    pub text: String,
    /// The text is cut from a longer line.
    pub excerpt: bool,
}

/// The excerpt shown for a match starting at byte `start` of `line`: from
/// the character boundary at or before 120 bytes earlier, at most 800
/// bytes.
pub open spec fn excerpt_of(line: Seq<char>, start: int, text: Seq<char>, excerpt: bool) -> bool {
    let begin = if start >= 120 {
        start - 120
    } else {
        0
    };
    exists|k: int, h: int|
        crate::context::head_count(line, begin, k) && crate::context::head_count(line.skip(k), 800, h) && text
            == line.skip(k).take(h) && excerpt == (k > 0 || crate::context::utf8_len(line) > 800)
}

/// The matches of an expression over the lines `k..` under paging: the
/// reported (line index, match start) pairs and the match count after.
pub open spec fn scan(
    lines: Seq<Seq<char>>,
    expr: Seq<char>,
    ci: bool,
    k: int,
    matched: int,
    found: int,
    offset: int,
    limit: int,
) -> (Seq<(int, int)>, int, int)
    decreases lines.len() - k,
{
    if k < 0 || k >= lines.len() {
        (Seq::empty(), matched, found)
    } else {
        match regex_start(expr, ci, lines[k]) {
            None => scan(lines, expr, ci, k + 1, matched, found, offset, limit),
            Some(s) => {
                let pushed = matched >= offset;
                let found2 = if pushed {
                    found + 1
                } else {
                    found
                };
                let rest = if found2 > limit {
                    (Seq::<(int, int)>::empty(), matched + 1, found2)
                } else {
                    scan(lines, expr, ci, k + 1, matched + 1, found2, offset, limit)
                };
                (
                    if pushed {
                        seq![(k, s)] + rest.0
                    } else {
                        rest.0
                    },
                    rest.1,
                    rest.2,
                )
            },
        }
    }
}

fn excerpt(line: &Vec<char>, start: usize) -> (r: (String, bool))
    ensures
        excerpt_of(line@, start as int, r.0@, r.1),
{
    let begin = if start >= 120 {
        start - 120
    } else {
        0
    };
    let k = crate::context::fitting_chars(line, begin);
    let rest = crate::context::chars_from(line, k);
    let h = crate::context::fitting_chars(&rest, 800);
    let mut out: Vec<char> = Vec::new();
    for i in 0..h
        invariant
            h <= rest.len(),
            out@ == rest@.take(i as int),
    {
        out.push(rest[i]);
        proof {
            assert(rest@.take(i + 1) == rest@.take(i as int).push(rest@[i as int]));
        }
    }
    let s = crate::text::string_from_chars(&out);
    let n = crate::context::utf8_length(crate::text::string_from_chars(line).as_str());
    let flag = k > 0 || n > 800;
    proof {
        assert(crate::context::head_count(line@, begin as int, k as int));
    }
    (s, flag)
}

/// The hits report the matches `found`, as (line index, match start) pairs
/// into `lines`, one for one and in order.
pub open spec fn reports(hits: Seq<Hit>, found: Seq<(int, int)>, lines: Seq<Seq<char>>) -> bool {
    &&& hits.len() == found.len()
    &&& forall|i: int|
        0 <= i < hits.len() ==> #[trigger] hits[i].line == found[i].0 + 1 && excerpt_of(
            lines[found[i].0],
            found[i].1,
            hits[i].text@,
            hits[i].excerpt,
        )
}

proof fn lemma_reports_push(hits: Seq<Hit>, found: Seq<(int, int)>, lines: Seq<Seq<char>>, hit: Hit, k: int, s: int)
    requires
        reports(hits, found, lines),
        hit.line == k + 1,
        excerpt_of(lines[k], s, hit.text@, hit.excerpt),
    ensures
        reports(hits.push(hit), found.push((k, s)), lines),
{
    let h2 = hits.push(hit);
    let f2 = found.push((k, s));
    assert forall|i: int| 0 <= i < h2.len() implies #[trigger] h2[i].line == f2[i].0 + 1 && excerpt_of(
        lines[f2[i].0],
        f2[i].1,
        h2[i].text@,
        h2[i].excerpt,
    ) by {
        if i < hits.len() {
            assert(h2[i] == hits[i]);
            assert(f2[i] == found[i]);
        }
    }
}

/// The matching lines of a UTF-8 text, paged across the whole search.
pub fn content_hits(f: &Finder, text: &str, paging: &mut Paging) -> (hits: Vec<Hit>)
    requires
        old(paging).matched + crate::file_ops::text_lines(text@).len() < usize::MAX,
        old(paging).found + crate::file_ops::text_lines(text@).len() < usize::MAX,
    ensures
        ({
            let lines = crate::file_ops::text_lines(text@);
            let s = scan(
                lines,
                f.spec_expr(),
                f.spec_case_insensitive(),
                0,
                old(paging).matched as int,
                old(paging).found as int,
                old(paging).offset as int,
                old(paging).limit as int,
            );
            &&& reports(hits@, s.0, lines)
            &&& final(paging).matched == s.1 && final(paging).found == s.2
            &&& final(paging).offset == old(paging).offset && final(paging).limit == old(paging).limit
        }),
{
    let lines = crate::file_ops::lines_of(text);
    let ghost ls = crate::file_ops::text_lines(text@);
    let ghost expr = f.spec_expr();
    let ghost ci = f.spec_case_insensitive();
    let ghost start = *paging;
    let ghost all = scan(
        ls,
        expr,
        ci,
        0,
        start.matched as int,
        start.found as int,
        start.offset as int,
        start.limit as int,
    );
    let mut hits: Vec<Hit> = Vec::new();
    let ghost mut reported: Seq<(int, int)> = Seq::empty();
    let mut k: usize = 0;
    proof {
        assert(reported + all.0 =~= all.0);
    }
    while k < lines.len()
        invariant
            ls == crate::file_ops::text_lines(text@),
            lines@.map_values(|l: Vec<char>| l@) == ls,
            k <= lines.len(),
            paging.offset == start.offset && paging.limit == start.limit,
            paging.matched <= start.matched + k,
            paging.found <= start.found + k,
            start.matched + ls.len() < usize::MAX,
            start.found + ls.len() < usize::MAX,
            reports(hits@, reported, ls),
            all == scan(
                ls,
                expr,
                ci,
                0,
                start.matched as int,
                start.found as int,
                start.offset as int,
                start.limit as int,
            ),
            ({
                let rest = scan(
                    ls,
                    expr,
                    ci,
                    k as int,
                    paging.matched as int,
                    paging.found as int,
                    paging.offset as int,
                    paging.limit as int,
                );
                reported + rest.0 == all.0 && rest.1 == all.1 && rest.2 == all.2
            }),
            expr == f.spec_expr(),
            ci == f.spec_case_insensitive(),
            start == *old(paging),
        decreases lines.len() - k,
    {
        let ghost m = paging.matched as int;
        let ghost fo = paging.found as int;
        let ghost off = paging.offset as int;
        let ghost lim = paging.limit as int;
        let ghost rest = scan(ls, expr, ci, k as int, m, fo, off, lim);
        let ghost earlier = reported;
        let line_text = crate::text::string_from_chars(&lines[k]);
        proof {
            assert(ls[k as int] == lines@[k as int]@);
        }
        match find_start(f, line_text.as_str()) {
            None => {
                proof {
                    assert(rest == scan(ls, expr, ci, k + 1, m, fo, off, lim));
                }
            },
            Some(s) => {
                let ghost next = scan(ls, expr, ci, k + 1, m + 1, if m >= off { fo + 1 } else { fo }, off, lim);
                let keep = paging.record();
                if keep {
                    let (t, flag) = excerpt(&lines[k], s);
                    let ghost hits_before = hits@;
                    let hit = Hit { line: k + 1, text: t, excerpt: flag };
                    proof {
                        lemma_reports_push(hits_before, reported, ls, hit, k as int, s as int);
                    }
                    hits.push(hit);
                    proof {
                        reported = reported.push((k as int, s as int));
                    }
                }
                if paging.full() {
                    proof {
                        assert(rest.0 == if keep { seq![(k as int, s as int)] } else { Seq::<(int, int)>::empty() });
                        if keep {
                            assert(reported =~= earlier + rest.0);
                        } else {
                            assert(reported =~= earlier + rest.0);
                        }
                        assert(reported == all.0);
                        assert(rest.1 == paging.matched && rest.2 == paging.found);
                    }
                    return hits;
                }
                proof {
                    if keep {
                        assert(rest.0 == seq![(k as int, s as int)] + next.0);
                        assert(reported + next.0 =~= earlier + rest.0);
                    } else {
                        assert(rest.0 == next.0);
                    }
                }
            },
        }
        k = k + 1;
    }
    proof {
        assert(reported =~= reported + Seq::<(int, int)>::empty());
    }
    hits
}

/// Whether a file's bytes are searched by content: at most 2 MB, no zero
/// byte, and UTF-8.
pub open spec fn searchable(bytes: Seq<u8>) -> bool {
    bytes.len() <= 2_000_000 && !bytes.contains(0u8) && valid_utf8(bytes)
}

/// The text of a file for content search, or `None` for a file that is
/// skipped: over 2 MB, binary (a zero byte) or not UTF-8.
pub fn searchable_text(bytes: Vec<u8>) -> (r: Option<String>)
    ensures
        searchable(bytes@) ==> (r matches Some(s) && s@ == decode_utf8(bytes@)),
        !searchable(bytes@) ==> r is None,
{
    if bytes.len() > 2_000_000 {
        return None;
    }
    let mut i: usize = 0;
    while i < bytes.len()
        invariant
            i <= bytes.len(),
            forall|j: int| 0 <= j < i ==> bytes@[j] != 0u8,
        decreases bytes.len() - i,
    {
        if bytes[i] == 0 {
            proof {
                assert(bytes@.contains(0u8));
            }
            return None;
        }
        i = i + 1;
    }
    crate::file_ops::utf8_string(bytes)
}

/// The counters of a directory walk: entries seen, entries skipped, and
/// whether the walk stopped at its 20 000-entry cap.
#[derive(Clone, Copy, Debug, PartialEq, Eq, Structural)]
pub struct Walk {
    pub visited: usize,
    pub skipped: usize,
    pub capped: bool,
}

impl Walk {
    pub fn new() -> (w: Walk)
        ensures
            w.visited == 0 && w.skipped == 0 && !w.capped,
    {
        Walk { visited: 0, skipped: 0, capped: false }
    }

    /// Counts an entry; `false` when it is past the cap, and the walk stops.
    pub fn enter(&mut self) -> (more: bool)
        requires
            old(self).visited <= 20_000,
        ensures
            final(self).visited == old(self).visited + 1,
            more == (final(self).visited <= 20_000),
            final(self).capped == (old(self).capped || !more),
            final(self).skipped == old(self).skipped,
    {
        self.visited = self.visited + 1;
        if self.visited > 20_000 {
            self.capped = true;
            false
        } else {
            true
        }
    }

    /// Counts a skipped entry.
    pub fn skip(&mut self)
        requires
            old(self).skipped < usize::MAX,
        ensures
            final(self).skipped == old(self).skipped + 1,
            final(self).visited == old(self).visited && final(self).capped == old(self).capped,
    {
        self.skipped = self.skipped + 1;
    }

    /// The number of entries seen, as reported: at most the cap.
    pub fn reported_visited(&self) -> (n: usize)
        ensures
            n == if self.visited < 20_000 { self.visited as int } else { 20_000int },
    {
        if self.visited < 20_000 {
            self.visited
        } else {
            20_000
        }
    }
}

/// A match counted by the paging: it is kept where it lies at or after the
/// offset.
pub open spec fn counted(before: Paging, after: Paging, keep: bool) -> bool {
    keep == (before.matched >= before.offset) && after.matched == before.matched + 1 && after.found
        == before.found + if keep { 1int } else { 0int } && after.offset == before.offset && after.limit
        == before.limit
}

/// A file-name search step: whether the file's path relative to the root
/// matches, and whether it belongs to the page (paging counts it when it
/// matches).
pub fn glob_hit(g: &PathGlob, path: &str, paging: &mut Paging) -> (keep: bool)
    requires
        old(paging).matched < usize::MAX,
        old(paging).found < usize::MAX,
    ensures
        !path@.contains('\\') && glob_match(g.spec_pattern(), path@) ==> counted(*old(paging), *final(paging), keep),
        !path@.contains('\\') && !glob_match(g.spec_pattern(), path@) ==> !keep && *final(paging) == *old(paging),
        counted(*old(paging), *final(paging), keep) || (!keep && *final(paging) == *old(paging)),
        final(paging).offset == old(paging).offset && final(paging).limit == old(paging).limit,
{
    if glob_is_match(g, path) {
        paging.record()
    } else {
        false
    }
}

/// Cuts the collected matches to the page and returns the next page's
/// offset when more follow.
pub fn finish<T>(found: &mut Vec<T>, paging: &Paging) -> (next: Option<usize>)
    ensures
        final(found)@ == if old(found)@.len() > paging.limit {
            old(found)@.take(paging.limit as int)
        } else {
            old(found)@
        },
        old(found)@.len() > paging.limit && paging.offset + paging.limit <= usize::MAX ==> next
            == Some((paging.offset + paging.limit) as usize),
        !(old(found)@.len() > paging.limit && paging.offset + paging.limit <= usize::MAX) ==> next is None,
{
    let more = found.len() > paging.limit;
    found.truncate(paging.limit);
    if more {
        paging.offset.checked_add(paging.limit)
    } else {
        None
    }
}

} // verus!
