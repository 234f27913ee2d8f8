//! The account-scoped cache of cloud personal memory: the key it is stored
//! under, and which memories a search matches.
use vstd::prelude::*;
use crate::text::{cat3, chars_of, is_white_space, push_char};
use crate::computer::unicode_lowercase;
use crate::file_ops::occurs_at;
use crate::context::{utf8_len, utf8_length};
use crate::text::{decimal, push_decimal};
use vstd::string::StringSliceAdditionalSpecFns;
use sha2::Digest;
use unicode_normalization::UnicodeNormalization;

verus! {

/// The SHA-256 digest of the bytes.
pub uninterp spec fn sha256(data: Seq<u8>) -> Seq<u8>;

/// `sha2::Sha256::digest`: the 32-byte SHA-256 digest of the input.
#[verifier::external_body]
fn digest(data: &[u8]) -> (r: Vec<u8>)
    ensures
        r@ == sha256(data@),
        r@.len() == 32,
{
    sha2::Sha256::digest(data).to_vec()
}

/// The lower-case hexadecimal digit of a value below 16.
pub open spec fn hex_digit(v: u8) -> char {
    if v < 10 {
        ((v + 48) as u8) as char
    } else {
        ((v + 87) as u8) as char
    }
}

/// Bytes as lower-case hexadecimal, two digits per byte.
pub open spec fn hex(bytes: Seq<u8>) -> Seq<char>
    decreases bytes.len(),
{
    if bytes.len() == 0 {
        Seq::empty()
    } else {
        hex(bytes.drop_last()) + seq![hex_digit(bytes.last() / 16), hex_digit(bytes.last() % 16)]
    }
}

fn hex_char(v: u8) -> (c: char)
    requires
        v < 16,
    ensures
        c == hex_digit(v),
{
    if v < 10 {
        (v + 48) as char
    } else {
        (v + 87) as char
    }
}

/// Writes bytes as lower-case hexadecimal.
pub fn to_hex(bytes: &[u8]) -> (s: String)
    ensures
        s@ == hex(bytes@),
{
    let mut s = String::new();
    for i in 0..bytes.len()
        invariant
            s@ == hex(bytes@.take(i as int)),
    {
        let b = bytes[i];
        push_char(&mut s, hex_char(b / 16));
        push_char(&mut s, hex_char(b % 16));
        proof {
            assert(bytes@.take(i + 1).drop_last() =~= bytes@.take(i as int));
            assert(bytes@.take(i + 1).last() == b);
        }
    }
    proof {
        assert(bytes@.take(bytes@.len() as int) =~= bytes@);
    }
    s
}

/// The cache key of an account: the hexadecimal SHA-256 of its relay and
/// email on two lines.
pub open spec fn spec_owner_key(relay: Seq<char>, email: Seq<char>) -> Seq<char> {
    hex(sha256(vstd::utf8::encode_utf8(relay + "\n"@ + email)))
}

/// Names the memory cache of the signed-in account.
pub fn owner_key(relay: &str, email: &str) -> (k: String)
    ensures
        k@ == spec_owner_key(relay@, email@),
        k@.len() == 64,
{
    let text = cat3(relay, "\n", email);
    let d = digest(text.as_str().as_bytes());
    let k = to_hex(d.as_slice());
    proof {
        lemma_hex_len(d@);
    }
    k
}

proof fn lemma_hex_len(b: Seq<u8>)
    ensures
        hex(b).len() == 2 * b.len(),
    decreases b.len(),
{
    if b.len() > 0 {
        lemma_hex_len(b.drop_last());
    }
}

/// Unicode Normalization Form KC of the text.
pub uninterp spec fn nfkc(s: Seq<char>) -> Seq<char>;

/// `UnicodeNormalization::nfkc`: the text in Normalization Form KC.
#[verifier::external_body]
fn normalize_kc(s: &str) -> (r: String)
    ensures
        r@ == nfkc(s@),
{
    s.nfkc().collect::<String>()
}

/// Text as memory search compares it: NFKC, then Unicode lower case.
pub open spec fn folded(s: Seq<char>) -> Seq<char> {
    unicode_lowercase(nfkc(s))
}

/// The pieces of `s` between white space.
pub open spec fn ws_pieces(s: Seq<char>) -> Seq<Seq<char>>
    decreases s.len(),
{
    if s.len() == 0 {
        seq![Seq::<char>::empty()]
    } else {
        let prev = ws_pieces(s.drop_last());
        if is_white_space(s.last()) {
            prev.push(Seq::<char>::empty())
        } else {
            prev.update(prev.len() - 1, prev.last().push(s.last()))
        }
    }
}

proof fn lemma_ws_pieces_nonempty(s: Seq<char>)
    ensures
        ws_pieces(s).len() >= 1,
    decreases s.len(),
{
    if s.len() > 0 {
        lemma_ws_pieces_nonempty(s.drop_last());
    }
}

/// Every non-empty piece of the query occurs in the text.
pub open spec fn all_terms_in(query: Seq<char>, text: Seq<char>) -> bool {
    forall|k: int|
        0 <= k < ws_pieces(query).len() && #[trigger] ws_pieces(query)[k].len() > 0 ==> exists|i: int|
            occurs_at(text, ws_pieces(query)[k], i)
}

pub(crate) fn occurs_anywhere(s: &Vec<char>, p: &Vec<char>) -> (r: bool)
    ensures
        r == exists|i: int| occurs_at(s@, p@, i),
{
    let mut i: usize = 0;
    loop
        invariant
            i <= s.len(),
            forall|j: int| 0 <= j < i ==> !occurs_at(s@, p@, j),
        ensures
            forall|j: int| 0 <= j <= s.len() ==> !occurs_at(s@, p@, j),
        decreases s.len() - i,
    {
        if crate::file_ops::occurs_here(s, p, i) {
            return true;
        }
        if i == s.len() {
            break;
        }
        i = i + 1;
    }
    proof {
        assert forall|j: int| !occurs_at(s@, p@, j) by {
            if occurs_at(s@, p@, j) {
                assert(j <= s.len());
            }
        }
    }
    false
}

/// Whether a cached memory matches a search: after normalization, each
/// white-space separated term of the query occurs in the memory's text.
pub fn memory_matches(query: &str, text: &str) -> (r: bool)
    ensures
        r == all_terms_in(folded(query@), folded(text@)),
{
    let q = crate::computer::lowercase(normalize_kc(query).as_str());
    let t = crate::computer::lowercase(normalize_kc(text).as_str());
    let qc = chars_of(q.as_str());
    let tc = chars_of(t.as_str());
    let ghost qs = q@;
    let mut cur: Vec<char> = Vec::new();
    let ghost mut done: Seq<Seq<char>> = Seq::empty();
    for i in 0..qc.len()
        invariant
            qc@ == qs,
            qs == folded(query@),
            tc@ == folded(text@),
            ws_pieces(qs.take(i as int)) == done.push(cur@),
            forall|k: int| 0 <= k < done.len() && #[trigger] done[k].len() > 0 ==> exists|j: int|
                occurs_at(tc@, done[k], j),
    {
        proof {
            assert(qs.take(i + 1).drop_last() =~= qs.take(i as int));
            assert(qs.take(i + 1).last() == qc@[i as int]);
            lemma_ws_pieces_nonempty(qs.take(i as int));
        }
        let c = qc[i];
        if crate::text::white_space(c) {
            if cur.len() > 0 && !occurs_anywhere(&tc, &cur) {
                proof {
                    lemma_ws_pieces_prefix(qs, i + 1, done.len() as int);
                    assert(ws_pieces(qs.take(i + 1)) =~= done.push(cur@).push(Seq::empty()));
                    assert(qs.take(qs.len() as int) =~= qs);
                    assert(ws_pieces(qs)[done.len() as int] == cur@);
                    assert(ws_pieces(qs)[done.len() as int].len() > 0);
                }
                return false;
            }
            proof {
                done = done.push(cur@);
            }
            cur = Vec::new();
            proof {
                assert(ws_pieces(qs.take(i + 1)) =~= done.push(cur@));
            }
        } else {
            cur.push(c);
            proof {
                assert(ws_pieces(qs.take(i + 1)) =~= done.push(cur@));
            }
        }
    }
    proof {
        assert(qs.take(qc.len() as int) =~= qs);
    }
    if cur.len() > 0 && !occurs_anywhere(&tc, &cur) {
        proof {
            assert(ws_pieces(qs)[done.len() as int] == cur@);
        }
        return false;
    }
    true
}

proof fn lemma_ws_pieces_prefix(s: Seq<char>, i: int, k: int)
    requires
        0 <= i <= s.len(),
        0 <= k < ws_pieces(s.take(i)).len() - 1,
    ensures
        ws_pieces(s)[k] == ws_pieces(s.take(i))[k],
        ws_pieces(s).len() >= ws_pieces(s.take(i)).len(),
    decreases s.len() - i,
{
    if i < s.len() {
        assert(s.take(i + 1).drop_last() =~= s.take(i));
        lemma_ws_pieces_nonempty(s.take(i));
        let prev = ws_pieces(s.take(i));
        let next = ws_pieces(s.take(i + 1));
        assert(next.len() >= prev.len());
        assert(next[k] == prev[k]);
        lemma_ws_pieces_prefix(s, i + 1, k);
    } else {
        assert(s.take(i) =~= s);
    }
}

/// A personal memory from the cloud cache.
pub struct MemoryRow {
    pub id: String,
    pub text: String,
    /// When it last changed, as the service writes it.
    pub updated: String,
}

pub struct RowModel {
    pub id: Seq<char>,
    pub text: Seq<char>,
    pub updated: Seq<char>,
}

impl View for MemoryRow {
    type V = RowModel;

    open spec fn view(&self) -> RowModel {
        RowModel { id: self.id@, text: self.text@, updated: self.updated@ }
    }
}

pub open spec fn row_views(rows: Seq<MemoryRow>) -> Seq<RowModel> {
    rows.map_values(|r: MemoryRow| r@)
}

/// `a` sorts strictly before `b`, character by character (for UTF-8 text
/// the same order as byte by byte).
pub open spec fn text_before(a: Seq<char>, b: Seq<char>) -> bool
    decreases a.len(),
{
    if a.len() == 0 {
        b.len() > 0
    } else if b.len() == 0 {
        false
    } else if a[0] != b[0] {
        (a[0] as u32) < (b[0] as u32)
    } else {
        text_before(a.drop_first(), b.drop_first())
    }
}

/// `x` put into `s` before the first row that changed earlier than it.
pub open spec fn insert_by_recency(s: Seq<RowModel>, x: RowModel) -> Seq<RowModel>
    decreases s.len(),
{
    if s.len() == 0 {
        seq![x]
    } else if text_before(s[0].updated, x.updated) {
        seq![x] + s
    } else {
        seq![s[0]] + insert_by_recency(s.drop_first(), x)
    }
}

/// The rows newest first; rows that changed at the same time keep their
/// order, as a stable sort leaves them.
pub open spec fn by_recency(rows: Seq<RowModel>) -> Seq<RowModel>
    decreases rows.len(),
{
    if rows.len() == 0 {
        Seq::empty()
    } else {
        insert_by_recency(by_recency(rows.drop_last()), rows.last())
    }
}

/// Line breaks shown as spaces.
pub open spec fn one_line(s: Seq<char>) -> Seq<char> {
    s.map_values(|c: char| if c == '\n' || c == '\r' { ' ' } else { c })
}

/// The digest line of a memory: its id's first 8 characters and its text's
/// first 120, on one line.
pub open spec fn row_line(r: RowModel) -> Seq<char> {
    let id = if r.id.len() <= 8 { r.id } else { r.id.take(8) };
    let text = if r.text.len() <= 120 { r.text } else { r.text.take(120) };
    "\n- ["@ + id + "] "@ + one_line(text)
}

/// The closing line for memories left out.
pub open spec fn more_line(n: nat) -> Seq<char> {
    "\n- … "@ + decimal(n) + " more; use memory_search"@
}

/// The largest digest, in bytes.
pub const DIGEST_BYTES: usize = 4000;

/// The lines for rows `i..` when the digest already holds `used` bytes: a
/// row is listed while it, and the closing line that the rest would need,
/// still fit; otherwise the closing line counts every row left.
pub open spec fn listing(rows: Seq<RowModel>, i: int, used: int) -> Seq<char>
    decreases rows.len() - i,
{
    if i < 0 || i >= rows.len() {
        Seq::empty()
    } else {
        let line = row_line(rows[i]);
        let remainder = rows.len() - i - 1;
        let reserve = if remainder > 0 { utf8_len(more_line(remainder as nat)) as int } else { 0 };
        if used + utf8_len(line) + reserve > DIGEST_BYTES {
            more_line((rows.len() - i) as nat)
        } else {
            line + listing(rows, i + 1, used + utf8_len(line))
        }
    }
}

/// The heading of the digest.
pub open spec fn digest_heading(count: nat, synced: Seq<char>, offline: bool) -> Seq<char> {
    "Personal memory (cloud, "@ + decimal(count) + " items, synced "@ + synced + (if offline {
        ", offline"@
    } else {
        ""@
    }) + "):"@
}

/// The cloud memory digest given to the model.
pub open spec fn spec_digest(rows: Seq<RowModel>, synced: Seq<char>, offline: bool) -> Seq<char> {
    let heading = digest_heading(rows.len(), synced, offline);
    heading + listing(by_recency(rows), 0, utf8_len(heading) as int)
}

fn text_before_exec(a: &Vec<char>, b: &Vec<char>) -> (r: bool)
    ensures
        r == text_before(a@, b@),
{
    let mut i: usize = 0;
    proof {
        assert(a@.skip(0) =~= a@);
        assert(b@.skip(0) =~= b@);
    }
    while i < a.len() && i < b.len()
        invariant
            i <= a.len(),
            i <= b.len(),
            forall|k: int| 0 <= k < i ==> a@[k] == b@[k],
            text_before(a@, b@) == text_before(a@.skip(i as int), b@.skip(i as int)),
        decreases a.len() - i,
    {
        if a[i] != b[i] {
            proof {
                assert(a@.skip(i as int)[0] == a@[i as int]);
                assert(b@.skip(i as int)[0] == b@[i as int]);
            }
            return (a[i] as u32) < (b[i] as u32);
        }
        proof {
            assert(a@.skip(i as int).drop_first() =~= a@.skip(i + 1));
            assert(b@.skip(i as int).drop_first() =~= b@.skip(i + 1));
        }
        i = i + 1;
    }
    i == a.len() && i < b.len()
}

proof fn lemma_insert_at(s: Seq<RowModel>, x: RowModel, p: int)
    requires
        0 <= p <= s.len(),
        forall|k: int| 0 <= k < p ==> !text_before(#[trigger] s[k].updated, x.updated),
        p == s.len() || text_before(s[p].updated, x.updated),
    ensures
        insert_by_recency(s, x) == s.take(p) + seq![x] + s.skip(p),
    decreases s.len(),
{
    if s.len() == 0 {
        assert(s.take(p) + seq![x] + s.skip(p) =~= seq![x]);
    } else if p == 0 {
        assert(s.take(p) + seq![x] + s.skip(p) =~= seq![x] + s);
    } else {
        let t = s.drop_first();
        assert forall|k: int| 0 <= k < p - 1 implies !text_before(#[trigger] t[k].updated, x.updated) by {
            assert(t[k] == s[k + 1]);
        }
        if p < s.len() {
            assert(t[p - 1] == s[p]);
        }
        lemma_insert_at(t, x, p - 1);
        assert(seq![s[0]] + (t.take(p - 1) + seq![x] + t.skip(p - 1)) =~= s.take(p) + seq![x] + s.skip(p));
    }
}

fn copy_row(r: &MemoryRow) -> (c: MemoryRow)
    ensures
        c@ == r@,
{
    MemoryRow { id: r.id.clone(), text: r.text.clone(), updated: r.updated.clone() }
}

/// Sorts the rows newest first, stably.
fn sort_by_recency(rows: &Vec<MemoryRow>) -> (r: Vec<MemoryRow>)
    ensures
        row_views(r@) == by_recency(row_views(rows@)),
{
    let ghost all = row_views(rows@);
    let mut out: Vec<MemoryRow> = Vec::new();
    let mut keys: Vec<Vec<char>> = Vec::new();
    proof {
        assert(all.take(0) =~= Seq::<RowModel>::empty());
        assert(row_views(out@) =~= Seq::<RowModel>::empty());
    }
    for i in 0..rows.len()
        invariant
            all == row_views(rows@),
            all.len() == rows.len(),
            row_views(out@) == by_recency(all.take(i as int)),
            keys.len() == out.len(),
            forall|k: int| 0 <= k < out.len() ==> (#[trigger] keys[k])@ == out[k].updated@,
    {
        let row = copy_row(&rows[i]);
        let key = crate::text::chars_of(row.updated.as_str());
        let mut p: usize = 0;
        while p < out.len() && !text_before_exec(&keys[p], &key)
            invariant
                p <= out.len(),
                keys.len() == out.len(),
                forall|k: int| 0 <= k < out.len() ==> (#[trigger] keys[k])@ == out[k].updated@,
                key@ == row.updated@,
                forall|k: int| 0 <= k < p ==> !text_before(#[trigger] out[k].updated@, row.updated@),
            decreases out.len() - p,
        {
            p = p + 1;
        }
        proof {
            let s = row_views(out@);
            assert forall|k: int| 0 <= k < p implies !text_before(#[trigger] s[k].updated, row@.updated) by {
                assert(s[k] == out[k]@);
            }
            if p < out.len() {
                assert(s[p as int] == out[p as int]@);
            }
            lemma_insert_at(s, row@, p as int);
            assert(all.take(i + 1).drop_last() =~= all.take(i as int));
            assert(all.take(i + 1).last() == all[i as int]);
            assert(all[i as int] == rows[i as int]@);
        }
        let ghost before = out@;
        let ghost before_keys = keys@;
        out.insert(p, row);
        keys.insert(p, key);
        proof {
            assert(row_views(out@) =~= row_views(before).take(p as int) + seq![out[p as int]@] + row_views(
                before,
            ).skip(p as int));
            assert forall|k: int| 0 <= k < out.len() implies (#[trigger] keys[k])@ == out[k].updated@ by {
                if k < p {
                    assert(keys[k] == before_keys[k]);
                    assert(out[k] == before[k]);
                } else if k > p {
                    assert(keys[k] == before_keys[k - 1]);
                    assert(out[k] == before[k - 1]);
                }
            }
        }
    }
    proof {
        assert(all.take(rows.len() as int) =~= all);
    }
    out
}

fn row_line_exec(r: &MemoryRow) -> (s: String)
    ensures
        s@ == row_line(r@),
{
    let mut s = String::new();
    s.append("\n- [");
    let id = chars_of(r.id.as_str());
    let mut k: usize = 0;
    while k < id.len() && k < 8
        invariant
            id@ == r.id@,
            k <= id.len(),
            k <= 8,
            s@ == "\n- ["@ + id@.take(k as int),
        decreases id.len() - k,
    {
        push_char(&mut s, id[k]);
        proof {
            assert(id@.take(k + 1) == id@.take(k as int).push(id@[k as int]));
        }
        k = k + 1;
    }
    let ghost id_part = if r.id@.len() <= 8 { r.id@ } else { r.id@.take(8) };
    proof {
        if r.id@.len() <= 8 {
            assert(id@.take(k as int) =~= r.id@);
        }
        assert(s@ == "\n- ["@ + id_part);
    }
    s.append("] ");
    let ghost base = s@;
    let text = chars_of(r.text.as_str());
    let mut k: usize = 0;
    while k < text.len() && k < 120
        invariant
            text@ == r.text@,
            k <= text.len(),
            k <= 120,
            s@ == base + one_line(text@.take(k as int)),
        decreases text.len() - k,
    {
        let c = text[k];
        push_char(&mut s, if c == '\n' || c == '\r' { ' ' } else { c });
        proof {
            assert(one_line(text@.take(k + 1)) =~= one_line(text@.take(k as int)).push(
                if c == '\n' || c == '\r' { ' ' } else { c },
            ));
        }
        k = k + 1;
    }
    proof {
        if r.text@.len() <= 120 {
            assert(text@.take(k as int) =~= r.text@);
        }
        assert(s@ =~= row_line(r@));
    }
    s
}

fn more_line_exec(n: usize) -> (s: String)
    ensures
        s@ == more_line(n as nat),
{
    let mut s = String::new();
    s.append("\n- … ");
    push_decimal(&mut s, n as u64);
    s.append(" more; use memory_search");
    s
}

/// The cloud memory digest given to the model: a heading with the number
/// of memories, when they were synced and whether that was long ago, then
/// the newest memories that fit in 4000 bytes and a line counting the rest.
pub fn cloud_digest(rows: &Vec<MemoryRow>, synced: &str, offline: bool) -> (s: String)
    ensures
        s@ == spec_digest(row_views(rows@), synced@, offline),
{
    let sorted = sort_by_recency(rows);
    let ghost ordered = row_views(sorted@);
    let mut out = String::new();
    out.append("Personal memory (cloud, ");
    push_decimal(&mut out, rows.len() as u64);
    out.append(" items, synced ");
    out.append(synced);
    if offline {
        out.append(", offline");
    }
    out.append("):");
    proof {
        reveal_strlit("");
        assert(row_views(rows@).len() == rows.len());
        assert(out@ =~= digest_heading(rows.len() as nat, synced@, offline));
    }
    let ghost heading = out@;
    let mut used: u128 = utf8_length(out.as_str());
    proof {
        assert(out@ + listing(ordered, 0, used as int) == heading + listing(ordered, 0, utf8_len(heading) as int));
    }
    let n = sorted.len();
    let mut i: usize = 0;
    while i < n
        invariant
            ordered == row_views(sorted@),
            ordered == by_recency(row_views(rows@)),
            n == sorted.len(),
            ordered.len() == n,
            i <= n,
            out@ + listing(ordered, i as int, used as int) == heading + listing(ordered, 0, utf8_len(heading) as int),
            heading == digest_heading(rows.len() as nat, synced@, offline),
        decreases n - i,
    {
        let line = row_line_exec(&sorted[i]);
        let lw = utf8_length(line.as_str());
        let remainder = n - i - 1;
        let reserve: u128 = if remainder > 0 {
            utf8_length(more_line_exec(remainder).as_str())
        } else {
            0
        };
        let exceeds = match used.checked_add(lw) {
            None => true,
            Some(x) => match x.checked_add(reserve) {
                None => true,
                Some(y) => y > DIGEST_BYTES as u128,
            },
        };
        proof {
            assert(ordered[i as int] == sorted[i as int]@);
        }
        if exceeds {
            let more = more_line_exec(n - i);
            proof {
                assert(listing(ordered, i as int, used as int) == more@);
            }
            out.append(more.as_str());
            proof {
                assert(listing(ordered, i as int, used as int) == more@ + listing(ordered, n as int, 0));
                assert(out@ + listing(ordered, n as int, 0) =~= out@);
            }
            return out;
        }
        proof {
            assert(listing(ordered, i as int, used as int) == line@ + listing(ordered, i + 1, used + lw));
        }
        let ghost before = out@;
        out.append(line.as_str());
        proof {
            assert(before + listing(ordered, i as int, used as int) =~= out@ + listing(ordered, i + 1, used + lw));
        }
        used = used + lw;
        i = i + 1;
    }
    proof {
        assert(out@ + listing(ordered, n as int, used as int) =~= out@);
    }
    out
}

} // verus!
