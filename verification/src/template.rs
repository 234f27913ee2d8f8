//! Literal `{{name}}` placeholders filled across the text runs of a
//! paragraph. The runs are joined for matching; the replacement text goes
//! into the run where its placeholder starts, and the other characters of the
//! placeholder are removed from the runs they lie in.
use vstd::prelude::*;
use crate::error::Error;
use crate::context::{utf8_len, utf8_length};
use crate::file_ops::{occurs_at, occurs_here};
use crate::office::{invalid, invalid_message, bounded, xml_forbidden, has_forbidden};
use crate::text::decimal;
use crate::text::{chars_of, push_char};

verus! {

/// The texts of the runs.
pub open spec fn text_views(v: Seq<String>) -> Seq<Seq<char>> {
    v.map_values(|t: String| t@)
}

/// The runs joined into the paragraph text.
pub open spec fn joined(texts: Seq<Seq<char>>) -> Seq<char>
    decreases texts.len(),
{
    if texts.len() == 0 {
        Seq::empty()
    } else {
        joined(texts.drop_last()) + texts.last()
    }
}

/// Where run `i` starts in the joined text.
pub open spec fn run_start(texts: Seq<Seq<char>>, i: int) -> int {
    joined(texts.take(i)).len() as int
}

/// The placeholders of the replacement pairs.
pub open spec fn key_views(pairs: Seq<(String, String)>) -> Seq<Seq<char>> {
    pairs.map_values(|q: (String, String)| q.0@)
}

/// The replacement texts of the pairs.
pub open spec fn value_views(pairs: Seq<(String, String)>) -> Seq<Seq<char>> {
    pairs.map_values(|q: (String, String)| q.1@)
}

/// How much replacement text a whole template may add, in bytes.
pub const EXPANSION_LIMIT: u128 = 10_000_000;

/// The starts of the occurrences of a non-empty `p` in `s` from `i` on,
/// found left to right without overlap, as `str::match_indices` finds them.
pub open spec fn hits(s: Seq<char>, p: Seq<char>, i: int) -> Seq<int>
    decreases s.len() - i,
{
    if p.len() == 0 || i < 0 || i >= s.len() {
        Seq::empty()
    } else if occurs_at(s, p, i) {
        seq![i] + hits(s, p, i + p.len())
    } else {
        hits(s, p, i + 1)
    }
}

/// Placeholder `j` occurs at `o` of the joined text.
pub open spec fn placed(s: Seq<char>, keys: Seq<Seq<char>>, j: int, o: int) -> bool {
    0 <= j < keys.len() && hits(s, keys[j], 0).contains(o)
}

/// Character `p` lies in the occurrence of placeholder `j` at `o`.
pub open spec fn covered_by(s: Seq<char>, keys: Seq<Seq<char>>, j: int, o: int, p: int) -> bool {
    placed(s, keys, j, o) && o <= p < o + keys[j].len()
}

/// Two different placeholder occurrences share a character.
pub open spec fn overlapping(s: Seq<char>, keys: Seq<Seq<char>>) -> bool {
    exists|j1: int, o1: int, j2: int, o2: int, p: int|
        #[trigger] covered_by(s, keys, j1, o1, p) && #[trigger] covered_by(s, keys, j2, o2, p) && (
        j1 != j2 || o1 != o2)
}

proof fn lemma_hits_range(s: Seq<char>, p: Seq<char>, i: int)
    ensures
        forall|k: int|
            0 <= k < hits(s, p, i).len() ==> i <= #[trigger] hits(s, p, i)[k] < s.len() && occurs_at(
                s,
                p,
                hits(s, p, i)[k],
            ),
    decreases s.len() - i,
{
    if p.len() == 0 || i < 0 || i >= s.len() {
    } else if occurs_at(s, p, i) {
        lemma_hits_range(s, p, i + p.len());
        let h = hits(s, p, i);
        let t = hits(s, p, i + p.len());
        assert(h == seq![i] + t);
        assert forall|k: int| 0 <= k < h.len() implies i <= #[trigger] h[k] < s.len() && occurs_at(
            s,
            p,
            h[k],
        ) by {
            if k > 0 {
                assert(h[k] == t[k - 1]);
            }
        }
    } else {
        assert(hits(s, p, i) == hits(s, p, i + 1));
        lemma_hits_range(s, p, i + 1);
    }
}

proof fn lemma_covered_in_range(s: Seq<char>, keys: Seq<Seq<char>>, j: int, o: int, p: int)
    requires
        covered_by(s, keys, j, o, p),
    ensures
        0 <= o <= p < s.len(),
        o + keys[j].len() <= s.len(),
        occurs_at(s, keys[j], o),
{
    let h = hits(s, keys[j], 0);
    let idx = choose|idx: int| 0 <= idx < h.len() && h[idx] == o;
    lemma_hits_range(s, keys[j], 0);
    assert(occurs_at(s, keys[j], h[idx]));
}

fn span_free(owner: &Vec<Option<usize>>, i: usize, n: usize) -> (r: bool)
    requires
        i + n <= owner.len(),
    ensures
        r == forall|p: int| i <= p < i + n ==> #[trigger] owner[p] is None,
{
    let mut q: usize = i;
    while q < i + n
        invariant
            i <= q <= i + n,
            i + n <= owner.len(),
            forall|p: int| i <= p < q ==> #[trigger] owner[p] is None,
        decreases i + n - q,
    {
        if owner[q].is_some() {
            return false;
        }
        q = q + 1;
    }
    true
}

fn claim(owner: &mut Vec<Option<usize>>, i: usize, n: usize, m: usize)
    requires
        i + n <= old(owner).len(),
    ensures
        final(owner).len() == old(owner).len(),
        forall|p: int| i <= p < i + n ==> #[trigger] final(owner)[p] == Some(m),
        forall|p: int|
            0 <= p < old(owner).len() && !(i <= p < i + n) ==> #[trigger] final(owner)[p] == old(owner)[p],
{
    let mut q: usize = i;
    while q < i + n
        invariant
            i <= q <= i + n,
            i + n <= owner.len(),
            owner.len() == old(owner).len(),
            forall|p: int| i <= p < q ==> #[trigger] owner[p] == Some(m),
            forall|p: int| 0 <= p < owner.len() && !(i <= p < q) ==> #[trigger] owner[p] == old(owner)[p],
        decreases i + n - q,
    {
        owner.set(q, Some(m));
        q = q + 1;
    }
}

/// Where the placeholder occurrences lie: `owner[p]` names the occurrence
/// that covers character `p`, as an index into `spots` (placeholder, start).
pub open spec fn owners_exact(
    s: Seq<char>,
    keys: Seq<Seq<char>>,
    owner: Seq<Option<usize>>,
    spots: Seq<(usize, usize)>,
) -> bool {
    &&& owner.len() == s.len()
    &&& forall|m: int|
        0 <= m < spots.len() ==> placed(s, keys, #[trigger] spots[m].0 as int, spots[m].1 as int)
    &&& forall|p: int|
        0 <= p < s.len() && #[trigger] owner[p] is Some ==> ({
            let m = owner[p]->0 as int;
            0 <= m < spots.len() && spots[m].1 <= p < spots[m].1 + keys[spots[m].0 as int].len()
        })
    &&& forall|j: int, o: int, p: int|
        #[trigger] covered_by(s, keys, j, o, p) ==> owner[p] is Some && spots[owner[p]->0 as int] == (
        j as usize,
        o as usize,
        )
}

/// Some placeholder occurs in the joined text.
pub open spec fn any_placed(s: Seq<char>, keys: Seq<Seq<char>>) -> bool {
    exists|j: int, o: int| placed(s, keys, j, o)
}

/// What character `p` of the joined text becomes: the replacement where a
/// placeholder starts there, nothing elsewhere inside a placeholder, and
/// itself outside every placeholder.
pub open spec fn piece(s: Seq<char>, keys: Seq<Seq<char>>, values: Seq<Seq<char>>, p: int) -> Seq<
    char,
> {
    if exists|j: int| placed(s, keys, j, p) {
        values[choose|j: int| placed(s, keys, j, p)]
    } else if exists|j: int, o: int| covered_by(s, keys, j, o, p) {
        Seq::empty()
    } else {
        seq![s[p]]
    }
}

/// Characters `lo..hi` of the joined text after the replacement.
pub open spec fn rendered(
    s: Seq<char>,
    keys: Seq<Seq<char>>,
    values: Seq<Seq<char>>,
    lo: int,
    hi: int,
) -> Seq<char>
    decreases hi - lo,
{
    if hi <= lo {
        Seq::empty()
    } else {
        rendered(s, keys, values, lo, hi - 1) + piece(s, keys, values, hi - 1)
    }
}

/// The bytes that the replacements of the first `j` placeholders add.
pub open spec fn expansion(s: Seq<char>, keys: Seq<Seq<char>>, values: Seq<Seq<char>>, j: int) -> int
    decreases j,
{
    if j <= 0 {
        0
    } else {
        expansion(s, keys, values, j - 1) + hits(s, keys[j - 1], 0).len() * utf8_len(values[j - 1])
    }
}

proof fn lemma_expansion_grows(s: Seq<char>, keys: Seq<Seq<char>>, values: Seq<Seq<char>>, j: int, k: int)
    requires
        0 <= j <= k,
    ensures
        expansion(s, keys, values, j) <= expansion(s, keys, values, k),
    decreases k - j,
{
    if j < k {
        lemma_expansion_grows(s, keys, values, j, k - 1);
    }
}

pub open spec fn char_views(keys: Seq<Vec<char>>) -> Seq<Seq<char>> {
    keys.map_values(|k: Vec<char>| k@)
}

/// Finds every placeholder occurrence, or reports that two overlap.
fn place(s: &Vec<char>, keys: &Vec<Vec<char>>) -> (r: Result<
    (Vec<Option<usize>>, Vec<(usize, usize)>, Vec<usize>),
    (),
>)
    requires
        forall|j: int| 0 <= j < keys.len() ==> (#[trigger] keys[j])@.len() > 0,
    ensures
        r is Err ==> overlapping(s@, char_views(keys@)),
        r matches Ok((owner, spots, counts)) ==> {
            &&& owners_exact(s@, char_views(keys@), owner@, spots@)
            &&& counts.len() == keys.len()
            &&& forall|j: int|
                0 <= j < keys.len() ==> #[trigger] counts[j] == hits(s@, keys[j]@, 0).len()
        },
{
    let ghost ks = char_views(keys@);
    let mut owner: Vec<Option<usize>> = Vec::new();
    while owner.len() < s.len()
        invariant
            owner.len() <= s.len(),
            forall|p: int| 0 <= p < owner.len() ==> owner[p] is None,
        decreases s.len() - owner.len(),
    {
        owner.push(None);
    }
    let mut spots: Vec<(usize, usize)> = Vec::new();
    let mut counts: Vec<usize> = Vec::new();
    for j in 0..keys.len()
        invariant
            ks == char_views(keys@),
            ks.len() == keys.len(),
            forall|x: int| 0 <= x < keys.len() ==> (#[trigger] keys[x])@.len() > 0,
            owner.len() == s.len(),
            counts.len() == j,
            forall|x: int| 0 <= x < j ==> #[trigger] counts[x] == hits(s@, keys[x]@, 0).len(),
            forall|m: int|
                0 <= m < spots.len() ==> #[trigger] spots[m].0 < j && placed(
                    s@,
                    ks,
                    spots[m].0 as int,
                    spots[m].1 as int,
                ),
            forall|p: int|
                0 <= p < s.len() && #[trigger] owner[p] is Some ==> ({
                    let m = owner[p]->0 as int;
                    0 <= m < spots.len() && spots[m].1 <= p < spots[m].1 + ks[spots[m].0 as int].len()
                }),
            forall|x: int, o: int, p: int|
                #[trigger] covered_by(s@, ks, x, o, p) && x < j ==> owner[p] is Some
                    && spots[owner[p]->0 as int] == (x as usize, o as usize),
    {
        let key = &keys[j];
        proof {
            assert(ks[j as int] == key@);
            lemma_hits_range(s@, key@, 0);
        }
        let ghost all = hits(s@, key@, 0);
        let ghost mut found: Seq<int> = Seq::empty();
        let mut i: usize = 0;
        let mut count: usize = 0;
        while i < s.len()
            invariant
                ks == char_views(keys@),
                ks.len() == keys.len(),
                0 <= j < keys.len(),
                key@ == ks[j as int],
                key@.len() > 0,
                all == hits(s@, key@, 0),
                found + hits(s@, key@, i as int) == all,
                count == found.len(),
                count <= i,
                i <= s.len() + key@.len(),
                forall|k: int| 0 <= k < found.len() ==> #[trigger] found[k] < i,
                owner.len() == s.len(),
                forall|m: int|
                    0 <= m < spots.len() ==> (#[trigger] spots[m].0 < j || (spots[m].0 == j
                        && spots[m].1 < i)) && placed(s@, ks, spots[m].0 as int, spots[m].1 as int),
                forall|p: int|
                    0 <= p < s.len() && #[trigger] owner[p] is Some ==> ({
                        let m = owner[p]->0 as int;
                        0 <= m < spots.len() && spots[m].1 <= p < spots[m].1 + ks[spots[m].0 as int].len()
                    }),
                forall|x: int, o: int, p: int|
                    #[trigger] covered_by(s@, ks, x, o, p) && (x < j || (x == j && o < i))
                        ==> owner[p] is Some && spots[owner[p]->0 as int] == (x as usize, o as usize),
            decreases s.len() - i,
        {
            proof {
                lemma_hits_range(s@, key@, i as int);
            }
            if occurs_here(s, key, i) {
                let ghost rest = hits(s@, key@, i + key@.len());
                proof {
                    assert(hits(s@, key@, i as int) == seq![i as int] + rest);
                    assert(all == found + seq![i as int] + rest);
                    assert(all[found.len() as int] == i);
                    assert(placed(s@, ks, j as int, i as int));
                }
                if !span_free(&owner, i, key.len()) {
                    proof {
                        let q = choose|q: int| i <= q < i + key@.len() && #[trigger] owner[q] is Some;
                        let m = owner[q]->0 as int;
                        let x = spots[m].0 as int;
                        let o = spots[m].1 as int;
                        assert(covered_by(s@, ks, x, o, q));
                        assert(covered_by(s@, ks, j as int, i as int, q));
                        assert(x != j || o != i);
                    }
                    return Err(());
                }
                let ghost old_owner = owner@;
                let ghost old_spots = spots@;
                let m = spots.len();
                spots.push((j, i));
                claim(&mut owner, i, key.len(), m);
                proof {
                    lemma_hits_range(s@, key@, i + key@.len());
                    assert(spots@ == old_spots.push((j, i)));
                    assert forall|x: int, o: int, p: int|
                        #[trigger] covered_by(s@, ks, x, o, p) && (x < j || (x == j && o < i
                            + key@.len())) implies owner[p] is Some && spots[owner[p]->0 as int] == (
                        x as usize,
                        o as usize,
                    ) by {
                        lemma_covered_in_range(s@, ks, x, o, p);
                        if x < j || (x == j && o < i) {
                            assert(old_owner[p] is Some);
                            assert(!(i <= p < i + key@.len()));
                            assert(owner[p] == old_owner[p]);
                        } else {
                            let idx = choose|idx: int| 0 <= idx < all.len() && all[idx] == o;
                            if idx < found.len() {
                                assert(found[idx] < i);
                            } else if idx > found.len() {
                                assert(all[idx] == rest[idx - found.len() - 1]);
                            }
                            assert(o == i);
                            assert(owner[p] == Some(m));
                        }
                    }
                    assert((found.push(i as int)) + rest =~= found + seq![i as int] + rest);
                }
                proof {
                    found = found.push(i as int);
                }
                count = count + 1;
                i = i + key.len();
            } else {
                proof {
                    assert(hits(s@, key@, i as int) == hits(s@, key@, i + 1));
                    assert forall|x: int, o: int, p: int|
                        #[trigger] covered_by(s@, ks, x, o, p) && (x < j || (x == j && o < i + 1))
                            implies owner[p] is Some && spots[owner[p]->0 as int] == (
                        x as usize,
                        o as usize,
                    ) by {
                        if x == j && o == i {
                            let idx = choose|idx: int| 0 <= idx < all.len() && all[idx] == o;
                            if idx < found.len() {
                                assert(found[idx] < i);
                            } else {
                                assert(all[idx] == hits(s@, key@, i + 1)[idx - found.len()]);
                                lemma_hits_range(s@, key@, i + 1);
                            }
                        }
                    }
                }
                i = i + 1;
            }
        }
        proof {
            assert(hits(s@, key@, i as int) =~= Seq::<int>::empty());
            assert(found =~= all);
            assert forall|x: int, o: int, p: int|
                #[trigger] covered_by(s@, ks, x, o, p) && x < j + 1 implies owner[p] is Some
                    && spots[owner[p]->0 as int] == (x as usize, o as usize) by {
                if x == j {
                    let idx = choose|idx: int| 0 <= idx < all.len() && all[idx] == o;
                    assert(found[idx] < i);
                }
            }
        }
        counts.push(count);
    }
    Ok((owner, spots, counts))
}

/// The runs joined, and where each run starts (one more entry: the end).
fn join_runs(texts: &Vec<String>) -> (r: (Vec<char>, Vec<usize>))
    ensures
        r.0@ == joined(text_views(texts@)),
        r.1.len() == texts.len() + 1,
        forall|i: int| 0 <= i <= texts.len() ==> #[trigger] r.1[i] == run_start(text_views(texts@), i),
{
    let ghost tv = text_views(texts@);
    let mut s: Vec<char> = Vec::new();
    let mut starts: Vec<usize> = Vec::new();
    proof {
        assert(tv.take(0) =~= Seq::<Seq<char>>::empty());
    }
    for i in 0..texts.len()
        invariant
            tv == text_views(texts@),
            tv.len() == texts.len(),
            s@ == joined(tv.take(i as int)),
            starts.len() == i,
            forall|k: int| 0 <= k < i ==> #[trigger] starts[k] == run_start(tv, k),
    {
        proof {
            assert(tv.take(i + 1).drop_last() =~= tv.take(i as int));
            assert(tv[i as int] == texts[i as int]@);
        }
        starts.push(s.len());
        let mut cs = chars_of(texts[i].as_str());
        s.append(&mut cs);
    }
    proof {
        assert(tv.take(texts.len() as int) =~= tv);
    }
    starts.push(s.len());
    (s, starts)
}

/// The start of the occurrence that covers `p`, if any.
proof fn lemma_piece(
    s: Seq<char>,
    keys: Seq<Seq<char>>,
    values: Seq<Seq<char>>,
    owner: Seq<Option<usize>>,
    spots: Seq<(usize, usize)>,
    p: int,
)
    requires
        owners_exact(s, keys, owner, spots),
        forall|j: int| 0 <= j < keys.len() ==> (#[trigger] keys[j]).len() > 0,
        0 <= p < s.len(),
        s.len() <= usize::MAX,
        keys.len() <= usize::MAX,
    ensures
        owner[p] is None ==> piece(s, keys, values, p) == seq![s[p]],
        owner[p] is Some && spots[owner[p]->0 as int].1 == p ==> piece(s, keys, values, p)
            == values[spots[owner[p]->0 as int].0 as int],
        owner[p] is Some && spots[owner[p]->0 as int].1 != p ==> piece(s, keys, values, p)
            == Seq::<char>::empty(),
{
    if exists|j: int| placed(s, keys, j, p) {
        let jc = choose|j: int| placed(s, keys, j, p);
        assert(keys[jc].len() > 0);
        assert(covered_by(s, keys, jc, p, p));
        assert(owner[p] is Some);
        assert(spots[owner[p]->0 as int] == (jc as usize, p as usize));
        assert(piece(s, keys, values, p) == values[jc]);
    } else {
        if let Some(m) = owner[p] {
            let jm = spots[m as int].0 as int;
            let om = spots[m as int].1 as int;
            assert(placed(s, keys, jm, om));
            assert(covered_by(s, keys, jm, om, p));
            if om == p {
                assert(placed(s, keys, jm, p));
            }
            assert(piece(s, keys, values, p) == Seq::<char>::empty());
        } else {
            if exists|j: int, o: int| covered_by(s, keys, j, o, p) {
                let (jc, oc) = choose|j: int, o: int| covered_by(s, keys, j, o, p);
                assert(covered_by(s, keys, jc, oc, p));
                assert(owner[p] is Some);
            }
        }
    }
}

/// Characters `lo..hi` after the replacement.
fn render(
    s: &Vec<char>,
    owner: &Vec<Option<usize>>,
    spots: &Vec<(usize, usize)>,
    pairs: &Vec<(String, String)>,
    lo: usize,
    hi: usize,
) -> (r: String)
    requires
        owners_exact(s@, key_views(pairs@), owner@, spots@),
        forall|j: int| 0 <= j < pairs.len() ==> (#[trigger] pairs[j]).0@.len() > 0,
        lo <= hi <= s.len(),
    ensures
        r@ == rendered(s@, key_views(pairs@), value_views(pairs@), lo as int, hi as int),
{
    let ghost keys = key_views(pairs@);
    let ghost values = value_views(pairs@);
    let mut out = String::new();
    let mut p: usize = lo;
    proof {
        assert forall|j: int| 0 <= j < keys.len() implies (#[trigger] keys[j]).len() > 0 by {
            assert(keys[j] == pairs[j].0@);
        }
    }
    while p < hi
        invariant
            keys == key_views(pairs@),
            values == value_views(pairs@),
            keys.len() == pairs.len(),
            values.len() == pairs.len(),
            owners_exact(s@, keys, owner@, spots@),
            forall|j: int| 0 <= j < keys.len() ==> (#[trigger] keys[j]).len() > 0,
            lo <= p <= hi <= s.len(),
            out@ == rendered(s@, keys, values, lo as int, p as int),
        decreases hi - p,
    {
        proof {
            assert(keys.len() == pairs.len());
            lemma_piece(s@, keys, values, owner@, spots@, p as int);
        }
        match owner[p] {
            None => {
                push_char(&mut out, s[p]);
            },
            Some(m) => {
                if spots[m].1 == p {
                    let j = spots[m].0;
                    proof {
                        assert(placed(s@, keys, j as int, p as int));
                        assert(values[j as int] == pairs[j as int].1@);
                    }
                    out.append(pairs[j].1.as_str());
                }
            },
        }
        p = p + 1;
    }
    out
}

/// The start budget plus what the replacements add, or `None` where that
/// exceeds the limit.
fn expansion_total(
    counts: &Vec<usize>,
    pairs: &Vec<(String, String)>,
    budget: usize,
    Ghost(s): Ghost<Seq<char>>,
) -> (r: Option<u128>)
    requires
        counts.len() == pairs.len(),
        forall|j: int|
            0 <= j < pairs.len() ==> #[trigger] counts[j] == hits(s, key_views(pairs@)[j], 0).len(),
    ensures
        r matches Some(t) ==> t == budget + expansion(
            s,
            key_views(pairs@),
            value_views(pairs@),
            pairs.len() as int,
        ),
        r is None ==> budget + expansion(s, key_views(pairs@), value_views(pairs@), pairs.len() as int)
            > EXPANSION_LIMIT,
{
    let ghost keys = key_views(pairs@);
    let ghost values = value_views(pairs@);
    let mut acc: u128 = budget as u128;
    for j in 0..pairs.len()
        invariant
            keys == key_views(pairs@),
            values == value_views(pairs@),
            keys.len() == pairs.len(),
            values.len() == pairs.len(),
            counts.len() == pairs.len(),
            forall|x: int| 0 <= x < pairs.len() ==> #[trigger] counts[x] == hits(s, keys[x], 0).len(),
            acc == budget + expansion(s, keys, values, j as int),
    {
        let w = utf8_length(pairs[j].1.as_str());
        proof {
            assert(values[j as int] == pairs[j as int].1@);
            lemma_expansion_grows(s, keys, values, j + 1, pairs.len() as int);
        }
        match (counts[j] as u128).checked_mul(w) {
            None => {
                return None;
            },
            Some(x) => match acc.checked_add(x) {
                None => {
                    return None;
                },
                Some(a) => {
                    if a > EXPANSION_LIMIT {
                        return None;
                    }
                    acc = a;
                },
            },
        }
    }
    Some(acc)
}

/// What a filled paragraph gives: the new text of each run, how often each
/// placeholder occurred, and the replacement budget spent so far.
pub struct Filled {
    pub texts: Vec<String>,
    pub counts: Vec<usize>,
    pub budget: usize,
}

/// Fills the placeholders of one paragraph. `texts` are its runs, `pairs`
/// the placeholders with their replacements and `budget` the bytes the
/// template has grown to so far. Overlapping placeholders are refused; so is
/// growth beyond the limit once a placeholder occurs.
pub fn replace_paragraph(texts: &Vec<String>, pairs: &Vec<(String, String)>, budget: usize) -> (r:
    Result<Filled, Error>)
    requires
        forall|j: int| 0 <= j < pairs.len() ==> (#[trigger] pairs[j]).0@.len() > 0,
    ensures
        ({
            let tv = text_views(texts@);
            let s = joined(tv);
            let keys = key_views(pairs@);
            let values = value_views(pairs@);
            let total = budget + expansion(s, keys, values, keys.len() as int);
            &&& overlapping(s, keys) ==> (r matches Err(e) && e.status == 400 && e.message@
                == invalid_message("Overlapping template placeholders"@))
            &&& !overlapping(s, keys) && any_placed(s, keys) && total > EXPANSION_LIMIT ==> (r matches Err(
                e,
            ) && e.status == 400 && e.message@ == invalid_message(
                "Expanded template text exceeds 10 MB"@,
            ))
            &&& !overlapping(s, keys) && !(any_placed(s, keys) && total > EXPANSION_LIMIT) ==> (r matches Ok(
                f,
            ) && f.budget == total && f.counts.len() == pairs.len() && (forall|j: int|
                0 <= j < pairs.len() ==> #[trigger] f.counts[j] == hits(s, keys[j], 0).len())
                && f.texts.len() == texts.len() && (forall|i: int|
                0 <= i < texts.len() ==> #[trigger] f.texts[i]@ == rendered(
                    s,
                    keys,
                    values,
                    run_start(tv, i),
                    run_start(tv, i + 1),
                )))
        }),
{
    let ghost tv = text_views(texts@);
    let ghost keys = key_views(pairs@);
    let ghost values = value_views(pairs@);
    let (s, starts) = join_runs(texts);
    let mut ks: Vec<Vec<char>> = Vec::new();
    for j in 0..pairs.len()
        invariant
            keys == key_views(pairs@),
            keys.len() == pairs.len(),
            ks.len() == j,
            forall|x: int| 0 <= x < j ==> (#[trigger] ks[x])@ == keys[x],
    {
        ks.push(chars_of(pairs[j].0.as_str()));
    }
    proof {
        assert(char_views(ks@) =~= keys);
        assert forall|j: int| 0 <= j < ks.len() implies (#[trigger] ks[j])@.len() > 0 by {
            assert(keys[j] == pairs[j].0@);
        }
    }
    match place(&s, &ks) {
        Err(()) => Err(invalid("Overlapping template placeholders")),
        Ok((owner, spots, counts)) => {
            proof {
                assert forall|j: int| 0 <= j < keys.len() implies (#[trigger] keys[j]).len() > 0 by {
                    assert(keys[j] == pairs[j].0@);
                }
                if any_placed(s@, keys) {
                    let (j, o) = choose|j: int, o: int| placed(s@, keys, j, o);
                    assert(covered_by(s@, keys, j, o, o));
                    lemma_covered_in_range(s@, keys, j, o, o);
                    assert(owner[o] is Some);
                    assert(spots.len() > 0);
                }
                if spots.len() > 0 {
                    assert(placed(s@, keys, spots[0].0 as int, spots[0].1 as int));
                }
                assert(!overlapping(s@, keys)) by {
                    if overlapping(s@, keys) {
                        let (j1, o1, j2, o2, p) = choose|j1: int, o1: int, j2: int, o2: int, p: int|
                            #[trigger] covered_by(s@, keys, j1, o1, p) && #[trigger] covered_by(
                                s@,
                                keys,
                                j2,
                                o2,
                                p,
                            ) && (j1 != j2 || o1 != o2);
                        lemma_covered_in_range(s@, keys, j1, o1, p);
                        lemma_covered_in_range(s@, keys, j2, o2, p);
                        assert(keys.len() == pairs.len());
                        assert(0 <= j1 < keys.len() && 0 <= j2 < keys.len());
                        assert(0 <= o1 < s.len() && 0 <= o2 < s.len());
                        assert((j1 as usize) as int == j1 && (j2 as usize) as int == j2);
                        assert((o1 as usize) as int == o1 && (o2 as usize) as int == o2);
                        assert(spots[owner[p]->0 as int] == (j1 as usize, o1 as usize));
                        assert(spots[owner[p]->0 as int] == (j2 as usize, o2 as usize));
                        assert(j1 == j2 && o1 == o2);
                    }
                }
            }
            let spent: usize = if spots.len() == 0 {
                proof {
                    assert forall|j: int| 0 <= j <= keys.len() implies expansion(s@, keys, values, j) == 0 by {
                        lemma_no_expansion(s@, keys, values, j);
                    }
                }
                budget
            } else {
                match expansion_total(&counts, pairs, budget, Ghost(s@)) {
                    None => {
                        return Err(invalid("Expanded template text exceeds 10 MB"));
                    },
                    Some(t) => {
                        if t > EXPANSION_LIMIT {
                            return Err(invalid("Expanded template text exceeds 10 MB"));
                        }
                        t as usize
                    },
                }
            };
            let mut out: Vec<String> = Vec::new();
            for i in 0..texts.len()
                invariant
                    tv == text_views(texts@),
                    keys == key_views(pairs@),
                    values == value_views(pairs@),
                    starts.len() == texts.len() + 1,
                    forall|x: int| 0 <= x <= texts.len() ==> #[trigger] starts[x] == run_start(tv, x),
                    s@ == joined(tv),
                    owners_exact(s@, keys, owner@, spots@),
                    forall|j: int| 0 <= j < pairs.len() ==> (#[trigger] pairs[j]).0@.len() > 0,
                    out.len() == i,
                    forall|x: int|
                        0 <= x < i ==> #[trigger] out[x]@ == rendered(
                            s@,
                            keys,
                            values,
                            run_start(tv, x),
                            run_start(tv, x + 1),
                        ),
            {
                proof {
                    lemma_run_bounds(tv, i as int);
                }
                out.push(render(&s, &owner, &spots, pairs, starts[i], starts[i + 1]));
            }
            Ok(Filled { texts: out, counts, budget: spent })
        },
    }
}

proof fn lemma_run_bounds(tv: Seq<Seq<char>>, i: int)
    requires
        0 <= i < tv.len(),
    ensures
        0 <= run_start(tv, i) <= run_start(tv, i + 1) <= joined(tv).len(),
    decreases tv.len(),
{
    assert(tv.take(i + 1).drop_last() =~= tv.take(i));
    if i + 1 < tv.len() {
        lemma_run_bounds(tv.drop_last(), i);
        assert(tv.drop_last().take(i) =~= tv.take(i));
        assert(tv.drop_last().take(i + 1) =~= tv.take(i + 1));
    } else {
        assert(tv.take(i + 1) =~= tv);
    }
}

proof fn lemma_no_expansion(s: Seq<char>, keys: Seq<Seq<char>>, values: Seq<Seq<char>>, j: int)
    requires
        0 <= j <= keys.len(),
        !any_placed(s, keys),
    ensures
        expansion(s, keys, values, j) == 0,
    decreases j,
{
    if j > 0 {
        lemma_no_expansion(s, keys, values, j - 1);
        let h = hits(s, keys[j - 1], 0);
        if h.len() > 0 {
            assert(placed(s, keys, j - 1, h[0]));
        }
    }
}

/// `s` begins with `lit`.
pub open spec fn begins(s: Seq<char>, lit: Seq<char>) -> bool {
    occurs_at(s, lit, 0)
}

/// `s` ends with `lit`.
pub open spec fn finishes(s: Seq<char>, lit: Seq<char>) -> bool {
    occurs_at(s, lit, s.len() - lit.len())
}

/// `lit` occurs somewhere in `s`.
pub open spec fn holds(s: Seq<char>, lit: Seq<char>) -> bool {
    exists|i: int| occurs_at(s, lit, i)
}

pub(crate) fn begins_exec(s: &Vec<char>, lit: &str) -> (r: bool)
    ensures
        r == begins(s@, lit@),
{
    let p = chars_of(lit);
    occurs_here(s, &p, 0)
}

fn finishes_exec(s: &Vec<char>, lit: &str) -> (r: bool)
    ensures
        r == finishes(s@, lit@),
{
    let p = chars_of(lit);
    if p.len() > s.len() {
        return false;
    }
    occurs_here(s, &p, s.len() - p.len())
}

pub(crate) fn holds_exec(s: &Vec<char>, lit: &str) -> (r: bool)
    ensures
        r == holds(s@, lit@),
{
    let p = chars_of(lit);
    for i in 0..s.len()
        invariant
            p@ == lit@,
            forall|k: int| 0 <= k < i ==> !occurs_at(s@, lit@, k),
    {
        if occurs_here(s, &p, i) {
            return true;
        }
    }
    if occurs_here(s, &p, s.len()) {
        return true;
    }
    proof {
        assert forall|k: int| !occurs_at(s@, lit@, k) by {
            if 0 <= k < s.len() {
            }
        }
    }
    false
}

/// A placeholder key is written `{{name}}` and holds 5 to 100 bytes.
pub open spec fn key_shape_ok(k: Seq<char>) -> bool {
    &&& begins(k, "{{"@)
    &&& finishes(k, "}}"@)
    &&& 5 <= utf8_len(k) <= 100
}

/// Text that can go into a document: at most 32 000 bytes, no character
/// that XML forbids.
pub open spec fn xml_text_ok(v: Seq<char>) -> bool {
    utf8_len(v) <= 32_000 && forall|i: int| 0 <= i < v.len() ==> !xml_forbidden(#[trigger] v[i])
}

/// A line break or tab.
pub open spec fn breaks_line(c: char) -> bool {
    c == '\n' || c == '\r' || c == '\t'
}

/// Why a placeholder and its replacement are refused, if they are.
pub open spec fn pair_problem(k: Seq<char>, v: Seq<char>) -> Option<Seq<char>> {
    if !key_shape_ok(k) {
        Some(invalid_message("Use literal {{name}} placeholder keys"@))
    } else if !xml_text_ok(k) || !xml_text_ok(v) {
        Some("Office text is too long or contains invalid XML characters"@)
    } else if exists|i: int| 0 <= i < v.len() && breaks_line(#[trigger] v[i]) {
        Some(invalid_message("Template replacements must be single-line text"@))
    } else {
        None
    }
}

/// The first refused pair among the first `n`, with its message.
pub open spec fn first_problem(keys: Seq<Seq<char>>, values: Seq<Seq<char>>, n: int) -> Option<Seq<char>>
    decreases n,
{
    if n <= 0 {
        None
    } else {
        match first_problem(keys, values, n - 1) {
            Some(m) => Some(m),
            None => pair_problem(keys[n - 1], values[n - 1]),
        }
    }
}

/// The largest template accepted, in bytes.
pub const TEMPLATE_LIMIT: usize = 20_000_000;

/// The largest serialized replacement object accepted, in bytes.
pub const REPLACEMENTS_LIMIT: usize = 1_000_000;

/// Checks the requested format and the size of the replacement object as
/// serialized, before it is read as text pairs.
pub fn check_template_request(format: &str, serialized: usize) -> (r: Result<(), Error>)
    ensures
        !(format@ == "docx"@ || format@ == "pptx"@) ==> (r matches Err(e) && e.status == 400
            && e.message@ == invalid_message("Templates support DOCX and PPTX"@)),
        (format@ == "docx"@ || format@ == "pptx"@) && serialized > REPLACEMENTS_LIMIT ==> (r matches Err(
            e,
        ) && e.status == 400 && e.message@ == invalid_message("Template replacements exceed 1 MB"@)),
        (format@ == "docx"@ || format@ == "pptx"@) && serialized <= REPLACEMENTS_LIMIT ==> r is Ok,
{
    if !(crate::text::str_eq(format, "docx") || crate::text::str_eq(format, "pptx")) {
        return Err(invalid("Templates support DOCX and PPTX"));
    }
    if serialized > REPLACEMENTS_LIMIT {
        return Err(invalid("Template replacements exceed 1 MB"));
    }
    Ok(())
}

fn pair_check(k: &str, v: &str) -> (r: Result<(), Error>)
    ensures
        pair_problem(k@, v@) is None ==> r is Ok,
        pair_problem(k@, v@) matches Some(m) ==> (r matches Err(e) && e.status == 400 && e.message@ == m),
{
    let kc = chars_of(k);
    let klen = utf8_length(k);
    if !(begins_exec(&kc, "{{") && finishes_exec(&kc, "}}") && 5 <= klen && klen <= 100) {
        return Err(invalid("Use literal {{name}} placeholder keys"));
    }
    if utf8_length(k) > 32_000 || has_forbidden(k) || utf8_length(v) > 32_000 || has_forbidden(v) {
        return Err(Error::new(400, "Office text is too long or contains invalid XML characters"));
    }
    let vc = chars_of(v);
    for i in 0..vc.len()
        invariant
            vc@ == v@,
            key_shape_ok(k@),
            xml_text_ok(k@),
            xml_text_ok(v@),
            forall|x: int| 0 <= x < i ==> !breaks_line(#[trigger] v@[x]),
    {
        if vc[i] == '\n' || vc[i] == '\r' || vc[i] == '\t' {
            proof {
                assert(breaks_line(v@[i as int]));
            }
            return Err(invalid("Template replacements must be single-line text"));
        }
    }
    Ok(())
}

/// Checks the replacement pairs, in the order given, and the size of the
/// template.
pub fn check_replacements(pairs: &Vec<(String, String)>, template_bytes: usize) -> (r: Result<
    (),
    Error,
>)
    ensures
        ({
            let keys = key_views(pairs@);
            let values = value_views(pairs@);
            let n = pairs.len() as int;
            &&& (n == 0 || n > 100) ==> (r matches Err(e) && e.status == 400 && e.message@
                == "Replacements must contain 1..=100 items"@)
            &&& !(n == 0 || n > 100) && first_problem(keys, values, n) is Some ==> (r matches Err(e)
                && e.status == 400 && e.message@ == first_problem(keys, values, n)->0)
            &&& !(n == 0 || n > 100) && first_problem(keys, values, n) is None && template_bytes
                > TEMPLATE_LIMIT ==> (r matches Err(e) && e.status == 400 && e.message@
                == invalid_message("Template exceeds 20 MB"@))
            &&& !(n == 0 || n > 100) && first_problem(keys, values, n) is None && template_bytes
                <= TEMPLATE_LIMIT ==> r is Ok
        }),
{
    let ghost keys = key_views(pairs@);
    let ghost values = value_views(pairs@);
    match bounded(pairs.len(), 100, "Replacements") {
        Err(e) => {
            proof {
                reveal_strlit("Replacements");
                reveal_strlit(" must contain 1..=");
                reveal_strlit(" items");
                reveal_strlit("Replacements must contain 1..=100 items");
                reveal_with_fuel(decimal, 4);
                assert(decimal(100) =~= seq!['1', '0', '0']);
                assert(e.message@ =~= "Replacements must contain 1..=100 items"@);
            }
            return Err(e);
        },
        Ok(()) => {},
    }
    for i in 0..pairs.len()
        invariant
            keys == key_views(pairs@),
            values == value_views(pairs@),
            0 < pairs.len() <= 100,
            first_problem(keys, values, i as int) is None,
    {
        proof {
            assert(keys[i as int] == pairs[i as int].0@);
            assert(values[i as int] == pairs[i as int].1@);
        }
        match pair_check(pairs[i].0.as_str(), pairs[i].1.as_str()) {
            Err(e) => {
                proof {
                    assert(pair_problem(keys[i as int], values[i as int]) is Some);
                    assert(first_problem(keys, values, i + 1) == pair_problem(keys[i as int], values[i as int]));
                    lemma_first_problem_stays(keys, values, i as int + 1, pairs.len() as int);
                }
                return Err(e);
            },
            Ok(()) => {},
        }
    }
    if template_bytes > TEMPLATE_LIMIT {
        return Err(invalid("Template exceeds 20 MB"));
    }
    Ok(())
}

proof fn lemma_first_problem_stays(keys: Seq<Seq<char>>, values: Seq<Seq<char>>, i: int, n: int)
    requires
        0 < i <= n,
        first_problem(keys, values, i) is Some,
    ensures
        first_problem(keys, values, n) == first_problem(keys, values, i),
    decreases n - i,
{
    if i < n {
        lemma_first_problem_stays(keys, values, i, n - 1);
    }
}

/// The parts of a template whose text is filled: the body, headers,
/// footers, footnotes and endnotes of a document, or the slides and notes of
/// a presentation; always XML, never a relationship part.
pub open spec fn filled_part(docx: bool, name: Seq<char>) -> bool {
    &&& if docx {
        name == "word/document.xml"@ || begins(name, "word/header"@) || begins(name, "word/footer"@)
            || name == "word/footnotes.xml"@ || name == "word/endnotes.xml"@
    } else {
        begins(name, "ppt/slides/slide"@) || begins(name, "ppt/notesSlides/notesSlide"@)
    }
    &&& finishes(name, ".xml"@)
    &&& !holds(name, "/_rels/"@)
}

/// Whether the text of a template part is filled.
pub fn filled_part_exec(docx: bool, name: &str) -> (r: bool)
    ensures
        r == filled_part(docx, name@),
{
    let c = chars_of(name);
    let selected = if docx {
        crate::text::str_eq(name, "word/document.xml") || begins_exec(&c, "word/header")
            || begins_exec(&c, "word/footer") || crate::text::str_eq(name, "word/footnotes.xml")
            || crate::text::str_eq(name, "word/endnotes.xml")
    } else {
        begins_exec(&c, "ppt/slides/slide") || begins_exec(&c, "ppt/notesSlides/notesSlide")
    };
    selected && finishes_exec(&c, ".xml") && !holds_exec(&c, "/_rels/")
}

/// A part that marks a signed or macro-enabled file.
pub open spec fn signed_or_macro_part(name: Seq<char>) -> bool {
    holds(name, "vbaProject"@) || begins(name, "_xmlsignatures/"@)
}

/// Whether a template part marks a signed or macro-enabled file.
pub fn signed_or_macro(name: &str) -> (r: bool)
    ensures
        r == signed_or_macro_part(name@),
{
    let c = chars_of(name);
    holds_exec(&c, "vbaProject") || begins_exec(&c, "_xmlsignatures/")
}

} // verus!
