//! A model of Unix path components, as `std::path::Path::components` reads
//! them: an optional root, then the non-root components. Empty segments are
//! skipped and `.` survives only as the first component of a relative path.
use vstd::prelude::*;
use crate::text::{push_char, string_from_chars};

verus! {

/// Splits `s` at every `/`; the result always has one more segment than
/// `s` has separators.
pub open spec fn segments(s: Seq<char>) -> Seq<Seq<char>>
    decreases s.len(),
{
    if s.len() == 0 {
        seq![Seq::<char>::empty()]
    } else {
        let prev = segments(s.drop_last());
        if s.last() == '/' {
            prev.push(Seq::<char>::empty())
        } else {
            prev.update(prev.len() - 1, prev.last().push(s.last()))
        }
    }
}

/// Whether segment number `index` becomes a component.
pub open spec fn kept_segment(seg: Seq<char>, index: int) -> bool {
    seg.len() > 0 && (seg != seq!['.'] || index == 0)
}

/// The components among the first `n` segments.
pub open spec fn kept_prefix(segs: Seq<Seq<char>>, n: int) -> Seq<Seq<char>>
    decreases n,
{
    if n <= 0 {
        Seq::<Seq<char>>::empty()
    } else {
        let rest = kept_prefix(segs, n - 1);
        if kept_segment(segs[n - 1], n - 1) {
            rest.push(segs[n - 1])
        } else {
            rest
        }
    }
}

/// The non-root components of the path written `s`.
pub open spec fn path_parts(s: Seq<char>) -> Seq<Seq<char>> {
    kept_prefix(segments(s), segments(s).len() as int)
}

/// Whether the path written `s` starts at the root.
pub open spec fn path_absolute(s: Seq<char>) -> bool {
    s.len() > 0 && s[0] == '/'
}

pub proof fn lemma_segments_nonempty(s: Seq<char>)
    ensures
        segments(s).len() >= 1,
    decreases s.len(),
{
    if s.len() > 0 {
        lemma_segments_nonempty(s.drop_last());
    }
}

proof fn lemma_kept_prefix_agree(a: Seq<Seq<char>>, b: Seq<Seq<char>>, n: int)
    requires
        0 <= n <= a.len(),
        n <= b.len(),
        forall|i: int| 0 <= i < n ==> a[i] == b[i],
    ensures
        kept_prefix(a, n) == kept_prefix(b, n),
    decreases n,
{
    if n > 0 {
        lemma_kept_prefix_agree(a, b, n - 1);
    }
}

/// A path as its root flag and its non-root components.
#[derive(Debug, PartialEq, Eq)]
pub struct LibPath {
    pub absolute: bool,
    pub parts: Vec<Vec<char>>,
}

pub open spec fn parts_view(parts: Seq<Vec<char>>) -> Seq<Seq<char>> {
    parts.map_values(|p: Vec<char>| p@)
}

impl LibPath {
    pub open spec fn spec_parts(&self) -> Seq<Seq<char>> {
        parts_view(self.parts@)
    }

    /// Reads the components of a Unix path string.
    pub fn parse(s: &str) -> (p: LibPath)
        ensures
            p.absolute == path_absolute(s@),
            p.spec_parts() == path_parts(s@),
    {
        let mut parts: Vec<Vec<char>> = Vec::new();
        let mut current: Vec<char> = Vec::new();
        let ghost mut index: int = 0;
        let mut first: bool = true;
        let mut absolute: bool = false;
        let mut past_first: bool = false;
        let ghost whole = s@;
        for c in it: s.chars()
            invariant
                it.seq() == whole,
                index == it.index(),
                first == (index == 0),
                absolute == (index > 0 && whole[0] == '/'),
                past_first == (segments(whole.take(index)).len() > 1),
                segments(whole.take(index)).len() >= 1,
                current@ == segments(whole.take(index)).last(),
                parts_view(parts@) == kept_prefix(
                    segments(whole.take(index)),
                    segments(whole.take(index)).len() - 1,
                ),
                0 <= index <= whole.len(),
        {
            proof {
                lemma_segments_nonempty(whole.take(index));
            }
            let ghost pre = whole.take(index);
            let ghost segs = segments(pre);
            if first && c == '/' {
                absolute = true;
            }
            if c == '/' {
                let ghost idx = segs.len() - 1;
                let seg = current;
                current = Vec::new();
                let keep = seg.len() > 0 && !(seg.len() == 1 && seg[0] == '.' && past_first);
                proof {
                    if seg.len() == 1 && seg[0] == '.' { assert(seg@ == seq!['.']); }
                    if seg@ == seq!['.'] { assert(seg.len() == 1 && seg[0] == '.'); }
                    assert(keep == kept_segment(seg@, idx));
                }
                if keep {
                    parts.push(seg);
                }
                past_first = true;
            } else {
                current.push(c);
            }
            proof {
                let post = whole.take(index + 1);
                assert(post.drop_last() == pre);
                lemma_kept_prefix_agree(segs, segments(post), segs.len() - 1);
                index = index + 1;
            }
            first = false;
        }
        let last = current;
        proof {
            assert(whole.take(index) == whole);
        }
        let keep = last.len() > 0 && !(last.len() == 1 && last[0] == '.' && past_first);
        proof {
            lemma_segments_nonempty(whole);
            if last.len() == 1 && last[0] == '.' { assert(last@ == seq!['.']); }
            if last@ == seq!['.'] { assert(last.len() == 1 && last[0] == '.'); }
        }
        if keep {
            parts.push(last);
        }
        LibPath { absolute, parts }
    }
}

pub proof fn lemma_parts_view_push(s: Seq<Vec<char>>, x: Vec<char>)
    ensures
        parts_view(s.push(x)) == parts_view(s).push(x@),
{
    assert(parts_view(s.push(x)) =~= parts_view(s).push(x@));
}

pub proof fn lemma_parts_view_index(s: Seq<Vec<char>>, i: int)
    requires
        0 <= i < s.len(),
    ensures
        parts_view(s)[i] == s[i]@,
        parts_view(s).len() == s.len(),
{
}

/// The text of a path: `/` before the first component when absolute, `/`
/// between components.
pub open spec fn joined(parts: Seq<Seq<char>>) -> Seq<char>
    decreases parts.len(),
{
    if parts.len() == 0 {
        Seq::<char>::empty()
    } else if parts.len() == 1 {
        parts[0]
    } else {
        joined(parts.drop_last()) + seq!['/'] + parts.last()
    }
}

pub open spec fn path_text(absolute: bool, parts: Seq<Seq<char>>) -> Seq<char> {
    if absolute {
        seq!['/'] + joined(parts)
    } else {
        joined(parts)
    }
}

/// Copies a character vector.
pub fn copy_chars(v: &Vec<char>) -> (r: Vec<char>)
    ensures
        r@ == v@,
{
    let mut r: Vec<char> = Vec::new();
    for i in 0..v.len()
        invariant
            r@ == v@.take(i as int),
    {
        r.push(v[i]);
        proof {
            assert(v@.take(i + 1) == v@.take(i as int).push(v@[i as int]));
        }
    }
    proof {
        assert(v@.take(v.len() as int) == v@);
    }
    r
}

/// Compares two character vectors.
pub fn chars_eq(a: &Vec<char>, b: &Vec<char>) -> (r: bool)
    ensures
        r == (a@ == b@),
{
    if a.len() != b.len() {
        return false;
    }
    for i in 0..a.len()
        invariant
            a.len() == b.len(),
            forall|j: int| 0 <= j < i ==> a@[j] == b@[j],
    {
        if a[i] != b[i] {
            return false;
        }
    }
    proof {
        assert(a@ =~= b@);
    }
    true
}

/// Copies the first `n` components.
pub(crate) fn copy_parts(parts: &Vec<Vec<char>>, n: usize) -> (r: Vec<Vec<char>>)
    requires
        n <= parts.len(),
    ensures
        parts_view(r@) == parts_view(parts@).take(n as int),
{
    let mut r: Vec<Vec<char>> = Vec::new();
    for i in 0..n
        invariant
            n <= parts.len(),
            parts_view(r@) == parts_view(parts@).take(i as int),
    {
        let c = copy_chars(&parts[i]);
        let ghost before = r@;
        r.push(c);
        proof {
            lemma_parts_view_push(before, c);
            lemma_parts_view_index(parts@, i as int);
            assert(parts_view(r@) =~= parts_view(parts@).take(i + 1));
        }
    }
    r
}

/// Whether the components of `a` begin with those of `b`, as
/// `Path::starts_with` compares them (the root counts as a component).
pub open spec fn parts_start_with(a: Seq<Seq<char>>, b: Seq<Seq<char>>) -> bool {
    b.len() <= a.len() && a.take(b.len() as int) == b
}

impl LibPath {
    pub open spec fn spec_starts_with(&self, other: &LibPath) -> bool {
        self.absolute == other.absolute && parts_start_with(self.spec_parts(), other.spec_parts())
    }

    pub open spec fn spec_same(&self, other: &LibPath) -> bool {
        self.absolute == other.absolute && self.spec_parts() == other.spec_parts()
    }

    /// `Path::starts_with`: whole-component prefix, root included.
    pub fn starts_with(&self, other: &LibPath) -> (r: bool)
        ensures
            r == self.spec_starts_with(other),
    {
        if self.absolute != other.absolute || other.parts.len() > self.parts.len() {
            return false;
        }
        for i in 0..other.parts.len()
            invariant
                other.parts.len() <= self.parts.len(),
                forall|j: int| 0 <= j < i ==> self.spec_parts()[j] == other.spec_parts()[j],
        {
            proof {
                lemma_parts_view_index(self.parts@, i as int);
                lemma_parts_view_index(other.parts@, i as int);
            }
            if !chars_eq(&self.parts[i], &other.parts[i]) {
                proof {
                    assert(self.spec_parts().take(other.spec_parts().len() as int)[i as int]
                        == self.spec_parts()[i as int]);
                }
                return false;
            }
        }
        proof {
            assert(self.spec_parts().take(other.spec_parts().len() as int) =~= other.spec_parts());
        }
        true
    }

    /// Path equality: same root flag and components.
    pub fn same(&self, other: &LibPath) -> (r: bool)
        ensures
            r == self.spec_same(other),
    {
        let r = self.parts.len() == other.parts.len() && self.starts_with(other);
        proof {
            assert(self.spec_parts().len() == self.parts.len());
            assert(other.spec_parts().len() == other.parts.len());
            if self.parts.len() == other.parts.len() {
                assert(self.spec_parts() =~= self.spec_parts().take(other.spec_parts().len() as int));
            }
        }
        r
    }

    /// `Path::parent`: drops the last component; a root or an empty path has none.
    pub fn parent(&self) -> (r: Option<LibPath>)
        ensures
            self.parts.len() == 0 ==> r is None,
            self.parts.len() > 0 ==> (r matches Some(p) && p.absolute == self.absolute
                && p.spec_parts() == self.spec_parts().drop_last()),
    {
        if self.parts.len() == 0 {
            return None;
        }
        let parts = copy_parts(&self.parts, self.parts.len() - 1);
        Some(LibPath { absolute: self.absolute, parts })
    }

    /// The path written with `/` separators.
    pub fn display(&self) -> (s: String)
        ensures
            s@ == path_text(self.absolute, self.spec_parts()),
    {
        let mut out: Vec<char> = Vec::new();
        if self.absolute {
            out.push('/');
        }
        let ghost prefix = out@;
        for i in 0..self.parts.len()
            invariant
                prefix == (if self.absolute { seq!['/'] } else { Seq::<char>::empty() }),
                out@ == prefix + joined(self.spec_parts().take(i as int)),
        {
            proof {
                lemma_parts_view_index(self.parts@, i as int);
                assert(self.spec_parts().take(i + 1).drop_last() =~= self.spec_parts().take(i as int));
            }
            if i > 0 {
                out.push('/');
            }
            let part = &self.parts[i];
            for j in 0..part.len()
                invariant
                    out@ == prefix + joined(self.spec_parts().take(i as int))
                        + (if i > 0 { seq!['/'] } else { Seq::<char>::empty() }) + part@.take(j as int),
            {
                out.push(part[j]);
                proof {
                    assert(part@.take(j + 1) == part@.take(j as int).push(part@[j as int]));
                }
            }
            proof {
                assert(part@.take(part.len() as int) == part@);
                let t = self.spec_parts().take(i + 1);
                assert(t.last() == part@);
                if i == 0 {
                    assert(joined(t) == part@);
                    assert(joined(self.spec_parts().take(0)) == Seq::<char>::empty());
                }
            }
        }
        proof {
            assert(self.spec_parts().take(self.parts.len() as int) =~= self.spec_parts());
        }
        string_from_chars(&out)
    }

    /// `Path::strip_prefix`: the relative rest of the path after `base`,
    /// where the path starts with it.
    pub fn strip_prefix(&self, base: &LibPath) -> (r: Option<LibPath>)
        ensures
            !self.spec_starts_with(base) ==> r is None,
            self.spec_starts_with(base) ==> (r matches Some(p) && !p.absolute && p.spec_parts()
                == self.spec_parts().skip(base.spec_parts().len() as int)),
    {
        if !self.starts_with(base) {
            return None;
        }
        let mut parts: Vec<Vec<char>> = Vec::new();
        let start = base.parts.len();
        proof {
            assert(parts_view(parts@) =~= self.spec_parts().subrange(start as int, start as int));
        }
        for i in start..self.parts.len()
            invariant
                start <= self.parts.len(),
                parts_view(parts@) == self.spec_parts().subrange(start as int, i as int),
        {
            let c = copy_chars(&self.parts[i]);
            let ghost before = parts@;
            parts.push(c);
            proof {
                lemma_parts_view_push(before, c);
                lemma_parts_view_index(self.parts@, i as int);
                assert(parts_view(parts@) =~= self.spec_parts().subrange(start as int, i + 1));
            }
        }
        proof {
            assert(self.spec_parts().subrange(start as int, self.parts.len() as int) =~= self.spec_parts().skip(
                base.spec_parts().len() as int,
            ));
        }
        Some(LibPath { absolute: false, parts })
    }

    /// `PathBuf::join` of components: an absolute argument replaces the path,
    /// a relative one appends its components.
    pub fn join(&self, other: &LibPath) -> (r: LibPath)
        ensures
            other.absolute ==> r.spec_same(other),
            !other.absolute ==> r.absolute == self.absolute
                && r.spec_parts() == self.spec_parts() + other.spec_parts(),
    {
        if other.absolute {
            let parts = copy_parts(&other.parts, other.parts.len());
            proof {
                assert(parts_view(parts@) =~= other.spec_parts());
            }
            return LibPath { absolute: true, parts };
        }
        let mut parts = copy_parts(&self.parts, self.parts.len());
        proof {
            assert(parts_view(parts@) =~= self.spec_parts());
        }
        for i in 0..other.parts.len()
            invariant
                parts_view(parts@) == self.spec_parts() + other.spec_parts().take(i as int),
        {
            let c = copy_chars(&other.parts[i]);
            let ghost before = parts@;
            parts.push(c);
            proof {
                lemma_parts_view_push(before, c);
                lemma_parts_view_index(other.parts@, i as int);
                assert(parts_view(parts@) =~= self.spec_parts() + other.spec_parts().take(i + 1));
            }
        }
        proof {
            assert(other.spec_parts().take(other.parts.len() as int) =~= other.spec_parts());
        }
        LibPath { absolute: self.absolute, parts }
    }
}

} // verus!
