//! How providers imported from earlier settings join the saved ones: a saved
//! provider with a key is never replaced, an imported one replaces every
//! saved entry with its id and goes last, and the built-in defaults are
//! added where their id is missing.
use vstd::prelude::*;
use crate::text::str_eq;

verus! {

/// Where a provider entry comes from, by its position in that list.
#[derive(Clone, Copy, Debug, PartialEq, Eq, Structural)]
pub enum Origin {
    Saved(usize),
    Imported(usize),
    Default(usize),
}

/// A provider entry: its id, whether it holds a non-empty API key, and
/// where it comes from.
pub struct Entry {
    pub id: String,
    pub keyed: bool,
    pub origin: Origin,
}

pub type EntryModel = (Seq<char>, bool, Origin);

pub open spec fn entry_views(v: Seq<Entry>) -> Seq<EntryModel> {
    v.map_values(|e: Entry| (e.id@, e.keyed, e.origin))
}

/// The entries whose id is not `id`, in order.
pub open spec fn without(list: Seq<EntryModel>, id: Seq<char>) -> Seq<EntryModel>
    decreases list.len(),
{
    if list.len() == 0 {
        Seq::empty()
    } else {
        without(list.drop_last(), id) + if list.last().0 == id {
            Seq::<EntryModel>::empty()
        } else {
            seq![list.last()]
        }
    }
}

/// Some entry has this id and a key.
pub open spec fn keyed_with(list: Seq<EntryModel>, id: Seq<char>) -> bool {
    exists|i: int| 0 <= i < list.len() && (#[trigger] list[i]).0 == id && list[i].1
}

/// Some entry has this id.
pub open spec fn has_id(list: Seq<EntryModel>, id: Seq<char>) -> bool {
    exists|i: int| 0 <= i < list.len() && (#[trigger] list[i]).0 == id
}

/// The list after the first `n` imported providers, and how many of them
/// were taken.
pub open spec fn merged(saved: Seq<EntryModel>, imported: Seq<EntryModel>, n: int) -> (Seq<EntryModel>, nat)
    decreases n,
{
    if n <= 0 {
        (saved, 0)
    } else {
        let (list, count) = merged(saved, imported, n - 1);
        let x = imported[n - 1];
        if keyed_with(list, x.0) {
            (list, count)
        } else {
            (without(list, x.0).push(x), count + 1)
        }
    }
}

/// The list with the first `n` defaults added where their id is missing.
pub open spec fn with_defaults(list: Seq<EntryModel>, defaults: Seq<EntryModel>, n: int) -> Seq<EntryModel>
    decreases n,
{
    if n <= 0 {
        list
    } else {
        let before = with_defaults(list, defaults, n - 1);
        if has_id(before, defaults[n - 1].0) {
            before
        } else {
            before.push(defaults[n - 1])
        }
    }
}

fn copy_entry(e: &Entry) -> (c: Entry)
    ensures
        c.id@ == e.id@ && c.keyed == e.keyed && c.origin == e.origin,
{
    Entry { id: e.id.clone(), keyed: e.keyed, origin: e.origin }
}

fn find(list: &Vec<Entry>, id: &str, need_key: bool) -> (r: bool)
    ensures
        need_key ==> r == keyed_with(entry_views(list@), id@),
        !need_key ==> r == has_id(entry_views(list@), id@),
{
    let ghost v = entry_views(list@);
    for i in 0..list.len()
        invariant
            v == entry_views(list@),
            v.len() == list.len(),
            forall|k: int| 0 <= k < i ==> !((#[trigger] v[k]).0 == id@ && (v[k].1 || !need_key)),
    {
        proof {
            assert(v[i as int] == (list[i as int].id@, list[i as int].keyed, list[i as int].origin));
        }
        if str_eq(list[i].id.as_str(), id) && (list[i].keyed || !need_key) {
            return true;
        }
    }
    false
}

fn drop_id(list: &Vec<Entry>, id: &str) -> (r: Vec<Entry>)
    ensures
        entry_views(r@) == without(entry_views(list@), id@),
{
    let ghost v = entry_views(list@);
    let mut r: Vec<Entry> = Vec::new();
    proof {
        assert(v.take(0) =~= Seq::<EntryModel>::empty());
        assert(entry_views(r@) =~= Seq::<EntryModel>::empty());
    }
    for i in 0..list.len()
        invariant
            v == entry_views(list@),
            v.len() == list.len(),
            entry_views(r@) == without(v.take(i as int), id@),
    {
        proof {
            assert(v.take(i + 1).drop_last() =~= v.take(i as int));
            assert(v.take(i + 1).last() == v[i as int]);
            assert(v[i as int] == (list[i as int].id@, list[i as int].keyed, list[i as int].origin));
        }
        let ghost before = entry_views(r@);
        if !str_eq(list[i].id.as_str(), id) {
            r.push(copy_entry(&list[i]));
            proof {
                assert(entry_views(r@) =~= before.push(v[i as int]));
            }
        } else {
            proof {
                assert(without(v.take(i + 1), id@) =~= without(v.take(i as int), id@));
            }
        }
    }
    proof {
        assert(v.take(list.len() as int) =~= v);
    }
    r
}

/// Joins the imported providers to the saved ones and adds the missing
/// defaults; gives the new list and how many imported providers were taken.
pub fn merge_providers(saved: &Vec<Entry>, imported: &Vec<Entry>, defaults: &Vec<Entry>) -> (r: (Vec<Entry>, usize))
    ensures
        entry_views(r.0@) == with_defaults(
            merged(entry_views(saved@), entry_views(imported@), imported.len() as int).0,
            entry_views(defaults@),
            defaults.len() as int,
        ),
        r.1 == merged(entry_views(saved@), entry_views(imported@), imported.len() as int).1,
{
    let ghost sv = entry_views(saved@);
    let ghost iv = entry_views(imported@);
    let ghost dv = entry_views(defaults@);
    let mut list: Vec<Entry> = Vec::new();
    for i in 0..saved.len()
        invariant
            sv == entry_views(saved@),
            entry_views(list@) == sv.take(i as int),
    {
        let ghost before = entry_views(list@);
        let c = copy_entry(&saved[i]);
        list.push(c);
        proof {
            assert(sv[i as int] == (saved[i as int].id@, saved[i as int].keyed, saved[i as int].origin));
            assert(entry_views(list@) =~= before.push(sv[i as int]));
            assert(sv.take(i + 1) =~= sv.take(i as int).push(sv[i as int]));
        }
    }
    proof {
        assert(sv.take(saved.len() as int) =~= sv);
    }
    let mut count: usize = 0;
    for j in 0..imported.len()
        invariant
            iv == entry_views(imported@),
            iv.len() == imported.len(),
            count <= j,
            (entry_views(list@), count as nat) == merged(sv, iv, j as int),
    {
        let x = &imported[j];
        proof {
            assert(iv[j as int] == (x.id@, x.keyed, x.origin));
        }
        if !find(&list, x.id.as_str(), true) {
            let mut next = drop_id(&list, x.id.as_str());
            let ghost before = entry_views(next@);
            next.push(copy_entry(x));
            proof {
                assert(entry_views(next@) =~= before.push(iv[j as int]));
            }
            list = next;
            count = count + 1;
        }
    }
    for k in 0..defaults.len()
        invariant
            dv == entry_views(defaults@),
            dv.len() == defaults.len(),
            entry_views(list@) == with_defaults(merged(sv, iv, imported.len() as int).0, dv, k as int),
    {
        let d = &defaults[k];
        proof {
            assert(dv[k as int] == (d.id@, d.keyed, d.origin));
        }
        if !find(&list, d.id.as_str(), false) {
            let ghost before = entry_views(list@);
            list.push(copy_entry(d));
            proof {
                assert(entry_views(list@) =~= before.push(dv[k as int]));
            }
        }
    }
    (list, count)
}

proof fn lemma_without_keeps(list: Seq<EntryModel>, id: Seq<char>, e: EntryModel)
    requires
        list.contains(e),
        e.0 != id,
    ensures
        without(list, id).contains(e),
    decreases list.len(),
{
    if list.last() == e {
        assert(without(list, id).last() == e);
    } else {
        let j = choose|j: int| 0 <= j < list.len() && list[j] == e;
        assert(list.drop_last()[j] == e);
        lemma_without_keeps(list.drop_last(), id, e);
        let w = without(list.drop_last(), id);
        let k = choose|k: int| 0 <= k < w.len() && w[k] == e;
        assert(without(list, id)[k] == e);
    }
}

proof fn lemma_merged_keeps(saved: Seq<EntryModel>, imported: Seq<EntryModel>, n: int, e: EntryModel)
    requires
        0 <= n,
        saved.contains(e),
        e.1,
    ensures
        merged(saved, imported, n).0.contains(e),
    decreases n,
{
    if n > 0 {
        lemma_merged_keeps(saved, imported, n - 1, e);
        let list = merged(saved, imported, n - 1).0;
        let x = imported[n - 1];
        if !keyed_with(list, x.0) {
            let j = choose|j: int| 0 <= j < list.len() && list[j] == e;
            assert(list[j].0 != x.0);
            lemma_without_keeps(list, x.0, e);
            let w = without(list, x.0);
            let k = choose|k: int| 0 <= k < w.len() && w[k] == e;
            assert(w.push(x)[k] == e);
        }
    }
}

proof fn lemma_defaults_keep(list: Seq<EntryModel>, defaults: Seq<EntryModel>, n: int, e: EntryModel)
    requires
        0 <= n,
        list.contains(e),
    ensures
        with_defaults(list, defaults, n).contains(e),
    decreases n,
{
    if n > 0 {
        lemma_defaults_keep(list, defaults, n - 1, e);
        let before = with_defaults(list, defaults, n - 1);
        let k = choose|k: int| 0 <= k < before.len() && before[k] == e;
        assert(before.push(defaults[n - 1])[k] == e);
    }
}

/// A saved provider that holds a key is never replaced by an import: it is
/// still in the merged list, whatever is imported and whichever defaults
/// are added.
pub proof fn law_keyed_saved_providers_stay(
    saved: Seq<EntryModel>,
    imported: Seq<EntryModel>,
    defaults: Seq<EntryModel>,
    i: int,
)
    requires
        0 <= i < saved.len(),
        saved[i].1,
    ensures
        with_defaults(merged(saved, imported, imported.len() as int).0, defaults, defaults.len() as int).contains(
            saved[i],
        ),
{
    lemma_merged_keeps(saved, imported, imported.len() as int, saved[i]);
    lemma_defaults_keep(merged(saved, imported, imported.len() as int).0, defaults, defaults.len() as int, saved[i]);
}

} // verus!
