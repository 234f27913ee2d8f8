//! Validation of the cloud model catalog: what a catalog must hold before
//! its models are offered.
use vstd::prelude::*;
use crate::context::{utf8_len, utf8_length};
use crate::error::Error;
use crate::text::{chars_of, str_eq};

verus! {

/// What the validation reads of one catalog row.
#[derive(Debug)]
pub struct CatalogRow {
    /// The model id, where it is a string.
    pub id: Option<String>,
    /// The reasoning effort options, where they are an array; each option
    /// where it is a string.
    pub options: Option<Vec<Option<String>>>,
}

pub open spec fn opt_text(o: Option<String>) -> Option<Seq<char>> {
    match o {
        Some(s) => Some(s@),
        None => None,
    }
}

/// A model id: at most 240 bytes, a provider and a model name around its
/// first `/`, both non-empty.
pub open spec fn valid_model_id(id: Seq<char>) -> bool {
    &&& utf8_len(id) <= 240
    &&& id.contains('/')
    &&& id[0] != '/'
    &&& exists|k: int| 0 < k < id.len() - 1 && id[k] == '/' && forall|j: int| 0 <= j < k ==> id[j] != '/'
}

/// Reasoning effort options: at most 32, each a non-empty string of at most
/// 32 bytes.
pub open spec fn valid_options(options: Option<Seq<Option<Seq<char>>>>) -> bool {
    match options {
        None => true,
        Some(o) => o.len() <= 32 && forall|i: int|
            0 <= i < o.len() ==> (#[trigger] o[i] matches Some(s) && s.len() > 0 && utf8_len(s) <= 32),
    }
}

pub open spec fn row_ids(rows: Seq<CatalogRow>) -> Seq<Option<Seq<char>>> {
    rows.map_values(|r: CatalogRow| opt_text(r.id))
}

pub open spec fn row_options(r: CatalogRow) -> Option<Seq<Option<Seq<char>>>> {
    match r.options {
        Some(v) => Some(v@.map_values(|o: Option<String>| opt_text(o))),
        None => None,
    }
}

/// A catalog is valid: 1 to 500 rows, each with a valid id and valid
/// options, no id twice, and a default model that is one of the ids.
pub open spec fn valid_catalog(rows: Seq<CatalogRow>, default_model: Option<Seq<char>>) -> bool {
    &&& 1 <= rows.len() <= 500
    &&& forall|i: int| 0 <= i < rows.len() ==> (#[trigger] row_ids(rows)[i] matches Some(id) && valid_model_id(id))
    &&& forall|i: int| 0 <= i < rows.len() ==> valid_options(row_options(#[trigger] rows[i]))
    &&& forall|a: int, b: int| 0 <= a < b < rows.len() ==> row_ids(rows)[a] != row_ids(rows)[b]
    &&& default_model matches Some(d) && row_ids(rows).contains(Some(d))
}

fn model_id_ok(id: &str) -> (r: bool)
    ensures
        r == valid_model_id(id@),
{
    if utf8_length(id) > 240 {
        return false;
    }
    let c = chars_of(id);
    let mut k: usize = 0;
    while k < c.len() && c[k] != '/'
        invariant
            c@ == id@,
            k <= c.len(),
            forall|j: int| 0 <= j < k ==> c@[j] != '/',
        decreases c.len() - k,
    {
        k = k + 1;
    }
    if k == c.len() {
        proof {
            assert(!id@.contains('/'));
        }
        return false;
    }
    proof {
        assert(id@.contains('/')) by {
            assert(id@[k as int] == '/');
        }
    }
    let ok = k > 0 && k + 1 < c.len();
    proof {
        if ok {
            assert(id@[0] != '/');
        } else {
            assert forall|m: int| 0 < m < id@.len() - 1 && id@[m] == '/' implies !(forall|j: int| 0 <= j < m ==> id@[j] != '/') by {
                assert(m >= k);
                if m > k {
                    assert(id@[k as int] == '/');
                }
            }
            if k == 0 {
                assert(id@[0] == '/');
            }
        }
    }
    ok
}

fn options_ok(options: &Option<Vec<Option<String>>>) -> (r: bool)
    ensures
        r == valid_options(match options {
            Some(v) => Some(v@.map_values(|o: Option<String>| opt_text(o))),
            None => None,
        }),
{
    match options {
        None => true,
        Some(v) => {
            let ghost o = v@.map_values(|o: Option<String>| opt_text(o));
            if v.len() > 32 {
                return false;
            }
            for i in 0..v.len()
                invariant
                    *options == Some(*v),
                    o == v@.map_values(|o: Option<String>| opt_text(o)),
                    forall|j: int| 0 <= j < i ==> (#[trigger] o[j] matches Some(s) && s.len() > 0 && utf8_len(s) <= 32),
            {
                let good = match &v[i] {
                    Some(s) => s.as_str().unicode_len() > 0 && utf8_length(s.as_str()) <= 32,
                    None => false,
                };
                proof {
                    assert(o[i as int] == opt_text(v@[i as int]));
                }
                if !good {
                    proof {
                        assert(!(o[i as int] matches Some(s) && s.len() > 0 && utf8_len(s) <= 32));
                    }
                    return false;
                }
            }
            true
        },
    }
}

fn same_id(a: &Option<String>, b: &Option<String>) -> (r: bool)
    ensures
        r == (opt_text(*a) == opt_text(*b)),
{
    match (a, b) {
        (Some(x), Some(y)) => str_eq(x.as_str(), y.as_str()),
        (None, None) => true,
        (Some(_), None) => false,
        (None, Some(_)) => false,
    }
}

/// Validates a catalog; on success, the index of the default model's row.
/// `rows` is `None` where the catalog's `data` is not an array.
pub fn validate_catalog(rows: Option<&Vec<CatalogRow>>, default_model: Option<&str>) -> (r: Result<usize, Error>)
    ensures
        ({
            let d = match default_model {
                Some(s) => Some(s@),
                None => None,
            };
            match rows {
                Some(rows) => {
                    &&& valid_catalog(rows@, d) ==> (r matches Ok(j) && j < rows@.len() && row_ids(rows@)[j as int]
                        == d)
                    &&& !valid_catalog(rows@, d) ==> (r matches Err(e) && e.status == 502 && e.message@
                        == "云端模型目录无效"@)
                },
                None => r matches Err(e) && e.status == 502 && e.message@ == "云端模型目录无效"@,
            }
        }),
{
    let table = match rows {
        Some(t) => t,
        None => {
            return Err(Error::new(502, "云端模型目录无效"));
        },
    };
    let ghost ids = row_ids(table@);
    let ghost d = match default_model {
        Some(s) => Some(s@),
        None => None,
    };
    if table.len() == 0 || table.len() > 500 {
        return Err(Error::new(502, "云端模型目录无效"));
    }
    for i in 0..table.len()
        invariant
            ids == row_ids(table@),
            rows == Some(table),
            forall|j: int| 0 <= j < i ==> (#[trigger] ids[j] matches Some(id) && valid_model_id(id)),
            forall|j: int| 0 <= j < i ==> valid_options(row_options(#[trigger] table@[j])),
            forall|a: int, b: int| 0 <= a < b < i ==> ids[a] != ids[b],
    {
        proof {
            assert(ids[i as int] == opt_text(table@[i as int].id));
        }
        let ok = match &table[i].id {
            Some(id) => model_id_ok(id.as_str()),
            None => false,
        };
        if !ok || !options_ok(&table[i].options) {
            proof {
                assert(!valid_catalog(table@, d)) by {
                    if ok {
                        assert(!valid_options(row_options(table@[i as int])));
                    } else {
                        assert(!(ids[i as int] matches Some(id) && valid_model_id(id)));
                    }
                }
            }
            return Err(Error::new(502, "云端模型目录无效"));
        }
        for j in 0..i
            invariant
                ids == row_ids(table@),
                rows == Some(table),
                i < table.len(),
                forall|a: int| 0 <= a < j ==> ids[a] != ids[i as int],
        {
            proof {
                assert(ids[j as int] == opt_text(table@[j as int].id));
            }
            if same_id(&table[j].id, &table[i].id) {
                proof {
                    assert(ids[j as int] == ids[i as int]);
                    assert(!valid_catalog(table@, d));
                }
                return Err(Error::new(502, "云端模型目录无效"));
            }
        }
    }
    let dm = match default_model {
        Some(s) => s,
        None => {
            return Err(Error::new(502, "云端模型目录无效"));
        },
    };
    for j in 0..table.len()
        invariant
            ids == row_ids(table@),
            rows == Some(table),
            d == Some(dm@),
            default_model == Some(dm),
            forall|a: int| 0 <= a < j ==> ids[a] != d,
            1 <= table.len() <= 500,
            forall|k: int| 0 <= k < table.len() ==> (#[trigger] ids[k] matches Some(id) && valid_model_id(id)),
            forall|k: int| 0 <= k < table.len() ==> valid_options(row_options(#[trigger] table@[k])),
            forall|a: int, b: int| 0 <= a < b < table.len() ==> ids[a] != ids[b],
    {
        proof {
            assert(ids[j as int] == opt_text(table@[j as int].id));
        }
        let hit = match &table[j].id {
            Some(id) => str_eq(id.as_str(), dm),
            None => false,
        };
        if hit {
            proof {
                assert(ids[j as int] == d);
                assert(ids.contains(d));
                assert(valid_catalog(table@, d));
            }
            return Ok(j);
        }
    }
    proof {
        assert(!ids.contains(d));
    }
    Err(Error::new(502, "云端模型目录无效"))
}

} // verus!
