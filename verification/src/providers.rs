//! Model provider settings: which wire protocols run natively, and which
//! environment variables may hold a provider's API key.
use vstd::prelude::*;
use crate::error::Error;
use crate::text::{cat, cat3, chars_of, lower_at, lower_eq, lower_equals, lower_occurs_at, str_eq, string_from_chars};

verus! {

/// The protocols that the native runtime speaks.
pub open spec fn native_protocol(p: Seq<char>) -> bool {
    p == "OpenAIChatModel"@ || p == "OpenAIResponseModel"@
}

/// Rejects a provider protocol that has not been migrated.
pub fn validate_protocol(protocol: &str) -> (r: Result<(), Error>)
    ensures
        native_protocol(protocol@) ==> r is Ok,
        !native_protocol(protocol@) ==> (r matches Err(e) && e.status == 501 && e.message@
            == "This model protocol has not been migrated"@),
{
    if str_eq(protocol, "OpenAIChatModel") || str_eq(protocol, "OpenAIResponseModel") {
        Ok(())
    } else {
        Err(Error::new(501, "This model protocol has not been migrated"))
    }
}

pub open spec fn alnum(c: char) -> bool {
    ('0' <= c && c <= '9') || ('A' <= c && c <= 'Z') || ('a' <= c && c <= 'z')
}

pub open spec fn upper(c: char) -> char {
    if 'a' <= c && c <= 'z' {
        ((c as u32) - 32) as char
    } else {
        c
    }
}

/// The pieces of `s` between characters that are not ASCII letters or
/// digits.
pub open spec fn pieces(s: Seq<char>) -> Seq<Seq<char>>
    decreases s.len(),
{
    if s.len() == 0 {
        seq![Seq::<char>::empty()]
    } else {
        let prev = pieces(s.drop_last());
        if !alnum(s.last()) {
            prev.push(Seq::<char>::empty())
        } else {
            prev.update(prev.len() - 1, prev.last().push(s.last()))
        }
    }
}

/// The non-empty pieces, in ASCII capitals.
pub open spec fn words(p: Seq<Seq<char>>) -> Seq<Seq<char>>
    decreases p.len(),
{
    if p.len() == 0 {
        Seq::empty()
    } else if p.last().len() == 0 {
        words(p.drop_last())
    } else {
        words(p.drop_last()).push(p.last().map_values(|c: char| upper(c)))
    }
}

/// Words joined by underscores.
pub open spec fn joined(w: Seq<Seq<char>>) -> Seq<char>
    decreases w.len(),
{
    if w.len() == 0 {
        Seq::empty()
    } else if w.len() == 1 {
        w[0]
    } else {
        joined(w.drop_last()) + "_"@ + w.last()
    }
}

/// The identifier form of a provider id: its ASCII letter-and-digit runs in
/// capitals, joined by underscores.
pub open spec fn ident(id: Seq<char>) -> Seq<char> {
    joined(words(pieces(id)))
}

proof fn lemma_pieces_nonempty(s: Seq<char>)
    ensures
        pieces(s).len() >= 1,
    decreases s.len(),
{
    if s.len() > 0 {
        lemma_pieces_nonempty(s.drop_last());
    }
}

fn append_upper(out: &mut Vec<char>, word: &Vec<char>)
    ensures
        final(out)@ == old(out)@ + word@.map_values(|c: char| upper(c)),
{
    let ghost start = out@;
    for i in 0..word.len()
        invariant
            out@ == start + word@.take(i as int).map_values(|c: char| upper(c)),
    {
        let c = word[i];
        let u = if 'a' <= c && c <= 'z' {
            ((c as u32) - 32) as u8 as char
        } else {
            c
        };
        proof {
            assert(u == upper(c));
            assert(word@.take(i + 1).map_values(|c: char| upper(c)) =~= word@.take(i as int).map_values(
                |c: char| upper(c),
            ).push(upper(c)));
        }
        out.push(u);
        proof {
            assert(out@ =~= start + word@.take(i + 1).map_values(|c: char| upper(c)));
        }
    }
    proof {
        assert(word@.take(word.len() as int) =~= word@);
    }
}

/// The identifier form of a provider id.
pub fn provider_ident(id: &str) -> (r: String)
    ensures
        r@ == ident(id@),
{
    proof {
        reveal_strlit("_");
    }
    let c = chars_of(id);
    let mut out: Vec<char> = Vec::new();
    let mut cur: Vec<char> = Vec::new();
    let mut any_word = false;
    let ghost mut done: Seq<Seq<char>> = Seq::empty();
    for i in 0..c.len()
        invariant
            c@ == id@,
            pieces(id@.take(i as int)) == done.push(cur@),
            out@ == joined(words(done)),
            any_word == (words(done).len() > 0),
    {
        proof {
            assert(id@.take(i + 1).drop_last() =~= id@.take(i as int));
            assert(id@.take(i + 1).last() == c@[i as int]);
            lemma_pieces_nonempty(id@.take(i as int));
        }
        let ch = c[i];
        if ('0' <= ch && ch <= '9') || ('A' <= ch && ch <= 'Z') || ('a' <= ch && ch <= 'z') {
            cur.push(ch);
            proof {
                assert(pieces(id@.take(i + 1)) =~= done.push(cur@));
            }
        } else {
            if cur.len() > 0 {
                if any_word {
                    out.push('_');
                }
                append_upper(&mut out, &cur);
                any_word = true;
                proof {
                    reveal_strlit("_");
                    let w = cur@.map_values(|c: char| upper(c));
                    assert(done.push(cur@).drop_last() =~= done);
                    assert(words(done.push(cur@)) == words(done).push(w));
                    assert(words(done).push(w).drop_last() =~= words(done));
                    if words(done).len() > 0 {
                        assert(out@ =~= joined(words(done)) + "_"@ + w);
                    } else {
                        assert(out@ =~= w);
                    }
                }
            } else {
                proof {
                    assert(done.push(cur@).drop_last() =~= done);
                }
            }
            proof {
                done = done.push(cur@);
            }
            cur = Vec::new();
            proof {
                assert(pieces(id@.take(i + 1)) =~= done.push(cur@));
            }
        }
    }
    proof {
        assert(id@.take(c.len() as int) =~= id@);
        assert(done.push(cur@).drop_last() =~= done);
    }
    if cur.len() > 0 {
        if any_word {
            out.push('_');
        }
        append_upper(&mut out, &cur);
        proof {
            let w = cur@.map_values(|c: char| upper(c));
            assert(words(done.push(cur@)) == words(done).push(w));
            assert(words(done).push(w).drop_last() =~= words(done));
            if words(done).len() > 0 {
                assert(out@ =~= joined(words(done)) + "_"@ + w);
            } else {
                assert(out@ =~= w);
            }
        }
    }
    string_from_chars(&out)
}

/// Whether the model name, ignoring ASCII case, mentions `lit`.
pub open spec fn mentions(model: Seq<char>, lit: Seq<char>) -> bool {
    exists|i: int| lower_occurs_at(model, i, lit)
}

fn model_mentions(model: &Vec<char>, lit: &str) -> (r: bool)
    ensures
        r == mentions(model@, lit@),
{
    let mut i: usize = 0;
    loop
        invariant
            i <= model.len(),
            forall|j: int| 0 <= j < i ==> !lower_occurs_at(model@, j, lit@),
        ensures
            forall|j: int| 0 <= j <= model.len() ==> !lower_occurs_at(model@, j, lit@),
        decreases model.len() - i,
    {
        if lower_at(model, i, lit) {
            return true;
        }
        if i == model.len() {
            break;
        }
        i = i + 1;
    }
    proof {
        assert forall|j: int| !lower_occurs_at(model@, j, lit@) by {
            if lower_occurs_at(model@, j, lit@) {
                assert(0 <= j <= model@.len());
            }
        }
    }
    false
}

/// Models of the OpenAI family.
pub open spec fn openai_model(model: Seq<char>) -> bool {
    mentions(model, "gpt"@) || mentions(model, "o1"@) || mentions(model, "o3"@) || mentions(model, "o4"@)
        || mentions(model, "openai"@)
}

/// The environment variables that may hold a provider's key, in the order
/// they are tried.
pub open spec fn spec_key_names(id: Seq<char>, model: Seq<char>) -> Seq<Seq<char>> {
    let i = ident(id);
    let base = seq![i + "_API_KEY"@, "POTATO_"@ + i + "_API_KEY"@];
    let vendor = if lower_equals(id, "gemini"@) {
        seq!["GOOGLE_API_KEY"@]
    } else if lower_equals(id, "kimi"@) {
        seq!["MOONSHOT_API_KEY"@]
    } else {
        Seq::empty()
    };
    let families = if openai_model(model) {
        seq![i + "_OPENAI"@, i + "_CLAUDE"@]
    } else {
        seq![i + "_CLAUDE"@, i + "_OPENAI"@]
    };
    base + vendor + families
}

/// Lists the environment variable names for a provider and model.
pub fn key_names(id: &str, model: &str) -> (r: Vec<String>)
    ensures
        r@.map_values(|s: String| s@) == spec_key_names(id@, model@),
{
    let i = provider_ident(id);
    let mut names: Vec<String> = Vec::new();
    names.push(cat(i.as_str(), "_API_KEY"));
    names.push(cat3("POTATO_", i.as_str(), "_API_KEY"));
    let idc = chars_of(id);
    if lower_eq(&idc, "gemini") {
        names.push("GOOGLE_API_KEY".to_owned());
    } else if lower_eq(&idc, "kimi") {
        names.push("MOONSHOT_API_KEY".to_owned());
    }
    let m = chars_of(model);
    let openai = model_mentions(&m, "gpt") || model_mentions(&m, "o1") || model_mentions(&m, "o3")
        || model_mentions(&m, "o4") || model_mentions(&m, "openai");
    if openai {
        names.push(cat(i.as_str(), "_OPENAI"));
        names.push(cat(i.as_str(), "_CLAUDE"));
    } else {
        names.push(cat(i.as_str(), "_CLAUDE"));
        names.push(cat(i.as_str(), "_OPENAI"));
    }
    proof {
        assert(names@.map_values(|s: String| s@) =~= spec_key_names(id@, model@));
    }
    names
}

} // verus!
