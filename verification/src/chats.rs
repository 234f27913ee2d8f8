//! The chat list: archived or not, pinned chats first, optionally narrowed
//! to chats whose name or messages hold a search text, ignoring case.
use vstd::prelude::*;
use crate::computer::{contains_text, lowercase, unicode_lowercase};
use crate::text::{chars_of, trim, trimmed};
use crate::template::{holds, holds_exec};

verus! {

/// What the list reads of a chat: its name, whether it is archived or
/// pinned, and the text of each of its messages' content.
pub struct ChatView {
    pub name: String,
    pub archived: bool,
    pub pinned: bool,
    pub messages: Vec<String>,
}

/// The chat's name or one of its messages holds `q` (already lower case),
/// once lower-cased.
pub open spec fn chat_hit(c: ChatView, q: Seq<char>) -> bool {
    holds(unicode_lowercase(c.name@), q) || exists|k: int|
        0 <= k < c.messages.len() && holds(unicode_lowercase(#[trigger] c.messages@[k]@), q)
}

/// The chat is listed: in the requested archive state and, where there is a
/// search text, a hit.
pub open spec fn listed(c: ChatView, archived: bool, q: Seq<char>) -> bool {
    c.archived == archived && (q.len() == 0 || chat_hit(c, q))
}

/// The positions among the first `n` chats that are listed and pinned (or
/// not), in order.
pub open spec fn picked(chats: Seq<ChatView>, archived: bool, q: Seq<char>, pinned: bool, n: int) -> Seq<usize>
    decreases n,
{
    if n <= 0 {
        Seq::empty()
    } else {
        picked(chats, archived, q, pinned, n - 1) + if listed(chats[n - 1], archived, q) && chats[n - 1].pinned
            == pinned {
            seq![(n - 1) as usize]
        } else {
            Seq::<usize>::empty()
        }
    }
}

/// The search text as compared: trimmed, in lower case.
pub open spec fn search_text(query: Seq<char>) -> Seq<char> {
    unicode_lowercase(trimmed(query))
}

fn hit(c: &ChatView, q: &str) -> (r: bool)
    ensures
        r == chat_hit(*c, q@),
{
    let name = lowercase(c.name.as_str());
    if holds_exec(&chars_of(name.as_str()), q) {
        return true;
    }
    for k in 0..c.messages.len()
        invariant
            forall|j: int| 0 <= j < k ==> !holds(unicode_lowercase(#[trigger] c.messages@[j]@), q@),
    {
        let m = lowercase(c.messages[k].as_str());
        if holds_exec(&chars_of(m.as_str()), q) {
            return true;
        }
    }
    false
}

/// The chats to list, as positions: pinned chats first, each group in its
/// original order (the stable order of a sort by pinned).
pub fn list_chats(chats: &Vec<ChatView>, archived: bool, query: &str) -> (r: Vec<usize>)
    ensures
        r@ == picked(chats@, archived, search_text(query@), true, chats.len() as int) + picked(
            chats@,
            archived,
            search_text(query@),
            false,
            chats.len() as int,
        ),
{
    let q = lowercase(trim(query).as_str());
    let ghost qs = search_text(query@);
    let mut first: Vec<usize> = Vec::new();
    let mut rest: Vec<usize> = Vec::new();
    for i in 0..chats.len()
        invariant
            q@ == qs,
            first@ == picked(chats@, archived, qs, true, i as int),
            rest@ == picked(chats@, archived, qs, false, i as int),
    {
        let c = &chats[i];
        let keep = c.archived == archived && (q.as_str().unicode_len() == 0 || hit(c, q.as_str()));
        if keep {
            if c.pinned {
                first.push(i);
            } else {
                rest.push(i);
            }
        }
        proof {
            assert(keep == listed(chats@[i as int], archived, qs));
        }
    }
    first.append(&mut rest);
    first
}

} // verus!
