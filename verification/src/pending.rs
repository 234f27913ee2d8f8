//! Approval requests that wait for the user's answer, and how an approve or
//! deny request settles one: it must belong to the asking session and user,
//! be still awaited and younger than 300 seconds, and ask for a scope the
//! request offers; a settled or expired request is gone.
use vstd::prelude::*;
use crate::approval::{choose_reply, spec_choose_reply, Reply};
use crate::error::Error;
use crate::text::str_eq;

verus! {

/// A request waiting for the user.
pub struct PendingRequest {
    pub id: String,
    pub session: String,
    pub user: String,
    /// When it was made, in seconds.
    pub created_at: i64,
    /// A session-wide answer is offered.
    pub allow_session: bool,
    /// The turn no longer waits for the answer.
    pub closed: bool,
    pub tool: String,
}

pub struct RequestModel {
    pub id: Seq<char>,
    pub session: Seq<char>,
    pub user: Seq<char>,
    pub created_at: i64,
    pub allow_session: bool,
    pub closed: bool,
    pub tool: Seq<char>,
}

impl View for PendingRequest {
    type V = RequestModel;

    open spec fn view(&self) -> RequestModel {
        RequestModel {
            id: self.id@,
            session: self.session@,
            user: self.user@,
            created_at: self.created_at,
            allow_session: self.allow_session,
            closed: self.closed,
            tool: self.tool@,
        }
    }
}

pub open spec fn request_views(v: Seq<PendingRequest>) -> Seq<RequestModel> {
    v.map_values(|r: PendingRequest| r@)
}

/// No two requests share an id.
pub open spec fn distinct_ids(m: Seq<RequestModel>) -> bool {
    forall|i: int, j: int| 0 <= i < j < m.len() ==> (#[trigger] m[i]).id != (#[trigger] m[j]).id
}

/// Where the request with this id is.
pub open spec fn position(m: Seq<RequestModel>, id: Seq<char>) -> Option<int> {
    if exists|i: int| 0 <= i < m.len() && (#[trigger] m[i]).id == id {
        Some(choose|i: int| 0 <= i < m.len() && (#[trigger] m[i]).id == id)
    } else {
        None
    }
}

/// The requests after an answer to `id`, and what the answer gives: the
/// reply and the tool it concerns, or the refusal.
pub open spec fn spec_decide(
    m: Seq<RequestModel>,
    id: Seq<char>,
    session: Seq<char>,
    user: Seq<char>,
    scope: Option<Seq<char>>,
    deny: bool,
    now: i64,
) -> (Seq<RequestModel>, Result<(Reply, Seq<char>), (u16, Seq<char>)>) {
    match position(m, id) {
        None => (m, Err((404u16, "Approval expired"@))),
        Some(i) => {
            let r = m[i];
            let s = match scope {
                Some(s) => s,
                None => "exact"@,
            };
            if r.session != session || r.user != user {
                (m, Err((403u16, "Approval belongs to another session"@)))
            } else if r.closed || r.created_at + 300 <= now {
                (m.remove(i), Err((409u16, "Approval expired or turn cancelled"@)))
            } else if !(s == "exact"@ || s == "session"@) || (s == "session"@ && !r.allow_session) {
                (m, Err((400u16, "Approval scope is not available for this action"@)))
            } else {
                (
                    m.remove(i),
                    Ok(
                        (
                            if deny {
                                Reply::Deny
                            } else if s == "session"@ {
                                Reply::Session
                            } else {
                                Reply::Once
                            },
                            r.tool,
                        ),
                    ),
                )
            }
        },
    }
}

/// The requests waiting for the user, by id.
pub struct PendingApprovals {
    requests: Vec<PendingRequest>,
}

impl View for PendingApprovals {
    type V = Seq<RequestModel>;

    closed spec fn view(&self) -> Seq<RequestModel> {
        request_views(self.requests@)
    }
}

proof fn lemma_position(m: Seq<RequestModel>, id: Seq<char>)
    ensures
        position(m, id) matches Some(i) ==> 0 <= i < m.len() && m[i].id == id,
        position(m, id) is None ==> forall|k: int| 0 <= k < m.len() ==> (#[trigger] m[k]).id != id,
{
}

proof fn lemma_remove_distinct(m: Seq<RequestModel>, i: int)
    requires
        distinct_ids(m),
        0 <= i < m.len(),
    ensures
        distinct_ids(m.remove(i)),
        forall|k: int| 0 <= k < m.remove(i).len() ==> (#[trigger] m.remove(i)[k]).id != m[i].id,
{
    let r = m.remove(i);
    assert forall|a: int, b: int| 0 <= a < b < r.len() implies (#[trigger] r[a]).id != (#[trigger] r[b]).id by {
        let a0 = if a < i { a } else { a + 1 };
        let b0 = if b < i { b } else { b + 1 };
        assert(r[a] == m[a0] && r[b] == m[b0]);
    }
    assert forall|k: int| 0 <= k < r.len() implies (#[trigger] r[k]).id != m[i].id by {
        let k0 = if k < i { k } else { k + 1 };
        assert(r[k] == m[k0]);
    }
}

impl PendingApprovals {
    pub closed spec fn wf(&self) -> bool {
        distinct_ids(self@)
    }

    /// No request waits.
    pub fn new() -> (p: PendingApprovals)
        ensures
            p.wf(),
            p@ == Seq::<RequestModel>::empty(),
    {
        let p = PendingApprovals { requests: Vec::new() };
        proof {
            assert(p@ =~= Seq::<RequestModel>::empty());
        }
        p
    }

    fn find(&self, id: &str) -> (r: Option<usize>)
        requires
            self.wf(),
        ensures
            r == match position(self@, id@) {
                Some(i) => Some(i as usize),
                None => None::<usize>,
            },
            r matches Some(i) ==> i < self@.len(),
    {
        let ghost m = self@;
        for i in 0..self.requests.len()
            invariant
                m == self@,
                m.len() == self.requests.len(),
                distinct_ids(m),
                forall|k: int| 0 <= k < i ==> (#[trigger] m[k]).id != id@,
        {
            proof {
                assert(m[i as int] == self.requests@[i as int]@);
            }
            if str_eq(self.requests[i].id.as_str(), id) {
                proof {
                    let c = choose|k: int| 0 <= k < m.len() && (#[trigger] m[k]).id == id@;
                    if c != i {
                        if c < i {
                            assert(m[c].id != m[i as int].id);
                        } else {
                            assert(m[i as int].id != m[c].id);
                        }
                    }
                }
                return Some(i);
            }
        }
        None
    }

    /// Adds a request, replacing one with the same id.
    pub fn add(&mut self, request: PendingRequest)
        requires
            old(self).wf(),
        ensures
            final(self).wf(),
            final(self)@ == match position(old(self)@, request.id@) {
                Some(i) => old(self)@.remove(i).push(request@),
                None => old(self)@.push(request@),
            },
    {
        let ghost m = self@;
        proof {
            lemma_position(m, request@.id);
            assert(m.len() == self.requests.len());
        }
        let found = self.find(request.id.as_str());
        if let Some(i) = found {
            proof {
                lemma_remove_distinct(m, i as int);
            }
            self.requests.remove(i);
            proof {
                assert(self@ =~= m.remove(i as int));
            }
        }
        let ghost before = self@;
        proof {
            if found is None {
                assert(before =~= m);
            }
            assert forall|k: int| 0 <= k < before.len() implies (#[trigger] before[k]).id != request@.id by {
                if found is Some {
                    assert(m[found->0 as int].id == request@.id);
                }
            }
        }
        self.requests.push(request);
        proof {
            assert(self@ =~= before.push(request@));
            assert forall|a: int, b: int| 0 <= a < b < self@.len() implies (#[trigger] self@[a]).id != (
            #[trigger] self@[b]).id by {
                if b == before.len() {
                    assert(self@[a] == before[a]);
                } else {
                    assert(self@[a] == before[a] && self@[b] == before[b]);
                }
            }
        }
    }

    /// Answers the request `id` for the asking session and user at `now`:
    /// gives the reply and the tool; a settled or expired request is
    /// removed, any other refusal leaves the requests as they are.
    pub fn decide(
        &mut self,
        id: &str,
        session: &str,
        user: &str,
        scope: Option<&str>,
        deny: bool,
        now: i64,
    ) -> (r: Result<(Reply, String), Error>)
        requires
            old(self).wf(),
        ensures
            final(self).wf(),
            ({
                let (after, outcome) = spec_decide(
                    old(self)@,
                    id@,
                    session@,
                    user@,
                    match scope {
                        Some(s) => Some(s@),
                        None => None,
                    },
                    deny,
                    now,
                );
                &&& final(self)@ == after
                &&& match outcome {
                    Ok((reply, tool)) => r matches Ok((rr, t)) && rr == reply && t@ == tool,
                    Err((status, m)) => r matches Err(e) && e.status == status && e.message@ == m,
                }
            }),
    {
        let ghost m = self@;
        proof {
            lemma_position(m, id@);
            assert(m.len() == self.requests.len());
        }
        let i = match self.find(id) {
            None => {
                return Err(Error::new(404, "Approval expired"));
            },
            Some(i) => i,
        };
        proof {
            assert(m[i as int] == self.requests@[i as int]@);
        }
        let r = &self.requests[i];
        if !str_eq(r.session.as_str(), session) || !str_eq(r.user.as_str(), user) {
            return Err(Error::new(403, "Approval belongs to another session"));
        }
        if r.closed || (r.created_at as i128) + 300 <= now as i128 {
            proof {
                lemma_remove_distinct(m, i as int);
            }
            self.requests.remove(i);
            proof {
                assert(self@ =~= m.remove(i as int));
            }
            return Err(Error::new(409, "Approval expired or turn cancelled"));
        }
        let reply = match choose_reply(deny, scope, r.allow_session) {
            Err(_) => {
                return Err(Error::new(400, "Approval scope is not available for this action"));
            },
            Ok(reply) => reply,
        };
        proof {
            lemma_remove_distinct(m, i as int);
        }
        let removed = self.requests.remove(i);
        proof {
            assert(self@ =~= m.remove(i as int));
        }
        Ok((reply, removed.tool))
    }
}

/// Once a request is answered it is gone: answering it again, whoever asks
/// and however, finds nothing (404).
pub proof fn law_answered_request_is_gone(
    m: Seq<RequestModel>,
    id: Seq<char>,
    session: Seq<char>,
    user: Seq<char>,
    scope: Option<Seq<char>>,
    deny: bool,
    now: i64,
    session2: Seq<char>,
    user2: Seq<char>,
    scope2: Option<Seq<char>>,
    deny2: bool,
    now2: i64,
)
    requires
        distinct_ids(m),
        spec_decide(m, id, session, user, scope, deny, now).1 is Ok,
    ensures
        spec_decide(spec_decide(m, id, session, user, scope, deny, now).0, id, session2, user2, scope2, deny2, now2).1
            == Err::<(Reply, Seq<char>), (u16, Seq<char>)>((404u16, "Approval expired"@)),
{
    let i = position(m, id)->0;
    lemma_remove_distinct(m, i);
    let after = m.remove(i);
    assert(!(exists|k: int| 0 <= k < after.len() && (#[trigger] after[k]).id == id));
}

/// A refused scope changes nothing: the request still waits for an answer.
pub proof fn law_refused_scope_keeps_request(
    m: Seq<RequestModel>,
    id: Seq<char>,
    session: Seq<char>,
    user: Seq<char>,
    scope: Option<Seq<char>>,
    deny: bool,
    now: i64,
)
    requires
        spec_decide(m, id, session, user, scope, deny, now).1 matches Err((status, _)) && status == 400,
    ensures
        spec_decide(m, id, session, user, scope, deny, now).0 == m,
{
}

} // verus!
