//! The local API's parameterised endpoints: which handler a method and path
//! reach, the identifiers they carry, and the method checks made before any
//! stored state is read.
use vstd::prelude::*;
use crate::error::Error;
use crate::text::{blank, chars_of, is_blank, push_char, str_eq, trim, trimmed};

verus! {

/// `s` begins with `p`.
pub open spec fn starts(s: Seq<char>, p: Seq<char>) -> bool {
    p.len() <= s.len() && s.subrange(0, p.len() as int) == p
}

/// `s` ends with `p`.
pub open spec fn ends(s: Seq<char>, p: Seq<char>) -> bool {
    p.len() <= s.len() && s.subrange(s.len() - p.len(), s.len() as int) == p
}

/// What follows the first `n` characters.
pub open spec fn drop(s: Seq<char>, n: int) -> Seq<char> {
    s.subrange(n, s.len() as int)
}

/// All but the last `n` characters.
pub open spec fn cut(s: Seq<char>, n: int) -> Seq<char> {
    s.subrange(0, s.len() - n)
}

/// `k` is the position of the first `/` in `s`.
pub open spec fn first_slash(s: Seq<char>, k: int) -> bool {
    0 <= k < s.len() && s[k] == '/' && forall|j: int| 0 <= j < k ==> s[j] != '/'
}

/// A parameterised endpoint, with what its path carries.
#[derive(Debug)]
pub enum Route {
    /// `POST /api/questions/{id}/answer`.
    AnswerQuestion(String),
    /// `GET /api/native/history-health`.
    HistoryHealth,
    /// `GET /api/chats/{id}/archive`.
    ChatArchive(String),
    /// `GET /api/chats/{id}/context-stats`.
    ChatContextStats(String),
    /// Any method on `/api/chats/{id}`.
    Chat(String),
    /// `DELETE /api/models/custom-providers/{id}`.
    DeleteCustomProvider(String),
    /// Any method on `/api/models/{provider}/{action}`.
    Provider { provider: String, action: String },
}

pub enum RouteModel {
    AnswerQuestion(Seq<char>),
    HistoryHealth,
    ChatArchive(Seq<char>),
    ChatContextStats(Seq<char>),
    Chat(Seq<char>),
    DeleteCustomProvider(Seq<char>),
    Provider(Seq<char>, Seq<char>),
}

impl Route {
    pub open spec fn model(&self) -> RouteModel {
        match self {
            Route::AnswerQuestion(id) => RouteModel::AnswerQuestion(id@),
            Route::HistoryHealth => RouteModel::HistoryHealth,
            Route::ChatArchive(id) => RouteModel::ChatArchive(id@),
            Route::ChatContextStats(id) => RouteModel::ChatContextStats(id@),
            Route::Chat(id) => RouteModel::Chat(id@),
            Route::DeleteCustomProvider(id) => RouteModel::DeleteCustomProvider(id@),
            Route::Provider { provider, action } => RouteModel::Provider(provider@, action@),
        }
    }
}

pub open spec fn not_allowed() -> (u16, Seq<char>) {
    (405, "Method not allowed"@)
}

/// Where a method and path lead among the parameterised endpoints, tried in
/// order: question answers, history health, chats, then models. `None`
/// where none of them matches; a method that the endpoint does not take is
/// refused with 405 before anything is looked up.
pub open spec fn spec_route(method: Seq<char>, path: Seq<char>) -> Option<Result<RouteModel, (u16, Seq<char>)>> {
    let questions = "/api/questions/"@;
    let answer = "/answer"@;
    let chats = "/api/chats/"@;
    let models = "/api/models/"@;
    let custom = "custom-providers/"@;
    if starts(path, questions) && ends(drop(path, questions.len() as int), answer) {
        if method != "POST"@ {
            Some(Err(not_allowed()))
        } else {
            Some(Ok(RouteModel::AnswerQuestion(cut(drop(path, questions.len() as int), answer.len() as int))))
        }
    } else if path == "/api/native/history-health"@ && method == "GET"@ {
        Some(Ok(RouteModel::HistoryHealth))
    } else if starts(path, chats) {
        let id = drop(path, chats.len() as int);
        if ends(id, "/archive"@) {
            if method != "GET"@ {
                Some(Err(not_allowed()))
            } else {
                Some(Ok(RouteModel::ChatArchive(cut(id, 8))))
            }
        } else if ends(id, "/context-stats"@) {
            if method != "GET"@ {
                Some(Err(not_allowed()))
            } else {
                Some(Ok(RouteModel::ChatContextStats(cut(id, 14))))
            }
        } else {
            Some(Ok(RouteModel::Chat(id)))
        }
    } else if starts(path, models) {
        let rest = drop(path, models.len() as int);
        if starts(rest, custom) && method == "DELETE"@ {
            Some(Ok(RouteModel::DeleteCustomProvider(drop(rest, custom.len() as int))))
        } else if exists|k: int| first_slash(rest, k) {
            let k = choose|k: int| first_slash(rest, k);
            Some(Ok(RouteModel::Provider(rest.subrange(0, k), drop(rest, k + 1))))
        } else {
            Some(Err((404, "Unknown model endpoint"@)))
        }
    } else {
        None
    }
}

/// Whether `lit` stands in `s` at `start`.
fn occurs_at(s: &Vec<char>, start: usize, lit: &str) -> (r: bool)
    ensures
        r == (start + lit@.len() <= s@.len() && s@.subrange(start as int, start + lit@.len()) == lit@),
{
    let p = chars_of(lit);
    if start > s.len() || p.len() > s.len() - start {
        return false;
    }
    for i in 0..p.len()
        invariant
            p@ == lit@,
            start + p.len() <= s.len(),
            forall|j: int| 0 <= j < i ==> s@[start + j] == p@[j],
    {
        if s[start + i] != p[i] {
            proof {
                assert(s@.subrange(start as int, start + lit@.len())[i as int] != lit@[i as int]);
            }
            return false;
        }
    }
    proof {
        assert(s@.subrange(start as int, start + lit@.len()) =~= lit@);
    }
    true
}

/// The characters of `s` from `a` up to `b`.
fn between(s: &Vec<char>, a: usize, b: usize) -> (r: String)
    requires
        a <= b <= s.len(),
    ensures
        r@ == s@.subrange(a as int, b as int),
{
    let mut r = String::new();
    let mut i = a;
    while i < b
        invariant
            a <= i <= b <= s.len(),
            r@ == s@.subrange(a as int, i as int),
        decreases b - i,
    {
        push_char(&mut r, s[i]);
        proof {
            assert(s@.subrange(a as int, i + 1) =~= s@.subrange(a as int, i as int).push(s@[i as int]));
        }
        i = i + 1;
    }
    r
}

/// The handler that a method and path reach among the parameterised
/// endpoints.
pub fn route(method: &str, path: &str) -> (r: Option<Result<Route, Error>>)
    ensures
        match spec_route(method@, path@) {
            None => r is None,
            Some(Ok(m)) => r matches Some(Ok(x)) && x.model() == m,
            Some(Err((status, message))) => r matches Some(Err(e)) && e.status == status && e.message@ == message,
        },
{
    proof {
        reveal_strlit("/api/questions/");
        reveal_strlit("/answer");
        reveal_strlit("/api/chats/");
        reveal_strlit("/archive");
        reveal_strlit("/context-stats");
        reveal_strlit("/api/models/");
        reveal_strlit("custom-providers/");
    }
    let s = chars_of(path);
    let n = s.len();
    if occurs_at(&s, 0, "/api/questions/") && n >= 22 && occurs_at(&s, n - 7, "/answer") {
        proof {
            assert(drop(path@, 15).subrange(drop(path@, 15).len() - 7, drop(path@, 15).len() as int)
                =~= s@.subrange(n - 7, n as int));
        }
        if !str_eq(method, "POST") {
            return Some(Err(Error::new(405, "Method not allowed")));
        }
        let id = between(&s, 15, n - 7);
        proof {
            assert(cut(drop(path@, 15), 7) =~= s@.subrange(15, n - 7));
        }
        return Some(Ok(Route::AnswerQuestion(id)));
    }
    proof {
        if starts(path@, "/api/questions/"@) && ends(drop(path@, 15), "/answer"@) {
            assert(drop(path@, 15).subrange(drop(path@, 15).len() - 7, drop(path@, 15).len() as int)
                =~= s@.subrange(n - 7, n as int));
        }
    }
    if str_eq(path, "/api/native/history-health") && str_eq(method, "GET") {
        return Some(Ok(Route::HistoryHealth));
    }
    if occurs_at(&s, 0, "/api/chats/") {
        let ghost id = drop(path@, 11);
        if n >= 19 && occurs_at(&s, n - 8, "/archive") {
            proof {
                assert(id.subrange(id.len() - 8, id.len() as int) =~= s@.subrange(n - 8, n as int));
            }
            if !str_eq(method, "GET") {
                return Some(Err(Error::new(405, "Method not allowed")));
            }
            let v = between(&s, 11, n - 8);
            proof {
                assert(cut(id, 8) =~= s@.subrange(11, n - 8));
            }
            return Some(Ok(Route::ChatArchive(v)));
        }
        proof {
            if ends(id, "/archive"@) {
                assert(id.subrange(id.len() - 8, id.len() as int) =~= s@.subrange(n - 8, n as int));
            }
        }
        if n >= 25 && occurs_at(&s, n - 14, "/context-stats") {
            proof {
                assert(id.subrange(id.len() - 14, id.len() as int) =~= s@.subrange(n - 14, n as int));
            }
            if !str_eq(method, "GET") {
                return Some(Err(Error::new(405, "Method not allowed")));
            }
            let v = between(&s, 11, n - 14);
            proof {
                assert(cut(id, 14) =~= s@.subrange(11, n - 14));
            }
            return Some(Ok(Route::ChatContextStats(v)));
        }
        proof {
            if ends(id, "/context-stats"@) {
                assert(id.subrange(id.len() - 14, id.len() as int) =~= s@.subrange(n - 14, n as int));
            }
        }
        let v = between(&s, 11, n);
        return Some(Ok(Route::Chat(v)));
    }
    if occurs_at(&s, 0, "/api/models/") {
        let ghost rest = drop(path@, 12);
        if occurs_at(&s, 12, "custom-providers/") && str_eq(method, "DELETE") {
            proof {
                assert(rest.subrange(0, 17) =~= s@.subrange(12, 29));
            }
            let v = between(&s, 29, n);
            proof {
                assert(drop(rest, 17) =~= s@.subrange(29, n as int));
            }
            return Some(Ok(Route::DeleteCustomProvider(v)));
        }
        proof {
            if starts(rest, "custom-providers/"@) {
                assert(rest.subrange(0, 17) =~= s@.subrange(12, 29));
            }
        }
        let mut k: usize = 12;
        while k < n
            invariant
                12 <= k <= n,
                n == s.len(),
                s@ == path@,
                rest == drop(path@, 12),
                forall|j: int| 12 <= j < k ==> s@[j] != '/',
            ensures
                k < n ==> s@[k as int] == '/',
            decreases n - k,
        {
            if s[k] == '/' {
                break;
            }
            k = k + 1;
        }
        if k < n {
            proof {
                assert(rest.len() == n - 12);
                assert(rest[k - 12] == s@[k as int]);
                assert forall|j: int| 0 <= j < k - 12 implies rest[j] != '/' by {
                    assert(rest[j] == s@[j + 12]);
                }
                assert(first_slash(rest, k - 12));
                assert forall|q: int| first_slash(rest, q) implies q == k - 12 by {
                    if q < k - 12 {
                        assert(rest[q] == s@[q + 12]);
                    } else if q > k - 12 {
                        assert(rest[k - 12] == s@[k as int]);
                    }
                }
            }
            let provider = between(&s, 12, k);
            let action = between(&s, k + 1, n);
            proof {
                let q = choose|q: int| first_slash(rest, q);
                assert(q == k - 12);
                assert(rest.subrange(0, q) =~= s@.subrange(12, k as int));
                assert(drop(rest, q + 1) =~= s@.subrange(k + 1, n as int));
            }
            return Some(Ok(Route::Provider { provider, action }));
        }
        proof {
            assert forall|q: int| !first_slash(rest, q) by {
                if 0 <= q < rest.len() {
                    assert(rest[q] == s@[q + 12]);
                }
            }
        }
        return Some(Err(Error::new(404, "Unknown model endpoint")));
    }
    None
}

/// What a method on one chat does.
#[derive(Clone, Copy, Debug, PartialEq, Eq, Structural)]
pub enum ChatOp {
    Show,
    Update,
    Delete,
}

/// A chat is shown, updated, or deleted when no turn of it runs; deleting a
/// running chat is refused with 409, other methods with 405.
pub fn chat_method(method: &str, running: bool) -> (r: Result<ChatOp, Error>)
    ensures
        method@ == "GET"@ ==> r == Ok::<ChatOp, Error>(ChatOp::Show),
        method@ == "PUT"@ ==> r == Ok::<ChatOp, Error>(ChatOp::Update),
        method@ == "DELETE"@ && !running ==> r == Ok::<ChatOp, Error>(ChatOp::Delete),
        method@ == "DELETE"@ && running ==> (r matches Err(e) && e.status == 409 && e.message@
            == "Stop the running turn before deleting this chat"@),
        method@ != "GET"@ && method@ != "PUT"@ && method@ != "DELETE"@ ==> (r matches Err(e) && e.status == 405
            && e.message@ == "Method not allowed"@),
{
    proof {
        reveal_strlit("GET");
        reveal_strlit("PUT");
        reveal_strlit("DELETE");
        assert("PUT"@ != "GET"@) by {
            assert("PUT"@[0] != "GET"@[0]);
        }
        assert("DELETE"@ != "GET"@) by {
            assert("DELETE"@.len() != "GET"@.len());
        }
        assert("DELETE"@ != "PUT"@) by {
            assert("DELETE"@.len() != "PUT"@.len());
        }
    }
    if str_eq(method, "GET") {
        Ok(ChatOp::Show)
    } else if str_eq(method, "PUT") {
        Ok(ChatOp::Update)
    } else if str_eq(method, "DELETE") {
        if running {
            Err(Error::new(409, "Stop the running turn before deleting this chat"))
        } else {
            Ok(ChatOp::Delete)
        }
    } else {
        Err(Error::new(405, "Method not allowed"))
    }
}

/// What a method and action on one provider do.
#[derive(Debug)]
pub enum ProviderOp {
    /// `PUT config`.
    Config,
    /// `POST models`.
    AddModel,
    /// `PUT models/{id}` or `PUT models/{id}/config`.
    UpdateModel(String),
    /// `DELETE models/{id}`.
    DeleteModel(String),
    /// `POST discover`.
    Discover,
    /// `POST test`.
    Test,
}

pub enum ProviderOpModel {
    Config,
    AddModel,
    UpdateModel(Seq<char>),
    DeleteModel(Seq<char>),
    Discover,
    Test,
}

impl ProviderOp {
    pub open spec fn model(&self) -> ProviderOpModel {
        match self {
            ProviderOp::Config => ProviderOpModel::Config,
            ProviderOp::AddModel => ProviderOpModel::AddModel,
            ProviderOp::UpdateModel(id) => ProviderOpModel::UpdateModel(id@),
            ProviderOp::DeleteModel(id) => ProviderOpModel::DeleteModel(id@),
            ProviderOp::Discover => ProviderOpModel::Discover,
            ProviderOp::Test => ProviderOpModel::Test,
        }
    }
}

/// The provider operation a method and action name; `None` for any other
/// pair, which the service answers as not available.
pub open spec fn spec_provider_op(method: Seq<char>, action: Seq<char>) -> Option<ProviderOpModel> {
    let m = "models/"@;
    if method == "PUT"@ && action == "config"@ {
        Some(ProviderOpModel::Config)
    } else if method == "POST"@ && action == "models"@ {
        Some(ProviderOpModel::AddModel)
    } else if method == "PUT"@ && starts(action, m) {
        let id = drop(action, 7);
        Some(ProviderOpModel::UpdateModel(if ends(id, "/config"@) { cut(id, 7) } else { id }))
    } else if method == "DELETE"@ && starts(action, m) {
        Some(ProviderOpModel::DeleteModel(drop(action, 7)))
    } else if method == "POST"@ && action == "discover"@ {
        Some(ProviderOpModel::Discover)
    } else if method == "POST"@ && action == "test"@ {
        Some(ProviderOpModel::Test)
    } else {
        None
    }
}

/// The operation that a method and action on a provider name.
pub fn provider_op(method: &str, action: &str) -> (r: Option<ProviderOp>)
    ensures
        match spec_provider_op(method@, action@) {
            None => r is None,
            Some(m) => r matches Some(x) && x.model() == m,
        },
{
    proof {
        reveal_strlit("models/");
        reveal_strlit("/config");
    }
    let a = chars_of(action);
    let n = a.len();
    if str_eq(method, "PUT") && str_eq(action, "config") {
        return Some(ProviderOp::Config);
    }
    if str_eq(method, "POST") && str_eq(action, "models") {
        return Some(ProviderOp::AddModel);
    }
    let is_models = occurs_at(&a, 0, "models/");
    if str_eq(method, "PUT") && is_models {
        let ghost id = drop(action@, 7);
        if n >= 14 && occurs_at(&a, n - 7, "/config") {
            proof {
                assert(id.subrange(id.len() - 7, id.len() as int) =~= a@.subrange(n - 7, n as int));
                assert(cut(id, 7) =~= a@.subrange(7, n - 7));
            }
            return Some(ProviderOp::UpdateModel(between(&a, 7, n - 7)));
        }
        proof {
            if ends(id, "/config"@) {
                assert(id.subrange(id.len() - 7, id.len() as int) =~= a@.subrange(n - 7, n as int));
            }
            assert(id =~= a@.subrange(7, n as int));
        }
        return Some(ProviderOp::UpdateModel(between(&a, 7, n)));
    }
    if str_eq(method, "DELETE") && is_models {
        proof {
            assert(drop(action@, 7) =~= a@.subrange(7, n as int));
        }
        return Some(ProviderOp::DeleteModel(between(&a, 7, n)));
    }
    if str_eq(method, "POST") && str_eq(action, "discover") {
        return Some(ProviderOp::Discover);
    }
    if str_eq(method, "POST") && str_eq(action, "test") {
        return Some(ProviderOp::Test);
    }
    None
}

/// A new chat name is refused when it is blank or longer than 500 bytes.
pub open spec fn chat_name_refused(name: Seq<char>) -> bool {
    blank(name) || vstd::utf8::encode_utf8(name).len() > 500
}

/// Checks an update of a chat before it is stored: a given name must hold
/// 1 to 500 bytes and not be blank (it is stored trimmed), and a chat whose
/// turn runs cannot be archived or restored. Returns the name to store.
pub fn check_chat_update(name: Option<&str>, archiving: bool, running: bool) -> (r: Result<Option<String>, Error>)
    ensures
        (name matches Some(n) && chat_name_refused(n@)) ==> (r matches Err(e) && e.status == 400 && e.message@
            == "Conversation name must contain 1–500 bytes"@),
        !(name matches Some(n) && chat_name_refused(n@)) && archiving && running ==> (r matches Err(e) && e.status
            == 409 && e.message@ == "Stop the conversation before archiving"@),
        r is Ok <==> !(name matches Some(n) && chat_name_refused(n@)) && !(archiving && running),
        r matches Ok(stored) ==> match name {
            None => stored is None,
            Some(n) => stored matches Some(t) && t@ == trimmed(n@),
        },
{
    let stored = match name {
        Some(n) => {
            if is_blank(n) || n.as_bytes().len() > 500 {
                return Err(Error::new(400, "Conversation name must contain 1–500 bytes"));
            }
            Some(trim(n))
        },
        None => None,
    };
    if archiving && running {
        return Err(Error::new(409, "Stop the conversation before archiving"));
    }
    Ok(stored)
}

} // verus!
