//! Which applications the computer-use driver may never control, which
//! application and window an observation targets, and what an action sends.
use vstd::prelude::*;
use crate::file_ops::occurs_at;
use crate::text::{chars_of, str_eq};

verus! {

/// The text in lower case by Unicode's full case mapping.
pub uninterp spec fn unicode_lowercase(s: Seq<char>) -> Seq<char>;

/// `str::to_lowercase`: Unicode lower case, which may change the length.
#[verifier::external_body]
pub(crate) fn lowercase(s: &str) -> (r: String)
    ensures
        r@ == unicode_lowercase(s@),
{
    s.to_lowercase()
}

pub open spec fn contains_text(s: Seq<char>, lit: Seq<char>) -> bool {
    exists|i: int| occurs_at(s, lit, i)
}

/// Application names (in lower case) of terminals and system settings.
pub open spec fn protected_app_name(a: Seq<char>) -> bool {
    a == "terminal"@ || a == "iterm"@ || a == "iterm2"@ || a == "windows terminal"@ || a
        == "windowsterminal"@ || a == "alacritty"@ || a == "wezterm"@ || a == "system settings"@ || a
        == "system preferences"@
}

/// Bundle identifiers (in lower case) of terminals and system settings.
pub open spec fn protected_bundle(b: Seq<char>) -> bool {
    b == "com.apple.terminal"@ || b == "com.googlecode.iterm2"@ || b == "com.github.wez.wezterm"@ || b
        == "org.alacritty"@ || b == "com.apple.systempreferences"@ || b == "com.apple.preferences"@ || b
        == "com.microsoft.windows.terminal"@ || b == "microsoft.windowsterminal_8wekyb3d8bbwe"@
}

/// The runtime itself, anything named like it, terminals and system
/// settings are never controlled.
pub open spec fn spec_protected(app: Seq<char>, bundle: Seq<char>, pid: u64, own_pid: u64) -> bool {
    let a = unicode_lowercase(app);
    let b = unicode_lowercase(bundle);
    pid == own_pid || contains_text(a, "potato"@) || contains_text(b, "potato"@) || contains_text(
        a,
        "qwenpaw"@,
    ) || contains_text(b, "qwenpaw"@) || protected_app_name(a) || protected_bundle(b)
}

fn has_text(s: &Vec<char>, lit: &str) -> (r: bool)
    ensures
        r == contains_text(s@, lit@),
{
    let p = chars_of(lit);
    let mut i: usize = 0;
    loop
        invariant
            p@ == lit@,
            i <= s.len(),
            forall|j: int| 0 <= j < i ==> !occurs_at(s@, lit@, j),
        ensures
            forall|j: int| 0 <= j <= s.len() ==> !occurs_at(s@, lit@, j),
        decreases s.len() - i,
    {
        if crate::file_ops::occurs_here(s, &p, i) {
            return true;
        }
        if i == s.len() {
            break;
        }
        i = i + 1;
    }
    proof {
        assert forall|j: int| !occurs_at(s@, lit@, j) by {
            if occurs_at(s@, lit@, j) {
                assert(j <= s.len());
            }
        }
    }
    false
}

/// Whether an application must never be controlled; `own_pid` is the
/// runtime's process id.
pub fn protected(app: &str, bundle: &str, pid: u64, own_pid: u64) -> (r: bool)
    ensures
        r == spec_protected(app@, bundle@, pid, own_pid),
{
    let a = lowercase(app);
    let b = lowercase(bundle);
    let ac = chars_of(a.as_str());
    let bc = chars_of(b.as_str());
    let s = a.as_str();
    let t = b.as_str();
    pid == own_pid || has_text(&ac, "potato") || has_text(&bc, "potato") || has_text(&ac, "qwenpaw")
        || has_text(&bc, "qwenpaw") || str_eq(s, "terminal") || str_eq(s, "iterm") || str_eq(s, "iterm2")
        || str_eq(s, "windows terminal") || str_eq(s, "windowsterminal") || str_eq(s, "alacritty")
        || str_eq(s, "wezterm") || str_eq(s, "system settings") || str_eq(s, "system preferences")
        || str_eq(t, "com.apple.terminal") || str_eq(t, "com.googlecode.iterm2") || str_eq(
        t,
        "com.github.wez.wezterm",
    ) || str_eq(t, "org.alacritty") || str_eq(t, "com.apple.systempreferences") || str_eq(
        t,
        "com.apple.preferences",
    ) || str_eq(t, "com.microsoft.windows.terminal") || str_eq(t, "microsoft.windowsterminal_8wekyb3d8bbwe")
}

/// An application as the driver lists it: its bundle id and its name
/// (the first non-empty of the fields that carry each; empty where none).
pub struct AppView {
    pub bundle: String,
    pub title: String,
}

/// The application names what was asked for, ignoring case.
pub open spec fn app_named(a: AppView, needle: Seq<char>) -> bool {
    unicode_lowercase(a.bundle@) == unicode_lowercase(needle) || unicode_lowercase(a.title@) == unicode_lowercase(
        needle,
    )
}

/// How many of the first `n` applications are named so.
pub open spec fn named_count(apps: Seq<AppView>, needle: Seq<char>, n: int) -> int
    decreases n,
{
    if n <= 0 {
        0
    } else {
        named_count(apps, needle, n - 1) + if app_named(apps[n - 1], needle) {
            1int
        } else {
            0int
        }
    }
}

proof fn lemma_named_count(apps: Seq<AppView>, needle: Seq<char>, n: int, i: int)
    requires
        0 <= i < n <= apps.len(),
        app_named(apps[i], needle),
    ensures
        named_count(apps, needle, n) >= named_count(apps, needle, i) + 1,
    decreases n - i,
{
    if n - 1 > i {
        lemma_named_count(apps, needle, n - 1, i);
    }
    lemma_count_grows(apps, needle, i, n);
}

proof fn lemma_count_grows(apps: Seq<AppView>, needle: Seq<char>, i: int, n: int)
    requires
        0 <= i <= n,
    ensures
        named_count(apps, needle, i) <= named_count(apps, needle, n),
    decreases n - i,
{
    if i < n {
        lemma_count_grows(apps, needle, i, n - 1);
    }
}

/// The one application named `needle` (an application id or name, any
/// case); refused where `needle` is blank or names none or several.
pub fn pick_app(apps: &Vec<AppView>, needle: &str) -> (r: Result<usize, crate::error::Error>)
    ensures
        crate::text::blank(needle@) ==> (r matches Err(e) && e.status == 400 && e.message@ == "app is required"@),
        !crate::text::blank(needle@) && named_count(apps@, needle@, apps.len() as int) != 1 ==> (r matches Err(e)
            && e.status == 400 && e.message@
            == "Use an exact, unambiguous application name or bundle ID from computer_list_apps"@),
        !crate::text::blank(needle@) && named_count(apps@, needle@, apps.len() as int) == 1 ==> (r matches Ok(i)
            && i < apps.len() && app_named(apps@[i as int], needle@)),
{
    if let Err(e) = crate::error::required(needle, "app") {
        proof {
            reveal_strlit("app");
            reveal_strlit(" is required");
            reveal_strlit("app is required");
            assert(e.message@ =~= "app is required"@);
        }
        return Err(e);
    }
    let wanted = lowercase(needle);
    let mut found: Option<usize> = None;
    let mut count: usize = 0;
    for i in 0..apps.len()
        invariant
            wanted@ == unicode_lowercase(needle@),
            count == named_count(apps@, needle@, i as int),
            count <= i,
            found matches Some(k) ==> k < i && app_named(apps@[k as int], needle@),
            count > 0 <==> found is Some,
    {
        let b = lowercase(apps[i].bundle.as_str());
        let t = lowercase(apps[i].title.as_str());
        if str_eq(b.as_str(), wanted.as_str()) || str_eq(t.as_str(), wanted.as_str()) {
            found = Some(i);
            count = count + 1;
        }
    }
    match found {
        Some(k) if count == 1 => Ok(k),
        _ => Err(crate::error::Error::new(
            400,
            "Use an exact, unambiguous application name or bundle ID from computer_list_apps",
        )),
    }
}

/// What decides which window of an application is observed.
#[derive(Clone, Copy, Debug, PartialEq, Eq, Structural)]
pub struct WindowView {
    pub on_current_space: bool,
    pub on_screen: bool,
    pub titled: bool,
    /// Its z-index (0 where the driver gave none); lower comes first.
    pub z_index: i64,
}

/// The order in which windows are preferred: on the current space, then on
/// screen, then titled, then the lowest z-index.
pub open spec fn window_before(a: WindowView, b: WindowView) -> bool {
    if a.on_current_space != b.on_current_space {
        !a.on_current_space
    } else if a.on_screen != b.on_screen {
        !a.on_screen
    } else if a.titled != b.titled {
        !a.titled
    } else {
        a.z_index > b.z_index
    }
}

fn window_before_exec(a: WindowView, b: WindowView) -> (r: bool)
    ensures
        r == window_before(a, b),
{
    if a.on_current_space != b.on_current_space {
        !a.on_current_space
    } else if a.on_screen != b.on_screen {
        !a.on_screen
    } else if a.titled != b.titled {
        !a.titled
    } else {
        a.z_index > b.z_index
    }
}

/// The preferred window: none is preferred to it, and it is the last of the
/// windows that rank first (as `max_by_key` picks).
pub fn pick_window(windows: &Vec<WindowView>) -> (r: Option<usize>)
    ensures
        windows.len() == 0 <==> r is None,
        r matches Some(i) ==> i < windows.len() && (forall|j: int|
            0 <= j < windows.len() ==> !window_before(windows@[i as int], #[trigger] windows@[j])) && (forall|j: int|
            i < j < windows.len() ==> window_before(#[trigger] windows@[j], windows@[i as int])),
{
    if windows.len() == 0 {
        return None;
    }
    let mut best: usize = 0;
    for i in 1..windows.len()
        invariant
            best < i <= windows.len(),
            forall|j: int| 0 <= j < i ==> !window_before(windows@[best as int], #[trigger] windows@[j]),
            forall|j: int| best < j < i ==> window_before(#[trigger] windows@[j], windows@[best as int]),
    {
        if !window_before_exec(windows[i], windows[best]) {
            best = i;
        }
    }
    Some(best)
}

/// What an action sends beside the observed window: which of its arguments
/// are passed on, whether it is delivered in the background, and whether the
/// observation's snapshot goes with it.
#[derive(Debug)]
pub struct ActionPlan {
    pub fields: Vec<String>,
    pub background: bool,
    pub snapshot: bool,
}

/// The action a tool names, after its `computer_` prefix (empty without it).
pub open spec fn action_of(name: Seq<char>) -> Seq<char> {
    if crate::template::begins(name, "computer_"@) {
        name.skip(9)
    } else {
        Seq::empty()
    }
}

/// The arguments each action passes on; `None` for an unknown action.
pub open spec fn action_fields(action: Seq<char>) -> Option<Seq<Seq<char>>> {
    if action == "click"@ {
        Some(seq!["x"@, "y"@, "button"@])
    } else if action == "set_value"@ {
        Some(seq!["value"@])
    } else if action == "type_text"@ {
        Some(seq!["text"@])
    } else if action == "press_key"@ {
        Some(seq!["key"@])
    } else if action == "scroll"@ {
        Some(seq!["direction"@, "amount"@])
    } else if action == "drag"@ {
        Some(seq!["from_x"@, "from_y"@, "to_x"@, "to_y"@])
    } else {
        None
    }
}

fn texts(items: &[&str]) -> (r: Vec<String>)
    ensures
        r@.map_values(|s: String| s@) == items@.map_values(|s: &str| s@),
{
    let mut r: Vec<String> = Vec::new();
    for i in 0..items.len()
        invariant
            r@.map_values(|s: String| s@) == items@.take(i as int).map_values(|s: &str| s@),
    {
        let ghost before = r@;
        let s = items[i].to_owned();
        r.push(s);
        proof {
            assert(s@ == items@[i as int]@);
            assert(r@ == before.push(s));
            assert(items@.take(i + 1) =~= items@.take(i as int).push(items@[i as int]));
            assert(r@.map_values(|s: String| s@) =~= before.map_values(|s: String| s@).push(s@));
            assert(items@.take(i + 1).map_values(|s: &str| s@) =~= items@.take(i as int).map_values(|s: &str| s@).push(
                items@[i as int]@,
            ));
        }
    }
    proof {
        assert(items@.take(items.len() as int) =~= items@);
    }
    r
}

/// Plans the action a computer tool names; an unknown action is refused.
/// Every action but `set_value` runs in the background, and every action but
/// `drag` carries the observation's snapshot.
pub fn action_plan(name: &str) -> (r: Result<ActionPlan, crate::error::Error>)
    ensures
        match action_fields(action_of(name@)) {
            None => r matches Err(e) && e.status == 400 && e.message@ == "Unknown computer action"@,
            Some(fields) => r matches Ok(p) && p.fields@.map_values(|s: String| s@) == fields && p.background == (
            action_of(name@) != "set_value"@) && p.snapshot == (action_of(name@) != "drag"@),
        },
{
    let c = chars_of(name);
    let mut action = String::new();
    if crate::template::begins_exec(&c, "computer_") {
        proof {
            reveal_strlit("computer_");
        }
        let mut i: usize = 9;
        while i < c.len()
            invariant
                9 <= i <= c.len(),
                c@ == name@,
                action@ == name@.subrange(9, i as int),
            decreases c.len() - i,
        {
            crate::text::push_char(&mut action, c[i]);
            proof {
                assert(name@.subrange(9, i + 1) == name@.subrange(9, i as int).push(name@[i as int]));
            }
            i = i + 1;
        }
        proof {
            assert(action@ =~= name@.skip(9));
        }
    }
    let a = action.as_str();
    let fields: Vec<String> = if str_eq(a, "click") {
        texts(&["x", "y", "button"])
    } else if str_eq(a, "set_value") {
        texts(&["value"])
    } else if str_eq(a, "type_text") {
        texts(&["text"])
    } else if str_eq(a, "press_key") {
        texts(&["key"])
    } else if str_eq(a, "scroll") {
        texts(&["direction", "amount"])
    } else if str_eq(a, "drag") {
        texts(&["from_x", "from_y", "to_x", "to_y"])
    } else {
        return Err(crate::error::Error::new(400, "Unknown computer action"));
    };
    Ok(ActionPlan { fields, background: !str_eq(a, "set_value"), snapshot: !str_eq(a, "drag") })
}

} // verus!
