//! Per-session follow-up queue. A dispatch claim is recorded before the run
//! starts, and a claim whose outcome is unknown is never replayed.
use vstd::prelude::*;
use crate::error::{Error, required};
use crate::text::{blank, is_blank, str_eq};

verus! {

/// Where a queued follow-up stands.
#[derive(Clone, Copy, Debug, PartialEq, Eq, Structural)]
pub enum ItemState {
    Pending,
    Editing,
    /// Claimed for dispatch; the run may or may not have started.
    Dispatching,
    /// A claim found after a restart: it may already have been sent.
    Uncertain,
}

/// One queued follow-up; `payload` is the request and the model it was
/// queued with.
#[derive(Debug)]
pub struct Item<P> {
    pub id: String,
    pub state: ItemState,
    pub payload: P,
}

pub struct ItemView<P> {
    pub id: Seq<char>,
    pub state: ItemState,
    pub payload: P,
}

impl<P> View for Item<P> {
    type V = ItemView<P>;

    open spec fn view(&self) -> ItemView<P> {
        ItemView { id: self.id@, state: self.state, payload: self.payload }
    }
}

/// The follow-up queue of one session.
#[derive(Debug)]
pub struct Outbox<P> {
    pub items: Vec<Item<P>>,
    /// Ids already accepted, oldest first, so that a retried add is not a
    /// new message.
    pub receipts: Vec<String>,
    pub paused: bool,
    pub reason: String,
    /// A promoted follow-up is waiting for the current run to stop.
    pub interrupt: bool,
    /// When the stop was requested, in Unix milliseconds.
    pub interrupt_at: i64,
}

#[verifier::ext_equal]
pub struct OutboxView<P> {
    pub items: Seq<ItemView<P>>,
    pub receipts: Seq<Seq<char>>,
    pub paused: bool,
    pub reason: Seq<char>,
    pub interrupt: bool,
    pub interrupt_at: i64,
}

pub open spec fn item_views<P>(s: Seq<Item<P>>) -> Seq<ItemView<P>> {
    s.map_values(|it: Item<P>| it@)
}

pub open spec fn string_views(s: Seq<String>) -> Seq<Seq<char>> {
    s.map_values(|x: String| x@)
}

impl<P> View for Outbox<P> {
    type V = OutboxView<P>;

    open spec fn view(&self) -> OutboxView<P> {
        OutboxView {
            items: item_views(self.items@),
            receipts: string_views(self.receipts@),
            paused: self.paused,
            reason: self.reason@,
            interrupt: self.interrupt,
            interrupt_at: self.interrupt_at,
        }
    }
}

/// An operation requested on a queue.
pub enum Action<P> {
    List,
    /// `checked` is the outcome of validating the queued request.
    Add { id: String, checked: Result<(), Error>, payload: P, immediate: bool },
    Promote { id: String },
    Delete { id: String },
    Edit { id: String },
    CancelEdit { id: String },
    /// `payload` is the request with its text replaced by `text`.
    Save { id: String, text: String, payload: P },
    Up { id: String },
    Down { id: String },
    Resume,
    Pause,
    Unknown,
}

/// At most this many follow-ups wait in one queue.
pub open spec fn max_items() -> int {
    100
}

/// At most this many receipts are kept.
pub open spec fn max_receipts() -> int {
    1024
}

pub open spec fn unique_ids<P>(s: Seq<ItemView<P>>) -> bool {
    forall|i: int, j: int|
        0 <= i < s.len() && 0 <= j < s.len() && i != j ==> #[trigger] s[i].id != #[trigger] s[j].id
}

/// The invariant of a queue: bounded, and no id queued twice.
pub open spec fn well_formed<P>(v: OutboxView<P>) -> bool {
    &&& v.items.len() <= max_items()
    &&& v.receipts.len() <= max_receipts()
    &&& unique_ids(v.items)
}

pub open spec fn first_match<P>(s: Seq<ItemView<P>>, id: Seq<char>, i: int) -> bool {
    &&& 0 <= i < s.len()
    &&& s[i].id == id
    &&& forall|j: int| 0 <= j < i ==> #[trigger] s[j].id != id
}

/// The position of the first item with this id, or -1.
pub open spec fn find<P>(s: Seq<ItemView<P>>, id: Seq<char>) -> int {
    if exists|i: int| first_match(s, id, i) {
        choose|i: int| first_match(s, id, i)
    } else {
        -1
    }
}

pub open spec fn swap<A>(s: Seq<A>, i: int, j: int) -> Seq<A> {
    s.update(i, s[j]).update(j, s[i])
}

pub open spec fn with_items<P>(v: OutboxView<P>, items: Seq<ItemView<P>>) -> OutboxView<P> {
    OutboxView { items, ..v }
}

pub open spec fn with_state<P>(v: OutboxView<P>, i: int, state: ItemState) -> OutboxView<P> {
    with_items(v, v.items.update(i, ItemView { state, ..v.items[i] }))
}

/// The receipts after accepting `id`: the oldest is dropped beyond the limit.
pub open spec fn receive(r: Seq<Seq<char>>, id: Seq<char>) -> Seq<Seq<char>> {
    let pushed = r.push(id);
    if pushed.len() > max_receipts() {
        pushed.subrange(1, pushed.len() as int)
    } else {
        pushed
    }
}

pub open spec fn stopping() -> Seq<char> {
    "正在停止，请稍候"@
}

/// Moves a pending item to the front and asks the current run to stop.
pub open spec fn spec_promote<P>(v: OutboxView<P>, id: Seq<char>, now: i64) -> Result<
    OutboxView<P>,
    (u16, Seq<char>),
> {
    let i = find(v.items, id);
    if v.interrupt {
        Err((409u16, stopping()))
    } else if i < 0 {
        Err((404u16, "待发送消息已开始"@))
    } else if v.items[i].state != ItemState::Pending {
        Err((409u16, "请先完成编辑或确认发送结果"@))
    } else {
        Ok(
            OutboxView {
                items: seq![v.items[i]] + v.items.remove(i),
                paused: false,
                reason: Seq::empty(),
                interrupt: true,
                interrupt_at: now,
                ..v
            },
        )
    }
}

pub open spec fn spec_add<P>(
    v: OutboxView<P>,
    id: Seq<char>,
    checked: Result<(), Error>,
    payload: P,
    immediate: bool,
    now: i64,
) -> Result<OutboxView<P>, (u16, Seq<char>)> {
    if blank(id) {
        Err((400u16, "id is required"@))
    } else if checked is Err {
        Err((checked->Err_0.status, checked->Err_0.message@))
    } else if v.items.len() >= max_items() {
        Err((400u16, "待发送消息最多 100 条"@))
    } else {
        let accepted = v.receipts.contains(id);
        let fresh = !accepted && find(v.items, id) < 0;
        let next = if fresh {
            OutboxView {
                items: v.items.push(ItemView { id, state: ItemState::Pending, payload }),
                receipts: receive(v.receipts, id),
                ..v
            }
        } else {
            v
        };
        if !accepted && immediate {
            spec_promote(next, id, now)
        } else {
            Ok(next)
        }
    }
}

/// Operations on one existing item, after its id was found at `i`.
pub open spec fn spec_item_op<P>(v: OutboxView<P>, a: Action<P>, i: int) -> Result<
    OutboxView<P>,
    (u16, Seq<char>),
> {
    match a {
        Action::Delete { .. } => Ok(with_items(v, v.items.remove(i))),
        Action::Edit { .. } => Ok(with_state(v, i, ItemState::Editing)),
        Action::CancelEdit { .. } => Ok(with_state(v, i, ItemState::Pending)),
        Action::Save { text, payload, .. } => if blank(text@) {
            Err((400u16, "text is required"@))
        } else {
            Ok(
                with_items(
                    v,
                    v.items.update(i, ItemView { state: ItemState::Pending, payload, ..v.items[i] }),
                ),
            )
        },
        Action::Up { .. } => if i > 0 {
            Ok(with_items(v, swap(v.items, i, i - 1)))
        } else {
            Ok(v)
        },
        Action::Down { .. } => if i + 1 < v.items.len() {
            Ok(with_items(v, swap(v.items, i, i + 1)))
        } else {
            Ok(v)
        },
        _ => Ok(v),
    }
}

pub open spec fn item_id<P>(a: Action<P>) -> Seq<char> {
    match a {
        Action::Add { id, .. } => id@,
        Action::Promote { id } => id@,
        Action::Delete { id } => id@,
        Action::Edit { id } => id@,
        Action::CancelEdit { id } => id@,
        Action::Save { id, .. } => id@,
        Action::Up { id } => id@,
        Action::Down { id } => id@,
        _ => Seq::empty(),
    }
}

pub open spec fn is_item_op<P>(a: Action<P>) -> bool {
    a is Delete || a is Edit || a is CancelEdit || a is Save || a is Up || a is Down
}

/// What an action does to a queue: the next queue, or the status and
/// message of the error, in which case the queue stays as it was.
pub open spec fn spec_step<P>(v: OutboxView<P>, a: Action<P>, now: i64) -> Result<
    OutboxView<P>,
    (u16, Seq<char>),
> {
    if v.interrupt && !(a is List || a is Pause) {
        Err((409u16, stopping()))
    } else if is_item_op(a) {
        let id = item_id(a);
        if blank(id) {
            Err((400u16, "id is required"@))
        } else if find(v.items, id) < 0 {
            Err((404u16, "待发送消息已开始或已删除"@))
        } else {
            spec_item_op(v, a, find(v.items, id))
        }
    } else {
        match a {
            Action::List => Ok(v),
            Action::Add { id, checked, payload, immediate } => spec_add(
                v,
                id@,
                checked,
                payload,
                immediate,
                now,
            ),
            Action::Promote { id } => if blank(id@) {
                Err((400u16, "id is required"@))
            } else {
                spec_promote(v, id@, now)
            },
            Action::Resume => Ok(OutboxView { paused: false, reason: Seq::empty(), ..v }),
            Action::Pause => Ok(
                OutboxView { paused: true, interrupt: false, reason: "已暂停"@, ..v },
            ),
            _ => Err((400u16, "Unknown outbox action"@)),
        }
    }
}

pub open spec fn first_in_state<P>(s: Seq<ItemView<P>>, state: ItemState, i: int) -> bool {
    &&& 0 <= i < s.len()
    &&& s[i].state == state
    &&& forall|j: int| 0 <= j < i ==> #[trigger] s[j].state != state
}

/// The position of the first item in this state, or -1.
pub open spec fn find_state<P>(s: Seq<ItemView<P>>, state: ItemState) -> int {
    if exists|i: int| first_in_state(s, state, i) {
        choose|i: int| first_in_state(s, state, i)
    } else {
        -1
    }
}

/// After a restart the queue waits for the user, and a claim left behind
/// becomes uncertain instead of being sent again.
pub open spec fn spec_recover<P>(v: OutboxView<P>) -> OutboxView<P> {
    let k = find_state(v.items, ItemState::Dispatching);
    let base = OutboxView {
        paused: true,
        interrupt: false,
        reason: "应用已重启，请确认待发送内容后继续"@,
        ..v
    };
    if k >= 0 {
        OutboxView {
            reason: "发送结果待确认，请检查历史并删除或编辑该条消息"@,
            ..with_state(base, k, ItemState::Uncertain)
        }
    } else {
        base
    }
}

/// When the session's run ends: a run that did not complete pauses the
/// queue, unless it was stopped to make way for a promoted follow-up.
pub open spec fn spec_finish<P>(v: OutboxView<P>, status: Seq<char>) -> OutboxView<P> {
    let stop = status != "completed"@ && !v.interrupt;
    OutboxView {
        paused: if stop {
            true
        } else {
            v.paused
        },
        reason: if !stop {
            v.reason
        } else if status == "cancelled"@ {
            "已停止，待发送消息已暂停"@
        } else {
            "回复失败，待发送消息已保留"@
        },
        interrupt: false,
        ..v
    }
}

/// A stop request older than 15 seconds gives up and pauses the queue.
pub open spec fn expired<P>(v: OutboxView<P>, now: i64) -> bool {
    v.interrupt && now - v.interrupt_at > 15000
}

pub open spec fn spec_expire<P>(v: OutboxView<P>, now: i64) -> OutboxView<P> {
    if expired(v, now) {
        OutboxView {
            paused: true,
            interrupt: false,
            reason: "停止超时，消息已保留，请等待当前任务结束后继续"@,
            ..v
        }
    } else {
        v
    }
}

/// Whether a tick claims the head of the queue: the chat is open, the queue
/// runs, no run is active, and the head is pending.
pub open spec fn claimable<P>(v: OutboxView<P>, chat_open: bool, running: bool) -> bool {
    chat_open && !v.paused && !running && v.items.len() > 0 && v.items[0].state
        == ItemState::Pending
}

pub open spec fn spec_claim<P>(v: OutboxView<P>, chat_open: bool, running: bool) -> OutboxView<P> {
    if claimable(v, chat_open, running) {
        with_state(v, 0, ItemState::Dispatching)
    } else {
        v
    }
}

/// The claimed head started: it leaves the queue.
pub open spec fn spec_started<P>(v: OutboxView<P>) -> OutboxView<P> {
    OutboxView { items: v.items.subrange(1, v.items.len() as int), interrupt: false, ..v }
}

/// The claimed head could not start: it stays, pending, and the queue pauses
/// with the error's message.
pub open spec fn spec_start_failed<P>(v: OutboxView<P>, message: Seq<char>) -> OutboxView<P> {
    OutboxView { paused: true, reason: message, ..with_state(v, 0, ItemState::Pending) }
}

proof fn lemma_find_first<P>(s: Seq<ItemView<P>>, id: Seq<char>, i: int)
    requires
        first_match(s, id, i),
    ensures
        find(s, id) == i,
{
    let k = choose|k: int| first_match(s, id, k);
    assert(first_match(s, id, k));
    if k < i {
        assert(s[k].id != id);
    } else if i < k {
        assert(s[i].id != id);
    }
}

proof fn lemma_find_none<P>(s: Seq<ItemView<P>>, id: Seq<char>)
    requires
        forall|j: int| 0 <= j < s.len() ==> #[trigger] s[j].id != id,
    ensures
        find(s, id) == -1,
{
    if exists|i: int| first_match(s, id, i) {
        let k = choose|k: int| first_match(s, id, k);
        assert(s[k].id == id);
    }
}

proof fn lemma_find_range<P>(s: Seq<ItemView<P>>, id: Seq<char>)
    ensures
        find(s, id) == -1 || first_match(s, id, find(s, id)),
{
}


proof fn lemma_find_state_first<P>(s: Seq<ItemView<P>>, state: ItemState, i: int)
    requires
        first_in_state(s, state, i),
    ensures
        find_state(s, state) == i,
{
    let k = choose|k: int| first_in_state(s, state, k);
    assert(first_in_state(s, state, k));
    if k < i {
        assert(s[k].state != state);
    } else if i < k {
        assert(s[i].state != state);
    }
}

proof fn lemma_find_state_none<P>(s: Seq<ItemView<P>>, state: ItemState)
    requires
        forall|j: int| 0 <= j < s.len() ==> #[trigger] s[j].state != state,
    ensures
        find_state(s, state) == -1,
{
    if exists|i: int| first_in_state(s, state, i) {
        let k = choose|k: int| first_in_state(s, state, k);
        assert(s[k].state != state);
    }
}

proof fn lemma_set_state_keeps_well_formed<P>(v: OutboxView<P>, i: int, state: ItemState)
    requires
        0 <= i < v.items.len(),
    ensures
        well_formed(v) ==> well_formed(with_state(v, i, state)),
{
    let w = with_state(v, i, state);
    if well_formed(v) {
        assert forall|a: int, b: int|
            0 <= a < w.items.len() && 0 <= b < w.items.len() && a != b implies #[trigger] w.items[a].id
            != #[trigger] w.items[b].id by {
            assert(w.items[a].id == v.items[a].id);
            assert(w.items[b].id == v.items[b].id);
        }
    }
}

proof fn lemma_recover_keeps_well_formed<P>(v: OutboxView<P>)
    ensures
        well_formed(v) ==> well_formed(spec_recover(v)),
{
    let k = find_state(v.items, ItemState::Dispatching);
    if k >= 0 {
        assert(first_in_state(v.items, ItemState::Dispatching, k));
        lemma_set_state_keeps_well_formed(
            OutboxView { paused: true, interrupt: false, reason: "应用已重启，请确认待发送内容后继续"@, ..v },
            k,
            ItemState::Uncertain,
        );
    }
}

proof fn lemma_find_complete<P>(s: Seq<ItemView<P>>, id: Seq<char>, j: int)
    requires
        0 <= j < s.len(),
        s[j].id == id,
    ensures
        find(s, id) >= 0,
    decreases j,
{
    if exists|k: int| 0 <= k < j && #[trigger] s[k].id == id {
        let k = choose|k: int| 0 <= k < j && #[trigger] s[k].id == id;
        lemma_find_complete(s, id, k);
    } else {
        assert(first_match(s, id, j));
    }
}

proof fn lemma_promote_keeps_well_formed<P>(v: OutboxView<P>, id: Seq<char>, now: i64)
    requires
        well_formed(v),
    ensures
        spec_promote(v, id, now) matches Ok(w) ==> well_formed(w),
{
    let i = find(v.items, id);
    if let Ok(w) = spec_promote(v, id, now) {
        lemma_find_range(v.items, id);
        let s = v.items;
        let t = w.items;
        assert(t =~= seq![s[i]] + s.remove(i));
        assert forall|a: int, b: int|
            0 <= a < t.len() && 0 <= b < t.len() && a != b implies #[trigger] t[a].id != #[trigger] t[b].id by {
            let oa = if a == 0 { i } else if a - 1 < i { a - 1 } else { a };
            let ob = if b == 0 { i } else if b - 1 < i { b - 1 } else { b };
            assert(t[a] == s[oa]);
            assert(t[b] == s[ob]);
        }
    }
}

proof fn lemma_item_op_keeps_well_formed<P>(v: OutboxView<P>, a: Action<P>, i: int)
    requires
        well_formed(v),
        0 <= i < v.items.len(),
    ensures
        spec_item_op(v, a, i) matches Ok(w) ==> well_formed(w),
{
    let s = v.items;
    if let Ok(w) = spec_item_op(v, a, i) {
        let t = w.items;
        match a {
            Action::Delete { .. } => {
                assert forall|x: int, y: int|
                    0 <= x < t.len() && 0 <= y < t.len() && x != y implies #[trigger] t[x].id
                    != #[trigger] t[y].id by {
                    let ox = if x < i { x } else { x + 1 };
                    let oy = if y < i { y } else { y + 1 };
                    assert(t[x] == s[ox]);
                    assert(t[y] == s[oy]);
                }
            },
            Action::Edit { .. } => {
                lemma_set_state_keeps_well_formed(v, i, ItemState::Editing);
            },
            Action::CancelEdit { .. } => {
                lemma_set_state_keeps_well_formed(v, i, ItemState::Pending);
            },
            Action::Save { .. } => {
                assert forall|x: int, y: int|
                    0 <= x < t.len() && 0 <= y < t.len() && x != y implies #[trigger] t[x].id
                    != #[trigger] t[y].id by {
                    assert(t[x].id == s[x].id);
                    assert(t[y].id == s[y].id);
                }
            },
            Action::Up { .. } | Action::Down { .. } => {
                let j = if a is Up { i - 1 } else { i + 1 };
                if t != s {
                    assert forall|x: int, y: int|
                        0 <= x < t.len() && 0 <= y < t.len() && x != y implies #[trigger] t[x].id
                        != #[trigger] t[y].id by {
                        let ox = if x == i { j } else if x == j { i } else { x };
                        let oy = if y == i { j } else if y == j { i } else { y };
                        assert(t[x] == s[ox]);
                        assert(t[y] == s[oy]);
                    }
                }
            },
            _ => {},
        }
    }
}

proof fn lemma_add_keeps_well_formed<P>(
    v: OutboxView<P>,
    id: Seq<char>,
    checked: Result<(), Error>,
    payload: P,
    immediate: bool,
    now: i64,
)
    requires
        well_formed(v),
    ensures
        spec_add(v, id, checked, payload, immediate, now) matches Ok(w) ==> well_formed(w),
{
    if !blank(id) && checked is Ok && v.items.len() < max_items() {
        let accepted = v.receipts.contains(id);
        let fresh = !accepted && find(v.items, id) < 0;
        let s = v.items;
        let next = if fresh {
            OutboxView {
                items: v.items.push(ItemView { id, state: ItemState::Pending, payload }),
                receipts: receive(v.receipts, id),
                ..v
            }
        } else {
            v
        };
        if fresh {
            assert forall|j: int| 0 <= j < s.len() implies #[trigger] s[j].id != id by {
                if s[j].id == id {
                    lemma_find_complete(s, id, j);
                }
            }
            let t = next.items;
            assert forall|x: int, y: int|
                0 <= x < t.len() && 0 <= y < t.len() && x != y implies #[trigger] t[x].id
                != #[trigger] t[y].id by {
                if x < s.len() {
                    assert(t[x] == s[x]);
                }
                if y < s.len() {
                    assert(t[y] == s[y]);
                }
            }
            assert(well_formed(next));
        }
        if !accepted && immediate {
            lemma_promote_keeps_well_formed(next, id, now);
        }
    }
}

/// Every action keeps a queue bounded and free of duplicate ids.
pub proof fn lemma_step_keeps_well_formed<P>(v: OutboxView<P>, a: Action<P>, now: i64)
    requires
        well_formed(v),
    ensures
        spec_step(v, a, now) matches Ok(w) ==> well_formed(w),
{
    if !(v.interrupt && !(a is List || a is Pause)) {
        if is_item_op(a) {
            let id = item_id(a);
            if !blank(id) && find(v.items, id) >= 0 {
                lemma_find_range(v.items, id);
                lemma_item_op_keeps_well_formed(v, a, find(v.items, id));
            }
        } else {
            match a {
                Action::Add { id, checked, payload, immediate } => {
                    lemma_add_keeps_well_formed(v, id@, checked, payload, immediate, now);
                },
                Action::Promote { id } => {
                    lemma_promote_keeps_well_formed(v, id@, now);
                },
                _ => {},
            }
        }
    }
}

/// An add whose id was already accepted never queues anything: it fails or
/// leaves the queue as it was.
pub proof fn law_accepted_add_changes_nothing<P>(
    v: OutboxView<P>,
    id: String,
    checked: Result<(), Error>,
    payload: P,
    immediate: bool,
    now: i64,
)
    requires
        v.receipts.contains(id@),
    ensures
        spec_step(v, Action::Add { id, checked, payload, immediate }, now) matches Ok(w) ==> w == v,
{
}

/// Only an add records receipts; no other action forgets one.
pub proof fn law_only_add_changes_receipts<P>(v: OutboxView<P>, a: Action<P>, now: i64)
    requires
        !(a is Add),
    ensures
        spec_step(v, a, now) matches Ok(w) ==> w.receipts == v.receipts,
{
}

/// Retrying an add after its item was deleted is not a new message.
pub proof fn law_retry_after_delete_is_not_new<P>(
    v: OutboxView<P>,
    id: String,
    deleted: String,
    retried: String,
    first: P,
    second: P,
    immediate: bool,
    now: i64,
)
    requires
        deleted@ == id@,
        retried@ == id@,
        !v.receipts.contains(id@),
        find(v.items, id@) < 0,
        spec_step(v, Action::Add { id, checked: Ok(()), payload: first, immediate: false }, now) is Ok,
        spec_step(
            spec_step(v, Action::Add { id, checked: Ok(()), payload: first, immediate: false }, now)->Ok_0,
            Action::Delete { id: deleted },
            now,
        ) is Ok,
    ensures
        ({
            let added = spec_step(
                v,
                Action::Add { id, checked: Ok(()), payload: first, immediate: false },
                now,
            )->Ok_0;
            let removed = spec_step(added, Action::Delete { id: deleted }, now)->Ok_0;
            spec_step(
                removed,
                Action::Add { id: retried, checked: Ok(()), payload: second, immediate },
                now,
            ) matches Ok(w) ==> w == removed
        }),
{
    let added = spec_step(v, Action::Add { id, checked: Ok(()), payload: first, immediate: false }, now)->Ok_0;
    let removed = spec_step(added, Action::Delete { id: deleted }, now)->Ok_0;
    assert(added.receipts.contains(id@)) by {
        assert(added.receipts[added.receipts.len() - 1] == id@);
    }
    law_only_add_changes_receipts(added, Action::Delete { id: deleted }, now);
    if added.receipts.contains(id@) {
        law_accepted_add_changes_nothing(removed, retried, Ok(()), second, immediate, now);
    }
}

/// Promoting moves the item to the front and keeps every other item in its
/// order.
pub proof fn law_promote_keeps_others_in_order<P>(v: OutboxView<P>, id: String, now: i64)
    requires
        spec_step(v, Action::Promote { id }, now) is Ok,
    ensures
        ({
            let w = spec_step(v, Action::Promote { id }, now)->Ok_0;
            let i = find(v.items, id@);
            &&& 0 <= i < v.items.len()
            &&& w.items.len() == v.items.len()
            &&& w.items[0] == v.items[i]
            &&& w.items.subrange(1, w.items.len() as int) == v.items.remove(i)
            &&& w.interrupt
        }),
{
    let w = spec_step(v, Action::Promote { id }, now)->Ok_0;
    let i = find(v.items, id@);
    lemma_find_range(v.items, id@);
    assert(w.items.subrange(1, w.items.len() as int) =~= v.items.remove(i));
}

/// Only a pending head is ever claimed, so an item being edited or whose
/// earlier claim is uncertain is never sent by a tick.
pub proof fn law_only_pending_head_is_claimed<P>(v: OutboxView<P>, chat_open: bool, running: bool)
    ensures
        claimable(v, chat_open, running) ==> v.items[0].state == ItemState::Pending,
        spec_claim(v, chat_open, running).items.len() == v.items.len(),
        forall|j: int|
            0 < j < v.items.len() ==> #[trigger] spec_claim(v, chat_open, running).items[j] == v.items[j],
{
}

/// After a restart nothing is dispatched until the user resumes the queue.
pub proof fn law_recovered_queue_waits<P>(v: OutboxView<P>, chat_open: bool, running: bool)
    ensures
        spec_recover(v).paused,
        !claimable(spec_recover(v), chat_open, running),
{
}

/// A run stopped to make way for a promoted follow-up does not pause the
/// queue; any other run that does not complete does.
pub proof fn law_finish_pauses_unless_promoted<P>(v: OutboxView<P>, status: Seq<char>)
    ensures
        v.interrupt ==> spec_finish(v, status).paused == v.paused,
        !v.interrupt && status != "completed"@ ==> spec_finish(v, status).paused,
        !spec_finish(v, status).interrupt,
        spec_finish(v, status).items == v.items,
{
}

fn find_item<P>(items: &Vec<Item<P>>, id: &str) -> (r: Option<usize>)
    ensures
        match r {
            Some(i) => find(item_views(items@), id@) == i as int && i < items.len(),
            None => find(item_views(items@), id@) == -1 && forall|j: int|
                0 <= j < items.len() ==> #[trigger] items@[j].id@ != id@,
        },
{
    let ghost s = item_views(items@);
    for i in 0..items.len()
        invariant
            s == item_views(items@),
            forall|j: int| 0 <= j < i ==> #[trigger] s[j].id != id@,
    {
        if str_eq(items[i].id.as_str(), id) {
            proof {
                assert(first_match(s, id@, i as int));
                lemma_find_first(s, id@, i as int);
            }
            return Some(i);
        }
    }
    proof {
        lemma_find_none(s, id@);
        assert forall|j: int| 0 <= j < items.len() implies #[trigger] items@[j].id@ != id@ by {
            assert(s[j] == items@[j]@);
            assert(s[j].id != id@);
        }
    }
    None
}

fn has_receipt(receipts: &Vec<String>, id: &str) -> (r: bool)
    ensures
        r == string_views(receipts@).contains(id@),
{
    let ghost s = string_views(receipts@);
    for i in 0..receipts.len()
        invariant
            s == string_views(receipts@),
            forall|j: int| 0 <= j < i ==> #[trigger] s[j] != id@,
    {
        if str_eq(receipts[i].as_str(), id) {
            proof {
                assert(s[i as int] == id@);
            }
            return true;
        }
    }
    false
}

impl<P> Outbox<P> {
    pub open spec fn wf(&self) -> bool {
        well_formed(self@)
    }

    /// An empty, running queue.
    pub fn new() -> (q: Outbox<P>)
        ensures
            q@.items.len() == 0,
            q@.receipts.len() == 0,
            !q@.paused,
            q@.reason.len() == 0,
            !q@.interrupt,
            q@.interrupt_at == 0,
            q.wf(),
    {
        Outbox {
            items: Vec::new(),
            receipts: Vec::new(),
            paused: false,
            reason: String::new(),
            interrupt: false,
            interrupt_at: 0,
        }
    }

    fn set_state(&mut self, i: usize, state: ItemState)
        requires
            i < old(self).items.len(),
        ensures
            final(self)@ == with_state(old(self)@, i as int, state),
    {
        let mut it = self.items.remove(i);
        it.state = state;
        self.items.insert(i, it);
        proof {
            assert(item_views(self.items@) =~= with_state(old(self)@, i as int, state).items);
        }
    }

    fn promote(&mut self, id: &str, now: i64) -> (r: Result<(), Error>)
        ensures
            match spec_promote(old(self)@, id@, now) {
                Ok(v) => r is Ok && final(self)@ == v,
                Err((status, message)) => r matches Err(e) && e.status == status
                    && e.message@ == message && final(self)@ == old(self)@,
            },
    {
        if self.interrupt {
            return Err(Error::new(409, "正在停止，请稍候"));
        }
        let i = match find_item(&self.items, id) {
            Some(i) => i,
            None => {
                return Err(Error::new(404, "待发送消息已开始"));
            },
        };
        if self.items[i].state != ItemState::Pending {
            return Err(Error::new(409, "请先完成编辑或确认发送结果"));
        }
        let ghost before = item_views(self.items@);
        let it = self.items.remove(i);
        self.items.insert(0, it);
        self.paused = false;
        self.reason = String::new();
        self.interrupt = true;
        self.interrupt_at = now;
        proof {
            assert(item_views(self.items@) =~= seq![before[i as int]] + before.remove(i as int));
        }
        Ok(())
    }

    fn add(&mut self, id: String, checked: Result<(), Error>, payload: P, immediate: bool, now: i64) -> (r: Result<(), Error>)
        ensures
            match spec_add(old(self)@, id@, checked, payload, immediate, now) {
                Ok(v) => r is Ok && final(self)@ == v,
                Err((status, message)) => r matches Err(e) && e.status == status
                    && e.message@ == message && final(self)@ == old(self)@,
            },
    {
        if is_blank(id.as_str()) {
            return Err(Error::new(400, "id is required"));
        }
        if let Err(e) = checked {
            return Err(e);
        }
        if self.items.len() >= 100 {
            return Err(Error::new(400, "待发送消息最多 100 条"));
        }
        let accepted = has_receipt(&self.receipts, id.as_str());
        let found = find_item(&self.items, id.as_str());
        let present = found.is_some();
        if !accepted && !present {
            if immediate && self.interrupt {
                return Err(Error::new(409, "正在停止，请稍候"));
            }
            let ghost before = self@;
            let ghost sid = id@;
            self.receipts.push(id.clone());
            if self.receipts.len() > 1024 {
                self.receipts.remove(0);
            }
            let promote_id = id.clone();
            self.items.push(Item { id, state: ItemState::Pending, payload });
            proof {
                assert(string_views(self.receipts@) =~= receive(before.receipts, sid));
                assert(item_views(self.items@) =~= before.items.push(
                    ItemView { id: sid, state: ItemState::Pending, payload },
                ));
                let n = before.items.len() as int;
                assert(forall|j: int| 0 <= j < n ==> #[trigger] before.items[j].id != sid);
                assert(first_match(self@.items, sid, n));
                lemma_find_first(self@.items, sid, n);
            }
            if immediate {
                return self.promote(promote_id.as_str(), now);
            }
            return Ok(());
        }
        if !accepted && immediate {
            return self.promote(id.as_str(), now);
        }
        Ok(())
    }

    fn item_op(&mut self, action: Action<P>, i: usize) -> (r: Result<(), Error>)
        requires
            i < old(self).items.len(),
            is_item_op(action),
        ensures
            match spec_item_op(old(self)@, action, i as int) {
                Ok(v) => r is Ok && final(self)@ == v,
                Err((status, message)) => r matches Err(e) && e.status == status
                    && e.message@ == message && final(self)@ == old(self)@,
            },
    {
        let ghost before = item_views(self.items@);
        match action {
            Action::Delete { .. } => {
                self.items.remove(i);
                proof {
                    assert(item_views(self.items@) =~= before.remove(i as int));
                }
            },
            Action::Edit { .. } => {
                self.set_state(i, ItemState::Editing);
            },
            Action::CancelEdit { .. } => {
                self.set_state(i, ItemState::Pending);
            },
            Action::Save { text, payload, .. } => {
                if is_blank(text.as_str()) {
                    return Err(Error::new(400, "text is required"));
                }
                let ghost p = payload;
                let mut it = self.items.remove(i);
                it.state = ItemState::Pending;
                it.payload = payload;
                self.items.insert(i, it);
                proof {
                    assert(item_views(self.items@) =~= before.update(
                        i as int,
                        ItemView { state: ItemState::Pending, payload: p, ..before[i as int] },
                    ));
                }
            },
            Action::Up { .. } => {
                if i > 0 {
                    let it = self.items.remove(i);
                    self.items.insert(i - 1, it);
                    proof {
                        assert(item_views(self.items@) =~= swap(before, i as int, i - 1));
                    }
                }
            },
            Action::Down { .. } => {
                if i + 1 < self.items.len() {
                    let it = self.items.remove(i);
                    self.items.insert(i + 1, it);
                    proof {
                        assert(item_views(self.items@) =~= swap(before, i as int, i + 1));
                    }
                }
            },
            _ => {},
        }
        Ok(())
    }

    /// Applies one requested action. On an error the queue is unchanged;
    /// the queue's invariant is kept either way.
    pub fn apply(&mut self, action: Action<P>, now: i64) -> (r: Result<(), Error>)
        ensures
            match spec_step(old(self)@, action, now) {
                Ok(v) => r is Ok && final(self)@ == v,
                Err((status, message)) => r matches Err(e) && e.status == status
                    && e.message@ == message && final(self)@ == old(self)@,
            },
            old(self).wf() ==> final(self).wf(),
    {
        let ghost a = action;
        let ghost before = self@;
        let passive = match &action {
            Action::List | Action::Pause => true,
            _ => false,
        };
        if self.interrupt && !passive {
            return Err(Error::new(409, "正在停止，请稍候"));
        }
        let target = match &action {
            Action::Delete { id } | Action::Edit { id } | Action::CancelEdit { id } | Action::Up { id }
            | Action::Down { id } | Action::Save { id, .. } => Some(id.clone()),
            _ => None,
        };
        let r = match target {
            Some(id) => {
                if is_blank(id.as_str()) {
                    return Err(Error::new(400, "id is required"));
                }
                match find_item(&self.items, id.as_str()) {
                    None => {
                        return Err(Error::new(404, "待发送消息已开始或已删除"));
                    },
                    Some(i) => self.item_op(action, i),
                }
            },
            None => match action {
                Action::List => Ok(()),
                Action::Add { id, checked, payload, immediate } => self.add(
                    id,
                    checked,
                    payload,
                    immediate,
                    now,
                ),
                Action::Promote { id } => {
                    if is_blank(id.as_str()) {
                        return Err(Error::new(400, "id is required"));
                    }
                    self.promote(id.as_str(), now)
                },
                Action::Resume => {
                    self.paused = false;
                    self.reason = String::new();
                    Ok(())
                },
                Action::Pause => {
                    self.paused = true;
                    self.interrupt = false;
                    self.reason = "已暂停".to_owned();
                    Ok(())
                },
                _ => Err(Error::new(400, "Unknown outbox action")),
            },
        };
        proof {
            if well_formed(before) {
                lemma_step_keeps_well_formed(before, a, now);
            }
        }
        r
    }

    /// Marks the first claimed item uncertain and pauses the queue; run
    /// once for every queue when the runtime starts.
    pub fn recover(&mut self)
        ensures
            final(self)@ == spec_recover(old(self)@),
            old(self).wf() ==> final(self).wf(),
    {
        let ghost before = self@;
        self.paused = true;
        self.interrupt = false;
        self.reason = "应用已重启，请确认待发送内容后继续".to_owned();
        let mut k: usize = 0;
        while k < self.items.len()
            invariant
                0 <= k <= self.items.len(),
                before == old(self)@,
                self@ == (OutboxView {
                    paused: true,
                    interrupt: false,
                    reason: "应用已重启，请确认待发送内容后继续"@,
                    ..before
                }),
                forall|j: int| 0 <= j < k ==> #[trigger] before.items[j].state != ItemState::Dispatching,
            decreases self.items.len() - k,
        {
            if self.items[k].state == ItemState::Dispatching {
                proof {
                    assert(first_in_state(before.items, ItemState::Dispatching, k as int));
                    lemma_find_state_first(before.items, ItemState::Dispatching, k as int);
                }
                self.set_state(k, ItemState::Uncertain);
                self.reason = "发送结果待确认，请检查历史并删除或编辑该条消息".to_owned();
                proof {
                    assert(self@ =~= spec_recover(before));
                    lemma_recover_keeps_well_formed(before);
                }
                return;
            }
            k = k + 1;
        }
        proof {
            lemma_find_state_none(before.items, ItemState::Dispatching);
            assert(self@ =~= spec_recover(before));
            lemma_recover_keeps_well_formed(before);
        }
    }

    /// Records the end of the session's run with its final status.
    pub fn finish(&mut self, status: &str)
        ensures
            final(self)@ == spec_finish(old(self)@, status@),
            old(self).wf() ==> final(self).wf(),
    {
        proof {
            reveal_strlit("completed");
            reveal_strlit("cancelled");
        }
        if !str_eq(status, "completed") && !self.interrupt {
            self.paused = true;
            self.reason = if str_eq(status, "cancelled") {
                "已停止，待发送消息已暂停".to_owned()
            } else {
                "回复失败，待发送消息已保留".to_owned()
            };
        }
        self.interrupt = false;
    }

    /// Gives up on a stop request older than 15 seconds; returns whether
    /// the queue changed.
    pub fn expire(&mut self, now: i64) -> (changed: bool)
        ensures
            final(self)@ == spec_expire(old(self)@, now),
            changed == expired(old(self)@, now),
            old(self).wf() ==> final(self).wf(),
    {
        if self.interrupt && (now as i128) - (self.interrupt_at as i128) > 15000 {
            self.paused = true;
            self.interrupt = false;
            self.reason = "停止超时，消息已保留，请等待当前任务结束后继续".to_owned();
            return true;
        }
        false
    }

    /// Claims the head of the queue for dispatch when it may go; the claim
    /// is to be saved before the run starts.
    pub fn claim(&mut self, chat_open: bool, running: bool) -> (claimed: bool)
        ensures
            final(self)@ == spec_claim(old(self)@, chat_open, running),
            claimed == claimable(old(self)@, chat_open, running),
            old(self).wf() ==> final(self).wf(),
    {
        if chat_open && !self.paused && !running && self.items.len() > 0
            && self.items[0].state == ItemState::Pending {
            self.set_state(0, ItemState::Dispatching);
            proof {
                lemma_set_state_keeps_well_formed(old(self)@, 0, ItemState::Dispatching);
            }
            return true;
        }
        false
    }

    /// The claimed head started its run.
    pub fn started(&mut self)
        requires
            old(self).items.len() > 0,
        ensures
            final(self)@ == spec_started(old(self)@),
            old(self).wf() ==> final(self).wf(),
    {
        let ghost before = item_views(self.items@);
        self.items.remove(0);
        self.interrupt = false;
        proof {
            assert(item_views(self.items@) =~= before.subrange(1, before.len() as int));
        }
    }

    /// The claimed head could not start; `message` is the reason shown.
    pub fn start_failed(&mut self, message: &str)
        requires
            old(self).items.len() > 0,
        ensures
            final(self)@ == spec_start_failed(old(self)@, message@),
            old(self).wf() ==> final(self).wf(),
    {
        self.set_state(0, ItemState::Pending);
        self.paused = true;
        self.reason = message.to_owned();
        proof {
            lemma_set_state_keeps_well_formed(old(self)@, 0, ItemState::Pending);
        }
    }

}

/// A content block of a queued message: its `type` and `text` fields (empty
/// where absent) and the block itself as the caller holds it.
#[derive(Debug)]
pub struct Block<D> {
    pub kind: String,
    pub text: String,
    pub data: D,
}

/// A block that makes a message worth sending: anything but blank text.
pub open spec fn substantive<D>(b: Block<D>) -> bool {
    b.kind@ != "text"@ || !blank(b.text@)
}

pub open spec fn opt_view(o: Option<&str>) -> Option<Seq<char>> {
    match o {
        Some(s) => Some(s@),
        None => None,
    }
}

/// Why a request cannot be queued for `session`, if it cannot: it must name
/// the session and hold exactly one user message with some content.
pub open spec fn queued_problem<D>(
    session: Seq<char>,
    request_session: Option<Seq<char>>,
    inputs: Option<usize>,
    role: Option<Seq<char>>,
    blocks: Option<Seq<Block<D>>>,
) -> Option<(u16, Seq<char>)> {
    if request_session != Some(session) || inputs != Some(1usize) || role != Some("user"@) {
        Some((400u16, "Invalid queued request"@))
    } else if blocks is None {
        Some((400u16, "Invalid message"@))
    } else if !(exists|i: int| 0 <= i < blocks->0.len() && substantive(#[trigger] blocks->0[i])) {
        Some((400u16, "Message is empty"@))
    } else {
        None
    }
}

/// Validates a request before it is queued. `request_session` and `role`
/// are `None` where the field is not a string, `inputs` where the input is
/// not a list, `blocks` where the message's content is not a list.
pub fn check_queued<D>(
    session: &str,
    request_session: Option<&str>,
    inputs: Option<usize>,
    role: Option<&str>,
    blocks: Option<&Vec<Block<D>>>,
) -> (r: Result<(), Error>)
    ensures
        match queued_problem(
            session@,
            opt_view(request_session),
            inputs,
            opt_view(role),
            match blocks {
                Some(b) => Some(b@),
                None => None,
            },
        ) {
            Some((status, message)) => r matches Err(e) && e.status == status && e.message@ == message,
            None => r is Ok,
        },
{
    let same = match request_session {
        Some(s) => str_eq(s, session),
        None => false,
    };
    let user = match role {
        Some(r) => str_eq(r, "user"),
        None => false,
    };
    let single = match inputs {
        Some(n) => n == 1,
        None => false,
    };
    if !same || !single || !user {
        return Err(Error::new(400, "Invalid queued request"));
    }
    let blocks = match blocks {
        Some(b) => b,
        None => {
            return Err(Error::new(400, "Invalid message"));
        },
    };
    if has_substance(blocks) {
        let ghost bs: Option<Seq<Block<D>>> = Some(blocks@);
        assert(bs->0 == blocks@);
        let ghost w = choose|i: int| 0 <= i < blocks@.len() && substantive(#[trigger] blocks@[i]);
        assert(substantive(bs->0[w]));
        return Ok(());
    }
    Err(Error::new(400, "Message is empty"))
}

fn has_substance<D>(blocks: &Vec<Block<D>>) -> (r: bool)
    ensures
        r == exists|i: int| 0 <= i < blocks@.len() && substantive(#[trigger] blocks@[i]),
{
    for i in 0..blocks.len()
        invariant
            forall|j: int| 0 <= j < i ==> !substantive(#[trigger] blocks@[j]),
    {
        if !str_eq(blocks[i].kind.as_str(), "text") || !is_blank(blocks[i].text.as_str()) {
            proof {
                assert(substantive(blocks@[i as int]));
            }
            return true;
        }
    }
    false
}

pub open spec fn is_text_block<D>(b: Block<D>) -> bool {
    b.kind@ == "text"@
}

/// The blocks that are not text, in their order.
pub open spec fn non_text<D>(s: Seq<Block<D>>) -> Seq<Block<D>> {
    s.filter(|b: Block<D>| !is_text_block(b))
}

proof fn lemma_non_text_step<D>(s: Seq<Block<D>>)
    requires
        s.len() > 0,
    ensures
        non_text(s) == if is_text_block(s.last()) {
            non_text(s.drop_last())
        } else {
            non_text(s.drop_last()).push(s.last())
        },
{
    reveal(Seq::filter);
}

/// The content of an edited message: the new text first, then every
/// non-text block in the order it had.
pub fn replace_text<D>(blocks: Vec<Block<D>>, text: &str, fresh: D) -> (r: Vec<Block<D>>)
    ensures
        r@.len() >= 1,
        r@[0].kind@ == "text"@,
        r@[0].text@ == text@,
        r@[0].data == fresh,
        r@.subrange(1, r@.len() as int) == non_text(blocks@),
{
    let ghost all = blocks@;
    let mut rest = blocks;
    let mut kept: Vec<Block<D>> = Vec::new();
    kept.push(Block { kind: "text".to_owned(), text: text.to_owned(), data: fresh });
    let ghost mut i: int = 0;
    while rest.len() > 0
        invariant
            0 <= i <= all.len(),
            rest@ == all.subrange(i, all.len() as int),
            kept@.len() >= 1,
            kept@[0].kind@ == "text"@,
            kept@[0].text@ == text@,
            kept@[0].data == fresh,
            kept@.subrange(1, kept@.len() as int) == non_text(all.take(i)),
        decreases rest.len(),
    {
        let b = rest.remove(0);
        proof {
            assert(all.take(i + 1).drop_last() =~= all.take(i));
            assert(all.take(i + 1).last() == b);
            lemma_non_text_step(all.take(i + 1));
        }
        let keep = !str_eq(b.kind.as_str(), "text");
        let ghost before = kept@;
        if keep {
            kept.push(b);
            proof {
                assert(kept@.subrange(1, kept@.len() as int) =~= before.subrange(
                    1,
                    before.len() as int,
                ).push(b));
            }
        }
        proof {
            i = i + 1;
            assert(rest@ =~= all.subrange(i, all.len() as int));
        }
    }
    proof {
        assert(all.take(i) =~= all);
    }
    kept
}

/// Cancelling the edit of a queued follow-up puts that item back to
/// pending, so that it can be sent again, and changes nothing else: the
/// other items, their order and the queue's flags stay as they were. It
/// succeeds whenever the queue is not stopping and the id is queued.
pub proof fn law_cancel_edit_makes_the_item_pending<P>(v: OutboxView<P>, id: String, now: i64)
    ensures
        !v.interrupt && !blank(id@) && (exists|k: int| 0 <= k < v.items.len() && #[trigger] v.items[k].id == id@)
            ==> spec_step(v, Action::<P>::CancelEdit { id }, now) is Ok,
        spec_step(v, Action::<P>::CancelEdit { id }, now) matches Ok(w) ==> exists|k: int|
            0 <= k < v.items.len() && #[trigger] v.items[k].id == id@ && (forall|j: int|
                0 <= j < k ==> v.items[j].id != id@) && w.items.len() == v.items.len()
                && w.items[k].state == ItemState::Pending && w.items[k].id == v.items[k].id
                && w.items[k].payload == v.items[k].payload && (forall|j: int|
                0 <= j < v.items.len() && j != k ==> w.items[j] == v.items[j]) && w.receipts == v.receipts
                && w.paused == v.paused && w.reason == v.reason && w.interrupt == v.interrupt
                && w.interrupt_at == v.interrupt_at,
{
    let a = Action::<P>::CancelEdit { id };
    if exists|k: int| 0 <= k < v.items.len() && #[trigger] v.items[k].id == id@ {
        let k0 = choose|k: int| 0 <= k < v.items.len() && #[trigger] v.items[k].id == id@;
        lemma_first_match_exists(v.items, id@, k0);
    }
    if spec_step(v, a, now) is Ok {
        let k = find(v.items, id@);
        assert(first_match(v.items, id@, k));
    }
}

proof fn lemma_first_match_exists<P>(s: Seq<ItemView<P>>, id: Seq<char>, k: int)
    requires
        0 <= k < s.len(),
        s[k].id == id,
    ensures
        0 <= find(s, id) <= k,
        first_match(s, id, find(s, id)),
    decreases k,
{
    if exists|j: int| 0 <= j < k && s[j].id == id {
        let j = choose|j: int| 0 <= j < k && s[j].id == id;
        lemma_first_match_exists(s, id, j);
    } else {
        assert(first_match(s, id, k));
    }
}

/// Editing a queued follow-up marks that item as being edited, so that it
/// is not sent meanwhile, and changes nothing else.
pub proof fn law_edit_holds_the_item_back<P>(v: OutboxView<P>, id: String, now: i64)
    ensures
        spec_step(v, Action::<P>::Edit { id }, now) matches Ok(w) ==> exists|k: int|
            0 <= k < v.items.len() && #[trigger] v.items[k].id == id@ && w.items.len() == v.items.len()
                && w.items[k].state == ItemState::Editing && w.items[k].id == v.items[k].id
                && w.items[k].payload == v.items[k].payload && (forall|j: int|
                0 <= j < v.items.len() && j != k ==> w.items[j] == v.items[j]) && w.receipts == v.receipts
                && w.paused == v.paused && w.reason == v.reason && w.interrupt == v.interrupt
                && w.interrupt_at == v.interrupt_at,
{
    if spec_step(v, Action::<P>::Edit { id }, now) is Ok {
        let k = find(v.items, id@);
        assert(first_match(v.items, id@, k));
    }
}

/// Deleting a queued follow-up removes exactly that item and keeps the
/// others in their order.
pub proof fn law_delete_removes_only_that_item<P>(v: OutboxView<P>, id: String, now: i64)
    ensures
        spec_step(v, Action::<P>::Delete { id }, now) matches Ok(w) ==> exists|k: int|
            0 <= k < v.items.len() && #[trigger] v.items[k].id == id@ && w.items.len() + 1 == v.items.len()
                && (forall|j: int| 0 <= j < k ==> w.items[j] == v.items[j]) && (forall|j: int|
                k < j < v.items.len() ==> w.items[j - 1] == v.items[j]) && w.receipts == v.receipts
                && w.paused == v.paused && w.interrupt == v.interrupt,
{
    if spec_step(v, Action::<P>::Delete { id }, now) is Ok {
        let k = find(v.items, id@);
        assert(first_match(v.items, id@, k));
    }
}

/// Saving an edited follow-up replaces its request, makes it pending again
/// and changes nothing else; blank text is refused with 400.
pub proof fn law_save_replaces_the_request<P>(v: OutboxView<P>, id: String, text: String, payload: P, now: i64)
    ensures
        spec_step(v, Action::<P>::Save { id, text, payload }, now) matches Ok(w) ==> exists|k: int|
            0 <= k < v.items.len() && #[trigger] v.items[k].id == id@ && w.items.len() == v.items.len()
                && w.items[k].state == ItemState::Pending && w.items[k].id == v.items[k].id
                && w.items[k].payload == payload && (forall|j: int|
                0 <= j < v.items.len() && j != k ==> w.items[j] == v.items[j]) && w.receipts == v.receipts
                && w.paused == v.paused && w.interrupt == v.interrupt,
        blank(text@) ==> spec_step(v, Action::<P>::Save { id, text, payload }, now) is Err,
{
    if spec_step(v, Action::<P>::Save { id, text, payload }, now) is Ok {
        let k = find(v.items, id@);
        assert(first_match(v.items, id@, k));
    }
}

} // verus!
