//! Repair of a conversation before it is sent to a model: every assistant
//! tool call is followed by exactly one result, unknown, duplicate and
//! orphan results are dropped, and a missing result becomes an explicit
//! failure. The repair works on a view of each message and returns a plan
//! that says, by index, which parts of the given messages are kept.
use vstd::prelude::*;
use crate::text::str_eq;

verus! {

/// What the repair reads of one tool call of an assistant message.
#[derive(Debug)]
pub struct CallView {
    /// The call id; empty where it is missing or not a string.
    pub id: String,
    /// The function name; empty where it is missing or not a string.
    pub name: String,
    /// The arguments as a JSON string: the string itself, or the
    /// serialized value where the arguments are not a string.
    pub arguments: String,
}

/// What the repair reads of one item of a message's recorded response
/// output.
#[derive(Debug)]
pub enum ItemView {
    Reasoning,
    FunctionCall { call_id: Option<String>, name: Option<String>, arguments: String },
    /// A `message` item of role `assistant`.
    AssistantMessage,
    Other,
}

/// What the repair reads of one message.
#[derive(Debug)]
pub struct MessageView {
    /// Its role is `tool`.
    pub tool: bool,
    /// The `tool_call_id`, where it is a string.
    pub tool_call_id: Option<String>,
    /// It has a `tool_calls` field at all.
    pub has_calls_key: bool,
    /// The `tool_calls`, where they are an array.
    pub calls: Option<Vec<CallView>>,
    /// The recorded response output, where it is an array.
    pub output: Option<Vec<ItemView>>,
}

pub struct CallModel {
    pub id: Seq<char>,
    pub name: Seq<char>,
    pub arguments: Seq<char>,
}

pub enum ItemModel {
    Reasoning,
    FunctionCall { call_id: Option<Seq<char>>, name: Option<Seq<char>>, arguments: Seq<char> },
    AssistantMessage,
    Other,
}

pub struct MsgModel {
    pub tool: bool,
    pub tool_call_id: Option<Seq<char>>,
    pub has_calls_key: bool,
    pub calls: Option<Seq<CallModel>>,
    pub output: Option<Seq<ItemModel>>,
}

pub open spec fn text_opt(o: Option<String>) -> Option<Seq<char>> {
    match o {
        Some(s) => Some(s@),
        None => None,
    }
}

impl View for CallView {
    type V = CallModel;

    open spec fn view(&self) -> CallModel {
        CallModel { id: self.id@, name: self.name@, arguments: self.arguments@ }
    }
}

impl View for ItemView {
    type V = ItemModel;

    open spec fn view(&self) -> ItemModel {
        match self {
            ItemView::Reasoning => ItemModel::Reasoning,
            ItemView::FunctionCall { call_id, name, arguments } => ItemModel::FunctionCall {
                call_id: text_opt(*call_id),
                name: text_opt(*name),
                arguments: arguments@,
            },
            ItemView::AssistantMessage => ItemModel::AssistantMessage,
            ItemView::Other => ItemModel::Other,
        }
    }
}

pub open spec fn calls_model(v: Seq<CallView>) -> Seq<CallModel> {
    v.map_values(|c: CallView| c@)
}

pub open spec fn items_model(v: Seq<ItemView>) -> Seq<ItemModel> {
    v.map_values(|it: ItemView| it@)
}

impl View for MessageView {
    type V = MsgModel;

    open spec fn view(&self) -> MsgModel {
        MsgModel {
            tool: self.tool,
            tool_call_id: text_opt(self.tool_call_id),
            has_calls_key: self.has_calls_key,
            calls: match self.calls {
                Some(v) => Some(calls_model(v@)),
                None => None,
            },
            output: match self.output {
                Some(v) => Some(items_model(v@)),
                None => None,
            },
        }
    }
}

pub open spec fn msgs_model(v: Seq<MessageView>) -> Seq<MsgModel> {
    v.map_values(|m: MessageView| m@)
}

pub open spec fn texts(v: Seq<String>) -> Seq<Seq<char>> {
    v.map_values(|t: String| t@)
}

pub open spec fn indexes(v: Seq<usize>) -> Seq<int> {
    v.map_values(|k: usize| k as int)
}

/// A call can be kept: it has an id and a name, and its id was not seen.
pub open spec fn keepable(c: CallModel, seen: Seq<Seq<char>>) -> bool {
    c.id.len() > 0 && c.name.len() > 0 && !seen.contains(c.id)
}

/// The calls kept from a raw list, as indexes into it, and the ids seen
/// afterwards: a call is kept when it has an id and a name and its id was
/// not seen before, in this message or an earlier one.
pub open spec fn keep_calls(raw: Seq<CallModel>, seen: Seq<Seq<char>>) -> (Seq<int>, Seq<Seq<char>>)
    decreases raw.len(),
{
    if raw.len() == 0 {
        (Seq::empty(), seen)
    } else {
        let before = keep_calls(raw.drop_last(), seen);
        if keepable(raw.last(), before.1) {
            (before.0.push(raw.len() - 1), before.1.push(raw.last().id))
        } else {
            before
        }
    }
}

/// Whether `id` occurs among the texts.
fn contains_text(v: &Vec<String>, id: &str) -> (r: bool)
    ensures
        r == texts(v@).contains(id@),
{
    for i in 0..v.len()
        invariant
            forall|j: int| 0 <= j < i ==> texts(v@)[j] != id@,
    {
        if str_eq(v[i].as_str(), id) {
            proof {
                assert(texts(v@)[i as int] == id@);
            }
            return true;
        }
    }
    false
}

/// Filters the calls of one message; `seen` holds the ids of calls kept so
/// far and gains those kept here.
fn kept_calls(raw: &Vec<CallView>, seen: &mut Vec<String>) -> (kept: Vec<usize>)
    ensures
        indexes(kept@) == keep_calls(calls_model(raw@), texts(old(seen)@)).0,
        texts(final(seen)@) == keep_calls(calls_model(raw@), texts(old(seen)@)).1,
{
    let mut kept: Vec<usize> = Vec::new();
    let ghost start = texts(old(seen)@);
    let ghost rm = calls_model(raw@);
    for i in 0..raw.len()
        invariant
            start == texts(old(seen)@),
            rm == calls_model(raw@),
            indexes(kept@) == keep_calls(rm.take(i as int), start).0,
            texts(seen@) == keep_calls(rm.take(i as int), start).1,
    {
        proof {
            assert(rm.take(i + 1).drop_last() =~= rm.take(i as int));
            assert(rm.take(i + 1).last() == raw@[i as int]@);
        }
        let c = &raw[i];
        let fresh = c.id.as_str().unicode_len() > 0 && c.name.as_str().unicode_len() > 0 && !contains_text(
            seen,
            c.id.as_str(),
        );
        if fresh {
            let ghost kb = kept@;
            let ghost sb = seen@;
            kept.push(i);
            seen.push(c.id.clone());
            proof {
                assert(indexes(kept@) =~= indexes(kb).push(i as int));
                assert(texts(seen@) =~= texts(sb).push(c.id@));
            }
        }
    }
    proof {
        assert(rm.take(raw@.len() as int) =~= rm);
    }
    kept
}

/// The calls that a list of indexes picks from a raw list.
pub open spec fn picked(raw: Seq<CallModel>, kept: Seq<int>) -> Seq<CallModel> {
    kept.map_values(|k: int| raw[k])
}

/// A recorded function call item that repeats one of the calls exactly:
/// same id, name and arguments.
pub open spec fn announced(it: ItemModel, calls: Seq<CallModel>) -> bool {
    match it {
        ItemModel::FunctionCall { call_id: Some(id), name: Some(name), arguments } => exists|j: int|
            0 <= j < calls.len() && #[trigger] calls[j].id == id && calls[j].name == name && calls[j].arguments
                == arguments,
        _ => false,
    }
}

/// The recorded output items kept, as indexes; the reasoning items still
/// waiting for the item they precede; and the call ids already answered.
/// Reasoning is kept only together with the item that follows it; a
/// function call item is kept once, when it repeats a kept call; an
/// assistant message is kept; anything else is dropped with the reasoning
/// before it.
pub open spec fn fold_items(items: Seq<ItemModel>, calls: Seq<CallModel>) -> (Seq<int>, Seq<int>, Seq<Seq<char>>)
    decreases items.len(),
{
    if items.len() == 0 {
        (Seq::empty(), Seq::empty(), Seq::empty())
    } else {
        let before = fold_items(items.drop_last(), calls);
        let i = items.len() - 1;
        match items.last() {
            ItemModel::Reasoning => (before.0, before.1.push(i), before.2),
            ItemModel::FunctionCall { call_id, .. } => {
                let id = call_id->0;
                if announced(items.last(), calls) && !before.2.contains(id) {
                    (before.0 + before.1.push(i), Seq::empty(), before.2.push(id))
                } else {
                    (before.0, Seq::empty(), before.2)
                }
            },
            ItemModel::AssistantMessage => (before.0 + before.1.push(i), Seq::empty(), before.2),
            ItemModel::Other => (before.0, Seq::empty(), before.2),
        }
    }
}

/// What becomes of a message's recorded output.
pub enum OutputPlan {
    /// There is none: the message keeps what it has.
    Untouched,
    /// Replaced by the items at these indexes, in order.
    Replace(Seq<int>),
    /// Removed, together with the recorded reasoning: the record does not
    /// answer every kept call.
    Remove,
}

/// The plan for a recorded output given the kept calls: replaced by its
/// kept items when every kept call is answered in it, else removed.
pub open spec fn fix_items(items: Seq<ItemModel>, calls: Seq<CallModel>) -> OutputPlan {
    let f = fold_items(items, calls);
    if f.2.len() == calls.len() {
        OutputPlan::Replace(f.0)
    } else {
        OutputPlan::Remove
    }
}

pub open spec fn fix_output(output: Option<Seq<ItemModel>>, calls: Seq<CallModel>) -> OutputPlan {
    match output {
        None => OutputPlan::Untouched,
        Some(items) => fix_items(items, calls),
    }
}

/// What becomes of a message's recorded output.
#[derive(Debug, PartialEq, Eq)]
pub enum OutputFix {
    Untouched,
    Replace(Vec<usize>),
    Remove,
}

impl View for OutputFix {
    type V = OutputPlan;

    open spec fn view(&self) -> OutputPlan {
        match self {
            OutputFix::Untouched => OutputPlan::Untouched,
            OutputFix::Replace(v) => OutputPlan::Replace(indexes(v@)),
            OutputFix::Remove => OutputPlan::Remove,
        }
    }
}

/// Whether a recorded function call repeats one of the kept calls.
fn repeats_call(raw: &Vec<CallView>, kept: &Vec<usize>, id: &str, name: &str, arguments: &str) -> (r: bool)
    requires
        forall|n: int| 0 <= n < kept.len() ==> kept@[n] < raw.len(),
    ensures
        r == exists|j: int|
            0 <= j < kept.len() && #[trigger] raw@[kept@[j] as int].id@ == id@ && raw@[kept@[j] as int].name@
                == name@ && raw@[kept@[j] as int].arguments@ == arguments@,
{
    for n in 0..kept.len()
        invariant
            forall|m: int| 0 <= m < kept.len() ==> kept@[m] < raw.len(),
            forall|j: int|
                0 <= j < n ==> !(#[trigger] raw@[kept@[j] as int].id@ == id@ && raw@[kept@[j] as int].name@
                    == name@ && raw@[kept@[j] as int].arguments@ == arguments@),
    {
        let c = &raw[kept[n]];
        if str_eq(c.id.as_str(), id) && str_eq(c.name.as_str(), name) && str_eq(c.arguments.as_str(), arguments) {
            return true;
        }
    }
    false
}

/// Moves the waiting reasoning items, then item `i`, to the output.
fn flush(out: &mut Vec<usize>, pending: &Vec<usize>, i: usize)
    ensures
        indexes(final(out)@) == indexes(old(out)@) + indexes(pending@).push(i as int),
{
    let ghost ob = out@;
    for p in 0..pending.len()
        invariant
            indexes(out@) == indexes(ob) + indexes(pending@).take(p as int),
    {
        let ghost before = out@;
        out.push(pending[p]);
        proof {
            assert(indexes(out@) =~= indexes(before).push(pending@[p as int] as int));
            assert(indexes(pending@).take(p + 1) =~= indexes(pending@).take(p as int).push(pending@[p as int] as int));
        }
    }
    proof {
        assert(indexes(pending@).take(pending@.len() as int) =~= indexes(pending@));
    }
    let ghost before = out@;
    out.push(i);
    proof {
        assert(indexes(out@) =~= indexes(before).push(i as int));
    }
}

/// Decides what becomes of a message's recorded output, given its kept
/// calls (indexes into its raw calls).
fn output_fix(items: &Vec<ItemView>, raw: &Vec<CallView>, kept: &Vec<usize>) -> (r: OutputFix)
    requires
        forall|n: int| 0 <= n < kept.len() ==> kept@[n] < raw.len(),
    ensures
        r@ == fix_items(items_model(items@), picked(calls_model(raw@), indexes(kept@))),
{
    let ghost calls = picked(calls_model(raw@), indexes(kept@));
    let ghost im = items_model(items@);
    let mut out: Vec<usize> = Vec::new();
    let mut pending: Vec<usize> = Vec::new();
    let mut used: Vec<String> = Vec::new();
    for i in 0..items.len()
        invariant
            forall|n: int| 0 <= n < kept.len() ==> kept@[n] < raw.len(),
            calls == picked(calls_model(raw@), indexes(kept@)),
            im == items_model(items@),
            ({
                let f = fold_items(im.take(i as int), calls);
                &&& indexes(out@) == f.0
                &&& indexes(pending@) == f.1
                &&& texts(used@) == f.2
            }),
    {
        proof {
            assert(im.take(i + 1).drop_last() =~= im.take(i as int));
            assert(im.take(i + 1).last() == items@[i as int]@);
        }
        let ghost pb = pending@;
        let ghost ub = used@;
        match &items[i] {
            ItemView::Reasoning => {
                pending.push(i);
                proof {
                    assert(indexes(pending@) =~= indexes(pb).push(i as int));
                }
            },
            ItemView::FunctionCall { call_id, name, arguments } => {
                let mut fresh = false;
                if let Some(id) = call_id {
                    if let Some(nm) = name {
                        let m = repeats_call(raw, kept, id.as_str(), nm.as_str(), arguments.as_str());
                        proof {
                            if m {
                                let j = choose|j: int|
                                    0 <= j < kept.len() && #[trigger] raw@[kept@[j] as int].id@ == id@
                                        && raw@[kept@[j] as int].name@ == nm@
                                        && raw@[kept@[j] as int].arguments@ == arguments@;
                                assert(calls[j] == raw@[kept@[j] as int]@);
                                assert(0 <= j < calls.len() && calls[j].id == id@ && calls[j].name == nm@
                                    && calls[j].arguments == arguments@);
                            } else {
                                assert forall|j: int| 0 <= j < calls.len() implies !(#[trigger] calls[j].id == id@
                                    && calls[j].name == nm@ && calls[j].arguments == arguments@) by {
                                    assert(calls[j] == raw@[kept@[j] as int]@);
                                }
                            }
                        }
                        proof {
                            assert(items@[i as int]@ == ItemModel::FunctionCall {
                                call_id: Some(id@),
                                name: Some(nm@),
                                arguments: arguments@,
                            });
                            assert(m == announced(items@[i as int]@, calls));
                        }
                        fresh = m && !contains_text(&used, id.as_str());
                    }
                }
                proof {
                    let it = items@[i as int]@;
                    assert(fresh == (announced(it, calls) && !texts(ub).contains(it->call_id->0)));
                }
                if fresh {
                    let id = match call_id {
                        Some(id) => id.clone(),
                        None => String::new(),
                    };
                    flush(&mut out, &pending, i);
                    used.push(id);
                    proof {
                        assert(texts(used@) =~= texts(ub).push(text_opt(*call_id)->0));
                    }
                }
                pending = Vec::new();
                proof {
                    assert(indexes(pending@) =~= Seq::<int>::empty());
                }
            },
            ItemView::AssistantMessage => {
                flush(&mut out, &pending, i);
                pending = Vec::new();
                proof {
                    assert(indexes(pending@) =~= Seq::<int>::empty());
                }
            },
            ItemView::Other => {
                pending = Vec::new();
                proof {
                    assert(indexes(pending@) =~= Seq::<int>::empty());
                }
            },
        }
    }
    proof {
        assert(im.take(items@.len() as int) =~= im);
    }
    if used.len() == kept.len() {
        OutputFix::Replace(out)
    } else {
        OutputFix::Remove
    }
}

/// The first index at or after `j` that is not a tool result: the end of
/// the results that follow a message.
pub open spec fn results_end(msgs: Seq<MsgModel>, j: int) -> int
    decreases msgs.len() - j,
{
    if j < 0 || j >= msgs.len() || !msgs[j].tool {
        j
    } else {
        results_end(msgs, j + 1)
    }
}

/// The first result among `start..end` that answers call `id`.
pub open spec fn find_result(msgs: Seq<MsgModel>, start: int, end: int, id: Seq<char>) -> Option<int>
    decreases end - start,
{
    if start >= end {
        None
    } else if msgs[start].tool_call_id == Some(id) {
        Some(start)
    } else {
        find_result(msgs, start + 1, end, id)
    }
}

/// A step of the repaired conversation.
pub enum PlanStep {
    /// Message `index`, with its kept calls (`None`: it has no call list,
    /// which stays as it was), whether its recorded reasoning is dropped
    /// (some call was removed), and what becomes of its recorded output.
    Message { index: int, calls: Option<Seq<int>>, drop_reasoning: bool, output: OutputPlan },
    /// The tool result at this index.
    Result(int),
    /// An explicit failure in place of the missing result of call `call`
    /// of message `message`.
    Missing(int, int),
}

/// The answers to the kept calls of message `i`, in call order: the first
/// result among `start..end` for each call, or an explicit failure.
pub open spec fn answers(msgs: Seq<MsgModel>, i: int, raw: Seq<CallModel>, kept: Seq<int>, start: int, end: int) -> Seq<PlanStep> {
    kept.map_values(
        |k: int|
            match find_result(msgs, start, end, raw[k].id) {
                Some(r) => PlanStep::Result(r),
                None => PlanStep::Missing(i, k),
            },
    )
}

/// The repaired conversation from message `i` on, with the call ids seen
/// before it. A tool result is only ever emitted as the answer to a kept
/// call of the assistant message right before the run of results it
/// belongs to; results elsewhere are dropped.
pub open spec fn repair_from(msgs: Seq<MsgModel>, i: int, seen: Seq<Seq<char>>) -> Seq<PlanStep>
    decreases msgs.len() - i,
{
    if i < 0 || i >= msgs.len() {
        Seq::empty()
    } else if msgs[i].tool {
        repair_from(msgs, i + 1, seen)
    } else {
        match msgs[i].calls {
            None => seq![
                PlanStep::Message {
                    index: i,
                    calls: None,
                    drop_reasoning: false,
                    output: fix_output(msgs[i].output, Seq::empty()),
                },
            ] + repair_from(msgs, i + 1, seen),
            Some(raw) => {
                let k = keep_calls(raw, seen);
                let end = results_end(msgs, i + 1);
                proof {
                    lemma_results_end(msgs, i + 1);
                }
                seq![
                    PlanStep::Message {
                        index: i,
                        calls: Some(k.0),
                        drop_reasoning: k.0.len() != raw.len(),
                        output: fix_output(msgs[i].output, picked(raw, k.0)),
                    },
                ] + answers(msgs, i, raw, k.0, i + 1, end) + repair_from(msgs, end, k.1)
            },
        }
    }
}

/// The repaired conversation.
pub open spec fn spec_repair(msgs: Seq<MsgModel>) -> Seq<PlanStep> {
    repair_from(msgs, 0, Seq::empty())
}

pub proof fn lemma_results_end(msgs: Seq<MsgModel>, j: int)
    requires
        0 <= j,
    ensures
        j <= results_end(msgs, j),
        j <= msgs.len() ==> results_end(msgs, j) <= msgs.len(),
        forall|k: int| j <= k < results_end(msgs, j) ==> #[trigger] msgs[k].tool,
        results_end(msgs, j) < msgs.len() ==> !msgs[results_end(msgs, j)].tool,
    decreases msgs.len() - j,
{
    if j < msgs.len() && msgs[j].tool {
        lemma_results_end(msgs, j + 1);
    }
}

proof fn lemma_keep_calls(raw: Seq<CallModel>, seen: Seq<Seq<char>>)
    ensures
        forall|n: int| 0 <= n < keep_calls(raw, seen).0.len() ==> 0 <= #[trigger] keep_calls(raw, seen).0[n] < raw.len(),
        forall|a: int, b: int|
            0 <= a < b < keep_calls(raw, seen).0.len() ==> keep_calls(raw, seen).0[a] < keep_calls(raw, seen).0[b],
    decreases raw.len(),
{
    if raw.len() > 0 {
        lemma_keep_calls(raw.drop_last(), seen);
        let before = keep_calls(raw.drop_last(), seen);
        let now = keep_calls(raw, seen);
        if keepable(raw.last(), before.1) {
            assert(now.0 == before.0.push(raw.len() - 1));
            assert forall|n: int| 0 <= n < now.0.len() implies 0 <= #[trigger] now.0[n] < raw.len() by {
                if n < before.0.len() {
                    assert(now.0[n] == before.0[n]);
                }
            }
            assert forall|a: int, b: int| 0 <= a < b < now.0.len() implies now.0[a] < now.0[b] by {
                assert(now.0[a] == before.0[a]);
                if b < before.0.len() {
                    assert(now.0[b] == before.0[b]);
                }
            }
        }
    }
}

/// A step of the repaired conversation.
#[derive(Debug, PartialEq, Eq)]
pub enum Step {
    /// Message `index`, its kept calls (indexes into its `tool_calls`;
    /// `None` where those are not an array, and left as they are), whether
    /// its recorded reasoning is dropped, and what becomes of its recorded
    /// output.
    Message { index: usize, calls: Option<Vec<usize>>, drop_reasoning: bool, output: OutputFix },
    /// The tool result at this index.
    Result(usize),
    /// An explicit failure in place of the missing result of call `call` of
    /// message `message`.
    Missing { message: usize, call: usize },
}

impl View for Step {
    type V = PlanStep;

    open spec fn view(&self) -> PlanStep {
        match self {
            Step::Message { index, calls, drop_reasoning, output } => PlanStep::Message {
                index: *index as int,
                calls: match calls {
                    Some(v) => Some(indexes(v@)),
                    None => None,
                },
                drop_reasoning: *drop_reasoning,
                output: output@,
            },
            Step::Result(k) => PlanStep::Result(*k as int),
            Step::Missing { message, call } => PlanStep::Missing(*message as int, *call as int),
        }
    }
}

pub open spec fn steps_model(v: Seq<Step>) -> Seq<PlanStep> {
    v.map_values(|s: Step| s@)
}

/// The first result among `start..end` that answers call `id`.
fn find_answer(msgs: &Vec<MessageView>, start: usize, end: usize, id: &str) -> (r: Option<usize>)
    requires
        start <= end <= msgs.len(),
    ensures
        find_result(msgs_model(msgs@), start as int, end as int, id@) == match r {
            Some(k) => Some(k as int),
            None => None,
        },
{
    let ghost mm = msgs_model(msgs@);
    let mut k = start;
    while k < end
        invariant
            start <= k <= end <= msgs.len(),
            mm == msgs_model(msgs@),
            find_result(mm, start as int, end as int, id@) == find_result(mm, k as int, end as int, id@),
        decreases end - k,
    {
        proof {
            assert(mm[k as int] == msgs@[k as int]@);
        }
        match &msgs[k].tool_call_id {
            Some(t) => {
                if str_eq(t.as_str(), id) {
                    return Some(k);
                }
            },
            None => {},
        }
        k = k + 1;
    }
    None
}

/// Repairs a conversation for sending: the steps of the repaired window,
/// in order. The durable history itself is not changed.
pub fn repair(msgs: &Vec<MessageView>) -> (steps: Vec<Step>)
    ensures
        steps_model(steps@) == spec_repair(msgs_model(msgs@)),
{
    let ghost mm = msgs_model(msgs@);
    let mut steps: Vec<Step> = Vec::new();
    let mut seen: Vec<String> = Vec::new();
    let mut i: usize = 0;
    let ghost whole = spec_repair(mm);
    proof {
        assert(steps_model(steps@) + whole =~= whole);
        assert(texts(seen@) =~= Seq::<Seq<char>>::empty());
    }
    while i < msgs.len()
        invariant
            i <= msgs.len(),
            mm == msgs_model(msgs@),
            whole == spec_repair(mm),
            steps_model(steps@) + repair_from(mm, i as int, texts(seen@)) == whole,
        decreases msgs.len() - i,
    {
        let ghost sv = texts(seen@);
        let ghost before = steps_model(steps@);
        let m = &msgs[i];
        proof {
            assert(mm[i as int] == m@);
        }
        if m.tool {
            i = i + 1;
        } else {
            match &m.calls {
                None => {
                    let output = match &m.output {
                        None => OutputFix::Untouched,
                        Some(items) => {
                            let none: Vec<CallView> = Vec::new();
                            let nk: Vec<usize> = Vec::new();
                            proof {
                                assert(picked(calls_model(none@), indexes(nk@)) =~= Seq::<CallModel>::empty());
                            }
                            output_fix(items, &none, &nk)
                        },
                    };
                    let ghost sb = steps@;
                    steps.push(Step::Message { index: i, calls: None, drop_reasoning: false, output });
                    proof {
                        assert(steps_model(steps@) =~= before.push(steps@[sb.len() as int]@));
                        assert(before.push(steps@[sb.len() as int]@) + repair_from(mm, i + 1, sv) =~= before
                            + repair_from(mm, i as int, sv));
                    }
                    i = i + 1;
                },
                Some(raw) => {
                    let ghost rm = calls_model(raw@);
                    let kept = kept_calls(raw, &mut seen);
                    proof {
                        lemma_keep_calls(rm, sv);
                    }
                    let ghost kv = indexes(kept@);
                    proof {
                        assert forall|q: int| 0 <= q < kept.len() implies kept@[q] < raw.len() by {
                            assert(kv[q] == kept@[q] as int);
                        }
                    }
                    let output = match &m.output {
                        None => OutputFix::Untouched,
                        Some(items) => output_fix(items, raw, &kept),
                    };
                    let drop_reasoning = kept.len() != raw.len();
                    let mut j = i + 1;
                    while j < msgs.len() && msgs[j].tool
                        invariant
                            i + 1 <= j <= msgs.len(),
                            mm == msgs_model(msgs@),
                            results_end(mm, i + 1) == results_end(mm, j as int),
                        decreases msgs.len() - j,
                    {
                        proof {
                            assert(mm[j as int] == msgs@[j as int]@);
                        }
                        j = j + 1;
                    }
                    proof {
                        if j < msgs.len() {
                            assert(mm[j as int] == msgs@[j as int]@);
                        }
                        lemma_results_end(mm, i + 1);
                    }
                    let ghost ans = answers(mm, i as int, rm, kv, i + 1, j as int);
                    let mut replies: Vec<Step> = Vec::new();
                    for n in 0..kept.len()
                        invariant
                            j <= msgs.len(),
                            i + 1 <= j,
                            mm == msgs_model(msgs@),
                            rm == calls_model(raw@),
                            kv == indexes(kept@),
                            forall|q: int| 0 <= q < kept.len() ==> kept@[q] < raw.len(),
                            ans == answers(mm, i as int, rm, kv, i + 1, j as int),
                            ans.len() == kept.len(),
                            steps_model(replies@) == ans.take(n as int),
                    {
                        let id = raw[kept[n]].id.as_str();
                        let ghost rb = replies@;
                        let step = match find_answer(msgs, i + 1, j, id) {
                            Some(k) => Step::Result(k),
                            None => Step::Missing { message: i, call: kept[n] },
                        };
                        proof {
                            assert(kv[n as int] == kept@[n as int] as int);
                            assert(ans.take(n as int).len() == n);
                            assert(steps_model(replies@).len() == replies@.len());
                            assert(id@ == rm[kv[n as int]].id);
                            assert(ans[n as int] == match find_result(mm, i + 1, j as int, rm[kv[n as int]].id) {
                                Some(r) => PlanStep::Result(r),
                                None => PlanStep::Missing(i as int, kv[n as int]),
                            });
                        }
                        replies.push(step);
                        proof {
                            assert(replies@[n as int] == step);
                            assert(ans[n as int] == step@);
                            assert(steps_model(replies@) =~= ans.take(n + 1));
                        }
                    }
                    let ghost message = PlanStep::Message {
                        index: i as int,
                        calls: Some(kv),
                        drop_reasoning: kv.len() != rm.len(),
                        output: fix_output(mm[i as int].output, picked(rm, kv)),
                    };
                    steps.push(Step::Message { index: i, calls: Some(kept), drop_reasoning, output });
                    proof {
                        assert(steps_model(steps@) =~= before.push(message));
                    }
                    let ghost rv = replies@;
                    steps.append(&mut replies);
                    proof {
                        assert(ans.take(ans.len() as int) =~= ans);
                        assert(steps_model(steps@) =~= before.push(message) + steps_model(rv));
                        assert(before.push(message) + ans + repair_from(mm, j as int, texts(seen@)) =~= before
                            + repair_from(mm, i as int, sv));
                    }
                    i = j;
                },
            }
        }
    }
    proof {
        assert(steps_model(steps@) + Seq::<PlanStep>::empty() =~= steps_model(steps@));
    }
    steps
}

/// Where a conversation may be cut after message `covered`: a message that
/// is not a tool result and does not follow one with tool calls, so that a
/// cut never separates calls from their results.
pub open spec fn cut_point(msgs: Seq<MsgModel>, covered: int, i: int) -> bool {
    covered + 1 <= i < msgs.len() && !msgs[i].tool && !msgs[i - 1].has_calls_key
}

/// The indexes at which the conversation may be cut, in order.
pub fn boundaries(msgs: &Vec<MessageView>, covered: usize) -> (r: Vec<usize>)
    ensures
        forall|k: int| 0 <= k < r.len() ==> cut_point(msgs_model(msgs@), covered as int, #[trigger] r@[k] as int),
        forall|i: int| cut_point(msgs_model(msgs@), covered as int, i) ==> r@.contains(i as usize),
        forall|a: int, b: int| 0 <= a < b < r.len() ==> r@[a] < r@[b],
{
    let ghost mm = msgs_model(msgs@);
    let mut out: Vec<usize> = Vec::new();
    if covered >= msgs.len() {
        return out;
    }
    let mut i = covered + 1;
    while i < msgs.len()
        invariant
            covered + 1 <= i <= msgs.len(),
            mm == msgs_model(msgs@),
            forall|k: int| 0 <= k < out.len() ==> cut_point(mm, covered as int, #[trigger] out@[k] as int) && out@[k] < i,
            forall|x: int| covered + 1 <= x < i && cut_point(mm, covered as int, x) ==> out@.contains(x as usize),
            forall|a: int, b: int| 0 <= a < b < out.len() ==> out@[a] < out@[b],
        decreases msgs.len() - i,
    {
        proof {
            assert(mm[i as int] == msgs@[i as int]@);
            assert(mm[i - 1] == msgs@[i - 1]@);
        }
        if !msgs[i].tool && !msgs[i - 1].has_calls_key {
            let ghost before = out@;
            out.push(i);
            proof {
                assert forall|x: int| covered + 1 <= x < i + 1 && cut_point(mm, covered as int, x) implies out@.contains(
                    x as usize,
                ) by {
                    if x == i {
                        assert(out@[before.len() as int] == i);
                    } else {
                        let k = choose|k: int| 0 <= k < before.len() && before[k] == x as usize;
                        assert(out@[k] == x as usize);
                    }
                }
            }
        }
        i = i + 1;
    }
    out
}

/// `0, 1, .., n - 1`.
pub open spec fn range(n: int) -> Seq<int> {
    Seq::new(n as nat, |t: int| t)
}

pub open spec fn sub_items(items: Seq<ItemModel>, idx: Seq<int>) -> Seq<ItemModel> {
    idx.map_values(|k: int| items[k])
}

pub open spec fn call_ids(cs: Seq<CallModel>) -> Seq<Seq<char>> {
    cs.map_values(|c: CallModel| c.id)
}

proof fn lemma_keep_calls_picked(raw: Seq<CallModel>, seen: Seq<Seq<char>>)
    ensures
        ({
            let k = keep_calls(raw, seen);
            &&& k.1 == seen + call_ids(picked(raw, k.0))
            &&& keep_calls(picked(raw, k.0), seen) == (range(k.0.len() as int), k.1)
            &&& forall|a: int, b: int|
                0 <= a < b < k.0.len() ==> raw[k.0[a]].id != raw[k.0[b]].id
            &&& forall|a: int| 0 <= a < k.0.len() ==> !seen.contains(#[trigger] raw[k.0[a]].id)
        }),
    decreases raw.len(),
{
    lemma_keep_calls(raw, seen);
    if raw.len() > 0 {
        let r0 = raw.drop_last();
        lemma_keep_calls_picked(r0, seen);
        lemma_keep_calls(r0, seen);
        let b = keep_calls(r0, seen);
        let k = keep_calls(raw, seen);
        assert(picked(raw, b.0) =~= picked(r0, b.0));
        if keepable(raw.last(), b.1) {
            let n = raw.len() - 1;
            assert(k.0 == b.0.push(n));
            assert(picked(raw, k.0) =~= picked(r0, b.0).push(raw.last()));
            assert(call_ids(picked(raw, k.0)) =~= call_ids(picked(r0, b.0)).push(raw.last().id));
            let pk = picked(raw, k.0);
            assert(pk.drop_last() =~= picked(r0, b.0));
            assert(keep_calls(pk.drop_last(), seen) == (range(b.0.len() as int), b.1));
            assert(range(k.0.len() as int) =~= range(b.0.len() as int).push(b.0.len() as int));
            assert forall|a: int, c: int| 0 <= a < c < k.0.len() implies raw[k.0[a]].id != raw[k.0[c]].id by {
                assert(k.0[a] == b.0[a]);
                if c < b.0.len() {
                    assert(k.0[c] == b.0[c]);
                } else {
                    assert(b.1[seen.len() + a] == raw[b.0[a]].id);
                }
            }
            assert forall|a: int| 0 <= a < k.0.len() implies !seen.contains(#[trigger] raw[k.0[a]].id) by {
                if a < b.0.len() {
                    assert(k.0[a] == b.0[a]);
                } else {
                    if seen.contains(raw.last().id) {
                        let t = choose|t: int| 0 <= t < seen.len() && seen[t] == raw.last().id;
                        assert(b.1[t] == seen[t]);
                    }
                }
            }
        } else {
            assert(k == b);
            assert forall|a: int| 0 <= a < k.0.len() implies !seen.contains(#[trigger] raw[k.0[a]].id) by {
                assert(raw[k.0[a]] == r0[b.0[a]]);
            }
            assert forall|a: int, c: int| 0 <= a < c < k.0.len() implies raw[k.0[a]].id != raw[k.0[c]].id by {
                assert(raw[k.0[a]] == r0[b.0[a]]);
                assert(raw[k.0[c]] == r0[b.0[c]]);
            }
        }
    } else {
        assert(picked(raw, Seq::<int>::empty()) =~= Seq::<CallModel>::empty());
        assert(call_ids(Seq::<CallModel>::empty()) =~= Seq::<Seq<char>>::empty());
        assert(seen + Seq::<Seq<char>>::empty() =~= seen);
        assert(range(0) =~= Seq::<int>::empty());
    }
}

pub open spec fn shifted(a: int, b: int) -> Seq<int> {
    Seq::new(b as nat, |t: int| a + t)
}

pub open spec fn increasing_below(c: Seq<int>, n: int) -> bool {
    &&& forall|a: int, b: int| 0 <= a < b < c.len() ==> c[a] < c[b]
    &&& forall|a: int| 0 <= a < c.len() ==> 0 <= #[trigger] c[a] < n
}

proof fn lemma_fold_facts(items: Seq<ItemModel>, calls: Seq<CallModel>)
    ensures
        ({
            let f = fold_items(items, calls);
            &&& forall|q: int| 0 <= q < f.1.len() ==> #[trigger] items[f.1[q]] is Reasoning
            &&& increasing_below(f.0 + f.1, items.len() as int)
        }),
    decreases items.len(),
{
    if items.len() > 0 {
        let i0 = items.drop_last();
        lemma_fold_facts(i0, calls);
        let b = fold_items(i0, calls);
        let f = fold_items(items, calls);
        let n = i0.len() as int;
        assert forall|q: int| 0 <= q < b.1.len() implies #[trigger] items[b.1[q]] is Reasoning by {
            assert((b.0 + b.1)[b.0.len() + q] == b.1[q]);
            assert(items[b.1[q]] == i0[b.1[q]]);
        }
        let c = b.0 + b.1;
        if f.1.len() > 0 {
            assert(items.last() is Reasoning);
            assert(f.0 + f.1 =~= c.push(n));
        } else if f.0.len() > b.0.len() {
            assert(f.0 + f.1 =~= c.push(n));
        } else {
            assert(f.0 + f.1 =~= b.0);
            assert forall|a: int| 0 <= a < b.0.len() implies 0 <= #[trigger] b.0[a] < items.len() by {
                assert(c[a] == b.0[a]);
            }
            assert forall|a: int, d: int| 0 <= a < d < b.0.len() implies b.0[a] < b.0[d] by {
                assert(c[a] == b.0[a]);
                assert(c[d] == b.0[d]);
            }
        }
    }
}

proof fn lemma_fold_reasoning_suffix(p: Seq<ItemModel>, r: Seq<ItemModel>, calls: Seq<CallModel>)
    requires
        forall|t: int| 0 <= t < r.len() ==> #[trigger] r[t] is Reasoning,
    ensures
        ({
            let f = fold_items(p, calls);
            fold_items(p + r, calls) == (f.0, f.1 + shifted(p.len() as int, r.len() as int), f.2)
        }),
    decreases r.len(),
{
    let f = fold_items(p, calls);
    if r.len() == 0 {
        assert(p + r =~= p);
        assert(f.1 + shifted(p.len() as int, 0) =~= f.1);
    } else {
        let r0 = r.drop_last();
        lemma_fold_reasoning_suffix(p, r0, calls);
        assert((p + r).drop_last() =~= p + r0);
        assert((p + r).last() == r.last());
        assert(f.1 + shifted(p.len() as int, r.len() as int) =~= (f.1 + shifted(p.len() as int, r0.len() as int)).push(
            (p.len() + r0.len()) as int,
        ));
    }
}

proof fn lemma_sub_prefix(items: Seq<ItemModel>, idx: Seq<int>)
    requires
        items.len() > 0,
        forall|a: int| 0 <= a < idx.len() ==> 0 <= #[trigger] idx[a] < items.len() - 1,
    ensures
        sub_items(items, idx) == sub_items(items.drop_last(), idx),
{
    assert(sub_items(items, idx) =~= sub_items(items.drop_last(), idx));
}

/// Folding the kept items again keeps all of them and answers the same
/// calls; with the waiting reasoning appended, that reasoning waits again.
proof fn lemma_fold_again(items: Seq<ItemModel>, calls: Seq<CallModel>)
    ensures
        ({
            let f = fold_items(items, calls);
            &&& fold_items(sub_items(items, f.0 + f.1), calls) == (range(f.0.len() as int), shifted(
                f.0.len() as int,
                f.1.len() as int,
            ), f.2)
            &&& fold_items(sub_items(items, f.0), calls) == (range(f.0.len() as int), Seq::<int>::empty(), f.2)
        }),
    decreases items.len(),
{
    let f = fold_items(items, calls);
    lemma_fold_facts(items, calls);
    if items.len() == 0 {
        assert(sub_items(items, f.0 + f.1) =~= Seq::<ItemModel>::empty());
        assert(sub_items(items, f.0) =~= Seq::<ItemModel>::empty());
        assert(range(0) =~= Seq::<int>::empty());
        assert(shifted(0, 0) =~= Seq::<int>::empty());
    } else {
        let i0 = items.drop_last();
        let b = fold_items(i0, calls);
        let n = i0.len() as int;
        let a = b.0.len() as int;
        let bl = b.1.len() as int;
        lemma_fold_again(i0, calls);
        lemma_fold_facts(i0, calls);
        let c = b.0 + b.1;
        assert forall|t: int| 0 <= t < c.len() implies 0 <= #[trigger] c[t] < items.len() - 1 by {}
        lemma_sub_prefix(items, c);
        assert forall|t: int| 0 <= t < b.0.len() implies 0 <= #[trigger] b.0[t] < items.len() - 1 by {
            assert(c[t] == b.0[t]);
        }
        lemma_sub_prefix(items, b.0);
        let sc = sub_items(i0, c);
        assert(sc =~= sub_items(i0, b.0) + sub_items(i0, b.1));
        assert forall|t: int| 0 <= t < sub_items(i0, b.1).len() implies #[trigger] sub_items(i0, b.1)[t] is Reasoning by {
            assert(i0[b.1[t]] is Reasoning);
        }
        lemma_fold_reasoning_suffix(sub_items(i0, b.0), sub_items(i0, b.1), calls);
        let g = fold_items(sub_items(i0, b.0), calls);
        assert(g.1.len() + bl == bl);
        assert(g.1 =~= Seq::<int>::empty());
        assert(g.0 == range(a));
        assert(g.2 == b.2);
        match items.last() {
            ItemModel::Reasoning => {
                assert(f.0 + f.1 =~= c.push(n));
                assert(sub_items(items, f.0 + f.1) =~= sc.push(items.last()));
                assert(sub_items(items, f.0 + f.1).drop_last() =~= sc);
                assert(shifted(a, bl + 1) =~= shifted(a, bl).push(a + bl));
                assert(sub_items(items, f.0) =~= sub_items(i0, b.0));
            },
            ItemModel::FunctionCall { call_id, .. } => {
                if f.0.len() > a {
                    assert(f.0 + f.1 =~= c.push(n));
                    assert(f.0 =~= c.push(n));
                    assert(sub_items(items, f.0 + f.1) =~= sc.push(items.last()));
                    assert(sub_items(items, f.0 + f.1).drop_last() =~= sc);
                    assert(range(a + bl + 1) =~= range(a) + shifted(a, bl).push(a + bl));
                    assert(shifted(a + bl + 1, 0) =~= Seq::<int>::empty());
                } else {
                    assert(f.0 + f.1 =~= b.0);
                    assert(shifted(a, 0) =~= Seq::<int>::empty());
                }
            },
            ItemModel::AssistantMessage => {
                assert(f.0 + f.1 =~= c.push(n));
                assert(f.0 =~= c.push(n));
                assert(sub_items(items, f.0 + f.1) =~= sc.push(items.last()));
                assert(sub_items(items, f.0 + f.1).drop_last() =~= sc);
                assert(range(a + bl + 1) =~= range(a) + shifted(a, bl).push(a + bl));
                assert(shifted(a + bl + 1, 0) =~= Seq::<int>::empty());
            },
            ItemModel::Other => {
                assert(f.0 + f.1 =~= b.0);
                assert(shifted(a, 0) =~= Seq::<int>::empty());
            },
        }
    }
}

/// What a step of the plan puts in the repaired conversation.
pub open spec fn repaired_step(msgs: Seq<MsgModel>, s: PlanStep) -> MsgModel {
    match s {
        PlanStep::Message { index, calls, drop_reasoning, output } => {
            let m = msgs[index];
            let (has_calls_key, kept_calls) = match calls {
                None => (m.has_calls_key, m.calls),
                Some(kept) => if kept.len() == 0 {
                    (false, None)
                } else {
                    (true, Some(picked(m.calls->0, kept)))
                },
            };
            MsgModel {
                tool: m.tool,
                tool_call_id: m.tool_call_id,
                has_calls_key,
                calls: kept_calls,
                output: match output {
                    OutputPlan::Untouched => m.output,
                    OutputPlan::Replace(idx) => Some(sub_items(m.output->0, idx)),
                    OutputPlan::Remove => None,
                },
            }
        },
        PlanStep::Result(k) => msgs[k],
        PlanStep::Missing(i, k) => MsgModel {
            tool: true,
            tool_call_id: Some(msgs[i].calls->0[k].id),
            has_calls_key: false,
            calls: None,
            output: None,
        },
    }
}

/// The repaired conversation, message by message.
pub open spec fn spec_repaired(msgs: Seq<MsgModel>) -> Seq<MsgModel> {
    spec_repair(msgs).map_values(|s: PlanStep| repaired_step(msgs, s))
}

/// The step that keeps message `p` whole.
pub open spec fn identity_step(m: MsgModel, p: int) -> PlanStep {
    if m.tool {
        PlanStep::Result(p)
    } else {
        PlanStep::Message {
            index: p,
            calls: match m.calls {
                None => None,
                Some(c) => Some(range(c.len() as int)),
            },
            drop_reasoning: false,
            output: match m.output {
                None => OutputPlan::Untouched,
                Some(items) => OutputPlan::Replace(range(items.len() as int)),
            },
        }
    }
}

/// The plan that keeps every message whole, in place.
pub open spec fn identity_plan(msgs: Seq<MsgModel>) -> Seq<PlanStep> {
    Seq::new(msgs.len(), |p: int| identity_step(msgs[p], p))
}

proof fn lemma_first_step(msgs: Seq<MsgModel>, i: int, seen: Seq<Seq<char>>)
    requires
        0 <= i,
        repair_from(msgs, i, seen).len() > 0,
    ensures
        repair_from(msgs, i, seen)[0] matches PlanStep::Message { index, .. } && i <= index < msgs.len()
            && !msgs[index].tool,
    decreases msgs.len() - i,
{
    if i < msgs.len() && msgs[i].tool {
        lemma_first_step(msgs, i + 1, seen);
    }
}

proof fn lemma_find_result(msgs: Seq<MsgModel>, start: int, end: int, id: Seq<char>)
    ensures
        find_result(msgs, start, end, id) matches Some(r) ==> start <= r < end && msgs[r].tool_call_id == Some(id),
    decreases end - start,
{
    if start < end && msgs[start].tool_call_id != Some(id) {
        lemma_find_result(msgs, start + 1, end, id);
    }
}

proof fn lemma_find_first(msgs: Seq<MsgModel>, start: int, end: int, id: Seq<char>, r: int)
    requires
        start <= r < end,
        msgs[r].tool_call_id == Some(id),
        forall|t: int| start <= t < r ==> msgs[t].tool_call_id != Some(id),
    ensures
        find_result(msgs, start, end, id) == Some(r),
    decreases r - start,
{
    if start < r {
        lemma_find_first(msgs, start + 1, end, id, r);
    }
}

proof fn lemma_results_end_at(msgs: Seq<MsgModel>, j: int, e: int)
    requires
        0 <= j <= e <= msgs.len(),
        forall|t: int| j <= t < e ==> #[trigger] msgs[t].tool,
        e == msgs.len() || !msgs[e].tool,
    ensures
        results_end(msgs, j) == e,
    decreases e - j,
{
    if j < e {
        lemma_results_end_at(msgs, j + 1, e);
    }
}

proof fn lemma_fold_no_calls(items: Seq<ItemModel>)
    ensures
        fold_items(items, Seq::empty()).2.len() == 0,
    decreases items.len(),
{
    if items.len() > 0 {
        lemma_fold_no_calls(items.drop_last());
    }
}

/// The output plan of a message repaired with `calls`, read again with the
/// same calls, keeps the repaired output whole.
proof fn lemma_output_again(output: Option<Seq<ItemModel>>, calls: Seq<CallModel>)
    ensures
        ({
            let fixed = match fix_output(output, calls) {
                OutputPlan::Untouched => output,
                OutputPlan::Replace(idx) => Some(sub_items(output->0, idx)),
                OutputPlan::Remove => None,
            };
            fix_output(fixed, calls) == match fixed {
                None => OutputPlan::Untouched,
                Some(items) => OutputPlan::Replace(range(items.len() as int)),
            }
        }),
{
    match output {
        None => {},
        Some(items) => {
            lemma_fold_again(items, calls);
        },
    }
}

/// Repairing again, from position `q` of a conversation that holds there
/// what the repair from message `i` produced, keeps every message whole.
proof fn lemma_repair_again(msgs: Seq<MsgModel>, i: int, seen: Seq<Seq<char>>, fixed: Seq<MsgModel>, q: int)
    requires
        0 <= i,
        0 <= q,
        fixed.len() == q + repair_from(msgs, i, seen).len(),
        forall|t: int|
            0 <= t < repair_from(msgs, i, seen).len() ==> fixed[q + t] == repaired_step(
                msgs,
                #[trigger] repair_from(msgs, i, seen)[t],
            ),
    ensures
        repair_from(fixed, q, seen) == Seq::new(
            repair_from(msgs, i, seen).len(),
            |t: int| identity_step(fixed[q + t], q + t),
        ),
    decreases msgs.len() - i,
{
    let plan = repair_from(msgs, i, seen);
    let want = Seq::new(plan.len(), |t: int| identity_step(fixed[q + t], q + t));
    if i >= msgs.len() {
        assert(want =~= Seq::<PlanStep>::empty());
    } else if msgs[i].tool {
        lemma_repair_again(msgs, i + 1, seen, fixed, q);
    } else {
        match msgs[i].calls {
            None => {
                let rest = repair_from(msgs, i + 1, seen);
                assert(plan == seq![plan[0]] + rest);
                assert forall|t: int| 0 <= t < rest.len() implies fixed[(q + 1) + t] == repaired_step(
                    msgs,
                    #[trigger] rest[t],
                ) by {
                    assert(plan[1 + t] == rest[t]);
                }
                lemma_repair_again(msgs, i + 1, seen, fixed, q + 1);
                let m2 = fixed[q];
                assert(m2 == repaired_step(msgs, plan[0]));
                lemma_output_again(msgs[i].output, Seq::empty());
                assert(want =~= seq![identity_step(m2, q)] + Seq::new(
                    rest.len(),
                    |t: int| identity_step(fixed[(q + 1) + t], (q + 1) + t),
                ));
            },
            Some(raw) => {
                let k = keep_calls(raw, seen);
                let n = k.0.len() as int;
                let end = results_end(msgs, i + 1);
                lemma_results_end(msgs, i + 1);
                lemma_keep_calls(raw, seen);
                lemma_keep_calls_picked(raw, seen);
                let pk = picked(raw, k.0);
                let ans = answers(msgs, i, raw, k.0, i + 1, end);
                let rest = repair_from(msgs, end, k.1);
                assert(plan == seq![plan[0]] + ans + rest);
                assert(plan.len() == 1 + n + rest.len());
                assert forall|t: int| 0 <= t < rest.len() implies fixed[(q + 1 + n) + t] == repaired_step(
                    msgs,
                    #[trigger] rest[t],
                ) by {
                    assert(plan[1 + n + t] == rest[t]);
                }
                lemma_repair_again(msgs, end, k.1, fixed, q + 1 + n);
                let m2 = fixed[q];
                assert(m2 == repaired_step(msgs, plan[0]));
                // the answers, repaired: tool results carrying the kept ids, in order
                assert forall|u: int| #![trigger fixed[u]] q + 1 <= u < q + 1 + n implies fixed[u].tool && fixed[u].tool_call_id
                    == Some(raw[k.0[u - q - 1]].id) by {
                    let t = u - q - 1;
                    assert(plan[1 + t] == ans[t]);
                    assert(fixed[q + (1 + t)] == repaired_step(msgs, plan[1 + t]));
                    lemma_find_result(msgs, i + 1, end, raw[k.0[t]].id);
                }
                if rest.len() > 0 {
                    lemma_first_step(msgs, end, k.1);
                    assert(plan[1 + n] == rest[0]);
                    assert(fixed[q + 1 + n] == repaired_step(msgs, rest[0]));
                }
                lemma_results_end_at(fixed, q + 1, q + 1 + n);
                lemma_output_again(msgs[i].output, pk);
                if n == 0 {
                    assert(k.1 =~= seen);
                    assert(pk =~= Seq::<CallModel>::empty());
                    assert(want =~= seq![identity_step(m2, q)] + Seq::new(
                        rest.len(),
                        |t: int| identity_step(fixed[(q + 1) + t], (q + 1) + t),
                    ));
                } else {
                    assert(m2.calls == Some(pk));
                    assert(picked(pk, range(n)) =~= pk);
                    let ans2 = answers(fixed, q, pk, range(n), q + 1, q + 1 + n);
                    assert forall|t: int| 0 <= t < n implies #[trigger] ans2[t] == PlanStep::Result(q + 1 + t) by {
                        assert(pk[range(n)[t]] == raw[k.0[t]]);
                        assert forall|u: int| q + 1 <= u < q + 1 + t implies fixed[u].tool_call_id != Some(
                            raw[k.0[t]].id,
                        ) by {
                            assert(fixed[u].tool_call_id == Some(raw[k.0[u - q - 1]].id));
                        }
                        assert(fixed[q + 1 + t].tool_call_id == Some(raw[k.0[t]].id));
                        lemma_find_first(fixed, q + 1, q + 1 + n, raw[k.0[t]].id, q + 1 + t);
                    }
                    assert(want =~= seq![identity_step(m2, q)] + ans2 + Seq::new(
                        rest.len(),
                        |t: int| identity_step(fixed[(q + 1 + n) + t], (q + 1 + n) + t),
                    ));
                }
            },
        }
    }
}

/// Repair is idempotent: repairing an already repaired conversation keeps
/// every message whole and in place.
pub proof fn law_repair_is_idempotent(msgs: Seq<MsgModel>)
    ensures
        spec_repair(spec_repaired(msgs)) == identity_plan(spec_repaired(msgs)),
{
    let fixed = spec_repaired(msgs);
    let plan = spec_repair(msgs);
    assert forall|t: int| 0 <= t < plan.len() implies fixed[0 + t] == repaired_step(msgs, #[trigger] plan[t]) by {}
    lemma_repair_again(msgs, 0, Seq::empty(), fixed, 0);
    assert(identity_plan(fixed) =~= Seq::new(plan.len(), |t: int| identity_step(fixed[0 + t], 0 + t)));
}

/// A plan step refers to messages of the right kind: a kept message is no
/// tool result and keeps a call list exactly where it had one; a result is a
/// tool result.
pub open spec fn step_fits(msgs: Seq<MsgModel>, s: PlanStep) -> bool {
    match s {
        PlanStep::Message { index, calls, .. } => 0 <= index < msgs.len() && !msgs[index].tool && (calls is None
            <==> msgs[index].calls is None),
        PlanStep::Result(r) => 0 <= r < msgs.len() && msgs[r].tool,
        PlanStep::Missing(_, _) => true,
    }
}

proof fn lemma_steps_fit(msgs: Seq<MsgModel>, i: int, seen: Seq<Seq<char>>)
    requires
        0 <= i,
    ensures
        forall|t: int|
            0 <= t < repair_from(msgs, i, seen).len() ==> step_fits(msgs, #[trigger] repair_from(msgs, i, seen)[t]),
    decreases msgs.len() - i,
{
    if i < msgs.len() {
        if msgs[i].tool {
            lemma_steps_fit(msgs, i + 1, seen);
        } else {
            match msgs[i].calls {
                None => {
                    lemma_steps_fit(msgs, i + 1, seen);
                    let head = seq![
                        PlanStep::Message {
                            index: i,
                            calls: None,
                            drop_reasoning: false,
                            output: fix_output(msgs[i].output, Seq::empty()),
                        },
                    ];
                    let rest = repair_from(msgs, i + 1, seen);
                    assert(repair_from(msgs, i, seen) == head + rest);
                    assert forall|t: int| 0 <= t < (head + rest).len() implies step_fits(msgs, #[trigger] (head + rest)[t]) by {
                        if t > 0 {
                            assert((head + rest)[t] == rest[t - 1]);
                        }
                    }
                },
                Some(raw) => {
                    let k = keep_calls(raw, seen);
                    let end = results_end(msgs, i + 1);
                    lemma_results_end(msgs, i + 1);
                    lemma_steps_fit(msgs, end, k.1);
                    let head = seq![
                        PlanStep::Message {
                            index: i,
                            calls: Some(k.0),
                            drop_reasoning: k.0.len() != raw.len(),
                            output: fix_output(msgs[i].output, picked(raw, k.0)),
                        },
                    ];
                    let ans = answers(msgs, i, raw, k.0, i + 1, end);
                    let rest = repair_from(msgs, end, k.1);
                    assert(repair_from(msgs, i, seen) == head + ans + rest);
                    assert forall|t: int| 0 <= t < ans.len() implies step_fits(msgs, #[trigger] ans[t]) by {
                        lemma_find_result(msgs, i + 1, end, raw[k.0[t]].id);
                    }
                    assert forall|t: int| 0 <= t < (head + ans + rest).len() implies step_fits(
                        msgs,
                        #[trigger] (head + ans + rest)[t],
                    ) by {
                        if t > 0 && t < 1 + ans.len() {
                            assert((head + ans + rest)[t] == ans[t - 1]);
                        } else if t >= 1 + ans.len() {
                            assert((head + ans + rest)[t] == rest[t - 1 - ans.len()]);
                        }
                    }
                },
            }
        }
    }
}

/// Every kept message of a repaired conversation that has a call list has
/// at least one call and the `tool_calls` field.
proof fn lemma_repaired_calls(msgs: Seq<MsgModel>)
    ensures
        forall|p: int|
            0 <= p < spec_repaired(msgs).len() && !(#[trigger] spec_repaired(msgs)[p]).tool
                && spec_repaired(msgs)[p].calls is Some ==> spec_repaired(msgs)[p].calls->0.len() > 0
                && spec_repaired(msgs)[p].has_calls_key,
{
    let plan = spec_repair(msgs);
    lemma_steps_fit(msgs, 0, Seq::empty());
    assert forall|p: int|
        0 <= p < spec_repaired(msgs).len() && !(#[trigger] spec_repaired(msgs)[p]).tool
            && spec_repaired(msgs)[p].calls is Some implies spec_repaired(msgs)[p].calls->0.len() > 0
            && spec_repaired(msgs)[p].has_calls_key by {
        assert(spec_repaired(msgs)[p] == repaired_step(msgs, plan[p]));
        assert(step_fits(msgs, plan[p]));
    }
}

/// Repairing a repaired conversation gives it back unchanged: repairing
/// twice is repairing once.
pub proof fn law_repairing_twice_is_repairing_once(msgs: Seq<MsgModel>)
    ensures
        spec_repaired(spec_repaired(msgs)) == spec_repaired(msgs),
{
    let f = spec_repaired(msgs);
    law_repair_is_idempotent(msgs);
    lemma_repaired_calls(msgs);
    let g = spec_repaired(f);
    assert(g.len() == f.len());
    assert forall|p: int| 0 <= p < f.len() implies #[trigger] g[p] == f[p] by {
        let s = identity_step(f[p], p);
        assert(spec_repair(f)[p] == s);
        assert(g[p] == repaired_step(f, s));
        if !f[p].tool {
            match f[p].calls {
                Some(c) => {
                    assert(picked(c, range(c.len() as int)) =~= c);
                },
                None => {},
            }
            match f[p].output {
                Some(items) => {
                    assert(sub_items(items, range(items.len() as int)) =~= items);
                },
                None => {},
            }
        }
    }
    assert(g =~= f);
}

/// The tool calls carried by message `p`: none for a tool result or a
/// message without a call list.
pub open spec fn calls_at(f: Seq<MsgModel>, p: int) -> Seq<CallModel> {
    if !f[p].tool && f[p].calls is Some {
        f[p].calls->0
    } else {
        Seq::empty()
    }
}

/// Call `n` of message `p` is answered by the `n`-th message after it: a
/// tool result carrying the call's id.
pub open spec fn answered_at(f: Seq<MsgModel>, p: int, n: int) -> bool {
    p + 1 + n < f.len() && f[p + 1 + n].tool && f[p + 1 + n].tool_call_id == Some(calls_at(f, p)[n].id)
}

/// A message at `p` with a call list has at least one call.
pub open spec fn nonempty_calls_at(f: Seq<MsgModel>, p: int) -> bool {
    !f[p].tool && f[p].calls is Some ==> f[p].calls->0.len() > 0
}

/// From `q` on, a message with a call list has at least one call, and is
/// followed by one tool result per call, in call order, each carrying its
/// call's id.
pub open spec fn answered_from(f: Seq<MsgModel>, q: int) -> bool {
    &&& forall|p: int| q <= p < f.len() ==> #[trigger] nonempty_calls_at(f, p)
    &&& forall|p: int, n: int| q <= p < f.len() && 0 <= n < calls_at(f, p).len() ==> #[trigger] answered_at(f, p, n)
}

/// From `q` on, every tool result lies in the run of results right after a
/// message whose calls it answers.
pub open spec fn owned_from(f: Seq<MsgModel>, q: int) -> bool {
    forall|u: int|
        q <= u < f.len() && #[trigger] f[u].tool ==> exists|p: int| q <= p < u && u <= p + calls_at(f, p).len()
}

/// From `q` on, no call id occurs twice, nor among `seen`.
pub open spec fn distinct_from(f: Seq<MsgModel>, q: int, seen: Seq<Seq<char>>) -> bool {
    &&& forall|p: int, n: int|
        #![trigger calls_at(f, p)[n]]
        q <= p < f.len() && 0 <= n < calls_at(f, p).len() ==> !seen.contains(calls_at(f, p)[n].id)
    &&& forall|p: int, n: int, p2: int, n2: int|
        #![trigger calls_at(f, p)[n], calls_at(f, p2)[n2]]
        q <= p < f.len() && 0 <= n < calls_at(f, p).len() && q <= p2 < f.len() && 0 <= n2 < calls_at(f, p2).len()
            && (p != p2 || n != n2) ==> calls_at(f, p)[n].id != calls_at(f, p2)[n2].id
}

proof fn lemma_blocks(msgs: Seq<MsgModel>, i: int, seen: Seq<Seq<char>>, fixed: Seq<MsgModel>, q: int)
    requires
        0 <= i,
        0 <= q,
        fixed.len() == q + repair_from(msgs, i, seen).len(),
        forall|t: int|
            0 <= t < repair_from(msgs, i, seen).len() ==> fixed[q + t] == repaired_step(
                msgs,
                #[trigger] repair_from(msgs, i, seen)[t],
            ),
    ensures
        answered_from(fixed, q),
        owned_from(fixed, q),
        distinct_from(fixed, q, seen),
    decreases msgs.len() - i,
{
    let plan = repair_from(msgs, i, seen);
    if i >= msgs.len() {
    } else if msgs[i].tool {
        lemma_blocks(msgs, i + 1, seen, fixed, q);
    } else {
        match msgs[i].calls {
            None => {
                let rest = repair_from(msgs, i + 1, seen);
                assert(plan == seq![plan[0]] + rest);
                assert forall|t: int| 0 <= t < rest.len() implies fixed[(q + 1) + t] == repaired_step(
                    msgs,
                    #[trigger] rest[t],
                ) by {
                    assert(plan[1 + t] == rest[t]);
                }
                lemma_blocks(msgs, i + 1, seen, fixed, q + 1);
                assert(fixed[q] == repaired_step(msgs, plan[0]));
                assert(calls_at(fixed, q) =~= Seq::<CallModel>::empty());
                assert(fixed[q].calls is None);
                assert forall|p: int, m: int| q <= p < fixed.len() && 0 <= m < calls_at(fixed, p).len() implies #[trigger] answered_at(
                    fixed,
                    p,
                    m,
                ) by {
                    if p > q {
                        assert(answered_at(fixed, p, m));
                    }
                }
                assert forall|u: int| q <= u < fixed.len() && #[trigger] fixed[u].tool implies exists|p: int|
                    q <= p < u && u <= p + calls_at(fixed, p).len() by {
                    assert(u != q);
                    let p = choose|p: int| q + 1 <= p < u && u <= p + calls_at(fixed, p).len();
                }
                assert forall|p: int| q <= p < fixed.len() implies #[trigger] nonempty_calls_at(fixed, p) by {
                    if p > q {
                        assert(nonempty_calls_at(fixed, p));
                    }
                }
            },
            Some(raw) => {
                let k = keep_calls(raw, seen);
                let n = k.0.len() as int;
                let end = results_end(msgs, i + 1);
                lemma_results_end(msgs, i + 1);
                lemma_keep_calls(raw, seen);
                lemma_keep_calls_picked(raw, seen);
                let pk = picked(raw, k.0);
                let ans = answers(msgs, i, raw, k.0, i + 1, end);
                let rest = repair_from(msgs, end, k.1);
                assert(plan == seq![plan[0]] + ans + rest);
                assert forall|t: int| 0 <= t < rest.len() implies fixed[(q + 1 + n) + t] == repaired_step(
                    msgs,
                    #[trigger] rest[t],
                ) by {
                    assert(plan[1 + n + t] == rest[t]);
                }
                lemma_blocks(msgs, end, k.1, fixed, q + 1 + n);
                assert(fixed[q] == repaired_step(msgs, plan[0]));
                assert forall|u: int| #![trigger fixed[u]] q + 1 <= u < q + 1 + n implies fixed[u].tool && fixed[u].tool_call_id
                    == Some(raw[k.0[u - q - 1]].id) by {
                    let t = u - q - 1;
                    assert(plan[1 + t] == ans[t]);
                    assert(fixed[q + (1 + t)] == repaired_step(msgs, plan[1 + t]));
                    lemma_find_result(msgs, i + 1, end, raw[k.0[t]].id);
                }
                assert(calls_at(fixed, q) =~= if n == 0 {
                    Seq::<CallModel>::empty()
                } else {
                    pk
                });
                assert forall|u: int| q + 1 <= u < q + 1 + n implies calls_at(fixed, u) =~= Seq::<CallModel>::empty() by {
                    assert(fixed[u].tool);
                }
                // answered
                assert forall|p: int, m: int| q <= p < fixed.len() && 0 <= m < calls_at(fixed, p).len() implies #[trigger] answered_at(
                    fixed,
                    p,
                    m,
                ) by {
                    if p == q {
                        assert(n > 0);
                        assert(calls_at(fixed, q).len() == n);
                        assert(plan.len() == 1 + n + rest.len());
                        assert(q + 1 + m < fixed.len());
                        assert(calls_at(fixed, q)[m] == raw[k.0[m]]);
                        let u = q + 1 + m;
                        assert(fixed[u].tool);
                        assert(fixed[u].tool_call_id == Some(raw[k.0[u - q - 1]].id));
                        assert(p + 1 + m < fixed.len());
                        assert(fixed[p + 1 + m].tool);
                        assert(fixed[p + 1 + m].tool_call_id == Some(calls_at(fixed, p)[m].id));
                    } else if p < q + 1 + n {
                        assert(fixed[p].tool);
                        assert(calls_at(fixed, p).len() == 0);
                    } else {
                        assert(answered_from(fixed, q + 1 + n));
                        assert(q + 1 + n <= p < fixed.len() && 0 <= m < calls_at(fixed, p).len());
                        assert(answered_at(fixed, p, m));
                    }
                }
                assert forall|p: int| q <= p < fixed.len() implies #[trigger] nonempty_calls_at(fixed, p) by {
                    if p == q {
                        if n > 0 {
                            assert(fixed[q].calls == Some(pk));
                        }
                    } else if p < q + 1 + n {
                        assert(fixed[p].tool);
                    }
                }
                // owned
                assert forall|u: int| q <= u < fixed.len() && #[trigger] fixed[u].tool implies exists|p: int|
                    q <= p < u && u <= p + calls_at(fixed, p).len() by {
                    if u <= q + n {
                        assert(u != q);
                        assert(q <= q < u && u <= q + calls_at(fixed, q).len());
                    } else {
                        let p = choose|p: int| q + 1 + n <= p < u && u <= p + calls_at(fixed, p).len();
                    }
                }
                // distinct
                assert(k.1 == seen + call_ids(pk));
                assert forall|p: int, m: int|
                    #![trigger calls_at(fixed, p)[m]]
                    q <= p < fixed.len() && 0 <= m < calls_at(fixed, p).len() implies !seen.contains(calls_at(fixed, p)[m].id) by {
                    if p == q {
                        assert(calls_at(fixed, q)[m] == raw[k.0[m]]);
                    } else if p < q + 1 + n {
                        assert(calls_at(fixed, p).len() == 0);
                    } else {
                        if seen.contains(calls_at(fixed, p)[m].id) {
                            let t = choose|t: int| 0 <= t < seen.len() && seen[t] == calls_at(fixed, p)[m].id;
                            assert(k.1[t] == seen[t]);
                        }
                    }
                }
                assert forall|p: int, m: int, p2: int, m2: int|
                    #![trigger calls_at(fixed, p)[m], calls_at(fixed, p2)[m2]]
                    q <= p < fixed.len() && 0 <= m < calls_at(fixed, p).len() && q <= p2 < fixed.len() && 0 <= m2
                        < calls_at(fixed, p2).len() && (p != p2 || m != m2) implies calls_at(fixed, p)[m].id != calls_at(
                        fixed,
                        p2,
                    )[m2].id by {
                    if q < p < q + 1 + n {
                        assert(calls_at(fixed, p).len() == 0);
                    } else if q < p2 < q + 1 + n {
                        assert(calls_at(fixed, p2).len() == 0);
                    } else if p == q && p2 == q {
                        assert(calls_at(fixed, q)[m] == raw[k.0[m]]);
                        assert(calls_at(fixed, q)[m2] == raw[k.0[m2]]);
                        if m < m2 {
                        } else {
                        }
                    } else if p == q {
                        assert(calls_at(fixed, q)[m] == raw[k.0[m]]);
                        assert(k.1[seen.len() + m] == raw[k.0[m]].id);
                    } else if p2 == q {
                        assert(calls_at(fixed, q)[m2] == raw[k.0[m2]]);
                        assert(k.1[seen.len() + m2] == raw[k.0[m2]].id);
                    }
                }
            },
        }
    }
}

/// A repaired conversation pairs calls with results: each message with a
/// call list has at least one call and is followed by exactly one result
/// per call, in call order, each carrying its call's id; every result lies
/// in the run of results right after the calls it answers (no orphan
/// reaches the model); and no call id occurs twice.
pub proof fn law_repair_pairs_calls_with_results(msgs: Seq<MsgModel>)
    ensures
        answered_from(spec_repaired(msgs), 0),
        owned_from(spec_repaired(msgs), 0),
        distinct_from(spec_repaired(msgs), 0, Seq::empty()),
{
    let fixed = spec_repaired(msgs);
    let plan = spec_repair(msgs);
    assert forall|t: int| 0 <= t < plan.len() implies fixed[0 + t] == repaired_step(msgs, #[trigger] plan[t]) by {}
    lemma_blocks(msgs, 0, Seq::empty(), fixed, 0);
}

/// The text of the tool result that stands in for one that never arrived
/// (a `Missing` step).
pub fn interrupted_result() -> (s: &'static str)
    ensures
        s@ == "Tool was interrupted; no successful result is available."@,
{
    "Tool was interrupted; no successful result is available."
}

} // verus!
