//! Which history a compaction may fold or summarize. The decisions are
//! pure; the token counts of candidate contexts come from the caller.
use vstd::prelude::*;
use crate::context::{Budget, tool_pointer, utf8_length, spec_tool_pointer, utf8_len};
use crate::error::Error;
use crate::text::{blank, is_blank};

verus! {

/// What compaction needs to know of one history message.
#[derive(Clone, Copy, Debug, PartialEq, Eq, Structural)]
pub struct Entry {
    pub user: bool,
    pub tool: bool,
    /// The message carries a `tool_calls` field.
    pub has_calls: bool,
    /// Characters and UTF-8 bytes of a tool result's text content.
    pub chars: usize,
    pub bytes: usize,
}

/// The switches and limits of automatic compaction.
#[derive(Clone, Copy, Debug, PartialEq, Eq, Structural)]
pub struct Policy {
    pub automatic: bool,
    pub fold: bool,
    pub summarize: bool,
    pub protect_recent: usize,
    pub min_tool_chars: usize,
    pub pin_user: bool,
}

/// What becomes of the pinned user request.
#[derive(Clone, Copy, Debug, PartialEq, Eq, Structural)]
pub enum Pinned {
    /// Keep whatever is pinned now.
    Unchanged,
    /// Pin nothing.
    Clear,
    /// Pin the active user request.
    Active,
}

/// A compaction decision.
#[derive(Debug)]
pub struct Plan {
    /// Tool results shown as archive pointers, the earlier ones included.
    pub folded: Vec<usize>,
    /// Summarize the history before this index, if any.
    pub summary_end: Option<usize>,
    pub pinned: Pinned,
    /// The plan was made under hard pressure.
    pub hard: bool,
}

/// A policy setting is refused unless the ratios are ordered
/// (`0 < target < trigger < 1`), at most 100 recent results are protected,
/// the folding threshold is at most 16 000 characters, and the summary
/// prompt is not blank and holds at most 16 000 bytes.
pub open spec fn policy_refused(ratios_ordered: bool, protect_recent: usize, min_tool_chars: usize, prompt: Seq<char>) -> bool {
    !ratios_ordered || protect_recent > 100 || min_tool_chars > 16_000 || blank(prompt)
        || vstd::utf8::encode_utf8(prompt).len() > 16_000
}

/// Checks a compaction policy before it is stored; whether the ratios are
/// ordered is decided by the caller, which holds them as fractions.
pub fn check_policy(ratios_ordered: bool, protect_recent: usize, min_tool_chars: usize, summary_prompt: &str) -> (r:
    Result<(), Error>)
    ensures
        r is Ok <==> !policy_refused(ratios_ordered, protect_recent, min_tool_chars, summary_prompt@),
        r matches Err(e) ==> e.status == 400 && e.message@
            == "Invalid context policy: require 0 < target_ratio < trigger_ratio < 1, protect_recent <= 100, min_tool_chars <= 16000 and a nonempty summary_prompt <= 16000 bytes"@,
{
    if !ratios_ordered || protect_recent > 100 || min_tool_chars > 16_000 || is_blank(summary_prompt)
        || summary_prompt.as_bytes().len() > 16_000 {
        return Err(Error::new(400, "Invalid context policy: require 0 < target_ratio < trigger_ratio < 1, protect_recent <= 100, min_tool_chars <= 16000 and a nonempty summary_prompt <= 16000 bytes"));
    }
    Ok(())
}

/// The last user message, or `covered` when there is none.
pub open spec fn active_index(e: Seq<Entry>, covered: int) -> int
    decreases e.len(),
{
    if e.len() == 0 {
        covered
    } else if e.last().user {
        e.len() - 1
    } else {
        active_index(e.drop_last(), covered)
    }
}

pub open spec fn has_user(e: Seq<Entry>) -> bool {
    exists|i: int| 0 <= i < e.len() && #[trigger] e[i].user
}

/// Tool results among the messages `from..to`.
pub open spec fn tool_count(e: Seq<Entry>, from: int, to: int) -> int
    decreases to - from,
{
    if to <= from {
        0
    } else {
        tool_count(e, from, to - 1) + if e[to - 1].tool {
            1int
        } else {
            0int
        }
    }
}

/// How many of the newest tool results from `covered` on are protected.
pub open spec fn recent_limit(e: Seq<Entry>, covered: int, protect: int) -> int {
    let n = tool_count(e, covered, e.len() as int);
    if n >= protect {
        n - protect
    } else {
        0
    }
}

/// A tool result that a fold may replace: long enough, and longer than the
/// pointer that would replace it.
pub open spec fn foldable(e: Seq<Entry>, i: int, p: Policy) -> bool {
    e[i].chars > p.min_tool_chars && utf8_len(spec_tool_pointer(i as nat)) < e[i].bytes
}

/// A cut that never separates an assistant's calls from their results.
pub open spec fn boundary(e: Seq<Entry>, covered: int, end: int) -> bool {
    covered < end < e.len() && !e[end].tool && !e[end - 1].has_calls
}

/// The pinned request when the summary ends at `end`.
pub open spec fn final_pin(e: Seq<Entry>, covered: int, p: Policy, end: int) -> Pinned {
    if p.pin_user && active_index(e, covered) < end {
        if has_user(e) {
            Pinned::Active
        } else {
            Pinned::Unchanged
        }
    } else {
        Pinned::Clear
    }
}

/// Some measured count of the current context exceeded the hard budget.
pub open spec fn reported_over<M: Fn(&Vec<usize>) -> usize>(measured: M, hard: usize) -> bool {
    exists|f: &Vec<usize>, n: usize| #[trigger] call_ensures(measured, (f,), n) && n > hard
}

fn find_active(e: &Vec<Entry>, covered: usize) -> (r: (usize, bool))
    ensures
        r.0 == active_index(e@, covered as int),
        r.1 == has_user(e@),
        r.1 ==> r.0 < e.len() && e@[r.0 as int].user,
        !r.1 ==> r.0 == covered,
        forall|j: int| r.0 < j < e.len() ==> !(#[trigger] e@[j]).user,
{
    let mut i = e.len();
    proof {
        assert(e@.take(i as int) =~= e@);
    }
    while i > 0
        invariant
            i <= e.len(),
            forall|j: int| i <= j < e.len() ==> !(#[trigger] e@[j]).user,
            active_index(e@, covered as int) == active_index(e@.take(i as int), covered as int),
        decreases i,
    {
        proof {
            assert(e@.take(i - 1) =~= e@.take(i as int).drop_last());
        }
        if e[i - 1].user {
            proof {
                assert(e@.take(i as int).last() == e@[i - 1]);
            }
            return (i - 1, true);
        }
        i = i - 1;
    }
    proof {
        assert(e@.take(0) =~= Seq::<Entry>::empty());
        assert(!has_user(e@));
    }
    (covered, false)
}

fn tool_results(e: &Vec<Entry>, covered: usize) -> (r: Vec<usize>)
    ensures
        r.len() == tool_count(e@, covered as int, e.len() as int),
        forall|k: int|
            0 <= k < r.len() ==> covered <= #[trigger] r@[k] < e.len() && e@[r@[k] as int].tool
                && tool_count(e@, covered as int, r@[k] as int) == k,
        forall|j: int|
            covered <= j < e.len() && (#[trigger] e@[j]).tool ==> 0 <= tool_count(e@, covered as int, j)
                < r.len() && r@[tool_count(e@, covered as int, j)] == j,
{
    let mut r: Vec<usize> = Vec::new();
    if covered >= e.len() {
        return r;
    }
    let mut i = covered;
    while i < e.len()
        invariant
            covered <= i <= e.len(),
            r.len() == tool_count(e@, covered as int, i as int),
            forall|k: int|
                0 <= k < r.len() ==> covered <= #[trigger] r@[k] < i && e@[r@[k] as int].tool
                    && tool_count(e@, covered as int, r@[k] as int) == k,
            forall|j: int|
                covered <= j < i && (#[trigger] e@[j]).tool ==> 0 <= tool_count(e@, covered as int, j)
                    < r.len() && r@[tool_count(e@, covered as int, j)] == j,
        decreases e.len() - i,
    {
        proof {
            lemma_tool_count_monotone(e@, covered as int, i as int);
        }
        if e[i].tool {
            r.push(i);
        }
        i = i + 1;
    }
    r
}

proof fn lemma_tool_count_monotone(e: Seq<Entry>, from: int, to: int)
    requires
        from <= to,
    ensures
        forall|j: int| from <= j <= to ==> 0 <= #[trigger] tool_count(e, from, j) <= tool_count(e, from, to),
    decreases to - from,
{
    if from < to {
        lemma_tool_count_monotone(e, from, to - 1);
        assert(tool_count(e, from, to) == tool_count(e, from, to - 1) + if e[to - 1].tool {
            1int
        } else {
            0int
        });
        assert(0 <= tool_count(e, from, to - 1));
        assert forall|j: int| from <= j <= to implies 0 <= #[trigger] tool_count(e, from, j) <= tool_count(
            e,
            from,
            to,
        ) by {
            if j < to {
                assert(tool_count(e, from, j) <= tool_count(e, from, to - 1));
            }
        }
    }
}

fn contains(v: &Vec<usize>, x: usize) -> (r: bool)
    ensures
        r == v@.contains(x),
{
    for i in 0..v.len()
        invariant
            forall|j: int| 0 <= j < i ==> v@[j] != x,
    {
        if v[i] == x {
            proof {
                assert(v@[i as int] == x);
            }
            return true;
        }
    }
    false
}

fn copy_indexes(v: &Vec<usize>) -> (r: Vec<usize>)
    ensures
        r@ == v@,
{
    let mut r: Vec<usize> = Vec::new();
    for i in 0..v.len()
        invariant
            r@ == v@.take(i as int),
    {
        r.push(v[i]);
        proof {
            assert(v@.take(i + 1) == v@.take(i as int).push(v@[i as int]));
        }
    }
    proof {
        assert(v@.take(v.len() as int) =~= v@);
    }
    r
}

fn pointer_shorter(index: usize, bytes: usize) -> (r: bool)
    ensures
        r == (utf8_len(spec_tool_pointer(index as nat)) < bytes),
{
    let p = tool_pointer(index);
    utf8_length(p.as_str()) < bytes as u128
}

/// A fold that the plan may add: a foldable tool result from `covered` on,
/// before the active request or already consumed by the model, and under
/// normal pressure older than the active request and not among the
/// protected newest results.
pub open spec fn allowed_fold(
    e: Seq<Entry>,
    covered: int,
    consumed: int,
    p: Policy,
    hard: bool,
    i: int,
) -> bool {
    let active = active_index(e, covered);
    &&& p.fold
    &&& covered <= i < e.len()
    &&& e[i].tool
    &&& foldable(e, i, p)
    &&& (i < active || i < consumed)
    &&& (!hard ==> i < active && tool_count(e, covered, i) < recent_limit(
        e,
        covered,
        p.protect_recent as int,
    ))
}

/// An end the plan may summarize to.
pub open spec fn allowed_end(e: Seq<Entry>, covered: int, consumed: int, p: Policy, hard: bool, end: int) -> bool {
    let active = active_index(e, covered);
    &&& p.summarize
    &&& boundary(e, covered, end)
    &&& end != active + 1
    &&& (hard ==> end <= active || end <= consumed)
    &&& (!hard ==> end <= active && forall|j: int|
        covered <= j < e.len() && #[trigger] e[j].tool && tool_count(e, covered, j) >= recent_limit(
            e,
            covered,
            p.protect_recent as int,
        ) ==> end <= j)
}

/// Measuring the context with the folds `s` gave more than `limit`.
pub open spec fn measured_over<M: Fn(&Vec<usize>) -> usize>(measured: M, s: Seq<usize>, limit: usize) -> bool {
    exists|f: &Vec<usize>, n: usize| f@ == s && #[trigger] call_ensures(measured, (f,), n) && n > limit
}

/// Every count of the context with the folds `s` was above `limit`.
pub open spec fn measured_all_over<M: Fn(&Vec<usize>) -> usize>(measured: M, s: Seq<usize>, limit: usize) -> bool {
    forall|f: &Vec<usize>, n: usize| f@ == s && #[trigger] call_ensures(measured, (f,), n) ==> n > limit
}

/// Measuring the context with the folds `s` gave at most `limit`.
pub open spec fn measured_within<M: Fn(&Vec<usize>) -> usize>(measured: M, s: Seq<usize>, limit: usize) -> bool {
    exists|f: &Vec<usize>, n: usize| f@ == s && #[trigger] call_ensures(measured, (f,), n) && n <= limit
}

/// The pinned request that a candidate summary ending at `end` is counted with.
pub open spec fn candidate_pin(e: Seq<Entry>, covered: int, p: Policy, end: int) -> Pinned {
    if p.pin_user && active_index(e, covered) < end && has_user(e) {
        Pinned::Active
    } else {
        Pinned::Unchanged
    }
}

/// Counting the context summarized before `end`, with the folds `s`, gave
/// more than `limit`.
pub open spec fn summarized_over<S: Fn(usize, &Vec<usize>, Pinned) -> usize>(
    summarized: S,
    end: int,
    s: Seq<usize>,
    pin: Pinned,
    limit: usize,
) -> bool {
    exists|f: &Vec<usize>, n: usize| f@ == s && #[trigger] call_ensures(summarized, (end as usize, f, pin), n) && n > limit
}

/// Counting the context summarized before `end`, with the folds `s`, gave at
/// most `limit`.
pub open spec fn summarized_within<S: Fn(usize, &Vec<usize>, Pinned) -> usize>(
    summarized: S,
    end: int,
    s: Seq<usize>,
    pin: Pinned,
    limit: usize,
) -> bool {
    exists|f: &Vec<usize>, n: usize| f@ == s && #[trigger] call_ensures(summarized, (end as usize, f, pin), n) && n <= limit
}

/// Not forced, and every count of the current context is within the hard
/// budget and, where compaction is automatic, within the trigger.
pub open spec fn no_pressure<M: Fn(&Vec<usize>) -> usize>(
    measured: M,
    folded: &Vec<usize>,
    budget: Budget,
    p: Policy,
    force: bool,
) -> bool {
    !force && forall|n: usize| #[trigger] call_ensures(measured, (folded,), n) ==> n <= budget.hard && (
    !p.automatic || n <= budget.trigger)
}

/// Forced, or every count of the current context is above the hard budget
/// or, where compaction is automatic, above the trigger.
pub open spec fn under_pressure<M: Fn(&Vec<usize>) -> usize>(
    measured: M,
    folded: &Vec<usize>,
    budget: Budget,
    p: Policy,
    force: bool,
) -> bool {
    force || forall|n: usize| #[trigger] call_ensures(measured, (folded,), n) ==> n > budget.hard || (
    p.automatic && n > budget.trigger)
}

proof fn lemma_push_keeps(s: Seq<usize>, x: usize, y: usize)
    requires
        s.contains(y),
    ensures
        s.push(x).contains(y),
{
    let j = choose|j: int| 0 <= j < s.len() && s[j] == y;
    assert(s.push(x)[j] == y);
}

/// Decides what a compaction folds and summarizes. `measured` counts the
/// context with a set of folded results, `summarized` a candidate context
/// summarized before an index. Without pressure nothing changes. Under
/// pressure the allowed tool results are folded oldest first, stopping as
/// soon as a count is at or below the target; if folding does not get there,
/// the first allowed summary end whose count is at or below the target is
/// chosen (else the last allowed one). Only tool results before the active
/// request or already consumed are folded; normal pressure never touches the
/// active turn or the newest protected results. Hard pressure is declared
/// when forced or when the first count exceeds the hard budget, and only
/// when forced or some count exceeded it; under hard pressure, unless a fold
/// reaches the target or the count falls to the trigger, every result that
/// emergency recovery may fold is folded. Under pressure, unless either of
/// those ends it, a summary end is chosen wherever one is allowed.
#[verifier::rlimit(100)]
#[verifier::spinoff_prover]
pub fn plan<M, S>(
    entries: &Vec<Entry>,
    covered: usize,
    folded: &Vec<usize>,
    consumed: usize,
    budget: Budget,
    force: bool,
    policy: Policy,
    measured: M,
    summarized: S,
) -> (r: Plan) where M: Fn(&Vec<usize>) -> usize, S: Fn(usize, &Vec<usize>, Pinned) -> usize
    requires
        forall|f: &Vec<usize>| call_requires(measured, (f,)),
        forall|end: usize, f: &Vec<usize>, pin: Pinned| call_requires(summarized, (end, f, pin)),
    ensures
        r.folded@.len() >= folded@.len(),
        r.folded@.take(folded@.len() as int) == folded@,
        forall|k: int|
            folded@.len() <= k < r.folded@.len() ==> !folded@.contains(#[trigger] r.folded@[k])
                && allowed_fold(entries@, covered as int, consumed as int, policy, r.hard, r.folded@[k] as int),
        r.summary_end matches Some(end) ==> allowed_end(
            entries@,
            covered as int,
            consumed as int,
            policy,
            r.hard,
            end as int,
        ),
        r.pinned == match r.summary_end {
            Some(end) => final_pin(entries@, covered as int, policy, end as int),
            None => Pinned::Unchanged,
        },
        r.hard ==> force || reported_over(measured, budget.hard),
        force || measured_all_over(measured, folded@, budget.hard) ==> r.hard,
        under_pressure(measured, folded, budget, policy, force) && policy.summarize && !(r.folded@.len()
            > folded@.len() && measured_within(measured, r.folded@, budget.target)) && !(!force
            && measured_within(measured, r.folded@, budget.trigger)) && (exists|end2: int|
            #[trigger] allowed_end(entries@, covered as int, consumed as int, policy, r.hard, end2))
            ==> r.summary_end is Some,
        r.hard && !(r.folded@.len() > folded@.len() && measured_within(measured, r.folded@, budget.target))
            && !(!force && measured_within(measured, r.folded@, budget.trigger)) ==> forall|i: int|
            #[trigger] allowed_fold(entries@, covered as int, consumed as int, policy, true, i)
                ==> r.folded@.contains(i as usize),
        no_pressure(measured, folded, budget, policy, force) ==> r.folded@ == folded@ && r.summary_end is None
            && r.pinned == Pinned::Unchanged && !r.hard,
        forall|k: int|
            folded@.len() <= k && k + 1 < r.folded@.len() ==> measured_over(
                measured,
                #[trigger] r.folded@.take(k + 1),
                budget.target,
            ),
        r.summary_end is Some ==> forall|k: int|
            folded@.len() <= k < r.folded@.len() ==> measured_over(
                measured,
                #[trigger] r.folded@.take(k + 1),
                budget.target,
            ),
        under_pressure(measured, folded, budget, policy, force) && !(r.folded@.len() > folded@.len()
            && measured_within(measured, r.folded@, budget.target)) ==> forall|i: int|
            #[trigger] allowed_fold(entries@, covered as int, consumed as int, policy, false, i)
                ==> r.folded@.contains(i as usize),
        r.summary_end is Some && r.hard ==> forall|i: int|
            #[trigger] allowed_fold(entries@, covered as int, consumed as int, policy, true, i)
                ==> r.folded@.contains(i as usize),
        r.summary_end matches Some(end) ==> forall|end2: int|
            covered < end2 < end && #[trigger] allowed_end(
                entries@,
                covered as int,
                consumed as int,
                policy,
                r.hard,
                end2,
            ) ==> summarized_over(
                summarized,
                end2,
                r.folded@,
                candidate_pin(entries@, covered as int, policy, end2),
                budget.target,
            ),
        r.summary_end matches Some(end) ==> summarized_within(
            summarized,
            end as int,
            r.folded@,
            candidate_pin(entries@, covered as int, policy, end as int),
            budget.target,
        ) || forall|end2: int|
            end < end2 ==> !#[trigger] allowed_end(
                entries@,
                covered as int,
                consumed as int,
                policy,
                r.hard,
                end2,
            ),
{
    let initial = measured(folded);
    let mut current = copy_indexes(folded);
    let mut hard = force || initial > budget.hard;
    proof {
        if initial > budget.hard {
            assert(call_ensures(measured, (folded,), initial));
        }
    }
    proof {
        assert(current@ =~= folded@);
        if force || measured_all_over(measured, folded@, budget.hard) {
            assert(hard);
        }
    }
    if !hard && (!policy.automatic || initial <= budget.trigger) {
        proof {
            assert(!under_pressure(measured, folded, budget, policy, force));
        }
        return Plan { folded: current, summary_end: None, pinned: Pinned::Unchanged, hard };
    }
    let (active, any_user) = find_active(entries, covered);
    let results = tool_results(entries, covered);
    let recent = if results.len() >= policy.protect_recent {
        results.len() - policy.protect_recent
    } else {
        0
    };
    let ghost e = entries@;
    proof {
        assert(!no_pressure(measured, folded, budget, policy, force)) by {
            if no_pressure(measured, folded, budget, policy, force) {
                assert(call_ensures(measured, (folded,), initial));
            }
        }
    }
    let mut emergency = false;
    let ghost mut passed_normal = false;
    let ghost mut passed_hard = false;
    loop
        invariant
            e == entries@,
            active == active_index(e, covered as int),
            recent == recent_limit(e, covered as int, policy.protect_recent as int),
            results.len() == tool_count(e, covered as int, e.len() as int),
            forall|k: int|
                0 <= k < results.len() ==> covered <= #[trigger] results@[k] < e.len()
                    && e[results@[k] as int].tool && tool_count(e, covered as int, results@[k] as int) == k,
            forall|j: int|
                covered <= j < e.len() && (#[trigger] e[j]).tool ==> 0 <= tool_count(e, covered as int, j)
                    < results.len() && results@[tool_count(e, covered as int, j)] == j,
            current@.len() >= folded@.len(),
            current@.take(folded@.len() as int) == folded@,
            forall|k: int|
                folded@.len() <= k < current@.len() ==> !folded@.contains(#[trigger] current@[k])
                    && allowed_fold(e, covered as int, consumed as int, policy, hard, current@[k] as int),
            forall|k: int|
                folded@.len() <= k < current@.len() ==> measured_over(
                    measured,
                    #[trigger] current@.take(k + 1),
                    budget.target,
                ),
            hard ==> force || reported_over(measured, budget.hard),
            force || measured_all_over(measured, folded@, budget.hard) ==> hard,
            call_ensures(measured, (folded,), initial),
            hard || (policy.automatic && initial > budget.trigger),
            force ==> hard,
            emergency ==> passed_normal,
            !no_pressure(measured, folded, budget, policy, force),
            passed_normal ==> forall|i: int|
                #[trigger] allowed_fold(e, covered as int, consumed as int, policy, false, i)
                    ==> current@.contains(i as usize),
            passed_hard ==> hard && forall|i: int|
                #[trigger] allowed_fold(e, covered as int, consumed as int, policy, true, i)
                    ==> current@.contains(i as usize),
            forall|f: &Vec<usize>| call_requires(measured, (f,)),
        ensures
            passed_normal,
            hard ==> passed_hard,
            force || measured_all_over(measured, folded@, budget.hard) ==> hard,
            current@.len() >= folded@.len(),
            current@.take(folded@.len() as int) == folded@,
            forall|k: int|
                folded@.len() <= k < current@.len() ==> !folded@.contains(#[trigger] current@[k])
                    && allowed_fold(e, covered as int, consumed as int, policy, hard, current@[k] as int),
            forall|k: int|
                folded@.len() <= k < current@.len() ==> measured_over(
                    measured,
                    #[trigger] current@.take(k + 1),
                    budget.target,
                ),
            hard ==> force || reported_over(measured, budget.hard),
            passed_normal ==> forall|i: int|
                #[trigger] allowed_fold(e, covered as int, consumed as int, policy, false, i)
                    ==> current@.contains(i as usize),
            passed_hard ==> hard && forall|i: int|
                #[trigger] allowed_fold(e, covered as int, consumed as int, policy, true, i)
                    ==> current@.contains(i as usize),
        decreases (if emergency { 0int } else { 1int }),
    {
        if emergency {
            let now = measured(&current);
            proof {
                if now > budget.hard {
                    assert(call_ensures(measured, (&current,), now));
                }
            }
            if now > budget.hard {
                hard = true;
            }
            if !hard {
                break;
            }
        }
        if policy.fold {
            let mut ordinal: usize = 0;
            while ordinal < results.len()
                invariant
                    e == entries@,
                    active == active_index(e, covered as int),
                    recent == recent_limit(e, covered as int, policy.protect_recent as int),
                    ordinal <= results.len(),
                    forall|k: int|
                        0 <= k < results.len() ==> covered <= #[trigger] results@[k] < e.len()
                            && e[results@[k] as int].tool && tool_count(e, covered as int, results@[k] as int)
                            == k,
                    current@.len() >= folded@.len(),
                    current@.take(folded@.len() as int) == folded@,
                    forall|k: int|
                        folded@.len() <= k < current@.len() ==> !folded@.contains(#[trigger] current@[k])
                            && allowed_fold(e, covered as int, consumed as int, policy, hard, current@[k] as int),
                    forall|k: int|
                        folded@.len() <= k < current@.len() ==> measured_over(
                            measured,
                            #[trigger] current@.take(k + 1),
                            budget.target,
                        ),
                    hard ==> force || reported_over(measured, budget.hard),
                    force || measured_all_over(measured, folded@, budget.hard) ==> hard,
                    emergency ==> hard,
                    policy.fold,
                    !no_pressure(measured, folded, budget, policy, force),
                    forall|k: int|
                        0 <= k < ordinal && #[trigger] allowed_fold(
                            e,
                            covered as int,
                            consumed as int,
                            policy,
                            emergency,
                            results@[k] as int,
                        ) ==> current@.contains(results@[k]),
                    passed_normal ==> forall|i: int|
                        #[trigger] allowed_fold(e, covered as int, consumed as int, policy, false, i)
                            ==> current@.contains(i as usize),
                    passed_hard ==> forall|i: int|
                        #[trigger] allowed_fold(e, covered as int, consumed as int, policy, true, i)
                            ==> current@.contains(i as usize),
                    forall|f: &Vec<usize>| call_requires(measured, (f,)),
                decreases results.len() - ordinal,
            {
                let index = results[ordinal];
                let skip = contains(&current, index) || (!emergency && (index >= active || ordinal >= recent))
                    || (index >= active && index >= consumed);
                if !skip && entries[index].chars > policy.min_tool_chars && pointer_shorter(
                    index,
                    entries[index].bytes,
                ) {
                    let ghost before = current@;
                    proof {
                        if folded@.contains(index) {
                            let j = choose|j: int| 0 <= j < folded@.len() && folded@[j] == index;
                            assert(before.take(folded@.len() as int)[j] == before[j]);
                            assert(before.contains(index));
                        }
                    }
                    current.push(index);
                    proof {
                        assert(current@.take(folded@.len() as int) =~= before.take(folded@.len() as int));
                        assert forall|k: int| folded@.len() <= k < before.len() implies measured_over(
                            measured,
                            #[trigger] current@.take(k + 1),
                            budget.target,
                        ) by {
                            assert(current@.take(k + 1) =~= before.take(k + 1));
                        }
                        assert forall|k: int|
                            0 <= k < ordinal && #[trigger] allowed_fold(
                                e,
                                covered as int,
                                consumed as int,
                                policy,
                                emergency,
                                results@[k] as int,
                            ) implies current@.contains(results@[k]) by {
                            lemma_push_keeps(before, index, results@[k]);
                        }
                        assert(current@[before.len() as int] == index);
                        assert(current@.contains(index));
                        if passed_normal {
                            assert forall|i: int|
                                #[trigger] allowed_fold(e, covered as int, consumed as int, policy, false, i)
                                    implies current@.contains(i as usize) by {
                                lemma_push_keeps(before, index, i as usize);
                            }
                        }
                        if passed_hard {
                            assert forall|i: int|
                                #[trigger] allowed_fold(e, covered as int, consumed as int, policy, true, i)
                                    implies current@.contains(i as usize) by {
                                lemma_push_keeps(before, index, i as usize);
                            }
                        }
                    }
                    let count = measured(&current);
                    proof {
                        assert(current@.take(current@.len() as int) =~= current@);
                    }
                    if count <= budget.target {
                        proof {
                            assert(call_ensures(measured, (&current,), count));
                            assert(measured_within(measured, current@, budget.target));
                        }
                        return Plan { folded: current, summary_end: None, pinned: Pinned::Unchanged, hard };
                    }
                    proof {
                        assert(call_ensures(measured, (&current,), count));
                        assert(measured_over(measured, current@.take(before.len() + 1int), budget.target));
                    }
                } else {
                    proof {
                        if !contains_spec(current@, index) {
                            assert(!allowed_fold(e, covered as int, consumed as int, policy, emergency, index as int));
                        }
                    }
                }
                ordinal = ordinal + 1;
            }
            proof {
                assert forall|i: int|
                    #[trigger] allowed_fold(e, covered as int, consumed as int, policy, emergency, i)
                        implies current@.contains(i as usize) by {
                    let k = tool_count(e, covered as int, i);
                    assert(results@[k] == i);
                }
            }
        }
        proof {
            if !emergency {
                passed_normal = true;
            } else {
                passed_hard = true;
            }
        }
        let count = measured(&current);
        if count <= budget.trigger && !force {
            proof {
                assert(call_ensures(measured, (&current,), count));
                assert(measured_within(measured, current@, budget.trigger));
            }
            return Plan { folded: current, summary_end: None, pinned: Pinned::Unchanged, hard };
        }
        if emergency {
            break;
        }
        emergency = true;
    }
    let mut summary_end: Option<usize> = None;
    if policy.summarize {
        let ceiling = if hard {
            if consumed >= active {
                consumed
            } else {
                active
            }
        } else if recent < results.len() && results[recent] < active {
            results[recent]
        } else {
            active
        };
        proof {
            if !hard && recent < results.len() {
                assert forall|j: int|
                    covered <= j < e.len() && #[trigger] e[j].tool && tool_count(e, covered as int, j)
                        >= recent implies ceiling <= j by {
                    lemma_tool_result_order(e, covered as int, results@, recent as int, j);
                }
            }
            if !hard && recent >= results.len() {
                assert forall|j: int|
                    covered <= j < e.len() && #[trigger] e[j].tool && tool_count(e, covered as int, j)
                        >= recent implies ceiling <= j by {
                    lemma_tool_count_monotone(e, covered as int, e.len() as int);
                    lemma_tool_count_step(e, covered as int, j);
                }
            }
            assert forall|end2: int|
                #[trigger] allowed_end(e, covered as int, consumed as int, policy, hard, end2) implies end2
                    <= ceiling by {
                if !hard && recent < results.len() && results@[recent as int] < active {
                    let j = results@[recent as int] as int;
                    assert(e[j].tool);
                }
            }
        }
        let mut end = if covered < entries.len() {
            covered + 1
        } else {
            entries.len()
        };
        while end < entries.len()
            invariant
                e == entries@,
                active == active_index(e, covered as int),
                any_user == has_user(e),
                policy.summarize,
                hard ==> ceiling == if consumed >= active { consumed } else { active },
                !hard ==> ceiling <= active && forall|j: int|
                    covered <= j < e.len() && #[trigger] e[j].tool && tool_count(e, covered as int, j)
                        >= recent_limit(e, covered as int, policy.protect_recent as int) ==> ceiling <= j,
                forall|end2: int|
                    #[trigger] allowed_end(e, covered as int, consumed as int, policy, hard, end2) ==> end2 <= ceiling,
                covered < end || end == e.len(),
                summary_end matches Some(s) ==> allowed_end(e, covered as int, consumed as int, policy, hard, s as int),
                summary_end matches Some(s) ==> s <= end && forall|end2: int|
                    s < end2 < end ==> !#[trigger] allowed_end(e, covered as int, consumed as int, policy, hard, end2),
                summary_end is None ==> forall|end2: int|
                    end2 < end ==> !#[trigger] allowed_end(e, covered as int, consumed as int, policy, hard, end2),
                forall|end2: int|
                    covered < end2 < end && #[trigger] allowed_end(
                        e,
                        covered as int,
                        consumed as int,
                        policy,
                        hard,
                        end2,
                    ) ==> summarized_over(
                        summarized,
                        end2,
                        current@,
                        candidate_pin(e, covered as int, policy, end2),
                        budget.target,
                    ),
                forall|end: usize, f: &Vec<usize>, pin: Pinned| call_requires(summarized, (end, f, pin)),
            ensures
                summary_end is None ==> forall|end2: int|
                    !#[trigger] allowed_end(e, covered as int, consumed as int, policy, hard, end2),
                summary_end matches Some(s) ==> summarized_within(
                    summarized,
                    s as int,
                    current@,
                    candidate_pin(e, covered as int, policy, s as int),
                    budget.target,
                ) || forall|end2: int|
                    s < end2 ==> !#[trigger] allowed_end(e, covered as int, consumed as int, policy, hard, end2),
            decreases entries.len() - end,
        {
            if !entries[end].tool && !entries[end - 1].has_calls {
                if end > ceiling {
                    break;
                }
                let pinned_only = policy.pin_user && active == covered && end - 1 == active;
                if !pinned_only && end - 1 != active {
                    summary_end = Some(end);
                    let pin = if policy.pin_user && active < end && any_user {
                        Pinned::Active
                    } else {
                        Pinned::Unchanged
                    };
                    let tokens = summarized(end, &current, pin);
                    proof {
                        assert(pin == candidate_pin(e, covered as int, policy, end as int));
                        assert(call_ensures(summarized, (end, &current, pin), tokens));
                    }
                    if tokens <= budget.target {
                        proof {
                            assert(summarized_within(summarized, end as int, current@, pin, budget.target));
                        }
                        break;
                    }
                    proof {
                        assert(summarized_over(summarized, end as int, current@, pin, budget.target));
                    }
                }
            }
            end = end + 1;
        }
    }
    let pinned = match summary_end {
        Some(end) => if policy.pin_user && active < end {
            if any_user {
                Pinned::Active
            } else {
                Pinned::Unchanged
            }
        } else {
            Pinned::Clear
        },
        None => Pinned::Unchanged,
    };
    Plan { folded: current, summary_end, pinned, hard }
}

pub open spec fn contains_spec(s: Seq<usize>, x: usize) -> bool {
    s.contains(x)
}

proof fn lemma_tool_count_step(e: Seq<Entry>, from: int, j: int)
    requires
        from <= j < e.len(),
    ensures
        tool_count(e, from, j + 1) == tool_count(e, from, j) + if e[j].tool { 1int } else { 0int },
{
}

proof fn lemma_tool_result_order(e: Seq<Entry>, covered: int, results: Seq<usize>, k: int, j: int)
    requires
        0 <= k < results.len(),
        results.len() == tool_count(e, covered, e.len() as int),
        forall|m: int|
            0 <= m < results.len() ==> covered <= #[trigger] results[m] < e.len() && e[results[m] as int].tool
                && tool_count(e, covered, results[m] as int) == m,
        covered <= j < e.len(),
        e[j].tool,
        tool_count(e, covered, j) >= k,
    ensures
        results[k] <= j,
{
    let r = results[k] as int;
    if j < r {
        lemma_tool_count_monotone(e, covered, r);
        lemma_tool_count_step(e, covered, j);
        lemma_tool_count_monotone(e, j + 1, r);
        lemma_tool_count_split(e, covered, j + 1, r);
    }
}

proof fn lemma_tool_count_split(e: Seq<Entry>, a: int, b: int, c: int)
    requires
        a <= b <= c,
    ensures
        tool_count(e, a, c) == tool_count(e, a, b) + tool_count(e, b, c),
    decreases c - b,
{
    if b < c {
        lemma_tool_count_split(e, a, b, c - 1);
    }
}

} // verus!
