//! The decisions of a conversation turn between model requests: how many
//! requests it may make, when a refused request is retried on a smaller
//! context, how a request ended, and the usage totals kept per chat.
use vstd::prelude::*;
use crate::error::Error;
use crate::text::{decimal, push_decimal};

verus! {

/// How many model requests a turn may make: the configured number, else
/// 100, kept within 1..=1000.
pub fn iteration_limit(max_iters: Option<u64>) -> (n: u64)
    ensures
        n == match max_iters {
            None => 100,
            Some(m) => if m < 1 {
                1
            } else if m > 1000 {
                1000
            } else {
                m
            },
        },
{
    match max_iters {
        None => 100,
        Some(m) => if m < 1 {
            1
        } else if m > 1000 {
            1000
        } else {
            m
        },
    }
}

/// A request refused as too large (413) before the model produced any text,
/// call or reasoning is made again on a smaller context.
pub fn retry_smaller(error_status: Option<u16>, text_empty: bool, calls_empty: bool, reasoning_empty: bool) -> (r:
    bool)
    ensures
        r == (error_status == Some(413u16) && text_empty && calls_empty && reasoning_empty),
{
    match error_status {
        Some(s) => s == 413 && text_empty && calls_empty && reasoning_empty,
        None => false,
    }
}

/// How a model request ended.
#[derive(Clone, Copy, Debug, PartialEq, Eq, Structural)]
pub enum Outcome {
    Cancelled,
    Failed,
    Completed,
}

/// Cancellation wins over failure, failure over completion.
pub fn outcome(cancelled: bool, failed: bool) -> (o: Outcome)
    ensures
        o == if cancelled {
            Outcome::Cancelled
        } else if failed {
            Outcome::Failed
        } else {
            Outcome::Completed
        },
{
    if cancelled {
        Outcome::Cancelled
    } else if failed {
        Outcome::Failed
    } else {
        Outcome::Completed
    }
}

impl Outcome {
    /// The status written to the message frames.
    pub fn name(self) -> (s: &'static str)
        ensures
            s@ == match self {
                Outcome::Cancelled => "cancelled"@,
                Outcome::Failed => "failed"@,
                Outcome::Completed => "completed"@,
            },
    {
        match self {
            Outcome::Cancelled => "cancelled",
            Outcome::Failed => "failed",
            Outcome::Completed => "completed",
        }
    }
}

/// The token counts a provider reported for one request; `None` where a
/// count is absent or not an unsigned integer.
#[derive(Clone, Copy, Debug, PartialEq, Eq, Structural)]
pub struct Usage {
    pub input_tokens: Option<u64>,
    pub output_tokens: Option<u64>,
    pub cached_input_tokens: Option<u64>,
}

/// The usage totals of a chat; `None` where a total is absent or not an
/// unsigned integer.
#[derive(Clone, Copy, Debug, PartialEq, Eq, Structural)]
pub struct UsageTotals {
    pub input_tokens: Option<u64>,
    pub output_tokens: Option<u64>,
    pub cached_input_tokens: Option<u64>,
    pub reported_requests: Option<u64>,
    pub cache_observed_input_tokens: Option<u64>,
    pub cache_observed_requests: Option<u64>,
}

pub open spec fn or_zero(o: Option<u64>) -> int {
    match o {
        Some(n) => n as int,
        None => 0,
    }
}

/// A total with a reported count added, saturating; unchanged where
/// nothing was reported.
pub open spec fn summed(total: Option<u64>, add: Option<u64>) -> Option<u64> {
    match add {
        None => total,
        Some(n) => Some(if or_zero(total) + n > u64::MAX { u64::MAX } else { (or_zero(total) + n) as u64 }),
    }
}

/// The cache is observed on a request that reports both its input and its
/// cached input tokens.
pub open spec fn cache_observed(u: Usage) -> bool {
    u.input_tokens is Some && u.cached_input_tokens is Some
}

fn add_saturating(total: Option<u64>, add: Option<u64>) -> (r: Option<u64>)
    ensures
        r == summed(total, add),
{
    match add {
        None => total,
        Some(n) => {
            let t: u64 = match total {
                Some(t) => t,
                None => 0,
            };
            Some(t.saturating_add(n))
        },
    }
}

/// Adds a request's reported usage to a chat's totals. The token totals
/// saturate; the request counts, and the input seen with the cache, count
/// up by one request.
pub fn add_usage(totals: UsageTotals, usage: Usage) -> (r: UsageTotals)
    requires
        or_zero(totals.reported_requests) < u64::MAX,
        cache_observed(usage) ==> or_zero(totals.cache_observed_requests) < u64::MAX && or_zero(
            totals.cache_observed_input_tokens,
        ) + or_zero(usage.input_tokens) <= u64::MAX,
    ensures
        r.input_tokens == summed(totals.input_tokens, usage.input_tokens),
        r.output_tokens == summed(totals.output_tokens, usage.output_tokens),
        r.cached_input_tokens == summed(totals.cached_input_tokens, usage.cached_input_tokens),
        r.reported_requests == Some((or_zero(totals.reported_requests) + 1) as u64),
        cache_observed(usage) ==> r.cache_observed_input_tokens == Some(
            (or_zero(totals.cache_observed_input_tokens) + or_zero(usage.input_tokens)) as u64,
        ) && r.cache_observed_requests == Some((or_zero(totals.cache_observed_requests) + 1) as u64),
        !cache_observed(usage) ==> r.cache_observed_input_tokens == totals.cache_observed_input_tokens
            && r.cache_observed_requests == totals.cache_observed_requests,
{
    let requests: u64 = match totals.reported_requests {
        Some(n) => n,
        None => 0,
    };
    let mut r = UsageTotals {
        input_tokens: add_saturating(totals.input_tokens, usage.input_tokens),
        output_tokens: add_saturating(totals.output_tokens, usage.output_tokens),
        cached_input_tokens: add_saturating(totals.cached_input_tokens, usage.cached_input_tokens),
        reported_requests: Some(requests + 1),
        cache_observed_input_tokens: totals.cache_observed_input_tokens,
        cache_observed_requests: totals.cache_observed_requests,
    };
    if let (Some(input), Some(_)) = (usage.input_tokens, usage.cached_input_tokens) {
        let seen: u64 = match totals.cache_observed_input_tokens {
            Some(n) => n,
            None => 0,
        };
        let observed: u64 = match totals.cache_observed_requests {
            Some(n) => n,
            None => 0,
        };
        r.cache_observed_input_tokens = Some(seen + input);
        r.cache_observed_requests = Some(observed + 1);
    }
    r
}

/// The provider's count anchors later estimates only for a request that
/// succeeded and reported its input tokens.
pub fn anchors(succeeded: bool, usage: Option<Usage>) -> (r: bool)
    ensures
        r == (succeeded && usage is Some && usage->0.input_tokens is Some),
{
    match usage {
        Some(u) => succeeded && u.input_tokens.is_some(),
        None => false,
    }
}

/// Where a turn stands: the model requests it has made, and how many it may
/// make.
#[derive(Clone, Copy, Debug, PartialEq, Eq, Structural)]
pub struct TurnState {
    pub requests: u64,
    pub limit: u64,
}

/// What the host reports back to the turn.
#[derive(Clone, Copy, Debug, PartialEq, Eq, Structural)]
pub enum TurnEvent {
    /// The host is ready for the next model request; whether the turn has
    /// been cancelled meanwhile.
    Ready { cancelled: bool },
    /// A model request ended, after any retry on a smaller context: whether
    /// it succeeded and whether the answer holds tool calls.
    Answered { ok: bool, has_calls: bool },
    /// An answer without calls asked to end the turn: whether it ended (no
    /// steering message was waiting).
    Settled { finished: bool },
    /// The calls of the last answer were executed.
    Executed,
}

/// What the host does next.
#[derive(Debug)]
pub enum TurnAction {
    /// Make the next model request.
    CallModel,
    /// Execute the tool calls of the answer.
    ExecuteCalls,
    /// End the turn unless a steering message is waiting.
    TryFinish,
    /// Come back with `Ready` for another request.
    Next,
    /// The turn ended successfully.
    Done,
    /// The failed request's own error ends the turn.
    Stop,
    /// The turn ends with this error.
    Fail(Error),
}

/// A host action as a value.
pub enum TurnStep {
    CallModel,
    ExecuteCalls,
    TryFinish,
    Next,
    Done,
    Stop,
    Fail(u16, Seq<char>),
}

impl TurnAction {
    pub open spec fn model(&self) -> TurnStep {
        match self {
            TurnAction::CallModel => TurnStep::CallModel,
            TurnAction::ExecuteCalls => TurnStep::ExecuteCalls,
            TurnAction::TryFinish => TurnStep::TryFinish,
            TurnAction::Next => TurnStep::Next,
            TurnAction::Done => TurnStep::Done,
            TurnAction::Stop => TurnStep::Stop,
            TurnAction::Fail(e) => TurnStep::Fail(e.status, e.message@),
        }
    }
}

/// The message of a turn that used up its requests.
pub open spec fn limit_message(limit: u64) -> Seq<char> {
    "Tool turn limit reached ("@ + decimal(limit as nat) + " model calls)"@
}

/// The decision of a turn on one event. Before each request the limit is
/// checked first, then cancellation; a failed request ends the turn, an
/// answer with calls has them executed, and one without calls ends the
/// turn unless steering keeps it going.
pub open spec fn spec_turn_step(s: TurnState, e: TurnEvent) -> (TurnState, TurnStep) {
    match e {
        TurnEvent::Ready { cancelled } => if s.requests >= s.limit {
            (s, TurnStep::Fail(422, limit_message(s.limit)))
        } else if cancelled {
            (s, TurnStep::Fail(499, "Turn cancelled"@))
        } else {
            (TurnState { requests: (s.requests + 1) as u64, limit: s.limit }, TurnStep::CallModel)
        },
        TurnEvent::Answered { ok, has_calls } => if !ok {
            (s, TurnStep::Stop)
        } else if has_calls {
            (s, TurnStep::ExecuteCalls)
        } else {
            (s, TurnStep::TryFinish)
        },
        TurnEvent::Settled { finished } => if finished {
            (s, TurnStep::Done)
        } else {
            (s, TurnStep::Next)
        },
        TurnEvent::Executed => (s, TurnStep::Next),
    }
}

impl TurnState {
    /// A turn that has made no request yet.
    pub fn new(limit: u64) -> (s: TurnState)
        ensures
            s.requests == 0,
            s.limit == limit,
    {
        TurnState { requests: 0, limit }
    }

    pub open spec fn wf(self) -> bool {
        self.requests <= self.limit
    }
}

/// One decision of a turn: the next state and what the host does.
pub fn turn_step(s: TurnState, e: TurnEvent) -> (r: (TurnState, TurnAction))
    requires
        s.wf(),
    ensures
        (r.0, r.1.model()) == spec_turn_step(s, e),
        r.0.wf(),
{
    match e {
        TurnEvent::Ready { cancelled } => if s.requests >= s.limit {
            let mut message = String::new();
            message.append("Tool turn limit reached (");
            push_decimal(&mut message, s.limit);
            message.append(" model calls)");
            proof {
                reveal_strlit("Tool turn limit reached (");
                reveal_strlit(" model calls)");
            }
            (s, TurnAction::Fail(Error { status: 422, message }))
        } else if cancelled {
            (s, TurnAction::Fail(Error::new(499, "Turn cancelled")))
        } else {
            (TurnState { requests: s.requests + 1, limit: s.limit }, TurnAction::CallModel)
        },
        TurnEvent::Answered { ok, has_calls } => if !ok {
            (s, TurnAction::Stop)
        } else if has_calls {
            (s, TurnAction::ExecuteCalls)
        } else {
            (s, TurnAction::TryFinish)
        },
        TurnEvent::Settled { finished } => if finished {
            (s, TurnAction::Done)
        } else {
            (s, TurnAction::Next)
        },
        TurnEvent::Executed => (s, TurnAction::Next),
    }
}

/// A turn never makes more model requests than its limit: every step keeps
/// the count within the limit, and a request is made only below it, raising
/// the count by one.
pub proof fn law_turn_requests_stay_within_limit(s: TurnState, e: TurnEvent)
    requires
        s.wf(),
    ensures
        spec_turn_step(s, e).0.wf(),
        spec_turn_step(s, e).0.limit == s.limit,
        spec_turn_step(s, e).1 is CallModel ==> s.requests < s.limit && spec_turn_step(s, e).0.requests
            == s.requests + 1,
        !(spec_turn_step(s, e).1 is CallModel) ==> spec_turn_step(s, e).0 == s,
{
}

} // verus!
