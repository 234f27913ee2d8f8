//! The input of a Responses API request rebuilt from stored messages:
//! recorded output is replayed as it was, and recorded reasoning of older
//! messages only where its place is unambiguous.
use vstd::prelude::*;

verus! {

/// A message's `content`, as the replay reads it.
#[derive(Clone, Copy, Debug, PartialEq, Eq, Structural)]
pub enum Content {
    /// The empty string.
    Empty,
    /// A non-empty string.
    Text,
    /// An array of content blocks.
    Blocks,
    /// Anything else (null, a number, an object).
    Other,
}

/// What the replay reads of a stored message.
#[derive(Clone, Copy, Debug, PartialEq, Eq, Structural)]
pub struct ReplayView {
    pub assistant: bool,
    pub tool: bool,
    /// It has recorded response output (an array).
    pub recorded_output: bool,
    /// How many recorded reasoning items it has, where those are an array.
    pub recorded_reasoning: Option<usize>,
    /// The first recorded reasoning item is of type `reasoning`.
    pub first_is_reasoning: bool,
    pub content: Content,
    /// How many tool calls it has, where `tool_calls` is an array.
    pub calls: Option<usize>,
}

/// An item of the request input.
#[derive(Clone, Copy, Debug, PartialEq, Eq, Structural)]
pub enum ReplayItem {
    /// Every recorded output item of message `m`, in order.
    RecordedOutput(usize),
    /// The single recorded reasoning item of message `m`.
    RecordedReasoning(usize),
    /// Message `m`, a tool result, as a function call output.
    ToolOutput(usize),
    /// Message `m`'s role and content.
    Message(usize),
    /// Tool call `c` of message `m`, as a function call.
    Call(usize, usize),
}

/// An older message's single reasoning item is replayed only when it has
/// exactly one output to precede: a non-empty text or one tool call, not
/// both.
pub open spec fn lone_reasoning(v: ReplayView) -> bool {
    let outputs = (if v.content == Content::Text {
        1int
    } else {
        0int
    }) + match v.calls {
        Some(n) => n as int,
        None => 0int,
    };
    v.recorded_reasoning == Some(1usize) && v.first_is_reasoning && outputs == 1
}

/// The calls of message `m`, `0..n`.
pub open spec fn calls_of(m: usize, n: int) -> Seq<ReplayItem>
    decreases n,
{
    if n <= 0 {
        Seq::empty()
    } else {
        calls_of(m, n - 1).push(ReplayItem::Call(m, (n - 1) as usize))
    }
}

/// The input items of message `m`.
pub open spec fn message_items(v: ReplayView, m: usize) -> Seq<ReplayItem> {
    if v.assistant && v.recorded_output {
        seq![ReplayItem::RecordedOutput(m)]
    } else if v.tool {
        seq![ReplayItem::ToolOutput(m)]
    } else {
        let reasoning = if v.assistant && lone_reasoning(v) {
            seq![ReplayItem::RecordedReasoning(m)]
        } else {
            Seq::empty()
        };
        let message = if v.content != Content::Empty {
            seq![ReplayItem::Message(m)]
        } else {
            Seq::empty()
        };
        let calls = match v.calls {
            Some(n) => calls_of(m, n as int),
            None => Seq::empty(),
        };
        reasoning + message + calls
    }
}

/// The input items of the first `n` messages.
pub open spec fn replay_items(msgs: Seq<ReplayView>, n: int) -> Seq<ReplayItem>
    decreases n,
{
    if n <= 0 {
        Seq::empty()
    } else {
        replay_items(msgs, n - 1) + message_items(msgs[n - 1], (n - 1) as usize)
    }
}

/// Lays out the input of a request from stored messages.
pub fn replay(msgs: &Vec<ReplayView>) -> (r: Vec<ReplayItem>)
    ensures
        r@ == replay_items(msgs@, msgs@.len() as int),
{
    let mut out: Vec<ReplayItem> = Vec::new();
    for m in 0..msgs.len()
        invariant
            out@ == replay_items(msgs@, m as int),
    {
        let v = msgs[m];
        let ghost before = out@;
        if v.assistant && v.recorded_output {
            out.push(ReplayItem::RecordedOutput(m));
        } else if v.tool {
            out.push(ReplayItem::ToolOutput(m));
        } else {
            let text: usize = if v.content == Content::Text {
                1
            } else {
                0
            };
            let lone = v.recorded_reasoning == Some(1usize) && v.first_is_reasoning && match v.calls {
                Some(n) => text == 0 && n == 1 || text == 1 && n == 0,
                None => text == 1,
            };
            if v.assistant && lone {
                out.push(ReplayItem::RecordedReasoning(m));
            }
            if v.content != Content::Empty {
                out.push(ReplayItem::Message(m));
            }
            let ghost mid = out@;
            match v.calls {
                Some(n) => {
                    for c in 0..n
                        invariant
                            out@ == mid + calls_of(m, c as int),
                    {
                        out.push(ReplayItem::Call(m, c));
                    }
                },
                None => {},
            }
        }
        proof {
            assert(out@ =~= before + message_items(v, m));
        }
    }
    out
}

} // verus!
