//! The text of a streamed model completion and the frames it announces:
//! visible text and reasoning grow by deltas, the reasoning is marked
//! completed when the visible answer starts, and reopened when the model
//! resumes reasoning.
use vstd::prelude::*;
use crate::context::utf8_len;
use crate::error::Error;
use crate::computer::{lowercase, unicode_lowercase};
use crate::jobs::{lossy_text, utf8_lossy};
use crate::template::{holds, holds_exec};
use crate::text::{cat, decimal, push_decimal};

verus! {

/// A frame announced to the client while a completion streams.
#[derive(Clone, Copy, Debug, PartialEq, Eq, Structural)]
pub enum Frame {
    /// The reasoning block is complete.
    ReasoningCompleted,
    /// A reasoning block starts, or starts again.
    ReasoningInProgress,
    /// A delta of the reasoning (`true`) or of the visible text.
    Delta(bool),
}

/// Both the visible text and the reasoning are limited to this many bytes.
pub const MAX_OUTPUT_BYTES: usize = 4_000_000;

/// What a completion has received so far.
pub struct Completion {
    text: String,
    reasoning: String,
    text_bytes: usize,
    reasoning_bytes: usize,
    reasoning_finished: bool,
    reasoning_started: bool,
}

/// What a completion has received, as a value: its visible text, its
/// reasoning, whether the reasoning was marked completed (and has not
/// resumed since), and whether reasoning ever started.
pub struct Stream {
    pub text: Seq<char>,
    pub reasoning: Seq<char>,
    pub finished: bool,
    pub started: bool,
}

/// A completion before any delta.
pub open spec fn fresh() -> Stream {
    Stream { text: Seq::empty(), reasoning: Seq::empty(), finished: false, started: false }
}

/// One accepted delta: the state after it and the frames it announces. The
/// reasoning is marked completed when the visible text begins; a reasoning
/// block opens when reasoning starts or resumes.
pub open spec fn step(s: Stream, delta: Seq<char>, reasoning: bool) -> (Stream, Seq<Frame>) {
    if delta.len() == 0 {
        (s, Seq::empty())
    } else {
        let completes = !reasoning && s.reasoning.len() > 0 && !s.finished;
        let opens = reasoning && (s.reasoning.len() == 0 || s.finished);
        let frames = (if completes {
            seq![Frame::ReasoningCompleted]
        } else {
            Seq::<Frame>::empty()
        }) + (if opens {
            seq![Frame::ReasoningInProgress]
        } else {
            Seq::<Frame>::empty()
        }) + seq![Frame::Delta(reasoning)];
        (
            Stream {
                text: if reasoning { s.text } else { s.text + delta },
                reasoning: if reasoning { s.reasoning + delta } else { s.reasoning },
                finished: !reasoning && (s.finished || completes),
                started: s.started || reasoning,
            },
            frames,
        )
    }
}

/// The state after a run of accepted deltas, and all the frames announced.
pub open spec fn run(s: Stream, deltas: Seq<(Seq<char>, bool)>) -> (Stream, Seq<Frame>)
    decreases deltas.len(),
{
    if deltas.len() == 0 {
        (s, Seq::empty())
    } else {
        let (before, frames) = run(s, deltas.drop_last());
        let (after, more) = step(before, deltas.last().0, deltas.last().1);
        (after, frames + more)
    }
}

/// The reasoning markers among frames: the completed and in-progress frames,
/// in order.
pub open spec fn markers(frames: Seq<Frame>) -> Seq<Frame>
    decreases frames.len(),
{
    if frames.len() == 0 {
        Seq::empty()
    } else {
        markers(frames.drop_last()) + if frames.last() is Delta {
            Seq::<Frame>::empty()
        } else {
            seq![frames.last()]
        }
    }
}

proof fn lemma_markers_concat(a: Seq<Frame>, b: Seq<Frame>)
    ensures
        markers(a + b) == markers(a) + markers(b),
    decreases b.len(),
{
    if b.len() == 0 {
        assert(a + b =~= a);
        assert(markers(a) + markers(b) =~= markers(a));
    } else {
        lemma_markers_concat(a, b.drop_last());
        assert((a + b).drop_last() =~= a + b.drop_last());
        assert((a + b).last() == b.last());
        assert(markers(a) + markers(b) =~= markers(a) + markers(b.drop_last()) + (if b.last() is Delta {
            Seq::<Frame>::empty()
        } else {
            seq![b.last()]
        }));
    }
}

/// Markers alternate, a block opening first.
pub open spec fn alternating(m: Seq<Frame>) -> bool {
    forall|i: int| 0 <= i < m.len() ==> #[trigger] m[i] == if i % 2 == 0 {
        Frame::ReasoningInProgress
    } else {
        Frame::ReasoningCompleted
    }
}

proof fn lemma_run_markers(deltas: Seq<(Seq<char>, bool)>)
    ensures
        ({
            let (s, frames) = run(fresh(), deltas);
            let m = markers(frames);
            &&& alternating(m)
            &&& s.finished <==> (m.len() > 0 && m.last() == Frame::ReasoningCompleted)
            &&& (s.reasoning.len() > 0 && !s.finished) <==> (m.len() > 0 && m.last()
                == Frame::ReasoningInProgress)
            &&& s.reasoning.len() == 0 ==> m.len() == 0
        }),
    decreases deltas.len(),
{
    if deltas.len() > 0 {
        lemma_run_markers(deltas.drop_last());
        let (before, frames) = run(fresh(), deltas.drop_last());
        let (d, reasoning) = deltas.last();
        let (after, more) = step(before, d, reasoning);
        lemma_markers_concat(frames, more);
        let m0 = markers(frames);
        if d.len() > 0 {
            let completes = !reasoning && before.reasoning.len() > 0 && !before.finished;
            let opens = reasoning && (before.reasoning.len() == 0 || before.finished);
            let head = if completes {
                seq![Frame::ReasoningCompleted]
            } else {
                Seq::<Frame>::empty()
            };
            let mid = if opens {
                seq![Frame::ReasoningInProgress]
            } else {
                Seq::<Frame>::empty()
            };
            lemma_markers_concat(head + mid, seq![Frame::Delta(reasoning)]);
            lemma_markers_concat(head, mid);
            assert(markers(seq![Frame::Delta(reasoning)]) =~= Seq::<Frame>::empty()) by {
                assert(seq![Frame::Delta(reasoning)].drop_last() =~= Seq::<Frame>::empty());
            }
            if completes {
                assert(markers(head) =~= seq![Frame::ReasoningCompleted]) by {
                    assert(head.drop_last() =~= Seq::<Frame>::empty());
                }
            } else {
                assert(markers(head) =~= Seq::<Frame>::empty());
            }
            if opens {
                assert(markers(mid) =~= seq![Frame::ReasoningInProgress]) by {
                    assert(mid.drop_last() =~= Seq::<Frame>::empty());
                }
            } else {
                assert(markers(mid) =~= Seq::<Frame>::empty());
            }
            let m = markers(frames + more);
            assert(m =~= m0 + markers(head) + markers(mid));
            if m0.len() > 0 {
                assert(m0.last() == m0[m0.len() - 1]);
            }
            assert(alternating(m)) by {
                assert forall|i: int| 0 <= i < m.len() implies #[trigger] m[i] == if i % 2 == 0 {
                    Frame::ReasoningInProgress
                } else {
                    Frame::ReasoningCompleted
                } by {
                    if i < m0.len() {
                        assert(m[i] == m0[i]);
                    }
                }
            }
        } else {
            assert(more =~= Seq::<Frame>::empty());
            assert(frames + more =~= frames);
        }
    }
}

/// The reasoning markers of any run of accepted deltas on a fresh
/// completion alternate, a block opening first: the reasoning is marked
/// completed at most once per block, a block reopens only after it was
/// completed, and it counts as completed exactly when the last marker says
/// so.
pub proof fn law_reasoning_blocks_alternate(deltas: Seq<(Seq<char>, bool)>)
    ensures
        ({
            let (s, frames) = run(fresh(), deltas);
            let m = markers(frames);
            &&& alternating(m)
            &&& s.finished <==> (m.len() > 0 && m.last() == Frame::ReasoningCompleted)
        }),
{
    lemma_run_markers(deltas);
}

pub proof fn lemma_utf8_len_concat(a: Seq<char>, b: Seq<char>)
    ensures
        utf8_len(a + b) == utf8_len(a) + utf8_len(b),
    decreases b.len(),
{
    if b.len() > 0 {
        lemma_utf8_len_concat(a, b.drop_last());
        assert((a + b).drop_last() =~= a + b.drop_last());
        assert((a + b).last() == b.last());
    } else {
        assert(a + b =~= a);
    }
}

impl Completion {
    pub closed spec fn wf(&self) -> bool {
        &&& self.text_bytes == utf8_len(self.text@)
        &&& self.reasoning_bytes == utf8_len(self.reasoning@)
        &&& self.text_bytes <= MAX_OUTPUT_BYTES
        &&& self.reasoning_bytes <= MAX_OUTPUT_BYTES
    }

    /// The visible text so far.
    pub closed spec fn spec_text(&self) -> Seq<char> {
        self.text@
    }

    /// The reasoning so far.
    pub closed spec fn spec_reasoning(&self) -> Seq<char> {
        self.reasoning@
    }

    /// The reasoning was marked completed and has not resumed since.
    pub closed spec fn spec_finished(&self) -> bool {
        self.reasoning_finished
    }

    /// The reasoning has started at some point.
    pub closed spec fn spec_started(&self) -> bool {
        self.reasoning_started
    }

    /// The completion as a value.
    pub open spec fn model(&self) -> Stream {
        Stream {
            text: self.spec_text(),
            reasoning: self.spec_reasoning(),
            finished: self.spec_finished(),
            started: self.spec_started(),
        }
    }

    pub fn new() -> (c: Completion)
        ensures
            c.wf(),
            c.spec_text().len() == 0 && c.spec_reasoning().len() == 0,
            !c.spec_finished() && !c.spec_started(),
            c.model() == fresh(),
    {
        Completion {
            text: String::new(),
            reasoning: String::new(),
            text_bytes: 0,
            reasoning_bytes: 0,
            reasoning_finished: false,
            reasoning_started: false,
        }
    }

    pub fn text(&self) -> (s: &str)
        ensures
            s@ == self.spec_text(),
    {
        self.text.as_str()
    }

    pub fn reasoning(&self) -> (s: &str)
        ensures
            s@ == self.spec_reasoning(),
    {
        self.reasoning.as_str()
    }

    /// Whether the reasoning was marked completed and has not resumed.
    pub fn reasoning_finished(&self) -> (r: bool)
        ensures
            r == self.spec_finished(),
    {
        self.reasoning_finished
    }

    /// Whether the reasoning has started at some point.
    pub fn reasoning_started(&self) -> (r: bool)
        ensures
            r == self.spec_started(),
    {
        self.reasoning_started
    }

    /// Takes a delta of reasoning or of visible text. Returns the frames to
    /// announce, in order, and whether the delta was taken: a delta that
    /// would make its part exceed `MAX_OUTPUT_BYTES` is refused, after the
    /// reasoning was marked completed where the visible text begins. An
    /// empty delta changes nothing.
    pub fn append(&mut self, delta: &str, reasoning: bool) -> (r: (Vec<Frame>, Result<(), Error>))
        requires
            old(self).wf(),
        ensures
            final(self).wf(),
            r.1 is Ok ==> (final(self).model(), r.0@) == step(old(self).model(), delta@, reasoning),
            delta@.len() == 0 ==> r.0@ == Seq::<Frame>::empty() && r.1 is Ok && final(self).spec_text()
                == old(self).spec_text() && final(self).spec_reasoning() == old(self).spec_reasoning()
                && final(self).spec_finished() == old(self).spec_finished() && final(self).spec_started()
                == old(self).spec_started(),
            delta@.len() > 0 ==> ({
                let completes = !reasoning && old(self).spec_reasoning().len() > 0 && !old(self).spec_finished();
                let target = if reasoning {
                    old(self).spec_reasoning()
                } else {
                    old(self).spec_text()
                };
                let head = if completes {
                    seq![Frame::ReasoningCompleted]
                } else {
                    Seq::<Frame>::empty()
                };
                let opens = reasoning && (target.len() == 0 || old(self).spec_finished());
                &&& final(self).spec_finished() == (!reasoning && (old(self).spec_finished() || completes))
                &&& final(self).spec_started() == (old(self).spec_started() || reasoning)
                &&& utf8_len(target) + utf8_len(delta@) > MAX_OUTPUT_BYTES ==> {
                    &&& r.0@ == head
                    &&& r.1 matches Err(e) && e.status == 502 && e.message@ == "Model output too large"@
                    &&& final(self).spec_text() == old(self).spec_text()
                    &&& final(self).spec_reasoning() == old(self).spec_reasoning()
                }
                &&& utf8_len(target) + utf8_len(delta@) <= MAX_OUTPUT_BYTES ==> {
                    &&& r.0@ == head + (if opens {
                        seq![Frame::ReasoningInProgress]
                    } else {
                        Seq::<Frame>::empty()
                    }) + seq![Frame::Delta(reasoning)]
                    &&& r.1 is Ok
                    &&& reasoning ==> final(self).spec_reasoning() == old(self).spec_reasoning() + delta@
                        && final(self).spec_text() == old(self).spec_text()
                    &&& !reasoning ==> final(self).spec_text() == old(self).spec_text() + delta@
                        && final(self).spec_reasoning() == old(self).spec_reasoning()
                }
            }),
    {
        let mut frames: Vec<Frame> = Vec::new();
        if delta.is_empty() {
            return (frames, Ok(()));
        }
        let completes = !reasoning && self.reasoning_bytes > 0 && !self.reasoning_finished;
        proof {
            if self.reasoning@.len() == 0 {
                assert(utf8_len(self.reasoning@) == 0);
            } else {
                lemma_positive_len(self.reasoning@);
            }
            if self.text@.len() == 0 {
                assert(utf8_len(self.text@) == 0);
            } else {
                lemma_positive_len(self.text@);
            }
        }
        if completes {
            frames.push(Frame::ReasoningCompleted);
            self.reasoning_finished = true;
        }
        if reasoning {
            self.reasoning_started = true;
        }
        let restarting = reasoning && self.reasoning_finished;
        if reasoning {
            self.reasoning_finished = false;
        }
        let target_bytes = if reasoning {
            self.reasoning_bytes
        } else {
            self.text_bytes
        };
        let wide = crate::context::utf8_length(delta);
        if wide > (MAX_OUTPUT_BYTES - target_bytes) as u128 {
            return (frames, Err(Error::new(502, "Model output too large")));
        }
        let n = wide as usize;
        if reasoning && (target_bytes == 0 || restarting) {
            frames.push(Frame::ReasoningInProgress);
        }
        proof {
            lemma_utf8_len_concat(self.reasoning@, delta@);
            lemma_utf8_len_concat(self.text@, delta@);
        }
        if reasoning {
            self.reasoning.append(delta);
            self.reasoning_bytes = self.reasoning_bytes + n;
        } else {
            self.text.append(delta);
            self.text_bytes = self.text_bytes + n;
        }
        frames.push(Frame::Delta(reasoning));
        (frames, Ok(()))
    }
}

proof fn lemma_positive_len(s: Seq<char>)
    requires
        s.len() > 0,
    ensures
        utf8_len(s) > 0,
{
    assert(utf8_len(s) == utf8_len(s.drop_last()) + crate::context::width(s.last()));
}

/// How much of a failed response's body is read to classify the failure.
pub const ERROR_BODY_BYTES: usize = 16_384;

/// The phrases by which providers report an overflowing context.
pub open spec fn overflow_phrase(i: int) -> Seq<char> {
    if i == 0 {
        "context_length_exceeded"@
    } else if i == 1 {
        "context_window_exceeded"@
    } else if i == 2 {
        "maximum context length"@
    } else if i == 3 {
        "exceeds the context"@
    } else {
        "context window"@
    }
}

/// The lower-cased text of the first bytes of an error body.
pub open spec fn error_detail(body: Seq<u8>) -> Seq<char> {
    let n = if body.len() < ERROR_BODY_BYTES { body.len() as int } else { ERROR_BODY_BYTES as int };
    unicode_lowercase(utf8_lossy(body.take(n)))
}

/// A refused request whose status can mean an oversized prompt, and whose
/// body names an overflowing context.
pub open spec fn context_overflow(status: u16, body: Seq<u8>) -> bool {
    (status == 400 || status == 413 || status == 422) && exists|i: int|
        0 <= i < 5 && holds(error_detail(body), #[trigger] overflow_phrase(i))
}

/// The error for a provider's unsuccessful HTTP answer. Only the status is
/// shown; the body is read, at most its first 16 KiB, to tell a context
/// overflow (413) from any other failure (502).
pub fn http_failure(status: u16, body: &[u8]) -> (e: Error)
    ensures
        e.status == (if context_overflow(status, body@) { 413u16 } else { 502u16 }),
        e.message@ == "Model returned HTTP "@ + decimal(status as nat) + (if context_overflow(
            status,
            body@,
        ) {
            " (context overflow)"@
        } else {
            ""@
        }),
{
    let n = if body.len() < ERROR_BODY_BYTES { body.len() } else { ERROR_BODY_BYTES };
    let mut head: Vec<u8> = Vec::new();
    for i in 0..n
        invariant
            n <= body@.len(),
            head@ == body@.take(i as int),
    {
        proof {
            assert(body@.take(i + 1) == body@.take(i as int).push(body@[i as int]));
        }
        head.push(body[i]);
    }
    let detail = lowercase(lossy_text(head.as_slice()).as_str());
    let d = crate::text::chars_of(detail.as_str());
    let named = holds_exec(&d, "context_length_exceeded") || holds_exec(&d, "context_window_exceeded")
        || holds_exec(&d, "maximum context length") || holds_exec(&d, "exceeds the context")
        || holds_exec(&d, "context window");
    let overflow = (status == 400 || status == 413 || status == 422) && named;
    proof {
        assert(detail@ == error_detail(body@));
        if named {
            if holds(detail@, overflow_phrase(0)) {
            } else if holds(detail@, overflow_phrase(1)) {
            } else if holds(detail@, overflow_phrase(2)) {
            } else if holds(detail@, overflow_phrase(3)) {
            } else {
                assert(holds(detail@, overflow_phrase(4)));
            }
        } else {
            assert forall|i: int| 0 <= i < 5 implies !holds(detail@, #[trigger] overflow_phrase(i)) by {
                if i == 0 {
                } else if i == 1 {
                } else if i == 2 {
                } else if i == 3 {
                } else {
                }
            }
        }
    }
    let mut message = String::new();
    message.append("Model returned HTTP ");
    push_decimal(&mut message, status as u64);
    if overflow {
        message.append(" (context overflow)");
        Error { status: 413, message }
    } else {
        proof {
            reveal_strlit("");
            assert(message@ =~= "Model returned HTTP "@ + decimal(status as nat) + ""@);
        }
        Error { status: 502, message }
    }
}

} // verus!
