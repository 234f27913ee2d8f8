//! The decisions made while a model response streams in: the byte limit,
//! events that report failure, how the model stopped, and the tool calls of a
//! chat completion, assembled from their deltas.
use vstd::prelude::*;
use crate::context::{utf8_len, utf8_length};
use crate::error::Error;
use crate::text::{cat, str_eq};

verus! {

/// Counts a chunk of the response and tells whether the configured byte
/// limit, if any, is now exceeded. The count saturates.
pub fn count_bytes(received: u64, chunk: usize, limit: Option<u64>) -> (r: (u64, bool))
    ensures
        r.0 == if received + chunk > u64::MAX { u64::MAX as int } else { received + chunk },
        r.1 == (limit is Some && r.0 > limit->0),
{
    let total = received.saturating_add(chunk as u64);
    let over = match limit {
        Some(l) => total > l,
        None => false,
    };
    (total, over)
}

/// An event that reports a failed or incomplete response: it carries an
/// `error`, or its type says so.
pub open spec fn failure_event(has_error: bool, kind: Seq<char>) -> bool {
    has_error || kind == "error"@ || kind == "response.failed"@ || kind == "response.incomplete"@
}

/// Checks a stream event for failure.
pub fn check_event(has_error: bool, kind: &str) -> (r: Result<(), Error>)
    ensures
        failure_event(has_error, kind@) ==> (r matches Err(e) && e.status == 502 && e.message@
            == "Model reported a failed or incomplete response"@),
        !failure_event(has_error, kind@) ==> r is Ok,
{
    if has_error || str_eq(kind, "error") || str_eq(kind, "response.failed") || str_eq(kind, "response.incomplete") {
        return Err(Error::new(502, "Model reported a failed or incomplete response"));
    }
    Ok(())
}

/// Checks the reason a chat completion gave for stopping: only `stop` and
/// `tool_calls` finish a turn's request normally.
pub fn check_finish(reason: &str) -> (r: Result<(), Error>)
    ensures
        (reason@ == "stop"@ || reason@ == "tool_calls"@) ==> r is Ok,
        !(reason@ == "stop"@ || reason@ == "tool_calls"@) ==> (r matches Err(e) && e.status == 502 && e.message@
            == "Model stopped early: "@ + reason@),
{
    if str_eq(reason, "stop") || str_eq(reason, "tool_calls") {
        return Ok(());
    }
    Err(Error { status: 502, message: cat("Model stopped early: ", reason) })
}

/// The end-of-stream marker is accepted only after the model said it was
/// finished.
pub fn check_done(finished: bool) -> (r: Result<(), Error>)
    ensures
        finished ==> r is Ok,
        !finished ==> (r matches Err(e) && e.status == 502 && e.message@ == "Model stream ended without a finish reason"@),
{
    if !finished {
        return Err(Error::new(502, "Model stream ended without a finish reason"));
    }
    Ok(())
}

/// The highest tool call index a completion may use.
pub const MAX_CALL_INDEX: u64 = 64;

/// The most bytes a tool call's name or arguments may reach.
pub const CALL_TEXT_LIMIT: u128 = 1_000_000;

/// A tool call assembled so far: its id, function name and arguments.
pub struct CallParts {
    pub id: String,
    pub name: String,
    pub arguments: String,
}

pub type CallModel = (Seq<char>, Seq<char>, Seq<char>);

pub open spec fn slot_view(o: Option<CallParts>) -> Option<CallModel> {
    match o {
        Some(c) => Some((c.id@, c.name@, c.arguments@)),
        None => None,
    }
}

/// The tool calls of a chat completion, by their index.
pub struct ToolCalls {
    slots: Vec<Option<CallParts>>,
}

/// The calls present, in index order.
pub open spec fn present(slots: Seq<Option<CallModel>>) -> Seq<CallModel>
    decreases slots.len(),
{
    if slots.len() == 0 {
        Seq::empty()
    } else {
        present(slots.drop_last()) + match slots.last() {
            Some(c) => seq![c],
            None => Seq::empty(),
        }
    }
}

impl View for ToolCalls {
    type V = Seq<Option<CallModel>>;

    closed spec fn view(&self) -> Seq<Option<CallModel>> {
        self.slots@.map_values(|o: Option<CallParts>| slot_view(o))
    }
}

impl ToolCalls {
    /// Every index from 0 to 64 has a slot.
    pub closed spec fn wf(&self) -> bool {
        self.slots.len() == MAX_CALL_INDEX + 1
    }

    /// No calls yet.
    pub fn new() -> (t: ToolCalls)
        ensures
            t.wf(),
            t@ == Seq::new((MAX_CALL_INDEX + 1) as nat, |i: int| None::<CallModel>),
    {
        let mut slots: Vec<Option<CallParts>> = Vec::new();
        while slots.len() < 65
            invariant
                slots.len() <= 65,
                forall|i: int| 0 <= i < slots.len() ==> slots@[i] is None,
            decreases 65 - slots.len(),
        {
            slots.push(None);
        }
        let t = ToolCalls { slots };
        proof {
            assert(t@ =~= Seq::new((MAX_CALL_INDEX + 1) as nat, |i: int| None::<CallModel>));
        }
        t
    }

    /// Takes a delta of tool call `index`: its id where given replaces the
    /// call's id, and its name and arguments are appended. An index above 64
    /// is refused; so is a name, then arguments, that would exceed 1 MB (the
    /// parts taken before the refusal stay).
    pub fn merge(&mut self, index: u64, id: Option<&str>, name: &str, arguments: &str) -> (r: Result<(), Error>)
        requires
            old(self).wf(),
        ensures
            final(self).wf(),
            index > MAX_CALL_INDEX ==> (r matches Err(e) && e.status == 502 && e.message@ == "Too many tool calls"@)
                && final(self)@ == old(self)@,
            index <= MAX_CALL_INDEX ==> ({
                let cur = match old(self)@[index as int] {
                    Some(c) => c,
                    None => (Seq::<char>::empty(), Seq::<char>::empty(), Seq::<char>::empty()),
                };
                let new_id = match id {
                    Some(i) => i@,
                    None => cur.0,
                };
                let new_name = cur.1 + name@;
                let new_args = cur.2 + arguments@;
                &&& utf8_len(new_name) > CALL_TEXT_LIMIT ==> (r matches Err(e) && e.status == 502 && e.message@
                    == "Tool arguments too large"@) && final(self)@ == old(self)@.update(
                    index as int,
                    Some((new_id, cur.1, cur.2)),
                )
                &&& utf8_len(new_name) <= CALL_TEXT_LIMIT && utf8_len(new_args) > CALL_TEXT_LIMIT ==> (r matches Err(
                    e,
                ) && e.status == 502 && e.message@ == "Tool arguments too large"@) && final(self)@
                    == old(self)@.update(index as int, Some((new_id, new_name, cur.2)))
                &&& utf8_len(new_name) <= CALL_TEXT_LIMIT && utf8_len(new_args) <= CALL_TEXT_LIMIT ==> r is Ok
                    && final(self)@ == old(self)@.update(index as int, Some((new_id, new_name, new_args)))
            }),
    {
        if index > MAX_CALL_INDEX {
            return Err(Error::new(502, "Too many tool calls"));
        }
        let i = index as usize;
        let mut call = match &self.slots[i] {
            Some(c) => CallParts { id: c.id.clone(), name: c.name.clone(), arguments: c.arguments.clone() },
            None => CallParts { id: String::new(), name: String::new(), arguments: String::new() },
        };
        proof {
            assert(slot_view(Some(call)) == match old(self)@[index as int] {
                Some(c) => Some(c),
                None => Some((Seq::<char>::empty(), Seq::<char>::empty(), Seq::<char>::empty())),
            });
        }
        if let Some(new_id) = id {
            call.id = new_id.to_owned();
        }
        let mut name_text = call.name.clone();
        name_text.append(name);
        if utf8_length(name_text.as_str()) > CALL_TEXT_LIMIT {
            self.slots.set(i, Some(call));
            proof {
                assert(self@ =~= old(self)@.update(index as int, slot_view(self.slots@[i as int])));
            }
            return Err(Error::new(502, "Tool arguments too large"));
        }
        call.name = name_text;
        let mut args_text = call.arguments.clone();
        args_text.append(arguments);
        if utf8_length(args_text.as_str()) > CALL_TEXT_LIMIT {
            self.slots.set(i, Some(call));
            proof {
                assert(self@ =~= old(self)@.update(index as int, slot_view(self.slots@[i as int])));
            }
            return Err(Error::new(502, "Tool arguments too large"));
        }
        call.arguments = args_text;
        self.slots.set(i, Some(call));
        proof {
            assert(self@ =~= old(self)@.update(index as int, slot_view(self.slots@[i as int])));
        }
        Ok(())
    }

    /// The calls present, in index order.
    pub fn calls(&self) -> (r: Vec<CallParts>)
        ensures
            r@.map_values(|c: CallParts| (c.id@, c.name@, c.arguments@)) == present(self@),
    {
        let mut r: Vec<CallParts> = Vec::new();
        let ghost v = self@;
        proof {
            assert(v.take(0) =~= Seq::<Option<CallModel>>::empty());
            assert(r@.map_values(|c: CallParts| (c.id@, c.name@, c.arguments@)) =~= Seq::<CallModel>::empty());
        }
        for i in 0..self.slots.len()
            invariant
                v == self@,
                v.len() == self.slots.len(),
                r@.map_values(|c: CallParts| (c.id@, c.name@, c.arguments@)) == present(v.take(i as int)),
        {
            proof {
                assert(v.take(i + 1).drop_last() =~= v.take(i as int));
                assert(v.take(i + 1).last() == slot_view(self.slots@[i as int]));
            }
            let ghost before = r@.map_values(|c: CallParts| (c.id@, c.name@, c.arguments@));
            match &self.slots[i] {
                Some(c) => {
                    r.push(CallParts { id: c.id.clone(), name: c.name.clone(), arguments: c.arguments.clone() });
                    proof {
                        assert(r@.map_values(|c: CallParts| (c.id@, c.name@, c.arguments@)) =~= before.push(
                            (c.id@, c.name@, c.arguments@),
                        ));
                    }
                },
                None => {
                    proof {
                        assert(present(v.take(i + 1)) =~= present(v.take(i as int)));
                    }
                },
            }
        }
        proof {
            assert(v.take(self.slots.len() as int) =~= v);
        }
        r
    }
}

} // verus!
