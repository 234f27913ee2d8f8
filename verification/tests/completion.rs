use potato_core::completion::{Completion, Frame, MAX_OUTPUT_BYTES};

fn take(c: &mut Completion, events: &mut Vec<Frame>, text: &str, reasoning: bool) {
    let (frames, outcome) = c.append(text, reasoning);
    outcome.unwrap();
    events.extend(frames);
}

#[test]
fn reasoning_finishes_on_first_body_delta_and_can_resume() {
    let mut completion = Completion::new();
    let mut events: Vec<Frame> = Vec::new();
    take(&mut completion, &mut events, "summary", true);
    take(&mut completion, &mut events, "answer", false);
    take(&mut completion, &mut events, " continues", false);
    assert_eq!(events.iter().filter(|e| **e == Frame::ReasoningCompleted).count(), 1);
    take(&mut completion, &mut events, " resumed", true);
    assert!(!completion.reasoning_finished());
    assert_eq!(events.iter().filter(|e| **e == Frame::ReasoningInProgress).count(), 2);
    assert_eq!(
        events,
        vec![
            Frame::ReasoningInProgress,
            Frame::Delta(true),
            Frame::ReasoningCompleted,
            Frame::Delta(false),
            Frame::Delta(false),
            Frame::ReasoningInProgress,
            Frame::Delta(true),
        ]
    );
    assert_eq!(completion.text(), "answer continues");
    assert_eq!(completion.reasoning(), "summary resumed");
}

#[test]
fn empty_deltas_change_nothing() {
    let mut c = Completion::new();
    let (frames, outcome) = c.append("", true);
    assert!(frames.is_empty() && outcome.is_ok());
    assert!(!c.reasoning_started());
    let (frames, _) = c.append("hi", false);
    assert_eq!(frames, vec![Frame::Delta(false)]);
}

#[test]
fn oversized_output_is_refused_after_closing_the_reasoning() {
    let mut c = Completion::new();
    c.append("think", true).1.unwrap();
    let big = "x".repeat(MAX_OUTPUT_BYTES + 1);
    let (frames, outcome) = c.append(&big, false);
    assert_eq!(frames, vec![Frame::ReasoningCompleted]);
    let e = outcome.err().unwrap();
    assert_eq!((e.status, e.message.as_str()), (502, "Model output too large"));
    assert_eq!(c.text(), "");
    assert!(c.reasoning_finished());
    let exact = "y".repeat(MAX_OUTPUT_BYTES);
    assert!(c.append(&exact, false).1.is_ok());
    assert!(c.append("z", false).1.is_err());
}

#[test]
fn provider_failures_name_only_the_status() {
    let overflow = potato_core::completion::http_failure(400, b"{\"error\":{\"code\":\"context_length_exceeded\"}}");
    assert_eq!(overflow.status, 413);
    assert_eq!(overflow.message, "Model returned HTTP 400 (context overflow)");
    let upper = potato_core::completion::http_failure(422, b"This request EXCEEDS THE CONTEXT of the model");
    assert_eq!(upper.status, 413);
    assert_eq!(upper.message, "Model returned HTTP 422 (context overflow)");
    let server = potato_core::completion::http_failure(500, b"context window");
    assert_eq!(server.status, 502);
    assert_eq!(server.message, "Model returned HTTP 500");
    let plain = potato_core::completion::http_failure(400, b"bad \xff request");
    assert_eq!((plain.status, plain.message.as_str()), (502, "Model returned HTTP 400"));
    let mut late = vec![b' '; 16_384];
    late.extend_from_slice(b"context window");
    assert_eq!(potato_core::completion::http_failure(413, &late).status, 502);
    let mut early = vec![b' '; 16_370];
    early.extend_from_slice(b"context window");
    assert_eq!(potato_core::completion::http_failure(413, &early).status, 413);
}
