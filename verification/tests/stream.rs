use potato_core::stream::{check_done, check_event, check_finish, count_bytes, ToolCalls};

#[test]
fn response_bytes_are_counted_against_the_limit() {
    assert_eq!(count_bytes(10, 5, Some(20)), (15, false));
    assert_eq!(count_bytes(10, 15, Some(20)), (25, true));
    assert_eq!(count_bytes(u64::MAX - 1, 5, None), (u64::MAX, false));
}

#[test]
fn failures_and_early_stops_are_reported() {
    assert!(check_event(false, "response.output_text.delta").is_ok());
    for kind in ["error", "response.failed", "response.incomplete"] {
        assert_eq!(check_event(false, kind).unwrap_err().message, "Model reported a failed or incomplete response");
    }
    assert_eq!(check_event(true, "").unwrap_err().status, 502);
    assert!(check_finish("stop").is_ok());
    assert!(check_finish("tool_calls").is_ok());
    assert_eq!(check_finish("length").unwrap_err().message, "Model stopped early: length");
    assert!(check_done(true).is_ok());
    assert_eq!(check_done(false).unwrap_err().message, "Model stream ended without a finish reason");
}

#[test]
fn tool_calls_are_assembled_by_index() {
    let mut calls = ToolCalls::new();
    calls.merge(1, Some("b"), "write", "{\"p\":").unwrap();
    calls.merge(0, Some("a"), "read_file", "{}").unwrap();
    calls.merge(1, None, "_file", "1}").unwrap();
    let all = calls.calls();
    assert_eq!(all.len(), 2);
    assert_eq!((all[0].id.as_str(), all[0].name.as_str(), all[0].arguments.as_str()), ("a", "read_file", "{}"));
    assert_eq!((all[1].id.as_str(), all[1].name.as_str(), all[1].arguments.as_str()), ("b", "write_file", "{\"p\":1}"));
    assert_eq!(calls.merge(65, None, "", "").unwrap_err().message, "Too many tool calls");
    let big = "x".repeat(1_000_001);
    assert_eq!(calls.merge(0, None, "", &big).unwrap_err().message, "Tool arguments too large");
    assert_eq!(calls.calls()[0].arguments, "{}");
}
