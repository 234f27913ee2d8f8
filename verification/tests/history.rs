use potato_core::history::{boundaries, repair, CallView, ItemView, MessageView, OutputFix, Step};

fn call(id: &str, name: &str, arguments: &str) -> CallView {
    CallView { id: id.to_string(), name: name.to_string(), arguments: arguments.to_string() }
}

fn assistant(calls: Option<Vec<CallView>>, output: Option<Vec<ItemView>>) -> MessageView {
    MessageView { tool: false, tool_call_id: None, has_calls_key: calls.is_some(), calls, output }
}

fn result(id: &str) -> MessageView {
    MessageView {
        tool: true,
        tool_call_id: Some(id.to_string()),
        has_calls_key: false,
        calls: None,
        output: None,
    }
}

fn user() -> MessageView {
    MessageView { tool: false, tool_call_id: None, has_calls_key: false, calls: None, output: None }
}

fn function_call(id: &str, name: &str, arguments: &str) -> ItemView {
    ItemView::FunctionCall {
        call_id: Some(id.to_string()),
        name: Some(name.to_string()),
        arguments: arguments.to_string(),
    }
}

fn message(index: usize, calls: Option<Vec<usize>>, drop_reasoning: bool, output: OutputFix) -> Step {
    Step::Message { index, calls, drop_reasoning, output }
}

/// The nine recorded items of the duplicate-call scenario.
fn recorded_items() -> Vec<ItemView> {
    vec![
        ItemView::Reasoning,
        function_call("a", "read_file", "{}"),
        ItemView::Reasoning,
        function_call("a", "read_file", "{}"),
        ItemView::Reasoning,
        function_call("b", "read_file", "{}"),
        ItemView::Reasoning,
        ItemView::AssistantMessage,
        ItemView::Reasoning,
    ]
}

#[test]
fn repair_keeps_native_arguments_and_call_results_consistent() {
    // Object arguments arrive serialized: `{}` becomes the string "{}".
    let probe = || assistant(
        Some(vec![call("a", "probe", "{}")]),
        Some(vec![ItemView::Reasoning, function_call("a", "probe", "{}")]),
    );
    let fixed = repair(&vec![probe()]);
    assert_eq!(
        fixed,
        vec![
            message(0, Some(vec![0]), false, OutputFix::Replace(vec![0, 1])),
            Step::Missing { message: 0, call: 0 },
        ]
    );
    let mut emptied = probe();
    emptied.output = Some(vec![]);
    let fixed = repair(&vec![emptied]);
    assert_eq!(fixed[0], message(0, Some(vec![0]), false, OutputFix::Remove));
    assert_eq!(fixed[1], Step::Missing { message: 0, call: 0 });
}

#[test]
fn repair_removes_reasoning_with_duplicate_and_unannounced_calls() {
    let duplicated = || {
        assistant(Some(vec![call("a", "read_file", "{}"), call("a", "read_file", "{}")]), Some(recorded_items()))
    };
    let fixed = repair(&vec![duplicated()]);
    assert_eq!(
        fixed,
        vec![
            message(0, Some(vec![0]), true, OutputFix::Replace(vec![0, 1, 6, 7])),
            Step::Missing { message: 0, call: 0 },
        ]
    );
    // The repaired window, repaired again, stays as it is.
    let window = || {
        vec![
            assistant(
                Some(vec![call("a", "read_file", "{}")]),
                Some(vec![
                    ItemView::Reasoning,
                    function_call("a", "read_file", "{}"),
                    ItemView::Reasoning,
                    ItemView::AssistantMessage,
                ]),
            ),
            result("a"),
        ]
    };
    assert_eq!(
        repair(&window()),
        vec![message(0, Some(vec![0]), false, OutputFix::Replace(vec![0, 1, 2, 3])), Step::Result(1)]
    );
    // The same call id from a preceding turn also removes its reasoning.
    let mut history = window();
    history.push(duplicated());
    let again = repair(&history);
    assert_eq!(again.len(), 3);
    assert_eq!(again[2], message(2, Some(vec![]), true, OutputFix::Replace(vec![6, 7])));
    let mut unannounced = duplicated();
    unannounced.calls = None;
    unannounced.has_calls_key = false;
    assert_eq!(repair(&vec![unannounced]), vec![message(0, None, false, OutputFix::Replace(vec![6, 7]))]);
}

#[test]
fn repairs_orphans_duplicates_and_missing_results() {
    let messages = vec![
        result("orphan"),
        assistant(Some(vec![call("a", "read_file", "{}"), call("b", "read_file", "{}")]), None),
        result("b"),
        result("b"),
        user(),
    ];
    let fixed = repair(&messages);
    assert_eq!(fixed.len(), 4);
    assert_eq!(
        fixed,
        vec![
            message(1, Some(vec![0, 1]), false, OutputFix::Untouched),
            Step::Missing { message: 1, call: 0 },
            Step::Result(2),
            message(4, None, false, OutputFix::Untouched),
        ]
    );
    let window = vec![
        assistant(Some(vec![call("a", "read_file", "{}"), call("b", "read_file", "{}")]), None),
        result("a"),
        result("b"),
        user(),
    ];
    assert_eq!(
        repair(&window),
        vec![
            message(0, Some(vec![0, 1]), false, OutputFix::Untouched),
            Step::Result(1),
            Step::Result(2),
            message(3, None, false, OutputFix::Untouched),
        ]
    );
    assert_eq!(boundaries(&messages, 0), vec![1, 4]);
}

#[test]
fn calls_without_id_or_name_are_dropped_with_their_results() {
    let messages = vec![
        assistant(Some(vec![call("", "read_file", "{}"), call("c", "", "{}")]), None),
        result("c"),
        user(),
    ];
    assert_eq!(
        repair(&messages),
        vec![message(0, Some(vec![]), true, OutputFix::Untouched), message(2, None, false, OutputFix::Untouched)]
    );
}

#[test]
fn results_are_taken_from_their_own_run_only() {
    let messages = vec![
        assistant(Some(vec![call("x", "f", "{}")]), None),
        user(),
        result("x"),
    ];
    assert_eq!(
        repair(&messages),
        vec![
            message(0, Some(vec![0]), false, OutputFix::Untouched),
            Step::Missing { message: 0, call: 0 },
            message(1, None, false, OutputFix::Untouched),
        ]
    );
    assert_eq!(boundaries(&messages, 0), vec![]);
    assert_eq!(boundaries(&messages, 5), vec![]);
}
