use potato_core::replay::{replay, Content, ReplayItem, ReplayView};

fn assistant(content: Content, calls: Option<usize>, reasoning: Option<usize>) -> ReplayView {
    ReplayView {
        assistant: true,
        tool: false,
        recorded_output: false,
        recorded_reasoning: reasoning,
        first_is_reasoning: true,
        content,
        calls,
    }
}

#[test]
fn legacy_replay_requires_an_unambiguous_reasoning_successor() {
    let wire = assistant(Content::Empty, Some(1), Some(1));
    let input = replay(&vec![wire]);
    assert_eq!(input[0], ReplayItem::RecordedReasoning(0));
    assert_eq!(input, vec![ReplayItem::RecordedReasoning(0), ReplayItem::Call(0, 0)]);
    let with_text = assistant(Content::Text, Some(1), Some(1));
    assert!(replay(&vec![with_text]).iter().all(|i| !matches!(i, ReplayItem::RecordedReasoning(_))));
    let empty = assistant(Content::Empty, Some(0), Some(1));
    assert!(replay(&vec![empty]).is_empty());
}

#[test]
fn recorded_output_and_tool_results_replay_directly() {
    let mut recorded = assistant(Content::Text, Some(2), Some(1));
    recorded.recorded_output = true;
    let tool = ReplayView {
        assistant: false,
        tool: true,
        recorded_output: false,
        recorded_reasoning: None,
        first_is_reasoning: false,
        content: Content::Text,
        calls: None,
    };
    let user = ReplayView { assistant: false, tool: false, content: Content::Blocks, ..tool };
    assert_eq!(
        replay(&vec![recorded, tool, user]),
        vec![ReplayItem::RecordedOutput(0), ReplayItem::ToolOutput(1), ReplayItem::Message(2)]
    );
    let mut two = assistant(Content::Text, None, Some(2));
    assert_eq!(replay(&vec![two]), vec![ReplayItem::Message(0)]);
    two.recorded_reasoning = Some(1);
    assert_eq!(replay(&vec![two]), vec![ReplayItem::RecordedReasoning(0), ReplayItem::Message(0)]);
    two.first_is_reasoning = false;
    assert_eq!(replay(&vec![two]), vec![ReplayItem::Message(0)]);
}
