use potato_core::chats::{list_chats, ChatView};

fn chat(name: &str, archived: bool, pinned: bool, messages: &[&str]) -> ChatView {
    ChatView { name: name.to_string(), archived, pinned, messages: messages.iter().map(|m| m.to_string()).collect() }
}

#[test]
fn pinned_chats_come_first_and_search_ignores_case() {
    let chats = vec![
        chat("Plan trip", false, false, &["\"book hotel\""]),
        chat("Budget", false, true, &[]),
        chat("Old", true, true, &["\"hotel\""]),
        chat("Notes", false, true, &["\"HOTEL list\""]),
        chat("Misc", false, false, &[]),
    ];
    assert_eq!(list_chats(&chats, false, ""), vec![1, 3, 0, 4]);
    assert_eq!(list_chats(&chats, true, ""), vec![2]);
    assert_eq!(list_chats(&chats, false, "  Hotel "), vec![3, 0]);
    assert_eq!(list_chats(&chats, false, "BUDG"), vec![1]);
    assert_eq!(list_chats(&chats, false, "absent"), Vec::<usize>::new());
}
