use potato_core::routes::{chat_method, check_chat_update, provider_op, route, ChatOp, ProviderOp, Route};

fn ok_route(method: &str, path: &str) -> Route {
    match route(method, path) {
        Some(Ok(r)) => r,
        other => panic!("no route for {method} {path}: {other:?}"),
    }
}

#[test]
fn parameterised_endpoints_carry_their_identifiers() {
    assert!(matches!(ok_route("POST", "/api/questions/q1/answer"), Route::AnswerQuestion(id) if id == "q1"));
    assert!(matches!(ok_route("GET", "/api/native/history-health"), Route::HistoryHealth));
    assert!(matches!(ok_route("GET", "/api/chats/c7/archive"), Route::ChatArchive(id) if id == "c7"));
    assert!(matches!(ok_route("GET", "/api/chats/c7/context-stats"), Route::ChatContextStats(id) if id == "c7"));
    assert!(matches!(ok_route("DELETE", "/api/chats/c7"), Route::Chat(id) if id == "c7"));
    assert!(matches!(ok_route("DELETE", "/api/models/custom-providers/mine"), Route::DeleteCustomProvider(id) if id == "mine"));
    match ok_route("PUT", "/api/models/deepseek/models/chat/config") {
        Route::Provider { provider, action } => {
            assert_eq!(provider, "deepseek");
            assert_eq!(action, "models/chat/config");
        }
        other => panic!("unexpected {other:?}"),
    }
    match ok_route("GET", "/api/models/custom-providers/mine") {
        Route::Provider { provider, action } => {
            assert_eq!(provider, "custom-providers");
            assert_eq!(action, "mine");
        }
        other => panic!("unexpected {other:?}"),
    }
}

#[test]
fn wrong_methods_and_unknown_paths_are_refused() {
    let e = route("GET", "/api/questions/q1/answer").unwrap().unwrap_err();
    assert_eq!((e.status, e.message.as_str()), (405, "Method not allowed"));
    let e = route("POST", "/api/chats/c7/archive").unwrap().unwrap_err();
    assert_eq!(e.status, 405);
    let e = route("PUT", "/api/chats/c7/context-stats").unwrap().unwrap_err();
    assert_eq!(e.status, 405);
    let e = route("PUT", "/api/models/deepseek").unwrap().unwrap_err();
    assert_eq!((e.status, e.message.as_str()), (404, "Unknown model endpoint"));
    assert!(route("POST", "/api/native/history-health").is_none());
    assert!(route("GET", "/api/unknown").is_none());
    assert!(route("POST", "/api/questions/answer").is_none());
}

#[test]
fn chat_methods_respect_a_running_turn() {
    assert_eq!(chat_method("GET", true).unwrap(), ChatOp::Show);
    assert_eq!(chat_method("PUT", true).unwrap(), ChatOp::Update);
    assert_eq!(chat_method("DELETE", false).unwrap(), ChatOp::Delete);
    let e = chat_method("DELETE", true).unwrap_err();
    assert_eq!((e.status, e.message.as_str()), (409, "Stop the running turn before deleting this chat"));
    assert_eq!(chat_method("PATCH", false).unwrap_err().status, 405);
}

#[test]
fn provider_actions_name_their_model() {
    assert!(matches!(provider_op("PUT", "config"), Some(ProviderOp::Config)));
    assert!(matches!(provider_op("POST", "models"), Some(ProviderOp::AddModel)));
    assert!(matches!(provider_op("PUT", "models/m1/config"), Some(ProviderOp::UpdateModel(id)) if id == "m1"));
    assert!(matches!(provider_op("PUT", "models/m1"), Some(ProviderOp::UpdateModel(id)) if id == "m1"));
    assert!(matches!(provider_op("DELETE", "models/m1/config"), Some(ProviderOp::DeleteModel(id)) if id == "m1/config"));
    assert!(matches!(provider_op("POST", "discover"), Some(ProviderOp::Discover)));
    assert!(matches!(provider_op("POST", "test"), Some(ProviderOp::Test)));
    assert!(provider_op("GET", "config").is_none());
    assert!(provider_op("POST", "models/m1").is_none());
}

#[test]
fn chat_updates_check_the_name_and_a_running_turn() {
    assert_eq!(check_chat_update(Some("  Plans  "), false, true).unwrap(), Some("Plans".to_owned()));
    assert_eq!(check_chat_update(None, true, false).unwrap(), None);
    let e = check_chat_update(Some("   "), false, false).unwrap_err();
    assert_eq!((e.status, e.message.as_str()), (400, "Conversation name must contain 1–500 bytes"));
    assert_eq!(check_chat_update(Some(&"n".repeat(501)), false, false).unwrap_err().status, 400);
    assert!(check_chat_update(Some(&"n".repeat(500)), false, false).is_ok());
    let e = check_chat_update(Some("ok"), true, true).unwrap_err();
    assert_eq!((e.status, e.message.as_str()), (409, "Stop the conversation before archiving"));
}
