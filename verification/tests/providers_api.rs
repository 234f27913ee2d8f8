use potato_core::api::{check_active_model, check_custom_provider, masked_key};

fn ids() -> Vec<String> {
    vec!["deepseek".to_string(), "sub2api".to_string()]
}

fn problem(id: &str, name: &str, protocol: Option<&str>, url: &str) -> Option<(u16, String)> {
    check_custom_provider(&ids(), id, name, protocol, url).err().map(|e| (e.status, e.message))
}

#[test]
fn custom_providers_are_checked_in_order() {
    assert_eq!(problem("mine", "Mine", None, ""), None);
    assert_eq!(problem("mine", "Mine", Some("OpenAIResponseModel"), "https://api.example.com/v1"), None);
    assert_eq!(problem(" ", "Mine", None, ""), Some((400, "id is required".to_string())));
    assert_eq!(problem("deepseek", "", Some("Bogus"), "x"), Some((409, "Provider already exists".to_string())));
    assert_eq!(problem("mine", "", Some("AnthropicChatModel"), ""), Some((501, "This model protocol has not been migrated".to_string())));
    assert_eq!(problem("mine", "", None, "ftp://x"), Some((400, "Provider URL must be HTTP(S), without credentials, query or fragment".to_string())));
    assert_eq!(problem("mine", "", None, ""), Some((400, "name is required".to_string())));
}

#[test]
fn active_model_must_name_a_saved_provider() {
    assert!(check_active_model(&ids(), "deepseek", "deepseek-chat").is_ok());
    assert_eq!(check_active_model(&ids(), "", "m").unwrap_err().message, "provider_id is required");
    assert_eq!(check_active_model(&ids(), "deepseek", " ").unwrap_err().message, "model is required");
    let e = check_active_model(&ids(), "openai", "gpt").unwrap_err();
    assert_eq!((e.status, e.message.as_str()), (404, "Provider not found"));
    assert_eq!(masked_key(""), "");
    assert_eq!(masked_key("sk-1"), "********");
}
