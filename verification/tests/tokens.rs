use potato_core::tokens::{estimate_fits, request_fits};
use potato_core::tokens::{estimate, measurement, request_tokens, Anchor, Field, Json, Source};
use serde_json::Value;
use std::hash::{Hash, Hasher};

fn model(value: &Value) -> Json {
    match value {
        Value::Null => Json::Null,
        Value::Bool(b) => Json::Bool(*b),
        Value::Number(_) => Json::Number,
        Value::String(s) => Json::Text(s.clone()),
        Value::Array(items) => Json::Array(items.iter().map(model).collect()),
        Value::Object(fields) => {
            Json::Object(fields.iter().map(|(k, v)| Field { key: k.clone(), value: model(v) }).collect())
        }
    }
}

fn fingerprint(value: &impl serde::Serialize) -> u64 {
    let mut h = std::collections::hash_map::DefaultHasher::new();
    serde_json::to_vec(value).unwrap_or_default().hash(&mut h);
    h.finish()
}

fn parse(text: &str) -> Value {
    serde_json::from_str(text).unwrap()
}

fn models(values: &[Value]) -> Vec<Json> {
    values.iter().map(model).collect()
}

fn request(messages: &[Value], tools: &[Value]) -> usize {
    request_tokens(&models(messages), &models(tools))
}

fn measured(messages: &[Value], tools: &[Value], anchor: &Value, identity: u64) -> usize {
    let a = Anchor {
        messages: anchor["messages"].as_u64(),
        identity: anchor["identity"].as_u64(),
        tools: anchor["tools"].as_u64(),
        prefix: anchor["prefix"].as_u64(),
        input_tokens: anchor["input_tokens"].as_u64(),
    };
    let n = a.messages.unwrap_or(u64::MAX);
    let prefix = if n <= messages.len() as u64 { Some(fingerprint(&&messages[..n as usize])) } else { None };
    measurement(&models(messages), &models(tools), &a, identity, fingerprint(&tools), prefix).tokens
}

fn anchor(identity: u64, messages: &[Value], tools: &[Value], input_tokens: u64) -> Value {
    let mut a = serde_json::Map::new();
    a.insert("identity".into(), Value::from(identity));
    a.insert("messages".into(), Value::from(messages.len() as u64));
    a.insert("prefix".into(), Value::from(fingerprint(&messages)));
    a.insert("tools".into(), Value::from(fingerprint(&tools)));
    a.insert("input_tokens".into(), Value::from(input_tokens));
    Value::Object(a)
}

fn user(content: &str) -> Value {
    let mut m = serde_json::Map::new();
    m.insert("role".into(), Value::from("user"));
    m.insert("content".into(), Value::from(content));
    Value::Object(m)
}

#[test]
fn measured_usage_can_lower_estimate_and_metadata_is_not_tokenized() {
    let tools: Vec<Value> = vec![];
    let mut messages = vec![user(&"长文本".repeat(10_000))];
    let a = anchor(7, &messages, &tools, 1000);
    assert!(request(&messages, &tools) > 1000);
    assert_eq!(measured(&messages, &tools, &a, 7), 1000);
    let visible = parse(r#"{"role":"assistant","content":"new"}"#);
    let mut appended = visible.clone();
    let reasoning = format!(r#"[{{"encrypted_content":"{}"}}]"#, "x".repeat(90_000));
    let output = format!(r#"[{{"type":"reasoning","encrypted_content":"{}"}}]"#, "y".repeat(90_000));
    appended["_responses_reasoning"] = parse(&reasoning);
    appended["_responses_output"] = parse(&output);
    assert_eq!(estimate(&model(&appended)), estimate(&model(&visible)));
    messages.push(appended);
    assert_eq!(measured(&messages, &tools, &a, 7), 1000 + estimate(&model(&visible)));
    messages.pop();
    messages.clear();
    assert_eq!(measured(&messages, &tools, &a, 7), request(&messages, &tools));
}

#[test]
fn measured_usage_only_applies_to_the_same_prefix_tools_and_provider() {
    let tools = vec![parse(r#"{"function":{"name":"read_file"}}"#)];
    let mut messages = vec![user("start")];
    let a = anchor(42, &messages, &tools, 10_000);
    messages.push(parse(r#"{"role":"assistant","content":"new output"}"#));
    assert_eq!(measured(&messages, &tools, &a, 42), 10_000 + estimate(&model(&messages[1])));
    assert_eq!(measured(&messages, &tools, &a, 43), request(&messages, &tools));
    assert_eq!(measured(&messages, &[], &a, 42), request(&messages, &[]));
    messages[0]["content"] = Value::from("rewritten prefix");
    assert_eq!(measured(&messages, &tools, &a, 42), request(&messages, &tools));
}

#[test]
fn estimates_follow_the_counting_rules() {
    assert_eq!(estimate(&Json::Null), 4);
    assert_eq!(estimate(&Json::Number), 4);
    assert_eq!(estimate(&Json::Text("abcd".into())), 4);
    assert_eq!(estimate(&Json::Text("".into())), 2);
    assert_eq!(estimate(&Json::Text("中".into())), 3);
    assert_eq!(estimate(&model(&parse(r#"[1, "abc"]"#))), 2 + 4 + 3);
    assert_eq!(estimate(&model(&parse(r#"{"type":"image_url","image_url":{"url":"data:..."}}"#))), 4096);
    // 4 + ("type": 2 + 4 + 2) + ("text": 2 + 2 + 2)
    assert_eq!(estimate(&model(&parse(r#"{"type":"text","text":""}"#))), 4 + 8 + 6);
}

#[test]
fn measurement_sources_name_where_the_count_came_from() {
    let tools: Vec<Value> = vec![];
    let messages = vec![user("a"), user("b")];
    let mut a = Anchor { messages: Some(1), identity: Some(1), tools: Some(fingerprint(&tools)), prefix: None, input_tokens: Some(5) };
    let prefix = Some(fingerprint(&&messages[..1]));
    a.prefix = prefix;
    let m = measurement(&models(&messages), &models(&tools), &a, 1, fingerprint(&tools), prefix);
    assert_eq!(m.source, Source::ProviderPlusEstimate);
    assert_eq!(m.source.name(), "provider_plus_estimate");
    assert_eq!(m.tokens, 5 + estimate(&model(&messages[1])));
    a.input_tokens = None;
    let m = measurement(&models(&messages), &models(&tools), &a, 1, fingerprint(&tools), prefix);
    assert_eq!((m.source, m.tokens), (Source::Heuristic, request(&messages, &tools)));
    a.input_tokens = Some(u64::MAX);
    let m = measurement(&models(&messages), &models(&tools), &a, 1, fingerprint(&tools), prefix);
    assert_eq!(m.tokens, usize::MAX);
}

#[test]
fn ordinary_requests_fit_the_estimate() {
    let message = Json::Text("hello".to_string());
    assert!(estimate_fits(&message));
    assert!(request_fits(&vec![message], &vec![]));
    assert!(request_fits(&vec![], &vec![]));
}
