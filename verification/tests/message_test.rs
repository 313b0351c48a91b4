use agent_stream_kit::data::AgentData;
use agent_stream_kit::float64::Float64;
use agent_stream_kit::json::{JsonNumber, JsonValue};
use agent_stream_kit::keymap::KeyMap;
use agent_stream_kit::message::{add_message, is_message, is_message_history, Message, MessageHistory};
use agent_stream_kit::value::AgentValue;

fn from_serde(v: &serde_json::Value) -> JsonValue {
    match v {
        serde_json::Value::Null => JsonValue::Null,
        serde_json::Value::Bool(b) => JsonValue::Bool(*b),
        serde_json::Value::Number(n) => {
            if let Some(u) = n.as_u64() {
                JsonValue::Number(JsonNumber::PosInt(u))
            } else if let Some(i) = n.as_i64() {
                JsonValue::Number(JsonNumber::NegInt(i))
            } else {
                JsonValue::Number(JsonNumber::Float(Float64::from_bits(n.as_f64().unwrap().to_bits())))
            }
        }
        serde_json::Value::String(s) => JsonValue::String(s.clone()),
        serde_json::Value::Array(a) => JsonValue::Array(a.iter().map(from_serde).collect()),
        serde_json::Value::Object(m) => {
            let mut out = KeyMap::new();
            for (k, v) in m {
                out.insert(k.clone(), from_serde(v));
            }
            JsonValue::Object(out)
        }
    }
}

fn json(text: &str) -> JsonValue {
    from_serde(&serde_json::from_str::<serde_json::Value>(text).unwrap())
}

fn obj(entries: &[(&str, AgentValue)]) -> KeyMap<AgentValue> {
    let mut m = KeyMap::new();
    for (k, v) in entries {
        m.insert(k.to_string(), v.clone());
    }
    m
}

fn message(role: &str, content: &str, id: Option<&str>) -> Message {
    let mut m = Message::new(role.to_string(), content.to_string());
    m.id = id.map(|s| s.to_string());
    m
}

#[test]
fn test_message_to_from_agent_data() {
    let msg = Message::assistant("Hello, how can I help you?".to_string());
    let data: AgentData = msg.clone().to_data();
    let msg_converted = Message::try_from_data(data).unwrap();
    assert_eq!(msg.role, msg_converted.role);
    assert_eq!(msg.content, msg_converted.content);
}

#[test]
fn test_message_to_from_agent_value() {
    let msg = Message::user("What is the weather today?".to_string());
    let value: AgentValue = msg.clone().to_value();
    let msg_converted = Message::try_from_value(value).unwrap();
    assert_eq!(msg.role, msg_converted.role);
    assert_eq!(msg.content, msg_converted.content);
}

#[test]
fn test_message_from_string_value() {
    let value = AgentValue::string("Just a simple message");
    let msg = Message::try_from_value(value).unwrap();
    assert_eq!(msg.role, "user");
    assert_eq!(msg.content, "Just a simple message");
}

#[test]
fn test_message_from_object_value() {
    let value = AgentValue::object(obj(&[
        ("role", AgentValue::string("assistant")),
        ("content", AgentValue::string("Here is some information.")),
    ]));
    let msg = Message::try_from_value(value).unwrap();
    assert_eq!(msg.role, "assistant");
    assert_eq!(msg.content, "Here is some information.");
}

#[test]
fn test_message_history_from_json() {
    let value = json(
        r#"[
            { "role": "user", "content": "Hello" },
            { "role": "assistant", "content": "Hi there!" }
        ]"#,
    );
    let history = MessageHistory::from_json(value).unwrap();
    let messages = history.messages();
    assert_eq!(messages.len(), 2);
    assert_eq!(messages[0].role, "user");
    assert_eq!(messages[0].content, "Hello");
    assert_eq!(messages[1].role, "assistant");
    assert_eq!(messages[1].content, "Hi there!");
}

#[test]
fn test_message_history_parse() {
    let text = r#"[{"role": "user", "content": "Hello"}, {"role": "assistant", "content": "Hi there!"}]"#;
    let history = MessageHistory::parse(text).unwrap();
    let messages = history.messages();
    assert_eq!(messages.len(), 2);
    assert_eq!(messages[0].role, "user");
    assert_eq!(messages[0].content, "Hello");
    assert_eq!(messages[1].role, "assistant");
    assert_eq!(messages[1].content, "Hi there!");
}

#[test]
fn test_message_from_invalid_value() {
    let value = AgentValue::integer(42);
    let result = Message::try_from_value(value);
    assert!(result.is_err());
}

#[test]
fn test_message_invalid_object() {
    let value = AgentValue::object(obj(&[("some_key", AgentValue::string("some_value"))]));
    let result = Message::try_from_value(value);
    assert!(result.is_err());
}

#[test]
fn history_from_json_rejects_non_arrays_and_bad_items() {
    assert!(MessageHistory::from_json(json(r#"{"role":"user"}"#)).is_err());
    assert!(MessageHistory::from_json(json(r#"[{"role":"user"}]"#)).is_err());
    assert!(MessageHistory::from_json(json(r#"[{"role":"user","content":3}]"#)).is_err());
}

#[test]
fn history_keeps_the_last_messages_and_the_system_message() {
    let messages = vec![
        message("system", "be brief", None),
        message("user", "a", Some("1")),
        message("assistant", "b", Some("2")),
        message("user", "c", Some("3")),
    ];
    let mut history = MessageHistory::new(messages, 2);
    let kept = history.messages();
    assert_eq!(kept.len(), 2);
    assert_eq!(kept[0].content, "b");
    assert_eq!(kept[1].content, "c");

    history.include_system(true);
    let with_system = history.messages();
    assert_eq!(with_system.len(), 3);
    assert_eq!(with_system[0].role, "system");
    assert_eq!(with_system[0].content, "be brief");
}

#[test]
fn push_keeps_the_size_limit() {
    let mut history = MessageHistory::new(vec![], 2);
    history.push(message("user", "a", Some("1")));
    history.push(message("user", "b", Some("2")));
    history.push(message("user", "c", Some("3")));
    let kept = history.messages();
    assert_eq!(kept.len(), 2);
    assert_eq!(kept[0].content, "b");
    assert_eq!(kept[1].content, "c");
}

#[test]
fn push_with_the_same_id_updates_the_last_message() {
    let mut history = MessageHistory::new(vec![], 0);
    history.push(message("assistant", "Hel", Some("x")));
    history.push(message("user", "Hello", Some("x")));
    let kept = history.messages();
    assert_eq!(kept.len(), 1);
    assert_eq!(kept[0].role, "assistant");
    assert_eq!(kept[0].content, "Hello");
}

#[test]
fn set_size_trims_to_the_newest() {
    let mut history = MessageHistory::new(
        vec![message("user", "a", Some("1")), message("user", "b", Some("2")), message("user", "c", Some("3"))],
        0,
    );
    history.set_size(1);
    let kept = history.messages();
    assert_eq!(kept.len(), 1);
    assert_eq!(kept[0].content, "c");
    history.reset();
    assert!(history.messages().is_empty());
}

#[test]
fn message_data_is_recognised() {
    let data = message("user", "hi", None).to_data();
    assert_eq!(data.kind, "message");
    assert!(is_message(&data));
    assert!(!is_message_history(&data));

    let history = MessageHistory::new(vec![message("user", "hi", None)], 0).to_data();
    assert_eq!(history.kind, "message");
    assert_eq!(history.as_array().unwrap().len(), 1);

    let added = add_message(history, message("assistant", "hello", None));
    assert_eq!(added.kind, "message");
    let items = added.as_array().unwrap();
    assert_eq!(items.len(), 2);
    assert_eq!(items[1].get_str("content"), Some("hello"));

    let mut wrapped = KeyMap::new();
    wrapped.insert("message".to_string(), message("user", "hi", None).to_value());
    wrapped.insert("history".to_string(), AgentValue::array(vec![]));
    assert!(is_message_history(&AgentData::object(wrapped)));
}

#[test]
fn message_value_keeps_the_id() {
    let value = message("user", "hi", Some("abc")).to_value();
    assert_eq!(value.get_str("id"), Some("abc"));
    let back = Message::try_from_value(value).unwrap();
    assert_eq!(back.id.as_deref(), Some("abc"));
}

#[test]
fn push_without_ids_appends() {
    let mut h = MessageHistory::new(vec![Message::user("hi".to_string())], 0);
    h.push(Message::assistant("hello".to_string()));
    let ms = h.messages();
    assert_eq!(ms.len(), 2);
    assert_eq!(ms[0].content, "hi");
    assert_eq!(ms[1].role, "assistant");
    assert_eq!(ms[1].content, "hello");
}

#[test]
fn push_without_ids_keeps_the_size_limit() {
    let mut h = MessageHistory::new(vec![], 2);
    h.push(Message::user("a".to_string()));
    h.push(Message::user("b".to_string()));
    h.push(Message::user("c".to_string()));
    let ms = h.messages();
    assert_eq!(ms.len(), 2);
    assert_eq!(ms[0].content, "b");
    assert_eq!(ms[1].content, "c");
}

#[test]
fn kept_system_message_is_not_repeated() {
    let mut h = MessageHistory::new(
        vec![
            Message::user("a".to_string()),
            Message::system("s".to_string()),
            Message::user("b".to_string()),
            Message::user("c".to_string()),
        ],
        3,
    );
    h.include_system(true);
    let pairs: Vec<(String, String)> = h.messages().into_iter().map(|m| (m.role, m.content)).collect();
    assert_eq!(
        pairs,
        vec![
            ("system".to_string(), "s".to_string()),
            ("user".to_string(), "b".to_string()),
            ("user".to_string(), "c".to_string()),
        ]
    );
}

#[test]
fn set_size_keeps_aside_a_dropped_system_message() {
    let mut h = MessageHistory::new(
        vec![
            Message::system("s".to_string()),
            Message::user("a".to_string()),
            Message::user("b".to_string()),
        ],
        0,
    );
    h.set_size(2);
    h.include_system(true);
    let ms = h.messages();
    assert_eq!(ms.len(), 3);
    assert_eq!(ms[0].role, "system");
    assert_eq!(ms[1].content, "a");
    assert_eq!(ms[2].content, "b");
}

#[test]
fn parse_refuses_text_that_is_not_json() {
    match MessageHistory::parse("[{") {
        Err(agent_stream_kit::error::AgentError::InvalidValue(m)) => {
            assert!(m.starts_with("Failed to parse JSON for MessageHistory: "))
        }
        _ => panic!("expected a parse failure"),
    }
    assert!(MessageHistory::parse(r#"{"role":"user"}"#).is_err());
    assert!(MessageHistory::parse(r#"[{"role":"user"}]"#).is_err());
}
