use agent_stream_kit::askit::ASKit;
use agent_stream_kit::board_agent::register_agents;
use agent_stream_kit::config::AgentConfig;
use agent_stream_kit::context::AgentContext;
use agent_stream_kit::data::AgentData;
use agent_stream_kit::error::AgentError;
use agent_stream_kit::ids::{decimal_string, IdCounter};
use agent_stream_kit::json::{JsonNumber, JsonValue};
use agent_stream_kit::keymap::KeyMap;
use agent_stream_kit::llm::{
    api_key, chat_answer_message, chat_input_messages, chat_role_of, completion_input_messages, joined_contents,
    merge_options, ollama_url, output_message, output_text, response_role_of, text_input, uses_options, ChatRole,
    ChatStream, OutputItem, OutputPart, ResponseEvent, ResponseRole, StreamStep,
};
use agent_stream_kit::message::Message;
use agent_stream_kit::names::{is_valid_flow_name, trim_string};
use agent_stream_kit::rig::{
    add_preamble_to_value, collect_outputs, combine_text_and_image_value, data_to_prompts, output_item_to_message,
    value_to_message_history, value_to_user_message, PromptMessage, RigMemory,
};
use agent_stream_kit::std_agents::{get_property, string_join, Zip};
use agent_stream_kit::value::AgentValue;

fn obj(entries: &[(&str, AgentValue)]) -> AgentValue {
    let mut m = KeyMap::new();
    for (k, v) in entries {
        m.insert(k.to_string(), v.clone());
    }
    AgentValue::object(m)
}

fn jobj(entries: Vec<(&str, JsonValue)>) -> JsonValue {
    let mut m = KeyMap::new();
    for (k, v) in entries {
        m.insert(k.to_string(), v);
    }
    JsonValue::Object(m)
}

fn jstr(s: &str) -> JsonValue {
    JsonValue::String(s.to_string())
}

fn msg(role: &str, content: &str) -> AgentValue {
    obj(&[("role", AgentValue::string(role)), ("content", AgentValue::string(content))])
}

#[test]
fn decimal_identifiers() {
    assert_eq!(decimal_string(0), "0");
    assert_eq!(decimal_string(7), "7");
    assert_eq!(decimal_string(1234567890), "1234567890");
    let mut counter = IdCounter::new();
    assert_eq!(counter.fetch_next(), 1);
    assert_eq!(counter.fetch_next(), 2);
}

#[test]
fn context_variables_read_back() {
    let mut counter = IdCounter::new();
    let ctx = AgentContext::new(&mut counter);
    let ctx2 = AgentContext::new(&mut counter);
    assert_ne!(ctx.id(), ctx2.id());
    assert!(ctx.get_var("x").is_none());
    let with = ctx.with_var("x".to_string(), AgentValue::integer(5));
    assert_eq!(with.get_var("x"), Some(&AgentValue::integer(5)));
    assert_eq!(with.id(), ctx.id());
    let again = with.with_var("x".to_string(), AgentValue::integer(6));
    assert_eq!(again.get_var("x"), Some(&AgentValue::integer(6)));
}

#[test]
fn flow_name_rules() {
    assert_eq!(trim_string("  a b \n"), "a b");
    assert_eq!(trim_string("\u{3000}x\u{3000}"), "x");
    assert!(is_valid_flow_name("main"));
    assert!(is_valid_flow_name("dir/main"));
    assert!(!is_valid_flow_name("   "));
    assert!(!is_valid_flow_name("a//b"));
    assert!(!is_valid_flow_name("a/../b"));
    assert!(!is_valid_flow_name("a:b"));
    assert!(!is_valid_flow_name("/abs"));
}

#[test]
fn error_messages() {
    assert_eq!(AgentError::AgentNotFound("7".to_string()).message(), "Agent 7 not found");
    assert_eq!(AgentError::EmptySourceHandle.message(), "Source handle is empty");
    assert_eq!(
        AgentError::DuplicateFlowName("f".to_string()).message(),
        "Agent flow f already exists"
    );
}

#[test]
fn board_agents_are_registered() {
    let mut askit = ASKit::new();
    register_agents(&mut askit);
    assert!(askit.get_agent_definition("core_board_in").is_some());
    assert!(askit.get_agent_definition("core_board_out").is_some());
}

#[test]
fn string_join_joins_and_unescapes() {
    let data = AgentData::array(
        "string",
        vec![AgentValue::string("a"), AgentValue::integer(1), AgentValue::string("b")],
    );
    let out = string_join(data, "\\n");
    assert_eq!(out.kind, "string");
    assert_eq!(out.as_str(), Some("a\n\nb"));

    let passed = string_join(AgentData::integer(3), ",");
    assert_eq!(passed, AgentData::integer(3));
}

#[test]
fn get_property_follows_the_path() {
    let inner = obj(&[("c", AgentValue::integer(5))]);
    let data = AgentData::object(match obj(&[("b", inner)]) {
        AgentValue::Object(m) => m,
        _ => unreachable!(),
    });
    let found = get_property(&data, "b.c").unwrap();
    assert_eq!(found.value, AgentValue::integer(5));
    assert_eq!(found.kind, "integer");
    assert!(get_property(&data, "").is_none());

    let arr = AgentData::array("object", vec![obj(&[("x", AgentValue::integer(1))]), obj(&[])]);
    let found = get_property(&arr, "x").unwrap();
    assert_eq!(found.kind, "integer");
    assert_eq!(found.value, AgentValue::array(vec![AgentValue::integer(1), AgentValue::unit()]));
}

#[test]
fn zip_waits_for_every_port() {
    let mut config = AgentConfig::new();
    config.set("key1".to_string(), AgentValue::string("a"));
    config.set("key2".to_string(), AgentValue::string("b"));
    let mut zip = Zip::new();
    assert!(zip.configure(1, &config).is_err());
    zip.configure(2, &config).unwrap();

    assert!(zip.process(1, "in1", &AgentValue::integer(1)).unwrap().is_none());
    let out = zip.process(1, "in2", &AgentValue::integer(2)).unwrap().unwrap();
    assert_eq!(out.value.get_i64("a"), Some(1));
    assert_eq!(out.value.get_i64("b"), Some(2));

    assert!(zip.process(2, "in1", &AgentValue::integer(3)).unwrap().is_none());
    assert!(zip.process(3, "in2", &AgentValue::integer(4)).unwrap().is_none());
}

#[test]
fn zip_refuses_empty_keys() {
    let config = AgentConfig::new();
    let mut zip = Zip::new();
    zip.configure(2, &config).unwrap();
    assert!(zip.process(1, "in1", &AgentValue::integer(1)).is_err());
}

#[test]
fn chat_inputs() {
    let from_text = chat_input_messages(&AgentData::string("hi")).unwrap();
    assert_eq!(from_text.len(), 1);
    assert_eq!(from_text[0].role, "user");
    assert_eq!(from_text[0].content, "hi");
    assert!(chat_input_messages(&AgentData::string("")).unwrap().is_empty());
    assert!(chat_input_messages(&AgentData::integer(1)).unwrap().is_empty());

    let with_history = AgentData::from_value(obj(&[
        ("history", AgentValue::array(vec![msg("system", "s")])),
        ("message", msg("user", "u")),
    ]));
    let ms = chat_input_messages(&with_history).unwrap();
    assert_eq!(ms.len(), 2);
    assert_eq!(ms[0].role, "system");
    assert_eq!(ms[1].content, "u");

    let completion = completion_input_messages(&AgentData::array(
        "message",
        vec![msg("system", "s"), msg("user", "u")],
    ))
    .unwrap()
    .unwrap();
    assert_eq!(completion.len(), 2);
    assert!(completion_input_messages(&AgentData::array("message", vec![msg("user", "u"), msg("assistant", "a")]))
        .unwrap()
        .is_none());

    assert_eq!(text_input(&AgentData::string("q")).as_deref(), Some("q"));
    assert!(text_input(&AgentData::string("")).is_none());
}

#[test]
fn request_options() {
    assert!(!uses_options(""));
    assert!(!uses_options("{}"));
    assert!(uses_options(r#"{"temperature":0.5}"#));

    let request = jobj(vec![("model", jstr("m")), ("stream", JsonValue::Bool(false))]);
    let options = jobj(vec![("stream", JsonValue::Bool(true)), ("seed", JsonValue::Number(JsonNumber::PosInt(3)))]);
    let merged = merge_options(request, &options);
    match merged {
        JsonValue::Object(m) => {
            assert_eq!(m.len(), 3);
            assert!(matches!(m.get("stream"), Some(JsonValue::Bool(true))));
            assert!(matches!(m.get("model"), Some(JsonValue::String(s)) if s == "m"));
        }
        _ => panic!("expected an object"),
    }
}

#[test]
fn streamed_answers_accumulate() {
    let mut stream = ChatStream::new(Some("id1".to_string()));
    assert_eq!(stream.push_delta("Hel").content, "Hel");
    let m = stream.push_delta("lo");
    assert_eq!(m.content, "Hello");
    assert_eq!(m.role, "assistant");
    assert_eq!(m.id.as_deref(), Some("id1"));

    let m = stream.push_chunk(&vec![Some("!".to_string()), None, Some("?".to_string())], "id2".to_string());
    assert_eq!(m.content, "Hello!?");
    assert_eq!(m.id.as_deref(), Some("id2"));
    assert_eq!(joined_contents(&vec![None, Some("a".to_string()), Some("b".to_string())]), "ab");

    let mut responses = ChatStream::new(None);
    let step = responses.response_event(&ResponseEvent::OutputTextDelta {
        item_id: "x".to_string(),
        delta: "A".to_string(),
    });
    match step {
        StreamStep::Emit(m) => {
            assert_eq!(m.content, "A");
            assert_eq!(m.id.as_deref(), Some("x"));
        }
        StreamStep::Finish => panic!("expected a message"),
    }
    assert!(matches!(responses.response_event(&ResponseEvent::Completed), StreamStep::Finish));
}

#[test]
fn responses_and_roles() {
    let items = vec![
        OutputItem::Message(vec![OutputPart::Text("a".to_string()), OutputPart::Refusal("no".to_string())]),
        OutputItem::Other,
        OutputItem::Message(vec![OutputPart::Text("b".to_string())]),
    ];
    assert_eq!(output_text(&items), "ab");

    let m = output_message(
        ResponseRole::Assistant,
        &vec![OutputPart::Text("a".to_string()), OutputPart::Refusal("no".to_string())],
        "i".to_string(),
    );
    assert_eq!(m.role, "assistant");
    assert_eq!(m.content, "a Refusal: no");

    assert_eq!(response_role_of("system"), ResponseRole::System);
    assert_eq!(response_role_of("other"), ResponseRole::Developer);
    assert_eq!(chat_role_of("tool"), ChatRole::Tool);
    assert_eq!(chat_role_of("other"), ChatRole::User);
    let answer = chat_answer_message(ChatRole::Assistant, None);
    assert_eq!(answer.role, "assistant");
    assert_eq!(answer.content, "");
}

#[test]
fn service_settings() {
    assert_eq!(ollama_url(Some("http://x".to_string()), None, None), "http://x");
    assert_eq!(ollama_url(Some("".to_string()), Some("http://b".to_string()), None), "http://b");
    assert_eq!(ollama_url(None, None, Some("h".to_string())), "http://h:11434");
    assert_eq!(ollama_url(None, None, None), "http://localhost:11434");
    assert_eq!(api_key(Some("k".to_string())).as_deref(), Some("k"));
    assert!(api_key(Some("".to_string())).is_none());
    assert!(api_key(None).is_none());
}

#[test]
fn message_history_of_values() {
    let (message, history) = value_to_message_history(&AgentValue::array(vec![
        msg("system", "s"),
        msg("user", "u1"),
        msg("assistant", "a"),
        msg("user", "u2"),
    ]))
    .unwrap();
    let message = message.unwrap();
    assert_eq!(message.kind, "message");
    assert_eq!(message.value.get_str("content"), Some("u2"));
    assert_eq!(history.len(), 3);

    let user = value_to_user_message(&msg("user", "hello")).unwrap();
    match user {
        PromptMessage::User(parts) => assert_eq!(parts, vec!["hello".to_string()]),
        PromptMessage::Assistant(_) => panic!("expected a user message"),
    }
    assert!(value_to_user_message(&AgentValue::integer(1)).is_err());
}

#[test]
fn prompts_of_data() {
    let data = AgentData::from_value(obj(&[
        ("role", AgentValue::string("user")),
        ("content", AgentValue::string("q")),
        ("preamble", AgentValue::string("be kind")),
        ("history", AgentValue::array(vec![msg("assistant", "earlier")])),
    ]));
    let prompts = data_to_prompts(&data).unwrap();
    assert_eq!(prompts.len(), 1);
    assert_eq!(prompts[0].preamble.as_deref(), Some("be kind"));
    assert_eq!(prompts[0].history.len(), 1);
}

#[test]
fn preambles_and_images() {
    let with = add_preamble_to_value("p", &AgentValue::string("hi")).unwrap();
    assert_eq!(with.get_str("preamble"), Some("p"));
    assert_eq!(with.get_str("content"), Some("hi"));
    assert!(add_preamble_to_value("p", &AgentValue::integer(1)).is_err());

    let combined = combine_text_and_image_value("look", &AgentValue::string("data:image/png;base64,AA")).unwrap();
    assert_eq!(combined.get_str("role"), Some("user"));
    assert!(combine_text_and_image_value("look", &AgentValue::integer(1)).is_err());
}

#[test]
fn memory_keeps_the_last_entries() {
    let mut memory = RigMemory::new();
    let data = AgentData::array("message", vec![msg("user", "a"), msg("assistant", "b"), msg("user", "c")]);
    let (message, mem) = memory.memorize(2, &data).unwrap();
    assert!(message.is_some());
    assert_eq!(mem.kind, "message");
    let reset = memory.reset();
    assert_eq!(reset.as_array().unwrap().len(), 0);
}

#[test]
fn outputs_and_items() {
    assert!(collect_outputs(vec![], "k").unwrap().is_none());
    let one = collect_outputs(vec![obj(&[("a", AgentValue::integer(1))])], "k").unwrap().unwrap();
    assert_eq!(one.kind, "k");
    assert!(collect_outputs(vec![AgentValue::integer(1)], "k").is_err());
    let two = collect_outputs(vec![AgentValue::integer(1), AgentValue::integer(2)], "k").unwrap().unwrap();
    assert_eq!(two.as_array().unwrap().len(), 2);

    let item = jobj(vec![
        ("type", jstr("message")),
        ("role", jstr("assistant")),
        ("content", JsonValue::Array(vec![jobj(vec![("text", jstr("hi"))])])),
    ]);
    let m = output_item_to_message(&item).unwrap().unwrap();
    assert_eq!(m.get_str("role"), Some("assistant"));
    assert_eq!(m.get_str("content"), Some("hi"));
    assert!(output_item_to_message(&jobj(vec![("type", jstr("reasoning"))])).unwrap().is_none());
    assert!(output_item_to_message(&jobj(vec![("type", jstr("message"))])).is_err());
}

#[test]
fn message_constructors_set_roles() {
    assert_eq!(Message::system("s".to_string()).role, "system");
    assert_eq!(Message::user("u".to_string()).role, "user");
    assert_eq!(Message::assistant("a".to_string()).role, "assistant");
}

#[test]
fn config_reads_back_what_was_set() {
    let mut config = AgentConfig::new();
    config.set("a".to_string(), AgentValue::integer(1));
    config.set("b".to_string(), AgentValue::string("x"));
    config.set("a".to_string(), AgentValue::integer(2));
    assert_eq!(config.get("a"), Some(&AgentValue::integer(2)));
    assert_eq!(config.get_string("b").as_deref(), Some("x"));
    assert_eq!(config.get_integer_or("missing", 9), 9);
    assert!(config.get("c").is_none());
}

#[test]
fn observer_ids_count_up() {
    let mut counter = IdCounter::new();
    assert_eq!(agent_stream_kit::askit::new_observer_id(&mut counter), 1);
    assert_eq!(agent_stream_kit::askit::new_observer_id(&mut counter), 2);
}

#[test]
fn context_ids_never_repeat() {
    let mut counter = IdCounter::new();
    let ids: Vec<usize> = (0..100).map(|_| AgentContext::new(&mut counter).id()).collect();
    assert_eq!(ids[0], 1);
    for w in ids.windows(2) {
        assert!(w[0] < w[1]);
    }
}
