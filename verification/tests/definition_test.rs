use agent_stream_kit::definition::{AgentConfigEntry, AgentDefinition, AgentDisplayConfigEntry};
use agent_stream_kit::float64::Float64;
use agent_stream_kit::keymap::KeyMap;
use agent_stream_kit::value::AgentValue;
use std::collections::HashMap;

fn num(f: f64) -> Float64 {
    Float64::from_bits(f.to_bits())
}

fn echo_agent_definition() -> AgentDefinition {
    AgentDefinition::new("test", "echo")
        .with_title("Echo")
        .with_category("Test")
        .with_inputs(vec!["in"])
        .with_outputs(vec!["out"])
        .with_display_configs(vec![
            (
                "value",
                AgentDisplayConfigEntry::new("string")
                    .with_title("display_title")
                    .with_description("display_description"),
            ),
            ("hide_title_value", AgentDisplayConfigEntry::new("integer").with_hide_title()),
        ])
}

fn custom_object_value() -> AgentValue {
    let mut m = KeyMap::new();
    m.insert("key".to_string(), AgentValue::string("value"));
    AgentValue::object(m)
}

#[test]
fn test_agent_definition() {
    let def = AgentDefinition::default();
    assert_eq!(def.name, "");
}

#[test]
fn test_agent_definition_new_default() {
    let def = AgentDefinition::new("test", "echo");
    assert_eq!(def.kind, "test");
    assert_eq!(def.name, "echo");
    assert!(def.title.is_none());
    assert!(def.category.is_none());
    assert!(def.inputs.is_none());
    assert!(def.outputs.is_none());
    assert!(def.display_configs.is_none());
}

#[test]
fn test_agent_definition_new() {
    let def = echo_agent_definition();

    assert_eq!(def.kind, "test");
    assert_eq!(def.name, "echo");
    assert_eq!(def.title.unwrap(), "Echo");
    assert_eq!(def.category.unwrap(), "Test");
    assert_eq!(def.inputs.unwrap(), vec!["in"]);
    assert_eq!(def.outputs.unwrap(), vec!["out"]);
    let display_configs = def.display_configs.unwrap();
    assert_eq!(display_configs.len(), 2);
    let entry = &display_configs[0];
    assert_eq!(entry.0, "value");
    assert_eq!(entry.1.type_.as_ref().unwrap(), "string");
    assert_eq!(entry.1.title.as_ref().unwrap(), "display_title");
    assert_eq!(entry.1.description.as_ref().unwrap(), "display_description");
    assert_eq!(entry.1.hide_title, false);
    let entry = &display_configs[1];
    assert_eq!(entry.0, "hide_title_value");
    assert_eq!(entry.1.type_.as_ref().unwrap(), "integer");
    assert_eq!(entry.1.title, None);
    assert_eq!(entry.1.description, None);
    assert_eq!(entry.1.hide_title, true);
}

#[test]
fn test_default_config_helpers() {
    let def = AgentDefinition::new("test", "helpers")
        .with_unit_config("unit_value")
        .with_boolean_config_default("boolean_value")
        .with_boolean_config("boolean_custom", true)
        .with_integer_config_default("integer_value")
        .with_integer_config("integer_custom", 42)
        .with_number_config_default("number_value")
        .with_number_config("number_custom", num(1.5))
        .with_string_config_default("string_default")
        .with_string_config("string_value", "value")
        .with_text_config_default("text_value")
        .with_text_config("text_custom", "custom")
        .with_object_config_default("object_value")
        .with_object_config("object_custom", custom_object_value());

    let configs = def.default_configs.clone().expect("default configs should exist");
    assert_eq!(configs.len(), 13);
    let config_map: HashMap<String, AgentConfigEntry> = configs.into_iter().collect();

    let expect = |key: &str, type_: &str, value: AgentValue| {
        let entry = config_map.get(key).unwrap();
        assert_eq!(entry.type_.as_deref(), Some(type_));
        assert_eq!(entry.value, value);
    };
    expect("unit_value", "unit", AgentValue::unit());
    expect("boolean_value", "boolean", AgentValue::boolean(false));
    expect("boolean_custom", "boolean", AgentValue::boolean(true));
    expect("integer_value", "integer", AgentValue::integer(0));
    expect("integer_custom", "integer", AgentValue::integer(42));
    expect("number_value", "number", AgentValue::number(num(0.0)));
    expect("number_custom", "number", AgentValue::number(num(1.5)));
    expect("string_default", "string", AgentValue::string(""));
    expect("string_value", "string", AgentValue::string("value"));
    expect("text_value", "text", AgentValue::string(""));
    expect("text_custom", "text", AgentValue::string("custom"));
    expect("object_value", "object", AgentValue::object_default());
    expect("object_custom", "object", custom_object_value());
}

#[test]
fn test_global_config_helpers() {
    let def = AgentDefinition::new("test", "helpers")
        .with_unit_global_config("global_unit")
        .with_boolean_global_config("global_boolean", true)
        .with_integer_global_config("global_integer", 42)
        .with_number_global_config("global_number", num(1.5))
        .with_string_global_config("global_string", "value")
        .with_text_global_config("global_text", "global")
        .with_object_global_config("global_object", custom_object_value());

    let global_configs = def.global_configs.expect("global configs should exist");
    assert_eq!(global_configs.len(), 7);
    let config_map: HashMap<String, AgentConfigEntry> = global_configs.into_iter().collect();

    let expect = |key: &str, type_: &str, value: AgentValue| {
        let entry = config_map.get(key).unwrap();
        assert_eq!(entry.type_.as_deref(), Some(type_));
        assert_eq!(entry.value, value);
    };
    expect("global_unit", "unit", AgentValue::unit());
    expect("global_boolean", "boolean", AgentValue::boolean(true));
    expect("global_integer", "integer", AgentValue::integer(42));
    expect("global_number", "number", AgentValue::number(num(1.5)));
    expect("global_string", "string", AgentValue::string("value"));
    expect("global_text", "text", AgentValue::string("global"));
    expect("global_object", "object", custom_object_value());
}

#[test]
fn test_display_config_helpers() {
    let def = AgentDefinition::new("test", "helpers")
        .with_unit_display_config("display_unit")
        .with_boolean_display_config("display_boolean")
        .with_integer_display_config("display_integer")
        .with_number_display_config("display_number")
        .with_string_display_config("display_string")
        .with_text_display_config("display_text")
        .with_object_display_config("display_object");

    let display_configs = def.display_configs.expect("display configs should exist");
    assert_eq!(display_configs.len(), 7);
    let config_map: HashMap<String, AgentDisplayConfigEntry> = display_configs.into_iter().collect();

    assert_eq!(config_map.get("display_unit").unwrap().type_.as_deref(), Some("unit"));
    assert_eq!(config_map.get("display_boolean").unwrap().type_.as_deref(), Some("boolean"));
    assert_eq!(config_map.get("display_integer").unwrap().type_.as_deref(), Some("integer"));
    assert_eq!(config_map.get("display_number").unwrap().type_.as_deref(), Some("number"));
    assert_eq!(config_map.get("display_string").unwrap().type_.as_deref(), Some("string"));
    assert_eq!(config_map.get("display_text").unwrap().type_.as_deref(), Some("text"));
    assert_eq!(config_map.get("display_object").unwrap().type_.as_deref(), Some("object"));

    for entry in config_map.values() {
        assert!(!entry.hide_title);
    }
}

#[test]
fn test_config_helper_customization() {
    let def = AgentDefinition::new("test", "custom")
        .with_integer_config_with("custom_default", 1, |entry| entry.with_title("Custom"))
        .with_text_global_config_with("custom_global", "value", |entry| {
            entry.with_description("Global Desc")
        })
        .with_text_display_config_with("custom_display", |entry| entry.with_title("Display"));

    let default_entry = def
        .default_configs
        .as_ref()
        .unwrap()
        .iter()
        .find(|(k, _)| k == "custom_default")
        .map(|(_, v)| v)
        .unwrap();
    assert_eq!(default_entry.title.as_deref(), Some("Custom"));

    let global_entry = def
        .global_configs
        .as_ref()
        .unwrap()
        .iter()
        .find(|(k, _)| k == "custom_global")
        .map(|(_, v)| v)
        .unwrap();
    assert_eq!(global_entry.description.as_deref(), Some("Global Desc"));

    let display_entry = def
        .display_configs
        .as_ref()
        .unwrap()
        .iter()
        .find(|(k, _)| k == "custom_display")
        .map(|(_, v)| v)
        .unwrap();
    assert_eq!(display_entry.title.as_deref(), Some("Display"));
}

#[test]
fn config_entries_are_appended_in_call_order() {
    let def = AgentDefinition::new("test", "order")
        .with_integer_config("b", 1)
        .with_integer_config("a", 2)
        .with_integer_config("b", 3);
    let configs = def.default_configs.unwrap();
    assert_eq!(configs.len(), 3);
    assert_eq!(configs[0].0, "b");
    assert_eq!(configs[0].1.value, AgentValue::integer(1));
    assert_eq!(configs[1].0, "a");
    assert_eq!(configs[2].0, "b");
    assert_eq!(configs[2].1.value, AgentValue::integer(3));
}

#[test]
fn hidden_config_entry_is_marked() {
    let entry = AgentConfigEntry::new(AgentValue::integer(1), "integer").with_hidden();
    assert!(entry.hidden);
    assert_eq!(entry.type_.as_deref(), Some("integer"));
}
