use agent_stream_kit::data::AgentData;
use agent_stream_kit::error::AgentError;
use agent_stream_kit::inputs::{path_input, string_input, write_file_input};
use agent_stream_kit::keymap::KeyMap;
use agent_stream_kit::pixels::{images_are_different, is_blank};
use agent_stream_kit::templates::{check_template, rendered_string, rendered_strings, template_array_input, template_items};
use agent_stream_kit::value::AgentValue;

fn object(entries: &[(&str, AgentValue)]) -> AgentData {
    let mut m = KeyMap::new();
    for (k, v) in entries {
        m.insert(k.to_string(), v.clone());
    }
    AgentData::object(m)
}

fn invalid_value(r: Result<impl std::fmt::Debug, AgentError>) -> String {
    match r {
        Err(AgentError::InvalidValue(m)) => m,
        other => panic!("expected an invalid value, got {:?}", other),
    }
}

#[test]
fn blank_images() {
    assert!(is_blank(&vec![], 10, 0));
    assert!(!is_blank(&vec![0], 10, 0));
    assert!(is_blank(&vec![0, 5, 9, 10], 10, 2));
    assert!(!is_blank(&vec![0, 10, 9, 11], 10, 2));
    assert!(is_blank(&vec![255; 3], 10, 4));
}

#[test]
fn changed_images() {
    assert!(images_are_different(&vec![1, 2], &vec![1, 2, 3], 10));
    assert!(!images_are_different(&vec![1, 2, 3], &vec![1, 2, 3], 0));
    assert!(images_are_different(&vec![1, 2, 3], &vec![1, 0, 3], 0));
    assert!(!images_are_different(&vec![1, 2, 3], &vec![0, 0, 3], 2));
    assert!(images_are_different(&vec![1, 2, 3], &vec![0, 0, 0], 2));
}

#[test]
fn file_agent_inputs() {
    assert_eq!(path_input(&AgentData::string("/tmp/x")).unwrap(), "/tmp/x");
    assert_eq!(invalid_value(path_input(&AgentData::integer(1))), "path is not a string");
    assert_eq!(string_input(&AgentData::string("{}")).unwrap(), "{}");
    assert_eq!(invalid_value(string_input(&AgentData::unit())), "not a string");

    let ok = object(&[("path", AgentValue::string("p")), ("text", AgentValue::string("t"))]);
    assert_eq!(write_file_input(&ok).unwrap(), ("p".to_string(), "t".to_string()));
    assert_eq!(invalid_value(write_file_input(&AgentData::string("x"))), "Input is not an object");
    assert_eq!(
        invalid_value(write_file_input(&object(&[("text", AgentValue::string("t"))]))),
        "Missing 'path' in input"
    );
    assert_eq!(
        invalid_value(write_file_input(&object(&[("path", AgentValue::integer(1))]))),
        "'path' is not a string"
    );
    assert_eq!(
        invalid_value(write_file_input(&object(&[("path", AgentValue::string("p"))]))),
        "Missing 'text' in input"
    );
    assert_eq!(
        invalid_value(write_file_input(&object(&[
            ("path", AgentValue::string("p")),
            ("text", AgentValue::boolean(true)),
        ]))),
        "'text' is not a string"
    );
}

#[test]
fn template_agents() {
    assert!(check_template("{{value}}").is_ok());
    assert!(matches!(check_template(""), Err(AgentError::InvalidConfig(m)) if m == "template is not set"));

    let items = template_items(&AgentData::array("integer", vec![AgentValue::integer(1), AgentValue::integer(2)]));
    assert_eq!(items.len(), 2);
    assert_eq!(items[1], AgentData::integer(2));
    let single = template_items(&AgentData::string("x"));
    assert_eq!(single, vec![AgentData::string("x")]);

    let wrapped = template_array_input(&AgentData::integer(3));
    assert_eq!(wrapped, AgentData::array("integer", vec![AgentValue::integer(3)]));
    let kept = template_array_input(&AgentData::array("integer", vec![AgentValue::integer(3)]));
    assert_eq!(kept, AgentData::array("integer", vec![AgentValue::integer(3)]));

    assert_eq!(rendered_string(Ok("hi".to_string())).unwrap(), AgentData::string("hi"));
    assert_eq!(invalid_value(rendered_string(Err("bad".to_string()))), "Failed to render template: bad");

    let all = rendered_strings(vec![Ok("a".to_string()), Ok("b".to_string())]).unwrap();
    assert_eq!(all, AgentData::array("string", vec![AgentValue::string("a"), AgentValue::string("b")]));
    assert_eq!(
        invalid_value(rendered_strings(vec![Ok("a".to_string()), Err("e1".to_string()), Err("e2".to_string())])),
        "Failed to render template: e1"
    );
}

#[test]
fn data_from_json_and_yaml_text() {
    let d = AgentData::from_json_text(r#"{"a": [1, 2.5, "x"], "b": null}"#).unwrap();
    assert_eq!(d.kind, "object");
    let a = d.value.get_array("a").unwrap();
    assert_eq!(a[0], AgentValue::integer(1));
    assert_eq!(a[2], AgentValue::string("x"));
    assert_eq!(d.value.get("b"), Some(&AgentValue::unit()));
    assert!(AgentData::from_json_text("{").is_err());

    let y = AgentData::from_yaml_text("a: 1\nb:\n  - x\n  - y\n").unwrap();
    assert_eq!(y.kind, "object");
    assert_eq!(y.value.get_i64("a"), Some(1));
    assert_eq!(y.value.get_array("b").unwrap().len(), 2);
    let n = AgentData::from_yaml_text("-3").unwrap();
    assert_eq!(n, AgentData::integer(-3));
    assert!(AgentData::from_yaml_text("a: [1").is_err());
}
