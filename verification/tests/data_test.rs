use agent_stream_kit::data::AgentData;
use agent_stream_kit::entries::duplicate_entries;
use agent_stream_kit::float64::Float64;
use agent_stream_kit::json::{JsonNumber, JsonValue};
use agent_stream_kit::keymap::KeyMap;
use agent_stream_kit::value::AgentValue;

fn num(f: f64) -> Float64 {
    Float64::from_bits(f.to_bits())
}

fn to_f64(f: &Float64) -> f64 {
    f64::from_bits(f.to_bits())
}

fn obj(entries: &[(&str, AgentValue)]) -> KeyMap<AgentValue> {
    let mut m = KeyMap::new();
    for (k, v) in entries {
        m.insert(k.to_string(), v.clone());
    }
    m
}

fn from_serde(v: &serde_json::Value) -> JsonValue {
    match v {
        serde_json::Value::Null => JsonValue::Null,
        serde_json::Value::Bool(b) => JsonValue::Bool(*b),
        serde_json::Value::Number(n) => {
            if let Some(u) = n.as_u64() {
                JsonValue::Number(JsonNumber::PosInt(u))
            } else if let Some(i) = n.as_i64() {
                JsonValue::Number(JsonNumber::NegInt(i))
            } else {
                JsonValue::Number(JsonNumber::Float(num(n.as_f64().unwrap())))
            }
        }
        serde_json::Value::String(s) => JsonValue::String(s.clone()),
        serde_json::Value::Array(a) => JsonValue::Array(a.iter().map(from_serde).collect()),
        serde_json::Value::Object(m) => {
            let mut out = KeyMap::new();
            for (k, v) in m {
                out.insert(k.clone(), from_serde(v));
            }
            JsonValue::Object(out)
        }
    }
}

fn to_serde(j: &JsonValue) -> serde_json::Value {
    match j {
        JsonValue::Null => serde_json::Value::Null,
        JsonValue::Bool(b) => serde_json::Value::Bool(*b),
        JsonValue::Number(JsonNumber::PosInt(u)) => serde_json::Value::from(*u),
        JsonValue::Number(JsonNumber::NegInt(i)) => serde_json::Value::from(*i),
        JsonValue::Number(JsonNumber::Float(f)) => serde_json::Value::from(to_f64(f)),
        JsonValue::String(s) => serde_json::Value::String(s.clone()),
        JsonValue::Array(a) => serde_json::Value::Array(a.iter().map(to_serde).collect()),
        JsonValue::Object(m) => {
            let mut out = serde_json::Map::new();
            for i in 0..m.len() {
                out.insert(m.key_at(i).clone(), to_serde(m.value_at(i)));
            }
            serde_json::Value::Object(out)
        }
    }
}

fn json(text: &str) -> JsonValue {
    from_serde(&serde_json::from_str::<serde_json::Value>(text).unwrap())
}

fn data_text(d: &AgentData) -> String {
    serde_json::to_string(&to_serde(&d.to_json())).unwrap()
}

fn value_text(v: &AgentValue) -> String {
    serde_json::to_string(&to_serde(&v.to_json())).unwrap()
}

fn data_from_text(text: &str) -> AgentData {
    AgentData::from_json_document(json(text)).unwrap()
}

fn value_from_text(text: &str) -> AgentValue {
    AgentValue::from_json(json(text)).unwrap()
}

fn three_objects() -> Vec<AgentValue> {
    vec![
        AgentValue::object(obj(&[
            ("key1", AgentValue::string("test")),
            ("key2", AgentValue::integer(1)),
        ])),
        AgentValue::object(obj(&[
            ("key1", AgentValue::string("test2")),
            ("key2", AgentValue::string("hi")),
        ])),
        AgentValue::object(KeyMap::new()),
    ]
}

#[test]
fn test_agent_data_new_constructors() {
    let unit_data = AgentData::unit();
    assert_eq!(unit_data.kind, "unit");
    assert_eq!(unit_data.value, AgentValue::Unit);

    let bool_data = AgentData::boolean(true);
    assert_eq!(bool_data.kind, "boolean");
    assert_eq!(bool_data.value, AgentValue::Boolean(true));

    let int_data = AgentData::integer(42);
    assert_eq!(int_data.kind, "integer");
    assert_eq!(int_data.value, AgentValue::Integer(42));

    let num_data = AgentData::number(num(3.14));
    assert_eq!(num_data.kind, "number");
    assert!(matches!(num_data.value, AgentValue::Number(_)));
    if let AgentValue::Number(n) = &num_data.value {
        assert!((to_f64(n) - 3.14).abs() < f64::EPSILON);
    }

    let str_data = AgentData::string("hello");
    assert_eq!(str_data.kind, "string");
    assert!(matches!(str_data.value, AgentValue::String(_)));
    assert_eq!(str_data.as_str().unwrap(), "hello");

    let text_data = AgentData::string("multiline\ntext\n\n");
    assert_eq!(text_data.kind, "string");
    assert!(matches!(text_data.value, AgentValue::String(_)));
    assert_eq!(text_data.as_str().unwrap(), "multiline\ntext\n\n");

    let obj_val = [
        ("key1", AgentValue::string("string1")),
        ("key2", AgentValue::integer(2)),
    ];
    let obj_data = AgentData::object(obj(&obj_val));
    assert_eq!(obj_data.kind, "object");
    assert!(matches!(obj_data.value, AgentValue::Object(_)));
    assert_eq!(
        AgentValue::object(duplicate_entries(obj_data.as_object().unwrap())),
        AgentValue::object(obj(&obj_val))
    );
}

#[test]
fn test_agent_data_from_kind_value() {
    let unit_data = AgentData::from_json_with_kind("unit", json("null")).unwrap();
    assert_eq!(unit_data.kind, "unit");
    assert_eq!(unit_data.value, AgentValue::Unit);

    let bool_data = AgentData::from_json_with_kind("boolean", json("true")).unwrap();
    assert_eq!(bool_data.kind, "boolean");
    assert_eq!(bool_data.value, AgentValue::Boolean(true));

    let int_data = AgentData::from_json_with_kind("integer", json("42")).unwrap();
    assert_eq!(int_data.kind, "integer");
    assert_eq!(int_data.value, AgentValue::Integer(42));

    let int_data = AgentData::from_json_with_kind("integer", json("3.14")).unwrap();
    assert_eq!(int_data.kind, "integer");
    assert_eq!(int_data.value, AgentValue::Integer(3));

    let num_data = AgentData::from_json_with_kind("number", json("3.14")).unwrap();
    assert_eq!(num_data.kind, "number");
    assert_eq!(num_data.value, AgentValue::number(num(3.14)));

    let num_data = AgentData::from_json_with_kind("number", json("3")).unwrap();
    assert_eq!(num_data.kind, "number");
    assert_eq!(num_data.value, AgentValue::number(num(3.0)));

    let str_data = AgentData::from_json_with_kind("string", json("\"hello\"")).unwrap();
    assert_eq!(str_data.kind, "string");
    assert_eq!(str_data.value, AgentValue::string("hello"));

    let str_data = AgentData::from_json_with_kind("string", json(r#""hello\nworld\n\n""#)).unwrap();
    assert_eq!(str_data.kind, "string");
    assert_eq!(str_data.value, AgentValue::string("hello\nworld\n\n"));

    let text_data = AgentData::from_json_with_kind("string", json(r#""hello\nworld\n\n""#)).unwrap();
    assert_eq!(text_data.kind, "string");
    assert_eq!(text_data.value, AgentValue::string("hello\nworld\n\n"));

    let obj_data =
        AgentData::from_json_with_kind("object", json(r#"{"key1": "string1", "key2": 2}"#)).unwrap();
    assert_eq!(obj_data.kind, "object");
    assert_eq!(
        obj_data.value,
        AgentValue::object(obj(&[
            ("key1", AgentValue::string("string1")),
            ("key2", AgentValue::integer(2)),
        ]))
    );

    let obj_data =
        AgentData::from_json_with_kind("custom_type", json(r#"{"foo": "hi", "bar": 3}"#)).unwrap();
    assert_eq!(obj_data.kind, "custom_type");
    assert_eq!(
        obj_data.value,
        AgentValue::object(obj(&[
            ("foo", AgentValue::string("hi")),
            ("bar", AgentValue::integer(3)),
        ]))
    );

    let array_data = AgentData::from_json_with_kind("unit", json("[null, null]")).unwrap();
    assert_eq!(array_data.kind, "unit");
    assert_eq!(array_data.value, AgentValue::array(vec![AgentValue::unit(), AgentValue::unit()]));

    let array_data = AgentData::from_json_with_kind("boolean", json("[true, false]")).unwrap();
    assert_eq!(array_data.kind, "boolean");
    assert_eq!(
        array_data.value,
        AgentValue::array(vec![AgentValue::boolean(true), AgentValue::boolean(false)])
    );

    let array_data = AgentData::from_json_with_kind("integer", json("[1, 2.1, 3.0]")).unwrap();
    assert_eq!(array_data.kind, "integer");
    assert_eq!(
        array_data.value,
        AgentValue::array(vec![
            AgentValue::integer(1),
            AgentValue::integer(2),
            AgentValue::integer(3),
        ])
    );

    let array_data = AgentData::from_json_with_kind("number", json("[1.0, 2.1, 3]")).unwrap();
    assert_eq!(array_data.kind, "number");
    assert_eq!(
        array_data.value,
        AgentValue::array(vec![
            AgentValue::number(num(1.0)),
            AgentValue::number(num(2.1)),
            AgentValue::number(num(3.0)),
        ])
    );

    for _ in 0..2 {
        let array_data =
            AgentData::from_json_with_kind("string", json(r#"["test", "hello\nworld\n", ""]"#)).unwrap();
        assert_eq!(array_data.kind, "string");
        assert_eq!(
            array_data.value,
            AgentValue::array(vec![
                AgentValue::string("test"),
                AgentValue::string("hello\nworld\n"),
                AgentValue::string(""),
            ])
        );
    }

    let array_data = AgentData::from_json_with_kind(
        "object",
        json(r#"[{"key1":"test","key2":1}, {"key1":"test2","key2":"hi"}, {}]"#),
    )
    .unwrap();
    assert_eq!(array_data.kind, "object");
    assert_eq!(array_data.value, AgentValue::array(three_objects()));

    let array_data = AgentData::from_json_with_kind(
        "custom",
        json(r#"[{"key1":"test","key2":1}, {"key1":"test2","key2":"hi"}, {}]"#),
    )
    .unwrap();
    assert_eq!(array_data.kind, "custom");
    assert_eq!(array_data.value, AgentValue::array(three_objects()));
}

#[test]
fn test_agent_data_from_json_value() {
    let unit_data = AgentData::from_json(json("null")).unwrap();
    assert_eq!(unit_data.kind, "unit");
    assert_eq!(unit_data.value, AgentValue::Unit);

    let bool_data = AgentData::from_json(json("true")).unwrap();
    assert_eq!(bool_data.kind, "boolean");
    assert_eq!(bool_data.value, AgentValue::Boolean(true));

    let int_data = AgentData::from_json(json("42")).unwrap();
    assert_eq!(int_data.kind, "integer");
    assert_eq!(int_data.value, AgentValue::Integer(42));

    let num_data = AgentData::from_json(json("3.14")).unwrap();
    assert_eq!(num_data.kind, "number");
    assert_eq!(num_data.value, AgentValue::number(num(3.14)));

    let str_data = AgentData::from_json(json("\"hello\"")).unwrap();
    assert_eq!(str_data.kind, "string");
    assert_eq!(str_data.value, AgentValue::string("hello"));

    let str_data = AgentData::from_json(json(r#""hello\nworld\n\n""#)).unwrap();
    assert_eq!(str_data.kind, "string");
    assert_eq!(str_data.value, AgentValue::string("hello\nworld\n\n"));

    let obj_data = AgentData::from_json(json(r#"{"key1": "string1", "key2": 2}"#)).unwrap();
    assert_eq!(obj_data.kind, "object");
    assert_eq!(
        obj_data.value,
        AgentValue::object(obj(&[
            ("key1", AgentValue::string("string1")),
            ("key2", AgentValue::integer(2)),
        ]))
    );

    let array_data = AgentData::from_json(json("[null, null]")).unwrap();
    assert_eq!(array_data.kind, "unit");
    assert_eq!(array_data.value, AgentValue::array(vec![AgentValue::unit(), AgentValue::unit()]));

    let array_data = AgentData::from_json(json("[true, false]")).unwrap();
    assert_eq!(array_data.kind, "boolean");
    assert_eq!(
        array_data.value,
        AgentValue::array(vec![AgentValue::boolean(true), AgentValue::boolean(false)])
    );

    let array_data = AgentData::from_json(json("[1, 2, 3]")).unwrap();
    assert_eq!(array_data.kind, "integer");
    assert_eq!(
        array_data.value,
        AgentValue::array(vec![
            AgentValue::integer(1),
            AgentValue::integer(2),
            AgentValue::integer(3),
        ])
    );

    let array_data = AgentData::from_json(json("[1.0, 2.1, 3.2]")).unwrap();
    assert_eq!(array_data.kind, "number");
    assert_eq!(
        array_data.value,
        AgentValue::array(vec![
            AgentValue::number(num(1.0)),
            AgentValue::number(num(2.1)),
            AgentValue::number(num(3.2)),
        ])
    );

    let array_data = AgentData::from_json(json(r#"["test", "hello\nworld\n", ""]"#)).unwrap();
    assert_eq!(array_data.kind, "string");
    assert_eq!(
        array_data.value,
        AgentValue::array(vec![
            AgentValue::string("test"),
            AgentValue::string("hello\nworld\n"),
            AgentValue::string(""),
        ])
    );

    let array_data =
        AgentData::from_json(json(r#"[{"key1":"test","key2":1}, {"key1":"test2","key2":"hi"}, {}]"#))
            .unwrap();
    assert_eq!(array_data.kind, "object");
    assert_eq!(array_data.value, AgentValue::array(three_objects()));
}

#[test]
fn test_agent_data_accessor_methods() {
    let str_data = AgentData::string("hello");
    assert_eq!(str_data.as_str().unwrap(), "hello");
    assert!(str_data.as_object().is_none());

    let obj_val = [
        ("key1", AgentValue::string("string1")),
        ("key2", AgentValue::integer(2)),
    ];
    let obj_data = AgentData::object(obj(&obj_val));
    assert!(obj_data.as_str().is_none());
    assert_eq!(
        AgentValue::object(duplicate_entries(obj_data.as_object().unwrap())),
        AgentValue::object(obj(&obj_val))
    );
}

#[test]
fn test_agent_data_serialization() {
    assert_eq!(data_text(&AgentData::unit()), r#"{"kind":"unit","value":null}"#);
    assert_eq!(data_text(&AgentData::boolean(true)), r#"{"kind":"boolean","value":true}"#);
    assert_eq!(data_text(&AgentData::boolean(false)), r#"{"kind":"boolean","value":false}"#);
    assert_eq!(data_text(&AgentData::integer(42)), r#"{"kind":"integer","value":42}"#);
    assert_eq!(data_text(&AgentData::number(num(3.14))), r#"{"kind":"number","value":3.14}"#);
    assert_eq!(data_text(&AgentData::number(num(3.0))), r#"{"kind":"number","value":3.0}"#);
    assert_eq!(
        data_text(&AgentData::string("Hello, world!")),
        r#"{"kind":"string","value":"Hello, world!"}"#
    );
    assert_eq!(
        data_text(&AgentData::string("hello\nworld\n\n")),
        r#"{"kind":"string","value":"hello\nworld\n\n"}"#
    );

    let data = AgentData::object(obj(&[
        ("key1", AgentValue::string("string1")),
        ("key2", AgentValue::integer(2)),
    ]));
    assert_eq!(data_text(&data), r#"{"kind":"object","value":{"key1":"string1","key2":2}}"#);

    let data = AgentData::object_with_kind(
        "custom",
        obj(&[("key1", AgentValue::string("test")), ("key2", AgentValue::integer(3))]),
    );
    assert_eq!(data_text(&data), r#"{"kind":"custom","value":{"key1":"test","key2":3}}"#);

    let data = AgentData::array("unit", vec![AgentValue::unit(), AgentValue::unit()]);
    assert_eq!(data_text(&data), r#"{"kind":"unit","value":[null,null]}"#);

    let data = AgentData::array("boolean", vec![AgentValue::boolean(false), AgentValue::boolean(true)]);
    assert_eq!(data_text(&data), r#"{"kind":"boolean","value":[false,true]}"#);

    let data = AgentData::array(
        "integer",
        vec![AgentValue::integer(1), AgentValue::integer(2), AgentValue::integer(3)],
    );
    assert_eq!(data_text(&data), r#"{"kind":"integer","value":[1,2,3]}"#);

    let data = AgentData::array(
        "number",
        vec![
            AgentValue::number(num(1.0)),
            AgentValue::number(num(2.1)),
            AgentValue::number(num(3.2)),
        ],
    );
    assert_eq!(data_text(&data), r#"{"kind":"number","value":[1.0,2.1,3.2]}"#);

    let data = AgentData::array(
        "string",
        vec![
            AgentValue::string("test"),
            AgentValue::string("hello\nworld\n"),
            AgentValue::string(""),
        ],
    );
    assert_eq!(data_text(&data), r#"{"kind":"string","value":["test","hello\nworld\n",""]}"#);

    let data = AgentData::array("object", three_objects());
    assert_eq!(
        data_text(&data),
        r#"{"kind":"object","value":[{"key1":"test","key2":1},{"key1":"test2","key2":"hi"},{}]}"#
    );

    let data = AgentData::array("custom", three_objects());
    assert_eq!(
        data_text(&data),
        r#"{"kind":"custom","value":[{"key1":"test","key2":1},{"key1":"test2","key2":"hi"},{}]}"#
    );
}

#[test]
fn test_agent_data_deserialization() {
    assert_eq!(data_from_text(r#"{"kind":"unit","value":null}"#), AgentData::unit());
    assert_eq!(data_from_text(r#"{"kind":"boolean","value":false}"#), AgentData::boolean(false));
    assert_eq!(data_from_text(r#"{"kind":"boolean","value":true}"#), AgentData::boolean(true));
    assert_eq!(data_from_text(r#"{"kind":"integer","value":123}"#), AgentData::integer(123));
    assert_eq!(data_from_text(r#"{"kind":"number","value":3.14}"#), AgentData::number(num(3.14)));
    assert_eq!(data_from_text(r#"{"kind":"number","value":3.0}"#), AgentData::number(num(3.0)));
    assert_eq!(
        data_from_text(r#"{"kind":"string","value":"Hello, world!"}"#),
        AgentData::string("Hello, world!")
    );
    assert_eq!(
        data_from_text(r#"{"kind":"string","value":"hello\nworld\n\n"}"#),
        AgentData::string("hello\nworld\n\n")
    );
    assert_eq!(
        data_from_text(r#"{"kind":"object","value":{"key1":"test","key2":3}}"#),
        AgentData::object(obj(&[("key1", AgentValue::string("test")), ("key2", AgentValue::integer(3))]))
    );
    assert_eq!(
        data_from_text(r#"{"kind":"custom","value":{"name":"test","value":3}}"#),
        AgentData::object_with_kind(
            "custom",
            obj(&[("name", AgentValue::string("test")), ("value", AgentValue::integer(3))])
        )
    );
    assert_eq!(
        data_from_text(r#"{"kind":"unit","value":[null,null]}"#),
        AgentData::array("unit", vec![AgentValue::unit(), AgentValue::unit()])
    );
    assert_eq!(
        data_from_text(r#"{"kind":"boolean","value":[true,false]}"#),
        AgentData::array("boolean", vec![AgentValue::boolean(true), AgentValue::boolean(false)])
    );
    assert_eq!(
        data_from_text(r#"{"kind":"integer","value":[1,2,3]}"#),
        AgentData::array(
            "integer",
            vec![AgentValue::integer(1), AgentValue::integer(2), AgentValue::integer(3)]
        )
    );
    assert_eq!(
        data_from_text(r#"{"kind":"number","value":[1.0,2.1,3]}"#),
        AgentData::array(
            "number",
            vec![
                AgentValue::number(num(1.0)),
                AgentValue::number(num(2.1)),
                AgentValue::number(num(3.0)),
            ]
        )
    );
    assert_eq!(
        data_from_text(r#"{"kind":"string","value":["test","hello\nworld\n",""]}"#),
        AgentData::array(
            "string",
            vec![
                AgentValue::string("test"),
                AgentValue::string("hello\nworld\n"),
                AgentValue::string(""),
            ]
        )
    );
    assert_eq!(
        data_from_text(
            r#"{"kind":"object","value":[{"key1":"test","key2":1},{"key1":"test2","key2":"hi"},{}]}"#
        ),
        AgentData::array("object", three_objects())
    );
    assert_eq!(
        data_from_text(
            r#"{"kind":"custom","value":[{"key1":"test","key2":1},{"key1":"test2","key2":"hi"},{}]}"#
        ),
        AgentData::array("custom", three_objects())
    );
}

#[test]
fn test_agent_value_constructors() {
    assert_eq!(AgentValue::unit(), AgentValue::Unit);
    assert_eq!(AgentValue::boolean(true), AgentValue::Boolean(true));
    assert_eq!(AgentValue::integer(42), AgentValue::Integer(42));

    let number = AgentValue::number(num(3.14));
    assert!(matches!(number, AgentValue::Number(_)));
    if let AgentValue::Number(n) = &number {
        assert!((to_f64(n) - 3.14).abs() < f64::EPSILON);
    }

    let string = AgentValue::string("hello");
    assert!(matches!(string, AgentValue::String(_)));
    assert_eq!(string.as_str().unwrap(), "hello");

    let text = AgentValue::string("multiline\ntext");
    assert!(matches!(text, AgentValue::String(_)));
    assert_eq!(text.as_str().unwrap(), "multiline\ntext");

    let array = AgentValue::array(vec![AgentValue::integer(1), AgentValue::integer(2)]);
    assert!(matches!(array, AgentValue::Array(_)));
    if let AgentValue::Array(arr) = &array {
        assert_eq!(arr.len(), 2);
        assert_eq!(arr[0].as_i64().unwrap(), 1);
        assert_eq!(arr[1].as_i64().unwrap(), 2);
    }

    let o = AgentValue::object(obj(&[
        ("key1", AgentValue::string("string1")),
        ("key2", AgentValue::integer(2)),
    ]));
    assert!(matches!(o, AgentValue::Object(_)));
    if let AgentValue::Object(m) = &o {
        assert_eq!(m.get("key1").and_then(|v| v.as_str()), Some("string1"));
        assert_eq!(m.get("key2").and_then(|v| v.as_i64()), Some(2));
    } else {
        panic!("Object was not deserialized correctly");
    }
}

#[test]
fn test_agent_value_from_json_value() {
    assert_eq!(AgentValue::from_json(json("null")).unwrap(), AgentValue::Unit);
    assert_eq!(AgentValue::from_json(json("true")).unwrap(), AgentValue::Boolean(true));
    assert_eq!(AgentValue::from_json(json("42")).unwrap(), AgentValue::Integer(42));

    let number = AgentValue::from_json(json("3.14")).unwrap();
    assert!(matches!(number, AgentValue::Number(_)));
    if let AgentValue::Number(n) = &number {
        assert!((to_f64(n) - 3.14).abs() < f64::EPSILON);
    }

    let string = AgentValue::from_json(json("\"hello\"")).unwrap();
    assert!(matches!(string, AgentValue::String(_)));
    if let AgentValue::String(s) = &string {
        assert_eq!(*s, "hello");
    } else {
        panic!("Expected string value");
    }

    let array = AgentValue::from_json(json(r#"[1, "test", true]"#)).unwrap();
    assert!(matches!(array, AgentValue::Array(_)));
    if let AgentValue::Array(arr) = &array {
        assert_eq!(arr.len(), 3);
        assert_eq!(arr[0], AgentValue::Integer(1));
        assert!(matches!(&arr[1], AgentValue::String(_)));
        if let AgentValue::String(s) = &arr[1] {
            assert_eq!(*s, "test");
        } else {
            panic!("Expected string value");
        }
        assert_eq!(arr[2], AgentValue::Boolean(true));
    }

    let object = AgentValue::from_json(json(r#"{"key1": "string1", "key2": 2}"#)).unwrap();
    assert!(matches!(object, AgentValue::Object(_)));
    if let AgentValue::Object(m) = &object {
        assert_eq!(m.get("key1").and_then(|v| v.as_str()), Some("string1"));
        assert_eq!(m.get("key2").and_then(|v| v.as_i64()), Some(2));
    } else {
        panic!("Object was not deserialized correctly");
    }
}

#[test]
fn test_agent_value_from_kind_value() {
    assert_eq!(AgentValue::from_kind_json("unit", json("null")).unwrap(), AgentValue::Unit);
    assert_eq!(AgentValue::from_kind_json("boolean", json("true")).unwrap(), AgentValue::Boolean(true));
    assert_eq!(AgentValue::from_kind_json("integer", json("42")).unwrap(), AgentValue::Integer(42));
    assert_eq!(AgentValue::from_kind_json("integer", json("42.0")).unwrap(), AgentValue::Integer(42));

    let number = AgentValue::from_kind_json("number", json("3.14")).unwrap();
    assert!(matches!(number, AgentValue::Number(_)));
    if let AgentValue::Number(n) = &number {
        assert!((to_f64(n) - 3.14).abs() < f64::EPSILON);
    }

    let number = AgentValue::from_kind_json("number", json("3")).unwrap();
    assert!(matches!(number, AgentValue::Number(_)));
    if let AgentValue::Number(n) = &number {
        assert!((to_f64(n) - 3.0).abs() < f64::EPSILON);
    }

    let string = AgentValue::from_kind_json("string", json("\"hello\"")).unwrap();
    assert!(matches!(string, AgentValue::String(_)));
    if let AgentValue::String(s) = &string {
        assert_eq!(*s, "hello");
    } else {
        panic!("Expected string value");
    }

    let text = AgentValue::from_kind_json("string", json(r#""multiline\ntext""#)).unwrap();
    assert!(matches!(text, AgentValue::String(_)));
    if let AgentValue::String(t) = &text {
        assert_eq!(*t, "multiline\ntext");
    } else {
        panic!("Expected text value");
    }

    let array = AgentValue::from_kind_json("array", json(r#"[1, "test", true]"#)).unwrap();
    assert!(matches!(array, AgentValue::Array(_)));
    if let AgentValue::Array(arr) = &array {
        assert_eq!(arr.len(), 3);
        assert_eq!(arr[0], AgentValue::Integer(1));
        assert!(matches!(&arr[1], AgentValue::String(_)));
        if let AgentValue::String(s) = &arr[1] {
            assert_eq!(*s, "test");
        } else {
            panic!("Expected string value");
        }
        assert_eq!(arr[2], AgentValue::Boolean(true));
    }

    let o = AgentValue::from_kind_json("object", json(r#"{"key1": "test", "key2": 2}"#)).unwrap();
    assert!(matches!(o, AgentValue::Object(_)));
    if let AgentValue::Object(m) = &o {
        assert_eq!(m.get("key1").and_then(|v| v.as_str()), Some("test"));
        assert_eq!(m.get("key2").and_then(|v| v.as_i64()), Some(2));
    } else {
        panic!("Object was not deserialized correctly");
    }

    let unit_array = AgentValue::from_kind_json("unit", json("[null, null]")).unwrap();
    assert!(matches!(unit_array, AgentValue::Array(_)));
    if let AgentValue::Array(arr) = &unit_array {
        assert_eq!(arr.len(), 2);
        for val in arr.iter() {
            assert_eq!(*val, AgentValue::Unit);
        }
    }

    let bool_array = AgentValue::from_kind_json("boolean", json("[true, false]")).unwrap();
    assert!(matches!(bool_array, AgentValue::Array(_)));
    if let AgentValue::Array(arr) = &bool_array {
        assert_eq!(arr.len(), 2);
        assert_eq!(arr[0], AgentValue::Boolean(true));
        assert_eq!(arr[1], AgentValue::Boolean(false));
    }

    let int_array = AgentValue::from_kind_json("integer", json("[1, 2, 3]")).unwrap();
    assert!(matches!(int_array, AgentValue::Array(_)));
    if let AgentValue::Array(arr) = &int_array {
        assert_eq!(arr.len(), 3);
        assert_eq!(arr[0], AgentValue::Integer(1));
        assert_eq!(arr[1], AgentValue::Integer(2));
        assert_eq!(arr[2], AgentValue::Integer(3));
    }

    let num_array = AgentValue::from_kind_json("number", json("[1.1, 2.2, 3.3]")).unwrap();
    assert!(matches!(num_array, AgentValue::Array(_)));
    if let AgentValue::Array(arr) = &num_array {
        assert_eq!(arr.len(), 3);
        assert_eq!(arr[0], AgentValue::Number(num(1.1)));
        assert_eq!(arr[1], AgentValue::Number(num(2.2)));
        assert_eq!(arr[2], AgentValue::Number(num(3.3)));
    }

    let string_array = AgentValue::from_kind_json("string", json(r#"["hello", "world"]"#)).unwrap();
    assert!(matches!(string_array, AgentValue::Array(_)));
    if let AgentValue::Array(arr) = &string_array {
        assert_eq!(arr.len(), 2);
        assert!(matches!(&arr[0], AgentValue::String(_)));
        if let AgentValue::String(s) = &arr[0] {
            assert_eq!(*s, "hello".to_string());
        }
        assert!(matches!(&arr[1], AgentValue::String(_)));
        if let AgentValue::String(s) = &arr[1] {
            assert_eq!(*s, "world".to_string());
        }
    }

    let text_array = AgentValue::from_kind_json("string", json(r#"["hello", "world!\n"]"#)).unwrap();
    assert!(matches!(text_array, AgentValue::Array(_)));
    if let AgentValue::Array(arr) = &text_array {
        assert_eq!(arr.len(), 2);
        assert!(matches!(&arr[0], AgentValue::String(_)));
        if let AgentValue::String(s) = &arr[0] {
            assert_eq!(*s, "hello".to_string());
        }
        assert!(matches!(&arr[1], AgentValue::String(_)));
        if let AgentValue::String(s) = &arr[1] {
            assert_eq!(*s, "world!\n".to_string());
        }
    }
}

#[test]
fn test_agent_value_test_methods() {
    let values = [
        AgentValue::unit(),
        AgentValue::boolean(true),
        AgentValue::integer(42),
        AgentValue::number(num(3.14)),
        AgentValue::string("hello"),
        AgentValue::array(vec![AgentValue::integer(1), AgentValue::integer(2)]),
        AgentValue::object(obj(&[
            ("key1", AgentValue::string("string1")),
            ("key2", AgentValue::integer(2)),
        ])),
    ];
    for (i, v) in values.iter().enumerate() {
        assert_eq!(v.is_unit(), i == 0);
        assert_eq!(v.is_boolean(), i == 1);
        assert_eq!(v.is_integer(), i == 2);
        assert_eq!(v.is_number(), i == 3);
        assert_eq!(v.is_string(), i == 4);
        assert_eq!(v.is_array(), i == 5);
        assert_eq!(v.is_object(), i == 6);
    }
}

#[test]
fn test_agent_value_accessor_methods() {
    let boolean = AgentValue::boolean(true);
    assert_eq!(boolean.as_bool(), Some(true));
    assert_eq!(boolean.as_i64(), None);
    assert!(boolean.as_f64().is_none());
    assert_eq!(boolean.as_str(), None);
    assert!(boolean.as_array().is_none());
    assert!(boolean.as_object().is_none());

    let integer = AgentValue::integer(42);
    assert_eq!(integer.as_bool(), None);
    assert_eq!(integer.as_i64(), Some(42));
    assert_eq!(integer.as_f64().map(|f| to_f64(&f)), Some(42.0));
    assert_eq!(integer.as_str(), None);
    assert!(integer.as_array().is_none());
    assert!(integer.as_object().is_none());

    let number = AgentValue::number(num(3.14));
    assert_eq!(number.as_bool(), None);
    assert_eq!(number.as_i64(), Some(3));
    assert_eq!(to_f64(&number.as_f64().unwrap()), 3.14);
    assert_eq!(number.as_str(), None);
    assert!(number.as_array().is_none());
    assert!(number.as_object().is_none());

    let string = AgentValue::string("hello");
    assert_eq!(string.as_bool(), None);
    assert_eq!(string.as_i64(), None);
    assert!(string.as_f64().is_none());
    assert_eq!(string.as_str(), Some("hello"));
    assert!(string.as_array().is_none());
    assert!(string.as_object().is_none());

    let array = AgentValue::array(vec![AgentValue::integer(1), AgentValue::integer(2)]);
    assert_eq!(array.as_bool(), None);
    assert_eq!(array.as_i64(), None);
    assert!(array.as_f64().is_none());
    assert_eq!(array.as_str(), None);
    assert!(array.as_array().is_some());
    if let Some(arr) = array.as_array() {
        assert_eq!(arr.len(), 2);
        assert_eq!(arr[0].as_i64().unwrap(), 1);
        assert_eq!(arr[1].as_i64().unwrap(), 2);
    }
    assert!(array.as_object().is_none());

    let o = AgentValue::object(obj(&[
        ("key1", AgentValue::string("string1")),
        ("key2", AgentValue::integer(2)),
    ]));
    assert_eq!(o.as_bool(), None);
    assert_eq!(o.as_i64(), None);
    assert!(o.as_f64().is_none());
    assert_eq!(o.as_str(), None);
    assert!(o.as_array().is_none());
    assert!(o.as_object().is_some());
    if let Some(value) = o.as_object() {
        assert_eq!(value.get("key1").and_then(|v| v.as_str()), Some("string1"));
        assert_eq!(value.get("key2").and_then(|v| v.as_i64()), Some(2));
    }
}

#[test]
fn test_agent_value_default() {
    assert_eq!(AgentValue::default(), AgentValue::Unit);
}

#[test]
fn test_agent_value_serialization() {
    assert_eq!(value_text(&AgentValue::Unit), "null");
    assert_eq!(value_text(&AgentValue::boolean(true)), "true");
    assert_eq!(value_text(&AgentValue::boolean(false)), "false");
    assert_eq!(value_text(&AgentValue::integer(42)), "42");
    assert_eq!(value_text(&AgentValue::number(num(3.14))), "3.14");
    assert_eq!(value_text(&AgentValue::number(num(3.0))), "3.0");
    assert_eq!(value_text(&AgentValue::string("Hello, world!")), "\"Hello, world!\"");
    assert_eq!(value_text(&AgentValue::string("hello\nworld\n\n")), r#""hello\nworld\n\n""#);

    let array = AgentValue::array(vec![
        AgentValue::integer(1),
        AgentValue::string("test"),
        AgentValue::object(obj(&[("key1", AgentValue::string("test")), ("key2", AgentValue::integer(2))])),
    ]);
    assert_eq!(value_text(&array), r#"[1,"test",{"key1":"test","key2":2}]"#);

    let o = AgentValue::object(obj(&[("key1", AgentValue::string("test")), ("key2", AgentValue::integer(3))]));
    assert_eq!(value_text(&o), r#"{"key1":"test","key2":3}"#);
}

#[test]
fn test_agent_value_deserialization() {
    assert_eq!(value_from_text("null"), AgentValue::Unit);
    assert_eq!(value_from_text("false"), AgentValue::boolean(false));
    assert_eq!(value_from_text("true"), AgentValue::boolean(true));
    assert_eq!(value_from_text("123"), AgentValue::integer(123));
    assert_eq!(value_from_text("3.14"), AgentValue::number(num(3.14)));
    assert_eq!(value_from_text("3.0"), AgentValue::number(num(3.0)));
    assert_eq!(value_from_text("\"Hello, world!\""), AgentValue::string("Hello, world!"));
    assert_eq!(value_from_text(r#""hello\nworld\n\n""#), AgentValue::string("hello\nworld\n\n"));

    let deserialized = value_from_text(r#"[1,"test",{"key1":"test","key2":2}]"#);
    assert!(matches!(deserialized, AgentValue::Array(_)));
    if let AgentValue::Array(arr) = &deserialized {
        assert_eq!(arr.len(), 3, "Array length mismatch after serialization");
        assert_eq!(arr[0], AgentValue::integer(1));
        assert_eq!(arr[1], AgentValue::string("test"));
        assert_eq!(
            arr[2],
            AgentValue::object(obj(&[("key1", AgentValue::string("test")), ("key2", AgentValue::integer(2))]))
        );
    }

    assert_eq!(
        value_from_text(r#"{"key1":"test","key2":3}"#),
        AgentValue::object(obj(&[("key1", AgentValue::string("test")), ("key2", AgentValue::integer(3))]))
    );
}

#[test]
fn test_serialize_deserialize_roundtrip() {
    // The JSON that a serializer writes for a record with a name, an age and a flag.
    let text = r#"{"name":"Alice","age":30,"active":true}"#;
    let original = serde_json::from_str::<serde_json::Value>(text).unwrap();

    let agent_data = AgentData::from_json(json(text)).unwrap();
    assert_eq!(agent_data.kind, "object");
    assert_eq!(agent_data.get_str("name"), Some("Alice"));
    assert_eq!(agent_data.get_i64("age"), Some(30));
    assert_eq!(agent_data.get_bool("active"), Some(true));
    assert_eq!(to_serde(&agent_data.value.to_json()), original);

    let agent_data_custom = AgentData::from_json_with_kind("person", json(text)).unwrap();
    assert_eq!(agent_data_custom.kind, "person");
    assert_eq!(to_serde(&agent_data_custom.value.to_json()), original);

    let agent_value = AgentValue::from_json(json(text)).unwrap();
    assert!(agent_value.is_object());
    assert_eq!(agent_value.get_str("name"), Some("Alice"));
    assert_eq!(to_serde(&agent_value.to_json()), original);
}

#[test]
fn test_serialize_deserialize_nested() {
    let text = r#"{"name":"Bob","age":25,"address":{"street":"123 Main St","city":"Springfield","zip":"12345"},"tags":["developer","rust"]}"#;
    let original = serde_json::from_str::<serde_json::Value>(text).unwrap();

    let agent_data = AgentData::from_json(json(text)).unwrap();
    assert_eq!(agent_data.kind, "object");
    assert_eq!(agent_data.get_str("name"), Some("Bob"));

    let address = agent_data.get_object("address").unwrap();
    assert_eq!(address.get("city").and_then(|v| v.as_str()), Some("Springfield"));

    let tags = agent_data.get_array("tags").unwrap();
    assert_eq!(tags.len(), 2);
    assert_eq!(tags[0].as_str(), Some("developer"));

    assert_eq!(to_serde(&agent_data.value.to_json()), original);
}

#[test]
fn json_round_trip_keeps_values() {
    for text in [
        "null",
        "true",
        "-7",
        "18446744073709551615",
        "2.5",
        r#"{"b":[1,{"c":null}],"a":"x"}"#,
    ] {
        let v = AgentValue::from_json(json(text)).unwrap();
        let back = AgentValue::from_json(v.to_json()).unwrap();
        assert_eq!(back, v);
    }
}

#[test]
fn kind_mismatch_is_an_error() {
    assert!(AgentValue::from_kind_json("integer", json("\"x\"")).is_err());
    assert!(AgentValue::from_kind_json("boolean", json("1")).is_err());
    assert!(AgentData::from_json_document(json(r#"{"value":1}"#)).is_err());
    assert!(AgentData::from_json_document(json(r#"{"kind":"integer"}"#)).is_err());
    assert!(AgentData::from_json_document(json("[1]")).is_err());
}

#[test]
fn data_document_round_trip() {
    let samples = vec![
        AgentData::unit(),
        AgentData::boolean(true),
        AgentData::integer(-5),
        AgentData::number(num(2.5)),
        AgentData::string("text"),
        AgentData::object(obj(&[("a", AgentValue::integer(1))])),
        AgentData::object_with_kind("custom", obj(&[("b", AgentValue::string("x"))])),
        AgentData::array("integer", vec![AgentValue::integer(1), AgentValue::integer(2)]),
        AgentData::array("string", vec![AgentValue::string("p"), AgentValue::string("q")]),
    ];
    for d in samples {
        let back = AgentData::from_json_document(d.to_json()).unwrap();
        assert_eq!(back, d);
    }
}

#[test]
fn values_equal_their_copies_unless_nan() {
    let v = AgentValue::array(vec![
        AgentValue::number(num(-0.0)),
        AgentValue::object(obj(&[("x", AgentValue::number(num(1.5)))])),
    ]);
    assert_eq!(v.clone(), v);
    assert_eq!(AgentValue::number(num(0.0)), AgentValue::number(num(-0.0)));
    let nan = AgentValue::number(num(f64::NAN));
    assert_ne!(nan.clone(), nan);
}
