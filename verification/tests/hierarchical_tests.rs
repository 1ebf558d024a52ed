use mould::format::hierarchical::{
    insert_into_value, json_to_xml, parse_array_key, HierarchicalHandler, JsonValue,
};
use mould::format::document::DocumentError;
use mould::format::hierarchical::height_below;
use mould::format::xml::xml_to_json;
use mould::format::{FormatType, ValueType};

fn from_lib(v: &JsonValue) -> serde_json::Value {
    match v {
        JsonValue::Null => serde_json::Value::Null,
        JsonValue::Bool(b) => serde_json::Value::Bool(*b),
        JsonValue::Number(t) => {
            if let Ok(i) = t.parse::<i64>() {
                serde_json::Value::Number(i.into())
            } else if let Ok(u) = t.parse::<u64>() {
                serde_json::Value::Number(u.into())
            } else {
                serde_json::Value::String(t.clone())
            }
        }
        JsonValue::Float(t) => match t.parse::<f64>().ok().and_then(serde_json::Number::from_f64) {
            Some(n) => serde_json::Value::Number(n),
            None => serde_json::Value::String(t.clone()),
        },
        JsonValue::Str(s) => serde_json::Value::String(s.clone()),
        JsonValue::Array(a) => serde_json::Value::Array(a.iter().map(from_lib).collect()),
        JsonValue::Object(m) => serde_json::Value::Object(
            m.iter().map(|(k, v)| (k.clone(), from_lib(v))).collect(),
        ),
    }
}

fn obj(members: Vec<(&str, JsonValue)>) -> JsonValue {
    JsonValue::Object(members.into_iter().map(|(k, v)| (k.to_string(), v)).collect())
}

fn round_trip(value: &JsonValue, format: FormatType) -> (usize, JsonValue) {
    let handler = HierarchicalHandler::new(format);
    let vars = handler.items_of(value);
    (vars.len(), handler.document_of(&vars))
}

#[test]
fn test_json_flatten_unflatten() {
    let json = obj(vec![(
        "services",
        obj(vec![(
            "web",
            obj(vec![
                ("environment", obj(vec![("DEBUG", JsonValue::Bool(true))])),
                ("ports", JsonValue::Array(vec![JsonValue::Str("8080:80".to_string())])),
            ]),
        )]),
    )]);

    let (count, root) = round_trip(&json, FormatType::Json);
    assert_eq!(count, 6);

    let unflattened_json = serde_json::to_string(&from_lib(&root)).unwrap();
    assert!(unflattened_json.contains("\"8080:80\""));
    assert!(unflattened_json.contains("true"));
}

#[test]
fn test_type_preservation() {
    let json = obj(vec![
        ("float_num", JsonValue::Float("3.14".to_string())),
        ("float_str", JsonValue::Str("3.14".to_string())),
        ("is_enabled", JsonValue::Bool(true)),
        ("is_enabled_str", JsonValue::Str("true".to_string())),
        ("port_num", JsonValue::Number("8080".to_string())),
        ("port_str", JsonValue::Str("8080".to_string())),
    ]);

    let (_, root) = round_trip(&json, FormatType::Json);
    let back = from_lib(&root);
    let unflattened = back.as_object().unwrap();

    assert!(unflattened["port_num"].is_number(), "port_num should be a number");
    assert_eq!(unflattened["port_num"].as_i64(), Some(8080));

    assert!(unflattened["port_str"].is_string(), "port_str should be a string");
    assert_eq!(unflattened["port_str"].as_str(), Some("8080"));

    assert!(unflattened["is_enabled"].is_boolean(), "is_enabled should be a boolean");
    assert_eq!(unflattened["is_enabled"].as_bool(), Some(true));

    assert!(unflattened["is_enabled_str"].is_string(), "is_enabled_str should be a string");
    assert_eq!(unflattened["is_enabled_str"].as_str(), Some("true"));

    assert!(unflattened["float_num"].is_number(), "float_num should be a number");
    assert_eq!(unflattened["float_num"].as_f64(), Some(3.14));

    assert!(unflattened["float_str"].is_string(), "float_str should be a string");
    assert_eq!(unflattened["float_str"].as_str(), Some("3.14"));
}

#[test]
fn test_yaml_flatten_unflatten() {
    let yaml_str = "
server:
  port: 8080
  port_str: \"8080\"
  enabled: true
";
    let handler = HierarchicalHandler::new(FormatType::Yaml);
    let vars = handler.parse_content(yaml_str).unwrap();
    let root = handler.document_of(&vars);

    let unflattened_yaml = serde_yaml::to_string(&from_lib(&root)).unwrap();
    assert!(unflattened_yaml.contains("port: 8080"));
    assert!(
        unflattened_yaml.contains("port_str: '8080'")
            || unflattened_yaml.contains("port_str: \"8080\"")
    );
    assert!(unflattened_yaml.contains("enabled: true"));
}

#[test]
fn test_toml_flatten_unflatten() {
    let toml_str = "
[server]
port = 8080
port_str = \"8080\"
enabled = true
";
    let handler = HierarchicalHandler::new(FormatType::Toml);
    let vars = handler.parse_content(toml_str).unwrap();
    let root = handler.document_of(&vars);

    let toml_root: toml::Value = serde_json::from_value(from_lib(&root)).unwrap();
    let unflattened_toml = toml::to_string(&toml_root).unwrap();

    assert!(unflattened_toml.contains("port = 8080"));
    assert!(unflattened_toml.contains("port_str = \"8080\""));
    assert!(unflattened_toml.contains("enabled = true"));
}

#[test]
fn test_xml_flatten_unflatten() {
    let xml_str = "<config><server><port>8080</port><enabled>true</enabled></server></config>";

    let json_val = xml_to_json(xml_str);
    let (_, root) = round_trip(&json_val, FormatType::Xml);

    let unflattened_xml = json_to_xml(&root);
    assert!(unflattened_xml.contains("<port>8080</port>"));
    assert!(unflattened_xml.contains("<enabled>true</enabled>"));
    assert!(unflattened_xml.contains("<config>") && unflattened_xml.contains("</config>"));
}

#[test]
fn flatten_names_groups_and_array_elements() {
    let json = obj(vec![(
        "list",
        JsonValue::Array(vec![JsonValue::Number("1".to_string()), JsonValue::Null]),
    )]);
    let handler = HierarchicalHandler::new(FormatType::Json);
    let vars = handler.items_of(&json);
    assert_eq!(vars.len(), 3);
    assert!(vars[0].is_group);
    assert_eq!(vars[0].key, "list");
    assert_eq!(vars[1].key, "[0]");
    assert_eq!(vars[1].path_string(), "list[0]");
    assert_eq!(vars[1].depth, 1);
    assert_eq!(vars[1].value_type, ValueType::Number);
    assert_eq!(vars[2].value.as_deref(), Some(""));
    assert_eq!(vars[2].value_type, ValueType::Null);
}

#[test]
fn write_then_read_puts_typed_value_at_its_path() {
    let mut root = obj(vec![]);
    insert_into_value(&mut root, "a.b[1]", "42", ValueType::Number);
    let back = from_lib(&root);
    assert_eq!(back["a"]["b"][1].as_i64(), Some(42));
    assert!(back["a"]["b"][0].is_null());
    insert_into_value(&mut root, "a.c", "yes", ValueType::Bool);
    assert_eq!(from_lib(&root)["a"]["c"].as_str(), Some("yes"));
    insert_into_value(&mut root, "n", "", ValueType::Null);
    assert!(from_lib(&root)["n"].is_null());
}

#[test]
fn integers_are_written_canonically() {
    let mut root = obj(vec![]);
    insert_into_value(&mut root, "x", "+007", ValueType::Number);
    match &root {
        JsonValue::Object(m) => assert!(matches!(&m[0].1, JsonValue::Number(t) if t == "7")),
        _ => panic!("the root stays an object"),
    }
}

#[test]
fn array_keys_are_split_into_name_and_index() {
    assert_eq!(parse_array_key("ports[3]"), ("ports", Some(3)));
    assert_eq!(parse_array_key("ports[x]"), ("ports", None));
    assert_eq!(parse_array_key("plain"), ("plain", None));
}

#[test]
fn xml_repeated_elements_become_arrays() {
    let v = xml_to_json("<r><i>1</i><i>2</i></r>");
    let back = from_lib(&v);
    assert_eq!(back["r"]["i"][0].as_str(), Some("1"));
    assert_eq!(back["r"]["i"][1].as_str(), Some("2"));
    assert!(json_to_xml(&v).contains("<i>1</i><i>2</i>"));
}

#[test]
fn flatten_then_rebuild_gives_the_document_back() {
    let text = r#"{"a":[{"x":1,"y":[true,null]},{"z":"s"}],"b":{"c":-5,"d":2.5},"e":"t"}"#;
    let original: serde_json::Value = serde_json::from_str(text).unwrap();
    let handler = HierarchicalHandler::new(FormatType::Json);
    let vars = handler.parse_content(text).unwrap();
    let root = handler.document_of(&vars);
    assert_eq!(from_lib(&root), original);
}

#[test]
fn nested_texts_are_parsed_by_their_format() {
    let json = HierarchicalHandler::new(FormatType::Json);
    let vars = json.parse_content("{\"a\": {\"n\": 8080, \"f\": 1.5, \"s\": \"8080\"}}").unwrap();
    let shape: Vec<(String, Option<String>, ValueType)> =
        vars.iter().map(|v| (v.path_string(), v.value.clone(), v.value_type)).collect();
    assert_eq!(shape[0], ("a".to_string(), None, ValueType::Null));
    assert!(shape.contains(&("a.n".to_string(), Some("8080".to_string()), ValueType::Number)));
    assert!(shape.contains(&("a.f".to_string(), Some("1.5".to_string()), ValueType::Number)));
    assert!(shape.contains(&("a.s".to_string(), Some("8080".to_string()), ValueType::String)));
    assert!(matches!(json.parse_content("{oops"), Err(DocumentError::Json(_))));
    let yaml = HierarchicalHandler::new(FormatType::Yaml);
    assert!(matches!(yaml.parse_content("a: [1"), Err(DocumentError::Yaml(_))));
    let toml = HierarchicalHandler::new(FormatType::Toml);
    assert!(matches!(toml.parse_content("a = "), Err(DocumentError::Toml(_))));
    let xml = HierarchicalHandler::new(FormatType::Xml);
    let vars = xml.parse_content("<c><p>1</p></c>").unwrap();
    assert!(vars.iter().any(|v| v.path_string() == "c.p" && v.value.as_deref() == Some("1")));
}

#[test]
fn a_toml_root_must_be_an_object() {
    let toml = HierarchicalHandler::new(FormatType::Toml);
    assert!(toml.root_writable(&obj(vec![])));
    assert!(!toml.root_writable(&JsonValue::Array(vec![])));
    let json = HierarchicalHandler::new(FormatType::Json);
    assert!(json.root_writable(&JsonValue::Array(vec![])));
}

#[test]
fn trees_are_measured_by_height() {
    let deep = obj(vec![("a", obj(vec![("b", JsonValue::Null)]))]);
    assert!(height_below(&deep, 3));
    assert!(!height_below(&deep, 2));
    assert!(!height_below(&obj(vec![]), 1));
    assert!(height_below(&JsonValue::Null, 1));
}

#[test]
fn simple_xml_is_written_back_as_it_was_read() {
    let text = "<config><a>1</a><b><x>y</x><z>w</z></b></config>";
    assert_eq!(json_to_xml(&xml_to_json(text)), text);
}
