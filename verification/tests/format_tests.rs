use mould::format::env::EnvHandler;
use mould::format::ini::{IniHandler, LineBreak};
use mould::format::properties::PropertiesHandler;
use mould::format::{
    detect_format, get_handler, mark_all_missing, merge_template, ConfigItem, FormatType, Handler, ItemStatus,
    PathSegment, ValueType,
};
use mould::format::order::{path_less, sort_by_path};

fn item(key: &str, value: Option<&str>) -> ConfigItem {
    ConfigItem {
        key: key.to_string(),
        path: vec![PathSegment::Key(key.to_string())],
        value: value.map(|v| v.to_string()),
        template_value: None,
        default_value: None,
        depth: 0,
        is_group: false,
        status: ItemStatus::Present,
        value_type: ValueType::String,
    }
}

#[test]
fn test_parse_env_example() {
    let handler = EnvHandler;
    let vars = handler.parse_content("# Comment\nKEY1=value1\n  KEY2 = value2  \n");

    assert_eq!(vars.len(), 2);
    assert_eq!(vars[0].key, "KEY1");
    assert_eq!(vars[0].value.as_deref(), Some("value1"));
    assert_eq!(vars[1].key, "KEY2");
    assert_eq!(vars[1].value.as_deref(), Some("value2"));
}

#[test]
fn test_write_env() {
    let vars = vec![ConfigItem {
        key: "KEY1".to_string(),
        path: vec![PathSegment::Key("KEY1".to_string())],
        value: Some("value1".to_string()),
        template_value: None,
        default_value: None,
        depth: 0,
        is_group: false,
        status: ItemStatus::Present,
        value_type: ValueType::String,
    }];

    let handler = EnvHandler;
    let content = handler.render(&vars);
    assert_eq!(content.trim(), "KEY1=value1");
}

#[test]
fn test_merge_env() {
    let handler = EnvHandler;
    let template = handler.parse_content("KEY1=template_val\nKEY2=default_val\n");

    let mut active_vars = vec![item("KEY1", Some("active_val"))];
    merge_template(&mut active_vars, &template);

    assert_eq!(active_vars.len(), 2);

    let key1 = active_vars.iter().find(|v| v.key == "KEY1").unwrap();
    assert_eq!(key1.status, ItemStatus::Modified);
    assert_eq!(key1.value.as_deref(), Some("active_val"));
    assert_eq!(key1.template_value.as_deref(), Some("template_val"));

    let key2 = active_vars.iter().find(|v| v.key == "KEY2").unwrap();
    assert_eq!(key2.status, ItemStatus::MissingFromActive);
    assert_eq!(key2.value, None);
    assert_eq!(key2.template_value.as_deref(), Some("default_val"));
}

#[test]
fn merge_keeps_equal_values_present_and_syncs_defaults() {
    let handler = EnvHandler;
    let template = handler.parse_content("A=1\nB=2\n");
    let mut active = vec![item("A", Some("1")), item("C", Some("3"))];
    merge_template(&mut active, &template);
    assert_eq!(active.len(), 3);
    assert_eq!(active[0].status, ItemStatus::Present);
    assert_eq!(active[0].default_value.as_deref(), Some("1"));
    assert_eq!(active[1].key, "C");
    assert_eq!(active[1].status, ItemStatus::Present);
    assert_eq!(active[1].template_value, None);
    assert_eq!(active[2].key, "B");
    assert_eq!(active[2].status, ItemStatus::MissingFromActive);
}

#[test]
fn env_lines_without_equals_and_blank_lines_are_skipped() {
    let handler = EnvHandler;
    let vars = handler.parse_content("\n   \nJUSTTEXT\nK= a=b \r\n");
    assert_eq!(vars.len(), 1);
    assert_eq!(vars[0].key, "K");
    assert_eq!(vars[0].value.as_deref(), Some("a=b"));
    assert_eq!(vars[0].path_string(), "K");
}

#[test]
fn env_render_uses_template_value_and_skips_groups() {
    let mut a = item("A", None);
    a.template_value = Some("t".to_string());
    let mut g = item("G", None);
    g.is_group = true;
    let b = item("B", None);
    let handler = EnvHandler;
    assert_eq!(handler.render(&vec![a, g, b]), "A=t\nB=\n");
}

#[test]
fn test_parse_ini() {
    let handler = IniHandler;
    let vars = handler
        .parse_content("[server]\nport=8080\n[database]\nhost=localhost\n")
        .unwrap();

    assert!(vars.iter().any(|v| v.path_string() == "server" && v.is_group));
    assert!(vars
        .iter()
        .any(|v| v.path_string() == "server.port" && v.value.as_deref() == Some("8080")));
    assert!(vars
        .iter()
        .any(|v| v.path_string() == "database.host" && v.value.as_deref() == Some("localhost")));
}

#[test]
fn ini_properties_before_any_section_stay_at_the_top() {
    let handler = IniHandler;
    let vars = handler.parse_content("name=x\n[s]\nk=v\n").unwrap();
    assert_eq!(vars[0].path_string(), "name");
    assert_eq!(vars[0].depth, 0);
    assert!(vars.iter().any(|v| v.path_string() == "s.k" && v.depth == 1));
}

#[test]
fn ini_placements_split_at_the_first_dot() {
    let handler = IniHandler;
    let mut a = item("port", Some("80"));
    a.path = vec![PathSegment::Key("server".to_string()), PathSegment::Key("port".to_string())];
    let b = item("top", None);
    let p = handler.placements(&vec![a, b]);
    assert_eq!(p.len(), 2);
    assert_eq!(p[0], (Some("server".to_string()), "port".to_string(), "80".to_string()));
    assert_eq!(p[1], (None, "top".to_string(), "".to_string()));
}

#[test]
fn ini_parse_error_is_reported() {
    let handler = IniHandler;
    assert!(handler.parse_content("[unterminated\nk=v\n").is_err());
}

#[test]
fn test_parse_properties() {
    let handler = PropertiesHandler;
    let vars = handler
        .parse_content(b"server.port=8080\ndatabase.host=localhost\n")
        .unwrap();

    assert!(vars.iter().any(|v| v.path_string() == "server" && v.is_group));
    assert!(vars
        .iter()
        .any(|v| v.path_string() == "server.port" && v.value.as_deref() == Some("8080")));
}

#[test]
fn properties_entries_are_sorted_with_one_group_each() {
    let handler = PropertiesHandler;
    let vars = handler
        .parse_content(b"b.y=2\na.x.z=1\nb.w=3\n")
        .unwrap();
    let paths: Vec<String> = vars.iter().map(|v| v.path_string()).collect();
    assert_eq!(paths, vec!["a", "a.x", "a.x.z", "b", "b.w", "b.y"]);
    let leaf = vars.iter().find(|v| v.path_string() == "a.x.z").unwrap();
    assert_eq!(leaf.depth, 2);
    assert_eq!(leaf.key, "z");
    assert_eq!(leaf.value_type, ValueType::String);
}

#[test]
fn properties_pairs_give_path_and_written_value() {
    let handler = PropertiesHandler;
    let vars = handler.parse_content(b"a.b=1\n").unwrap();
    let pairs = handler.pairs_of(&vars);
    assert_eq!(pairs, vec![("a.b".to_string(), "1".to_string())]);
}

#[test]
fn paths_sort_keys_before_indices_and_prefixes_first() {
    let k = |s: &str| PathSegment::Key(s.to_string());
    assert!(path_less(&vec![k("a")], &vec![k("a"), k("b")]));
    assert!(path_less(&vec![k("a"), k("z")], &vec![k("b")]));
    assert!(path_less(&vec![k("a")], &vec![PathSegment::Index(0)]));
    assert!(path_less(&vec![PathSegment::Index(2)], &vec![PathSegment::Index(10)]));
    assert!(!path_less(&vec![k("a")], &vec![k("a")]));
    let sorted = sort_by_path(vec![item("b", None), item("a", Some("1")), item("a", Some("2"))]);
    assert_eq!(sorted[0].key, "a");
    assert_eq!(sorted[0].value.as_deref(), Some("1"));
    assert_eq!(sorted[1].value.as_deref(), Some("2"));
    assert_eq!(sorted[2].key, "b");
}

#[test]
fn formats_are_detected_from_override_then_extension() {
    assert_eq!(detect_format("config.json", None), FormatType::Json);
    assert_eq!(detect_format("a/b/compose.yml", None), FormatType::Yaml);
    assert_eq!(detect_format("x.yaml", None), FormatType::Yaml);
    assert_eq!(detect_format("x.toml", None), FormatType::Toml);
    assert_eq!(detect_format("x.xml", None), FormatType::Xml);
    assert_eq!(detect_format("x.ini", None), FormatType::Ini);
    assert_eq!(detect_format("x.properties", None), FormatType::Properties);
    assert_eq!(detect_format(".env.example", None), FormatType::Env);
    assert_eq!(detect_format(".env", None), FormatType::Env);
    assert_eq!(detect_format("x.json", Some("YML".to_string())), FormatType::Yaml);
    assert_eq!(detect_format("x.json", Some("unknown".to_string())), FormatType::Json);
    assert_eq!(detect_format("noext", Some("Properties".to_string())), FormatType::Properties);
}

#[test]
fn handlers_match_formats() {
    assert!(matches!(get_handler(FormatType::Env), Handler::Env(_)));
    assert!(matches!(get_handler(FormatType::Ini), Handler::Ini(_)));
    assert!(matches!(get_handler(FormatType::Properties), Handler::Properties(_)));
    match get_handler(FormatType::Toml) {
        Handler::Hierarchical(h) => assert_eq!(h.format_type, FormatType::Toml),
        _ => panic!("expected the nested-format handler"),
    }
}

#[test]
fn path_string_writes_keys_with_dots_and_indices_in_brackets() {
    let mut v = item("image", None);
    v.path = vec![
        PathSegment::Key("services".to_string()),
        PathSegment::Index(0),
        PathSegment::Key("image".to_string()),
    ];
    assert_eq!(v.path_string(), "services[0].image");
}

#[test]
fn env_write_then_read_gives_the_entries_back() {
    let handler = EnvHandler;
    let mut a = item("A", Some("one two"));
    a.status = ItemStatus::Modified;
    let mut g = item("G", None);
    g.is_group = true;
    let mut b = item("B", None);
    b.template_value = Some("x=y".to_string());
    let text = handler.render(&vec![a, g, b]);
    let back = handler.parse_content(&text);
    assert_eq!(back.len(), 2);
    assert_eq!(back[0].key, "A");
    assert_eq!(back[0].value.as_deref(), Some("one two"));
    assert_eq!(back[0].status, ItemStatus::Present);
    assert_eq!(back[1].key, "B");
    assert_eq!(back[1].value.as_deref(), Some("x=y"));
    assert_eq!(back[1].default_value.as_deref(), Some("x=y"));
}

#[test]
fn properties_entries_with_equal_paths_keep_their_order() {
    let handler = PropertiesHandler;
    let pairs = vec![("a".to_string(), "1".to_string()), ("a.b".to_string(), "2".to_string())];
    let vars = handler.items_of(&pairs);
    let shape: Vec<(String, bool)> = vars.iter().map(|v| (v.path_string(), v.is_group)).collect();
    assert_eq!(
        shape,
        vec![("a".to_string(), false), ("a".to_string(), true), ("a.b".to_string(), false)]
    );
    let reversed = vec![("a.b".to_string(), "2".to_string()), ("a".to_string(), "1".to_string())];
    let vars = handler.items_of(&reversed);
    let shape: Vec<(String, bool)> = vars.iter().map(|v| (v.path_string(), v.is_group)).collect();
    assert_eq!(
        shape,
        vec![("a".to_string(), true), ("a".to_string(), false), ("a.b".to_string(), false)]
    );
}

#[test]
fn ini_render_moves_a_key_set_again_to_the_end() {
    let handler = IniHandler;
    let mut vars = Vec::new();
    for (k, v) in [("a", "1"), ("b", "2"), ("a", "3")] {
        vars.push(item(k, Some(v)));
    }
    let text = String::from_utf8(handler.render(&vars, LineBreak::Lf)).unwrap();
    assert_eq!(text, "b=2\na=3\n");
}

#[test]
fn ini_byte_order_mark_is_dropped() {
    let handler = IniHandler;
    let vars = handler.parse_content("\u{feff}[s]\nk=v\n").unwrap();
    assert_eq!(vars[0].path_string(), "s");
    assert!(vars.iter().any(|v| v.path_string() == "s.k" && v.value.as_deref() == Some("v")));
}

#[test]
fn ini_render_writes_sections_then_reads_back() {
    let handler = IniHandler;
    let mut a = item("port", Some("80"));
    a.path = vec![PathSegment::Key("server".to_string()), PathSegment::Key("port".to_string())];
    let b = item("top", Some("x"));
    let bytes = handler.render(&vec![a, b], LineBreak::Lf);
    let text = String::from_utf8(bytes).unwrap();
    assert_eq!(text, "top=x\n\n[server]\nport=80\n");
    let crlf = String::from_utf8(handler.render(&handler.parse_content(&text).unwrap(), LineBreak::CrLf)).unwrap();
    assert_eq!(crlf, "top=x\r\n\r\n[server]\r\nport=80\r\n");
}

#[test]
fn properties_are_stored_once_per_path_and_read_back() {
    let handler = PropertiesHandler;
    let mut a = item("a", Some("1"));
    a.path = vec![PathSegment::Key("s".to_string()), PathSegment::Key("a".to_string())];
    let b = item("b", Some("x y"));
    let mut c = item("a", Some("2"));
    c.path = a.path.clone();
    let vars = vec![a, b, c];
    let stored = handler.stored(&vars);
    assert_eq!(
        stored,
        vec![("s.a".to_string(), "2".to_string()), ("b".to_string(), "x y".to_string())]
    );
    let bytes = handler.render(&vars).unwrap();
    assert_eq!(String::from_utf8(bytes.clone()).unwrap(), "s.a=2\nb=x\\ y\n");
    let back = handler.parse_content(&bytes).unwrap();
    assert!(back.iter().any(|v| v.path_string() == "b" && v.value.as_deref() == Some("x y")));
    assert!(back.iter().any(|v| v.path_string() == "s.a" && v.value.as_deref() == Some("2")));
}

#[test]
fn template_entries_without_an_active_file_are_all_missing() {
    let mut vars = vec![item("a", Some("1")), item("b", None)];
    mark_all_missing(&mut vars);
    assert!(vars.iter().all(|v| v.status == ItemStatus::MissingFromActive && v.value.is_none()));
    assert_eq!(vars[1].key, "b");
}
