use agent_core::toolcall::parse_tool_calls;

#[test]
fn test_parse_xml_invoke() {
    let text = r#"Здесь какой-то текст.
<invoke name="read_file">
    <parameter name="path">src/main.rs</parameter>
</invoke>
И еще текст."#;
    let calls = parse_tool_calls(text);
    assert_eq!(calls.len(), 1);
    assert_eq!(calls[0].name, "read_file");
    assert_eq!(calls[0].param_text("path"), Some("src/main.rs".to_string()));
}

#[test]
fn test_parse_xml_compact() {
    let text = r#"<list_dir path="src" />"#;
    let calls = parse_tool_calls(text);
    assert_eq!(calls.len(), 1);
    assert_eq!(calls[0].name, "list_dir");
    assert_eq!(calls[0].param_text("path"), Some("src".to_string()));
}

#[test]
fn test_parse_xml_entities() {
    let text = r#"<invoke name="write_file">
    <parameter name="path">test.txt</parameter>
    <parameter name="content">A &lt; B &amp;&amp; C &gt; D</parameter>
</invoke>"#;
    let calls = parse_tool_calls(text);
    assert_eq!(calls.len(), 1);
    assert_eq!(calls[0].param_text("content"), Some("A < B && C > D".to_string()));
}

#[test]
fn test_parse_json_fallback() {
    let text = r#"{"name": "grep", "parameters": {"query": "test"}}"#;
    let calls = parse_tool_calls(text);
    assert_eq!(calls.len(), 1);
    assert_eq!(calls[0].name, "grep");
    assert_eq!(calls[0].param_text("query"), Some("test".to_string()));
}

#[test]
fn test_parse_mixed_formats() {
    let text = r#"
<read_file path="Cargo.toml" />
Затем поищем:
{"tool": "grep", "args": {"query": "quick-xml"}}
"#;
    let calls = parse_tool_calls(text);
    assert_eq!(calls.len(), 2);
    assert_eq!(calls[0].name, "read_file");
    assert_eq!(calls[1].name, "grep");
}

fn single_read_file(text: &str) {
    let calls = parse_tool_calls(text);
    assert_eq!(calls.len(), 1, "{}", text);
    assert_eq!(calls[0].name, "read_file");
    assert_eq!(calls[0].param_text("path"), Some("src/main.rs".to_string()));
}

#[test]
fn four_encodings_give_the_same_call() {
    single_read_file(r#"<invoke name="read_file"><parameter name="path">src/main.rs</parameter></invoke>"#);
    single_read_file(r#"<read_file path="src/main.rs" />"#);
    single_read_file(r#"{"name": "read_file", "parameters": {"path": "src/main.rs"}}"#);
    single_read_file(r#"{"tool": "read_file", "args": {"path": "src/main.rs"}}"#);
    single_read_file(r#"{"tool_call": {"name": "read_file", "parameters": {"path": "src/main.rs"}}}"#);
    single_read_file("tool_call: {\"name\": \"read_file\", \"parameters\": {\"path\": \"src/main.rs\"}}");
}

#[test]
fn identical_calls_in_two_encodings_are_kept_once() {
    let text = "<read_file path=\"src/main.rs\" />\n{\"name\": \"read_file\", \"parameters\": {\"path\": \"src/main.rs\"}}";
    let calls = parse_tool_calls(text);
    assert_eq!(calls.len(), 1);
}

#[test]
fn unknown_tools_and_prose_tags_are_ignored() {
    let text = "<thought>thinking</thought> <delete_everything path=\"/\" /> {\"name\": \"rm\", \"parameters\": {}}";
    assert!(parse_tool_calls(text).is_empty());
}

#[test]
fn scalar_parameters_are_coerced() {
    let text = r#"<read_file path="a.rs" start_line="10" end_line="20" />"#;
    let calls = parse_tool_calls(text);
    assert_eq!(calls.len(), 1);
    match &calls[0].parameters {
        agent_core::json::JsonValue::Object(fields) => {
            assert_eq!(fields.len(), 3);
            assert!(matches!(fields[1].1, agent_core::json::JsonValue::Int(10)));
            assert!(matches!(fields[2].1, agent_core::json::JsonValue::Int(20)));
        }
        _ => panic!("parameters are no object"),
    }
}

#[test]
fn malformed_fragments_are_skipped() {
    let text = "{\"name\": \"grep\", \"parameters\": {\"query\": \n<invoke name=\"list_dir\"><parameter name=\"path\">.</parameter></invoke>";
    let calls = parse_tool_calls(text);
    assert_eq!(calls.len(), 1);
    assert_eq!(calls[0].name, "list_dir");
}

#[test]
fn parameter_order_does_not_make_calls_differ() {
    let text = "<read_file path=\"a\" x=\"1\" />\n<read_file x=\"1\" path=\"a\" />";
    assert_eq!(parse_tool_calls(text).len(), 1);
    let mixed = "<read_file path=\"a\" start_line=\"1\" />\n{\"name\": \"read_file\", \"parameters\": {\"start_line\": 1, \"path\": \"a\"}}";
    assert_eq!(parse_tool_calls(mixed).len(), 1);
}

#[test]
fn stray_angle_brackets_do_not_swallow_calls() {
    for text in [
        "a < b\n<read_file path=\"x\" />",
        "a <b\n<read_file path=\"x\" />",
        "<invoke name=\"read_file>\n<read_file path=\"x\" />",
        "{\"name\": \"grep\",\n<read_file path=\"x\" />",
    ] {
        let calls = parse_tool_calls(text);
        assert_eq!(calls.len(), 1, "{}", text);
        assert_eq!(calls[0].name, "read_file");
        assert_eq!(calls[0].param_text("path"), Some("x".to_string()));
    }
}
