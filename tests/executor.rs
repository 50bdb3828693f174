use agent_core::executor::{
    index_result, missing_todos, plan_tool, read_range, todo_add, todo_complete, todo_list_result, write_result,
    ToolError, ToolRequest, TodoItem,
};
use agent_core::index::is_indexed_extension;
use agent_core::toolcall::parse_tool_calls;

const CONTENT: &str = "one\ntwo\nthree\nfour\nfive\nsix";

#[test]
fn end_before_start_gives_empty_range() {
    assert_eq!(read_range(CONTENT, Some(5), Some(3)), "(Empty range or out of bounds)");
}

#[test]
fn ranges_are_one_based_inclusive_and_clamped() {
    assert_eq!(read_range(CONTENT, Some(2), Some(3)), "two\nthree");
    assert_eq!(read_range(CONTENT, Some(5), Some(100)), "five\nsix");
    assert_eq!(read_range(CONTENT, None, Some(1)), "one");
    assert_eq!(read_range(CONTENT, Some(6), None), "six");
    assert_eq!(read_range(CONTENT, None, None), CONTENT);
    assert_eq!(read_range(CONTENT, Some(0), Some(1)), "one");
    assert_eq!(read_range(CONTENT, Some(9), None), "(Empty range or out of bounds)");
    assert_eq!(read_range("a\r\nb\r\n", None, None), "a\nb");
}

fn call(text: &str) -> agent_core::toolcall::ToolCall {
    parse_tool_calls(text).remove(0)
}

#[test]
fn read_file_resolves_against_workspace() {
    let ws = Some("/work".to_string());
    match plan_tool(&call(r#"<read_file path="src/lib.rs" start_line="2" />"#), &ws) {
        Ok(ToolRequest::ReadFile { path, start_line, end_line }) => {
            assert_eq!(path, "/work/src/lib.rs");
            assert_eq!(start_line, Some(2));
            assert_eq!(end_line, None);
        }
        _ => panic!("expected a read"),
    }
    match plan_tool(&call(r#"<read_file path="/etc/hosts" />"#), &ws) {
        Ok(ToolRequest::ReadFile { path, .. }) => assert_eq!(path, "/etc/hosts"),
        _ => panic!("expected a read"),
    }
}

#[test]
fn missing_parameters_and_workspace_are_reported() {
    let ws = None;
    match plan_tool(&call(r#"<read_file start_line="1" />"#), &ws) {
        Err(e) => assert_eq!(e.message(), "Missing path parameter"),
        _ => panic!("expected a failure"),
    }
    match plan_tool(&call(r#"<todo_list />"#), &ws) {
        Err(ToolError::NoWorkspace) => {}
        _ => panic!("expected no workspace"),
    }
    match plan_tool(&call(r#"<search_files pattern="x" />"#), &ws) {
        Err(e) => assert_eq!(e.message(), "No workspace open"),
        _ => panic!("expected no workspace"),
    }
}

#[test]
fn grep_defaults() {
    match plan_tool(&call(r#"<grep query="TODO" caseSensitive="true" />"#), &Some("/w".to_string())) {
        Ok(ToolRequest::Grep { path, query, case_sensitive, whole_word, regex, include_pattern, exclude_pattern }) => {
            assert_eq!(path, "/w/.");
            assert_eq!(query, "TODO");
            assert!(case_sensitive);
            assert!(!whole_word);
            assert!(!regex);
            assert_eq!(include_pattern, "");
            assert_eq!(exclude_pattern, "");
        }
        _ => panic!("expected a search"),
    }
}

#[test]
fn unknown_tool_is_an_error() {
    let c = agent_core::toolcall::ToolCall {
        name: "format_disk".to_string(),
        parameters: agent_core::json::JsonValue::Object(Vec::new()),
    };
    match plan_tool(&c, &None) {
        Err(e) => {
            assert!(matches!(e, ToolError::UnknownTool(_)));
            assert_eq!(e.message(), "Unknown tool: format_disk");
        }
        _ => panic!("expected a failure"),
    }
}

#[test]
fn todo_file_lives_in_the_hidden_directory() {
    match plan_tool(&call(r#"<todo_add content="write tests" />"#), &Some("/w".to_string())) {
        Ok(ToolRequest::TodoAdd { todo_file, content }) => {
            assert_eq!(todo_file, "/w/.cognitive/todos.json");
            assert_eq!(content, "write tests");
        }
        _ => panic!("expected a todo"),
    }
}

#[test]
fn todos_are_added_and_completed() {
    let mut todos: Vec<TodoItem> = Vec::new();
    let msg = todo_add(&mut todos, "1".to_string(), "write tests".to_string(), "2024-01-01T00:00:00Z".to_string());
    assert_eq!(msg, "Added todo: write tests");
    assert_eq!(todos[0].status, "pending");
    match todo_complete(&mut todos, "1") {
        Ok(m) => assert_eq!(m, "Completed todo: 1"),
        Err(_) => panic!("expected completion"),
    }
    assert_eq!(todos[0].status, "completed");
    match todo_complete(&mut todos, "2") {
        Err(ToolError::NotFound(m)) => assert_eq!(m, "Todo not found: 2"),
        _ => panic!("expected not found"),
    }
}

#[test]
fn outcomes_of_effects() {
    assert_eq!(write_result(Ok(())).ok(), Some("File written successfully".to_string()));
    match write_result(Err("disk full".to_string())) {
        Err(ToolError::Io(m)) => assert_eq!(m, "disk full"),
        _ => panic!("expected an I/O error"),
    }
    assert_eq!(index_result(Ok(())).ok(), Some("Codebase indexed successfully".to_string()));
    assert_eq!(todo_list_result(None), "[]");
    assert_eq!(todo_list_result(Some("[{}]".to_string())), "[{}]");
    assert_eq!(missing_todos().message(), "No todos found");
}

#[test]
fn indexed_extensions() {
    assert!(is_indexed_extension("rs"));
    assert!(is_indexed_extension("TSX"));
    assert!(!is_indexed_extension("png"));
}
