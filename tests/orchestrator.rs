use agent_core::orchestrator::{select_provider, ChatMessage, Provider, ReplyAction, ToolOutcome, Turn, clip_result, show_result};
use agent_core::provider::{complete_reply_text, ollama_base_url, replace_all, to_gemini_contents};
use agent_core::json::parse_json;
use agent_core::system_prompt::{generate_system_prompt, SystemPromptContext};

fn msg(role: &str, content: &str) -> ChatMessage {
    ChatMessage { role: role.to_string(), content: content.to_string() }
}

#[test]
fn providers_are_chosen_by_model_name() {
    assert_eq!(select_provider("gpt-4o"), Provider::OpenAi);
    assert_eq!(select_provider("gemini-1.5-pro"), Provider::Gemini);
    assert_eq!(select_provider("llama3"), Provider::Ollama);
}

#[test]
fn quiet_model_is_asked_exactly_cap_times() {
    let mut turn = Turn::start("system".to_string(), vec![msg("user", "hi")], 10);
    let mut requests = 0;
    while turn.begin_iteration() {
        requests += 1;
        match turn.on_reply("I am thinking about it.".to_string()) {
            ReplyAction::Continue => continue,
            ReplyAction::Done => break,
            ReplyAction::RunTools(_) => panic!("no tools expected"),
        }
    }
    assert_eq!(requests, 10);
    // system, user, then one reply per request and a nudge after all but the last
    assert_eq!(turn.messages.len(), 2 + 10 + 9);
}

#[test]
fn completion_marker_ends_the_turn() {
    let mut turn = Turn::start("system".to_string(), Vec::new(), 10);
    assert!(turn.begin_iteration());
    assert!(matches!(turn.on_reply("## FINAL ANSWER: done".to_string()), ReplyAction::Done));
    assert_eq!(turn.messages.len(), 2);
    assert_eq!(turn.messages[1].role, "assistant");
}

#[test]
fn tool_calls_are_handed_out_and_results_reported() {
    let mut turn = Turn::start("system".to_string(), Vec::new(), 10);
    assert!(turn.begin_iteration());
    match turn.on_reply("<list_dir path=\"src\" />".to_string()) {
        ReplyAction::RunTools(calls) => assert_eq!(calls.len(), 1),
        _ => panic!("expected a tool call"),
    }
    let outcomes = vec![
        ToolOutcome::Success { name: "list_dir".to_string(), result: "[\"a.rs\"]".to_string() },
        ToolOutcome::Failure { name: "read_file".to_string(), error: "Missing path parameter".to_string() },
    ];
    turn.on_tool_results(&outcomes);
    let last = turn.messages.last().unwrap();
    assert_eq!(last.role, "user");
    assert_eq!(
        last.content,
        "Tool execution results:\n[list_dir] result:\n[\"a.rs\"]\n\nTool 'read_file' error: Missing path parameter\n\nPlease analyze these results and take the next step."
    );
}

#[test]
fn search_results_are_listed() {
    let files = show_result(&"search_files".to_string(), &"[{\"path\":\"src/a.rs\"},{\"path\":\"src/b.rs\"}]".to_string());
    assert_eq!(files, "Found files:\nsrc/a.rs\nsrc/b.rs");
    let none = show_result(&"find_by_name".to_string(), &"[]".to_string());
    assert_eq!(none, "No files found matching the pattern.");
    let symbols = show_result(
        &"search_codebase".to_string(),
        &"[{\"name\":\"save\",\"kind\":\"Function\",\"file_path\":\"src/a.rs\",\"start_line\":12}]".to_string(),
    );
    assert_eq!(symbols, "Found symbols:\nsave (Function) in src/a.rs (line 12)");
    let raw = show_result(&"search_codebase".to_string(), &"not json".to_string());
    assert_eq!(raw, "not json");
}

#[test]
fn long_results_are_clipped() {
    let long = "x".repeat(100_005);
    let clipped = clip_result(&long);
    assert!(clipped.ends_with("... (truncated, total length: 100005)"));
    assert_eq!(clipped.len(), 100_000 + "... (truncated, total length: 100005)".len());
    assert_eq!(clip_result(&"short".to_string()), "short");
}

#[test]
fn gemini_history_skips_the_system_prompt() {
    let contents = to_gemini_contents(&vec![msg("system", "s"), msg("user", "u"), msg("assistant", "a")]);
    assert_eq!(contents.len(), 2);
    assert_eq!(contents[0].role, "user");
    assert_eq!(contents[1].role, "model");
    assert_eq!(contents[1].parts[0].text, "a");
}

#[test]
fn complete_replies_are_read_per_provider() {
    let openai = parse_json("{\"choices\":[{\"message\":{\"content\":\"hi\"}}]}").unwrap();
    assert_eq!(complete_reply_text(Provider::OpenAi, &openai), "hi");
    let gemini = parse_json("{\"candidates\":[{\"content\":{\"parts\":[{\"text\":\"yo\"}]}}]}").unwrap();
    assert_eq!(complete_reply_text(Provider::Gemini, &gemini), "yo");
    let ollama = parse_json("{\"message\":{\"content\":\"ok\"}}").unwrap();
    assert_eq!(complete_reply_text(Provider::Ollama, &ollama), "ok");
    assert_eq!(complete_reply_text(Provider::Ollama, &openai), "");
}

#[test]
fn system_prompt_names_os_and_workspace() {
    let with = generate_system_prompt(SystemPromptContext {
        user_os: "linux".to_string(),
        user_query: None,
        workspace: Some("/home/me/project".to_string()),
    });
    assert!(with.starts_with("<identity>"));
    assert!(with.ends_with("- User OS: linux\n- Workspace: /home/me/project\n</context>\n"));
    let without = generate_system_prompt(SystemPromptContext { user_os: "macos".to_string(), user_query: None, workspace: None });
    assert!(without.contains("- Workspace: Unknown"));
    assert!(without.contains("[{\"path\": \"src/parser.rs\"}]"));
}

#[test]
fn ollama_addresses_are_normalized() {
    assert_eq!(ollama_base_url(None), "http://127.0.0.1:11434");
    assert_eq!(ollama_base_url(Some("   ".to_string())), "http://127.0.0.1:11434");
    assert_eq!(ollama_base_url(Some("localhost:11434/".to_string())), "http://127.0.0.1:11434");
    assert_eq!(ollama_base_url(Some("https://gpu.local:8080".to_string())), "https://gpu.local:8080");
}

#[test]
fn replace_is_left_to_right_without_overlap() {
    let s: Vec<char> = "aaa-localhost-localhost".chars().collect();
    let from: Vec<char> = "aa".chars().collect();
    let to: Vec<char> = "b".chars().collect();
    let r: String = replace_all(&s, &from, &to).into_iter().collect();
    assert_eq!(r, "ba-localhost-localhost");
}
