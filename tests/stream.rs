use agent_core::stream::{gemini_take, ollama_take, split_values, sse_take, take_lines};

#[test]
fn complete_lines_are_taken_and_the_tail_kept() {
    let mut buffer = b"first\nsecond\npart".to_vec();
    let lines = take_lines(&mut buffer);
    assert_eq!(lines, vec![b"first".to_vec(), b"second".to_vec()]);
    assert_eq!(buffer, b"part".to_vec());
    buffer.extend_from_slice(b"ial\n");
    assert_eq!(take_lines(&mut buffer), vec![b"partial".to_vec()]);
    assert!(buffer.is_empty());
}

#[test]
fn ollama_lines_give_message_content() {
    let mut buffer = b"{\"message\":{\"role\":\"assistant\",\"content\":\"Hel\"},\"done\":false}\n{\"message\":{\"content\":\"lo\"},\"done\":fa".to_vec();
    assert_eq!(ollama_take(&mut buffer), "Hel");
    buffer.extend_from_slice(b"lse}\n\n{\"done\":true}\nnot json\n");
    assert_eq!(ollama_take(&mut buffer), "lo");
    assert!(buffer.is_empty());
}

#[test]
fn sse_data_lines_give_delta_content() {
    let mut buffer = b"data: {\"choices\":[{\"delta\":{\"content\":\"Hi\"}}]}\n: comment\ndata: {\"choices\":[{\"delta\":{}}]}\ndata: [DONE]\ndata: {\"choices\":[{\"delta\":{\"content\":\" there\"}}]}\n".to_vec();
    assert_eq!(sse_take(&mut buffer), "Hi there");
}

#[test]
fn brackets_inside_strings_do_not_count() {
    let text = br#"{"a":"}{[\"x"} [1,{"b":"]"}] {"c""#;
    let (values, rest) = split_values(text);
    assert_eq!(values, vec![(0, 14), (15, 28)]);
    assert_eq!(rest, 29);
}

#[test]
fn gemini_values_are_read_across_chunks() {
    let chunk = br#"{"candidates":[{"content":{"role":"model","parts":[{"text":"Hel"},{"text":"lo"}]}}]}"#;
    let mut buffer = chunk[..20].to_vec();
    assert_eq!(gemini_take(&mut buffer), "");
    buffer.extend_from_slice(&chunk[20..]);
    assert_eq!(gemini_take(&mut buffer), "Hello");
    assert!(buffer.is_empty());
}

#[test]
fn gemini_array_of_chunks_is_read_when_complete() {
    let text = br#"[{"candidates":[{"content":{"role":"model","parts":[{"text":"a"}]}}]},
{"candidates":[{"content":{"role":"model","parts":[{"text":"b"}]}}]}]"#;
    let mut buffer = text.to_vec();
    assert_eq!(gemini_take(&mut buffer), "ab");
    assert!(buffer.is_empty());
}
