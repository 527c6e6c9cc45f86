use mosaik::edit::{unless_empty, ExportError, ExportTarget};
use mosaik::llm::{anthropic_chunk, anthropic_request, ollama_chunk, ollama_request};
use mosaik::nodes::coord_in_world;
use mosaik::nodes::COORD_MAX;
use mosaik::stream::{chars_of, push_text, sse_payload, take_line};
use mosaik::text::{char_is_space, is_blank, same_text};
use mosaik::{
    ChatMessage, ContentDelta, LLMRequest, LLMResponse, MessageRole, NodeType, OllamaResponse,
    ProviderType, ThinkingConfig, Workflow,
};

fn user(text: &str) -> ChatMessage {
    ChatMessage { role: MessageRole::User, content: text.to_string(), thinking: None }
}

fn event(kind: &str, delta: Option<ContentDelta>) -> LLMResponse {
    LLMResponse { event_type: kind.to_string(), delta }
}

fn delta(kind: &str, text: Option<&str>, thinking: Option<&str>) -> Option<ContentDelta> {
    Some(ContentDelta {
        delta_type: kind.to_string(),
        text: text.map(|t| t.to_string()),
        thinking: thinking.map(|t| t.to_string()),
    })
}

#[test]
fn white_space_is_told_apart() {
    for c in [' ', '\t', '\n', '\r', '\u{b}', '\u{c}', '\u{85}', '\u{a0}', '\u{1680}', '\u{2000}',
        '\u{200a}', '\u{2028}', '\u{2029}', '\u{202f}', '\u{205f}', '\u{3000}']
    {
        assert!(char_is_space(c));
    }
    for c in ['a', '0', '\u{8}', '\u{e}', '\u{1f}', '\u{200b}', '\u{feff}', '\u{2007}'] {
        assert_eq!(char_is_space(c), c.is_whitespace());
    }
}

#[test]
fn char_is_space_agrees_with_std_everywhere() {
    let mut c = 0u32;
    while c <= 0x3100 {
        if let Some(ch) = char::from_u32(c) {
            assert_eq!(char_is_space(ch), ch.is_whitespace());
        }
        c += 1;
    }
}

#[test]
fn blank_texts() {
    assert!(is_blank(""));
    assert!(is_blank(" \n\t "));
    assert!(!is_blank(" x "));
    assert!(!is_blank("x"));
}

#[test]
fn world_bounds() {
    assert!(coord_in_world(0));
    assert!(coord_in_world(COORD_MAX));
    assert!(coord_in_world(-COORD_MAX));
    assert!(!coord_in_world(COORD_MAX + 1));
    assert!(!coord_in_world(-COORD_MAX - 1));
    assert_eq!(COORD_MAX, (1i64 << 62) - 1);
}

#[test]
fn lines_leave_the_buffer_one_by_one() {
    let mut buffer = String::new();
    push_text(&mut buffer, "  first line \r\nsec");
    assert_eq!(take_line(&mut buffer), Some("first line".to_string()));
    assert_eq!(buffer, "sec");
    assert_eq!(take_line(&mut buffer), None);
    assert_eq!(buffer, "sec");
    push_text(&mut buffer, "ond\n\n third");
    assert_eq!(take_line(&mut buffer), Some("second".to_string()));
    assert_eq!(take_line(&mut buffer), Some(String::new()));
    assert_eq!(take_line(&mut buffer), None);
    assert_eq!(buffer, " third");
}

#[test]
fn lines_of_white_space_are_empty() {
    let mut buffer = " \t \nx".to_string();
    assert_eq!(take_line(&mut buffer), Some(String::new()));
    assert_eq!(buffer, "x");
    let mut only = "\n".to_string();
    assert_eq!(take_line(&mut only), Some(String::new()));
    assert_eq!(only, "");
    let mut empty = String::new();
    assert_eq!(take_line(&mut empty), None);
}

#[test]
fn lines_are_cut_by_characters_not_bytes() {
    let mut buffer = "  zäöü→ \nrest ✓\n".to_string();
    assert_eq!(take_line(&mut buffer), Some("zäöü→".to_string()));
    assert_eq!(buffer, "rest ✓\n");
    assert_eq!(take_line(&mut buffer), Some("rest ✓".to_string()));
    assert_eq!(buffer, "");
    assert_eq!(chars_of("aß→"), vec!['a', 'ß', '→']);
}

#[test]
fn payload_follows_the_data_marker() {
    assert_eq!(sse_payload("data: {\"a\":1}"), Some("{\"a\":1}".to_string()));
    assert_eq!(sse_payload("data: "), Some(String::new()));
    assert_eq!(sse_payload("data: ä→"), Some("ä→".to_string()));
    assert_eq!(sse_payload("data:"), None);
    assert_eq!(sse_payload("data:x {}"), None);
    assert_eq!(sse_payload("event: ping"), None);
    assert_eq!(sse_payload(""), None);
    assert_eq!(sse_payload(" data: x"), None);
}

#[test]
fn same_text_compares_contents() {
    assert!(same_text("abc", "abc"));
    assert!(same_text("", ""));
    assert!(!same_text("abc", "abd"));
    assert!(!same_text("abc", "ab"));
}

#[test]
fn text_increments_become_content_chunks() {
    assert_eq!(
        anthropic_chunk(event("content_block_delta", delta("text_delta", Some("Hi"), None))),
        Some(ChatMessage {
            role: MessageRole::Assistant,
            content: "Hi".to_string(),
            thinking: None
        })
    );
    assert_eq!(
        anthropic_chunk(event("content_block_delta", delta("text_delta", Some("Hi"), Some("t")))),
        Some(ChatMessage {
            role: MessageRole::Assistant,
            content: "Hi".to_string(),
            thinking: None
        })
    );
}

#[test]
fn thinking_increments_become_thinking_chunks() {
    assert_eq!(
        anthropic_chunk(event("content_block_delta", delta("thinking_delta", None, Some("hm")))),
        Some(ChatMessage {
            role: MessageRole::Assistant,
            content: String::new(),
            thinking: Some("hm".to_string())
        })
    );
}

#[test]
fn other_events_carry_no_chunk() {
    assert_eq!(anthropic_chunk(event("message_start", delta("text_delta", Some("x"), None))), None);
    assert_eq!(anthropic_chunk(event("content_block_delta", None)), None);
    assert_eq!(anthropic_chunk(event("content_block_delta", delta("text_delta", None, None))), None);
    assert_eq!(
        anthropic_chunk(event("content_block_delta", delta("text_delta", Some(""), None))),
        None
    );
    assert_eq!(
        anthropic_chunk(event("content_block_delta", delta("text_delta", None, Some("t")))),
        None
    );
    assert_eq!(
        anthropic_chunk(event("content_block_delta", delta("thinking_delta", Some("x"), None))),
        None
    );
    assert_eq!(
        anthropic_chunk(event("content_block_delta", delta("thinking_delta", None, Some("")))),
        None
    );
    assert_eq!(
        anthropic_chunk(event("content_block_delta", delta("signature_delta", Some("x"), Some("y")))),
        None
    );
}

#[test]
fn local_lines_carry_a_chunk_if_they_have_content_or_thinking() {
    let with_content = ChatMessage {
        role: MessageRole::Assistant,
        content: "x".to_string(),
        thinking: None,
    };
    assert_eq!(
        ollama_chunk(OllamaResponse { message: with_content.clone(), done: false }),
        (Some(with_content), false)
    );
    let with_thinking = ChatMessage {
        role: MessageRole::Assistant,
        content: String::new(),
        thinking: Some(String::new()),
    };
    assert_eq!(
        ollama_chunk(OllamaResponse { message: with_thinking.clone(), done: true }),
        (Some(with_thinking), true)
    );
    let bare =
        ChatMessage { role: MessageRole::Assistant, content: String::new(), thinking: None };
    assert_eq!(ollama_chunk(OllamaResponse { message: bare.clone(), done: true }), (None, true));
    assert_eq!(ollama_chunk(OllamaResponse { message: bare, done: false }), (None, false));
}

#[test]
fn remote_request() {
    assert_eq!(
        anthropic_request(None, "standard", vec![user("q")], Some(true)),
        LLMRequest {
            model: "standard".to_string(),
            messages: vec![user("q")],
            stream: true,
            max_tokens: Some(32000),
            think: None,
            thinking: Some(ThinkingConfig {
                thinking_type: "enabled".to_string(),
                budget_tokens: 2000
            }),
        }
    );
    let plain = anthropic_request(Some("m".to_string()), "standard", Vec::new(), Some(false));
    assert_eq!(plain.model, "m");
    assert_eq!(plain.thinking, None);
    assert_eq!(anthropic_request(None, "standard", Vec::new(), None).thinking, None);
}

#[test]
fn local_request() {
    assert_eq!(
        ollama_request(None, "", vec![user("q")], Some(true)),
        LLMRequest {
            model: String::new(),
            messages: vec![user("q")],
            stream: true,
            max_tokens: None,
            think: Some(true),
            thinking: None,
        }
    );
    let named = ollama_request(Some("llama".to_string()), "", Vec::new(), None);
    assert_eq!(named.model, "llama");
    assert_eq!(named.think, None);
    assert_eq!(ollama_request(None, "small", Vec::new(), None).model, "small");
}

#[test]
fn unless_empty_drops_the_empty_text() {
    assert_eq!(unless_empty(String::new()), None);
    assert_eq!(unless_empty(" ".to_string()), Some(" ".to_string()));
}

#[test]
fn forms_edit_the_nodes() {
    let mut graph = Workflow::default();
    graph.toggle_maximized(0);
    assert!(graph.node(0).unwrap().is_maximized);
    graph.toggle_maximized(0);
    assert!(!graph.node(0).unwrap().is_maximized);
    graph.toggle_maximized(9);

    graph.set_model_name(1, "llama".to_string());
    graph.set_thinking(1, true);
    assert_eq!(
        graph.node(1).unwrap().node_type,
        NodeType::Model {
            provider: ProviderType::Ollama,
            model_name: "llama".to_string(),
            messages: Vec::new(),
            thinking: true,
        }
    );
    graph.set_model_name(0, "x".to_string());
    graph.set_thinking(0, true);
    assert_eq!(graph.node(0).unwrap().node_type, NodeType::Prompt {});

    graph.update_node_output(1, "answer".to_string());
    graph.send_message(1, "q".to_string()).unwrap();
    graph.reset_node(1);
    let node = graph.node(1).unwrap();
    assert_eq!(node.output, None);
    assert!(node.needs_execution);
    assert_eq!(
        node.node_type,
        NodeType::Model {
            provider: ProviderType::Ollama,
            model_name: "llama".to_string(),
            messages: Vec::new(),
            thinking: true,
        }
    );
}

#[test]
fn an_imported_file_becomes_the_output() {
    let mut graph = Workflow::new();
    let import = graph.add_node(NodeType::FileImport { file_path: None, file_name: None }, 0, 0);
    let target = graph.add_node(NodeType::Prompt {}, 0, 0);
    graph.add_connection(import, target).unwrap();
    graph.set_imported_file(import, "/d/a.md".to_string(), "a.md".to_string(), "text".to_string());
    let node = graph.node(import).unwrap();
    assert_eq!(
        node.node_type,
        NodeType::FileImport {
            file_path: Some("/d/a.md".to_string()),
            file_name: Some("a.md".to_string())
        }
    );
    assert_eq!(node.output, Some("text".to_string()));
    assert!(!node.needs_execution);
    assert_eq!(graph.node(target).unwrap().input, Some("text".to_string()));
    assert!(graph.node(target).unwrap().needs_execution);
}

#[test]
fn importing_into_a_node_of_another_kind_changes_nothing() {
    let mut graph = Workflow::new();
    let source = graph.add_node(NodeType::Prompt {}, 0, 0);
    let target = graph.add_node(NodeType::Prompt {}, 0, 0);
    graph.add_connection(source, target).unwrap();
    graph.update_node_output(target, "done".to_string());
    let before = (graph.node(source).unwrap().clone(), graph.node(target).unwrap().clone());
    graph.set_imported_file(source, "p".to_string(), "n".to_string(), "c".to_string());
    graph.set_imported_file(9, "p".to_string(), "n".to_string(), "c".to_string());
    assert_eq!(graph.node(source), Some(&before.0));
    assert_eq!(graph.node(target), Some(&before.1));
    assert!(!graph.node(target).unwrap().needs_execution);
}

#[test]
fn a_reset_reaches_the_nodes_that_are_fed() {
    let mut graph = Workflow::new();
    let source = graph.add_node(NodeType::Prompt {}, 0, 0);
    let other = graph.add_node(NodeType::Prompt {}, 0, 50);
    let target = graph.add_node(NodeType::Prompt {}, 300, 0);
    graph.add_connection(source, target).unwrap();
    graph.add_connection(other, target).unwrap();
    graph.update_node_output(source, "a".to_string());
    graph.update_node_output(other, "b".to_string());
    graph.update_node_output(target, "done".to_string());
    assert_eq!(graph.node(target).unwrap().input, Some("a\n\nb".to_string()));
    graph.reset_node(source);
    assert_eq!(graph.node(source).unwrap().output, None);
    assert_eq!(graph.node(target).unwrap().input, Some("b".to_string()));
    assert!(graph.node(target).unwrap().needs_execution);
    assert_eq!(graph.node(target).unwrap().output, Some("done".to_string()));
    graph.reset_node(9);
    assert_eq!(graph.node_ids(), vec![source, other, target]);
}

#[test]
fn an_export_needs_input_folder_and_name() {
    let mut graph = Workflow::new();
    let source = graph.add_node(NodeType::Prompt {}, 0, 0);
    let export = graph.add_node(
        NodeType::FileExport { folder_path: None, file_name: None, file_type: String::new() },
        0,
        0,
    );
    assert_eq!(graph.export_target(source), Err(ExportError::NotAnExport));
    assert_eq!(graph.export_target(9), Err(ExportError::NotAnExport));
    assert_eq!(graph.export_target(export), Err(ExportError::Incomplete));
    graph.add_connection(source, export).unwrap();
    graph.update_node_output(source, "content".to_string());
    graph.update_node_output(export, "x".to_string());
    assert!(!graph.node(export).unwrap().needs_execution);
    assert_eq!(graph.export_target(export), Err(ExportError::Incomplete));
    graph.set_export_folder(export, "/out".to_string());
    assert!(graph.node(export).unwrap().needs_execution);
    assert_eq!(graph.export_target(export), Err(ExportError::Incomplete));
    graph.set_export_file_name(export, "notes".to_string());
    assert_eq!(
        graph.export_target(export),
        Ok(ExportTarget {
            folder: "/out".to_string(),
            file_name: "notes.txt".to_string(),
            content: "content".to_string(),
        })
    );
    graph.set_export_file_type(export, "md".to_string());
    assert_eq!(graph.export_target(export).unwrap().file_name, "notes.md");
    assert!(graph.node(export).unwrap().needs_execution);
    graph.set_export_file_name(export, String::new());
    assert_eq!(graph.export_target(export), Err(ExportError::Incomplete));
    graph.set_export_folder(export, String::new());
    assert_eq!(
        graph.node(export).unwrap().node_type,
        NodeType::FileExport { folder_path: None, file_name: None, file_type: "md".to_string() }
    );
    graph.set_export_folder(source, "/x".to_string());
    graph.set_export_file_name(source, "x".to_string());
    graph.set_export_file_type(source, "x".to_string());
    assert_eq!(graph.node(source).unwrap().node_type, NodeType::Prompt {});
}

#[test]
fn an_export_with_an_empty_name_is_refused() {
    let idle = mosaik::ConnectionDrawingState::default();
    let mut node = mosaik::Node::new(0, &NodeType::Prompt {}, 0, 0);
    node.node_type = NodeType::FileExport {
        folder_path: Some("/out".to_string()),
        file_name: Some(String::new()),
        file_type: "txt".to_string(),
    };
    node.input = Some("content".to_string());
    let graph = Workflow::from_parts(vec![node], Vec::new(), 1, 0, None, None, idle).unwrap();
    assert_eq!(graph.export_target(0), Err(ExportError::EmptyFileName));
}
