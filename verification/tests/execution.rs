use mosaik::execution::{absorb_into, fold_chunk, put_history, take_history};
use mosaik::nodes::{copy_message, copy_opt_text};
use mosaik::schedule::build_dependencies;
use mosaik::Connection;
use mosaik::{
    ChatMessage, ExecutionError, MessageRole, ModelRun, Node, NodeType, PromptError, ProviderType,
    Workflow,
};

fn model_of(provider: ProviderType) -> NodeType {
    NodeType::Model { provider, model_name: String::new(), messages: Vec::new(), thinking: false }
}

fn model() -> NodeType {
    model_of(ProviderType::Ollama)
}

fn user(text: &str) -> ChatMessage {
    ChatMessage { role: MessageRole::User, content: text.to_string(), thinking: None }
}

fn content(text: &str) -> ChatMessage {
    ChatMessage { role: MessageRole::Assistant, content: text.to_string(), thinking: None }
}

fn thinking(text: &str) -> ChatMessage {
    ChatMessage {
        role: MessageRole::Assistant,
        content: String::new(),
        thinking: Some(text.to_string()),
    }
}

fn history(graph: &Workflow, id: usize) -> Vec<ChatMessage> {
    match &graph.node(id).unwrap().node_type {
        NodeType::Model { messages, .. } => messages.clone(),
        _ => panic!("not a model node"),
    }
}

fn output_of(graph: &Workflow, id: usize) -> Option<String> {
    graph.node(id).unwrap().output.clone()
}

#[test]
fn order_of_a_chain_follows_the_connections() {
    let mut graph = Workflow::new();
    let last = graph.add_node(model(), 0, 0);
    let middle = graph.add_node(model(), 0, 0);
    let first = graph.add_node(model(), 0, 0);
    graph.add_connection(first, middle).unwrap();
    graph.add_connection(middle, last).unwrap();
    assert_eq!(graph.eligible_nodes(), vec![last, middle, first]);
    assert_eq!(graph.execution_order(), vec![first, middle, last]);
}

#[test]
fn nodes_of_one_tier_come_in_ascending_order() {
    let mut graph = Workflow::new();
    let sink = graph.add_node(model(), 0, 0);
    let a = graph.add_node(model(), 0, 0);
    let b = graph.add_node(model(), 0, 0);
    let lone = graph.add_node(model(), 0, 0);
    graph.add_connection(b, sink).unwrap();
    graph.add_connection(a, sink).unwrap();
    assert_eq!(graph.execution_order(), vec![a, b, lone, sink]);
}

#[test]
fn a_cycle_of_two_runs_neither() {
    let mut graph = Workflow::new();
    let a = graph.add_node(model(), 0, 0);
    let b = graph.add_node(model(), 0, 0);
    graph.add_connection(a, b).unwrap();
    graph.add_connection(b, a).unwrap();
    assert_eq!(graph.execution_order(), Vec::<usize>::new());
}

#[test]
fn nodes_behind_a_cycle_are_left_out_and_the_rest_runs() {
    let mut graph = Workflow::new();
    let a = graph.add_node(model(), 0, 0);
    let b = graph.add_node(model(), 0, 0);
    let behind = graph.add_node(model(), 0, 0);
    let free = graph.add_node(model(), 0, 0);
    let after_free = graph.add_node(model(), 0, 0);
    graph.add_connection(a, b).unwrap();
    graph.add_connection(b, a).unwrap();
    graph.add_connection(b, behind).unwrap();
    graph.add_connection(free, after_free).unwrap();
    assert_eq!(graph.execution_order(), vec![free, after_free]);
}

#[test]
fn only_model_nodes_that_need_execution_are_scheduled() {
    let mut graph = Workflow::new();
    let prompt = graph.add_node(NodeType::Prompt {}, 0, 0);
    let done = graph.add_node(model(), 0, 0);
    let waiting = graph.add_node(model(), 0, 0);
    graph.add_connection(prompt, waiting).unwrap();
    graph.add_connection(done, waiting).unwrap();
    graph.update_node_output(done, "answer".to_string());
    assert!(graph.node(waiting).unwrap().needs_execution);
    assert!(!graph.node(done).unwrap().needs_execution);
    assert_eq!(graph.eligible_nodes(), vec![waiting]);
    assert_eq!(graph.execution_order(), vec![waiting]);
}

#[test]
fn an_empty_graph_has_an_empty_order() {
    let graph = Workflow::new();
    assert_eq!(graph.execution_order(), Vec::<usize>::new());
    assert_eq!(Workflow::default().execution_order(), vec![1]);
}

#[test]
fn dependencies_hold_the_remaining_nodes_that_feed_a_node() {
    let link = |id: usize, from: usize, to: usize| Connection { id, from_node_id: from, to_node_id: to };
    let conns = vec![link(0, 1, 2), link(1, 3, 2), link(2, 9, 2), link(3, 2, 1), link(4, 1, 2)];
    let deps = build_dependencies(&vec![1, 2, 3], &conns);
    assert_eq!(deps.len(), 3);
    let mut into_two: Vec<usize> = deps[&2].iter().copied().collect();
    into_two.sort();
    assert_eq!(into_two, vec![1, 3]);
    let into_one: Vec<usize> = deps[&1].iter().copied().collect();
    assert_eq!(into_one, vec![2]);
    assert!(deps[&3].is_empty());
    let fewer = build_dependencies(&vec![2, 3], &conns);
    assert_eq!(fewer.len(), 2);
    let into_two: Vec<usize> = fewer[&2].iter().copied().collect();
    assert_eq!(into_two, vec![3]);
    assert!(build_dependencies(&Vec::new(), &conns).is_empty());
}

#[test]
fn prompt_is_the_input_followed_by_the_conversation() {
    let mut node = Node::new(0, &model(), 0, 0);
    node.input = Some("context".to_string());
    node.node_type = NodeType::Model {
        provider: ProviderType::Ollama,
        model_name: "m".to_string(),
        messages: vec![user("question"), content("answer")],
        thinking: false,
    };
    assert_eq!(
        node.prepare_prompt(),
        Ok(vec![user("context"), user("question"), content("answer")])
    );
}

#[test]
fn a_blank_input_is_left_out_of_the_prompt() {
    let mut node = Node::new(0, &model(), 0, 0);
    node.input = Some(" \n\t\u{a0}\u{3000} ".to_string());
    assert_eq!(node.prepare_prompt(), Err(PromptError::EmptyPrompt));
    node.node_type = NodeType::Model {
        provider: ProviderType::Ollama,
        model_name: String::new(),
        messages: vec![user("q")],
        thinking: false,
    };
    assert_eq!(node.prepare_prompt(), Ok(vec![user("q")]));
    node.input = Some(" x ".to_string());
    assert_eq!(node.prepare_prompt(), Ok(vec![user(" x "), user("q")]));
}

#[test]
fn prompt_errors() {
    let empty = Node::new(0, &model(), 0, 0);
    assert_eq!(empty.prepare_prompt(), Err(PromptError::EmptyPrompt));
    let mut other = Node::new(0, &NodeType::Prompt {}, 0, 0);
    other.input = Some("text".to_string());
    assert_eq!(other.prepare_prompt(), Err(PromptError::NotAModel));
}

#[test]
fn reset_forgets_output_and_payload() {
    let mut node = Node::new(0, &model_of(ProviderType::Anthropic), 0, 0);
    node.output = Some("o".to_string());
    node.input = Some("i".to_string());
    node.needs_execution = false;
    node.node_type = NodeType::Model {
        provider: ProviderType::Anthropic,
        model_name: "chosen".to_string(),
        messages: vec![user("q")],
        thinking: true,
    };
    node.reset();
    assert_eq!(node.output, None);
    assert_eq!(node.input, Some("i".to_string()));
    assert!(node.needs_execution);
    assert_eq!(
        node.node_type,
        NodeType::Model {
            provider: ProviderType::Anthropic,
            model_name: "chosen".to_string(),
            messages: Vec::new(),
            thinking: true,
        }
    );

    let mut export = Node::new(1, &NodeType::Prompt {}, 0, 0);
    export.node_type = NodeType::FileExport {
        folder_path: Some("f".to_string()),
        file_name: Some("n".to_string()),
        file_type: "md".to_string(),
    };
    export.reset();
    assert_eq!(
        export.node_type,
        NodeType::FileExport { folder_path: None, file_name: None, file_type: "txt".to_string() }
    );

    let mut import = Node::new(2, &NodeType::Prompt {}, 0, 0);
    import.node_type =
        NodeType::FileImport { file_path: Some("p".to_string()), file_name: Some("n".to_string()) };
    import.reset();
    assert_eq!(import.node_type, NodeType::FileImport { file_path: None, file_name: None });
}

#[test]
fn copies_have_the_same_content() {
    let message = ChatMessage {
        role: MessageRole::Assistant,
        content: "c".to_string(),
        thinking: Some("t".to_string()),
    };
    assert_eq!(copy_message(&message), message);
    assert_eq!(copy_opt_text(&Some("x".to_string())), Some("x".to_string()));
    assert_eq!(copy_opt_text(&None), None);
}

#[test]
fn begin_execution_builds_the_request() {
    let mut graph = Workflow::new();
    let prompt = graph.add_node(NodeType::Prompt {}, 0, 0);
    let target = graph.add_node(
        NodeType::Model {
            provider: ProviderType::Anthropic,
            model_name: "large".to_string(),
            messages: Vec::new(),
            thinking: false,
        },
        0,
        0,
    );
    graph.set_thinking(target, true);
    graph.add_connection(prompt, target).unwrap();
    graph.update_node_output(prompt, "context".to_string());
    let request = graph.begin_execution(target).unwrap();
    assert_eq!(request.node_id, target);
    assert_eq!(request.provider, ProviderType::Anthropic);
    assert_eq!(request.model_name, "large");
    assert!(request.thinking);
    assert_eq!(request.messages, vec![user("context")]);
    let node = graph.node(target).unwrap();
    assert!(node.is_executing);
    assert!(node.needs_execution);
}

#[test]
fn begin_execution_errors() {
    let mut graph = Workflow::new();
    let prompt = graph.add_node(NodeType::Prompt {}, 0, 0);
    let target = graph.add_node(model(), 0, 0);
    assert_eq!(graph.begin_execution(9), Err(ExecutionError::NodeMissing));
    assert_eq!(graph.begin_execution(prompt), Err(ExecutionError::NotAModel));
    assert!(!graph.node(prompt).unwrap().is_executing);
    assert_eq!(graph.begin_execution(target), Err(ExecutionError::EmptyPrompt));
    let node = graph.node(target).unwrap();
    assert!(!node.is_executing);
    assert!(node.needs_execution);
}

#[test]
fn send_message_appends_the_turn_and_builds_the_request() {
    let mut graph = Workflow::default();
    graph.update_node_output(0, "context".to_string());
    let request = graph.send_message(1, "question".to_string()).unwrap();
    assert_eq!(request.messages, vec![user("context"), user("question")]);
    assert_eq!(request.provider, ProviderType::Ollama);
    assert_eq!(request.model_name, "");
    assert!(!request.thinking);
    assert_eq!(history(&graph, 1), vec![user("question")]);
    assert!(graph.node(1).unwrap().is_executing);
    assert_eq!(graph.send_message(0, "x".to_string()), Err(ExecutionError::NotAModel));
    assert_eq!(graph.send_message(7, "x".to_string()), Err(ExecutionError::NodeMissing));
}

#[test]
fn chunks_accumulate_in_the_answer_and_the_output() {
    let mut graph = Workflow::default();
    graph.update_node_output(0, "context".to_string());
    graph.begin_execution(1).unwrap();
    let mut run = ModelRun::new(1);
    assert_eq!(run, ModelRun { node_id: 1, output: String::new(), started: false });

    graph.apply_chunk(&mut run, &content("Hel"));
    assert_eq!(output_of(&graph, 1), Some("Hel".to_string()));
    graph.apply_chunk(&mut run, &content("lo"));
    assert_eq!(output_of(&graph, 1), Some("Hello".to_string()));
    graph.apply_chunk(&mut run, &thinking("t1"));
    assert_eq!(output_of(&graph, 1), Some("Hello".to_string()));

    assert_eq!(
        history(&graph, 1),
        vec![ChatMessage {
            role: MessageRole::Assistant,
            content: "Hello".to_string(),
            thinking: Some("t1".to_string()),
        }]
    );
    assert_eq!(run, ModelRun { node_id: 1, output: "Hello".to_string(), started: true });
    assert!(graph.node(1).unwrap().is_executing);
    assert!(graph.node(1).unwrap().needs_execution);
    graph.complete_execution(1);
    assert!(!graph.node(1).unwrap().is_executing);
    assert!(!graph.node(1).unwrap().needs_execution);
    assert_eq!(output_of(&graph, 1), Some("Hello".to_string()));
}

#[test]
fn a_stream_that_ends_without_a_chunk_completes_the_execution() {
    let mut graph = Workflow::default();
    graph.update_node_output(0, "context".to_string());
    graph.begin_execution(1).unwrap();
    assert!(graph.node(1).unwrap().needs_execution);
    graph.complete_execution(1);
    let node = graph.node(1).unwrap();
    assert!(!node.is_executing);
    assert!(!node.needs_execution);
    assert_eq!(history(&graph, 1), Vec::<ChatMessage>::new());
    graph.complete_execution(9);
    assert_eq!(graph.node_ids(), vec![0, 1]);
}

#[test]
fn an_answer_that_breaks_off_leaves_the_node_to_be_tried_again() {
    let mut graph = Workflow::default();
    graph.update_node_output(0, "context".to_string());
    graph.begin_execution(1).unwrap();
    let mut run = ModelRun::new(1);
    graph.apply_chunk(&mut run, &content("par"));
    graph.end_execution(1);
    let node = graph.node(1).unwrap();
    assert!(!node.is_executing);
    assert!(node.needs_execution);
    assert_eq!(node.output, Some("par".to_string()));
}

#[test]
fn publishing_an_output_keeps_the_need_for_execution() {
    let mut graph = Workflow::default();
    graph.publish_node_output(1, "text".to_string());
    assert!(graph.node(1).unwrap().needs_execution);
    assert_eq!(output_of(&graph, 1), Some("text".to_string()));
    graph.update_node_output(1, "text".to_string());
    assert!(!graph.node(1).unwrap().needs_execution);
    graph.publish_node_output(1, "more".to_string());
    assert!(!graph.node(1).unwrap().needs_execution);
    graph.publish_node_output(9, "none".to_string());
    assert_eq!(graph.node_ids(), vec![0, 1]);
}

#[test]
fn thinking_fragments_are_joined() {
    let mut graph = Workflow::default();
    let mut run = ModelRun::new(1);
    graph.apply_chunk(&mut run, &thinking("a"));
    graph.apply_chunk(&mut run, &thinking("b"));
    graph.apply_chunk(&mut run, &content("c"));
    assert_eq!(
        history(&graph, 1),
        vec![ChatMessage {
            role: MessageRole::Assistant,
            content: "c".to_string(),
            thinking: Some("ab".to_string()),
        }]
    );
    assert_eq!(output_of(&graph, 1), Some("c".to_string()));
}

#[test]
fn the_answer_follows_the_stored_conversation() {
    let mut graph = Workflow::default();
    graph.send_message(1, "question".to_string()).unwrap();
    let mut run = ModelRun::new(1);
    graph.apply_chunk(&mut run, &content("answer"));
    assert_eq!(history(&graph, 1), vec![user("question"), content("answer")]);
}

#[test]
fn streamed_output_flows_into_the_next_node() {
    let mut graph = Workflow::new();
    let first = graph.add_node(model(), 0, 0);
    let second = graph.add_node(model(), 300, 0);
    graph.add_connection(first, second).unwrap();
    graph.update_node_output(second, "old".to_string());
    let mut run = ModelRun::new(first);
    graph.apply_chunk(&mut run, &content("par"));
    assert_eq!(graph.node(second).unwrap().input, Some("par".to_string()));
    assert!(graph.node(second).unwrap().needs_execution);
    graph.apply_chunk(&mut run, &content("tial"));
    assert_eq!(graph.node(second).unwrap().input, Some("partial".to_string()));
}

#[test]
fn chunks_for_a_removed_node_are_dropped() {
    let mut graph = Workflow::default();
    let mut run = ModelRun::new(1);
    graph.apply_chunk(&mut run, &content("a"));
    graph.remove_node(1);
    graph.apply_chunk(&mut run, &content("b"));
    assert_eq!(run.output, "a");
    assert_eq!(graph.node_ids(), vec![0]);
    assert_eq!(graph.node(0).unwrap().input, None);
    graph.end_execution(1);
    assert_eq!(graph.node_ids(), vec![0]);
}

#[test]
fn chunks_for_a_node_of_another_kind_only_set_the_output() {
    let mut graph = Workflow::default();
    let mut run = ModelRun::new(0);
    graph.apply_chunk(&mut run, &content("a"));
    assert_eq!(run, ModelRun { node_id: 0, output: String::new(), started: false });
    assert_eq!(output_of(&graph, 0), Some(String::new()));
}

#[test]
fn a_failed_request_leaves_the_node_to_be_tried_again() {
    let mut graph = Workflow::default();
    graph.update_node_output(0, "context".to_string());
    graph.begin_execution(1).unwrap();
    graph.end_execution(1);
    let node = graph.node(1).unwrap();
    assert!(!node.is_executing);
    assert!(node.needs_execution);
    assert_eq!(history(&graph, 1), Vec::<ChatMessage>::new());
    assert_eq!(node.output, None);
}

#[test]
fn folding_a_chunk_opens_the_turn_once() {
    let mut messages = vec![user("q")];
    assert!(fold_chunk(&mut messages, false, &content("a")));
    assert!(fold_chunk(&mut messages, true, &content("b")));
    assert_eq!(messages, vec![user("q"), content("ab")]);
    let mut none: Vec<ChatMessage> = Vec::new();
    assert!(!fold_chunk(&mut none, true, &content("a")));
    assert_eq!(none, Vec::<ChatMessage>::new());
}

#[test]
fn absorbing_keeps_the_role() {
    let mut turn = user("q");
    absorb_into(&mut turn, &thinking("t"));
    absorb_into(&mut turn, &content("+"));
    assert_eq!(
        turn,
        ChatMessage {
            role: MessageRole::User,
            content: "q+".to_string(),
            thinking: Some("t".to_string()),
        }
    );
}

#[test]
fn history_is_taken_and_put_back() {
    let mut node = Node::new(0, &model(), 0, 0);
    put_history(&mut node, vec![user("a")]);
    assert_eq!(take_history(&mut node), Some(vec![user("a")]));
    assert_eq!(take_history(&mut node), Some(Vec::new()));
    let mut other = Node::new(1, &NodeType::Prompt {}, 0, 0);
    put_history(&mut other, vec![user("a")]);
    assert_eq!(take_history(&mut other), None);
    assert_eq!(other, Node::new(1, &NodeType::Prompt {}, 0, 0));
}
