use mosaik::aggregate::{insert_ordered, Source};
use mosaik::nodes::COORD_MAX;
use mosaik::{
    get_port_world_pos, ChatMessage, Connection, ConnectionDrawingState, MessageRole, Node,
    NodeType, Port, ProviderType, Workflow, WorkflowError,
};

fn model() -> NodeType {
    NodeType::Model {
        provider: ProviderType::Ollama,
        model_name: String::new(),
        messages: Vec::new(),
        thinking: false,
    }
}

fn prompt_with(graph: &mut Workflow, x: i64, y: i64, text: &str) -> usize {
    let id = graph.add_node(NodeType::Prompt {}, x, y);
    graph.update_node_output(id, text.to_string());
    id
}

fn input_of(graph: &Workflow, id: usize) -> Option<String> {
    graph.node(id).unwrap().input.clone()
}

#[test]
fn new_graph_is_empty() {
    let graph = Workflow::new();
    assert_eq!(graph.node_ids(), Vec::<usize>::new());
    assert_eq!(graph.connection_list(), Vec::<Connection>::new());
    assert_eq!(graph.next_node_id(), 0);
    assert_eq!(graph.next_connection_id(), 0);
    assert_eq!(graph.selected_node_id(), None);
    assert_eq!(graph.dragging_node_id(), None);
    assert!(!graph.drawing_connection_state().active);
}

#[test]
fn default_graph_is_a_prompt_feeding_a_model() {
    let graph = Workflow::default();
    assert_eq!(graph.node_ids(), vec![0, 1]);
    let prompt = graph.node(0).unwrap();
    assert_eq!(prompt.node_type, NodeType::Prompt {});
    assert_eq!((prompt.position_x, prompt.position_y), (50, 100));
    let target = graph.node(1).unwrap();
    assert_eq!(target.node_type, model());
    assert_eq!((target.position_x, target.position_y), (400, 100));
    assert_eq!(target.input, None);
    assert!(target.needs_execution);
    assert_eq!(
        graph.connection_list(),
        vec![Connection { id: 0, from_node_id: 0, to_node_id: 1 }]
    );
    assert_eq!(graph.next_node_id(), 2);
    assert_eq!(graph.next_connection_id(), 1);
}

#[test]
fn new_nodes_get_the_defaults_of_their_kind() {
    let prompt = Node::new(7, &NodeType::Prompt {}, 3, 4);
    assert_eq!(prompt.id, 7);
    assert_eq!(prompt.title, "Prompt");
    assert_eq!((prompt.width, prompt.height), (200, 200));
    assert_eq!((prompt.position_x, prompt.position_y), (3, 4));
    assert_eq!(prompt.input, None);
    assert_eq!(prompt.output, None);
    assert!(prompt.needs_execution);
    assert!(!prompt.is_executing);
    assert!(!prompt.is_maximized);

    let import = Node::new(
        1,
        &NodeType::FileImport { file_path: Some("p".to_string()), file_name: None },
        0,
        0,
    );
    assert_eq!(import.title, "File Import");
    assert_eq!((import.width, import.height), (200, 150));
    assert_eq!(import.node_type, NodeType::FileImport { file_path: None, file_name: None });

    let export = Node::new(
        2,
        &NodeType::FileExport {
            folder_path: Some("f".to_string()),
            file_name: Some("n".to_string()),
            file_type: "md".to_string(),
        },
        0,
        0,
    );
    assert_eq!(export.title, "File Export");
    assert_eq!((export.width, export.height), (200, 150));
    assert_eq!(
        export.node_type,
        NodeType::FileExport { folder_path: None, file_name: None, file_type: "txt".to_string() }
    );

    let local = Node::new(3, &model(), 0, 0);
    assert_eq!(local.title, "Ollama");
    assert_eq!((local.width, local.height), (250, 300));
    assert_eq!(local.node_type, model());

    let remote = Node::new(
        4,
        &NodeType::Model {
            provider: ProviderType::Anthropic,
            model_name: "configured".to_string(),
            messages: vec![ChatMessage {
                role: MessageRole::User,
                content: "q".to_string(),
                thinking: None,
            }],
            thinking: true,
        },
        0,
        0,
    );
    assert_eq!(remote.title, "Anthropic");
    assert_eq!(
        remote.node_type,
        NodeType::Model {
            provider: ProviderType::Anthropic,
            model_name: "configured".to_string(),
            messages: Vec::new(),
            thinking: false,
        }
    );
    let named = Node::new(
        5,
        &NodeType::Model {
            provider: ProviderType::Ollama,
            model_name: "ignored".to_string(),
            messages: Vec::new(),
            thinking: true,
        },
        0,
        0,
    );
    assert_eq!(named.node_type, model());
}

#[test]
fn add_node_hands_out_rising_ids() {
    let mut graph = Workflow::new();
    assert_eq!(graph.add_node(NodeType::Prompt {}, 0, 0), 0);
    assert_eq!(graph.add_node(model(), 1, 1), 1);
    graph.remove_node(1);
    assert_eq!(graph.add_node(model(), 2, 2), 2);
    assert_eq!(graph.node_ids(), vec![0, 2]);
    assert!(graph.node(1).is_none());
}

#[test]
fn inputs_are_ordered_by_height_then_from_left_to_right() {
    let mut graph = Workflow::new();
    let a = prompt_with(&mut graph, 0, 10, "A");
    let b = prompt_with(&mut graph, 50, 10, "B");
    let c = prompt_with(&mut graph, 0, 0, "C");
    let target = graph.add_node(model(), 300, 0);
    graph.add_connection(a, target).unwrap();
    graph.add_connection(b, target).unwrap();
    graph.add_connection(c, target).unwrap();
    assert_eq!(input_of(&graph, target), Some("C\n\nA\n\nB".to_string()));
    assert_eq!(graph.get_input_order_number(c, target), Some(1));
    assert_eq!(graph.get_input_order_number(a, target), Some(2));
    assert_eq!(graph.get_input_order_number(b, target), Some(3));
}

#[test]
fn sources_at_the_same_place_keep_the_order_of_their_connections() {
    let mut graph = Workflow::new();
    let first = prompt_with(&mut graph, 5, 5, "first");
    let second = prompt_with(&mut graph, 5, 5, "second");
    let target = graph.add_node(model(), 300, 0);
    graph.add_connection(second, target).unwrap();
    graph.add_connection(first, target).unwrap();
    assert_eq!(input_of(&graph, target), Some("second\n\nfirst".to_string()));
}

#[test]
fn recomputing_an_input_twice_gives_the_same_text() {
    let mut graph = Workflow::new();
    let a = prompt_with(&mut graph, 0, 0, "one");
    let b = prompt_with(&mut graph, 0, 20, "two");
    let target = graph.add_node(model(), 300, 0);
    graph.add_connection(a, target).unwrap();
    graph.add_connection(b, target).unwrap();
    graph.update_node_input_from_all_sources(target);
    let once = graph.node(target).unwrap().clone();
    graph.update_node_input_from_all_sources(target);
    let twice = graph.node(target).unwrap().clone();
    assert_eq!(once, twice);
    assert_eq!(twice.input, Some("one\n\ntwo".to_string()));
}

#[test]
fn a_target_without_sources_has_no_input() {
    let mut graph = Workflow::new();
    let silent = graph.add_node(NodeType::Prompt {}, 0, 0);
    let target = graph.add_node(model(), 300, 0);
    graph.add_connection(silent, target).unwrap();
    assert_eq!(input_of(&graph, target), None);
    graph.update_node_output(silent, String::new());
    assert_eq!(input_of(&graph, target), Some(String::new()));
}

#[test]
fn a_single_source_is_the_input_as_it_is() {
    let mut graph = Workflow::new();
    let a = prompt_with(&mut graph, 0, 0, "only");
    let target = graph.add_node(model(), 300, 0);
    graph.add_connection(a, target).unwrap();
    assert_eq!(input_of(&graph, target), Some("only".to_string()));
    assert_eq!(graph.get_input_order_number(a, target), None);
    assert_eq!(graph.input_order_badge(a), None);
}

#[test]
fn two_connections_from_one_source_both_count() {
    let mut graph = Workflow::new();
    let a = prompt_with(&mut graph, 0, 0, "x");
    let target = graph.add_node(model(), 300, 0);
    graph.add_connection(a, target).unwrap();
    graph.add_connection(a, target).unwrap();
    assert_eq!(input_of(&graph, target), Some("x\n\nx".to_string()));
    assert_eq!(graph.get_input_order_number(a, target), Some(1));
    assert_eq!(graph.input_order_badge(a), Some(1));
}

#[test]
fn order_number_of_a_stranger_is_none() {
    let mut graph = Workflow::new();
    let a = prompt_with(&mut graph, 0, 0, "a");
    let b = prompt_with(&mut graph, 0, 9, "b");
    let stranger = prompt_with(&mut graph, 0, 5, "s");
    let target = graph.add_node(model(), 300, 0);
    graph.add_connection(a, target).unwrap();
    graph.add_connection(b, target).unwrap();
    assert_eq!(graph.get_input_order_number(stranger, target), None);
    assert_eq!(graph.get_input_order_number(b, target), Some(2));
    assert_eq!(graph.input_order_badge(b), Some(2));
    assert_eq!(graph.input_order_badge(stranger), None);
}

#[test]
fn insert_ordered_keeps_canvas_order() {
    let mut sorted: Vec<Source> = Vec::new();
    insert_ordered(&mut sorted, Source { node_id: 1, y: 10, x: 0 });
    insert_ordered(&mut sorted, Source { node_id: 2, y: 10, x: 50 });
    insert_ordered(&mut sorted, Source { node_id: 3, y: 0, x: 0 });
    insert_ordered(&mut sorted, Source { node_id: 4, y: 10, x: 0 });
    let ids: Vec<usize> = sorted.iter().map(|s| s.node_id).collect();
    assert_eq!(ids, vec![3, 1, 4, 2]);
}

#[test]
fn self_connection_is_refused_and_changes_nothing() {
    let mut graph = Workflow::default();
    for _ in 0..5 {
        graph.add_node(NodeType::Prompt {}, 0, 0);
    }
    let before = graph.connection_list();
    let next = graph.next_connection_id();
    let nodes: Vec<Node> =
        graph.node_ids().iter().map(|id| graph.node(*id).unwrap().clone()).collect();
    assert_eq!(graph.add_connection(5, 5), Err(WorkflowError::SelfConnection));
    assert_eq!(graph.add_connection(99, 99), Err(WorkflowError::SelfConnection));
    assert_eq!(graph.connection_list(), before);
    assert_eq!(graph.next_connection_id(), next);
    for node in &nodes {
        assert_eq!(graph.node(node.id), Some(node));
    }
}

#[test]
fn self_connection_is_refused_with_the_counter_at_its_end() {
    let idle = ConnectionDrawingState::default();
    let node = Node::new(3, &NodeType::Prompt {}, 0, 0);
    let mut graph =
        Workflow::from_parts(vec![node], Vec::new(), 4, usize::MAX, None, None, idle).unwrap();
    assert_eq!(graph.add_connection(3, 3), Err(WorkflowError::SelfConnection));
    assert_eq!(graph.next_connection_id(), usize::MAX);
    graph.start_drawing_connection(3, 0, 0);
    assert_eq!(graph.complete_drawing_connection(), Err(WorkflowError::NoTarget));
    assert_eq!(graph.connection_list(), Vec::<Connection>::new());
}

#[test]
fn add_connection_marks_the_target() {
    let mut graph = Workflow::new();
    let a = prompt_with(&mut graph, 0, 0, "text");
    let target = graph.add_node(NodeType::Prompt {}, 10, 10);
    graph.update_node_output(target, "done".to_string());
    assert!(!graph.node(target).unwrap().needs_execution);
    assert_eq!(graph.add_connection(a, target), Ok(0));
    assert!(graph.node(target).unwrap().needs_execution);
    assert_eq!(input_of(&graph, target), Some("text".to_string()));
    assert_eq!(graph.connection(0), Some(Connection { id: 0, from_node_id: a, to_node_id: target }));
    assert_eq!(graph.next_connection_id(), 1);
}

#[test]
fn removing_a_node_takes_its_connections_along() {
    let mut graph = Workflow::new();
    for _ in 0..4 {
        graph.add_node(NodeType::Prompt {}, 0, 0);
    }
    graph.remove_node(0);
    graph.add_connection(1, 2).unwrap();
    graph.add_connection(2, 3).unwrap();
    graph.remove_node(2);
    assert_eq!(graph.node_ids(), vec![1, 3]);
    assert_eq!(graph.connection_list(), Vec::<Connection>::new());
}

#[test]
fn removing_a_node_keeps_the_other_connections() {
    let mut graph = Workflow::new();
    for _ in 0..4 {
        graph.add_node(NodeType::Prompt {}, 0, 0);
    }
    graph.add_connection(0, 1).unwrap();
    graph.add_connection(1, 2).unwrap();
    graph.add_connection(0, 3).unwrap();
    graph.select_node(1);
    graph.start_dragging_node(1, 0, 0);
    graph.start_drawing_connection(1, 5, 5);
    graph.remove_node(1);
    assert_eq!(
        graph.connection_list(),
        vec![Connection { id: 2, from_node_id: 0, to_node_id: 3 }]
    );
    assert_eq!(graph.selected_node_id(), None);
    assert_eq!(graph.dragging_node_id(), None);
    assert_eq!(graph.drawing_connection_state(), ConnectionDrawingState::default());
}

#[test]
fn removing_another_node_keeps_selection_and_drawing() {
    let mut graph = Workflow::new();
    for _ in 0..3 {
        graph.add_node(NodeType::Prompt {}, 0, 0);
    }
    graph.select_node(0);
    graph.start_dragging_node(0, 1, 1);
    graph.start_drawing_connection(0, 5, 5);
    graph.remove_node(2);
    assert_eq!(graph.selected_node_id(), Some(0));
    assert_eq!(graph.dragging_node_id(), Some(0));
    assert!(graph.drawing_connection_state().active);
}

#[test]
fn output_is_propagated_one_hop_only() {
    let mut graph = Workflow::new();
    let a = graph.add_node(NodeType::Prompt {}, 0, 0);
    let b = graph.add_node(NodeType::Prompt {}, 100, 0);
    let c = graph.add_node(NodeType::Prompt {}, 200, 0);
    graph.add_connection(a, b).unwrap();
    graph.add_connection(b, c).unwrap();
    graph.update_node_output(b, "old".to_string());
    graph.update_node_output(c, "kept".to_string());
    graph.update_node_output(a, "new".to_string());
    assert!(!graph.node(a).unwrap().needs_execution);
    assert_eq!(input_of(&graph, b), Some("new".to_string()));
    assert!(graph.node(b).unwrap().needs_execution);
    assert_eq!(graph.node(b).unwrap().output, Some("old".to_string()));
    assert_eq!(input_of(&graph, c), Some("old".to_string()));
    assert!(!graph.node(c).unwrap().needs_execution);
}

#[test]
fn propagation_refreshes_every_direct_target() {
    let mut graph = Workflow::new();
    let a = prompt_with(&mut graph, 0, 0, "a");
    let left = graph.add_node(model(), 100, 0);
    let right = graph.add_node(model(), 100, 100);
    let aside = graph.add_node(model(), 100, 200);
    graph.add_connection(a, left).unwrap();
    graph.add_connection(a, right).unwrap();
    graph.update_node_output(left, "l".to_string());
    graph.update_node_output(right, "r".to_string());
    graph.update_node_output(aside, "s".to_string());
    graph.update_node_output(a, "b".to_string());
    graph.propagate_output_to_connected_nodes(a);
    assert_eq!(input_of(&graph, left), Some("b".to_string()));
    assert_eq!(input_of(&graph, right), Some("b".to_string()));
    assert!(graph.node(left).unwrap().needs_execution);
    assert!(graph.node(right).unwrap().needs_execution);
    assert!(!graph.node(aside).unwrap().needs_execution);
    assert_eq!(input_of(&graph, aside), None);
}

#[test]
fn dragging_keeps_the_grab_offset() {
    let mut graph = Workflow::new();
    let id = graph.add_node(NodeType::Prompt {}, 100, 200);
    graph.start_dragging_node(id, 130, 250);
    assert_eq!(graph.dragging_node_id(), Some(id));
    let node = graph.node(id).unwrap();
    assert_eq!((node.drag_offset_x, node.drag_offset_y), (30, 50));
    assert_eq!((node.position_x, node.position_y), (100, 200));
    assert!(graph.drag_stays_in_world(140, 245));
    graph.drag_node(140, 245);
    let node = graph.node(id).unwrap();
    assert_eq!((node.position_x, node.position_y), (110, 195));
    graph.end_dragging_node();
    assert_eq!(graph.dragging_node_id(), None);
}

#[test]
fn dragging_an_unknown_node_changes_nothing() {
    let mut graph = Workflow::new();
    let id = graph.add_node(NodeType::Prompt {}, 1, 2);
    graph.start_dragging_node(9, 5, 5);
    assert_eq!(graph.dragging_node_id(), None);
    graph.drag_node(50, 50);
    let node = graph.node(id).unwrap();
    assert_eq!((node.position_x, node.position_y), (1, 2));
    graph.end_dragging_node();
    assert_eq!(graph.dragging_node_id(), None);
}

#[test]
fn a_drag_out_of_the_world_is_told_apart() {
    let mut graph = Workflow::new();
    let id = graph.add_node(NodeType::Prompt {}, COORD_MAX, 0);
    graph.start_dragging_node(id, 0, 0);
    assert!(graph.drag_stays_in_world(0, 0));
    assert!(!graph.drag_stays_in_world(1, 0));
    assert!(graph.drag_stays_in_world(-5, COORD_MAX));
    assert!(!graph.drag_stays_in_world(i64::MAX, 0));
}

#[test]
fn releasing_a_dragged_node_reorders_the_inputs_it_feeds() {
    let mut graph = Workflow::new();
    let a = prompt_with(&mut graph, 0, 0, "A");
    let b = prompt_with(&mut graph, 0, 100, "B");
    let target = graph.add_node(model(), 300, 0);
    graph.add_connection(a, target).unwrap();
    graph.add_connection(b, target).unwrap();
    assert_eq!(input_of(&graph, target), Some("A\n\nB".to_string()));
    graph.start_dragging_node(a, 0, 0);
    graph.drag_node(0, 500);
    assert_eq!(input_of(&graph, target), Some("A\n\nB".to_string()));
    graph.end_dragging_node();
    assert_eq!(input_of(&graph, target), Some("B\n\nA".to_string()));
    assert_eq!(graph.get_input_order_number(a, target), Some(2));
}

#[test]
fn ports_sit_in_the_middle_of_the_sides() {
    let node = Node::new(0, &model(), 10, 20);
    assert_eq!(get_port_world_pos(&node, Port::Input), (10, 170));
    assert_eq!(get_port_world_pos(&node, Port::Output), (260, 170));
    let small = Node::new(0, &NodeType::FileImport { file_path: None, file_name: None }, -7, -3);
    assert_eq!(get_port_world_pos(&small, Port::Input), (-7, 72));
    assert_eq!(get_port_world_pos(&small, Port::Output), (193, 72));
}

#[test]
fn drawing_a_connection_to_a_hovered_node() {
    let mut graph = Workflow::new();
    let a = prompt_with(&mut graph, 0, 0, "hi");
    let b = graph.add_node(model(), 300, 0);
    graph.start_drawing_connection(a, 200, 100);
    assert_eq!(
        graph.drawing_connection_state(),
        ConnectionDrawingState {
            active: true,
            source_node_id: a,
            source_port_world_pos: (200, 100),
            current_mouse_world_pos: (200, 100),
            target_node_id: None,
        }
    );
    graph.update_drawing_connection(250, 120);
    assert_eq!(graph.drawing_connection_state().current_mouse_world_pos, (250, 120));
    assert_eq!(graph.drawing_connection_state().source_port_world_pos, (200, 100));
    graph.set_connection_target(a);
    assert_eq!(graph.drawing_connection_state().target_node_id, None);
    graph.set_connection_target(b);
    assert_eq!(graph.drawing_connection_state().target_node_id, Some(b));
    assert_eq!(graph.complete_drawing_connection(), Ok(0));
    assert_eq!(graph.drawing_connection_state(), ConnectionDrawingState::default());
    assert_eq!(graph.connection_list(), vec![Connection { id: 0, from_node_id: a, to_node_id: b }]);
    assert_eq!(input_of(&graph, b), Some("hi".to_string()));
}

#[test]
fn releasing_over_nothing_cancels_the_drawing() {
    let mut graph = Workflow::default();
    graph.start_drawing_connection(0, 1, 1);
    graph.set_connection_target(1);
    graph.clear_connection_target();
    assert_eq!(graph.complete_drawing_connection(), Err(WorkflowError::NoTarget));
    assert_eq!(graph.drawing_connection_state(), ConnectionDrawingState::default());
    assert_eq!(graph.connection_list().len(), 1);
}

#[test]
fn completing_without_the_source_is_refused() {
    let mut graph = Workflow::new();
    let a = graph.add_node(NodeType::Prompt {}, 0, 0);
    graph.add_node(NodeType::Prompt {}, 0, 0);
    graph.start_drawing_connection(a, 1, 1);
    graph.cancel_drawing_connection();
    graph.remove_node(a);
    graph.set_connection_target(1);
    assert_eq!(graph.complete_drawing_connection(), Err(WorkflowError::SourceMissing));
    assert_eq!(graph.drawing_connection_state(), ConnectionDrawingState::default());
    assert_eq!(graph.connection_list().len(), 0);
}

#[test]
fn drawing_from_an_unknown_node_does_not_start() {
    let mut graph = Workflow::default();
    graph.start_drawing_connection(9, 1, 1);
    assert_eq!(graph.drawing_connection_state(), ConnectionDrawingState::default());
    graph.update_drawing_connection(4, 4);
    assert_eq!(graph.drawing_connection_state(), ConnectionDrawingState::default());
}

#[test]
fn redirect_detaches_the_oldest_connection_and_draws_it_anew() {
    let mut graph = Workflow::new();
    let a = prompt_with(&mut graph, 0, 0, "A");
    let b = prompt_with(&mut graph, 0, 300, "B");
    let target = graph.add_node(model(), 400, 50);
    graph.add_connection(b, target).unwrap();
    graph.add_connection(a, target).unwrap();
    assert_eq!(graph.find_connection_into(target), Some(0));
    graph.redirect_connection(target);
    assert_eq!(
        graph.drawing_connection_state(),
        ConnectionDrawingState {
            active: true,
            source_node_id: b,
            source_port_world_pos: (200, 400),
            current_mouse_world_pos: (400, 200),
            target_node_id: None,
        }
    );
    assert_eq!(
        graph.connection_list(),
        vec![Connection { id: 1, from_node_id: a, to_node_id: target }]
    );
    assert_eq!(input_of(&graph, target), None);
    graph.set_connection_target(target);
    assert_eq!(graph.complete_drawing_connection(), Ok(2));
    assert_eq!(input_of(&graph, target), Some("A\n\nB".to_string()));
}

#[test]
fn redirect_during_a_drawing_keeps_the_pointer() {
    let mut graph = Workflow::default();
    graph.start_drawing_connection(0, 7, 8);
    graph.update_drawing_connection(70, 80);
    graph.redirect_connection(1);
    let state = graph.drawing_connection_state();
    assert_eq!(state.current_mouse_world_pos, (70, 80));
    assert_eq!(state.source_node_id, 0);
    assert_eq!(state.source_port_world_pos, (250, 200));
    assert_eq!(graph.connection_list().len(), 0);
}

#[test]
fn redirect_without_a_connection_changes_nothing() {
    let mut graph = Workflow::default();
    graph.redirect_connection(0);
    assert_eq!(graph.drawing_connection_state(), ConnectionDrawingState::default());
    assert_eq!(graph.connection_list().len(), 1);
    assert_eq!(graph.find_connection_into(0), None);
}

#[test]
fn remove_connection_by_target_clears_the_input() {
    let mut graph = Workflow::new();
    let a = prompt_with(&mut graph, 0, 0, "A");
    let target = graph.add_node(model(), 400, 50);
    graph.add_connection(a, target).unwrap();
    assert_eq!(input_of(&graph, target), Some("A".to_string()));
    graph.remove_connection_by_target_node(target);
    assert_eq!(input_of(&graph, target), None);
    assert_eq!(graph.connection_list().len(), 0);
    graph.remove_connection_by_target_node(target);
    assert_eq!(graph.connection_list().len(), 0);
}

#[test]
fn a_graph_is_rebuilt_from_its_parts() {
    let mut graph = Workflow::new();
    let a = prompt_with(&mut graph, 0, 0, "A");
    let b = graph.add_node(NodeType::FileImport { file_path: None, file_name: None }, 0, 50);
    graph.set_imported_file(b, "/tmp/b.txt".to_string(), "b.txt".to_string(), "B".to_string());
    let c = graph.add_node(model(), 300, 0);
    let d = graph.add_node(
        NodeType::FileExport { folder_path: None, file_name: None, file_type: String::new() },
        600,
        0,
    );
    let e = graph.add_node(
        NodeType::Model {
            provider: ProviderType::Anthropic,
            model_name: String::new(),
            messages: Vec::new(),
            thinking: false,
        },
        600,
        300,
    );
    graph.add_connection(a, c).unwrap();
    graph.add_connection(b, c).unwrap();
    graph.add_connection(c, d).unwrap();
    graph.add_connection(c, e).unwrap();
    graph.send_message(c, "hello".to_string()).unwrap();
    graph.select_node(c);

    let nodes: Vec<Node> =
        graph.node_ids().iter().map(|id| graph.node(*id).unwrap().clone()).collect();
    let rebuilt = Workflow::from_parts(
        nodes.clone(),
        graph.connection_list(),
        graph.next_node_id(),
        graph.next_connection_id(),
        graph.selected_node_id(),
        graph.dragging_node_id(),
        graph.drawing_connection_state(),
    )
    .unwrap();
    assert_eq!(rebuilt.node_ids(), vec![a, b, c, d, e]);
    for node in &nodes {
        assert_eq!(rebuilt.node(node.id), Some(node));
    }
    assert_eq!(rebuilt.connection_list(), graph.connection_list());
    assert_eq!(rebuilt.connection_list().len(), 4);
    assert_eq!(rebuilt.next_node_id(), 5);
    assert_eq!(rebuilt.next_connection_id(), 4);
    assert_eq!(rebuilt.selected_node_id(), Some(c));
    assert_eq!(input_of(&rebuilt, c), Some("A\n\nB".to_string()));
    match &rebuilt.node(c).unwrap().node_type {
        NodeType::Model { messages, .. } => {
            assert_eq!(messages.len(), 1);
            assert_eq!(messages[0].role, MessageRole::User);
            assert_eq!(messages[0].content, "hello");
        }
        _ => panic!("not a model node"),
    }
}

#[test]
fn parts_that_cannot_be_a_graph_are_refused() {
    let idle = ConnectionDrawingState::default();
    let node = |id: usize| Node::new(id, &NodeType::Prompt {}, 0, 0);
    let link = |id: usize, from: usize, to: usize| Connection { id, from_node_id: from, to_node_id: to };

    assert!(Workflow::from_parts(vec![node(0), node(1)], vec![link(0, 0, 1)], 2, 1, None, None, idle)
        .is_some());
    assert!(Workflow::from_parts(Vec::new(), Vec::new(), 0, 0, None, None, idle).is_some());
    // two nodes with one id
    assert!(Workflow::from_parts(vec![node(0), node(0)], Vec::new(), 2, 0, None, None, idle)
        .is_none());
    // a node id that is not below the counter
    assert!(Workflow::from_parts(vec![node(2)], Vec::new(), 2, 0, None, None, idle).is_none());
    // a node outside the world
    let mut far = node(0);
    far.position_x = COORD_MAX + 1;
    assert!(Workflow::from_parts(vec![far], Vec::new(), 1, 0, None, None, idle).is_none());
    // a node with a negative extent
    let mut thin = node(0);
    thin.width = -1;
    assert!(Workflow::from_parts(vec![thin], Vec::new(), 1, 0, None, None, idle).is_none());
    // a connection from a node to itself
    assert!(Workflow::from_parts(vec![node(0)], vec![link(0, 0, 0)], 1, 1, None, None, idle)
        .is_none());
    // two connections with one id
    assert!(Workflow::from_parts(
        vec![node(0), node(1)],
        vec![link(0, 0, 1), link(0, 1, 0)],
        2,
        1,
        None,
        None,
        idle
    )
    .is_none());
    // a connection id that is not below the counter
    assert!(Workflow::from_parts(vec![node(0), node(1)], vec![link(1, 0, 1)], 2, 1, None, None, idle)
        .is_none());
}

#[test]
fn drawing_from_the_output_port() {
    let mut graph = Workflow::default();
    graph.start_drawing_from_port(1);
    assert_eq!(
        graph.drawing_connection_state(),
        ConnectionDrawingState {
            active: true,
            source_node_id: 1,
            source_port_world_pos: (650, 250),
            current_mouse_world_pos: (650, 250),
            target_node_id: None,
        }
    );
    graph.cancel_drawing_connection();
    graph.start_drawing_from_port(5);
    assert_eq!(graph.drawing_connection_state(), ConnectionDrawingState::default());
}

#[test]
fn a_copy_of_a_graph_holds_the_same() {
    let mut graph = Workflow::default();
    graph.update_node_output(0, "text".to_string());
    let copy = graph.clone();
    graph.remove_node(0);
    assert_eq!(copy.node_ids(), vec![0, 1]);
    assert_eq!(copy.node(1).unwrap().input, Some("text".to_string()));
    assert_eq!(copy.connection_list().len(), 1);
    assert_eq!(graph.node_ids(), vec![1]);
}

#[test]
fn a_large_counter_costs_no_time() {
    let idle = ConnectionDrawingState::default();
    let high = usize::MAX - 10;
    let target = Node::new(high - 2, &model(), 300, 0);
    let source = Node::new(5, &NodeType::Prompt {}, 0, 0);
    let link = Connection { id: high - 1, from_node_id: 5, to_node_id: high - 2 };
    let mut graph =
        Workflow::from_parts(vec![target, source], vec![link], high, high, None, None, idle)
            .unwrap();
    assert_eq!(graph.node_ids(), vec![5, high - 2]);
    assert_eq!(graph.connection_ids(), vec![high - 1]);
    assert_eq!(graph.connection_list(), vec![link]);
    graph.update_node_output(5, "x".to_string());
    assert_eq!(input_of(&graph, high - 2), Some("x".to_string()));
    assert_eq!(graph.eligible_nodes(), vec![high - 2]);
    assert_eq!(graph.execution_order(), vec![high - 2]);
    assert_eq!(graph.find_connection_into(high - 2), Some(high - 1));
    assert_eq!(graph.get_input_order_number(5, high - 2), None);
    assert_eq!(graph.add_connection(5, high - 2), Ok(high));
    assert_eq!(graph.get_input_order_number(5, high - 2), Some(1));
    assert_eq!(graph.input_order_badge(5), Some(1));
    assert_eq!(input_of(&graph, high - 2), Some("x\n\nx".to_string()));
    assert_eq!(graph.add_node(model(), 0, 0), high);
    graph.remove_node(5);
    assert_eq!(graph.connection_list(), Vec::<Connection>::new());
    assert_eq!(graph.node_ids(), vec![high - 2, high]);
    assert_eq!(graph.execution_order(), vec![high - 2, high]);
}

#[test]
fn parts_in_any_order_are_listed_by_id() {
    let idle = ConnectionDrawingState::default();
    let node = |id: usize| Node::new(id, &NodeType::Prompt {}, 0, 0);
    let link = |id: usize, from: usize, to: usize| Connection { id, from_node_id: from, to_node_id: to };
    let mut graph = Workflow::from_parts(
        vec![node(7), node(2), node(9), node(5)],
        vec![link(3, 7, 2), link(1, 9, 2), link(8, 5, 2), link(4, 2, 5)],
        10,
        9,
        None,
        None,
        idle,
    )
    .unwrap();
    assert_eq!(graph.node_ids(), vec![2, 5, 7, 9]);
    assert_eq!(graph.connection_ids(), vec![1, 3, 4, 8]);
    assert_eq!(
        graph.connection_list(),
        vec![link(1, 9, 2), link(3, 7, 2), link(4, 2, 5), link(8, 5, 2)]
    );
    assert_eq!(graph.find_connection_into(2), Some(1));
    graph.remove_connection_by_target_node(2);
    assert_eq!(graph.connection_ids(), vec![3, 4, 8]);
    graph.remove_node(7);
    assert_eq!(graph.node_ids(), vec![2, 5, 9]);
    assert_eq!(graph.connection_ids(), vec![4, 8]);
    assert_eq!(graph.add_connection(9, 5), Ok(9));
    assert_eq!(graph.connection_ids(), vec![4, 8, 9]);
    assert_eq!(graph.add_node(NodeType::Prompt {}, 0, 0), 10);
    assert_eq!(graph.node_ids(), vec![2, 5, 9, 10]);
}

#[test]
fn lists_of_ids_stay_in_ascending_order() {
    let mut ids: Vec<usize> = Vec::new();
    mosaik::workflow::insert_id(&mut ids, 5);
    mosaik::workflow::insert_id(&mut ids, 2);
    mosaik::workflow::insert_id(&mut ids, 9);
    mosaik::workflow::insert_id(&mut ids, 7);
    assert_eq!(ids, vec![2, 5, 7, 9]);
    assert_eq!(mosaik::workflow::copy_ids(&ids), vec![2, 5, 7, 9]);
    mosaik::workflow::remove_id(&mut ids, 5);
    mosaik::workflow::remove_id(&mut ids, 6);
    assert_eq!(ids, vec![2, 7, 9]);
    mosaik::workflow::remove_id(&mut ids, 9);
    mosaik::workflow::remove_id(&mut ids, 2);
    mosaik::workflow::remove_id(&mut ids, 7);
    assert_eq!(ids, Vec::<usize>::new());
    mosaik::workflow::remove_id(&mut ids, 7);
    assert_eq!(mosaik::workflow::copy_ids(&ids), Vec::<usize>::new());
}
