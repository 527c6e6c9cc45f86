//! Nodes of a workflow graph: their kinds, their payloads and the prompt a model node sends.

use crate::text::{blank, is_blank};
use vstd::prelude::*;

verus! {

/// Largest magnitude of a world coordinate or of a node's extent.
pub const COORD_MAX: i64 = 4611686018427387903;

/// Whether `c` is a world coordinate the graph accepts.
pub open spec fn in_world(c: i64) -> bool {
    -COORD_MAX <= c <= COORD_MAX
}

/// Executable test for [`in_world`].
pub fn coord_in_world(c: i64) -> (b: bool)
    ensures
        b == in_world(c),
{
    -COORD_MAX <= c && c <= COORD_MAX
}

/// Who wrote a turn of a conversation.
#[derive(Clone, Copy, Debug, PartialEq, Eq, Structural)]
pub enum MessageRole {
    User,
    Assistant,
}

/// One turn of a conversation with a model.
#[derive(Clone, Debug, PartialEq, Eq)]
pub struct ChatMessage {
    pub role: MessageRole,
    pub content: String,
    pub thinking: Option<String>,
}

/// Mathematical model of a [`ChatMessage`].
pub struct ChatMessageView {
    pub role: MessageRole,
    pub content: Seq<char>,
    pub thinking: Option<Seq<char>>,
}

/// The text held by an optional string.
pub open spec fn opt_text(o: Option<String>) -> Option<Seq<char>> {
    match o {
        Some(s) => Some(s@),
        None => None,
    }
}

impl View for ChatMessage {
    type V = ChatMessageView;

    open spec fn view(&self) -> ChatMessageView {
        ChatMessageView {
            role: self.role,
            content: self.content@,
            thinking: opt_text(self.thinking),
        }
    }
}

/// The models of a sequence of messages, in order.
pub open spec fn messages_view(msgs: Seq<ChatMessage>) -> Seq<ChatMessageView> {
    msgs.map_values(|m: ChatMessage| m@)
}

/// The service that answers for a model node.
#[derive(Clone, Copy, Debug, PartialEq, Eq, Structural)]
pub enum ProviderType {
    Ollama,
    Anthropic,
}

/// Kind of a node together with the payload that belongs to the kind.
#[derive(Clone, Debug, PartialEq, Eq)]
pub enum NodeType {
    Prompt {  },
    FileImport { file_path: Option<String>, file_name: Option<String> },
    FileExport { folder_path: Option<String>, file_name: Option<String>, file_type: String },
    Model { provider: ProviderType, model_name: String, messages: Vec<ChatMessage>, thinking: bool },
}

/// Mathematical model of a [`NodeType`].
pub enum NodeTypeView {
    Prompt,
    FileImport { file_path: Option<Seq<char>>, file_name: Option<Seq<char>> },
    FileExport {
        folder_path: Option<Seq<char>>,
        file_name: Option<Seq<char>>,
        file_type: Seq<char>,
    },
    Model {
        provider: ProviderType,
        model_name: Seq<char>,
        messages: Seq<ChatMessageView>,
        thinking: bool,
    },
}

impl View for NodeType {
    type V = NodeTypeView;

    open spec fn view(&self) -> NodeTypeView {
        match *self {
            NodeType::Prompt {  } => NodeTypeView::Prompt,
            NodeType::FileImport { file_path, file_name } => NodeTypeView::FileImport {
                file_path: opt_text(file_path),
                file_name: opt_text(file_name),
            },
            NodeType::FileExport { folder_path, file_name, file_type } => NodeTypeView::FileExport {
                folder_path: opt_text(folder_path),
                file_name: opt_text(file_name),
                file_type: file_type@,
            },
            NodeType::Model { provider, model_name, messages, thinking } => NodeTypeView::Model {
                provider,
                model_name: model_name@,
                messages: messages_view(messages@),
                thinking,
            },
        }
    }
}

impl NodeTypeView {
    /// The payload a freshly placed node of the same kind starts with. A model node of
    /// the local provider starts without a model, as the models on offer are only known
    /// once the provider has been asked; one of the remote provider starts with the model
    /// that it is given, which is the model the application is set up to use.
    pub open spec fn initial(self) -> NodeTypeView {
        match self {
            NodeTypeView::Prompt => NodeTypeView::Prompt,
            NodeTypeView::FileImport { .. } => NodeTypeView::FileImport {
                file_path: None,
                file_name: None,
            },
            NodeTypeView::FileExport { .. } => NodeTypeView::FileExport {
                folder_path: None,
                file_name: None,
                file_type: "txt"@,
            },
            NodeTypeView::Model { provider, model_name, .. } => NodeTypeView::Model {
                provider,
                model_name: match provider {
                    ProviderType::Ollama => Seq::empty(),
                    ProviderType::Anthropic => model_name,
                },
                messages: Seq::empty(),
                thinking: false,
            },
        }
    }

    /// The payload after a reset: files are forgotten, the conversation is emptied,
    /// the chosen provider and model stay.
    pub open spec fn cleared(self) -> NodeTypeView {
        match self {
            NodeTypeView::Prompt => NodeTypeView::Prompt,
            NodeTypeView::FileImport { .. } => NodeTypeView::FileImport {
                file_path: None,
                file_name: None,
            },
            NodeTypeView::FileExport { .. } => NodeTypeView::FileExport {
                folder_path: None,
                file_name: None,
                file_type: "txt"@,
            },
            NodeTypeView::Model { provider, model_name, thinking, .. } => NodeTypeView::Model {
                provider,
                model_name,
                messages: Seq::empty(),
                thinking,
            },
        }
    }

    /// Title shown on a freshly placed node of this kind.
    pub open spec fn title(self) -> Seq<char> {
        match self {
            NodeTypeView::Prompt => "Prompt"@,
            NodeTypeView::FileImport { .. } => "File Import"@,
            NodeTypeView::FileExport { .. } => "File Export"@,
            NodeTypeView::Model { provider: ProviderType::Ollama, .. } => "Ollama"@,
            NodeTypeView::Model { provider: ProviderType::Anthropic, .. } => "Anthropic"@,
        }
    }

    /// Width of a freshly placed node of this kind.
    pub open spec fn width(self) -> i64 {
        match self {
            NodeTypeView::Model { .. } => 250,
            _ => 200,
        }
    }

    /// Height of a freshly placed node of this kind.
    pub open spec fn height(self) -> i64 {
        match self {
            NodeTypeView::Prompt => 200,
            NodeTypeView::Model { .. } => 300,
            _ => 150,
        }
    }
}

/// A node of the graph.
#[derive(Clone, Debug, PartialEq, Eq)]
pub struct Node {
    pub id: usize,
    pub node_type: NodeType,
    pub position_x: i64,
    pub position_y: i64,
    pub width: i64,
    pub height: i64,
    pub title: String,
    pub input: Option<String>,
    pub output: Option<String>,
    pub drag_offset_x: i64,
    pub drag_offset_y: i64,
    pub is_maximized: bool,
    pub needs_execution: bool,
    pub is_executing: bool,
}

/// Mathematical model of a [`Node`].
pub struct NodeView {
    pub id: usize,
    pub node_type: NodeTypeView,
    pub position_x: i64,
    pub position_y: i64,
    pub width: i64,
    pub height: i64,
    pub title: Seq<char>,
    pub input: Option<Seq<char>>,
    pub output: Option<Seq<char>>,
    pub drag_offset_x: i64,
    pub drag_offset_y: i64,
    pub is_maximized: bool,
    pub needs_execution: bool,
    pub is_executing: bool,
}

impl View for Node {
    type V = NodeView;

    open spec fn view(&self) -> NodeView {
        NodeView {
            id: self.id,
            node_type: self.node_type@,
            position_x: self.position_x,
            position_y: self.position_y,
            width: self.width,
            height: self.height,
            title: self.title@,
            input: opt_text(self.input),
            output: opt_text(self.output),
            drag_offset_x: self.drag_offset_x,
            drag_offset_y: self.drag_offset_y,
            is_maximized: self.is_maximized,
            needs_execution: self.needs_execution,
            is_executing: self.is_executing,
        }
    }
}

/// Which of a node's two connection points is meant.
#[derive(Clone, Copy, Debug, PartialEq, Eq, Structural)]
pub enum Port {
    Input,
    Output,
}

/// Why no prompt could be built for a node.
#[derive(Clone, Copy, Debug, PartialEq, Eq, Structural)]
pub enum PromptError {
    /// The node is not a model node.
    NotAModel,
    /// The node has neither a non-blank input nor a stored conversation.
    EmptyPrompt,
}

impl NodeView {
    /// A freshly placed node: default payload, size and title of its kind, no input, no
    /// output, and marked as needing execution.
    pub open spec fn fresh(id: usize, kind: NodeTypeView, x: i64, y: i64) -> NodeView {
        NodeView {
            id,
            node_type: kind.initial(),
            position_x: x,
            position_y: y,
            width: kind.width(),
            height: kind.height(),
            title: kind.title(),
            input: None,
            output: None,
            drag_offset_x: 0,
            drag_offset_y: 0,
            is_maximized: false,
            needs_execution: true,
            is_executing: false,
        }
    }

    /// The position lies in the world and the extent is not negative.
    pub open spec fn wf(self) -> bool {
        &&& in_world(self.position_x)
        &&& in_world(self.position_y)
        &&& 0 <= self.width <= COORD_MAX
        &&& 0 <= self.height <= COORD_MAX
    }

    pub open spec fn is_model(self) -> bool {
        self.node_type is Model
    }

    /// The stored conversation of a model node; empty for the other kinds.
    pub open spec fn history(self) -> Seq<ChatMessageView> {
        match self.node_type {
            NodeTypeView::Model { messages, .. } => messages,
            _ => Seq::empty(),
        }
    }

    /// The turn that carries the aggregated input, if that input is present and not blank.
    pub open spec fn leading_turn(self) -> Seq<ChatMessageView> {
        match self.input {
            Some(text) if !blank(text) => seq![
                ChatMessageView { role: MessageRole::User, content: text, thinking: None },
            ],
            _ => Seq::empty(),
        }
    }

    /// The messages sent to the provider: the input as a leading user turn, then the
    /// stored conversation.
    pub open spec fn prompt(self) -> Seq<ChatMessageView> {
        self.leading_turn() + self.history()
    }

    /// The node after a reset.
    pub open spec fn reset(self) -> NodeView {
        NodeView {
            output: None,
            needs_execution: true,
            node_type: self.node_type.cleared(),
            ..self
        }
    }

    /// World position of a connection point: the middle of the left edge for the input,
    /// the middle of the right edge for the output.
    pub open spec fn port(self, port: Port) -> (int, int) {
        match port {
            Port::Input => (self.position_x as int, self.position_y + self.height / 2),
            Port::Output => (self.position_x + self.width, self.position_y + self.height / 2),
        }
    }
}

/// A copy of `text` with the same content.
pub fn copy_opt_text(text: &Option<String>) -> (r: Option<String>)
    ensures
        opt_text(r) == opt_text(*text),
{
    match text {
        Some(s) => Some(s.clone()),
        None => None,
    }
}

/// A copy of `msg` with the same content.
pub fn copy_message(msg: &ChatMessage) -> (r: ChatMessage)
    ensures
        r@ == msg@,
{
    ChatMessage {
        role: msg.role,
        content: msg.content.clone(),
        thinking: copy_opt_text(&msg.thinking),
    }
}

impl Node {
    /// Builds a freshly placed node of the kind of `node_type`. Of `node_type` only the
    /// kind is used and, for a model node, the provider and, with the remote provider,
    /// the model's name.
    pub fn new(id: usize, node_type: &NodeType, position_x: i64, position_y: i64) -> (node: Node)
        ensures
            node@ == NodeView::fresh(id, node_type@, position_x, position_y),
    {
        let (title, width, height, kind): (&str, i64, i64, NodeType) = match node_type {
            NodeType::Prompt {  } => ("Prompt", 200, 200, NodeType::Prompt {  }),
            NodeType::FileImport { .. } => (
                "File Import",
                200,
                150,
                NodeType::FileImport { file_path: None, file_name: None },
            ),
            NodeType::FileExport { .. } => (
                "File Export",
                200,
                150,
                NodeType::FileExport {
                    folder_path: None,
                    file_name: None,
                    file_type: "txt".to_owned(),
                },
            ),
            NodeType::Model { provider, model_name, .. } => {
                let (title, name): (&str, String) = match provider {
                    ProviderType::Ollama => ("Ollama", String::new()),
                    ProviderType::Anthropic => ("Anthropic", model_name.clone()),
                };
                let kind = NodeType::Model {
                    provider: *provider,
                    model_name: name,
                    messages: Vec::new(),
                    thinking: false,
                };
                assert(messages_view(Seq::<ChatMessage>::empty()) =~= Seq::empty());
                (title, 250, 300, kind)
            },
        };
        Node {
            id,
            node_type: kind,
            position_x,
            position_y,
            width,
            height,
            title: title.to_owned(),
            input: None,
            output: None,
            drag_offset_x: 0,
            drag_offset_y: 0,
            is_maximized: false,
            needs_execution: true,
            is_executing: false,
        }
    }

    /// Builds the messages to send for a model node: the aggregated input, if it is not
    /// blank, as a leading user turn, followed by the stored conversation.
    pub fn prepare_prompt(&self) -> (r: Result<Vec<ChatMessage>, PromptError>)
        ensures
            match r {
                Ok(msgs) => self@.is_model() && self@.prompt().len() > 0 && messages_view(msgs@)
                    == self@.prompt(),
                Err(PromptError::NotAModel) => !self@.is_model(),
                Err(PromptError::EmptyPrompt) => self@.is_model() && self@.prompt().len() == 0,
            },
    {
        let history = match &self.node_type {
            NodeType::Model { messages, .. } => messages,
            _ => { return Err(PromptError::NotAModel); },
        };
        let mut out: Vec<ChatMessage> = Vec::new();
        if let Some(input) = &self.input {
            if !is_blank(input.as_str()) {
                out.push(
                    ChatMessage { role: MessageRole::User, content: input.clone(), thinking: None },
                );
            }
        }
        assert(messages_view(out@) =~= self@.leading_turn());
        let ghost lead = out@;
        let n = history.len();
        let mut i: usize = 0;
        while i < n
            invariant
                i <= n,
                n == history.len(),
                messages_view(out@) == messages_view(lead) + messages_view(history@.take(i as int)),
            decreases n - i,
        {
            let ghost before = out@;
            let copy = copy_message(&history[i]);
            out.push(copy);
            proof {
                assert(history@.take(i + 1) == history@.take(i as int).push(history@[i as int]));
                assert(out@ == before.push(copy));
                assert(messages_view(out@) =~= messages_view(before).push(copy@));
                assert(messages_view(history@.take(i + 1)) =~= messages_view(
                    history@.take(i as int),
                ).push(history@[i as int]@));
                assert(messages_view(out@) =~= messages_view(lead) + messages_view(
                    history@.take(i + 1),
                ));
            }
            i += 1;
        }
        assert(history@.take(n as int) == history@);
        if out.len() == 0 {
            return Err(PromptError::EmptyPrompt);
        }
        Ok(out)
    }

    /// Forgets the output and the kind's payload and marks the node as needing execution.
    pub fn reset(&mut self)
        ensures
            final(self)@ == old(self)@.reset(),
    {
        self.output = None;
        self.needs_execution = true;
        let cleared = match &self.node_type {
            NodeType::Prompt {  } => NodeType::Prompt {  },
            NodeType::FileImport { .. } => NodeType::FileImport { file_path: None, file_name: None },
            NodeType::FileExport { .. } => NodeType::FileExport {
                folder_path: None,
                file_name: None,
                file_type: "txt".to_owned(),
            },
            NodeType::Model { provider, model_name, thinking, .. } => {
                assert(messages_view(Seq::<ChatMessage>::empty()) =~= Seq::empty());
                NodeType::Model {
                    provider: *provider,
                    model_name: model_name.clone(),
                    messages: Vec::new(),
                    thinking: *thinking,
                }
            },
        };
        self.node_type = cleared;
    }
}

/// World position of one of a node's connection points.
pub fn get_port_world_pos(node: &Node, port: Port) -> (pos: (i64, i64))
    requires
        node@.wf(),
    ensures
        (pos.0 as int, pos.1 as int) == node@.port(port),
{
    match port {
        Port::Input => (node.position_x, node.position_y + node.height / 2),
        Port::Output => (node.position_x + node.width, node.position_y + node.height / 2),
    }
}

} // verus!
