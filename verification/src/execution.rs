//! The protocol by which a model node is executed: a request is built, the answer
//! arrives in chunks, and every chunk is folded into the node's conversation and output.

use crate::model::WorkflowView;
use crate::nodes::{
    copy_message, messages_view, ChatMessage, ChatMessageView, MessageRole, Node, NodeType,
    NodeTypeView, NodeView, PromptError, ProviderType,
};
use crate::workflow::Workflow;
use vstd::prelude::*;
use vstd::string::StringExecFns;

verus! {

/// What is sent to a provider to execute a model node.
#[derive(Clone, Debug, PartialEq, Eq)]
pub struct ModelRequest {
    pub node_id: usize,
    pub provider: ProviderType,
    pub model_name: String,
    pub thinking: bool,
    pub messages: Vec<ChatMessage>,
}

/// Mathematical model of a [`ModelRequest`].
pub struct ModelRequestView {
    pub node_id: usize,
    pub provider: ProviderType,
    pub model_name: Seq<char>,
    pub thinking: bool,
    pub messages: Seq<ChatMessageView>,
}

impl View for ModelRequest {
    type V = ModelRequestView;

    open spec fn view(&self) -> ModelRequestView {
        ModelRequestView {
            node_id: self.node_id,
            provider: self.provider,
            model_name: self.model_name@,
            thinking: self.thinking,
            messages: messages_view(self.messages@),
        }
    }
}

/// Why a node was not executed.
#[derive(Clone, Copy, Debug, PartialEq, Eq, Structural)]
pub enum ExecutionError {
    /// There is no node with the given id.
    NodeMissing,
    /// The node is not a model node.
    NotAModel,
    /// The node has neither a non-blank input nor a stored conversation.
    EmptyPrompt,
}

/// The progress of one execution of a model node: the text received so far, and whether
/// the answer's turn has been opened in the node's conversation.
#[derive(Clone, Debug, PartialEq, Eq)]
pub struct ModelRun {
    pub node_id: usize,
    pub output: String,
    pub started: bool,
}

/// Mathematical model of a [`ModelRun`].
pub struct ModelRunView {
    pub node_id: usize,
    pub output: Seq<char>,
    pub started: bool,
}

impl View for ModelRun {
    type V = ModelRunView;

    open spec fn view(&self) -> ModelRunView {
        ModelRunView { node_id: self.node_id, output: self.output@, started: self.started }
    }
}

/// The empty turn that is opened for an answer.
pub open spec fn empty_answer() -> ChatMessageView {
    ChatMessageView { role: MessageRole::Assistant, content: Seq::empty(), thinking: None }
}

/// A turn of the user with the given content.
pub open spec fn user_turn(content: Seq<char>) -> ChatMessageView {
    ChatMessageView { role: MessageRole::User, content, thinking: None }
}

/// The turn `turn` with the fragments of `chunk` appended: the thinking fragment, if
/// there is one, to the turn's thinking, and the content fragment to its content.
pub open spec fn absorbed(turn: ChatMessageView, chunk: ChatMessageView) -> ChatMessageView {
    ChatMessageView {
        role: turn.role,
        content: turn.content + chunk.content,
        thinking: match chunk.thinking {
            Some(fragment) => match turn.thinking {
                Some(sofar) => Some(sofar + fragment),
                None => Some(fragment),
            },
            None => turn.thinking,
        },
    }
}

/// The conversation with the answer's turn opened, unless it was opened before.
pub open spec fn opened(history: Seq<ChatMessageView>, started: bool) -> Seq<ChatMessageView> {
    if started {
        history
    } else {
        history.push(empty_answer())
    }
}

/// The conversation after a chunk has arrived: the answer's turn is opened if need be,
/// and the last turn absorbs the chunk.
pub open spec fn history_after_chunk(
    history: Seq<ChatMessageView>,
    started: bool,
    chunk: ChatMessageView,
) -> Seq<ChatMessageView> {
    let h = opened(history, started);
    if h.len() == 0 {
        h
    } else {
        h.update(h.len() - 1, absorbed(h.last(), chunk))
    }
}

impl NodeView {
    /// The node with the conversation `messages`; a node of another kind is unchanged.
    pub open spec fn with_history(self, messages: Seq<ChatMessageView>) -> NodeView {
        match self.node_type {
            NodeTypeView::Model { provider, model_name, thinking, .. } => NodeView {
                node_type: NodeTypeView::Model { provider, model_name, messages, thinking },
                ..self
            },
            _ => self,
        }
    }

    /// The request that executes this model node.
    pub open spec fn request(self) -> ModelRequestView {
        ModelRequestView {
            node_id: self.id,
            provider: self.node_type->Model_provider,
            model_name: self.node_type->Model_model_name,
            thinking: self.node_type->Model_thinking,
            messages: self.prompt(),
        }
    }
}

impl WorkflowView {
    /// Whether the node `id` is present and is a model node.
    pub open spec fn is_model(self, id: usize) -> bool {
        self.nodes.contains_key(id) && self.nodes[id].is_model()
    }

    /// Whether the node `id` can be executed and, if not, why not.
    pub open spec fn executable(self, id: usize) -> Result<(), ExecutionError> {
        if !self.nodes.contains_key(id) {
            Err(ExecutionError::NodeMissing)
        } else if !self.nodes[id].is_model() {
            Err(ExecutionError::NotAModel)
        } else if self.nodes[id].prompt().len() == 0 {
            Err(ExecutionError::EmptyPrompt)
        } else {
            Ok(())
        }
    }

    /// The graph after an attempt to begin the execution of the node `id`: a model node
    /// is marked as executing if it has a prompt and as not executing if it has none.
    /// Nothing else changes; in particular the node still needs execution.
    pub open spec fn begin_execution(self, id: usize) -> WorkflowView {
        if self.is_model(id) {
            self.with_node(
                id,
                NodeView { is_executing: self.nodes[id].prompt().len() > 0, ..self.nodes[id] },
            )
        } else {
            self
        }
    }

    /// The graph after the user has sent `content` to the model node `id`: the message
    /// is appended to the node's conversation and the node is marked as executing.
    pub open spec fn send_message(self, id: usize, content: Seq<char>) -> WorkflowView {
        if self.is_model(id) {
            let node = self.nodes[id];
            self.with_node(
                id,
                NodeView { is_executing: true, ..node.with_history(
                    node.history().push(user_turn(content)),
                ) },
            )
        } else {
            self
        }
    }

    /// Whether a chunk for the node `id` finds a turn to absorb it.
    pub open spec fn takes_chunk(self, id: usize, started: bool) -> bool {
        self.is_model(id) && opened(self.nodes[id].history(), started).len() > 0
    }

    /// The text received so far once `chunk` has arrived.
    pub open spec fn output_after_chunk(self, run: ModelRunView, chunk: ChatMessageView) -> Seq<
        char,
    > {
        if self.takes_chunk(run.node_id, run.started) {
            run.output + chunk.content
        } else {
            run.output
        }
    }

    /// The run once `chunk` has arrived.
    pub open spec fn run_after_chunk(self, run: ModelRunView, chunk: ChatMessageView)
        -> ModelRunView {
        ModelRunView {
            node_id: run.node_id,
            output: self.output_after_chunk(run, chunk),
            started: run.started || self.is_model(run.node_id),
        }
    }

    /// The graph with `chunk` folded into the conversation of the node of `run`.
    pub open spec fn absorb_chunk(self, run: ModelRunView, chunk: ChatMessageView)
        -> WorkflowView {
        if self.is_model(run.node_id) {
            let node = self.nodes[run.node_id];
            self.with_node(
                run.node_id,
                node.with_history(history_after_chunk(node.history(), run.started, chunk)),
            )
        } else {
            self
        }
    }

    /// The graph after the node `id`, if present, has published `text` while its
    /// execution goes on: the text is its output and is propagated one hop. Whether the
    /// node needs execution is left as it is, for the execution has not succeeded yet.
    pub open spec fn publish_output(self, id: usize, text: Seq<char>) -> WorkflowView {
        (if self.nodes.contains_key(id) {
            self.with_node(id, NodeView { output: Some(text), ..self.nodes[id] })
        } else {
            self
        }).propagate(id)
    }

    /// The graph after `chunk` has arrived for `run`: the chunk is folded into the
    /// node's conversation, and the text received so far becomes the node's output and
    /// is propagated one hop. A chunk for a node that has left the graph changes no node.
    pub open spec fn apply_chunk(self, run: ModelRunView, chunk: ChatMessageView)
        -> WorkflowView {
        self.absorb_chunk(run, chunk).publish_output(
            run.node_id,
            self.output_after_chunk(run, chunk),
        )
    }

    /// The graph after the execution of the node `id` has failed, before or during the
    /// stream: the node is no longer executing, and whether it needs execution is left
    /// as it is, so that it is tried again.
    pub open spec fn end_execution(self, id: usize) -> WorkflowView {
        if self.nodes.contains_key(id) {
            self.with_node(id, NodeView { is_executing: false, ..self.nodes[id] })
        } else {
            self
        }
    }

    /// The graph after the execution of the node `id` has succeeded, its stream having
    /// come to its end: the node is no longer executing and no longer needs execution.
    pub open spec fn complete_execution(self, id: usize) -> WorkflowView {
        if self.nodes.contains_key(id) {
            self.with_node(
                id,
                NodeView { is_executing: false, needs_execution: false, ..self.nodes[id] },
            )
        } else {
            self
        }
    }
}

/// The contents of the chunks, one after the other.
pub open spec fn contents(chunks: Seq<ChatMessageView>) -> Seq<char>
    decreases chunks.len(),
{
    if chunks.len() == 0 {
        Seq::empty()
    } else {
        contents(chunks.drop_last()) + chunks.last().content
    }
}

/// The graph and the run after the chunks have arrived one after the other.
pub open spec fn after_chunks(v: WorkflowView, run: ModelRunView, chunks: Seq<ChatMessageView>) -> (
    WorkflowView,
    ModelRunView,
)
    decreases chunks.len(),
{
    if chunks.len() == 0 {
        (v, run)
    } else {
        let (w, r) = after_chunks(v, run, chunks.drop_last());
        (w.apply_chunk(r, chunks.last()), w.run_after_chunk(r, chunks.last()))
    }
}

/// What a chunk does to a model node of a well-formed graph: the graph stays well
/// formed, the node stays a model node, its conversation absorbs the chunk, and its
/// output is the text received so far with the chunk's content behind it.
pub proof fn lemma_chunk_reaches_node(v: WorkflowView, run: ModelRunView, chunk: ChatMessageView)
    requires
        v.wf(),
        v.is_model(run.node_id),
    ensures
        v.apply_chunk(run, chunk).wf(),
        v.apply_chunk(run, chunk).is_model(run.node_id),
        v.apply_chunk(run, chunk).nodes[run.node_id].history() == history_after_chunk(
            v.nodes[run.node_id].history(),
            run.started,
            chunk,
        ),
        v.apply_chunk(run, chunk).nodes[run.node_id].output == Some(
            v.output_after_chunk(run, chunk),
        ),
        v.run_after_chunk(run, chunk).started,
        v.run_after_chunk(run, chunk).node_id == run.node_id,
{
    let id = run.node_id;
    let folded = v.absorb_chunk(run, chunk);
    let text = v.output_after_chunk(run, chunk);
    let set = folded.with_node(id, NodeView { output: Some(text), ..folded.nodes[id] });
    assert(!set.feeds(id, id)) by {
        if set.feeds(id, id) {
            let cid = choose|cid: usize| set.leads(cid, id, id);
            assert(v.connections.contains_key(cid));
        }
    }
}

/// Streaming accumulation: once the answer's turn is open and as long as a turn is there
/// to take them, the chunks of an answer add up. After any number of chunks the output of
/// the model node is the text that the run had received before, followed by the contents
/// of the chunks in the order of their arrival.
pub proof fn lemma_chunks_accumulate(
    v: WorkflowView,
    run: ModelRunView,
    chunks: Seq<ChatMessageView>,
)
    requires
        v.wf(),
        v.is_model(run.node_id),
        !run.started || v.nodes[run.node_id].history().len() > 0,
    ensures
        after_chunks(v, run, chunks).0.wf(),
        after_chunks(v, run, chunks).0.is_model(run.node_id),
        after_chunks(v, run, chunks).1.node_id == run.node_id,
        after_chunks(v, run, chunks).1.output == run.output + contents(chunks),
        chunks.len() > 0 ==> after_chunks(v, run, chunks).0.nodes[run.node_id].output == Some(
            run.output + contents(chunks),
        ),
        chunks.len() > 0 ==> after_chunks(v, run, chunks).1.started,
        !after_chunks(v, run, chunks).1.started || after_chunks(
            v,
            run,
            chunks,
        ).0.nodes[run.node_id].history().len() > 0,
    decreases chunks.len(),
{
    if chunks.len() > 0 {
        let front = chunks.drop_last();
        lemma_chunks_accumulate(v, run, front);
        let (w, r) = after_chunks(v, run, front);
        lemma_chunk_reaches_node(w, r, chunks.last());
        assert(run.output + contents(front) + chunks.last().content =~= run.output + contents(
            chunks,
        ));
    } else {
        assert(run.output + contents(chunks) =~= run.output);
    }
}

/// Successful completion: when the stream of a node of a well-formed graph has come to
/// its end after any number of chunks, none included, and the completion is recorded,
/// the node is neither executing nor in need of execution.
pub proof fn lemma_completed_run_clears_flags(
    v: WorkflowView,
    run: ModelRunView,
    chunks: Seq<ChatMessageView>,
)
    requires
        v.wf(),
        v.is_model(run.node_id),
        !run.started || v.nodes[run.node_id].history().len() > 0,
    ensures
        ({
            let done = after_chunks(v, run, chunks).0.complete_execution(run.node_id);
            &&& done.wf()
            &&& done.nodes.contains_key(run.node_id)
            &&& !done.nodes[run.node_id].needs_execution
            &&& !done.nodes[run.node_id].is_executing
        }),
{
    lemma_chunks_accumulate(v, run, chunks);
}

impl ModelRun {
    /// A run for the node `node_id` that has received nothing yet.
    pub fn new(node_id: usize) -> (run: ModelRun)
        ensures
            run@ == (ModelRunView { node_id, output: Seq::empty(), started: false }),
    {
        ModelRun { node_id, output: String::new(), started: false }
    }
}

/// Appends the fragments of `chunk` to `turn`.
pub fn absorb_into(turn: &mut ChatMessage, chunk: &ChatMessage)
    ensures
        final(turn)@ == absorbed(old(turn)@, chunk@),
{
    if let Some(fragment) = &chunk.thinking {
        let merged = match &turn.thinking {
            Some(sofar) => {
                let mut text = sofar.clone();
                text.append(fragment.as_str());
                text
            },
            None => fragment.clone(),
        };
        turn.thinking = Some(merged);
    }
    turn.content.append(chunk.content.as_str());
}

/// Opens the answer's turn in `messages` unless it was opened before, and lets the last
/// turn absorb `chunk`. Tells whether there was a turn to absorb it.
pub fn fold_chunk(messages: &mut Vec<ChatMessage>, started: bool, chunk: &ChatMessage) -> (taken:
    bool)
    ensures
        messages_view(final(messages)@) == history_after_chunk(
            messages_view(old(messages)@),
            started,
            chunk@,
        ),
        taken == (opened(messages_view(old(messages)@), started).len() > 0),
{
    if !started {
        messages.push(
            ChatMessage { role: MessageRole::Assistant, content: String::new(), thinking: None },
        );
    }
    assert(messages_view(messages@) =~= opened(messages_view(old(messages)@), started));
    let ghost h = messages@;
    match messages.pop() {
        Some(mut last) => {
            absorb_into(&mut last, chunk);
            messages.push(last);
            assert(messages_view(messages@) =~= messages_view(h).update(
                h.len() - 1,
                absorbed(messages_view(h).last(), chunk@),
            ));
            true
        },
        None => false,
    }
}

/// Takes the conversation out of a model node and leaves an empty one in its place.
/// A node of another kind is left as it is.
pub fn take_history(node: &mut Node) -> (taken: Option<Vec<ChatMessage>>)
    ensures
        match taken {
            Some(messages) => {
                &&& old(node)@.is_model()
                &&& messages_view(messages@) == old(node)@.history()
                &&& final(node)@ == old(node)@.with_history(Seq::empty())
            },
            None => !old(node)@.is_model() && final(node)@ == old(node)@,
        },
{
    match &mut node.node_type {
        NodeType::Model { messages, .. } => {
            let mut taken: Vec<ChatMessage> = Vec::new();
            assert(messages_view(taken@) =~= Seq::empty());
            std::mem::swap(messages, &mut taken);
            Some(taken)
        },
        _ => None,
    }
}

/// Gives a model node the conversation `messages`. A node of another kind is left as
/// it is.
pub fn put_history(node: &mut Node, messages: Vec<ChatMessage>)
    ensures
        final(node)@ == old(node)@.with_history(messages_view(messages@)),
{
    match &mut node.node_type {
        NodeType::Model { messages: held, .. } => {
            *held = messages;
        },
        _ => {},
    }
}

impl Workflow {
    /// Begins the execution of the node `node_id`: builds its request and marks the
    /// node as executing. A node without a prompt is marked as not executing and keeps
    /// needing execution, so that it is tried again once input has arrived.
    pub fn begin_execution(&mut self, node_id: usize) -> (r: Result<ModelRequest, ExecutionError>)
        requires
            old(self).wf(),
        ensures
            final(self).wf(),
            final(self)@ == old(self)@.begin_execution(node_id),
            match r {
                Ok(request) => old(self)@.executable(node_id) is Ok && request@ == old(
                    self,
                )@.nodes[node_id].request(),
                Err(e) => old(self)@.executable(node_id) == Err::<(), ExecutionError>(e),
            },
    {
        let mut node = match self.take_node(node_id) {
            Some(node) => node,
            None => {
                assert(self@.nodes =~= old(self)@.nodes);
                return Err(ExecutionError::NodeMissing);
            },
        };
        let prepared = node.prepare_prompt();
        let r = match prepared {
            Ok(messages) => {
                node.is_executing = true;
                match &node.node_type {
                    NodeType::Model { provider, model_name, thinking, .. } => Ok(
                        ModelRequest {
                            node_id,
                            provider: *provider,
                            model_name: model_name.clone(),
                            thinking: *thinking,
                            messages,
                        },
                    ),
                    _ => Err(ExecutionError::NotAModel),
                }
            },
            Err(PromptError::NotAModel) => Err(ExecutionError::NotAModel),
            Err(PromptError::EmptyPrompt) => {
                node.is_executing = false;
                Err(ExecutionError::EmptyPrompt)
            },
        };
        self.put_node(node);
        assert(self@.nodes =~= old(self)@.begin_execution(node_id).nodes);
        r
    }

    /// Appends the user's message `content` to the conversation of the model node
    /// `node_id`, marks the node as executing and builds its request.
    pub fn send_message(&mut self, node_id: usize, content: String) -> (r: Result<
        ModelRequest,
        ExecutionError,
    >)
        requires
            old(self).wf(),
        ensures
            final(self).wf(),
            final(self)@ == old(self)@.send_message(node_id, content@),
            match r {
                Ok(request) => old(self)@.is_model(node_id)
                    && request@ == final(self)@.nodes[node_id].request(),
                Err(ExecutionError::NodeMissing) => !old(self)@.nodes.contains_key(node_id),
                Err(ExecutionError::NotAModel) => old(self)@.nodes.contains_key(node_id) && !old(
                    self,
                )@.is_model(node_id),
                Err(ExecutionError::EmptyPrompt) => false,
            },
    {
        let mut node = match self.take_node(node_id) {
            Some(node) => node,
            None => {
                assert(self@.nodes =~= old(self)@.nodes);
                return Err(ExecutionError::NodeMissing);
            },
        };
        let mut messages = match take_history(&mut node) {
            Some(messages) => messages,
            None => {
                self.put_node(node);
                assert(self@.nodes =~= old(self)@.nodes);
                return Err(ExecutionError::NotAModel);
            },
        };
        let ghost before = messages@;
        let turn = ChatMessage { role: MessageRole::User, content, thinking: None };
        messages.push(turn);
        assert(messages_view(messages@) =~= messages_view(before).push(user_turn(content@)));
        put_history(&mut node, messages);
        node.is_executing = true;
        let prepared = node.prepare_prompt();
        let r = match prepared {
            Ok(prompt) => match &node.node_type {
                NodeType::Model { provider, model_name, thinking, .. } => Ok(
                    ModelRequest {
                        node_id,
                        provider: *provider,
                        model_name: model_name.clone(),
                        thinking: *thinking,
                        messages: prompt,
                    },
                ),
                _ => Err(ExecutionError::NotAModel),
            },
            Err(_) => Err(ExecutionError::EmptyPrompt),
        };
        self.put_node(node);
        assert(self@.nodes =~= old(self)@.send_message(node_id, content@).nodes);
        r
    }

    /// Folds a chunk of the answer into the graph: the chunk is appended to the last
    /// turn of the node's conversation, after the answer's turn has been opened on the
    /// first chunk, and the text received so far becomes the node's output and is
    /// propagated one hop. A chunk for a node that has left the graph changes no node.
    pub fn apply_chunk(&mut self, run: &mut ModelRun, chunk: &ChatMessage)
        requires
            old(self).wf(),
        ensures
            final(self).wf(),
            final(self)@ == old(self)@.apply_chunk(old(run)@, chunk@),
            final(run)@ == old(self)@.run_after_chunk(old(run)@, chunk@),
    {
        let node_id = run.node_id;
        if let Some(mut node) = self.take_node(node_id) {
            if let Some(mut messages) = take_history(&mut node) {
                let taken = fold_chunk(&mut messages, run.started, chunk);
                run.started = true;
                if taken {
                    run.output.append(chunk.content.as_str());
                }
                put_history(&mut node, messages);
            }
            self.put_node(node);
            assert(self@.nodes =~= old(self)@.absorb_chunk(old(run)@, chunk@).nodes);
        } else {
            assert(self@.nodes =~= old(self)@.nodes);
        }
        self.publish_node_output(node_id, run.output.clone());
    }

    /// Makes `text` the output of the node `node_id` while its execution goes on, and
    /// propagates it one hop.
    pub fn publish_node_output(&mut self, node_id: usize, text: String)
        requires
            old(self).wf(),
        ensures
            final(self).wf(),
            final(self)@ == old(self)@.publish_output(node_id, text@),
    {
        if let Some(mut node) = self.take_node(node_id) {
            node.output = Some(text);
            self.put_node(node);
            assert(self@.nodes =~= old(self)@.nodes.insert(node_id, node@));
        } else {
            assert(self@.nodes =~= old(self)@.nodes);
        }
        self.propagate_output_to_connected_nodes(node_id);
    }

    /// Records that the execution of the node `node_id` has succeeded: its stream has
    /// come to its end. The node is no longer executing and no longer needs execution.
    /// Nothing changes if the node has left the graph.
    pub fn complete_execution(&mut self, node_id: usize)
        requires
            old(self).wf(),
        ensures
            final(self).wf(),
            final(self)@ == old(self)@.complete_execution(node_id),
    {
        if let Some(mut node) = self.take_node(node_id) {
            node.is_executing = false;
            node.needs_execution = false;
            self.put_node(node);
            assert(self@.nodes =~= old(self)@.complete_execution(node_id).nodes);
        } else {
            assert(self@.nodes =~= old(self)@.nodes);
        }
    }

    /// Records that the execution of the node `node_id` has failed, before or during
    /// its stream. The node is no longer executing and keeps needing execution if it
    /// did. Nothing changes if the node has left the graph.
    pub fn end_execution(&mut self, node_id: usize)
        requires
            old(self).wf(),
        ensures
            final(self).wf(),
            final(self)@ == old(self)@.end_execution(node_id),
    {
        if let Some(mut node) = self.take_node(node_id) {
            node.is_executing = false;
            self.put_node(node);
            assert(self@.nodes =~= old(self)@.end_execution(node_id).nodes);
        } else {
            assert(self@.nodes =~= old(self)@.nodes);
        }
    }
}

} // verus!
