//! Workflow graph engine of a node-based editor for chained model prompts.
//!
//! A graph holds nodes and the connections between them. The output of a node feeds the
//! inputs of the nodes it is connected to; the model nodes that need execution are run
//! in an order that follows the connections, and their answers arrive in chunks.

pub mod aggregate;
pub mod connections;
pub mod edit;
pub mod execution;
pub mod json;
pub mod llm;
pub mod model;
pub mod nodes;
pub mod schedule;
pub mod stream;
pub mod text;
pub mod workflow;

pub use crate::connections::{Connection, ConnectionDrawingState};
pub use crate::execution::{ExecutionError, ModelRequest, ModelRun};
pub use crate::llm::{ContentDelta, LLMRequest, LLMResponse, OllamaResponse, ThinkingConfig};
pub use crate::nodes::{
    get_port_world_pos, ChatMessage, MessageRole, Node, NodeType, Port, PromptError, ProviderType,
};
pub use crate::workflow::{Workflow, WorkflowError};
