//! Connections between nodes and the transient state of a connection being drawn.

use vstd::prelude::*;

verus! {

/// A directed edge that feeds the output of one node into the input of another.
#[derive(Clone, Copy, Debug, PartialEq, Eq, Structural)]
pub struct Connection {
    pub id: usize,
    pub from_node_id: usize,
    pub to_node_id: usize,
}

impl Connection {
    /// Whether the connection starts or ends at `node_id`.
    pub open spec fn touches(self, node_id: usize) -> bool {
        self.from_node_id == node_id || self.to_node_id == node_id
    }
}

/// State of the "drag to connect" interaction. While `active` is false the machine is
/// idle and the other fields hold their defaults.
#[derive(Clone, Copy, Debug, PartialEq, Eq)]
pub struct ConnectionDrawingState {
    pub active: bool,
    pub source_node_id: usize,
    pub source_port_world_pos: (i64, i64),
    pub current_mouse_world_pos: (i64, i64),
    pub target_node_id: Option<usize>,
}

impl ConnectionDrawingState {
    /// The idle state.
    pub open spec fn idle() -> ConnectionDrawingState {
        ConnectionDrawingState {
            active: false,
            source_node_id: 0,
            source_port_world_pos: (0, 0),
            current_mouse_world_pos: (0, 0),
            target_node_id: None,
        }
    }

    /// The state right after a drag has begun at `anchor` from the node `source`, with
    /// the pointer at `mouse`.
    pub open spec fn drawing(source: usize, anchor: (i64, i64), mouse: (i64, i64))
        -> ConnectionDrawingState {
        ConnectionDrawingState {
            active: true,
            source_node_id: source,
            source_port_world_pos: anchor,
            current_mouse_world_pos: mouse,
            target_node_id: None,
        }
    }
}

impl Default for ConnectionDrawingState {
    fn default() -> (state: ConnectionDrawingState)
        ensures
            state == ConnectionDrawingState::idle(),
    {
        ConnectionDrawingState {
            active: false,
            source_node_id: 0,
            source_port_world_pos: (0, 0),
            current_mouse_world_pos: (0, 0),
            target_node_id: None,
        }
    }
}

} // verus!
