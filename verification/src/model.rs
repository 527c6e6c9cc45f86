//! Mathematical model of a workflow graph and of the effect of each basic operation.

use crate::connections::{Connection, ConnectionDrawingState};
use crate::nodes::{NodeTypeView, NodeView, Port};
use vstd::prelude::*;

verus! {

/// Mathematical model of a workflow graph.
pub struct WorkflowView {
    pub nodes: Map<usize, NodeView>,
    pub connections: Map<usize, Connection>,
    pub next_node_id: usize,
    pub next_connection_id: usize,
    pub selected_node_id: Option<usize>,
    pub dragging_node_id: Option<usize>,
    pub drawing: ConnectionDrawingState,
}

impl WorkflowView {
    /// The invariant of a graph: every node and every connection is stored under its own
    /// id, every id in use lies below the counter it came from, every node is well formed
    /// and no connection joins a node to itself.
    pub open spec fn wf(self) -> bool {
        &&& forall|id: usize| #[trigger]
            self.nodes.contains_key(id) ==> {
                &&& id < self.next_node_id
                &&& self.nodes[id].id == id
                &&& self.nodes[id].wf()
            }
        &&& forall|id: usize| #[trigger]
            self.connections.contains_key(id) ==> {
                &&& id < self.next_connection_id
                &&& self.connections[id].id == id
                &&& self.connections[id].from_node_id != self.connections[id].to_node_id
            }
    }

    /// The graph without nodes or connections.
    pub open spec fn empty() -> WorkflowView {
        WorkflowView {
            nodes: Map::empty(),
            connections: Map::empty(),
            next_node_id: 0,
            next_connection_id: 0,
            selected_node_id: None,
            dragging_node_id: None,
            drawing: ConnectionDrawingState::idle(),
        }
    }

    /// The graph with the node `node` stored under `id`, everything else unchanged.
    pub open spec fn with_node(self, id: usize, node: NodeView) -> WorkflowView {
        WorkflowView { nodes: self.nodes.insert(id, node), ..self }
    }

    /// The graph after a node of kind `kind` has been placed at `(x, y)`.
    pub open spec fn add_node(self, kind: NodeTypeView, x: i64, y: i64) -> WorkflowView {
        WorkflowView {
            nodes: self.nodes.insert(
                self.next_node_id,
                NodeView::fresh(self.next_node_id, kind, x, y),
            ),
            next_node_id: (self.next_node_id + 1) as usize,
            ..self
        }
    }

    /// The connections that do not touch the node `id`.
    pub open spec fn connections_apart_from(self, id: usize) -> Map<usize, Connection> {
        Map::new(
            |cid: usize| self.connections.contains_key(cid) && !self.connections[cid].touches(id),
            |cid: usize| self.connections[cid],
        )
    }

    /// The graph after the node `id` has been removed: the node and every connection that
    /// touches it are gone, a selection or drag of it is dropped, and a connection that
    /// was being drawn from it is cancelled.
    pub open spec fn remove_node(self, id: usize) -> WorkflowView {
        WorkflowView {
            nodes: self.nodes.remove(id),
            connections: self.connections_apart_from(id),
            selected_node_id: if self.selected_node_id == Some(id) {
                None
            } else {
                self.selected_node_id
            },
            dragging_node_id: if self.dragging_node_id == Some(id) {
                None
            } else {
                self.dragging_node_id
            },
            drawing: if self.drawing.active && self.drawing.source_node_id == id {
                ConnectionDrawingState::idle()
            } else {
                self.drawing
            },
            ..self
        }
    }

    /// The graph with the interaction state `drawing`, everything else unchanged.
    pub open spec fn with_drawing(self, drawing: ConnectionDrawingState) -> WorkflowView {
        WorkflowView { drawing, ..self }
    }

    /// The graph after a drag of the node `id` has begun with the pointer at `(mx, my)`:
    /// the node remembers where the pointer grabbed it. Nothing changes if there is no
    /// such node.
    pub open spec fn start_dragging(self, id: usize, mx: i64, my: i64) -> WorkflowView {
        if self.nodes.contains_key(id) {
            let node = self.nodes[id];
            WorkflowView {
                dragging_node_id: Some(id),
                nodes: self.nodes.insert(
                    id,
                    NodeView {
                        drag_offset_x: (mx - node.position_x) as i64,
                        drag_offset_y: (my - node.position_y) as i64,
                        ..node
                    },
                ),
                ..self
            }
        } else {
            self
        }
    }

    /// Where the dragged node goes when the pointer is at `(mx, my)`.
    pub open spec fn drag_target(self, mx: i64, my: i64) -> (int, int) {
        let node = self.nodes[self.dragging_node_id->0];
        (mx - node.drag_offset_x, my - node.drag_offset_y)
    }

    /// Whether a node is being dragged and is present in the graph.
    pub open spec fn drag_in_progress(self) -> bool {
        self.dragging_node_id is Some && self.nodes.contains_key(self.dragging_node_id->0)
    }

    /// Whether a pointer move to `(mx, my)` keeps the dragged node inside the world.
    pub open spec fn drag_fits(self, mx: i64, my: i64) -> bool {
        self.drag_in_progress() ==> {
            let (x, y) = self.drag_target(mx, my);
            -crate::nodes::COORD_MAX <= x <= crate::nodes::COORD_MAX
                && -crate::nodes::COORD_MAX <= y <= crate::nodes::COORD_MAX
        }
    }

    /// The graph after the pointer has moved to `(mx, my)` during a drag: the dragged
    /// node follows the pointer at the distance at which it was grabbed.
    pub open spec fn drag(self, mx: i64, my: i64) -> WorkflowView {
        if self.drag_in_progress() {
            let id = self.dragging_node_id->0;
            let (x, y) = self.drag_target(mx, my);
            self.with_node(
                id,
                NodeView { position_x: x as i64, position_y: y as i64, ..self.nodes[id] },
            )
        } else {
            self
        }
    }

    /// The lowest id, not below `k`, of a connection that ends at `target`.
    pub open spec fn first_into_from(self, target: usize, k: nat) -> Option<usize>
        decreases self.next_connection_id - k,
    {
        if k >= self.next_connection_id {
            None
        } else if self.connections.contains_key(k as usize) && self.connections[k as usize].to_node_id
            == target {
            Some(k as usize)
        } else {
            self.first_into_from(target, k + 1)
        }
    }

    /// The connection into `target` that a redirect detaches: the one with the lowest id.
    pub open spec fn first_into(self, target: usize) -> Option<usize> {
        self.first_into_from(target, 0)
    }

    /// The graph after the first connection into `target` has been removed and the
    /// target, if present, has lost its input. Nothing changes if no connection ends at
    /// `target`.
    pub open spec fn detach(self, target: usize) -> WorkflowView {
        match self.first_into(target) {
            Some(cid) => WorkflowView {
                connections: self.connections.remove(cid),
                nodes: if self.nodes.contains_key(target) {
                    self.nodes.insert(target, NodeView { input: None, ..self.nodes[target] })
                } else {
                    self.nodes
                },
                ..self
            },
            None => self,
        }
    }

    /// Where the provisional line of a redirect at `target` ends: at the pointer if a
    /// connection is already being drawn, else at the target's input port, else at the
    /// origin.
    pub open spec fn redirect_mouse(self, target: usize) -> (i64, i64) {
        if self.drawing.active {
            self.drawing.current_mouse_world_pos
        } else if self.nodes.contains_key(target) {
            let p = self.nodes[target].port(Port::Input);
            (p.0 as i64, p.1 as i64)
        } else {
            (0, 0)
        }
    }

    /// The graph after a drag has begun at the input port of `target`: the first
    /// connection into the target is detached and is drawn anew from its source. Nothing
    /// changes if no connection ends at `target` or if its source is not in the graph.
    pub open spec fn redirect(self, target: usize) -> WorkflowView {
        match self.first_into(target) {
            Some(cid) => {
                let source = self.connections[cid].from_node_id;
                if self.nodes.contains_key(source) {
                    let p = self.nodes[source].port(Port::Output);
                    self.with_drawing(
                        ConnectionDrawingState::drawing(
                            source,
                            (p.0 as i64, p.1 as i64),
                            self.redirect_mouse(target),
                        ),
                    ).detach(target)
                } else {
                    self
                }
            },
            None => self,
        }
    }

    /// The graph after a connection drag has begun at the node `source`, at the point
    /// `(x, y)`. Nothing changes if there is no such node.
    pub open spec fn start_drawing(self, source: usize, x: i64, y: i64) -> WorkflowView {
        if self.nodes.contains_key(source) {
            self.with_drawing(ConnectionDrawingState::drawing(source, (x, y), (x, y)))
        } else {
            self
        }
    }

    /// The graph after a connection drag has begun at the output port of the node
    /// `source`: the port is the fixed end of the line and, to begin with, its free end
    /// too. Nothing changes if there is no such node.
    pub open spec fn start_drawing_at_port(self, source: usize) -> WorkflowView {
        if self.nodes.contains_key(source) {
            let p = self.nodes[source].port(Port::Output);
            self.start_drawing(source, p.0 as i64, p.1 as i64)
        } else {
            self
        }
    }

    /// The graph after the pointer has moved to `(x, y)` while a connection is drawn.
    /// Nothing changes while none is drawn.
    pub open spec fn update_drawing(self, x: i64, y: i64) -> WorkflowView {
        if self.drawing.active {
            self.with_drawing(
                ConnectionDrawingState { current_mouse_world_pos: (x, y), ..self.drawing },
            )
        } else {
            self
        }
    }

    /// The graph after the pointer has entered the node `target`: the node becomes the
    /// hovered target unless it is the source of the connection.
    pub open spec fn set_target(self, target: usize) -> WorkflowView {
        if self.drawing.source_node_id != target {
            self.with_drawing(
                ConnectionDrawingState { target_node_id: Some(target), ..self.drawing },
            )
        } else {
            self
        }
    }

    /// The graph with no hovered target.
    pub open spec fn clear_target(self) -> WorkflowView {
        self.with_drawing(ConnectionDrawingState { target_node_id: None, ..self.drawing })
    }

    /// The graph with the connection drawing machine back in its idle state.
    pub open spec fn cancel_drawing(self) -> WorkflowView {
        self.with_drawing(ConnectionDrawingState::idle())
    }
}

/// What [`WorkflowView::first_into`] finds: a connection into the target below which no
/// connection ends at the target; and it finds one whenever a connection of a
/// well-formed graph ends at the target.
pub proof fn lemma_first_into(v: WorkflowView, target: usize, k: nat)
    ensures
        match v.first_into_from(target, k) {
            Some(cid) => {
                &&& k <= cid < v.next_connection_id
                &&& v.connections.contains_key(cid)
                &&& v.connections[cid].to_node_id == target
                &&& forall|other: usize|
                    k <= other < cid && v.connections.contains_key(other)
                        ==> v.connections[other].to_node_id != target
            },
            None => forall|other: usize|
                k <= other < v.next_connection_id && v.connections.contains_key(other)
                    ==> v.connections[other].to_node_id != target,
        },
    decreases v.next_connection_id - k,
{
    if k < v.next_connection_id {
        if !(v.connections.contains_key(k as usize) && v.connections[k as usize].to_node_id
            == target) {
            lemma_first_into(v, target, k + 1);
        }
    }
}

/// The store that holds each of `nodes` under its id. Of nodes that share an id, the
/// first is held.
pub open spec fn nodes_from(nodes: Seq<NodeView>) -> Map<usize, NodeView>
    decreases nodes.len(),
{
    if nodes.len() == 0 {
        Map::empty()
    } else {
        nodes_from(nodes.drop_first()).insert(nodes[0].id, nodes[0])
    }
}

/// The store that holds each of `connections` under its id. Of connections that share
/// an id, the first is held.
pub open spec fn connections_from(connections: Seq<Connection>) -> Map<usize, Connection>
    decreases connections.len(),
{
    if connections.len() == 0 {
        Map::empty()
    } else {
        connections_from(connections.drop_first()).insert(connections[0].id, connections[0])
    }
}

/// Whether the nodes can be the nodes of a graph whose next node gets the id
/// `next_node_id`: no two share an id, every id lies below `next_node_id`, and every
/// node is well formed.
pub open spec fn nodes_fit(nodes: Seq<NodeView>, next_node_id: usize) -> bool {
    &&& forall|i: int, j: int| 0 <= i < j < nodes.len() ==> nodes[i].id != nodes[j].id
    &&& forall|i: int| 0 <= i < nodes.len() ==> (#[trigger] nodes[i]).id < next_node_id
    &&& forall|i: int| 0 <= i < nodes.len() ==> (#[trigger] nodes[i]).wf()
}

/// Whether the connections can be the connections of a graph whose next connection gets
/// the id `next_connection_id`: no two share an id, every id lies below
/// `next_connection_id`, and none joins a node to itself.
pub open spec fn connections_fit(connections: Seq<Connection>, next_connection_id: usize) -> bool {
    &&& forall|i: int, j: int|
        0 <= i < j < connections.len() ==> connections[i].id != connections[j].id
    &&& forall|i: int|
        0 <= i < connections.len() ==> (#[trigger] connections[i]).id < next_connection_id
    &&& forall|i: int|
        0 <= i < connections.len() ==> (#[trigger] connections[i]).from_node_id
            != connections[i].to_node_id
}

/// The ids under which [`nodes_from`] holds nodes are the ids of the nodes, and every
/// node held is one of those given and is held under its own id.
pub proof fn lemma_nodes_from(nodes: Seq<NodeView>)
    ensures
        forall|id: usize| #[trigger]
            nodes_from(nodes).contains_key(id) <==> exists|i: int|
                0 <= i < nodes.len() && nodes[i].id == id,
        forall|id: usize| #[trigger]
            nodes_from(nodes).contains_key(id) ==> exists|i: int|
                0 <= i < nodes.len() && nodes[i] == nodes_from(nodes)[id] && nodes[i].id == id,
    decreases nodes.len(),
{
    if nodes.len() > 0 {
        let rest = nodes.drop_first();
        lemma_nodes_from(rest);
        assert forall|id: usize| #[trigger]
            nodes_from(nodes).contains_key(id) <==> exists|i: int|
                0 <= i < nodes.len() && nodes[i].id == id by {
            if nodes_from(rest).contains_key(id) {
                let i = choose|i: int| 0 <= i < rest.len() && rest[i].id == id;
                assert(nodes[i + 1].id == id);
            }
            if exists|i: int| 0 <= i < nodes.len() && nodes[i].id == id {
                let i = choose|i: int| 0 <= i < nodes.len() && nodes[i].id == id;
                if i > 0 {
                    assert(rest[i - 1].id == id);
                }
            }
        }
        assert forall|id: usize| #[trigger]
            nodes_from(nodes).contains_key(id) implies exists|i: int|
            0 <= i < nodes.len() && nodes[i] == nodes_from(nodes)[id] && nodes[i].id == id by {
            if id == nodes[0].id {
                assert(nodes[0] == nodes_from(nodes)[id]);
            } else {
                let i = choose|i: int|
                    0 <= i < rest.len() && rest[i] == nodes_from(rest)[id] && rest[i].id == id;
                assert(nodes[i + 1] == nodes_from(nodes)[id]);
            }
        }
    }
}

/// The ids under which [`connections_from`] holds connections are the ids of the
/// connections, and every connection held is one of those given and is held under its
/// own id.
pub proof fn lemma_connections_from(connections: Seq<Connection>)
    ensures
        forall|id: usize| #[trigger]
            connections_from(connections).contains_key(id) <==> exists|i: int|
                0 <= i < connections.len() && connections[i].id == id,
        forall|id: usize| #[trigger]
            connections_from(connections).contains_key(id) ==> exists|i: int|
                0 <= i < connections.len() && connections[i] == connections_from(
                    connections,
                )[id] && connections[i].id == id,
    decreases connections.len(),
{
    if connections.len() > 0 {
        let rest = connections.drop_first();
        lemma_connections_from(rest);
        assert forall|id: usize| #[trigger]
            connections_from(connections).contains_key(id) <==> exists|i: int|
                0 <= i < connections.len() && connections[i].id == id by {
            if connections_from(rest).contains_key(id) {
                let i = choose|i: int| 0 <= i < rest.len() && rest[i].id == id;
                assert(connections[i + 1].id == id);
            }
            if exists|i: int| 0 <= i < connections.len() && connections[i].id == id {
                let i = choose|i: int| 0 <= i < connections.len() && connections[i].id == id;
                if i > 0 {
                    assert(rest[i - 1].id == id);
                }
            }
        }
        assert forall|id: usize| #[trigger]
            connections_from(connections).contains_key(id) implies exists|i: int|
            0 <= i < connections.len() && connections[i] == connections_from(connections)[id]
                && connections[i].id == id by {
            if id == connections[0].id {
                assert(connections[0] == connections_from(connections)[id]);
            } else {
                let i = choose|i: int|
                    0 <= i < rest.len() && rest[i] == connections_from(rest)[id] && rest[i].id
                        == id;
                assert(connections[i + 1] == connections_from(connections)[id]);
            }
        }
    }
}

/// Cascade on delete: removing a node from a well-formed graph leaves a well-formed
/// graph without the node and without any connection that touched it; the other nodes
/// and the other connections stay as they were.
pub proof fn lemma_remove_node_cascades(v: WorkflowView, id: usize)
    requires
        v.wf(),
    ensures
        v.remove_node(id).wf(),
        !v.remove_node(id).nodes.contains_key(id),
        forall|cid: usize| #[trigger]
            v.remove_node(id).connections.contains_key(cid) ==> !v.remove_node(
                id,
            ).connections[cid].touches(id),
        forall|other: usize|
            other != id && v.nodes.contains_key(other) ==> #[trigger] v.remove_node(
                id,
            ).nodes.contains_key(other) && v.remove_node(id).nodes[other] == v.nodes[other],
        forall|cid: usize|
            v.connections.contains_key(cid) && !v.connections[cid].touches(id)
                ==> #[trigger] v.remove_node(id).connections.contains_key(cid) && v.remove_node(
                id,
            ).connections[cid] == v.connections[cid],
{
}

/// The connections with an id below `n`, in the order of their ids.
pub open spec fn connections_upto(connections: Map<usize, Connection>, n: nat) -> Seq<Connection>
    decreases n,
{
    if n == 0 {
        Seq::empty()
    } else if connections.contains_key((n - 1) as usize) {
        connections_upto(connections, (n - 1) as nat).push(connections[(n - 1) as usize])
    } else {
        connections_upto(connections, (n - 1) as nat)
    }
}

/// The nodes with an id below `n`, in the order of their ids.
pub open spec fn nodes_upto(nodes: Map<usize, NodeView>, n: nat) -> Seq<NodeView>
    decreases n,
{
    if n == 0 {
        Seq::empty()
    } else if nodes.contains_key((n - 1) as usize) {
        nodes_upto(nodes, (n - 1) as nat).push(nodes[(n - 1) as usize])
    } else {
        nodes_upto(nodes, (n - 1) as nat)
    }
}

impl WorkflowView {
    /// The nodes of the graph, in the order of their ids.
    pub open spec fn node_list(self) -> Seq<NodeView> {
        nodes_upto(self.nodes, self.next_node_id as nat)
    }

    /// The connections of the graph, in the order of their ids.
    pub open spec fn connection_list(self) -> Seq<Connection> {
        connections_upto(self.connections, self.next_connection_id as nat)
    }
}

/// The nodes listed below `n` are the stored nodes with an id below `n`, in ascending
/// order of their ids.
pub proof fn lemma_nodes_upto(nodes: Map<usize, NodeView>, n: nat)
    requires
        n <= usize::MAX,
        forall|id: usize| #[trigger] nodes.contains_key(id) ==> nodes[id].id == id,
    ensures
        forall|i: int|
            0 <= i < nodes_upto(nodes, n).len() ==> {
                let node = #[trigger] nodes_upto(nodes, n)[i];
                node.id < n && nodes.contains_key(node.id) && nodes[node.id] == node
            },
        forall|id: usize|
            id < n && #[trigger] nodes.contains_key(id) ==> exists|i: int|
                0 <= i < nodes_upto(nodes, n).len() && nodes_upto(nodes, n)[i].id == id,
        forall|i: int, j: int|
            0 <= i < j < nodes_upto(nodes, n).len() ==> nodes_upto(nodes, n)[i].id < nodes_upto(
                nodes,
                n,
            )[j].id,
    decreases n,
{
    if n > 0 {
        let lower = nodes_upto(nodes, (n - 1) as nat);
        let here = nodes_upto(nodes, n);
        let top = (n - 1) as usize;
        lemma_nodes_upto(nodes, (n - 1) as nat);
        assert forall|id: usize| id < n && #[trigger] nodes.contains_key(id) implies exists|i: int|
            0 <= i < here.len() && here[i].id == id by {
            if id == top {
                assert(here[here.len() - 1].id == id);
            } else {
                let i = choose|i: int| 0 <= i < lower.len() && lower[i].id == id;
                assert(here[i].id == id);
            }
        }
    }
}

/// The connections listed below `n` are the stored connections with an id below `n`, in
/// ascending order of their ids.
pub proof fn lemma_connections_upto(connections: Map<usize, Connection>, n: nat)
    requires
        n <= usize::MAX,
        forall|id: usize| #[trigger] connections.contains_key(id) ==> connections[id].id == id,
    ensures
        forall|i: int|
            0 <= i < connections_upto(connections, n).len() ==> {
                let c = #[trigger] connections_upto(connections, n)[i];
                c.id < n && connections.contains_key(c.id) && connections[c.id] == c
            },
        forall|id: usize|
            id < n && #[trigger] connections.contains_key(id) ==> exists|i: int|
                0 <= i < connections_upto(connections, n).len() && connections_upto(
                    connections,
                    n,
                )[i].id == id,
        forall|i: int, j: int|
            0 <= i < j < connections_upto(connections, n).len() ==> connections_upto(
                connections,
                n,
            )[i].id < connections_upto(connections, n)[j].id,
    decreases n,
{
    if n > 0 {
        let lower = connections_upto(connections, (n - 1) as nat);
        let here = connections_upto(connections, n);
        let top = (n - 1) as usize;
        lemma_connections_upto(connections, (n - 1) as nat);
        assert forall|id: usize|
            id < n && #[trigger] connections.contains_key(id) implies exists|i: int|
            0 <= i < here.len() && here[i].id == id by {
            if id == top {
                assert(here[here.len() - 1].id == id);
            } else {
                let i = choose|i: int| 0 <= i < lower.len() && lower[i].id == id;
                assert(here[i].id == id);
            }
        }
    }
}

/// A graph is rebuilt from its parts: the nodes and connections of a well-formed graph,
/// listed in the order of their ids, are parts that fit its counters, and the stores
/// made of them are the stores of the graph.
pub proof fn lemma_parts_rebuild_graph(v: WorkflowView)
    requires
        v.wf(),
    ensures
        nodes_fit(v.node_list(), v.next_node_id),
        connections_fit(v.connection_list(), v.next_connection_id),
        nodes_from(v.node_list()) == v.nodes,
        connections_from(v.connection_list()) == v.connections,
{
    let ns = v.node_list();
    let cs = v.connection_list();
    lemma_nodes_upto(v.nodes, v.next_node_id as nat);
    lemma_connections_upto(v.connections, v.next_connection_id as nat);
    lemma_nodes_from(ns);
    lemma_connections_from(cs);
    assert forall|id: usize| nodes_from(ns).contains_key(id) implies v.nodes.contains_key(id)
        && nodes_from(ns)[id] == v.nodes[id] by {
        let i = choose|i: int| 0 <= i < ns.len() && ns[i] == nodes_from(ns)[id] && ns[i].id == id;
        assert(v.nodes[ns[i].id] == ns[i]);
    }
    assert forall|id: usize| v.nodes.contains_key(id) implies nodes_from(ns).contains_key(id) by {
        let i = choose|i: int| 0 <= i < ns.len() && ns[i].id == id;
        assert(ns[i].id == id);
    }
    assert(nodes_from(ns) =~= v.nodes);
    assert forall|id: usize| connections_from(cs).contains_key(id) implies v.connections.contains_key(
        id,
    ) && connections_from(cs)[id] == v.connections[id] by {
        let i = choose|i: int|
            0 <= i < cs.len() && cs[i] == connections_from(cs)[id] && cs[i].id == id;
        assert(v.connections[cs[i].id] == cs[i]);
    }
    assert forall|id: usize| v.connections.contains_key(id) implies connections_from(
        cs,
    ).contains_key(id) by {
        let i = choose|i: int| 0 <= i < cs.len() && cs[i].id == id;
        assert(cs[i].id == id);
    }
    assert(connections_from(cs) =~= v.connections);
    assert forall|i: int| 0 <= i < ns.len() implies (#[trigger] ns[i]).id < v.next_node_id
        && ns[i].wf() by {
        assert(v.nodes.contains_key(ns[i].id));
    }
    assert forall|i: int| 0 <= i < cs.len() implies (#[trigger] cs[i]).id < v.next_connection_id
        && cs[i].from_node_id != cs[i].to_node_id by {
        assert(v.connections.contains_key(cs[i].id));
    }
}

/// The ids below `n` that are in `ids`, in ascending order.
pub open spec fn ids_upto(ids: Set<usize>, n: nat) -> Seq<usize>
    decreases n,
{
    if n == 0 {
        Seq::empty()
    } else if ids.contains((n - 1) as usize) {
        ids_upto(ids, (n - 1) as nat).push((n - 1) as usize)
    } else {
        ids_upto(ids, (n - 1) as nat)
    }
}

/// Every id of the sequence is greater than the ids before it.
pub open spec fn ascending(ids: Seq<usize>) -> bool {
    forall|i: int, j: int| 0 <= i < j < ids.len() ==> ids[i] < ids[j]
}

/// The id at place `k` of a list of the ids below `n`, or `n` behind the end of the list:
/// the bound up to which a walk along the list has come when it stands at place `k`.
pub open spec fn bound_at(ids: Seq<usize>, k: int, n: nat) -> nat {
    if 0 <= k < ids.len() {
        ids[k] as nat
    } else {
        n
    }
}

/// The first id behind the id before place `k`, or zero at the start of the list.
pub open spec fn floor_at(ids: Seq<usize>, k: int) -> nat {
    if 0 < k <= ids.len() {
        (ids[k - 1] + 1) as nat
    } else {
        0
    }
}

impl WorkflowView {
    /// The ids of the nodes, in ascending order.
    pub open spec fn node_ids(self) -> Seq<usize> {
        ids_upto(self.nodes.dom(), self.next_node_id as nat)
    }

    /// The ids of the connections, in ascending order.
    pub open spec fn connection_ids(self) -> Seq<usize> {
        ids_upto(self.connections.dom(), self.next_connection_id as nat)
    }
}

/// The list of the ids below `n` holds exactly those ids, in ascending order.
pub proof fn lemma_ids_upto(dom: Set<usize>, n: nat)
    requires
        n <= usize::MAX,
    ensures
        forall|id: usize| #[trigger] ids_upto(dom, n).contains(id) <==> dom.contains(id) && id < n,
        ascending(ids_upto(dom, n)),
    decreases n,
{
    let here = ids_upto(dom, n);
    if n > 0 {
        let lower = ids_upto(dom, (n - 1) as nat);
        let top = (n - 1) as usize;
        lemma_ids_upto(dom, (n - 1) as nat);
        if dom.contains(top) {
            assert forall|id: usize| #[trigger] here.contains(id) <==> dom.contains(id) && id
                < n by {
                if here.contains(id) {
                    let i = choose|i: int| 0 <= i < here.len() && here[i] == id;
                    if i < lower.len() {
                        assert(lower[i] == id);
                    }
                }
                if lower.contains(id) {
                    let i = choose|i: int| 0 <= i < lower.len() && lower[i] == id;
                    assert(here[i] == id);
                }
                if id == top {
                    assert(here[lower.len() as int] == id);
                }
            }
            assert forall|i: int, j: int| 0 <= i < j < here.len() implies here[i] < here[j] by {
                if j == lower.len() {
                    assert(lower.contains(lower[i]));
                }
            }
        }
    } else {
        assert forall|id: usize| !(#[trigger] here.contains(id)) by {}
    }
}

/// An ascending list that holds exactly the ids below `n` is the list of those ids.
pub proof fn lemma_ascending_unique(s: Seq<usize>, dom: Set<usize>, n: nat)
    requires
        n <= usize::MAX,
        ascending(s),
        forall|id: usize| #[trigger] s.contains(id) <==> dom.contains(id) && id < n,
    ensures
        s == ids_upto(dom, n),
    decreases n,
{
    if n == 0 {
        if s.len() > 0 {
            assert(s.contains(s[0]));
        }
        assert(s =~= Seq::empty());
    } else {
        let top = (n - 1) as usize;
        if dom.contains(top) {
            assert(s.contains(top));
            let i = choose|i: int| 0 <= i < s.len() && s[i] == top;
            if i < s.len() - 1 {
                assert(s.contains(s[s.len() - 1]));
            }
            let front = s.drop_last();
            assert forall|id: usize| #[trigger] front.contains(id) <==> dom.contains(id) && id
                < n - 1 by {
                if front.contains(id) {
                    let j = choose|j: int| 0 <= j < front.len() && front[j] == id;
                    assert(s[j] == id);
                    assert(s.contains(id));
                }
                if dom.contains(id) && id < n - 1 {
                    assert(s.contains(id));
                    let j = choose|j: int| 0 <= j < s.len() && s[j] == id;
                    assert(front[j] == id);
                }
            }
            lemma_ascending_unique(front, dom, (n - 1) as nat);
            assert(s =~= front.push(top));
        } else {
            assert forall|id: usize| #[trigger] s.contains(id) <==> dom.contains(id) && id < n
                - 1 by {}
            lemma_ascending_unique(s, dom, (n - 1) as nat);
        }
    }
}

/// Between one id of the list and the next no id is in use, nor before the first or
/// behind the last.
pub proof fn lemma_no_id_between(dom: Set<usize>, n: nat, k: int)
    requires
        n <= usize::MAX,
        0 <= k <= ids_upto(dom, n).len(),
    ensures
        floor_at(ids_upto(dom, n), k) <= bound_at(ids_upto(dom, n), k, n) <= n,
        forall|x: usize|
            floor_at(ids_upto(dom, n), k) <= x < bound_at(ids_upto(dom, n), k, n)
                ==> !dom.contains(x),
        k < ids_upto(dom, n).len() ==> dom.contains(ids_upto(dom, n)[k]),
{
    let ids = ids_upto(dom, n);
    lemma_ids_upto(dom, n);
    if k < ids.len() {
        assert(ids.contains(ids[k]));
    }
    if k > 0 {
        assert(ids.contains(ids[k - 1]));
    }
    assert forall|x: usize| floor_at(ids, k) <= x < bound_at(ids, k, n) implies !dom.contains(
        x,
    ) by {
        if dom.contains(x) {
            assert(ids.contains(x));
            let j = choose|j: int| 0 <= j < ids.len() && ids[j] == x;
            if j < k - 1 {
                assert(ids[j] < ids[k - 1]);
            } else if j > k {
                assert(ids[k] < ids[j]);
            }
        }
    }
}

/// Where no connection id is in use from `a` up to `b`, the connection that is first
/// into a target from `a` on is the first from `b` on.
pub proof fn lemma_first_into_gap(v: WorkflowView, target: usize, a: nat, b: nat)
    requires
        a <= b <= v.next_connection_id,
        forall|x: usize| a <= x < b ==> !v.connections.contains_key(x),
    ensures
        v.first_into_from(target, a) == v.first_into_from(target, b),
    decreases b - a,
{
    if a < b {
        assert(!v.connections.contains_key(a as usize));
        lemma_first_into_gap(v, target, a + 1, b);
    }
}

/// Where no connection id is in use from `a` up to `b`, the connections listed below
/// `b` are those listed below `a`.
pub proof fn lemma_connections_gap(connections: Map<usize, Connection>, a: nat, b: nat)
    requires
        a <= b <= usize::MAX,
        forall|x: usize| a <= x < b ==> !connections.contains_key(x),
    ensures
        connections_upto(connections, b) == connections_upto(connections, a),
    decreases b,
{
    if a < b {
        assert(!connections.contains_key((b - 1) as usize));
        lemma_connections_gap(connections, a, (b - 1) as nat);
    }
}

} // verus!
