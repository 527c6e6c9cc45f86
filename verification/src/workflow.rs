//! The workflow graph: the store of nodes and connections and the operations on it.

use crate::connections::{Connection, ConnectionDrawingState};
use crate::model::{
    ascending, bound_at, connections_fit, connections_from, connections_upto, ids_upto,
    lemma_ascending_unique, lemma_connections_from, lemma_connections_gap, lemma_first_into_gap,
    lemma_ids_upto, lemma_no_id_between, lemma_nodes_from, nodes_fit, nodes_from, WorkflowView,
};
use crate::nodes::{
    coord_in_world, get_port_world_pos, in_world, messages_view, ChatMessage, Node, NodeType,
    NodeView, Port, ProviderType,
};
use std::collections::HashMap;
use vstd::prelude::*;

verus! {

broadcast use vstd::std_specs::hash::group_hash_axioms;

/// Why an operation on the graph was refused.
#[derive(Clone, Copy, Debug, PartialEq, Eq, Structural)]
pub enum WorkflowError {
    /// A connection would join a node to itself.
    SelfConnection,
    /// The connection being drawn was released over no node.
    NoTarget,
    /// The node from which the connection was drawn is no longer in the graph.
    SourceMissing,
}

/// A workflow graph. Its nodes and connections change only through its operations.
#[derive(Clone, Debug)]
pub struct Workflow {
    pub(crate) nodes: HashMap<usize, Node>,
    pub(crate) connections: HashMap<usize, Connection>,
    pub(crate) next_node_id: usize,
    pub(crate) next_connection_id: usize,
    pub(crate) selected_node_id: Option<usize>,
    pub(crate) dragging_node_id: Option<usize>,
    pub(crate) drawing_connection_state: ConnectionDrawingState,
    /// The ids of the nodes, in ascending order.
    pub(crate) node_order: Vec<usize>,
    /// The ids of the connections, in ascending order.
    pub(crate) connection_order: Vec<usize>,
}

/// Whether `order` lists the ids of `dom`, each once, in ascending order.
pub open spec fn lists(order: Seq<usize>, dom: Set<usize>) -> bool {
    ascending(order) && forall|id: usize| #[trigger] order.contains(id) <==> dom.contains(id)
}

/// Puts `id` into the ascending list `order`, which does not hold it.
pub fn insert_id(order: &mut Vec<usize>, id: usize)
    requires
        ascending(old(order)@),
        !old(order)@.contains(id),
    ensures
        ascending(final(order)@),
        forall|x: usize| #[trigger] final(order)@.contains(x) <==> old(order)@.contains(x) || x == id,
{
    let n = order.len();
    let mut k: usize = 0;
    while k < n && order[k] < id
        invariant
            k <= n,
            n == order@.len(),
            order@ == old(order)@,
            forall|j: int| 0 <= j < k ==> order@[j] < id,
        decreases n - k,
    {
        k += 1;
    }
    let ghost before = order@;
    order.insert(k, id);
    proof {
        let after = order@;
        assert(after == before.insert(k as int, id));
        if k < n {
            assert(before.contains(before[k as int]));
        }
        assert forall|i: int, j: int| 0 <= i < j < after.len() implies after[i] < after[j] by {
            let bi = if i < k { i } else { i - 1 };
            let bj = if j < k { j } else { j - 1 };
            if i != k && j != k {
                assert(after[i] == before[bi] && after[j] == before[bj]);
            } else if i == k {
                assert(after[j] == before[bj]);
                assert(before[k as int] <= before[bj]);
                assert(before.contains(before[k as int]));
            } else {
                assert(after[i] == before[bi]);
            }
        }
        assert forall|x: usize| #[trigger] after.contains(x) <==> before.contains(x) || x == id by {
            if after.contains(x) {
                let i = choose|i: int| 0 <= i < after.len() && after[i] == x;
                if i < k {
                    assert(before[i] == x);
                } else if i > k {
                    assert(before[i - 1] == x);
                }
            }
            if before.contains(x) {
                let i = choose|i: int| 0 <= i < before.len() && before[i] == x;
                if i < k {
                    assert(after[i] == x);
                } else {
                    assert(after[i + 1] == x);
                }
            }
            if x == id {
                assert(after[k as int] == x);
            }
        }
    }
}

/// Takes `id` out of the ascending list `order`, if the list holds it.
pub fn remove_id(order: &mut Vec<usize>, id: usize)
    requires
        ascending(old(order)@),
    ensures
        ascending(final(order)@),
        forall|x: usize| #[trigger] final(order)@.contains(x) <==> old(order)@.contains(x) && x != id,
{
    let n = order.len();
    let mut k: usize = 0;
    while k < n && order[k] != id
        invariant
            k <= n,
            n == order@.len(),
            order@ == old(order)@,
            forall|j: int| 0 <= j < k ==> order@[j] != id,
        decreases n - k,
    {
        k += 1;
    }
    if k < n {
        let ghost before = order@;
        order.remove(k);
        proof {
            let after = order@;
            assert(after == before.remove(k as int));
            assert forall|i: int, j: int| 0 <= i < j < after.len() implies after[i] < after[j] by {
                let bi = if i < k { i } else { i + 1 };
                let bj = if j < k { j } else { j + 1 };
                assert(after[i] == before[bi] && after[j] == before[bj]);
            }
            assert forall|x: usize| #[trigger] after.contains(x) <==> before.contains(x) && x
                != id by {
                if after.contains(x) {
                    let i = choose|i: int| 0 <= i < after.len() && after[i] == x;
                    let bi = if i < k { i } else { i + 1 };
                    assert(before[bi] == x);
                    if x == id {
                        if bi < k {
                            assert(before[bi] < before[k as int]);
                        } else {
                            assert(before[k as int] < before[bi]);
                        }
                    }
                }
                if before.contains(x) && x != id {
                    let i = choose|i: int| 0 <= i < before.len() && before[i] == x;
                    if i < k {
                        assert(after[i] == x);
                    } else {
                        assert(after[i - 1] == x);
                    }
                }
            }
        }
    }
}

/// Whether `id` stands in `order` before place `k`.
pub open spec fn listed_before(order: Seq<usize>, k: int, id: usize) -> bool {
    exists|j: int| 0 <= j < k && order[j] == id
}

/// A list of ids with a greater id behind it lists the ids with that id among them.
pub proof fn lemma_pushed_id(order: Seq<usize>, dom: Set<usize>, id: usize)
    requires
        lists(order, dom),
        forall|x: usize| dom.contains(x) ==> x < id,
    ensures
        lists(order.push(id), dom.insert(id)),
{
    let after = order.push(id);
    assert forall|i: int, j: int| 0 <= i < j < after.len() implies after[i] < after[j] by {
        if j == order.len() {
            assert(order.contains(order[i]));
        }
    }
    assert forall|x: usize| #[trigger] after.contains(x) <==> dom.insert(id).contains(x) by {
        crate::schedule::lemma_push_contains(order, id, x);
    }
}

/// A copy of a list of ids.
pub fn copy_ids(ids: &Vec<usize>) -> (copy: Vec<usize>)
    ensures
        copy@ == ids@,
{
    let mut copy: Vec<usize> = Vec::new();
    let n = ids.len();
    let mut k: usize = 0;
    while k < n
        invariant
            k <= n,
            n == ids@.len(),
            copy@ == ids@.take(k as int),
        decreases n - k,
    {
        copy.push(ids[k]);
        assert(ids@.take(k + 1) =~= ids@.take(k as int).push(ids@[k as int]));
        k += 1;
    }
    assert(ids@.take(n as int) =~= ids@);
    copy
}

/// The models of the nodes of a store, under the same ids.
pub open spec fn node_views(nodes: Map<usize, Node>) -> Map<usize, NodeView> {
    Map::new(|id: usize| nodes.contains_key(id), |id: usize| nodes[id]@)
}

/// The models of a sequence of nodes, in order.
pub open spec fn node_seq(nodes: Seq<Node>) -> Seq<NodeView> {
    nodes.map_values(|n: Node| n@)
}

impl Default for Workflow {
    /// The graph that a new workflow starts from.
    fn default() -> (graph: Workflow)
        ensures
            graph.wf(),
            graph@ == WorkflowView::bootstrap(),
    {
        let mut graph = Workflow::new();
        let prompt = graph.add_node(NodeType::Prompt {  }, 50, 100);
        let kind = NodeType::Model {
            provider: ProviderType::Ollama,
            model_name: String::new(),
            messages: Vec::new(),
            thinking: false,
        };
        assert(messages_view(Seq::<ChatMessage>::empty()) =~= Seq::empty());
        let model = graph.add_node(kind, 400, 100);
        let _ = graph.add_connection(prompt, model);
        graph
    }
}

impl View for Workflow {
    type V = WorkflowView;

    closed spec fn view(&self) -> WorkflowView {
        WorkflowView {
            nodes: node_views(self.nodes@),
            connections: self.connections@,
            next_node_id: self.next_node_id,
            next_connection_id: self.next_connection_id,
            selected_node_id: self.selected_node_id,
            dragging_node_id: self.dragging_node_id,
            drawing: self.drawing_connection_state,
        }
    }
}

impl Workflow {
    /// Whether the lists of ids list the ids of the stored nodes and connections.
    pub closed spec fn indexed(&self) -> bool {
        &&& lists(self.node_order@, self.nodes@.dom())
        &&& lists(self.connection_order@, self.connections@.dom())
    }

    /// Whether the lists of ids are as they should be but for the node `id`, which is
    /// listed while it is out of the store.
    pub closed spec fn lacks(&self, id: usize) -> bool {
        &&& !self.nodes@.contains_key(id)
        &&& lists(self.node_order@, self.nodes@.dom().insert(id))
        &&& lists(self.connection_order@, self.connections@.dom())
    }

    /// The invariant that every operation keeps: the graph is well formed, see
    /// [`WorkflowView::wf`], and its ids are listed.
    pub open spec fn wf(&self) -> bool {
        self@.wf() && self.indexed()
    }

    /// A graph without nodes or connections.
    pub fn new() -> (graph: Workflow)
        ensures
            graph.wf(),
            graph@ == WorkflowView::empty(),
    {
        let graph = Workflow {
            nodes: HashMap::new(),
            connections: HashMap::new(),
            next_node_id: 0,
            next_connection_id: 0,
            selected_node_id: None,
            dragging_node_id: None,
            drawing_connection_state: ConnectionDrawingState::default(),
            node_order: Vec::new(),
            connection_order: Vec::new(),
        };
        assert(graph@.nodes =~= Map::empty());
        graph
    }

    /// A graph made of the given parts, as they were read from a saved workflow. The
    /// parts are refused if they cannot be the parts of a graph: if two nodes or two
    /// connections share an id, if an id does not lie below its counter, if a node lies
    /// outside the world or has a negative extent, or if a connection joins a node to
    /// itself.
    pub fn from_parts(
        nodes: Vec<Node>,
        connections: Vec<Connection>,
        next_node_id: usize,
        next_connection_id: usize,
        selected_node_id: Option<usize>,
        dragging_node_id: Option<usize>,
        drawing_connection_state: ConnectionDrawingState,
    ) -> (r: Option<Workflow>)
        ensures
            r is Some <==> nodes_fit(node_seq(nodes@), next_node_id) && connections_fit(
                connections@,
                next_connection_id,
            ),
            match r {
                Some(graph) => graph.wf() && graph@ == (WorkflowView {
                    nodes: nodes_from(node_seq(nodes@)),
                    connections: connections_from(connections@),
                    next_node_id,
                    next_connection_id,
                    selected_node_id,
                    dragging_node_id,
                    drawing: drawing_connection_state,
                }),
                None => true,
            },
    {
        let ghost views = node_seq(nodes@);
        let mut held: HashMap<usize, Node> = HashMap::new();
        let mut node_order: Vec<usize> = Vec::new();
        let mut pending = nodes;
        let n = pending.len();
        let mut i: usize = n;
        assert(views.skip(n as int) =~= Seq::empty());
        assert(node_views(held@) =~= nodes_from(views.skip(n as int)));
        while i > 0
            invariant
                i <= n,
                n == views.len(),
                views == node_seq(nodes@),
                pending@.len() == i,
                node_seq(pending@) == views.take(i as int),
                node_views(held@) == nodes_from(views.skip(i as int)),
                nodes_fit(views.skip(i as int), next_node_id),
                lists(node_order@, held@.dom()),
            decreases i,
        {
            let ghost done = views.skip(i as int);
            let ghost more = views.skip(i - 1);
            let ghost waiting = pending@;
            let node = match pending.pop() {
                Some(node) => node,
                None => { return None; },
            };
            proof {
                assert(node_seq(waiting)[i - 1] == waiting[i - 1]@);
                assert(views.take(i as int)[i - 1] == views[i - 1]);
                assert(more[0] == node@);
                assert(more.drop_first() =~= done);
                assert(node_seq(pending@) =~= views.take(i - 1));
                lemma_nodes_from(done);
            }
            let ok = node.id < next_node_id && coord_in_world(node.position_x) && coord_in_world(
                node.position_y,
            ) && 0 <= node.width && node.width <= crate::nodes::COORD_MAX && 0 <= node.height
                && node.height <= crate::nodes::COORD_MAX && !held.contains_key(&node.id);
            if !ok {
                proof {
                    if nodes_fit(views, next_node_id) {
                        assert(views[i - 1].wf());
                        if held@.contains_key(node.id) {
                            assert(node_views(held@).contains_key(node.id));
                            assert(nodes_from(done).contains_key(node.id));
                            let j = choose|j: int| 0 <= j < done.len() && done[j].id == node.id;
                            assert(done[j] == views[i + j]);
                            assert(views[i - 1].id != views[i + j].id);
                        }
                    }
                }
                return None;
            }
            proof {
                assert(!node_views(held@).contains_key(node.id));
                assert(!nodes_from(done).contains_key(node.id));
                assert forall|a: int, b: int| 0 <= a < b < more.len() implies more[a].id
                    != more[b].id by {
                    if a == 0 {
                        assert(done[b - 1].id == more[b].id);
                    } else {
                        assert(done[a - 1].id != done[b - 1].id);
                    }
                }
                assert forall|a: int| 0 <= a < more.len() implies (#[trigger] more[a]).id
                    < next_node_id && more[a].wf() by {
                    if a > 0 {
                        assert(more[a] == done[a - 1]);
                    }
                }
            }
            let id = node.id;
            insert_id(&mut node_order, id);
            held.insert(id, node);
            assert(node_views(held@) =~= nodes_from(more));
            i -= 1;
        }
        proof {
            assert(views.skip(0) =~= views);
            lemma_nodes_from(views);
        }
        let mut links: HashMap<usize, Connection> = HashMap::new();
        let mut connection_order: Vec<usize> = Vec::new();
        let m = connections.len();
        let mut k: usize = m;
        assert(connections@.skip(m as int) =~= Seq::empty());
        while k > 0
            invariant
                k <= m,
                m == connections@.len(),
                links@ == connections_from(connections@.skip(k as int)),
                connections_fit(connections@.skip(k as int), next_connection_id),
                lists(connection_order@, links@.dom()),
            decreases k,
        {
            let ghost done = connections@.skip(k as int);
            let ghost more = connections@.skip(k - 1);
            let c = connections[k - 1];
            proof {
                assert(more[0] == c);
                assert(more.drop_first() =~= done);
                lemma_connections_from(done);
            }
            let ok = c.id < next_connection_id && c.from_node_id != c.to_node_id
                && !links.contains_key(&c.id);
            if !ok {
                proof {
                    if connections_fit(connections@, next_connection_id) {
                        if links@.contains_key(c.id) {
                            assert(connections_from(done).contains_key(c.id));
                            let j = choose|j: int| 0 <= j < done.len() && done[j].id == c.id;
                            assert(done[j] == connections@[k + j]);
                            assert(connections@[k - 1].id != connections@[k + j].id);
                        }
                    }
                }
                return None;
            }
            proof {
                assert(!connections_from(done).contains_key(c.id));
                assert forall|a: int, b: int| 0 <= a < b < more.len() implies more[a].id
                    != more[b].id by {
                    if a == 0 {
                        assert(done[b - 1].id == more[b].id);
                    } else {
                        assert(done[a - 1].id != done[b - 1].id);
                    }
                }
                assert forall|a: int| 0 <= a < more.len() implies (#[trigger] more[a]).id
                    < next_connection_id && more[a].from_node_id != more[a].to_node_id by {
                    if a > 0 {
                        assert(more[a] == done[a - 1]);
                    }
                }
            }
            insert_id(&mut connection_order, c.id);
            links.insert(c.id, c);
            k -= 1;
        }
        proof {
            assert(connections@.skip(0) =~= connections@);
            lemma_connections_from(connections@);
        }
        let graph = Workflow {
            nodes: held,
            connections: links,
            next_node_id,
            next_connection_id,
            selected_node_id,
            dragging_node_id,
            drawing_connection_state,
            node_order,
            connection_order,
        };
        Some(graph)
    }

    /// The ids of the nodes, in ascending order.
    pub fn node_ids(&self) -> (ids: Vec<usize>)
        requires
            self.wf(),
        ensures
            ids@ == self@.node_ids(),
    {
        proof {
            assert(self@.nodes.dom() =~= self.nodes@.dom());
            lemma_ascending_unique(
                self.node_order@,
                self@.nodes.dom(),
                self@.next_node_id as nat,
            );
        }
        copy_ids(&self.node_order)
    }

    /// The ids of the connections, in ascending order.
    pub fn connection_ids(&self) -> (ids: Vec<usize>)
        requires
            self.wf(),
        ensures
            ids@ == self@.connection_ids(),
    {
        proof {
            lemma_ascending_unique(
                self.connection_order@,
                self@.connections.dom(),
                self@.next_connection_id as nat,
            );
        }
        copy_ids(&self.connection_order)
    }

    /// The connections, in the order of their ids.
    pub fn connection_list(&self) -> (list: Vec<Connection>)
        requires
            self.wf(),
        ensures
            list@ == self@.connection_list(),
    {
        let ids = self.connection_ids();
        let mut list: Vec<Connection> = Vec::new();
        let n = ids.len();
        let mut k: usize = 0;
        let ghost dom = self@.connections.dom();
        let ghost bound = self@.next_connection_id as nat;
        proof {
            lemma_no_id_between(dom, bound, 0);
            lemma_connections_gap(self@.connections, 0, bound_at(ids@, 0, bound));
        }
        while k < n
            invariant
                k <= n,
                n == ids@.len(),
                ids@ == ids_upto(dom, bound),
                dom == self@.connections.dom(),
                bound == self@.next_connection_id,
                list@ == connections_upto(self@.connections, bound_at(ids@, k as int, bound)),
            decreases n - k,
        {
            let id = ids[k];
            proof {
                lemma_no_id_between(dom, bound, k as int);
                lemma_no_id_between(dom, bound, k + 1);
                lemma_connections_gap(self@.connections, (id + 1) as nat, bound_at(ids@, k + 1, bound));
            }
            if let Some(c) = self.connections.get(&id) {
                list.push(*c);
            }
            k += 1;
        }
        list
    }

    /// Stores `node`, which was taken out of the store, under its id again.
    pub(crate) fn put_node(&mut self, node: Node)
        requires
            old(self).lacks(node.id),
        ensures
            final(self).indexed(),
            final(self)@ == old(self)@.with_node(node.id, node@),
    {
        let id = node.id;
        self.nodes.insert(id, node);
        assert(self@.nodes =~= old(self)@.nodes.insert(id, node@));
        assert(self.nodes@.dom() =~= old(self).nodes@.dom().insert(id));
    }

    /// Takes the node `id` out of the store, if it is there. The caller puts it back.
    pub(crate) fn take_node(&mut self, id: usize) -> (taken: Option<Node>)
        requires
            old(self).indexed(),
        ensures
            match taken {
                Some(node) => old(self)@.nodes.contains_key(id) && node@ == old(self)@.nodes[id]
                    && final(self).lacks(id),
                None => !old(self)@.nodes.contains_key(id) && final(self).indexed(),
            },
            final(self)@ == (WorkflowView { nodes: old(self)@.nodes.remove(id), ..old(self)@ }),
    {
        let taken = self.nodes.remove(&id);
        assert(self@.nodes =~= old(self)@.nodes.remove(id));
        proof {
            if taken is Some {
                assert(self.nodes@.dom().insert(id) =~= old(self).nodes@.dom());
            } else {
                assert(self.nodes@.dom() =~= old(self).nodes@.dom());
            }
        }
        taken
    }

    /// Places a node of the kind of `node_type` at `(position_x, position_y)` and returns
    /// its id.
    pub fn add_node(&mut self, node_type: NodeType, position_x: i64, position_y: i64) -> (id: usize)
        requires
            old(self).wf(),
            old(self)@.next_node_id < usize::MAX,
            in_world(position_x),
            in_world(position_y),
        ensures
            final(self).wf(),
            id == old(self)@.next_node_id,
            final(self)@ == old(self)@.add_node(node_type@, position_x, position_y),
    {
        let id = self.next_node_id;
        let node = Node::new(id, &node_type, position_x, position_y);
        self.nodes.insert(id, node);
        self.node_order.push(id);
        self.next_node_id = id + 1;
        proof {
            assert(self@.nodes =~= old(self)@.nodes.insert(id, node@));
            assert forall|x: usize| old(self).nodes@.dom().contains(x) implies x < id by {
                assert(old(self)@.nodes.contains_key(x));
            }
            lemma_pushed_id(old(self).node_order@, old(self).nodes@.dom(), id);
            assert(self.nodes@.dom() =~= old(self).nodes@.dom().insert(id));
        }
        id
    }

    /// Connects `from_node_id` to `to_node_id` and returns the id of the connection. The
    /// target's input is recomputed and the target is marked as needing execution. A
    /// connection from a node to itself is refused and leaves the graph as it was.
    pub fn add_connection(&mut self, from_node_id: usize, to_node_id: usize) -> (r: Result<
        usize,
        WorkflowError,
    >)
        requires
            old(self).wf(),
            from_node_id != to_node_id ==> old(self)@.next_connection_id < usize::MAX,
        ensures
            final(self).wf(),
            from_node_id == to_node_id ==> r == Err::<usize, WorkflowError>(
                WorkflowError::SelfConnection,
            ) && final(self)@ == old(self)@,
            from_node_id != to_node_id ==> r == Ok::<usize, WorkflowError>(
                old(self)@.next_connection_id,
            ) && final(self)@ == old(self)@.connect(from_node_id, to_node_id),
    {
        if from_node_id == to_node_id {
            return Err(WorkflowError::SelfConnection);
        }
        let conn_id = self.next_connection_id;
        self.connections.insert(conn_id, Connection { id: conn_id, from_node_id, to_node_id });
        self.connection_order.push(conn_id);
        self.next_connection_id = conn_id + 1;
        proof {
            assert(self@ == old(self)@.link(from_node_id, to_node_id));
            assert forall|x: usize| old(self).connections@.dom().contains(x) implies x
                < conn_id by {
                assert(old(self)@.connections.contains_key(x));
            }
            lemma_pushed_id(old(self).connection_order@, old(self).connections@.dom(), conn_id);
            assert(self.connections@.dom() =~= old(self).connections@.dom().insert(conn_id));
        }
        self.refresh_node(to_node_id);
        Ok(conn_id)
    }

    /// Removes the node `id` and every connection that touches it. A selection or drag
    /// of the node is dropped, and a connection being drawn from it is cancelled.
    pub fn remove_node(&mut self, id: usize)
        requires
            old(self).wf(),
        ensures
            final(self).wf(),
            final(self)@ == old(self)@.remove_node(id),
    {
        self.nodes.remove(&id);
        remove_id(&mut self.node_order, id);
        assert(self@.nodes =~= old(self)@.nodes.remove(id));
        assert(self.nodes@.dom() =~= old(self).nodes@.dom().remove(id));
        let ghost order = self.connection_order@;
        let mut kept: Vec<usize> = Vec::new();
        let n = self.connection_order.len();
        let mut k: usize = 0;
        while k < n
            invariant
                k <= n,
                n == order.len(),
                order == self.connection_order@,
                order == old(self).connection_order@,
                old(self).wf(),
                lists(self.node_order@, self.nodes@.dom()),
                self@ == (WorkflowView {
                    nodes: old(self)@.nodes.remove(id),
                    connections: self@.connections,
                    ..old(self)@
                }),
                forall|c: usize| #[trigger]
                    self@.connections.contains_key(c) == (old(self)@.connections.contains_key(c)
                        && !(listed_before(order, k as int, c) && old(self)@.connections[c].touches(
                        id,
                    ))),
                forall|c: usize| #[trigger]
                    self@.connections.contains_key(c) ==> self@.connections[c]
                        == old(self)@.connections[c],
                ascending(kept@),
                forall|c: usize| #[trigger]
                    kept@.contains(c) <==> listed_before(order, k as int, c) && !old(
                        self,
                    )@.connections[c].touches(id),
            decreases n - k,
        {
            let cid = self.connection_order[k];
            let ghost held = kept@;
            proof {
                assert(order.contains(cid));
                assert(listed_before(order, k + 1, cid));
                assert(!listed_before(order, k as int, cid)) by {
                    if listed_before(order, k as int, cid) {
                        let j = choose|j: int| 0 <= j < k && order[j] == cid;
                        assert(order[j] < order[k as int]);
                    }
                }
                assert forall|c: usize| listed_before(order, k + 1, c) == (listed_before(
                    order,
                    k as int,
                    c,
                ) || c == cid) by {
                    if listed_before(order, k + 1, c) {
                        let j = choose|j: int| 0 <= j < k + 1 && order[j] == c;
                        if j < k {
                            assert(listed_before(order, k as int, c));
                        }
                    }
                    if listed_before(order, k as int, c) {
                        let j = choose|j: int| 0 <= j < k && order[j] == c;
                        assert(0 <= j < k + 1 && order[j] == c);
                    }
                }
            }
            proof {
                assert(old(self).connections@.dom().contains(cid));
                assert(old(self)@.connections.contains_key(cid));
                assert(self@.connections.contains_key(cid));
            }
            let ghost stored = self@.connections;
            let touches = match self.connections.get(&cid) {
                Some(c) => c.from_node_id == id || c.to_node_id == id,
                None => false,
            };
            assert(touches == old(self)@.connections[cid].touches(id));
            if touches {
                self.connections.remove(&cid);
                assert(self@.connections =~= stored.remove(cid));
            } else {
                kept.push(cid);
                proof {
                    assert forall|i: int, j: int| 0 <= i < j < kept@.len() implies kept@[i]
                        < kept@[j] by {
                        if j == held.len() {
                            assert(held.contains(held[i]));
                            let m = choose|m: int| 0 <= m < k && order[m] == held[i];
                            assert(order[m] < order[k as int]);
                        }
                    }
                    assert forall|c: usize| #[trigger]
                        kept@.contains(c) <==> held.contains(c) || c == cid by {
                        crate::schedule::lemma_push_contains(held, cid, c);
                    }
                }
            }
            proof {
                assert forall|c: usize| #[trigger]
                    self@.connections.contains_key(c) == (old(self)@.connections.contains_key(c)
                        && !(listed_before(order, k + 1, c) && old(self)@.connections[c].touches(
                        id,
                    ))) by {
                    assert(stored.contains_key(c) == (old(self)@.connections.contains_key(c)
                        && !(listed_before(order, k as int, c) && old(self)@.connections[c].touches(
                        id,
                    ))));
                    assert(listed_before(order, k + 1, c) == (listed_before(order, k as int, c)
                        || c == cid));
                }
            }
            k += 1;
        }
        self.connection_order = kept;
        proof {
            assert forall|c: usize| old(self)@.connections.contains_key(c) implies listed_before(
                order,
                n as int,
                c,
            ) by {
                assert(order.contains(c));
                let j = choose|j: int| 0 <= j < order.len() && order[j] == c;
                assert(0 <= j < n && order[j] == c);
            }
            assert forall|c: usize|
                self@.connections.contains_key(c) == old(self)@.connections_apart_from(
                    id,
                ).contains_key(c) by {}
            assert(self@.connections =~= old(self)@.connections_apart_from(id));
            assert forall|c: usize| #[trigger]
                kept@.contains(c) <==> self.connections@.dom().contains(c) by {
                if kept@.contains(c) {
                    let j = choose|j: int| 0 <= j < n && order[j] == c;
                    assert(order.contains(c));
                }
            }
        }
        if self.selected_node_id == Some(id) {
            self.selected_node_id = None;
        }
        if self.dragging_node_id == Some(id) {
            self.dragging_node_id = None;
        }
        if self.drawing_connection_state.active && self.drawing_connection_state.source_node_id
            == id {
            self.cancel_drawing_connection();
        }
    }

    /// The connection into `target_node_id` with the lowest id.
    pub fn find_connection_into(&self, target_node_id: usize) -> (found: Option<usize>)
        requires
            self.wf(),
        ensures
            found == self@.first_into(target_node_id),
    {
        let ghost dom = self@.connections.dom();
        let ghost bound = self@.next_connection_id as nat;
        let ghost ids = self.connection_order@;
        proof {
            lemma_ascending_unique(ids, dom, bound);
            lemma_no_id_between(dom, bound, 0);
            lemma_first_into_gap(self@, target_node_id, 0, bound_at(ids, 0, bound));
        }
        let n = self.connection_order.len();
        let mut k: usize = 0;
        while k < n
            invariant
                k <= n,
                n == ids.len(),
                ids == self.connection_order@,
                ids == ids_upto(dom, bound),
                dom == self@.connections.dom(),
                bound == self@.next_connection_id,
                self@.first_into(target_node_id) == self@.first_into_from(
                    target_node_id,
                    bound_at(ids, k as int, bound),
                ),
            decreases n - k,
        {
            let cid = self.connection_order[k];
            proof {
                lemma_no_id_between(dom, bound, k as int);
                lemma_no_id_between(dom, bound, k + 1);
                lemma_first_into_gap(
                    self@,
                    target_node_id,
                    (cid + 1) as nat,
                    bound_at(ids, k + 1, bound),
                );
            }
            if let Some(c) = self.connections.get(&cid) {
                if c.to_node_id == target_node_id {
                    return Some(cid);
                }
            }
            k += 1;
        }
        None
    }

    /// Removes the connection into `target_node_id` with the lowest id and clears the
    /// node's input. Nothing changes if no connection ends at the node.
    pub fn remove_connection_by_target_node(&mut self, target_node_id: usize)
        requires
            old(self).wf(),
        ensures
            final(self).wf(),
            final(self)@ == old(self)@.detach(target_node_id),
    {
        if let Some(cid) = self.find_connection_into(target_node_id) {
            self.connections.remove(&cid);
            remove_id(&mut self.connection_order, cid);
            assert(self.connections@.dom() =~= old(self).connections@.dom().remove(cid));
            if let Some(mut node) = self.take_node(target_node_id) {
                node.input = None;
                self.put_node(node);
                assert(self@.nodes =~= old(self)@.detach(target_node_id).nodes);
            } else {
                assert(self@.nodes =~= old(self)@.nodes);
            }
        }
    }

    /// Begins a drag of the node `node_id` with the pointer at the world point
    /// `(mouse_x, mouse_y)`. Nothing changes if there is no such node.
    pub fn start_dragging_node(&mut self, node_id: usize, mouse_x: i64, mouse_y: i64)
        requires
            old(self).wf(),
            in_world(mouse_x),
            in_world(mouse_y),
        ensures
            final(self).wf(),
            final(self)@ == old(self)@.start_dragging(node_id, mouse_x, mouse_y),
    {
        if let Some(mut node) = self.take_node(node_id) {
            self.dragging_node_id = Some(node_id);
            node.drag_offset_x = mouse_x - node.position_x;
            node.drag_offset_y = mouse_y - node.position_y;
            self.put_node(node);
            assert(self@.nodes =~= old(self)@.start_dragging(node_id, mouse_x, mouse_y).nodes);
        } else {
            assert(self@.nodes =~= old(self)@.nodes);
        }
    }

    /// Whether a pointer move to `(mouse_x, mouse_y)` keeps the dragged node in the world.
    pub fn drag_stays_in_world(&self, mouse_x: i64, mouse_y: i64) -> (fits: bool)
        ensures
            fits == self@.drag_fits(mouse_x, mouse_y),
    {
        match self.dragging_node_id {
            Some(id) => match self.nodes.get(&id) {
                Some(node) => {
                    let x = mouse_x as i128 - node.drag_offset_x as i128;
                    let y = mouse_y as i128 - node.drag_offset_y as i128;
                    -(crate::nodes::COORD_MAX as i128) <= x && x <= crate::nodes::COORD_MAX as i128
                        && -(crate::nodes::COORD_MAX as i128) <= y && y
                        <= crate::nodes::COORD_MAX as i128
                },
                None => true,
            },
            None => true,
        }
    }

    /// Moves the dragged node so that it follows the pointer, now at the world point
    /// `(mouse_x, mouse_y)`, at the distance at which it was grabbed. Nothing changes if
    /// no node is being dragged.
    pub fn drag_node(&mut self, mouse_x: i64, mouse_y: i64)
        requires
            old(self).wf(),
            old(self)@.drag_fits(mouse_x, mouse_y),
        ensures
            final(self).wf(),
            final(self)@ == old(self)@.drag(mouse_x, mouse_y),
    {
        if let Some(node_id) = self.dragging_node_id {
            if let Some(mut node) = self.take_node(node_id) {
                node.position_x = mouse_x - node.drag_offset_x;
                node.position_y = mouse_y - node.drag_offset_y;
                self.put_node(node);
                assert(self@.nodes =~= old(self)@.drag(mouse_x, mouse_y).nodes);
            } else {
                assert(self@.nodes =~= old(self)@.nodes);
            }
        }
    }

    /// Ends a drag. The nodes fed by the released node get their inputs recomputed,
    /// because the node's position decides its place among their inputs.
    pub fn end_dragging_node(&mut self)
        requires
            old(self).wf(),
        ensures
            final(self).wf(),
            final(self)@ == old(self)@.end_dragging(),
    {
        if let Some(dragged) = self.dragging_node_id {
            self.dragging_node_id = None;
            self.propagate_output_to_connected_nodes(dragged);
        }
    }

    /// Begins drawing a connection from the node `source_node_id`, anchored at the world
    /// point `(port_x, port_y)`. Nothing changes if there is no such node.
    pub fn start_drawing_connection(&mut self, source_node_id: usize, port_x: i64, port_y: i64)
        ensures
            final(self)@ == old(self)@.start_drawing(source_node_id, port_x, port_y),
            old(self).indexed() ==> final(self).indexed(),
    {
        if self.nodes.contains_key(&source_node_id) {
            self.drawing_connection_state = ConnectionDrawingState {
                active: true,
                source_node_id,
                source_port_world_pos: (port_x, port_y),
                current_mouse_world_pos: (port_x, port_y),
                target_node_id: None,
            };
        }
    }

    /// Begins drawing a connection from the output port of the node `source_node_id`.
    /// Nothing changes if there is no such node.
    pub fn start_drawing_from_port(&mut self, source_node_id: usize)
        requires
            old(self).wf(),
        ensures
            final(self).wf(),
            final(self)@ == old(self)@.start_drawing_at_port(source_node_id),
    {
        let port = match self.nodes.get(&source_node_id) {
            Some(node) => get_port_world_pos(node, Port::Output),
            None => { return ; },
        };
        self.start_drawing_connection(source_node_id, port.0, port.1);
    }

    /// Begins a drag at the input port of `target_node_id`: the connection into it with
    /// the lowest id is detached and drawn anew from its source.
    pub fn redirect_connection(&mut self, target_node_id: usize)
        requires
            old(self).wf(),
        ensures
            final(self).wf(),
            final(self)@ == old(self)@.redirect(target_node_id),
    {
        let cid = match self.find_connection_into(target_node_id) {
            Some(cid) => cid,
            None => { return ; },
        };
        proof {
            crate::model::lemma_first_into(self@, target_node_id, 0);
        }
        let source_node_id = match self.connections.get(&cid) {
            Some(c) => c.from_node_id,
            None => { return ; },
        };
        let mouse = if self.drawing_connection_state.active {
            self.drawing_connection_state.current_mouse_world_pos
        } else {
            match self.nodes.get(&target_node_id) {
                Some(target) => get_port_world_pos(target, Port::Input),
                None => (0, 0),
            }
        };
        let anchor = match self.nodes.get(&source_node_id) {
            Some(source) => get_port_world_pos(source, Port::Output),
            None => { return ; },
        };
        self.drawing_connection_state = ConnectionDrawingState {
            active: true,
            source_node_id,
            source_port_world_pos: anchor,
            current_mouse_world_pos: mouse,
            target_node_id: None,
        };
        self.remove_connection_by_target_node(target_node_id);
    }

    /// Moves the free end of the connection being drawn to the world point
    /// `(mouse_x, mouse_y)`. Nothing changes while no connection is being drawn.
    pub fn update_drawing_connection(&mut self, mouse_x: i64, mouse_y: i64)
        ensures
            final(self)@ == old(self)@.update_drawing(mouse_x, mouse_y),
            old(self).indexed() ==> final(self).indexed(),
    {
        if self.drawing_connection_state.active {
            self.drawing_connection_state.current_mouse_world_pos = (mouse_x, mouse_y);
        }
    }

    /// Records that the node `node_id` has produced `new_output` and propagates the
    /// output one hop.
    pub fn update_node_output(&mut self, node_id: usize, new_output: String)
        requires
            old(self).wf(),
        ensures
            final(self).wf(),
            final(self)@ == old(self)@.update_node_output(node_id, new_output@),
    {
        if let Some(mut node) = self.take_node(node_id) {
            node.output = Some(new_output);
            node.needs_execution = false;
            self.put_node(node);
            assert(self@.nodes =~= old(self)@.set_output(node_id, new_output@).nodes);
        } else {
            assert(self@.nodes =~= old(self)@.nodes);
        }
        self.propagate_output_to_connected_nodes(node_id);
    }

    /// Ends the drawing of a connection when the pointer is released. Without a hovered
    /// target the drawing is cancelled; with one, the source is connected to it. The
    /// machine is idle afterwards whatever the outcome.
    pub fn complete_drawing_connection(&mut self) -> (r: Result<usize, WorkflowError>)
        requires
            old(self).wf(),
            old(self)@.complete_drawing_result() is Ok ==> old(self)@.next_connection_id
                < usize::MAX,
        ensures
            final(self).wf(),
            final(self)@ == old(self)@.complete_drawing(),
            r == old(self)@.complete_drawing_result(),
    {
        let source = self.drawing_connection_state.source_node_id;
        let target = match self.drawing_connection_state.target_node_id {
            Some(id) => id,
            None => {
                self.cancel_drawing_connection();
                return Err(WorkflowError::NoTarget);
            },
        };
        let result = if self.nodes.contains_key(&source) {
            self.add_connection(source, target)
        } else {
            Err(WorkflowError::SourceMissing)
        };
        self.cancel_drawing_connection();
        result
    }

    /// Puts the connection drawing machine back into its idle state.
    pub fn cancel_drawing_connection(&mut self)
        ensures
            final(self)@ == old(self)@.cancel_drawing(),
            old(self).indexed() ==> final(self).indexed(),
    {
        self.drawing_connection_state = ConnectionDrawingState::default();
    }

    /// Makes the node `target_id` the hovered target of the connection being drawn,
    /// unless it is the node the connection starts from.
    pub fn set_connection_target(&mut self, target_id: usize)
        ensures
            final(self)@ == old(self)@.set_target(target_id),
            old(self).indexed() ==> final(self).indexed(),
    {
        if self.drawing_connection_state.source_node_id != target_id {
            self.drawing_connection_state.target_node_id = Some(target_id);
        }
    }

    /// Forgets the hovered target of the connection being drawn.
    pub fn clear_connection_target(&mut self)
        ensures
            final(self)@ == old(self)@.clear_target(),
            old(self).indexed() ==> final(self).indexed(),
    {
        self.drawing_connection_state.target_node_id = None;
    }

    /// Selects the node `id`.
    pub fn select_node(&mut self, id: usize)
        ensures
            final(self)@ == (WorkflowView { selected_node_id: Some(id), ..old(self)@ }),
            old(self).indexed() ==> final(self).indexed(),
    {
        self.selected_node_id = Some(id);
    }

    /// The node stored under `id`.
    pub fn node(&self, id: usize) -> (found: Option<&Node>)
        ensures
            match found {
                Some(node) => self@.nodes.contains_key(id) && node@ == self@.nodes[id],
                None => !self@.nodes.contains_key(id),
            },
    {
        self.nodes.get(&id)
    }

    /// The connection stored under `id`.
    pub fn connection(&self, id: usize) -> (found: Option<Connection>)
        ensures
            match found {
                Some(c) => self@.connections.contains_key(id) && c == self@.connections[id],
                None => !self@.connections.contains_key(id),
            },
    {
        match self.connections.get(&id) {
            Some(c) => Some(*c),
            None => None,
        }
    }

    /// The id that the next node will get.
    pub fn next_node_id(&self) -> (id: usize)
        ensures
            id == self@.next_node_id,
    {
        self.next_node_id
    }

    /// The id that the next connection will get.
    pub fn next_connection_id(&self) -> (id: usize)
        ensures
            id == self@.next_connection_id,
    {
        self.next_connection_id
    }

    /// The selected node, if any.
    pub fn selected_node_id(&self) -> (id: Option<usize>)
        ensures
            id == self@.selected_node_id,
    {
        self.selected_node_id
    }

    /// The node being dragged, if any.
    pub fn dragging_node_id(&self) -> (id: Option<usize>)
        ensures
            id == self@.dragging_node_id,
    {
        self.dragging_node_id
    }

    /// The state of the connection being drawn.
    pub fn drawing_connection_state(&self) -> (state: ConnectionDrawingState)
        ensures
            state == self@.drawing,
    {
        self.drawing_connection_state
    }
}

} // verus!
