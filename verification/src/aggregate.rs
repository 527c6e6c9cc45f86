//! Aggregation of a node's input from the outputs of the nodes connected into it.
//!
//! The sources of a target are ordered by their position on the canvas, top to bottom and,
//! at the same height, left to right. Sources at the same position keep the order in
//! which their connections were made.

use crate::connections::Connection;
use crate::model::{bound_at, ids_upto, lemma_no_id_between, WorkflowView};
use crate::nodes::{NodeTypeView, NodeView, ProviderType};
use crate::text::{joined, separator};
use crate::workflow::{Workflow, WorkflowError};
use vstd::prelude::*;
use vstd::string::StringExecFns;

verus! {

broadcast use vstd::std_specs::hash::group_hash_axioms;

/// A node that feeds a target, with the position that decides its place among the inputs.
#[derive(Clone, Copy, Debug, PartialEq, Eq, Structural)]
pub struct Source {
    pub node_id: usize,
    pub y: i64,
    pub x: i64,
}

/// Whether `a` comes strictly before `b`: it lies higher, or at the same height and
/// further left.
pub open spec fn above(a: Source, b: Source) -> bool {
    a.y < b.y || (a.y == b.y && a.x < b.x)
}

/// `sorted` with `s` put behind the last source that `s` does not come before.
pub open spec fn insert_source(sorted: Seq<Source>, s: Source) -> Seq<Source>
    decreases sorted.len(),
{
    if sorted.len() > 0 && above(s, sorted.last()) {
        insert_source(sorted.drop_last(), s).push(sorted.last())
    } else {
        sorted.push(s)
    }
}

/// The sources in canvas order; sources at the same position keep their order.
pub open spec fn ordered(sources: Seq<Source>) -> Seq<Source>
    decreases sources.len(),
{
    if sources.len() == 0 {
        Seq::empty()
    } else {
        insert_source(ordered(sources.drop_last()), sources.last())
    }
}

/// No source of `s` comes strictly before an earlier one.
pub open spec fn in_canvas_order(s: Seq<Source>) -> bool {
    forall|i: int, j: int| 0 <= i < j < s.len() ==> !above(s[j], s[i])
}

/// Place of the first source with the given node id, counted from zero.
pub open spec fn place_of(sources: Seq<Source>, node_id: usize) -> Option<nat>
    decreases sources.len(),
{
    if sources.len() == 0 {
        None
    } else {
        match place_of(sources.drop_last(), node_id) {
            Some(k) => Some(k),
            None => if sources.last().node_id == node_id {
                Some((sources.len() - 1) as nat)
            } else {
                None
            },
        }
    }
}

impl WorkflowView {
    /// Whether the connection `cid` contributes a source to `target`: it ends at the
    /// target and its source node is present and, where an output is asked for, has one.
    pub open spec fn contributes(self, cid: usize, target: usize, with_output: bool) -> bool {
        &&& self.connections.contains_key(cid)
        &&& self.connections[cid].to_node_id == target
        &&& self.nodes.contains_key(self.connections[cid].from_node_id)
        &&& with_output ==> self.nodes[self.connections[cid].from_node_id].output is Some
    }

    /// The source that the connection `cid` contributes.
    pub open spec fn source_of(self, cid: usize) -> Source {
        let from = self.connections[cid].from_node_id;
        Source { node_id: from, y: self.nodes[from].position_y, x: self.nodes[from].position_x }
    }

    /// The sources contributed to `target` by the connections with an id below `n`, in
    /// the order of the connection ids.
    pub open spec fn feeding_upto(self, target: usize, with_output: bool, n: nat) -> Seq<Source>
        decreases n,
    {
        if n == 0 {
            Seq::empty()
        } else {
            let earlier = self.feeding_upto(target, with_output, (n - 1) as nat);
            if self.contributes((n - 1) as usize, target, with_output) {
                earlier.push(self.source_of((n - 1) as usize))
            } else {
                earlier
            }
        }
    }

    /// The sources of `target`, one for each connection into it, in the order of the
    /// connection ids.
    pub open spec fn feeding(self, target: usize, with_output: bool) -> Seq<Source> {
        self.feeding_upto(target, with_output, self.next_connection_id as nat)
    }

    /// The outputs of the given sources.
    pub open spec fn outputs_of(self, sources: Seq<Source>) -> Seq<Seq<char>> {
        sources.map_values(|s: Source| self.nodes[s.node_id].output->0)
    }

    /// The input of `target`: the outputs of its sources that have one, in canvas order,
    /// separated by blank lines. A target without such a source has no input.
    pub open spec fn aggregated_input(self, target: usize) -> Option<Seq<char>> {
        let sources = ordered(self.feeding(target, true));
        if sources.len() == 0 {
            None
        } else {
            Some(joined(self.outputs_of(sources)))
        }
    }

    /// The 1-based rank of the node `node_id` among the sources of `target` in canvas
    /// order, given only where the target has more than one source.
    pub open spec fn input_order_number(self, node_id: usize, target: usize) -> Option<nat> {
        let sources = self.feeding(target, false);
        if sources.len() <= 1 {
            None
        } else {
            match place_of(ordered(sources), node_id) {
                Some(k) => Some(k + 1),
                None => None,
            }
        }
    }

    /// The graph after the input of `target` has been recomputed. Nothing changes if
    /// there is no such node.
    pub open spec fn recompute_input(self, target: usize) -> WorkflowView {
        if self.nodes.contains_key(target) {
            self.with_node(
                target,
                NodeView { input: self.aggregated_input(target), ..self.nodes[target] },
            )
        } else {
            self
        }
    }

    /// Whether a connection leads from `source` to `target`.
    pub open spec fn feeds(self, source: usize, target: usize) -> bool {
        exists|cid: usize| self.leads(cid, source, target)
    }

    /// Whether the connection `cid` leads from `source` to `target`.
    pub open spec fn leads(self, cid: usize, source: usize, target: usize) -> bool {
        &&& self.connections.contains_key(cid)
        &&& self.connections[cid].from_node_id == source
        &&& self.connections[cid].to_node_id == target
    }

    /// Whether a connection with an id below `n` leads from `source` to `target`.
    pub open spec fn fed_below(self, source: usize, target: usize, n: nat) -> bool {
        exists|cid: usize| cid < n && self.leads(cid, source, target)
    }

    /// The node `id` with its input recomputed and marked as needing execution.
    pub open spec fn refreshed(self, id: usize) -> NodeView {
        NodeView { input: self.aggregated_input(id), needs_execution: true, ..self.nodes[id] }
    }

    /// The graph after the node `id`, if present, has been refreshed.
    pub open spec fn refresh(self, id: usize) -> WorkflowView {
        if self.nodes.contains_key(id) {
            self.with_node(id, self.refreshed(id))
        } else {
            self
        }
    }

    /// The graph after the targets of the connections from `source` with an id below `n`
    /// have been refreshed.
    pub open spec fn propagate_upto(self, source: usize, n: nat) -> WorkflowView {
        WorkflowView {
            nodes: Map::new(
                |id: usize| self.nodes.contains_key(id),
                |id: usize|
                    if self.fed_below(source, id, n) {
                        self.refreshed(id)
                    } else {
                        self.nodes[id]
                    },
            ),
            ..self
        }
    }

    /// One hop of propagation: every node that `source` feeds directly gets its input
    /// recomputed and is marked as needing execution. No other node changes.
    pub open spec fn propagate(self, source: usize) -> WorkflowView {
        WorkflowView {
            nodes: Map::new(
                |id: usize| self.nodes.contains_key(id),
                |id: usize|
                    if self.feeds(source, id) {
                        self.refreshed(id)
                    } else {
                        self.nodes[id]
                    },
            ),
            ..self
        }
    }

    /// The graph with a new connection from `from` to `to` stored under the next
    /// connection id.
    pub open spec fn link(self, from: usize, to: usize) -> WorkflowView {
        WorkflowView {
            connections: self.connections.insert(
                self.next_connection_id,
                Connection {
                    id: self.next_connection_id,
                    from_node_id: from,
                    to_node_id: to,
                },
            ),
            next_connection_id: (self.next_connection_id + 1) as usize,
            ..self
        }
    }

    /// The graph after `from` has been connected to `to`: the connection is stored, and
    /// the target, if present, is refreshed with the new connection counted in.
    pub open spec fn connect(self, from: usize, to: usize) -> WorkflowView {
        self.link(from, to).refresh(to)
    }

    /// The graph after the node `id`, if present, has produced `text`: the text is its
    /// output and the node no longer needs execution.
    pub open spec fn set_output(self, id: usize, text: Seq<char>) -> WorkflowView {
        if self.nodes.contains_key(id) {
            self.with_node(
                id,
                NodeView { output: Some(text), needs_execution: false, ..self.nodes[id] },
            )
        } else {
            self
        }
    }

    /// The graph after the node `id` has produced `text` and the text has been propagated
    /// one hop.
    pub open spec fn update_node_output(self, id: usize, text: Seq<char>) -> WorkflowView {
        self.set_output(id, text).propagate(id)
    }

    /// The graph after a drag has ended: the released node's position may have changed the
    /// order of inputs, so the nodes it feeds are refreshed.
    pub open spec fn end_dragging(self) -> WorkflowView {
        match self.dragging_node_id {
            Some(id) => (WorkflowView { dragging_node_id: None, ..self }).propagate(id),
            None => self,
        }
    }

    /// The outcome of releasing the pointer while a connection is drawn: an error if no
    /// target is hovered, if the source has left the graph or if the target is the
    /// source itself; else the id of the new connection.
    pub open spec fn complete_drawing_result(self) -> Result<usize, WorkflowError> {
        match self.drawing.target_node_id {
            None => Err(WorkflowError::NoTarget),
            Some(target) => if !self.nodes.contains_key(self.drawing.source_node_id) {
                Err(WorkflowError::SourceMissing)
            } else if self.drawing.source_node_id == target {
                Err(WorkflowError::SelfConnection)
            } else {
                Ok(self.next_connection_id)
            },
        }
    }

    /// The graph after the pointer has been released while a connection is drawn: the
    /// source is connected to the hovered target where that succeeds, and the machine
    /// is idle in every case.
    pub open spec fn complete_drawing(self) -> WorkflowView {
        match self.complete_drawing_result() {
            Ok(_) => self.connect(
                self.drawing.source_node_id,
                self.drawing.target_node_id->0,
            ).cancel_drawing(),
            Err(_) => self.cancel_drawing(),
        }
    }

    /// The graph that a new workflow starts from: a prompt node that feeds a model node
    /// of the local provider.
    pub open spec fn bootstrap() -> WorkflowView {
        WorkflowView::empty().add_node(NodeTypeView::Prompt, 50, 100).add_node(
            NodeTypeView::Model {
                provider: ProviderType::Ollama,
                model_name: Seq::empty(),
                messages: Seq::empty(),
                thinking: false,
            },
            400,
            100,
        ).connect(0, 1)
    }

    /// Whether two graphs have the same connections and, node by node, the same outputs
    /// and positions: all that aggregation reads.
    pub open spec fn same_sources(self, other: WorkflowView) -> bool {
        &&& self.connections == other.connections
        &&& self.next_connection_id == other.next_connection_id
        &&& forall|id: usize| self.nodes.contains_key(id) == other.nodes.contains_key(id)
        &&& forall|id: usize| #[trigger]
            self.nodes.contains_key(id) ==> {
                &&& self.nodes[id].output == other.nodes[id].output
                &&& self.nodes[id].position_x == other.nodes[id].position_x
                &&& self.nodes[id].position_y == other.nodes[id].position_y
            }
    }

    /// Every source in `sources` names a node of the graph that, where an output is
    /// asked for, has one.
    pub open spec fn known_sources(self, sources: Seq<Source>, with_output: bool) -> bool {
        forall|i: int| #![trigger sources[i]]
            0 <= i < sources.len() ==> {
                &&& self.nodes.contains_key(sources[i].node_id)
                &&& with_output ==> self.nodes[sources[i].node_id].output is Some
            }
    }
}

/// Putting a source in behind the sources it does not come before is an insertion at
/// that place.
pub proof fn lemma_insert_source_at(sorted: Seq<Source>, s: Source, k: int)
    requires
        0 <= k <= sorted.len(),
        forall|j: int| k <= j < sorted.len() ==> above(s, sorted[j]),
        k == 0 || !above(s, sorted[k - 1]),
    ensures
        insert_source(sorted, s) == sorted.insert(k, s),
    decreases sorted.len() - k,
{
    if k == sorted.len() {
        assert(sorted.push(s) =~= sorted.insert(k, s));
    } else {
        let front = sorted.drop_last();
        lemma_insert_source_at(front, s, k);
        assert(front.insert(k, s).push(sorted.last()) =~= sorted.insert(k, s));
    }
}

/// Canvas order is kept when a source is put in.
pub proof fn lemma_insert_source_keeps_order(sorted: Seq<Source>, s: Source)
    requires
        in_canvas_order(sorted),
    ensures
        in_canvas_order(insert_source(sorted, s)),
        insert_source(sorted, s).to_multiset() == sorted.to_multiset().insert(s),
    decreases sorted.len(),
{
    let k = choose_place(sorted, s);
    lemma_choose_place(sorted, s);
    lemma_insert_source_at(sorted, s, k);
    let r = sorted.insert(k, s);
    assert forall|i: int, j: int| 0 <= i < j < r.len() implies !above(r[j], r[i]) by {
        if j == k {
            if k > 0 {
                lemma_not_above_chain(sorted, s, i, k);
            }
        } else if i == k {
            assert(r[j] == sorted[j - 1]);
        } else {
            let oi = if i < k { i } else { i - 1 };
            let oj = if j < k { j } else { j - 1 };
            assert(r[i] == sorted[oi] && r[j] == sorted[oj]);
        }
    }
    vstd::seq_lib::to_multiset_insert(sorted, k, s);
}

/// Ordering law: the ordered sources are in canvas order, and they are the given
/// sources, each as often as it was given.
pub proof fn lemma_ordered_sorts(sources: Seq<Source>)
    ensures
        in_canvas_order(ordered(sources)),
        ordered(sources).to_multiset() == sources.to_multiset(),
        ordered(sources).len() == sources.len(),
    decreases sources.len(),
{
    broadcast use vstd::seq_lib::group_to_multiset_ensures;

    if sources.len() > 0 {
        let front = sources.drop_last();
        lemma_ordered_sorts(front);
        lemma_insert_source_keeps_order(ordered(front), sources.last());
        assert(front.push(sources.last()) =~= sources);
        lemma_choose_place(ordered(front), sources.last());
        lemma_insert_source_at(ordered(front), sources.last(), choose_place(ordered(front), sources.last()));
    } else {
        assert(sources =~= Seq::empty());
    }
}

/// The place at which [`insert_source`] puts a source.
pub open spec fn choose_place(sorted: Seq<Source>, s: Source) -> int
    decreases sorted.len(),
{
    if sorted.len() > 0 && above(s, sorted.last()) {
        choose_place(sorted.drop_last(), s)
    } else {
        sorted.len() as int
    }
}

proof fn lemma_choose_place(sorted: Seq<Source>, s: Source)
    ensures
        0 <= choose_place(sorted, s) <= sorted.len(),
        forall|j: int| choose_place(sorted, s) <= j < sorted.len() ==> above(s, sorted[j]),
        choose_place(sorted, s) == 0 || !above(s, sorted[choose_place(sorted, s) - 1]),
    decreases sorted.len(),
{
    if sorted.len() > 0 && above(s, sorted.last()) {
        let front = sorted.drop_last();
        lemma_choose_place(front, s);
        assert forall|j: int| choose_place(sorted, s) <= j < sorted.len() implies above(
            s,
            sorted[j],
        ) by {
            if j < front.len() {
                assert(sorted[j] == front[j]);
            }
        }
        if choose_place(sorted, s) > 0 {
            assert(sorted[choose_place(sorted, s) - 1] == front[choose_place(front, s) - 1]);
        }
    }
}

proof fn lemma_not_above_chain(sorted: Seq<Source>, s: Source, i: int, k: int)
    requires
        in_canvas_order(sorted),
        0 <= i < k <= sorted.len(),
        !above(s, sorted[k - 1]),
    ensures
        !above(s, sorted[i]),
{
    if i < k - 1 {
        assert(!above(sorted[k - 1], sorted[i]));
    }
}

/// Executable test for [`above`].
pub fn is_above(a: &Source, b: &Source) -> (r: bool)
    ensures
        r == above(*a, *b),
{
    a.y < b.y || (a.y == b.y && a.x < b.x)
}

/// Puts `s` into `sorted` behind the last source that `s` does not come before.
pub fn insert_ordered(sorted: &mut Vec<Source>, s: Source)
    ensures
        final(sorted)@ == insert_source(old(sorted)@, s),
        final(sorted)@.len() == old(sorted)@.len() + 1,
{
    let mut k: usize = sorted.len();
    while k > 0 && is_above(&s, &sorted[k - 1])
        invariant
            k <= sorted.len(),
            sorted@ == old(sorted)@,
            forall|j: int| k <= j < sorted.len() ==> above(s, sorted@[j]),
        decreases k,
    {
        k -= 1;
    }
    proof {
        lemma_insert_source_at(sorted@, s, k as int);
    }
    sorted.insert(k, s);
}

impl Workflow {
    /// The sources of `target` in canvas order. With `with_output`, only the sources
    /// that have an output are given.
    pub fn sorted_sources(&self, target: usize, with_output: bool) -> (sources: Vec<Source>)
        requires
            self.wf(),
        ensures
            sources@ == ordered(self@.feeding(target, with_output)),
            sources@.len() == self@.feeding(target, with_output).len(),
            self@.known_sources(sources@, with_output),
    {
        let mut sources: Vec<Source> = Vec::new();
        let ids = self.connection_ids();
        let ghost dom = self@.connections.dom();
        let ghost bound = self@.next_connection_id as nat;
        let n = ids.len();
        let mut k: usize = 0;
        proof {
            lemma_no_id_between(dom, bound, 0);
            lemma_feeding_gap(self@, target, with_output, 0, bound_at(ids@, 0, bound));
        }
        while k < n
            invariant
                k <= n,
                n == ids@.len(),
                ids@ == ids_upto(dom, bound),
                dom == self@.connections.dom(),
                bound == self@.next_connection_id,
                sources@ == ordered(
                    self@.feeding_upto(target, with_output, bound_at(ids@, k as int, bound)),
                ),
                sources@.len() == self@.feeding_upto(
                    target,
                    with_output,
                    bound_at(ids@, k as int, bound),
                ).len(),
                self@.known_sources(sources@, with_output),
            decreases n - k,
        {
            let cid = ids[k];
            proof {
                lemma_no_id_between(dom, bound, k as int);
                lemma_no_id_between(dom, bound, k + 1);
                lemma_feeding_gap(
                    self@,
                    target,
                    with_output,
                    (cid + 1) as nat,
                    bound_at(ids@, k + 1, bound),
                );
            }
            let ghost before = self@.feeding_upto(target, with_output, cid as nat);
            let ghost held = sources@;
            if let Some(c) = self.connection(cid) {
                if c.to_node_id == target {
                    if let Some(node) = self.node(c.from_node_id) {
                        if !with_output || node.output.is_some() {
                            let s = Source {
                                node_id: c.from_node_id,
                                y: node.position_y,
                                x: node.position_x,
                            };
                            assert(s == self@.source_of(cid));
                            assert(before.push(s).drop_last() =~= before);
                            insert_ordered(&mut sources, s);
                            proof {
                                lemma_choose_place(held, s);
                                lemma_insert_source_at(held, s, choose_place(held, s));
                                let p = choose_place(held, s);
                                assert forall|i: int| 0 <= i < sources@.len() implies {
                                    &&& self@.nodes.contains_key(#[trigger] sources@[i].node_id)
                                    &&& with_output ==> self@.nodes[sources@[i].node_id].output is Some
                                } by {
                                    if i < p {
                                        assert(sources@[i] == held[i]);
                                    } else if i > p {
                                        assert(sources@[i] == held[i - 1]);
                                    }
                                }
                            }
                        }
                    }
                }
            }
            assert(sources@ == ordered(
                self@.feeding_upto(target, with_output, (cid + 1) as nat),
            ));
            k += 1;
        }
        sources
    }

    /// The outputs of `sources`, in order, separated by blank lines.
    fn join_outputs(&self, sources: &Vec<Source>) -> (text: String)
        requires
            self@.known_sources(sources@, true),
        ensures
            text@ == joined(self@.outputs_of(sources@)),
    {
        let ghost parts = self@.outputs_of(sources@);
        let mut text = String::new();
        let n = sources.len();
        let mut i: usize = 0;
        while i < n
            invariant
                i <= n,
                n == sources@.len(),
                parts == self@.outputs_of(sources@),
                self@.known_sources(sources@, true),
                text@ == joined(parts.take(i as int)),
            decreases n - i,
        {
            proof {
                reveal_strlit("\n\n");
                assert(parts.take(i + 1).drop_last() =~= parts.take(i as int));
                assert(parts.take(i + 1).last() == parts[i as int]);
                assert("\n\n"@ =~= separator());
            }
            if i > 0 {
                text.append("\n\n");
            }
            if let Some(node) = self.node(sources[i].node_id) {
                if let Some(output) = &node.output {
                    text.append(output.as_str());
                }
            }
            assert(text@ =~= joined(parts.take(i + 1)));
            i += 1;
        }
        assert(parts.take(n as int) =~= parts);
        text
    }

    /// Recomputes the input of `target_node_id` from the current outputs of its sources.
    /// Nothing changes if there is no such node.
    pub fn update_node_input_from_all_sources(&mut self, target_node_id: usize)
        requires
            old(self).wf(),
        ensures
            final(self).wf(),
            final(self)@ == old(self)@.recompute_input(target_node_id),
    {
        let sources = self.sorted_sources(target_node_id, true);
        let combined = if sources.len() == 0 {
            None
        } else {
            Some(self.join_outputs(&sources))
        };
        assert(crate::nodes::opt_text(combined) == old(self)@.aggregated_input(target_node_id));
        if let Some(mut node) = self.take_node(target_node_id) {
            node.input = combined;
            assert(node@ == (NodeView {
                input: old(self)@.aggregated_input(target_node_id),
                ..old(self)@.nodes[target_node_id]
            }));
            self.put_node(node);
            assert(self@.nodes =~= old(self)@.recompute_input(target_node_id).nodes);
        } else {
            assert(self@.nodes =~= old(self)@.nodes);
        }
    }

    /// The 1-based rank of `node_id` among the sources of `target_node_id` in canvas
    /// order, if the target has more than one source and `node_id` is one of them.
    pub fn get_input_order_number(&self, node_id: usize, target_node_id: usize) -> (rank: Option<
        usize,
    >)
        requires
            self.wf(),
        ensures
            match rank {
                Some(k) => self@.input_order_number(node_id, target_node_id) == Some(k as nat),
                None => self@.input_order_number(node_id, target_node_id) is None,
            },
    {
        let sources = self.sorted_sources(target_node_id, false);
        let n = sources.len();
        if n <= 1 {
            return None;
        }
        let mut i: usize = 0;
        while i < n
            invariant
                i <= n,
                n == sources@.len(),
                n > 1,
                sources@ == ordered(self@.feeding(target_node_id, false)),
                sources@.len() == self@.feeding(target_node_id, false).len(),
                place_of(sources@.take(i as int), node_id) is None,
            decreases n - i,
        {
            proof {
                assert(sources@.take(i + 1).drop_last() =~= sources@.take(i as int));
                assert(sources@.take(i + 1).last() == sources@[i as int]);
            }
            if sources[i].node_id == node_id {
                proof {
                    assert(place_of(sources@.take(i + 1), node_id) == Some(i as nat));
                    lemma_place_of_prefix(sources@, node_id, i + 1);
                }
                return Some(i + 1);
            }
            i += 1;
        }
        assert(sources@.take(n as int) =~= sources@);
        None
    }
}

/// A place found in a prefix is the place in the whole sequence.
pub proof fn lemma_place_of_prefix(sources: Seq<Source>, node_id: usize, n: int)
    requires
        0 <= n <= sources.len(),
        place_of(sources.take(n), node_id) is Some,
    ensures
        place_of(sources, node_id) == place_of(sources.take(n), node_id),
    decreases sources.len() - n,
{
    if n < sources.len() {
        assert(sources.take(n + 1).drop_last() =~= sources.take(n));
        lemma_place_of_prefix(sources, node_id, n + 1);
    } else {
        assert(sources.take(n) =~= sources);
    }
}

/// Where no connection id is in use from `a` up to `b`, the sources contributed below
/// `b` are those contributed below `a`.
pub proof fn lemma_feeding_gap(v: WorkflowView, target: usize, with_output: bool, a: nat, b: nat)
    requires
        a <= b <= usize::MAX,
        forall|x: usize| a <= x < b ==> !v.connections.contains_key(x),
    ensures
        v.feeding_upto(target, with_output, b) == v.feeding_upto(target, with_output, a),
    decreases b,
{
    if a < b {
        assert(!v.connections.contains_key((b - 1) as usize));
        lemma_feeding_gap(v, target, with_output, a, (b - 1) as nat);
    }
}

/// Where no connection id is in use from `a` up to `b`, propagation over the
/// connections below `b` is propagation over those below `a`.
pub proof fn lemma_propagate_gap(v: WorkflowView, source: usize, a: nat, b: nat)
    requires
        a <= b,
        forall|x: usize| a <= x < b ==> !v.connections.contains_key(x),
    ensures
        v.propagate_upto(source, b) == v.propagate_upto(source, a),
{
    assert forall|id: usize| v.fed_below(source, id, b) == v.fed_below(source, id, a) by {
        if v.fed_below(source, id, b) {
            let cid = choose|cid: usize| cid < b && v.leads(cid, source, id);
            assert(cid < a && v.leads(cid, source, id));
        }
        if v.fed_below(source, id, a) {
            let cid = choose|cid: usize| cid < a && v.leads(cid, source, id);
            assert(cid < b && v.leads(cid, source, id));
        }
    }
    assert(v.propagate_upto(source, b).nodes =~= v.propagate_upto(source, a).nodes);
}

/// Every source that the connections of a graph contribute is known to the graph.
pub proof fn lemma_feeding_known(v: WorkflowView, target: usize, with_output: bool, n: nat)
    ensures
        v.known_sources(v.feeding_upto(target, with_output, n), with_output),
    decreases n,
{
    if n > 0 {
        lemma_feeding_known(v, target, with_output, (n - 1) as nat);
    }
}

/// Ordering sources keeps them known.
pub proof fn lemma_ordered_known(v: WorkflowView, sources: Seq<Source>, with_output: bool)
    requires
        v.known_sources(sources, with_output),
    ensures
        v.known_sources(ordered(sources), with_output),
    decreases sources.len(),
{
    if sources.len() > 0 {
        let front = sources.drop_last();
        assert forall|i: int| 0 <= i < front.len() implies {
            &&& v.nodes.contains_key(#[trigger] front[i].node_id)
            &&& with_output ==> v.nodes[front[i].node_id].output is Some
        } by {
            assert(front[i] == sources[i]);
        }
        lemma_ordered_known(v, front, with_output);
        let held = ordered(front);
        let s = sources.last();
        let k = choose_place(held, s);
        lemma_choose_place(held, s);
        lemma_insert_source_at(held, s, k);
        let r = ordered(sources);
        assert forall|i: int| 0 <= i < r.len() implies {
            &&& v.nodes.contains_key(#[trigger] r[i].node_id)
            &&& with_output ==> v.nodes[r[i].node_id].output is Some
        } by {
            if i < k {
                assert(r[i] == held[i]);
            } else if i > k {
                assert(r[i] == held[i - 1]);
            }
        }
    }
}

/// Graphs that agree on what aggregation reads have the same sources.
pub proof fn lemma_same_feeding(
    a: WorkflowView,
    b: WorkflowView,
    target: usize,
    with_output: bool,
    n: nat,
)
    requires
        a.same_sources(b),
    ensures
        a.feeding_upto(target, with_output, n) == b.feeding_upto(target, with_output, n),
    decreases n,
{
    if n > 0 {
        lemma_same_feeding(a, b, target, with_output, (n - 1) as nat);
        let cid = (n - 1) as usize;
        if a.connections.contains_key(cid) {
            let from = a.connections[cid].from_node_id;
            assert(a.nodes.contains_key(from) == b.nodes.contains_key(from));
        }
    }
}

/// Graphs that agree on what aggregation reads give every target the same input.
pub proof fn lemma_same_input(a: WorkflowView, b: WorkflowView, target: usize)
    requires
        a.same_sources(b),
    ensures
        a.aggregated_input(target) == b.aggregated_input(target),
{
    let n = a.next_connection_id as nat;
    lemma_same_feeding(a, b, target, true, n);
    lemma_feeding_known(a, target, true, n);
    lemma_ordered_known(a, a.feeding(target, true), true);
    let sources = ordered(a.feeding(target, true));
    assert(a.outputs_of(sources) =~= b.outputs_of(sources));
}

/// Idempotent aggregation: recomputing the input of a target a second time, with no
/// change to the graph in between, leaves the graph as the first recomputation left it.
pub proof fn lemma_recompute_input_idempotent(v: WorkflowView, target: usize)
    ensures
        v.recompute_input(target).recompute_input(target) == v.recompute_input(target),
        v.recompute_input(target).aggregated_input(target) == v.aggregated_input(target),
{
    let once = v.recompute_input(target);
    assert(once.same_sources(v));
    lemma_same_input(once, v, target);
    assert(once.recompute_input(target).nodes =~= once.nodes);
}

/// In a well-formed graph every connection id lies below the counter, so propagation
/// over all ids below the counter is propagation over all connections.
pub proof fn lemma_propagate_upto_all(v: WorkflowView, source: usize)
    requires
        v.wf(),
    ensures
        v.propagate_upto(source, v.next_connection_id as nat) == v.propagate(source),
{
    let n = v.next_connection_id as nat;
    assert forall|id: usize| v.fed_below(source, id, n) == v.feeds(source, id) by {
        if v.feeds(source, id) {
            let cid = choose|cid: usize| v.leads(cid, source, id);
            assert(cid < n && v.leads(cid, source, id));
        }
    }
    assert(v.propagate_upto(source, n).nodes =~= v.propagate(source).nodes);
}

impl Workflow {
    /// Recomputes the input of the node `id` and marks it as needing execution. Nothing
    /// changes if there is no such node.
    pub fn refresh_node(&mut self, id: usize)
        requires
            old(self).wf(),
        ensures
            final(self).wf(),
            final(self)@ == old(self)@.refresh(id),
    {
        self.update_node_input_from_all_sources(id);
        if let Some(mut node) = self.take_node(id) {
            node.needs_execution = true;
            self.put_node(node);
            assert(self@.nodes =~= old(self)@.refresh(id).nodes);
        } else {
            assert(self@.nodes =~= old(self)@.nodes);
        }
    }

    /// Propagates the output of `source_node_id` one hop: every node that it feeds
    /// directly gets its input recomputed and is marked as needing execution.
    pub fn propagate_output_to_connected_nodes(&mut self, source_node_id: usize)
        requires
            old(self).wf(),
        ensures
            final(self).wf(),
            final(self)@ == old(self)@.propagate(source_node_id),
    {
        let ids = self.connection_ids();
        let ghost dom = self@.connections.dom();
        let ghost bound = self@.next_connection_id as nat;
        let n = ids.len();
        let mut k: usize = 0;
        proof {
            assert(self@.nodes =~= old(self)@.propagate_upto(source_node_id, 0).nodes);
            lemma_no_id_between(dom, bound, 0);
            lemma_propagate_gap(old(self)@, source_node_id, 0, bound_at(ids@, 0, bound));
        }
        while k < n
            invariant
                k <= n,
                n == ids@.len(),
                ids@ == ids_upto(dom, bound),
                dom == old(self)@.connections.dom(),
                bound == old(self)@.next_connection_id,
                old(self).wf(),
                self.wf(),
                self@ == old(self)@.propagate_upto(
                    source_node_id,
                    bound_at(ids@, k as int, bound),
                ),
            decreases n - k,
        {
            let cid = ids[k];
            let ghost start = old(self)@;
            let ghost cur = self@;
            let ghost next = start.propagate_upto(source_node_id, (cid + 1) as nat);
            proof {
                lemma_no_id_between(dom, bound, k as int);
                lemma_no_id_between(dom, bound, k + 1);
                lemma_propagate_gap(
                    start,
                    source_node_id,
                    (cid + 1) as nat,
                    bound_at(ids@, k + 1, bound),
                );
            }
            let found = self.connection(cid);
            let target = match found {
                Some(c) => if c.from_node_id == source_node_id {
                    Some(c.to_node_id)
                } else {
                    None
                },
                None => None,
            };
            proof {
                assert forall|id: usize|
                    start.fed_below(source_node_id, id, (cid + 1) as nat) == (start.fed_below(
                        source_node_id,
                        id,
                        cid as nat,
                    ) || target == Some(id)) by {
                    if start.fed_below(source_node_id, id, (cid + 1) as nat) {
                        let c = choose|c: usize|
                            c < (cid + 1) as nat && start.leads(c, source_node_id, id);
                        if c < cid {
                            assert(c < cid as nat && start.leads(c, source_node_id, id));
                        }
                    }
                    if start.fed_below(source_node_id, id, cid as nat) {
                        let c = choose|c: usize|
                            c < cid as nat && start.leads(c, source_node_id, id);
                        assert(c < (cid + 1) as nat && start.leads(c, source_node_id, id));
                    }
                    if target == Some(id) {
                        assert(cid < (cid + 1) as nat && start.leads(cid, source_node_id, id));
                    }
                }
            }
            match target {
                Some(t) => {
                    self.refresh_node(t);
                    proof {
                        assert(cur.same_sources(start));
                        lemma_same_input(cur, start, t);
                        assert(self@.nodes =~= next.nodes);
                    }
                },
                None => {
                    assert(self@.nodes =~= next.nodes);
                },
            }
            k += 1;
        }
        proof {
            lemma_propagate_upto_all(old(self)@, source_node_id);
        }
    }
}

} // verus!
