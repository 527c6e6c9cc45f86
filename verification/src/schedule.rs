//! The execution order of the model nodes that need execution.
//!
//! A model node that needs execution waits for every other such node that is connected
//! into it. The order is built tier by tier: all nodes that wait for nothing still to
//! come, in ascending id order, then the nodes that waited only for those, and so on.
//! Nodes that wait for each other in a cycle, and the nodes behind them, are left out.

use crate::connections::Connection;
use crate::model::{bound_at, ids_upto, lemma_connections_upto, lemma_no_id_between, WorkflowView};
use crate::nodes::NodeType;
use crate::workflow::Workflow;
use std::collections::{HashMap, HashSet};
use vstd::prelude::*;

verus! {

broadcast use vstd::std_specs::hash::group_hash_axioms;

impl WorkflowView {
    /// Whether the node `id` is a model node that needs execution.
    pub open spec fn eligible(self, id: usize) -> bool {
        &&& self.nodes.contains_key(id)
        &&& self.nodes[id].is_model()
        &&& self.nodes[id].needs_execution
    }

    /// The eligible nodes with an id below `n`, in ascending order.
    pub open spec fn eligible_upto(self, n: nat) -> Seq<usize>
        decreases n,
    {
        if n == 0 {
            Seq::empty()
        } else {
            let lower = self.eligible_upto((n - 1) as nat);
            if self.eligible((n - 1) as usize) {
                lower.push((n - 1) as usize)
            } else {
                lower
            }
        }
    }

    /// The eligible nodes of the graph, in ascending order.
    pub open spec fn eligible_nodes(self) -> Seq<usize> {
        self.eligible_upto(self.next_node_id as nat)
    }

    /// Whether the connection `cid` leads into `id` from one of the nodes in `remaining`.
    pub open spec fn holds_back(self, cid: usize, id: usize, remaining: Seq<usize>) -> bool {
        &&& self.connections.contains_key(cid)
        &&& self.connections[cid].to_node_id == id
        &&& remaining.contains(self.connections[cid].from_node_id)
    }

    /// Whether the node `id` waits for one of the nodes in `remaining`.
    pub open spec fn waits(self, id: usize, remaining: Seq<usize>) -> bool {
        exists|cid: usize| self.holds_back(cid, id, remaining)
    }

    /// Those of `candidates`, in order, that wait for none of `remaining`.
    pub open spec fn ready_among(self, candidates: Seq<usize>, remaining: Seq<usize>) -> Seq<
        usize,
    >
        decreases candidates.len(),
    {
        if candidates.len() == 0 {
            Seq::empty()
        } else {
            let earlier = self.ready_among(candidates.drop_last(), remaining);
            if self.waits(candidates.last(), remaining) {
                earlier
            } else {
                earlier.push(candidates.last())
            }
        }
    }

    /// Those of `candidates`, in order, that wait for one of `remaining`.
    pub open spec fn waiting_among(self, candidates: Seq<usize>, remaining: Seq<usize>) -> Seq<
        usize,
    >
        decreases candidates.len(),
    {
        if candidates.len() == 0 {
            Seq::empty()
        } else {
            let earlier = self.waiting_among(candidates.drop_last(), remaining);
            if self.waits(candidates.last(), remaining) {
                earlier.push(candidates.last())
            } else {
                earlier
            }
        }
    }

    /// The order in which the nodes of `remaining` run: first those that wait for none
    /// of them, then the order of the rest. When every node waits for another, none runs.
    pub open spec fn tiers(self, remaining: Seq<usize>) -> Seq<usize>
        decreases remaining.len(),
        via Self::tiers_decreases
    {
        let ready = self.ready_among(remaining, remaining);
        if ready.len() == 0 {
            Seq::empty()
        } else {
            ready + self.tiers(self.waiting_among(remaining, remaining))
        }
    }

    #[via_fn]
    proof fn tiers_decreases(self, remaining: Seq<usize>) {
        lemma_split_lengths(self, remaining, remaining);
    }

    /// The execution order of the graph.
    pub open spec fn execution_order(self) -> Seq<usize> {
        self.tiers(self.eligible_nodes())
    }
}

/// Every candidate is either ready or waiting.
pub proof fn lemma_split_lengths(v: WorkflowView, candidates: Seq<usize>, remaining: Seq<usize>)
    ensures
        v.ready_among(candidates, remaining).len() + v.waiting_among(candidates, remaining).len()
            == candidates.len(),
    decreases candidates.len(),
{
    if candidates.len() > 0 {
        lemma_split_lengths(v, candidates.drop_last(), remaining);
    }
}

/// What the split into ready and waiting nodes holds: a node is ready exactly if it is a
/// candidate that does not wait, and waiting exactly if it is a candidate that waits.
pub proof fn lemma_split_members(v: WorkflowView, candidates: Seq<usize>, remaining: Seq<usize>)
    ensures
        forall|id: usize| #[trigger]
            v.ready_among(candidates, remaining).contains(id) <==> candidates.contains(id)
                && !v.waits(id, remaining),
        forall|id: usize| #[trigger]
            v.waiting_among(candidates, remaining).contains(id) <==> candidates.contains(id)
                && v.waits(id, remaining),
    decreases candidates.len(),
{
    let ready = v.ready_among(candidates, remaining);
    let waiting = v.waiting_among(candidates, remaining);
    if candidates.len() > 0 {
        let front = candidates.drop_last();
        let last = candidates.last();
        lemma_split_members(v, front, remaining);
        let r0 = v.ready_among(front, remaining);
        let w0 = v.waiting_among(front, remaining);
        assert forall|id: usize| candidates.contains(id) <==> front.contains(id) || id == last by {
            if candidates.contains(id) {
                let i = choose|i: int| 0 <= i < candidates.len() && candidates[i] == id;
                if i < front.len() {
                    assert(front[i] == id);
                }
            }
            if front.contains(id) {
                let i = choose|i: int| 0 <= i < front.len() && front[i] == id;
                assert(candidates[i] == id);
            }
            if id == last {
                assert(candidates[candidates.len() - 1] == id);
            }
        }
        assert forall|id: usize| #[trigger]
            ready.contains(id) <==> candidates.contains(id) && !v.waits(id, remaining) by {
            if v.waits(last, remaining) {
            } else {
                lemma_push_contains(r0, last, id);
            }
        }
        assert forall|id: usize| #[trigger]
            waiting.contains(id) <==> candidates.contains(id) && v.waits(id, remaining) by {
            if v.waits(last, remaining) {
                lemma_push_contains(w0, last, id);
            }
        }
    } else {
        assert forall|id: usize| !candidates.contains(id) by {}
        assert forall|id: usize| !ready.contains(id) by {}
        assert forall|id: usize| !waiting.contains(id) by {}
    }
}

/// A sequence with one more element at its end holds that element and what it held.
pub proof fn lemma_push_contains(s: Seq<usize>, last: usize, id: usize)
    ensures
        s.push(last).contains(id) <==> s.contains(id) || id == last,
{
    let t = s.push(last);
    if t.contains(id) {
        let i = choose|i: int| 0 <= i < t.len() && t[i] == id;
        if i < s.len() {
            assert(s[i] == id);
        }
    }
    if s.contains(id) {
        let i = choose|i: int| 0 <= i < s.len() && s[i] == id;
        assert(t[i] == id);
    }
    if id == last {
        assert(t[s.len() as int] == id);
    }
}

/// Dependencies come first: whenever a node of the order is fed by another of the
/// remaining nodes, that node stands earlier in the order.
pub proof fn lemma_tiers_respect_connections(v: WorkflowView, remaining: Seq<usize>)
    ensures
        forall|j: int, cid: usize|
            0 <= j < v.tiers(remaining).len() && #[trigger] v.holds_back(
                cid,
                v.tiers(remaining)[j],
                remaining,
            ) ==> exists|i: int|
                0 <= i < j && v.tiers(remaining)[i] == v.connections[cid].from_node_id,
    decreases remaining.len(),
{
    let order = v.tiers(remaining);
    let ready = v.ready_among(remaining, remaining);
    let rest = v.waiting_among(remaining, remaining);
    if ready.len() > 0 {
        lemma_split_lengths(v, remaining, remaining);
        lemma_split_members(v, remaining, remaining);
        lemma_tiers_respect_connections(v, rest);
        let later = v.tiers(rest);
        assert(order == ready + later);
        assert forall|j: int, cid: usize|
            0 <= j < order.len() && #[trigger] v.holds_back(cid, order[j], remaining) implies exists|
            i: int,
        | 0 <= i < j && order[i] == v.connections[cid].from_node_id by {
            let from = v.connections[cid].from_node_id;
            if j < ready.len() {
                assert(ready.contains(ready[j]));
                assert(order[j] == ready[j]);
                assert(!v.waits(order[j], remaining));
            } else {
                let jj = j - ready.len();
                assert(order[j] == later[jj]);
                if v.waits(from, remaining) {
                    assert(rest.contains(from));
                    assert(v.holds_back(cid, later[jj], rest));
                    let i0 = choose|i: int| 0 <= i < jj && later[i] == from;
                    assert(order[i0 + ready.len()] == from);
                } else {
                    assert(ready.contains(from));
                    let i0 = choose|i: int| 0 <= i < ready.len() && ready[i] == from;
                    assert(order[i0] == from);
                }
            }
        }
    }
}

/// Only cycles keep nodes out: a remaining node that is missing from the order is fed by
/// another remaining node that is missing from the order too.
pub proof fn lemma_tiers_leave_out_only_stuck(v: WorkflowView, remaining: Seq<usize>, id: usize)
    requires
        remaining.contains(id),
        !v.tiers(remaining).contains(id),
    ensures
        exists|cid: usize|
            v.holds_back(cid, id, remaining) && !v.tiers(remaining).contains(
                v.connections[cid].from_node_id,
            ),
    decreases remaining.len(),
{
    let order = v.tiers(remaining);
    let ready = v.ready_among(remaining, remaining);
    let rest = v.waiting_among(remaining, remaining);
    lemma_split_lengths(v, remaining, remaining);
    lemma_split_members(v, remaining, remaining);
    if ready.len() == 0 {
        assert(!ready.contains(id));
        let cid = choose|cid: usize| v.holds_back(cid, id, remaining);
        assert(v.holds_back(cid, id, remaining));
    } else {
        let later = v.tiers(rest);
        assert(order == ready + later);
        lemma_concat_contains(ready, later, id);
        assert(rest.contains(id));
        lemma_tiers_leave_out_only_stuck(v, rest, id);
        let cid = choose|cid: usize|
            v.holds_back(cid, id, rest) && !later.contains(v.connections[cid].from_node_id);
        let from = v.connections[cid].from_node_id;
        assert(rest.contains(from));
        assert(remaining.contains(from));
        lemma_concat_contains(ready, later, from);
        assert(v.holds_back(cid, id, remaining));
    }
}

/// A concatenation holds what its two parts hold.
pub proof fn lemma_concat_contains(a: Seq<usize>, b: Seq<usize>, id: usize)
    ensures
        (a + b).contains(id) <==> a.contains(id) || b.contains(id),
{
    let t = a + b;
    if t.contains(id) {
        let i = choose|i: int| 0 <= i < t.len() && t[i] == id;
        if i < a.len() {
            assert(a[i] == id);
        } else {
            assert(b[i - a.len()] == id);
        }
    }
    if a.contains(id) {
        let i = choose|i: int| 0 <= i < a.len() && a[i] == id;
        assert(t[i] == id);
    }
    if b.contains(id) {
        let i = choose|i: int| 0 <= i < b.len() && b[i] == id;
        assert(t[i + a.len()] == id);
    }
}

/// Where no node id is in use from `a` up to `b`, the eligible nodes below `b` are those
/// below `a`.
pub proof fn lemma_eligible_gap(v: WorkflowView, a: nat, b: nat)
    requires
        a <= b <= usize::MAX,
        forall|x: usize| a <= x < b ==> !v.nodes.contains_key(x),
    ensures
        v.eligible_upto(b) == v.eligible_upto(a),
    decreases b,
{
    if a < b {
        assert(!v.nodes.contains_key((b - 1) as usize));
        lemma_eligible_gap(v, a, (b - 1) as nat);
    }
}

/// The eligible nodes below `n` are exactly the nodes below `n` that are eligible, each
/// listed once.
pub proof fn lemma_eligible_members(v: WorkflowView, n: nat)
    requires
        n <= usize::MAX,
    ensures
        forall|id: usize| #[trigger]
            v.eligible_upto(n).contains(id) <==> id < n && v.eligible(id),
        v.eligible_upto(n).no_duplicates(),
    decreases n,
{
    let here = v.eligible_upto(n);
    if n > 0 {
        let lower = v.eligible_upto((n - 1) as nat);
        let top = (n - 1) as usize;
        lemma_eligible_members(v, (n - 1) as nat);
        assert forall|id: usize| #[trigger] here.contains(id) <==> id < n && v.eligible(id) by {
            if v.eligible(top) {
                lemma_push_contains(lower, top, id);
            }
        }
        if v.eligible(top) {
            assert(!lower.contains(top));
            assert forall|i: int, j: int| 0 <= i < j < here.len() implies here[i] != here[j] by {
                if j == lower.len() {
                    assert(lower.contains(lower[i]));
                }
            }
        }
    } else {
        assert forall|id: usize| !(#[trigger] here.contains(id)) by {}
    }
}

/// Splitting candidates that are listed once lists each ready and each waiting node once.
pub proof fn lemma_split_no_duplicates(
    v: WorkflowView,
    candidates: Seq<usize>,
    remaining: Seq<usize>,
)
    requires
        candidates.no_duplicates(),
    ensures
        v.ready_among(candidates, remaining).no_duplicates(),
        v.waiting_among(candidates, remaining).no_duplicates(),
    decreases candidates.len(),
{
    if candidates.len() > 0 {
        let front = candidates.drop_last();
        let last = candidates.last();
        lemma_split_no_duplicates(v, front, remaining);
        lemma_split_members(v, front, remaining);
        let part = if v.waits(last, remaining) {
            v.waiting_among(front, remaining)
        } else {
            v.ready_among(front, remaining)
        };
        if front.contains(last) {
            let i = choose|i: int| 0 <= i < front.len() && front[i] == last;
            assert(candidates[i] == candidates[candidates.len() - 1]);
        }
        assert(!part.contains(last));
        let whole = part.push(last);
        assert forall|i: int, j: int| 0 <= i < j < whole.len() implies whole[i] != whole[j] by {
            if j == part.len() {
                assert(part.contains(part[i]));
            }
        }
    }
}

/// The order lists only remaining nodes, and each at most once if each remaining node
/// is listed once.
pub proof fn lemma_tiers_members(v: WorkflowView, remaining: Seq<usize>)
    ensures
        forall|id: usize| #[trigger] v.tiers(remaining).contains(id) ==> remaining.contains(id),
        remaining.no_duplicates() ==> v.tiers(remaining).no_duplicates(),
    decreases remaining.len(),
{
    let order = v.tiers(remaining);
    let ready = v.ready_among(remaining, remaining);
    let rest = v.waiting_among(remaining, remaining);
    lemma_split_lengths(v, remaining, remaining);
    lemma_split_members(v, remaining, remaining);
    if ready.len() > 0 {
        let later = v.tiers(rest);
        lemma_tiers_members(v, rest);
        assert forall|id: usize| #[trigger] order.contains(id) implies remaining.contains(id) by {
            lemma_concat_contains(ready, later, id);
        }
        if remaining.no_duplicates() {
            lemma_split_no_duplicates(v, remaining, remaining);
            assert forall|i: int, j: int| 0 <= i < j < order.len() implies order[i] != order[j] by {
                if j >= ready.len() && i < ready.len() {
                    assert(ready.contains(ready[i]));
                    assert(later.contains(later[j - ready.len()]));
                    assert(rest.contains(later[j - ready.len()]));
                }
            }
        }
    } else {
        assert forall|id: usize| !(#[trigger] order.contains(id)) by {}
    }
}

/// Soundness of the execution order of a well-formed graph: it lists only model nodes
/// that need execution, each at most once, and whenever such a node feeds a node of the
/// order, it stands earlier in the order.
pub proof fn lemma_execution_order_sound(v: WorkflowView)
    requires
        v.wf(),
    ensures
        v.execution_order().no_duplicates(),
        forall|j: int|
            0 <= j < v.execution_order().len() ==> v.eligible(#[trigger] v.execution_order()[j]),
        forall|j: int, cid: usize|
            #![trigger v.execution_order()[j], v.connections[cid]]
            0 <= j < v.execution_order().len() && v.connections.contains_key(cid)
                && v.connections[cid].to_node_id == v.execution_order()[j] && v.eligible(
                v.connections[cid].from_node_id,
            ) ==> exists|i: int|
                0 <= i < j && v.execution_order()[i] == v.connections[cid].from_node_id,
{
    let all = v.eligible_nodes();
    let order = v.execution_order();
    lemma_eligible_members(v, v.next_node_id as nat);
    lemma_tiers_members(v, all);
    lemma_tiers_respect_connections(v, all);
    assert forall|j: int| 0 <= j < order.len() implies v.eligible(#[trigger] order[j]) by {
        assert(order.contains(order[j]));
    }
    assert forall|j: int, cid: usize|
        #![trigger order[j], v.connections[cid]]
        0 <= j < order.len() && v.connections.contains_key(cid) && v.connections[cid].to_node_id
            == order[j] && v.eligible(v.connections[cid].from_node_id) implies exists|i: int|
        0 <= i < j && order[i] == v.connections[cid].from_node_id by {
        let from = v.connections[cid].from_node_id;
        assert(v.nodes.contains_key(from));
        assert(all.contains(from));
        assert(v.holds_back(cid, order[j], all));
    }
}

/// Cycle tolerance: a model node that needs execution is missing from the execution
/// order of a well-formed graph only if it is fed by another such node that is missing
/// too, as happens in and behind a cycle.
pub proof fn lemma_execution_order_leaves_out_only_stuck(v: WorkflowView, id: usize)
    requires
        v.wf(),
        v.eligible(id),
        !v.execution_order().contains(id),
    ensures
        exists|cid: usize|
            v.connections.contains_key(cid) && v.connections[cid].to_node_id == id && v.eligible(
                v.connections[cid].from_node_id,
            ) && !v.execution_order().contains(v.connections[cid].from_node_id),
{
    let all = v.eligible_nodes();
    lemma_eligible_members(v, v.next_node_id as nat);
    assert(all.contains(id));
    lemma_tiers_leave_out_only_stuck(v, all, id);
    let cid = choose|cid: usize|
        v.holds_back(cid, id, all) && !v.tiers(all).contains(v.connections[cid].from_node_id);
    assert(v.eligible(v.connections[cid].from_node_id));
}

/// Whether one of the first `k` connections of `conns` leads from `b` to `a`.
pub open spec fn joined_by(conns: Seq<Connection>, k: int, b: usize, a: usize) -> bool {
    exists|i: int| 0 <= i < k && conns[i].from_node_id == b && conns[i].to_node_id == a
}

/// Whether `deps` holds the dependencies among the nodes of `remaining` that the first
/// `k` connections of `conns` make: for each of the nodes, the set of those of the nodes
/// that are connected into it.
pub open spec fn dependencies_of(
    deps: Map<usize, HashSet<usize>>,
    remaining: Seq<usize>,
    conns: Seq<Connection>,
    k: int,
) -> bool {
    &&& forall|a: usize| #[trigger] deps.contains_key(a) <==> remaining.contains(a)
    &&& forall|a: usize, b: usize|
        deps.contains_key(a) ==> (#[trigger] deps[a]@.contains(b) <==> remaining.contains(b)
            && joined_by(conns, k, b, a))
}

/// A node waits for one of the remaining nodes exactly if its set of dependencies among
/// them is not empty.
pub proof fn lemma_waits_by_dependencies(
    v: WorkflowView,
    deps: Map<usize, HashSet<usize>>,
    remaining: Seq<usize>,
    id: usize,
)
    requires
        v.wf(),
        dependencies_of(deps, remaining, v.connection_list(), v.connection_list().len() as int),
        remaining.contains(id),
    ensures
        v.waits(id, remaining) <==> !deps[id]@.is_empty(),
{
    let list = v.connection_list();
    lemma_connections_upto(v.connections, v.next_connection_id as nat);
    assert(deps.contains_key(id));
    if v.waits(id, remaining) {
        let cid = choose|cid: usize| v.holds_back(cid, id, remaining);
        let from = v.connections[cid].from_node_id;
        let i = choose|i: int| 0 <= i < list.len() && list[i].id == cid;
        assert(list[i] == v.connections[cid]);
        assert(joined_by(list, list.len() as int, from, id));
        assert(deps[id]@.contains(from));
    }
    if !deps[id]@.is_empty() {
        if forall|b: usize| !deps[id]@.contains(b) {
            assert(deps[id]@ =~= Set::empty());
        }
        let b = choose|b: usize| deps[id]@.contains(b);
        assert(joined_by(list, list.len() as int, b, id));
        let i = choose|i: int|
            0 <= i < list.len() && list[i].from_node_id == b && list[i].to_node_id == id;
        assert(v.holds_back(list[i].id, id, remaining));
    }
}

/// The dependencies among the nodes of `remaining` that the connections `conns` make.
pub fn build_dependencies(remaining: &Vec<usize>, conns: &Vec<Connection>) -> (deps: HashMap<
    usize,
    HashSet<usize>,
>)
    ensures
        dependencies_of(deps@, remaining@, conns@, conns@.len() as int),
{
    let mut deps: HashMap<usize, HashSet<usize>> = HashMap::new();
    let n = remaining.len();
    let mut i: usize = 0;
    while i < n
        invariant
            i <= n,
            n == remaining@.len(),
            forall|a: usize| #[trigger]
                deps@.contains_key(a) <==> remaining@.take(i as int).contains(a),
            forall|a: usize, b: usize| deps@.contains_key(a) ==> !(#[trigger] deps@[a]@.contains(b)),
        decreases n - i,
    {
        let id = remaining[i];
        proof {
            assert(remaining@.take(i + 1) =~= remaining@.take(i as int).push(id));
            assert forall|a: usize|
                remaining@.take(i + 1).contains(a) <==> remaining@.take(i as int).contains(a) || a
                    == id by {
                lemma_push_contains(remaining@.take(i as int), id, a);
            }
        }
        deps.insert(id, HashSet::new());
        i += 1;
    }
    assert(remaining@.take(n as int) =~= remaining@);
    let m = conns.len();
    let mut k: usize = 0;
    while k < m
        invariant
            k <= m,
            m == conns@.len(),
            dependencies_of(deps@, remaining@, conns@, k as int),
        decreases m - k,
    {
        let c = conns[k];
        let ghost before = deps@;
        proof {
            assert forall|a: usize, b: usize|
                joined_by(conns@, k + 1, b, a) <==> joined_by(conns@, k as int, b, a) || (b
                    == c.from_node_id && a == c.to_node_id) by {
                if joined_by(conns@, k + 1, b, a) {
                    let i = choose|i: int|
                        0 <= i < k + 1 && conns@[i].from_node_id == b && conns@[i].to_node_id == a;
                    if i < k {
                        assert(joined_by(conns@, k as int, b, a));
                    }
                }
                if joined_by(conns@, k as int, b, a) {
                    let i = choose|i: int|
                        0 <= i < k && conns@[i].from_node_id == b && conns@[i].to_node_id == a;
                    assert(0 <= i < k + 1 && conns@[i].from_node_id == b && conns@[i].to_node_id
                        == a);
                }
                if b == c.from_node_id && a == c.to_node_id {
                    assert(0 <= k < k + 1 && conns@[k as int].from_node_id == b
                        && conns@[k as int].to_node_id == a);
                }
            }
        }
        if deps.contains_key(&c.from_node_id) {
            if let Some(mut set) = deps.remove(&c.to_node_id) {
                set.insert(c.from_node_id);
                deps.insert(c.to_node_id, set);
                assert(deps@.dom() =~= before.dom());
                assert(deps@[c.to_node_id]@ == before[c.to_node_id]@.insert(c.from_node_id));
            }
        }
        k += 1;
    }
    deps
}

impl Workflow {
    /// The model nodes that need execution, in ascending id order.
    pub fn eligible_nodes(&self) -> (ids: Vec<usize>)
        requires
            self.wf(),
        ensures
            ids@ == self@.eligible_nodes(),
    {
        let mut ids: Vec<usize> = Vec::new();
        let all = self.node_ids();
        let ghost dom = self@.nodes.dom();
        let ghost bound = self@.next_node_id as nat;
        let n = all.len();
        let mut k: usize = 0;
        proof {
            lemma_no_id_between(dom, bound, 0);
            lemma_eligible_gap(self@, 0, bound_at(all@, 0, bound));
        }
        while k < n
            invariant
                k <= n,
                n == all@.len(),
                all@ == ids_upto(dom, bound),
                dom == self@.nodes.dom(),
                bound == self@.next_node_id,
                ids@ == self@.eligible_upto(bound_at(all@, k as int, bound)),
            decreases n - k,
        {
            let id = all[k];
            proof {
                lemma_no_id_between(dom, bound, k as int);
                lemma_no_id_between(dom, bound, k + 1);
                lemma_eligible_gap(self@, (id + 1) as nat, bound_at(all@, k + 1, bound));
            }
            if let Some(node) = self.node(id) {
                let is_model = match &node.node_type {
                    NodeType::Model { .. } => true,
                    _ => false,
                };
                if is_model && node.needs_execution {
                    ids.push(id);
                }
            }
            assert(ids@ == self@.eligible_upto((id + 1) as nat));
            k += 1;
        }
        ids
    }

    /// The order in which the model nodes that need execution are to run: each after
    /// the nodes that feed it. Nodes caught in or behind a cycle are left out.
    pub fn execution_order(&self) -> (order: Vec<usize>)
        requires
            self.wf(),
        ensures
            order@ == self@.execution_order(),
    {
        let mut order: Vec<usize> = Vec::new();
        let mut remaining = self.eligible_nodes();
        let conns = self.connection_list();
        loop
            invariant
                self.wf(),
                conns@ == self@.connection_list(),
                order@ + self@.tiers(remaining@) == self@.execution_order(),
            decreases remaining@.len(),
        {
            let deps = build_dependencies(&remaining, &conns);
            let mut ready: Vec<usize> = Vec::new();
            let mut waiting: Vec<usize> = Vec::new();
            let n = remaining.len();
            let mut i: usize = 0;
            while i < n
                invariant
                    i <= n,
                    n == remaining@.len(),
                    self.wf(),
                    conns@ == self@.connection_list(),
                    dependencies_of(deps@, remaining@, conns@, conns@.len() as int),
                    ready@ == self@.ready_among(remaining@.take(i as int), remaining@),
                    waiting@ == self@.waiting_among(remaining@.take(i as int), remaining@),
                decreases n - i,
            {
                let id = remaining[i];
                proof {
                    assert(remaining@.take(i + 1).drop_last() =~= remaining@.take(i as int));
                    assert(remaining@.take(i + 1).last() == remaining@[i as int]);
                    assert(remaining@.contains(id));
                    lemma_waits_by_dependencies(self@, deps@, remaining@, id);
                }
                let waits = match deps.get(&id) {
                    Some(set) => !set.is_empty(),
                    None => false,
                };
                if waits {
                    waiting.push(id);
                } else {
                    ready.push(id);
                }
                i += 1;
            }
            proof {
                assert(remaining@.take(n as int) =~= remaining@);
                lemma_split_lengths(self@, remaining@, remaining@);
            }
            if ready.len() == 0 {
                assert(order@ + Seq::<usize>::empty() =~= order@);
                return order;
            }
            let ghost before = order@;
            order.append(&mut ready);
            assert(order@ + self@.tiers(waiting@) =~= before + self@.tiers(remaining@));
            remaining = waiting;
        }
    }
}

} // verus!
