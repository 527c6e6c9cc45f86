//! The edits that the forms of the nodes make to a graph: a node is reset or shown
//! larger, a model is chosen, a file is imported, the place of an export is set.

use crate::model::{bound_at, ids_upto, lemma_no_id_between, WorkflowView};
use crate::nodes::{opt_text, Node, NodeType, NodeTypeView, NodeView};
use crate::workflow::Workflow;
use vstd::prelude::*;
use vstd::string::StringExecFns;

verus! {

/// Why the input of an export node cannot be written to a file.
#[derive(Clone, Copy, Debug, PartialEq, Eq, Structural)]
pub enum ExportError {
    /// There is no export node with the given id.
    NotAnExport,
    /// The node has no input, no folder or no file name yet.
    Incomplete,
    /// The file name is empty.
    EmptyFileName,
}

/// Where the input of an export node goes, and what is written there.
#[derive(Clone, Debug, PartialEq, Eq)]
pub struct ExportTarget {
    pub folder: String,
    pub file_name: String,
    pub content: String,
}

/// An optional text that is absent when the text is empty.
pub open spec fn non_empty(text: Seq<char>) -> Option<Seq<char>> {
    if text.len() == 0 {
        None
    } else {
        Some(text)
    }
}

impl NodeView {
    /// The node shown larger if it was shown at its own size, and the other way round.
    pub open spec fn toggle_maximized(self) -> NodeView {
        NodeView { is_maximized: !self.is_maximized, ..self }
    }

    /// The model node with the model `name` chosen; a node of another kind is unchanged.
    pub open spec fn with_model_name(self, name: Seq<char>) -> NodeView {
        match self.node_type {
            NodeTypeView::Model { provider, messages, thinking, .. } => NodeView {
                node_type: NodeTypeView::Model { provider, model_name: name, messages, thinking },
                ..self
            },
            _ => self,
        }
    }

    /// The model node with thinking switched on or off; a node of another kind is
    /// unchanged.
    pub open spec fn with_thinking(self, on: bool) -> NodeView {
        match self.node_type {
            NodeTypeView::Model { provider, model_name, messages, .. } => NodeView {
                node_type: NodeTypeView::Model { provider, model_name, messages, thinking: on },
                ..self
            },
            _ => self,
        }
    }

    /// The import node after the file `name` at `path` has been read: the file's content
    /// is the node's output, and the node needs no execution. A node of another kind is
    /// unchanged.
    pub open spec fn with_imported_file(
        self,
        path: Seq<char>,
        name: Seq<char>,
        content: Seq<char>,
    ) -> NodeView {
        match self.node_type {
            NodeTypeView::FileImport { .. } => NodeView {
                node_type: NodeTypeView::FileImport {
                    file_path: Some(path),
                    file_name: Some(name),
                },
                output: Some(content),
                needs_execution: false,
                ..self
            },
            _ => self,
        }
    }

    /// The export node with the folder set, or unset if `folder` is empty, and marked as
    /// needing execution. A node of another kind is unchanged.
    pub open spec fn with_export_folder(self, folder: Seq<char>) -> NodeView {
        match self.node_type {
            NodeTypeView::FileExport { file_name, file_type, .. } => NodeView {
                node_type: NodeTypeView::FileExport {
                    folder_path: non_empty(folder),
                    file_name,
                    file_type,
                },
                needs_execution: true,
                ..self
            },
            _ => self,
        }
    }

    /// The export node with the file name set, or unset if `name` is empty, and marked
    /// as needing execution. A node of another kind is unchanged.
    pub open spec fn with_export_file_name(self, name: Seq<char>) -> NodeView {
        match self.node_type {
            NodeTypeView::FileExport { folder_path, file_type, .. } => NodeView {
                node_type: NodeTypeView::FileExport {
                    folder_path,
                    file_name: non_empty(name),
                    file_type,
                },
                needs_execution: true,
                ..self
            },
            _ => self,
        }
    }

    /// The export node with the file type set and marked as needing execution. A node
    /// of another kind is unchanged.
    pub open spec fn with_export_file_type(self, file_type: Seq<char>) -> NodeView {
        match self.node_type {
            NodeTypeView::FileExport { folder_path, file_name, .. } => NodeView {
                node_type: NodeTypeView::FileExport { folder_path, file_name, file_type },
                needs_execution: true,
                ..self
            },
            _ => self,
        }
    }

    /// Whether the input of this node can be written to a file and, if not, why not.
    pub open spec fn export_check(self) -> Result<(), ExportError> {
        match self.node_type {
            NodeTypeView::FileExport { folder_path, file_name, .. } => {
                if self.input is None || folder_path is None || file_name is None {
                    Err(ExportError::Incomplete)
                } else if file_name->0.len() == 0 {
                    Err(ExportError::EmptyFileName)
                } else {
                    Ok(())
                }
            },
            _ => Err(ExportError::NotAnExport),
        }
    }

    /// The name of the file that an export node writes: its file name, a dot, and its
    /// file type.
    pub open spec fn export_file_name(self) -> Seq<char> {
        self.node_type->FileExport_file_name->0 + seq!['.'] + self.node_type->FileExport_file_type
    }
}

impl WorkflowView {
    /// The graph with the node `id` replaced by `node`. Nothing changes if there is no
    /// node `id`.
    pub open spec fn edit(self, id: usize, node: NodeView) -> WorkflowView {
        if self.nodes.contains_key(id) {
            self.with_node(id, node)
        } else {
            self
        }
    }

    /// The graph after the node `id` has been reset: its output and its payload are
    /// forgotten, it needs execution, and the nodes it feeds get their inputs recomputed
    /// without its output. Nothing changes if there is no such node.
    pub open spec fn reset_node(self, id: usize) -> WorkflowView {
        if self.nodes.contains_key(id) {
            self.with_node(id, self.nodes[id].reset()).propagate(id)
        } else {
            self
        }
    }

    /// The graph after the file `name` at `path` has been read for the import node `id`:
    /// the file's content is the node's output, and the nodes it feeds get their inputs
    /// recomputed with it. Nothing changes if `id` is not an import node.
    pub open spec fn import_file(
        self,
        id: usize,
        path: Seq<char>,
        name: Seq<char>,
        content: Seq<char>,
    ) -> WorkflowView {
        if self.nodes.contains_key(id) && self.nodes[id].node_type is FileImport {
            self.with_node(id, self.nodes[id].with_imported_file(path, name, content)).propagate(
                id,
            )
        } else {
            self
        }
    }

    /// The rank of the node `node_id` among the inputs of the first node for which it has
    /// one, of the nodes it feeds through the connections with an id of `k` or more, in
    /// the order of the connection ids.
    pub open spec fn badge_from(self, node_id: usize, k: nat) -> Option<nat>
        decreases self.next_connection_id - k,
    {
        if k >= self.next_connection_id {
            None
        } else if self.connections.contains_key(k as usize)
            && self.connections[k as usize].from_node_id == node_id && self.input_order_number(
            node_id,
            self.connections[k as usize].to_node_id,
        ) is Some {
            self.input_order_number(node_id, self.connections[k as usize].to_node_id)
        } else {
            self.badge_from(node_id, k + 1)
        }
    }

    /// The rank shown on the node `node_id`, if it feeds a node with several inputs.
    pub open spec fn badge(self, node_id: usize) -> Option<nat> {
        self.badge_from(node_id, 0)
    }
}

/// The text of `text`, or nothing if it is empty.
pub fn unless_empty(text: String) -> (r: Option<String>)
    ensures
        opt_text(r) == non_empty(text@),
{
    if text.as_str().is_empty() {
        None
    } else {
        Some(text)
    }
}

impl Workflow {
    /// Shows the node `id` larger, or at its own size again.
    pub fn toggle_maximized(&mut self, id: usize)
        requires
            old(self).wf(),
        ensures
            final(self).wf(),
            final(self)@ == old(self)@.edit(id, old(self)@.nodes[id].toggle_maximized()),
    {
        if let Some(mut node) = self.take_node(id) {
            node.is_maximized = !node.is_maximized;
            self.put_node(node);
            assert(self@.nodes =~= old(self)@.nodes.insert(id, node@));
        } else {
            assert(self@.nodes =~= old(self)@.nodes);
        }
    }

    /// Resets the node `id`: its output and its payload are forgotten, it needs
    /// execution, and the nodes it feeds get their inputs recomputed.
    pub fn reset_node(&mut self, id: usize)
        requires
            old(self).wf(),
        ensures
            final(self).wf(),
            final(self)@ == old(self)@.reset_node(id),
    {
        if let Some(mut node) = self.take_node(id) {
            node.reset();
            self.put_node(node);
            assert(self@.nodes =~= old(self)@.nodes.insert(id, node@));
            self.propagate_output_to_connected_nodes(id);
        } else {
            assert(self@.nodes =~= old(self)@.nodes);
        }
    }

    /// Chooses the model `name` for the model node `id`.
    pub fn set_model_name(&mut self, id: usize, name: String)
        requires
            old(self).wf(),
        ensures
            final(self).wf(),
            final(self)@ == old(self)@.edit(id, old(self)@.nodes[id].with_model_name(name@)),
    {
        if let Some(mut node) = self.take_node(id) {
            match &mut node.node_type {
                NodeType::Model { model_name, .. } => {
                    *model_name = name;
                },
                _ => {},
            }
            self.put_node(node);
            assert(self@.nodes =~= old(self)@.nodes.insert(id, node@));
        } else {
            assert(self@.nodes =~= old(self)@.nodes);
        }
    }

    /// Switches thinking on or off for the model node `id`.
    pub fn set_thinking(&mut self, id: usize, on: bool)
        requires
            old(self).wf(),
        ensures
            final(self).wf(),
            final(self)@ == old(self)@.edit(id, old(self)@.nodes[id].with_thinking(on)),
    {
        if let Some(mut node) = self.take_node(id) {
            match &mut node.node_type {
                NodeType::Model { thinking, .. } => {
                    *thinking = on;
                },
                _ => {},
            }
            self.put_node(node);
            assert(self@.nodes =~= old(self)@.nodes.insert(id, node@));
        } else {
            assert(self@.nodes =~= old(self)@.nodes);
        }
    }

    /// Records that the file `name` at `path` has been read for the import node `id`:
    /// its content becomes the node's output and is propagated one hop.
    pub fn set_imported_file(&mut self, id: usize, path: String, name: String, content: String)
        requires
            old(self).wf(),
        ensures
            final(self).wf(),
            final(self)@ == old(self)@.import_file(id, path@, name@, content@),
    {
        if let Some(mut node) = self.take_node(id) {
            let is_import = match &mut node.node_type {
                NodeType::FileImport { file_path, file_name } => {
                    *file_path = Some(path);
                    *file_name = Some(name);
                    true
                },
                _ => false,
            };
            if is_import {
                node.output = Some(content);
                node.needs_execution = false;
            }
            self.put_node(node);
            assert(self@.nodes =~= old(self)@.nodes.insert(id, node@));
            if is_import {
                self.propagate_output_to_connected_nodes(id);
            } else {
                assert(self@.nodes =~= old(self)@.nodes);
            }
        } else {
            assert(self@.nodes =~= old(self)@.nodes);
        }
    }

    /// Sets the folder of the export node `id`; an empty text unsets it.
    pub fn set_export_folder(&mut self, id: usize, folder: String)
        requires
            old(self).wf(),
        ensures
            final(self).wf(),
            final(self)@ == old(self)@.edit(id, old(self)@.nodes[id].with_export_folder(folder@)),
    {
        if let Some(mut node) = self.take_node(id) {
            let is_export = match &mut node.node_type {
                NodeType::FileExport { folder_path, .. } => {
                    *folder_path = unless_empty(folder);
                    true
                },
                _ => false,
            };
            if is_export {
                node.needs_execution = true;
            }
            self.put_node(node);
            assert(self@.nodes =~= old(self)@.nodes.insert(id, node@));
        } else {
            assert(self@.nodes =~= old(self)@.nodes);
        }
    }

    /// Sets the file name of the export node `id`; an empty text unsets it.
    pub fn set_export_file_name(&mut self, id: usize, name: String)
        requires
            old(self).wf(),
        ensures
            final(self).wf(),
            final(self)@ == old(self)@.edit(id, old(self)@.nodes[id].with_export_file_name(name@)),
    {
        if let Some(mut node) = self.take_node(id) {
            let is_export = match &mut node.node_type {
                NodeType::FileExport { file_name, .. } => {
                    *file_name = unless_empty(name);
                    true
                },
                _ => false,
            };
            if is_export {
                node.needs_execution = true;
            }
            self.put_node(node);
            assert(self@.nodes =~= old(self)@.nodes.insert(id, node@));
        } else {
            assert(self@.nodes =~= old(self)@.nodes);
        }
    }

    /// Sets the file type of the export node `id`.
    pub fn set_export_file_type(&mut self, id: usize, file_type: String)
        requires
            old(self).wf(),
        ensures
            final(self).wf(),
            final(self)@ == old(self)@.edit(
                id,
                old(self)@.nodes[id].with_export_file_type(file_type@),
            ),
    {
        if let Some(mut node) = self.take_node(id) {
            let is_export = match &mut node.node_type {
                NodeType::FileExport { file_type: held, .. } => {
                    *held = file_type;
                    true
                },
                _ => false,
            };
            if is_export {
                node.needs_execution = true;
            }
            self.put_node(node);
            assert(self@.nodes =~= old(self)@.nodes.insert(id, node@));
        } else {
            assert(self@.nodes =~= old(self)@.nodes);
        }
    }

    /// What the export node `id` writes and where: its input goes to the file named by
    /// its file name and type, in its folder.
    pub fn export_target(&self, id: usize) -> (r: Result<ExportTarget, ExportError>)
        ensures
            match r {
                Ok(target) => {
                    let node = self@.nodes[id];
                    &&& self@.nodes.contains_key(id)
                    &&& node.export_check() is Ok
                    &&& target.folder@ == node.node_type->FileExport_folder_path->0
                    &&& target.file_name@ == node.export_file_name()
                    &&& target.content@ == node.input->0
                },
                Err(e) => if self@.nodes.contains_key(id) {
                    self@.nodes[id].export_check() == Err::<(), ExportError>(e)
                } else {
                    e == ExportError::NotAnExport
                },
            },
    {
        let node = match self.node(id) {
            Some(node) => node,
            None => { return Err(ExportError::NotAnExport); },
        };
        match &node.node_type {
            NodeType::FileExport { folder_path, file_name, file_type } => {
                match (&node.input, folder_path, file_name) {
                    (Some(input), Some(folder), Some(name)) => {
                        if name.as_str().is_empty() {
                            return Err(ExportError::EmptyFileName);
                        }
                        let mut full = name.clone();
                        proof {
                            reveal_strlit(".");
                            assert("."@ =~= seq!['.']);
                        }
                        full.append(".");
                        full.append(file_type.as_str());
                        Ok(
                            ExportTarget {
                                folder: folder.clone(),
                                file_name: full,
                                content: input.clone(),
                            },
                        )
                    },
                    _ => Err(ExportError::Incomplete),
                }
            },
            _ => Err(ExportError::NotAnExport),
        }
    }

    /// The rank shown on the node `node_id`: its rank among the inputs of the first node
    /// that it feeds and that has several inputs.
    pub fn input_order_badge(&self, node_id: usize) -> (rank: Option<usize>)
        requires
            self.wf(),
        ensures
            match rank {
                Some(r) => self@.badge(node_id) == Some(r as nat),
                None => self@.badge(node_id) is None,
            },
    {
        let ids = self.connection_ids();
        let ghost dom = self@.connections.dom();
        let ghost bound = self@.next_connection_id as nat;
        let n = ids.len();
        let mut k: usize = 0;
        proof {
            lemma_no_id_between(dom, bound, 0);
            lemma_badge_gap(self@, node_id, 0, bound_at(ids@, 0, bound));
        }
        while k < n
            invariant
                k <= n,
                n == ids@.len(),
                ids@ == ids_upto(dom, bound),
                dom == self@.connections.dom(),
                bound == self@.next_connection_id,
                self.wf(),
                self@.badge(node_id) == self@.badge_from(node_id, bound_at(ids@, k as int, bound)),
            decreases n - k,
        {
            let cid = ids[k];
            proof {
                lemma_no_id_between(dom, bound, k as int);
                lemma_no_id_between(dom, bound, k + 1);
                lemma_badge_gap(self@, node_id, (cid + 1) as nat, bound_at(ids@, k + 1, bound));
            }
            if let Some(c) = self.connection(cid) {
                if c.from_node_id == node_id {
                    let rank = self.get_input_order_number(node_id, c.to_node_id);
                    if rank.is_some() {
                        return rank;
                    }
                }
            }
            k += 1;
        }
        None
    }
}

/// Where no connection id is in use from `a` up to `b`, the rank found from `a` on is the
/// rank found from `b` on.
pub proof fn lemma_badge_gap(v: WorkflowView, node_id: usize, a: nat, b: nat)
    requires
        a <= b <= v.next_connection_id,
        forall|x: usize| a <= x < b ==> !v.connections.contains_key(x),
    ensures
        v.badge_from(node_id, a) == v.badge_from(node_id, b),
    decreases b - a,
{
    if a < b {
        assert(!v.connections.contains_key(a as usize));
        lemma_badge_gap(v, node_id, a + 1, b);
    }
}

} // verus!
