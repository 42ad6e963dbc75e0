use vstd::prelude::*;
use crate::live_id::LiveId;
use crate::live_node::{LiveNode, LiveNodeOrigin, LiveValue};
use crate::live_node_vec::{
    child_by_name, child_by_name_spec, next_child, next_child_spec, scope_up_down_by_name,
    scope_up_down_by_name_spec,
};
use crate::live_ptr::{LiveFileId, LiveModuleId, LivePtr};
use crate::live_registry::{LiveDocNodes, LiveRegistry, LiveScopeTarget};
use crate::module_table::lookup;

verus! {

impl LiveRegistry {
    /// The top-level definition of the given name in the expanded document
    /// of a module, if the module is held by a file and exports the name.
    pub open spec fn exported(&self, module_id: LiveModuleId, name: LiveId) -> Option<LivePtr> {
        match lookup(self.module_id_to_file_id@, module_id) {
            Some(file_id) => if file_id.0 < self.expanded@.len() {
                match child_by_name_spec(self.expanded@[file_id.0 as int].nodes@, 0, name) {
                    Some(index) => Some(LivePtr { file_id, index: index as u32 }),
                    None => None,
                }
            } else {
                None
            },
            None => None,
        }
    }

    /// The file and node that a module and a name stand for: the module's
    /// root for the empty name, else its top-level definition of that name.
    pub open spec fn module_name_target(&self, module_id: LiveModuleId, name: LiveId) -> Option<
        (LiveFileId, usize),
    > {
        match lookup(self.module_id_to_file_id@, module_id) {
            Some(file_id) => if file_id.0 >= self.expanded@.len() {
                None
            } else if name == LiveId::empty() {
                Some((file_id, 0usize))
            } else {
                match child_by_name_spec(self.expanded@[file_id.0 as int].nodes@, 0, name) {
                    Some(index) => Some((file_id, index)),
                    None => None,
                }
            },
            None => None,
        }
    }

    /// What a name resolves to when the search starts at the class node that
    /// `ptr` addresses. The scopes around the node are searched first; a
    /// match that is an import is followed into the imported module and
    /// decides the search either way. Without a match the search goes on at
    /// the node's class parent, if that lies in another file, for at most
    /// `hops` such steps.
    pub open spec fn class_parent_target(&self, ptr: LivePtr, item: LiveId, hops: nat) -> Option<
        (LiveFileId, usize),
    >
        decreases hops,
    {
        if !self.valid_ptr(ptr) {
            None
        } else {
            let nodes = self.expanded@[ptr.file_id.0 as int].nodes@;
            match nodes[ptr.index as int].value {
                LiveValue::Class { class_parent, .. } => match scope_up_down_by_name_spec(
                    nodes,
                    ptr.index as int,
                    item,
                ) {
                    Some(found) => match nodes[found as int].value {
                        LiveValue::Use(module_id) => self.module_name_target(module_id, nodes[found as int].id),
                        _ => Some((ptr.file_id, found)),
                    },
                    None => match class_parent {
                        Some(parent) => if parent.file_id != ptr.file_id && hops > 0 {
                            self.class_parent_target(parent, item, (hops - 1) as nat)
                        } else {
                            None
                        },
                        None => None,
                    },
                },
                _ => None,
            }
        }
    }

    /// What the wildcard import at node `at` gives for a name, if the node
    /// is one and its module exports the name.
    pub open spec fn glob_hit(&self, nodes: Seq<LiveNode>, item: LiveId, at: int) -> Option<LivePtr> {
        match nodes[at].value {
            LiveValue::Use(module_id) => if nodes[at].id == LiveId::empty() {
                self.exported(module_id, item)
            } else {
                None
            },
            _ => None,
        }
    }

    /// The first wildcard import, among node `at` and the siblings that
    /// follow it, whose module exports the name.
    pub open spec fn glob_target_from(&self, nodes: Seq<LiveNode>, item: LiveId, at: int) -> Option<LivePtr>
        decreases nodes.len() - at,
    {
        if at < 0 || at >= nodes.len() {
            None
        } else {
            match self.glob_hit(nodes, item, at) {
                Some(ptr) => Some(ptr),
                None => match next_child_spec(nodes, at) {
                    Some(next) => if at < next < nodes.len() {
                        self.glob_target_from(nodes, item, next as int)
                    } else {
                        None
                    },
                    None => None,
                },
            }
        }
    }

    /// What a name resolves to when the search starts at node `index` of
    /// `nodes`. A match in the scopes around the node decides: a node that
    /// is no import is the target, and an import is followed into its
    /// module, which gives the target or nothing. Only where those scopes do
    /// not hold the name do the top-level wildcard imports decide: the first
    /// of them, in source order, whose module exports the name.
    pub open spec fn scope_target(&self, item: LiveId, index: int, nodes: Seq<LiveNode>) -> Option<
        LiveScopeTarget,
    > {
        match scope_up_down_by_name_spec(nodes, index, item) {
            Some(found) => match nodes[found as int].value {
                LiveValue::Use(module_id) => match self.exported(module_id, item) {
                    Some(ptr) => Some(LiveScopeTarget::LivePtr(ptr)),
                    None => None,
                },
                _ => Some(LiveScopeTarget::LocalPtr(found)),
            },
            None => match self.glob_target_from(nodes, item, 1) {
                Some(ptr) => Some(LiveScopeTarget::LivePtr(ptr)),
                None => None,
            },
        }
    }

    /// The pointer that a scope target stands for when the search started in
    /// the expanded document of `file_id`.
    pub open spec fn target_ptr(file_id: LiveFileId, target: Option<LiveScopeTarget>) -> Option<LivePtr> {
        match target {
            Some(LiveScopeTarget::LocalPtr(index)) => Some(LivePtr { file_id, index: index as u32 }),
            Some(LiveScopeTarget::LivePtr(ptr)) => Some(ptr),
            None => None,
        }
    }

    /// The top-level definition that a module exports under a name.
    pub fn exported_ptr(&self, module_id: LiveModuleId, name: LiveId) -> (r: Option<LivePtr>)
        ensures
            r == self.exported(module_id, name),
    {
        match self.module_id_to_file_id(module_id) {
            Some(file_id) => {
                if file_id.to_index() >= self.expanded.len() {
                    return None;
                }
                let doc = &self.expanded[file_id.to_index()];
                match child_by_name(doc.nodes.as_slice(), 0, name) {
                    Some(index) => Some(LivePtr { file_id, index: index as u32 }),
                    None => None,
                }
            },
            None => None,
        }
    }

    /// The expanded nodes of a module with the index of its top-level
    /// definition of the given name, or with index zero for the empty name.
    pub fn module_id_and_name_to_doc(&self, module_id: LiveModuleId, name: LiveId) -> (r: Option<LiveDocNodes<'_>>)
        ensures
            match self.module_name_target(module_id, name) {
                Some((file_id, index)) => r matches Some(found) && found.file_id == file_id && found.index == index
                    && found.nodes@ == self.expanded@[file_id.0 as int].nodes@,
                None => r is None,
            },
    {
        match self.module_id_to_file_id(module_id) {
            Some(file_id) => {
                if file_id.to_index() >= self.expanded.len() {
                    return None;
                }
                let doc = &self.expanded[file_id.to_index()];
                if name.0 != 0 {
                    match child_by_name(doc.nodes.as_slice(), 0, name) {
                        Some(index) => Some(LiveDocNodes { nodes: doc.nodes.as_slice(), file_id, index }),
                        None => None,
                    }
                } else {
                    Some(LiveDocNodes { nodes: doc.nodes.as_slice(), file_id, index: 0 })
                }
            },
            None => None,
        }
    }

    /// Resolves a name from a class node: in the scopes around the node,
    /// and where they do not hold it, from the node's class parent in
    /// another file, and so on along the chain of parents. The chain is
    /// followed through at most as many files as the registry holds; only
    /// modules that inherit from each other in a circle make a longer one.
    pub fn find_scope_item_via_class_parent(&self, start_ptr: LivePtr, item: LiveId) -> (r: Option<
        (&[LiveNode], usize),
    >)
        ensures
            match self.class_parent_target(start_ptr, item, self.expanded@.len()) {
                Some((file_id, index)) => r matches Some(found) && found.0@ == self.expanded@[file_id.0 as int].nodes@
                    && found.1 == index,
                None => r is None,
            },
    {
        let mut ptr = start_ptr;
        let mut hops: usize = self.expanded.len();
        loop
            invariant
                self.class_parent_target(ptr, item, hops as nat) == self.class_parent_target(
                    start_ptr,
                    item,
                    self.expanded@.len(),
                ),
            decreases hops,
        {
            if ptr.file_id.to_index() >= self.expanded.len() {
                return None;
            }
            let nodes = self.expanded[ptr.file_id.to_index()].nodes.as_slice();
            let index = ptr.index as usize;
            if index >= nodes.len() {
                return None;
            }
            match nodes[index].value {
                LiveValue::Class { class_parent, .. } => {
                    match scope_up_down_by_name(nodes, index, item) {
                        Some(found) => {
                            match nodes[found].value {
                                LiveValue::Use(module_id) => {
                                    return match self.module_id_and_name_to_doc(module_id, nodes[found].id) {
                                        Some(target) => Some((target.nodes, target.index)),
                                        None => None,
                                    };
                                },
                                _ => {
                                    return Some((nodes, found));
                                },
                            }
                        },
                        None => {
                            match class_parent {
                                Some(parent) => {
                                    if parent.file_id.0 != ptr.file_id.0 && hops > 0 {
                                        ptr = parent;
                                        hops -= 1;
                                    } else {
                                        return None;
                                    }
                                },
                                None => {
                                    return None;
                                },
                            }
                        },
                    }
                },
                _ => {
                    return None;
                },
            }
        }
    }

    /// Resolves a name from node `index` of `nodes`: in the scopes around
    /// the node, following an import into its module; and where those
    /// scopes do not hold the name, through the top-level wildcard imports
    /// in source order.
    pub fn find_scope_target_via_start(&self, item: LiveId, index: usize, nodes: &[LiveNode]) -> (r: Option<
        LiveScopeTarget,
    >)
        ensures
            r == self.scope_target(item, index as int, nodes@),
    {
        match scope_up_down_by_name(nodes, index, item) {
            Some(found) => {
                match nodes[found].value {
                    LiveValue::Use(module_id) => {
                        return match self.exported_ptr(module_id, item) {
                            Some(ptr) => Some(LiveScopeTarget::LivePtr(ptr)),
                            None => None,
                        };
                    },
                    _ => {
                        return Some(LiveScopeTarget::LocalPtr(found));
                    },
                }
            },
            None => {},
        }
        let mut at: usize = 1;
        while at < nodes.len()
            invariant
                self.glob_target_from(nodes@, item, at as int) == self.glob_target_from(nodes@, item, 1),
                self.scope_target(item, index as int, nodes@) == match self.glob_target_from(nodes@, item, 1) {
                    Some(ptr) => Some(LiveScopeTarget::LivePtr(ptr)),
                    None => None,
                },
            decreases nodes@.len() - at,
        {
            match nodes[at].value {
                LiveValue::Use(module_id) => {
                    if nodes[at].id.0 == 0 {
                        match self.exported_ptr(module_id, item) {
                            Some(ptr) => {
                                return Some(LiveScopeTarget::LivePtr(ptr));
                            },
                            None => {},
                        }
                    }
                },
                _ => {},
            }
            match next_child(nodes, at) {
                Some(next) => {
                    at = next;
                },
                None => {
                    return None;
                },
            }
        }
        None
    }

    /// Resolves a name from the place that a node's origin records: the
    /// file of its token and its index in that file's expanded document.
    pub fn find_scope_ptr_via_origin(&self, origin: LiveNodeOrigin, item: LiveId) -> (r: Option<LivePtr>)
        requires
            origin.token_id is Some,
            origin.node_index is Some,
            origin.token_id->0.file_id.0 < self.expanded@.len(),
        ensures
            r == LiveRegistry::target_ptr(
                origin.token_id->0.file_id,
                self.scope_target(
                    item,
                    origin.node_index->0 as int,
                    self.expanded@[origin.token_id->0.file_id.0 as int].nodes@,
                ),
            ),
    {
        let token_id = match origin.token_id() {
            Some(token_id) => token_id,
            None => {
                return None;
            },
        };
        let index = match origin.node_index() {
            Some(index) => index,
            None => {
                return None;
            },
        };
        let file_id = token_id.file_id();
        let doc = self.file_id_to_doc(file_id);
        match self.find_scope_target_via_start(item, index, doc.nodes.as_slice()) {
            Some(LiveScopeTarget::LocalPtr(index)) => Some(LivePtr { file_id, index: index as u32 }),
            Some(LiveScopeTarget::LivePtr(ptr)) => Some(ptr),
            None => None,
        }
    }
}

} // verus!
