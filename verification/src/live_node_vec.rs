use vstd::prelude::*;
use crate::live_id::LiveId;
use crate::live_node::LiveNode;

verus! {

/// The nesting depth in front of node `index`: how many of the nodes before
/// it open a run of children, less how many close one.
pub open spec fn depth_at(nodes: Seq<LiveNode>, index: int) -> int
    decreases index,
{
    if index <= 0 {
        0
    } else if nodes[index - 1].value.is_open() {
        depth_at(nodes, index - 1) + 1
    } else if nodes[index - 1].value.is_close() {
        depth_at(nodes, index - 1) - 1
    } else {
        depth_at(nodes, index - 1)
    }
}

/// Whether place `index` lies inside the run of children that node `opener`
/// opens: the opener comes first, and the depth stays above the opener's own
/// from there up to `index`. The node that closes the run lies inside it.
pub open spec fn encloses(nodes: Seq<LiveNode>, opener: int, index: int) -> bool {
    &&& 0 <= opener < index <= nodes.len()
    &&& nodes[opener].value.is_open()
    &&& forall|k: int| opener < k <= index ==> depth_at(nodes, k) > depth_at(nodes, opener)
}

/// Whether node `child` is a direct child of node `parent`.
pub open spec fn is_child(nodes: Seq<LiveNode>, parent: int, child: int) -> bool {
    &&& child < nodes.len()
    &&& encloses(nodes, parent, child)
    &&& depth_at(nodes, child) == depth_at(nodes, parent) + 1
    &&& !nodes[child].value.is_close()
}

/// The first direct child of `parent` at or after `from` that has the name.
pub open spec fn child_by_name_from(nodes: Seq<LiveNode>, parent: int, name: LiveId, from: int) -> Option<usize>
    decreases nodes.len() - from,
{
    if from < 0 || from >= nodes.len() {
        None
    } else if is_child(nodes, parent, from) && nodes[from].id == name {
        Some(from as usize)
    } else {
        child_by_name_from(nodes, parent, name, from + 1)
    }
}

/// The first direct child of `parent` that has the name. A node that opens
/// no run of children has none.
pub open spec fn child_by_name_spec(nodes: Seq<LiveNode>, parent: int, name: LiveId) -> Option<usize> {
    if 0 <= parent < nodes.len() && nodes[parent].value.is_open() {
        child_by_name_from(nodes, parent, name, parent + 1)
    } else {
        None
    }
}

/// The first place at or after `from` where the depth is back at the depth
/// in front of `node`.
pub open spec fn level_return_from(nodes: Seq<LiveNode>, node: int, from: int) -> Option<int>
    decreases nodes.len() - from,
{
    if from < 0 || from >= nodes.len() {
        None
    } else if depth_at(nodes, from) <= depth_at(nodes, node) {
        Some(from)
    } else {
        level_return_from(nodes, node, from + 1)
    }
}

/// The sibling that follows `child`: the first node after it, and after its
/// children if it has any, unless that node closes the parent's run.
pub open spec fn next_child_spec(nodes: Seq<LiveNode>, child: int) -> Option<usize> {
    if 0 <= child < nodes.len() && !nodes[child].value.is_close() {
        match level_return_from(nodes, child, child + 1) {
            Some(next) => if nodes[next].value.is_close() {
                None
            } else {
                Some(next as usize)
            },
            None => None,
        }
    } else {
        None
    }
}

/// Whether node `opener` is a scope around `start` that holds the name: it is
/// `start` itself or one of the nodes that enclose it, and one of its direct
/// children has the name.
pub open spec fn scope_holds(nodes: Seq<LiveNode>, start: int, name: LiveId, opener: int) -> bool {
    encloses(nodes, opener, start + 1) && child_by_name_spec(nodes, opener, name) is Some
}

/// The search outward from `from`: the named child of the innermost scope
/// around `start`, at or before `from`, that holds the name.
pub open spec fn scope_search_from(nodes: Seq<LiveNode>, start: int, name: LiveId, from: int) -> Option<usize>
    decreases from + 1,
{
    if from < 0 {
        None
    } else if scope_holds(nodes, start, name, from) {
        child_by_name_spec(nodes, from, name)
    } else {
        scope_search_from(nodes, start, name, from - 1)
    }
}

/// The node that a name refers to at `start`: the first child of that name in
/// the innermost scope that has one, where the scopes are `start` itself, if
/// it opens a run of children, and the nodes that enclose it.
pub open spec fn scope_up_down_by_name_spec(nodes: Seq<LiveNode>, start: int, name: LiveId) -> Option<usize> {
    if 0 <= start < nodes.len() {
        scope_search_from(nodes, start, name, start)
    } else {
        None
    }
}

/// Beyond a place where the depth is back at the parent's own, the parent has
/// no children.
pub proof fn lemma_no_child_beyond(nodes: Seq<LiveNode>, parent: int, name: LiveId, back: int, from: int)
    requires
        parent < back <= from,
        depth_at(nodes, back) <= depth_at(nodes, parent),
    ensures
        child_by_name_from(nodes, parent, name, from) is None,
    decreases nodes.len() - from,
{
    if 0 <= from < nodes.len() {
        lemma_no_child_beyond(nodes, parent, name, back, from + 1);
    }
}

/// What `child_by_name_spec` finds is a direct child with the name, and no
/// direct child before it has the name.
pub proof fn lemma_child_by_name_from(nodes: Seq<LiveNode>, parent: int, name: LiveId, from: int)
    requires
        0 <= from,
        nodes.len() <= usize::MAX,
    ensures
        match child_by_name_from(nodes, parent, name, from) {
            Some(child) => {
                &&& from <= child < nodes.len()
                &&& is_child(nodes, parent, child as int)
                &&& nodes[child as int].id == name
                &&& forall|c: int|
                    from <= c < child ==> !(#[trigger] is_child(nodes, parent, c) && nodes[c].id == name)
            },
            None => forall|c: int|
                from <= c < nodes.len() ==> !(#[trigger] is_child(nodes, parent, c) && nodes[c].id == name),
        },
    decreases nodes.len() - from,
{
    if from < nodes.len() && !(is_child(nodes, parent, from) && nodes[from].id == name) {
        lemma_child_by_name_from(nodes, parent, name, from + 1);
    }
}

/// Finds the first direct child of a node that has the given name.
pub fn child_by_name(nodes: &[LiveNode], parent_index: usize, name: LiveId) -> (r: Option<usize>)
    ensures
        r == child_by_name_spec(nodes@, parent_index as int, name),
        r matches Some(child) ==> parent_index < child < nodes@.len() && is_child(
            nodes@,
            parent_index as int,
            child as int,
        ) && nodes@[child as int].id == name,
{
    if parent_index >= nodes.len() || !nodes[parent_index].value.is_open() {
        return None;
    }
    proof {
        lemma_child_by_name_from(nodes@, parent_index as int, name, parent_index + 1);
    }
    let mut index: usize = parent_index + 1;
    let mut depth: usize = 1;
    while index < nodes.len()
        invariant
            parent_index < index <= nodes@.len(),
            nodes@[parent_index as int].value.is_open(),
            1 <= depth <= index - parent_index,
            depth == depth_at(nodes@, index as int) - depth_at(nodes@, parent_index as int),
            forall|k: int| parent_index < k <= index ==> depth_at(nodes@, k) > depth_at(nodes@, parent_index as int),
            child_by_name_from(nodes@, parent_index as int, name, index as int) == child_by_name_from(
                nodes@,
                parent_index as int,
                name,
                parent_index + 1,
            ),
        decreases nodes@.len() - index,
    {
        let node = &nodes[index];
        if node.value.is_close() {
            depth -= 1;
            if depth == 0 {
                proof {
                    lemma_no_child_beyond(nodes@, parent_index as int, name, index + 1, index + 1);
                }
                return None;
            }
        } else {
            if depth == 1 && node.id == name {
                return Some(index);
            }
            if node.value.is_open() {
                depth += 1;
            }
        }
        index += 1;
    }
    None
}

/// Finds the sibling that follows a node.
pub fn next_child(nodes: &[LiveNode], child_index: usize) -> (r: Option<usize>)
    ensures
        r == next_child_spec(nodes@, child_index as int),
        r matches Some(next) ==> child_index < next < nodes@.len(),
{
    if child_index >= nodes.len() || nodes[child_index].value.is_close() {
        return None;
    }
    let mut depth: usize = if nodes[child_index].value.is_open() {
        1
    } else {
        0
    };
    let mut index: usize = child_index + 1;
    while index < nodes.len()
        invariant
            child_index < index <= nodes@.len(),
            depth <= index - child_index,
            depth == depth_at(nodes@, index as int) - depth_at(nodes@, child_index as int),
            level_return_from(nodes@, child_index as int, index as int) == level_return_from(
                nodes@,
                child_index as int,
                child_index + 1,
            ),
        decreases nodes@.len() - index,
    {
        let node = &nodes[index];
        if depth == 0 {
            if node.value.is_close() {
                return None;
            }
            return Some(index);
        }
        if node.value.is_open() {
            depth += 1;
        } else if node.value.is_close() {
            depth -= 1;
        }
        index += 1;
    }
    None
}

/// Looks a name up from a node outward: among the children of the node
/// itself, then among those of each node that encloses it, innermost first.
pub fn scope_up_down_by_name(nodes: &[LiveNode], start_index: usize, name: LiveId) -> (r: Option<usize>)
    ensures
        r == scope_up_down_by_name_spec(nodes@, start_index as int, name),
        r matches Some(found) ==> found < nodes@.len(),
{
    if start_index >= nodes.len() {
        return None;
    }
    let mut index: usize = start_index;
    let mut depth: usize = 0;
    let ghost mut low: int = depth_at(nodes@, start_index + 1);
    let ghost mut witness: int = start_index + 1;
    loop
        invariant
            index <= start_index < nodes@.len(),
            depth <= start_index - index,
            depth == depth_at(nodes@, index + 1) - low,
            forall|k: int| index < k <= start_index + 1 ==> depth_at(nodes@, k) >= low,
            index < witness <= start_index + 1,
            depth_at(nodes@, witness) == low,
            scope_search_from(nodes@, start_index as int, name, index as int) == scope_search_from(
                nodes@,
                start_index as int,
                name,
                start_index as int,
            ),
        decreases index,
    {
        let node = &nodes[index];
        if node.value.is_open() {
            if depth == 0 {
                assert(encloses(nodes@, index as int, start_index + 1));
                match child_by_name(nodes, index, name) {
                    Some(child) => {
                        return Some(child);
                    },
                    None => {},
                }
                proof {
                    low = low - 1;
                    witness = index as int;
                }
            } else {
                assert(!encloses(nodes@, index as int, start_index + 1));
                depth -= 1;
            }
        } else if node.value.is_close() {
            depth += 1;
        }
        assert(!scope_holds(nodes@, start_index as int, name, index as int));
        if index == 0 {
            assert(scope_search_from(nodes@, start_index as int, name, -1) is None);
            return None;
        }
        index -= 1;
    }
}

} // verus!
