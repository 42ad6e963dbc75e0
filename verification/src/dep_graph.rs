use vstd::prelude::*;
use crate::live_ptr::LiveModuleId;
use crate::module_table::holds_module;

verus! {

/// Whether the adjacency list of `module` holds `dep`.
pub open spec fn depends_on(
    graph: Seq<(LiveModuleId, Vec<LiveModuleId>)>,
    module: LiveModuleId,
    dep: LiveModuleId,
) -> bool {
    exists|i: int| 0 <= i < graph.len() && (#[trigger] graph[i]).0 == module && graph[i].1@.contains(dep)
}

/// Whether a chain of at most `steps` dependencies leads from `module` to
/// `root`.
pub open spec fn reaches_within(
    graph: Seq<(LiveModuleId, Vec<LiveModuleId>)>,
    module: LiveModuleId,
    root: LiveModuleId,
    steps: nat,
) -> bool
    decreases steps,
{
    module == root || (steps > 0 && exists|via: LiveModuleId|
        #[trigger] depends_on(graph, module, via) && reaches_within(graph, via, root, (steps - 1) as nat))
}

/// Whether `module` is `root` or depends on it, directly or through other
/// modules.
pub open spec fn is_dependent(
    graph: Seq<(LiveModuleId, Vec<LiveModuleId>)>,
    module: LiveModuleId,
    root: LiveModuleId,
) -> bool {
    exists|steps: nat| reaches_within(graph, module, root, steps)
}

/// Whether entry `index` of the graph depends directly on `root` or on the
/// module of a marked entry.
pub open spec fn entry_hit(
    graph: Seq<(LiveModuleId, Vec<LiveModuleId>)>,
    marks: Seq<bool>,
    root: LiveModuleId,
    index: int,
) -> bool {
    graph[index].1@.contains(root) || exists|j: int|
        0 <= j < graph.len() && #[trigger] marks[j] && graph[index].1@.contains(graph[j].0)
}

/// How many entries are not marked.
pub open spec fn unmarked(marks: Seq<bool>) -> nat
    decreases marks.len(),
{
    if marks.len() == 0 {
        0
    } else if marks.last() {
        unmarked(marks.drop_last())
    } else {
        unmarked(marks.drop_last()) + 1
    }
}

/// Marking an unmarked entry leaves one entry less unmarked.
proof fn lemma_mark_one(marks: Seq<bool>, index: int)
    requires
        0 <= index < marks.len(),
        !marks[index],
    ensures
        unmarked(marks.update(index, true)) + 1 == unmarked(marks),
    decreases marks.len(),
{
    let after = marks.update(index, true);
    if index == marks.len() - 1 {
        assert(after.drop_last() == marks.drop_last());
    } else {
        assert(after.drop_last() == marks.drop_last().update(index, true));
        lemma_mark_one(marks.drop_last(), index);
    }
}

/// A module that depends on a dependent of `root` is a dependent of `root`.
pub proof fn lemma_dependent_step(
    graph: Seq<(LiveModuleId, Vec<LiveModuleId>)>,
    module: LiveModuleId,
    via: LiveModuleId,
    root: LiveModuleId,
)
    requires
        depends_on(graph, module, via),
        is_dependent(graph, via, root),
    ensures
        is_dependent(graph, module, root),
{
    let steps = choose|steps: nat| reaches_within(graph, via, root, steps);
    assert(reaches_within(graph, via, root, ((steps + 1) - 1) as nat));
    assert(reaches_within(graph, module, root, steps + 1));
}

/// Where the marks are closed under direct dependence, every dependent of
/// `root` but `root` itself is the module of a marked entry.
proof fn lemma_closed_marks(
    graph: Seq<(LiveModuleId, Vec<LiveModuleId>)>,
    marks: Seq<bool>,
    root: LiveModuleId,
    module: LiveModuleId,
    steps: nat,
)
    requires
        marks.len() == graph.len(),
        forall|i: int| 0 <= i < graph.len() && #[trigger] entry_hit(graph, marks, root, i) ==> marks[i],
        reaches_within(graph, module, root, steps),
        module != root,
    ensures
        exists|i: int| 0 <= i < graph.len() && #[trigger] marks[i] && graph[i].0 == module,
    decreases steps,
{
    let via = choose|via: LiveModuleId|
        #[trigger] depends_on(graph, module, via) && reaches_within(graph, via, root, (steps - 1) as nat);
    let i = choose|i: int| 0 <= i < graph.len() && (#[trigger] graph[i]).0 == module && graph[i].1@.contains(via);
    if via != root {
        lemma_closed_marks(graph, marks, root, via, (steps - 1) as nat);
        let j = choose|j: int| 0 <= j < graph.len() && #[trigger] marks[j] && graph[j].0 == via;
        assert(marks[j] && graph[i].1@.contains(graph[j].0));
    }
    assert(entry_hit(graph, marks, root, i));
    assert(marks[i] && graph[i].0 == module);
}

/// Whether an entry depends directly on `root` or on a marked module.
fn is_hit(graph: &Vec<(LiveModuleId, Vec<LiveModuleId>)>, marks: &Vec<bool>, root: LiveModuleId, index: usize) -> (r:
    bool)
    requires
        index < graph@.len(),
        marks@.len() == graph@.len(),
    ensures
        r == entry_hit(graph@, marks@, root, index as int),
{
    if holds_module(&graph[index].1, root) {
        return true;
    }
    let mut j: usize = 0;
    while j < graph.len()
        invariant
            j <= graph@.len(),
            index < graph@.len(),
            marks@.len() == graph@.len(),
            !graph@[index as int].1@.contains(root),
            forall|k: int| 0 <= k < j ==> !(#[trigger] marks@[k] && graph@[index as int].1@.contains(graph@[k].0)),
        decreases graph@.len() - j,
    {
        if marks[j] && holds_module(&graph[index].1, graph[j].0) {
            return true;
        }
        j += 1;
    }
    false
}

/// Marks the entries of the graph whose modules depend on `root`, directly
/// or through other modules.
pub fn dependents(graph: &Vec<(LiveModuleId, Vec<LiveModuleId>)>, root: LiveModuleId) -> (marks: Vec<bool>)
    ensures
        marks@.len() == graph@.len(),
        forall|i: int| 0 <= i < graph@.len() && #[trigger] marks@[i] ==> is_dependent(graph@, graph@[i].0, root),
        forall|module: LiveModuleId|
            module != root && #[trigger] is_dependent(graph@, module, root) ==> exists|i: int|
                0 <= i < graph@.len() && #[trigger] marks@[i] && graph@[i].0 == module,
{
    let mut marks: Vec<bool> = Vec::new();
    let mut n: usize = 0;
    while n < graph.len()
        invariant
            n <= graph@.len(),
            marks@.len() == n,
            forall|i: int| 0 <= i < n ==> !marks@[i],
        decreases graph@.len() - n,
    {
        marks.push(false);
        n += 1;
    }
    loop
        invariant
            marks@.len() == graph@.len(),
            forall|i: int| 0 <= i < graph@.len() && #[trigger] marks@[i] ==> is_dependent(graph@, graph@[i].0, root),
        ensures
            marks@.len() == graph@.len(),
            forall|i: int| 0 <= i < graph@.len() && #[trigger] marks@[i] ==> is_dependent(graph@, graph@[i].0, root),
            forall|i: int| 0 <= i < graph@.len() && #[trigger] entry_hit(graph@, marks@, root, i) ==> marks@[i],
        decreases unmarked(marks@),
    {
        let ghost before = marks@;
        let mut changed = false;
        let mut i: usize = 0;
        while i < graph.len()
            invariant
                i <= graph@.len(),
                marks@.len() == graph@.len(),
                before.len() == graph@.len(),
                forall|k: int|
                    0 <= k < graph@.len() && #[trigger] marks@[k] ==> is_dependent(graph@, graph@[k].0, root),
                !changed ==> marks@ == before,
                changed ==> unmarked(marks@) < unmarked(before),
                !changed ==> forall|k: int| 0 <= k < i && #[trigger] entry_hit(graph@, marks@, root, k) ==> marks@[k],
            decreases graph@.len() - i,
        {
            if !marks[i] && is_hit(graph, &marks, root, i) {
                proof {
                    lemma_mark_one(marks@, i as int);
                    let module = graph@[i as int].0;
                    if graph@[i as int].1@.contains(root) {
                        assert(depends_on(graph@, module, root));
                        assert(reaches_within(graph@, root, root, 0));
                        assert(is_dependent(graph@, root, root));
                        lemma_dependent_step(graph@, module, root, root);
                    } else {
                        let j = choose|j: int|
                            0 <= j < graph@.len() && #[trigger] marks@[j] && graph@[i as int].1@.contains(
                                graph@[j].0,
                            );
                        assert(depends_on(graph@, module, graph@[j].0));
                        lemma_dependent_step(graph@, module, graph@[j].0, root);
                    }
                }
                marks.set(i, true);
                changed = true;
            }
            i += 1;
        }
        if !changed {
            break;
        }
    }
    proof {
        assert forall|module: LiveModuleId| module != root && #[trigger] is_dependent(
            graph@,
            module,
            root,
        ) implies exists|i: int| 0 <= i < graph@.len() && #[trigger] marks@[i] && graph@[i].0 == module by {
            let steps = choose|steps: nat| reaches_within(graph@, module, root, steps);
            lemma_closed_marks(graph@, marks@, root, module, steps);
        }
    }
    marks
}

} // verus!
