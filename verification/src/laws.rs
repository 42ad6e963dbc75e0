use vstd::prelude::*;
use crate::dep_graph::{depends_on, is_dependent, lemma_dependent_step, reaches_within};
use crate::dep_order::{
    comes_before, lemma_comes_before, lemma_repair_puts_dependency_first, lemma_repaired_positions,
    position_after_repair,
};
use crate::live_id::LiveId;
use crate::live_node::{LiveNode, LiveTypeInfo, LiveValue};
use crate::live_node_vec::{next_child_spec, scope_up_down_by_name_spec};
use crate::live_ptr::{LiveFileId, LiveModuleId, LivePtr};
use crate::live_register::{
    distinct_deps, doc_deps, graph_view, marked_document, order_after_deps, registered, resolved_nodes,
};
use crate::live_registry::{file_named_from, lemma_file_named_from, LiveRegistry, MAX_FILES};
use crate::live_token::{TokenId, TokenWithSpan};
use crate::module_table::{
    distinct_modules, has_module, lemma_position, lemma_position_push, lemma_position_put, lemma_put_twice, lookup,
    position, table_put,
};
use crate::span::TextPos;
use crate::type_table::{lemma_merged_types_twice, merged_types};

verus! {

/// After the repairs for a run of dependencies of `own`, each of them but
/// `own` itself stands in front of `own`, and so does every module that
/// stood in front of it before.
pub proof fn lemma_dependencies_come_first(
    order: Seq<(LiveModuleId, TokenId)>,
    deps: Seq<(LiveModuleId, TokenId)>,
    own: LiveModuleId,
)
    requires
        distinct_modules(order),
        has_module(order, own),
    ensures
        distinct_modules(order_after_deps(order, deps, own)),
        has_module(order_after_deps(order, deps, own), own),
        forall|i: int|
            0 <= i < deps.len() && (#[trigger] deps[i]).0 != own ==> comes_before(
                order_after_deps(order, deps, own),
                deps[i].0,
                own,
            ),
        forall|module: LiveModuleId|
            comes_before(order, module, own) ==> #[trigger] comes_before(
                order_after_deps(order, deps, own),
                module,
                own,
            ),
    decreases deps.len(),
{
    if deps.len() > 0 {
        let rest = deps.drop_last();
        let middle = order_after_deps(order, rest, own);
        lemma_dependencies_come_first(order, rest, own);
        lemma_repaired_positions(middle, deps.last().0, deps.last().1, own);
        lemma_repair_puts_dependency_first(middle, deps.last().0, deps.last().1, own);
        assert forall|i: int| 0 <= i < deps.len() && (#[trigger] deps[i]).0 != own implies comes_before(
            order_after_deps(order, deps, own),
            deps[i].0,
            own,
        ) by {
            if i < deps.len() - 1 {
                assert(rest[i] == deps[i]);
            }
        }
    }
}

/// A registration leaves every dependency of the registered module, but
/// the module itself, in front of the module in the order.
pub proof fn lemma_registration_orders_dependencies(
    pre: LiveRegistry,
    post: LiveRegistry,
    file_name: Seq<char>,
    own: LiveModuleId,
    source: Seq<char>,
    infos: Seq<LiveTypeInfo>,
    start_pos: TextPos,
    nodes: Seq<LiveNode>,
    tokens: Seq<TokenWithSpan>,
    strings: Seq<char>,
    dep: LiveModuleId,
)
    requires
        pre.wf(),
        registered(pre, post, file_name, own, source, infos, start_pos, nodes, tokens, strings),
        dep != own,
        exists|i: int|
            0 <= i < doc_deps(
                resolved_nodes(nodes, own),
                merged_types(pre.live_type_infos@, infos),
                own,
            ).len() && (#[trigger] doc_deps(
                resolved_nodes(nodes, own),
                merged_types(pre.live_type_infos@, infos),
                own,
            )[i]).0 == dep,
    ensures
        comes_before(post.dep_order@, dep, own),
{
    let file_id = LiveFileId(pre.slot_for(file_name) as u16);
    let deps = doc_deps(resolved_nodes(nodes, own), merged_types(pre.live_type_infos@, infos), own);
    lemma_started_order(pre, own, file_id);
    lemma_dependencies_come_first(pre.started_order(own, file_id), deps, own);
}

/// The order that a registration starts from names the module, and no
/// module twice.
pub proof fn lemma_started_order(pre: LiveRegistry, own: LiveModuleId, file_id: LiveFileId)
    requires
        pre.wf(),
    ensures
        distinct_modules(pre.started_order(own, file_id)),
        has_module(pre.started_order(own, file_id), own),
        forall|module: LiveModuleId|
            has_module(pre.dep_order@, module) ==> #[trigger] has_module(pre.started_order(own, file_id), module),
{
    let order = pre.dep_order@;
    let entry = (own, TokenId { file_id, token_index: 0 });
    lemma_position(order, own);
    if !has_module(order, own) {
        let after = order.push(entry);
        assert forall|i: int, j: int| 0 <= i < j < after.len() implies (#[trigger] after[i]).0 != (
        #[trigger] after[j]).0 by {
            assert(after[i] == order[i]);
            if j < order.len() {
                assert(after[j] == order[j]);
            }
        }
        assert forall|module: LiveModuleId| has_module(order, module) implies #[trigger] has_module(
            after,
            module,
        ) by {
            lemma_position_push(order, entry, module);
        }
        lemma_position_push(order, entry, own);
    }
}

/// Editing a module makes the documents of its dependents stale: when a
/// module that the order names is registered anew, the expanded document of
/// every file that holds a module depending on it, directly or through
/// other modules, is stale afterwards.
pub proof fn lemma_edit_marks_dependents(
    pre: LiveRegistry,
    post: LiveRegistry,
    file_name: Seq<char>,
    own: LiveModuleId,
    source: Seq<char>,
    infos: Seq<LiveTypeInfo>,
    start_pos: TextPos,
    nodes: Seq<LiveNode>,
    tokens: Seq<TokenWithSpan>,
    strings: Seq<char>,
    dependent: LiveModuleId,
    file_id: LiveFileId,
)
    requires
        pre.wf(),
        registered(pre, post, file_name, own, source, infos, start_pos, nodes, tokens, strings),
        has_module(pre.dep_order@, own),
        is_dependent(pre.dep_graph@, dependent, own),
        lookup(pre.module_id_to_file_id@, dependent) == Some(file_id),
    ensures
        post.expanded@[file_id.0 as int].recompile,
{
    let file = file_id.0 as int;
    lemma_position(pre.module_id_to_file_id@, dependent);
    assert(LiveFileId(file as u16) == file_id);
    assert(pre.stale_through(own, file));
}

/// The law of the chain: where a module depends on a second one and the
/// second on a third, registering the third anew makes the expanded
/// documents of the files of the first two stale.
pub proof fn lemma_edit_marks_chain(
    pre: LiveRegistry,
    post: LiveRegistry,
    file_name: Seq<char>,
    own: LiveModuleId,
    source: Seq<char>,
    infos: Seq<LiveTypeInfo>,
    start_pos: TextPos,
    nodes: Seq<LiveNode>,
    tokens: Seq<TokenWithSpan>,
    strings: Seq<char>,
    second: LiveModuleId,
    second_file: LiveFileId,
    first: LiveModuleId,
    first_file: LiveFileId,
)
    requires
        pre.wf(),
        registered(pre, post, file_name, own, source, infos, start_pos, nodes, tokens, strings),
        has_module(pre.dep_order@, own),
        depends_on(pre.dep_graph@, second, own),
        depends_on(pre.dep_graph@, first, second),
        lookup(pre.module_id_to_file_id@, second) == Some(second_file),
        lookup(pre.module_id_to_file_id@, first) == Some(first_file),
    ensures
        post.expanded@[second_file.0 as int].recompile,
        post.expanded@[first_file.0 as int].recompile,
{
    assert(reaches_within(pre.dep_graph@, own, own, 0));
    assert(is_dependent(pre.dep_graph@, own, own));
    lemma_dependent_step(pre.dep_graph@, second, own, own);
    lemma_dependent_step(pre.dep_graph@, first, second, own);
    lemma_edit_marks_dependents(
        pre,
        post,
        file_name,
        own,
        source,
        infos,
        start_pos,
        nodes,
        tokens,
        strings,
        second,
        second_file,
    );
    lemma_edit_marks_dependents(
        pre,
        post,
        file_name,
        own,
        source,
        infos,
        start_pos,
        nodes,
        tokens,
        strings,
        first,
        first_file,
    );
}

/// Editing a module leaves unrelated documents alone: the expanded document
/// of a file other than the registered one stays as it was unless the file
/// holds a module that is the registered one or depends on it.
pub proof fn lemma_edit_spares_unrelated(
    pre: LiveRegistry,
    post: LiveRegistry,
    file_name: Seq<char>,
    own: LiveModuleId,
    source: Seq<char>,
    infos: Seq<LiveTypeInfo>,
    start_pos: TextPos,
    nodes: Seq<LiveNode>,
    tokens: Seq<TokenWithSpan>,
    strings: Seq<char>,
    file: int,
)
    requires
        pre.wf(),
        registered(pre, post, file_name, own, source, infos, start_pos, nodes, tokens, strings),
        0 <= file < pre.live_files@.len(),
        file != pre.slot_for(file_name),
        !pre.stale_through(own, file),
    ensures
        post.expanded@[file] == pre.expanded@[file],
{
    assert(post.expanded@[file] == marked_document(pre.expanded@[file], false));
}

/// A name that the scopes around a class node do not hold is looked up from
/// the node's class parent in another file: what the search finds there is
/// what the search from the node finds.
pub proof fn lemma_class_parent_is_searched(
    registry: LiveRegistry,
    start: LivePtr,
    parent: LivePtr,
    item: LiveId,
    hops: nat,
)
    requires
        registry.valid_ptr(start),
        registry.expanded@[start.file_id.0 as int].nodes@[start.index as int].value matches LiveValue::Class {
            class_parent,
            ..
        } && class_parent == Some(parent),
        parent.file_id != start.file_id,
        scope_up_down_by_name_spec(registry.expanded@[start.file_id.0 as int].nodes@, start.index as int, item)
            is None,
        hops > 0,
    ensures
        registry.class_parent_target(start, item, hops) == registry.class_parent_target(
            parent,
            item,
            (hops - 1) as nat,
        ),
{
}

/// A field that only the class parent in another file has resolves to the
/// parent's node: where the scopes around a class node do not hold a name,
/// and those around its class parent in another file hold it as a node that
/// is no import, the search from the class node gives that node.
pub proof fn lemma_inherited_field_resolves(
    registry: LiveRegistry,
    start: LivePtr,
    parent: LivePtr,
    item: LiveId,
    found: usize,
)
    requires
        registry.valid_ptr(start),
        registry.valid_ptr(parent),
        registry.expanded@[start.file_id.0 as int].nodes@[start.index as int].value matches LiveValue::Class {
            class_parent,
            ..
        } && class_parent == Some(parent),
        parent.file_id != start.file_id,
        scope_up_down_by_name_spec(registry.expanded@[start.file_id.0 as int].nodes@, start.index as int, item)
            is None,
        registry.expanded@[parent.file_id.0 as int].nodes@[parent.index as int].value is Class,
        scope_up_down_by_name_spec(registry.expanded@[parent.file_id.0 as int].nodes@, parent.index as int, item)
            == Some(found),
        !(registry.expanded@[parent.file_id.0 as int].nodes@[found as int].value is Use),
    ensures
        registry.class_parent_target(start, item, registry.expanded@.len()) == Some((parent.file_id, found)),
{
    let hops = registry.expanded@.len();
    assert(hops > 0);
    lemma_class_parent_is_searched(registry, start, parent, item, hops);
    assert(registry.class_parent_target(parent, item, (hops - 1) as nat) == Some((parent.file_id, found)));
}

/// Repairs for dependencies that stand in front of `own` already, or that
/// are `own` itself, leave the order as it is.
pub proof fn lemma_repairs_in_place(
    order: Seq<(LiveModuleId, TokenId)>,
    deps: Seq<(LiveModuleId, TokenId)>,
    own: LiveModuleId,
)
    requires
        distinct_modules(order),
        has_module(order, own),
        forall|i: int| 0 <= i < deps.len() ==> ((#[trigger] deps[i]).0 == own || comes_before(order, deps[i].0, own)),
    ensures
        order_after_deps(order, deps, own) == order,
    decreases deps.len(),
{
    if deps.len() > 0 {
        let rest = deps.drop_last();
        assert forall|i: int| 0 <= i < rest.len() implies ((#[trigger] rest[i]).0 == own || comes_before(
            order,
            rest[i].0,
            own,
        )) by {
            assert(rest[i] == deps[i]);
        }
        lemma_repairs_in_place(order, rest, own);
        let dep = deps.last().0;
        assert(deps[deps.len() - 1].0 == own || comes_before(order, deps[deps.len() - 1].0, own));
        lemma_position(order, own);
        lemma_position(order, dep);
        lemma_comes_before(order, dep, own);
    }
}

/// A registered file is found again in its slot.
pub proof fn lemma_slot_kept(
    pre: LiveRegistry,
    post: LiveRegistry,
    file_name: Seq<char>,
    own: LiveModuleId,
    source: Seq<char>,
    infos: Seq<LiveTypeInfo>,
    start_pos: TextPos,
    nodes: Seq<LiveNode>,
    tokens: Seq<TokenWithSpan>,
    strings: Seq<char>,
)
    requires
        pre.wf(),
        registered(pre, post, file_name, own, source, infos, start_pos, nodes, tokens, strings),
    ensures
        post.slot_for(file_name) == pre.slot_for(file_name),
        1 <= pre.slot_for(file_name) < post.live_files@.len(),
{
    let slot = pre.slot_for(file_name);
    lemma_file_named_from(pre.live_files@, file_name, 1);
    lemma_file_named_from(post.live_files@, file_name, 1);
    assert(post.live_files@[slot].file_name@ == file_name);
    match file_named_from(post.live_files@, file_name, 1) {
        Some(found) => {
            if found < slot {
                assert(post.live_files@[found] == pre.live_files@[found]);
            }
        },
        None => {},
    }
}

/// A chain of dependencies that leads to `own` does not pass through the
/// dependencies of `own` itself: it is there whatever they are. And where
/// such a chain starts at another module, some module depends on `own`.
pub proof fn lemma_chain_without_own_list(
    before: Seq<(LiveModuleId, Vec<LiveModuleId>)>,
    after: Seq<(LiveModuleId, Vec<LiveModuleId>)>,
    own: LiveModuleId,
    list: Seq<LiveModuleId>,
    module: LiveModuleId,
    steps: nat,
)
    requires
        graph_view(after) == table_put(graph_view(before), own, list),
        reaches_within(after, module, own, steps),
    ensures
        reaches_within(before, module, own, steps),
        module != own ==> exists|other: LiveModuleId| depends_on(before, other, own),
    decreases steps,
{
    if module != own {
        let via = choose|via: LiveModuleId| #[trigger]
            depends_on(after, module, via) && reaches_within(after, via, own, (steps - 1) as nat);
        let i = choose|i: int|
            0 <= i < after.len() && (#[trigger] after[i]).0 == module && after[i].1@.contains(via);
        let plain_before = graph_view(before);
        let plain_after = graph_view(after);
        lemma_position(plain_before, own);
        assert(plain_after[i] == (after[i].0, after[i].1@));
        match position(plain_before, own) {
            Some(at) => {
                assert(plain_after == plain_before.update(at, (own, list)));
                assert(plain_after[at].0 == own);
                assert(i != at);
            },
            None => {
                assert(plain_after == plain_before.push((own, list)));
                assert(plain_after[plain_before.len() as int].0 == own);
                assert(i != plain_before.len());
            },
        }
        assert(i < before.len() && plain_after[i] == plain_before[i]);
        assert(plain_before[i] == (before[i].0, before[i].1@));
        assert(before[i].0 == module && before[i].1@.contains(via));
        assert(depends_on(before, module, via));
        lemma_chain_without_own_list(before, after, own, list, via, (steps - 1) as nat);
        if via == own {
            assert(depends_on(before, module, own));
        }
    }
}

/// Registering the same content a second time changes nothing more: the
/// second registration leaves the table of types, the order, the graph and
/// the file of each module as the first one left them, and it leaves every
/// expanded document as it was, so that no document becomes stale that was
/// not stale after the first.
pub proof fn lemma_same_content_twice(
    pre: LiveRegistry,
    mid: LiveRegistry,
    post: LiveRegistry,
    file_name: Seq<char>,
    own: LiveModuleId,
    source: Seq<char>,
    infos: Seq<LiveTypeInfo>,
    start_pos: TextPos,
    nodes: Seq<LiveNode>,
    tokens: Seq<TokenWithSpan>,
    strings: Seq<char>,
)
    requires
        pre.wf(),
        pre.has_room_for(file_name),
        registered(pre, mid, file_name, own, source, infos, start_pos, nodes, tokens, strings),
        registered(mid, post, file_name, own, source, infos, start_pos, nodes, tokens, strings),
    ensures
        post.live_type_infos@ == mid.live_type_infos@,
        post.dep_order@ == mid.dep_order@,
        graph_view(post.dep_graph@) == graph_view(mid.dep_graph@),
        post.module_id_to_file_id@ == mid.module_id_to_file_id@,
        post.expanded@ == mid.expanded@,
{
    let slot = pre.slot_for(file_name);
    let file_id = LiveFileId(slot as u16);
    let count = pre.live_files@.len() as int;
    let table = merged_types(pre.live_type_infos@, infos);
    let raw = resolved_nodes(nodes, own);
    let deps = doc_deps(raw, table, own);
    let list = distinct_deps(deps);
    lemma_slot_kept(pre, mid, file_name, own, source, infos, start_pos, nodes, tokens, strings);
    lemma_file_named_from(pre.live_files@, file_name, 1);
    assert(1 <= slot <= count && slot < MAX_FILES);
    lemma_merged_types_twice(pre.live_type_infos@, infos);
    // The order: every dependency stands in front of the module already.
    lemma_started_order(pre, own, file_id);
    lemma_dependencies_come_first(pre.started_order(own, file_id), deps, own);
    assert(mid.started_order(own, file_id) == mid.dep_order@);
    lemma_repairs_in_place(mid.dep_order@, deps, own);
    // The graph and the files of the modules.
    lemma_put_twice(graph_view(pre.dep_graph@), own, list);
    lemma_put_twice(pre.module_id_to_file_id@, own, file_id);
    // The expanded documents.
    assert(post.expanded@.len() == mid.expanded@.len());
    assert forall|file: int| 0 <= file < mid.expanded@.len() implies post.expanded@[file] == mid.expanded@[file] by {
        if file != slot {
            assert(file < count);
            if mid.stale_through(own, file) {
                let module = choose|module: LiveModuleId| #[trigger]
                    is_dependent(mid.dep_graph@, module, own) && lookup(mid.module_id_to_file_id@, module) == Some(
                        LiveFileId(file as u16),
                    );
                lemma_position_put(pre.module_id_to_file_id@, own, file_id, module);
                assert(module != own);
                let steps = choose|steps: nat| reaches_within(mid.dep_graph@, module, own, steps);
                lemma_chain_without_own_list(pre.dep_graph@, mid.dep_graph@, own, list, module, steps);
                assert(is_dependent(pre.dep_graph@, module, own));
                let other = choose|other: LiveModuleId| depends_on(pre.dep_graph@, other, own);
                let i = choose|i: int|
                    0 <= i < pre.dep_graph@.len() && (#[trigger] pre.dep_graph@[i]).0 == other
                        && pre.dep_graph@[i].1@.contains(own);
                assert(has_module(pre.dep_order@, own));
                assert(pre.stale_through(own, file));
                assert(mid.expanded@[file] == marked_document(pre.expanded@[file], true));
            }
            assert(post.expanded@[file] == marked_document(
                mid.expanded@[file],
                has_module(mid.dep_order@, own) && mid.stale_through(own, file),
            ));
        } else {
            assert(mid.expanded@[slot].recompile);
            assert(post.expanded@[slot] == marked_document(mid.expanded@[slot], true));
        }
    }
    assert(post.expanded@ =~= mid.expanded@);
}

/// The repairs for the dependencies of `own` leave `own` in front of every
/// module it stood in front of, unless that module is among the
/// dependencies.
pub proof fn lemma_own_stays_in_front(
    order: Seq<(LiveModuleId, TokenId)>,
    deps: Seq<(LiveModuleId, TokenId)>,
    own: LiveModuleId,
    later: LiveModuleId,
)
    requires
        distinct_modules(order),
        comes_before(order, own, later),
        forall|i: int| 0 <= i < deps.len() ==> (#[trigger] deps[i]).0 != later,
    ensures
        comes_before(order_after_deps(order, deps, own), own, later),
    decreases deps.len(),
{
    lemma_comes_before(order, own, later);
    if deps.len() > 0 {
        let rest = deps.drop_last();
        let middle = order_after_deps(order, rest, own);
        let dep = deps.last().0;
        let after = order_after_deps(order, deps, own);
        assert forall|i: int| 0 <= i < rest.len() implies (#[trigger] rest[i]).0 != later by {
            assert(rest[i] == deps[i]);
        }
        lemma_own_stays_in_front(order, rest, own, later);
        lemma_dependencies_come_first(order, rest, own);
        lemma_repaired_positions(middle, dep, deps.last().1, own);
        lemma_comes_before(middle, own, later);
        lemma_comes_before(after, own, later);
        lemma_position(middle, own);
        lemma_position(middle, dep);
        lemma_position(middle, later);
        assert(deps[deps.len() - 1].0 != later);
        assert(position(after, own) == position_after_repair(middle, dep, own, own));
        assert(position(after, later) == position_after_repair(middle, dep, own, later));
    }
}

/// A registration leaves the registered module in front of every module it
/// stood in front of, unless its document depends on that module, and it
/// leaves the order free of duplicates.
pub proof fn lemma_registration_keeps_dependents_behind(
    pre: LiveRegistry,
    post: LiveRegistry,
    file_name: Seq<char>,
    own: LiveModuleId,
    source: Seq<char>,
    infos: Seq<LiveTypeInfo>,
    start_pos: TextPos,
    nodes: Seq<LiveNode>,
    tokens: Seq<TokenWithSpan>,
    strings: Seq<char>,
    later: LiveModuleId,
)
    requires
        pre.wf(),
        registered(pre, post, file_name, own, source, infos, start_pos, nodes, tokens, strings),
        comes_before(pre.dep_order@, own, later),
        forall|i: int|
            0 <= i < doc_deps(
                resolved_nodes(nodes, own),
                merged_types(pre.live_type_infos@, infos),
                own,
            ).len() ==> (#[trigger] doc_deps(
                resolved_nodes(nodes, own),
                merged_types(pre.live_type_infos@, infos),
                own,
            )[i]).0 != later,
    ensures
        comes_before(post.dep_order@, own, later),
        distinct_modules(post.dep_order@),
{
    let file_id = LiveFileId(pre.slot_for(file_name) as u16);
    let deps = doc_deps(resolved_nodes(nodes, own), merged_types(pre.live_type_infos@, infos), own);
    lemma_comes_before(pre.dep_order@, own, later);
    lemma_started_order(pre, own, file_id);
    lemma_own_stays_in_front(pre.dep_order@, deps, own, later);
    lemma_dependencies_come_first(pre.dep_order@, deps, own);
}

/// A registration replaces the dependencies of the registered module and
/// records its file: afterwards the graph holds for the module the distinct
/// dependencies of its document and nothing of what it held before, the
/// module is held by the registered file, and every other module has the
/// dependencies and the file it had.
pub proof fn lemma_registration_replaces_dependencies(
    pre: LiveRegistry,
    post: LiveRegistry,
    file_name: Seq<char>,
    own: LiveModuleId,
    source: Seq<char>,
    infos: Seq<LiveTypeInfo>,
    start_pos: TextPos,
    nodes: Seq<LiveNode>,
    tokens: Seq<TokenWithSpan>,
    strings: Seq<char>,
    other: LiveModuleId,
)
    requires
        pre.wf(),
        registered(pre, post, file_name, own, source, infos, start_pos, nodes, tokens, strings),
        other != own,
    ensures
        lookup(graph_view(post.dep_graph@), own) == Some(
            distinct_deps(doc_deps(resolved_nodes(nodes, own), merged_types(pre.live_type_infos@, infos), own)),
        ),
        lookup(graph_view(post.dep_graph@), other) == lookup(graph_view(pre.dep_graph@), other),
        lookup(post.module_id_to_file_id@, own) == Some(LiveFileId(pre.slot_for(file_name) as u16)),
        lookup(post.module_id_to_file_id@, other) == lookup(pre.module_id_to_file_id@, other),
        file_named_from(pre.live_files@, file_name, 1) is None ==> pre.slot_for(file_name) == pre.live_files@.len(),
        file_named_from(pre.live_files@, file_name, 1) is Some ==> pre.slot_for(file_name) < pre.live_files@.len(),
{
    let file_id = LiveFileId(pre.slot_for(file_name) as u16);
    let list = distinct_deps(doc_deps(resolved_nodes(nodes, own), merged_types(pre.live_type_infos@, infos), own));
    lemma_position_put(graph_view(pre.dep_graph@), own, list, own);
    lemma_position_put(graph_view(pre.dep_graph@), own, list, other);
    lemma_position_put(pre.module_id_to_file_id@, own, file_id, own);
    lemma_position_put(pre.module_id_to_file_id@, own, file_id, other);
    lemma_file_named_from(pre.live_files@, file_name, 1);
}

/// The first wildcard import wins: a wildcard import whose module exports
/// the name decides the search among the wildcard imports from its place
/// on, whatever the imports behind it export.
pub proof fn lemma_first_wildcard_wins(
    registry: LiveRegistry,
    nodes: Seq<LiveNode>,
    item: LiveId,
    at: int,
    module_id: LiveModuleId,
)
    requires
        0 <= at < nodes.len(),
        nodes[at].value == LiveValue::Use(module_id),
        nodes[at].id == LiveId::empty(),
        registry.exported(module_id, item) is Some,
    ensures
        registry.glob_target_from(nodes, item, at) == registry.exported(module_id, item),
{
}

/// A node that is no wildcard import of the name is passed over: the search
/// among the wildcard imports goes on at its next sibling.
pub proof fn lemma_wildcard_search_goes_on(registry: LiveRegistry, nodes: Seq<LiveNode>, item: LiveId, at: int)
    requires
        0 <= at < nodes.len(),
        registry.glob_hit(nodes, item, at) is None,
        next_child_spec(nodes, at) is Some,
        at < next_child_spec(nodes, at)->0 < nodes.len(),
    ensures
        registry.glob_target_from(nodes, item, at) == registry.glob_target_from(
            nodes,
            item,
            next_child_spec(nodes, at)->0 as int,
        ),
{
}

/// A named import that does not resolve ends the search: where the scopes
/// around a node hold the name as an import whose module is held by no file
/// or does not export the name, nothing is found, whatever the wildcard
/// imports export.
pub proof fn lemma_unresolved_import_ends_search(
    registry: LiveRegistry,
    nodes: Seq<LiveNode>,
    item: LiveId,
    index: int,
    found: usize,
    module_id: LiveModuleId,
)
    requires
        scope_up_down_by_name_spec(nodes, index, item) == Some(found),
        nodes[found as int].value == LiveValue::Use(module_id),
        registry.exported(module_id, item) is None,
    ensures
        registry.scope_target(item, index, nodes) is None,
{
}

} // verus!
