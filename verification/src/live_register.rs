use vstd::prelude::*;
use vstd::string::StringExecFns;
use crate::dep_graph::{dependents, is_dependent, reaches_within};
use crate::dep_order::{
    lemma_repair_puts_dependency_first, lemma_repaired_positions, position_after_repair, repair_order, repaired,
};
use crate::live_document::LiveDocument;
use crate::live_error::{LiveError, LiveFileError};
use crate::live_id::LiveId;
use crate::live_node::{LiveNode, LiveType, LiveTypeField, LiveTypeInfo, LiveValue};
use crate::live_ptr::{LiveFileId, LiveModuleId};
use crate::live_registry::{file_named_from, LiveFile, LiveRegistry, MAX_FILES};
use crate::live_token::{Fragment, TokenId, TokenWithSpan};
use crate::module_table::{
    distinct_modules, find_module, has_module, holds_module, lemma_position, lemma_position_push, lookup, position,
    position_from, put_entry, table_put,
};
use crate::span::{Span, TextPos};
use crate::type_table::{
    distinct_types, find_last_type, find_type, lemma_last_of, lemma_merged_types_distinct, lemma_recorded, merged_types,
    type_position, types_agree,
};
use crate::tokenizer::{fits_positions, lexer_takes_lines, lexing_of, tokenize, tokenized_by, LexOutput};

verus! {

/// The module that an import names, with the word for the importing
/// module's own crate replaced by that crate.
pub open spec fn resolved_module(module_id: LiveModuleId, own: LiveModuleId) -> LiveModuleId {
    if module_id.0 == LiveId::own_crate() {
        LiveModuleId(own.0, module_id.1)
    } else {
        module_id
    }
}

/// A node with its import, if it is one, resolved for the module `own`.
pub open spec fn resolved_node(node: LiveNode, own: LiveModuleId) -> LiveNode {
    match node.value {
        LiveValue::Use(module_id) => LiveNode {
            origin: node.origin,
            id: node.id,
            value: LiveValue::Use(resolved_module(module_id, own)),
        },
        _ => node,
    }
}

/// The nodes of a document of module `own` with every import resolved.
pub open spec fn resolved_nodes(nodes: Seq<LiveNode>, own: LiveModuleId) -> Seq<LiveNode> {
    Seq::new(nodes.len(), |i: int| resolved_node(nodes[i], own))
}

/// The dependencies that the fields of an object type bring: the modules
/// of the fields' types, in order, but for the module `own` itself.
pub open spec fn field_deps(fields: Seq<LiveTypeField>, own: LiveModuleId, token: TokenId) -> Seq<
    (LiveModuleId, TokenId),
>
    decreases fields.len(),
{
    if fields.len() == 0 {
        Seq::empty()
    } else if fields.last().module_id != own {
        field_deps(fields.drop_last(), own, token).push((fields.last().module_id, token))
    } else {
        field_deps(fields.drop_last(), own, token)
    }
}

/// The fields of the type of an object node, as the table has them.
pub open spec fn class_fields(table: Seq<LiveTypeInfo>, live_type: LiveType) -> Seq<LiveTypeField> {
    match type_position(table, live_type) {
        Some(index) => table[index].fields@,
        None => Seq::empty(),
    }
}

/// The dependencies that one node brings, each with the node's token: the
/// module of an import, and for an object the modules of its type's fields.
pub open spec fn node_deps(node: LiveNode, table: Seq<LiveTypeInfo>, own: LiveModuleId) -> Seq<
    (LiveModuleId, TokenId),
> {
    match node.value {
        LiveValue::Use(module_id) => seq![(module_id, node.origin.token_id->0)],
        LiveValue::Class { live_type, .. } => field_deps(
            class_fields(table, live_type),
            own,
            node.origin.token_id->0,
        ),
        _ => Seq::empty(),
    }
}

/// The dependencies of a document in the order of its nodes.
pub open spec fn doc_deps(nodes: Seq<LiveNode>, table: Seq<LiveTypeInfo>, own: LiveModuleId) -> Seq<
    (LiveModuleId, TokenId),
>
    decreases nodes.len(),
{
    if nodes.len() == 0 {
        Seq::empty()
    } else {
        doc_deps(nodes.drop_last(), table, own) + node_deps(nodes.last(), table, own)
    }
}

/// Whether a node can be registered: an import carries its token, the type
/// of an object is in the table, and an object that brings a dependency
/// carries its token.
pub open spec fn registrable_node(node: LiveNode, table: Seq<LiveTypeInfo>, own: LiveModuleId) -> bool {
    match node.value {
        LiveValue::Use(_) => node.origin.token_id is Some,
        LiveValue::Class { live_type, .. } => {
            &&& type_position(table, live_type) is Some
            &&& (node_deps(node, table, own).len() > 0 ==> node.origin.token_id is Some)
        },
        _ => true,
    }
}

/// Whether every node of a document can be registered.
pub open spec fn registrable(nodes: Seq<LiveNode>, table: Seq<LiveTypeInfo>, own: LiveModuleId) -> bool {
    forall|i: int| 0 <= i < nodes.len() ==> registrable_node(#[trigger] nodes[i], table, own)
}

/// The order after the repairs for a run of dependencies of `own`.
pub open spec fn order_after_deps(
    order: Seq<(LiveModuleId, TokenId)>,
    deps: Seq<(LiveModuleId, TokenId)>,
    own: LiveModuleId,
) -> Seq<(LiveModuleId, TokenId)>
    decreases deps.len(),
{
    if deps.len() == 0 {
        order
    } else {
        repaired(order_after_deps(order, deps.drop_last(), own), deps.last().0, deps.last().1, own)
    }
}

/// The modules of a run of dependencies, each once, in the order in which
/// they first occur.
pub open spec fn distinct_deps(deps: Seq<(LiveModuleId, TokenId)>) -> Seq<LiveModuleId>
    decreases deps.len(),
{
    if deps.len() == 0 {
        Seq::empty()
    } else if distinct_deps(deps.drop_last()).contains(deps.last().0) {
        distinct_deps(deps.drop_last())
    } else {
        distinct_deps(deps.drop_last()).push(deps.last().0)
    }
}

/// The graph as plain values: each module with the list of its dependencies.
pub open spec fn graph_view(graph: Seq<(LiveModuleId, Vec<LiveModuleId>)>) -> Seq<
    (LiveModuleId, Seq<LiveModuleId>),
> {
    Seq::new(graph.len(), |i: int| (graph[i].0, graph[i].1@))
}

/// A document that is stale if it was, or if `stale` says so.
pub open spec fn marked_document(document: LiveDocument, stale: bool) -> LiveDocument {
    LiveDocument {
        nodes: document.nodes,
        strings: document.strings,
        tokens: document.tokens,
        recompile: document.recompile || stale,
    }
}

/// One more dependency means one more repair of the order, and one more
/// module in the list of distinct dependencies unless the list holds it.
pub proof fn lemma_one_more_dependency(
    order: Seq<(LiveModuleId, TokenId)>,
    deps: Seq<(LiveModuleId, TokenId)>,
    dep: (LiveModuleId, TokenId),
    own: LiveModuleId,
)
    ensures
        order_after_deps(order, deps.push(dep), own) == repaired(
            order_after_deps(order, deps, own),
            dep.0,
            dep.1,
            own,
        ),
        distinct_deps(deps.push(dep)) == if distinct_deps(deps).contains(dep.0) {
            distinct_deps(deps)
        } else {
            distinct_deps(deps).push(dep.0)
        },
{
    assert(deps.push(dep).drop_last() == deps);
}

/// Takes one dependency of `own` into the list of its distinct
/// dependencies and into the order.
fn take_dependency(
    order: &mut Vec<(LiveModuleId, TokenId)>,
    found: &mut Vec<LiveModuleId>,
    dep: LiveModuleId,
    token: TokenId,
    own: LiveModuleId,
    Ghost(start): Ghost<Seq<(LiveModuleId, TokenId)>>,
    Ghost(deps): Ghost<Seq<(LiveModuleId, TokenId)>>,
)
    requires
        distinct_modules(old(order)@),
        has_module(old(order)@, own),
        old(order)@ == order_after_deps(start, deps, own),
        old(found)@ == distinct_deps(deps),
        forall|module: LiveModuleId| has_module(start, module) ==> #[trigger] has_module(old(order)@, module),
        forall|module: LiveModuleId| old(found)@.contains(module) ==> #[trigger] has_module(old(order)@, module),
    ensures
        distinct_modules(final(order)@),
        has_module(final(order)@, own),
        final(order)@ == order_after_deps(start, deps.push((dep, token)), own),
        final(found)@ == distinct_deps(deps.push((dep, token))),
        forall|module: LiveModuleId| has_module(start, module) ==> #[trigger] has_module(final(order)@, module),
        forall|module: LiveModuleId| final(found)@.contains(module) ==> #[trigger] has_module(final(order)@, module),
{
    proof {
        lemma_one_more_dependency(start, deps, (dep, token), own);
        lemma_repaired_positions(order@, dep, token, own);
        lemma_repair_puts_dependency_first(order@, dep, token, own);
        assert(position(repaired(order@, dep, token, own), dep) == position_after_repair(
            order@,
            dep,
            own,
            dep,
        ));
        lemma_position(order@, own);
    }
    if !holds_module(found, dep) {
        found.push(dep);
    }
    repair_order(order, dep, token, own);
    proof {
        assert forall|module: LiveModuleId| final(found)@.contains(module) implies #[trigger] has_module(
            final(order)@,
            module,
        ) by {
            if module != dep {
                assert(old(found)@.contains(module)) by {
                    if !old(found)@.contains(dep) {
                        let i = choose|i: int| 0 <= i < final(found)@.len() && final(found)@[i] == module;
                        assert(old(found)@[i] == module);
                    }
                }
            }
        }
    }
}

/// A field of another module's type makes the fields bring a dependency.
pub proof fn lemma_field_deps_found(fields: Seq<LiveTypeField>, own: LiveModuleId, token: TokenId, at: int)
    requires
        0 <= at < fields.len(),
        fields[at].module_id != own,
    ensures
        field_deps(fields, own, token).len() > 0,
    decreases fields.len(),
{
    if at < fields.len() - 1 {
        lemma_field_deps_found(fields.drop_last(), own, token, at);
    }
}

/// Fields that all belong to the module itself bring no dependency.
pub proof fn lemma_field_deps_none(fields: Seq<LiveTypeField>, own: LiveModuleId, token: TokenId)
    requires
        forall|at: int| 0 <= at < fields.len() ==> (#[trigger] fields[at]).module_id == own,
    ensures
        field_deps(fields, own, token).len() == 0,
    decreases fields.len(),
{
    if fields.len() > 0 {
        assert forall|at: int| 0 <= at < fields.drop_last().len() implies (#[trigger] fields.drop_last()[at]).module_id
            == own by {
            assert(fields.drop_last()[at] == fields[at]);
        }
        lemma_field_deps_none(fields.drop_last(), own, token);
        assert(fields[fields.len() - 1].module_id == own);
    }
}

/// Whether one of the fields has a type of another module than `own`.
fn has_foreign_field(fields: &Vec<LiveTypeField>, own: LiveModuleId) -> (r: bool)
    ensures
        r == exists|at: int| 0 <= at < fields@.len() && (#[trigger] fields@[at]).module_id != own,
{
    let mut j: usize = 0;
    while j < fields.len()
        invariant
            j <= fields@.len(),
            forall|at: int| 0 <= at < j ==> (#[trigger] fields@[at]).module_id == own,
        decreases fields@.len() - j,
    {
        if fields[j].module_id != own {
            return true;
        }
        j += 1;
    }
    false
}

/// Whether a parsed document of module `own` can be registered once the
/// shapes `infos` have joined the table of types: every import carries its
/// token, the type of every object is known, and every object that brings
/// a dependency carries its token.
pub fn nodes_fit(table: &Vec<LiveTypeInfo>, infos: &Vec<LiveTypeInfo>, nodes: &Vec<LiveNode>, own: LiveModuleId) -> (r:
    bool)
    requires
        distinct_types(table@),
    ensures
        r == registrable(resolved_nodes(nodes@, own), merged_types(table@, infos@), own),
{
    let ghost raw = resolved_nodes(nodes@, own);
    let ghost merged = merged_types(table@, infos@);
    let mut i: usize = 0;
    while i < nodes.len()
        invariant
            i <= nodes@.len(),
            distinct_types(table@),
            raw == resolved_nodes(nodes@, own),
            merged == merged_types(table@, infos@),
            forall|k: int| 0 <= k < i ==> registrable_node(#[trigger] raw[k], merged, own),
        decreases nodes@.len() - i,
    {
        let node = nodes[i];
        let fits = match node.value {
            LiveValue::Use(_) => node.origin.token_id.is_some(),
            LiveValue::Class { live_type, .. } => {
                proof {
                    lemma_recorded(table@, infos@, live_type);
                    lemma_last_of(infos@, live_type);
                    assert(infos@.take(infos@.len() as int) == infos@);
                }
                let foreign = match find_last_type(infos, live_type, infos.len()) {
                    Some(k) => Some(has_foreign_field(&infos[k].fields, own)),
                    None => match find_type(table, live_type) {
                        Some(p) => Some(has_foreign_field(&table[p].fields, own)),
                        None => None,
                    },
                };
                proof {
                    let fields = class_fields(merged, live_type);
                    let token = node.origin.token_id->0;
                    if foreign == Some(true) {
                        let at = choose|at: int| 0 <= at < fields.len() && (#[trigger] fields[at]).module_id != own;
                        lemma_field_deps_found(fields, own, token, at);
                    }
                    if foreign == Some(false) {
                        lemma_field_deps_none(fields, own, token);
                    }
                }
                match foreign {
                    Some(brings) => !brings || node.origin.token_id.is_some(),
                    None => false,
                }
            },
            _ => true,
        };
        assert(fits == registrable_node(raw[i as int], merged, own));
        if !fits {
            return false;
        }
        i += 1;
    }
    true
}

/// Goes through the nodes of a document of module `own`: resolves the
/// imports, repairs the order for every dependency, and collects the
/// distinct dependencies.
fn scan_dependencies(
    order: &mut Vec<(LiveModuleId, TokenId)>,
    table: &Vec<LiveTypeInfo>,
    nodes: &mut Vec<LiveNode>,
    own: LiveModuleId,
) -> (found: Vec<LiveModuleId>)
    requires
        distinct_modules(old(order)@),
        has_module(old(order)@, own),
        registrable(resolved_nodes(old(nodes)@, own), table@, own),
    ensures
        final(nodes)@ == resolved_nodes(old(nodes)@, own),
        final(order)@ == order_after_deps(old(order)@, doc_deps(final(nodes)@, table@, own), own),
        found@ == distinct_deps(doc_deps(final(nodes)@, table@, own)),
        distinct_modules(final(order)@),
        has_module(final(order)@, own),
        forall|module: LiveModuleId| has_module(old(order)@, module) ==> #[trigger] has_module(final(order)@, module),
        forall|module: LiveModuleId| found@.contains(module) ==> #[trigger] has_module(final(order)@, module),
{
    let own_crate = LiveId::own_crate();
    let mut found: Vec<LiveModuleId> = Vec::new();
    let ghost start = order@;
    let ghost given = nodes@;
    let ghost raw = resolved_nodes(given, own);
    let ghost mut deps: Seq<(LiveModuleId, TokenId)> = Seq::empty();
    let mut i: usize = 0;
    while i < nodes.len()
        invariant
            i <= nodes@.len() == given.len(),
            own_crate == LiveId::spec_own_crate(),
            raw == resolved_nodes(given, own),
            forall|k: int| 0 <= k < i ==> nodes@[k] == raw[k],
            forall|k: int| i <= k < given.len() ==> nodes@[k] == given[k],
            registrable(raw, table@, own),
            deps == doc_deps(raw.take(i as int), table@, own),
            order@ == order_after_deps(start, deps, own),
            found@ == distinct_deps(deps),
            distinct_modules(order@),
            has_module(order@, own),
            forall|module: LiveModuleId| has_module(start, module) ==> #[trigger] has_module(order@, module),
            forall|module: LiveModuleId| found@.contains(module) ==> #[trigger] has_module(order@, module),
        decreases given.len() - i,
    {
        let node = nodes[i];
        let ghost before = deps;
        proof {
            assert(raw.take(i + 1).drop_last() == raw.take(i as int));
            assert(raw.take(i + 1).last() == raw[i as int]);
            assert(registrable_node(raw[i as int], table@, own));
        }
        match node.value {
            LiveValue::Use(module_id) => {
                let resolved = if module_id.0 == own_crate {
                    LiveModuleId(own.0, module_id.1)
                } else {
                    module_id
                };
                nodes.set(i, LiveNode { origin: node.origin, id: node.id, value: LiveValue::Use(resolved) });
                match node.origin.token_id {
                    Some(token) => {
                        take_dependency(order, &mut found, resolved, token, own, Ghost(start), Ghost(deps));
                        proof {
                            deps = deps.push((resolved, token));
                            assert(node_deps(raw[i as int], table@, own) =~= seq![(resolved, token)]);
                            assert(before + node_deps(raw[i as int], table@, own) =~= deps);
                        }
                    },
                    None => {
                        // A registrable import carries its token.
                        assert(false);
                    },
                }
            },
            LiveValue::Class { live_type, .. } => {
                match find_type(table, live_type) {
                    Some(at) => {
                        let ghost fields = table@[at as int].fields@;
                        let ghost token = node.origin.token_id->0;
                        let mut j: usize = 0;
                        while j < table[at].fields.len()
                            invariant
                                at < table@.len(),
                                i < given.len() == raw.len(),
                                fields == table@[at as int].fields@,
                                j <= fields.len(),
                                token == node.origin.token_id->0,
                                node_deps(raw[i as int], table@, own) == field_deps(fields, own, token),
                                registrable_node(raw[i as int], table@, own),
                                raw[i as int] == node,
                                deps == before + field_deps(fields.take(j as int), own, token),
                                order@ == order_after_deps(start, deps, own),
                                found@ == distinct_deps(deps),
                                distinct_modules(order@),
                                has_module(order@, own),
                                forall|module: LiveModuleId|
                                    has_module(start, module) ==> #[trigger] has_module(order@, module),
                                forall|module: LiveModuleId|
                                    found@.contains(module) ==> #[trigger] has_module(order@, module),
                            decreases fields.len() - j,
                        {
                            let field = table[at].fields[j];
                            proof {
                                assert(fields.take(j + 1).drop_last() == fields.take(j as int));
                                assert(fields.take(j + 1).last() == fields[j as int]);
                            }
                            if field.module_id != own {
                                proof {
                                    lemma_field_deps_found(fields, own, token, j as int);
                                }
                                match node.origin.token_id {
                                    Some(token) => {
                                        take_dependency(
                                            order,
                                            &mut found,
                                            field.module_id,
                                            token,
                                            own,
                                            Ghost(start),
                                            Ghost(deps),
                                        );
                                        proof {
                                            deps = deps.push((field.module_id, token));
                                            assert(deps =~= before + field_deps(fields.take(j + 1), own, token));
                                        }
                                    },
                                    None => {
                                        // An object that brings a dependency carries its token.
                                        assert(false);
                                    },
                                }
                            }
                            j += 1;
                        }
                        proof {
                            assert(fields.take(fields.len() as int) == fields);
                        }
                    },
                    None => {
                        // The type of a registrable object is in the table.
                        assert(false);
                    },
                }
            },
            _ => {
                proof {
                    assert(before + node_deps(raw[i as int], table@, own) =~= deps);
                }
            },
        }
        i += 1;
    }
    proof {
        assert(raw.take(given.len() as int) == raw);
        assert(nodes@ == raw);
    }
    found
}

/// The plain view of the graph has the modules at the same positions.
pub proof fn lemma_graph_view_position(graph: Seq<(LiveModuleId, Vec<LiveModuleId>)>, key: LiveModuleId, from: int)
    ensures
        position_from(graph_view(graph), key, from) == position_from(graph, key, from),
    decreases graph.len() - from,
{
    if 0 <= from < graph.len() && graph[from].0 != key {
        lemma_graph_view_position(graph, key, from + 1);
    }
}

/// Whether a file holds what one registration gave it.
pub open spec fn file_holds(
    file: LiveFile,
    own: LiveModuleId,
    start_pos: TextPos,
    file_name: Seq<char>,
    source: Seq<char>,
    nodes: Seq<LiveNode>,
    tokens: Seq<TokenWithSpan>,
    strings: Seq<char>,
) -> bool {
    &&& file.module_id == own
    &&& file.start_pos == start_pos
    &&& file.file_name@ == file_name
    &&& file.source@ == source
    &&& file.document.nodes@ == nodes
    &&& file.document.tokens@ == tokens
    &&& file.document.strings@ == strings
    &&& file.document.recompile
}

/// What a successful registration of a file for module `own` does to the
/// registry. The file keeps its slot if its name was registered before and
/// gets the next one if not. The shapes join the table of types. A module
/// that the order did not name yet joins it at the end; for one that it
/// named, the documents of the module and of its dependents become stale.
/// Then the order is repaired for every dependency of the document, the
/// module's dependencies replace those it had in the graph, the module is
/// held by the file, the file holds the document with its imports resolved,
/// and the file's expanded document is stale: a blank one for a new file.
pub open spec fn registered(
    pre: LiveRegistry,
    post: LiveRegistry,
    file_name: Seq<char>,
    own: LiveModuleId,
    source: Seq<char>,
    infos: Seq<LiveTypeInfo>,
    start_pos: TextPos,
    nodes: Seq<LiveNode>,
    tokens: Seq<TokenWithSpan>,
    strings: Seq<char>,
) -> bool {
    let slot = pre.slot_for(file_name);
    let file_id = LiveFileId(slot as u16);
    let table = merged_types(pre.live_type_infos@, infos);
    let raw = resolved_nodes(nodes, own);
    let deps = doc_deps(raw, table, own);
    let known = has_module(pre.dep_order@, own);
    let count = pre.live_files@.len() as int;
    &&& post.live_type_infos@ == table
    &&& post.dep_order@ == order_after_deps(pre.started_order(own, file_id), deps, own)
    &&& graph_view(post.dep_graph@) == table_put(graph_view(pre.dep_graph@), own, distinct_deps(deps))
    &&& post.module_id_to_file_id@ == table_put(pre.module_id_to_file_id@, own, file_id)
    &&& post.live_files@.len() == post.expanded@.len()
    &&& post.live_files@.len() == if slot < count {
        count
    } else {
        count + 1
    }
    &&& forall|i: int| 0 <= i < count && i != slot ==> #[trigger] post.live_files@[i] == pre.live_files@[i]
    &&& file_holds(post.live_files@[slot], own, start_pos, file_name, source, raw, tokens, strings)
    &&& forall|i: int|
        0 <= i < count && i != slot ==> #[trigger] post.expanded@[i] == marked_document(
            pre.expanded@[i],
            known && pre.stale_through(own, i),
        )
    &&& if slot < count {
        post.expanded@[slot] == marked_document(pre.expanded@[slot], true)
    } else {
        post.expanded@[slot].is_blank() && post.expanded@[slot].recompile
    }
}

impl LiveRegistry {
    /// The slot of the file with the given name: the one it was registered
    /// in, or the next free one.
    pub open spec fn slot_for(&self, file_name: Seq<char>) -> int {
        match file_named_from(self.live_files@, file_name, 1) {
            Some(index) => index,
            None => self.live_files@.len() as int,
        }
    }

    /// Whether the registry can take a file of the given name: the name was
    /// registered before, or there is a free slot left.
    pub open spec fn has_room_for(&self, file_name: Seq<char>) -> bool {
        file_named_from(self.live_files@, file_name, 1) is Some || self.live_files@.len() < MAX_FILES
    }

    /// Whether the registry can take a file of the given name.
    pub fn has_room(&self, file_name: &str) -> (r: bool)
        ensures
            r == self.has_room_for(file_name@),
    {
        match self.find_file(file_name, 1) {
            Some(_) => true,
            None => self.live_files.len() < MAX_FILES,
        }
    }

    /// The order with the module `own` in it: as it is if it names the
    /// module, else with the module at the end, brought in by the first
    /// token of its file.
    pub open spec fn started_order(&self, own: LiveModuleId, file_id: LiveFileId) -> Seq<(LiveModuleId, TokenId)> {
        if has_module(self.dep_order@, own) {
            self.dep_order@
        } else {
            self.dep_order@.push((own, TokenId { file_id, token_index: 0 }))
        }
    }

    /// Whether the file at index `file` holds a module that is `root` or
    /// depends on it, directly or through other modules.
    pub open spec fn stale_through(&self, root: LiveModuleId, file: int) -> bool {
        exists|module: LiveModuleId| #[trigger]
            is_dependent(self.dep_graph@, module, root) && lookup(self.module_id_to_file_id@, module) == Some(
                LiveFileId(file as u16),
            )
    }

    /// Takes the shapes of a registration into the table of types, in
    /// order: each in place of the shape recorded for its type, or as a new
    /// entry.
    pub fn merge_type_infos(&mut self, live_type_infos: Vec<LiveTypeInfo>)
        ensures
            final(self).live_type_infos@ == merged_types(old(self).live_type_infos@, live_type_infos@),
            final(self).module_id_to_file_id == old(self).module_id_to_file_id,
            final(self).live_files == old(self).live_files,
            final(self).dep_order == old(self).dep_order,
            final(self).dep_graph == old(self).dep_graph,
            final(self).expanded == old(self).expanded,
    {
        let ghost all = live_type_infos@;
        for info in it: live_type_infos
            invariant
                it.seq() == all,
                self.live_type_infos@ == merged_types(old(self).live_type_infos@, all.take(it.index() as int)),
                self.module_id_to_file_id == old(self).module_id_to_file_id,
                self.live_files == old(self).live_files,
                self.dep_order == old(self).dep_order,
                self.dep_graph == old(self).dep_graph,
                self.expanded == old(self).expanded,
        {
            proof {
                let taken = all.take(it.index() + 1);
                assert(taken.drop_last() == all.take(it.index() as int));
                assert(taken.last() == info);
            }
            match find_type(&self.live_type_infos, info.live_type) {
                Some(index) => {
                    self.live_type_infos.set(index, info);
                },
                None => {
                    self.live_type_infos.push(info);
                },
            }
        }
        proof {
            assert(all.take(all.len() as int) == all);
        }
    }

    /// Marks the expanded document of the file that holds a module as stale.
    fn flag_module(&mut self, module_id: LiveModuleId)
        requires
            old(self).wf(),
        ensures
            final(self).module_id_to_file_id == old(self).module_id_to_file_id,
            final(self).live_files == old(self).live_files,
            final(self).live_type_infos == old(self).live_type_infos,
            final(self).dep_order == old(self).dep_order,
            final(self).dep_graph == old(self).dep_graph,
            final(self).expanded@.len() == old(self).expanded@.len(),
            forall|file: int|
                0 <= file < old(self).expanded@.len() ==> #[trigger] final(self).expanded@[file] == marked_document(
                    old(self).expanded@[file],
                    lookup(old(self).module_id_to_file_id@, module_id) == Some(LiveFileId(file as u16)),
                ),
    {
        proof {
            lemma_position(self.module_id_to_file_id@, module_id);
        }
        match find_module(&self.module_id_to_file_id, module_id) {
            Some(index) => {
                let file_id = self.module_id_to_file_id[index].1;
                self.expanded[file_id.to_index()].recompile = true;
            },
            None => {},
        }
    }

    /// Marks as stale the expanded documents of a module and of every module
    /// that depends on it, directly or through other modules.
    pub fn mark_dirty(&mut self, module_id: LiveModuleId)
        requires
            old(self).wf(),
        ensures
            final(self).wf(),
            final(self).module_id_to_file_id == old(self).module_id_to_file_id,
            final(self).live_files == old(self).live_files,
            final(self).live_type_infos == old(self).live_type_infos,
            final(self).dep_order == old(self).dep_order,
            final(self).dep_graph == old(self).dep_graph,
            final(self).expanded@.len() == old(self).expanded@.len(),
            forall|file: int|
                0 <= file < old(self).expanded@.len() ==> #[trigger] final(self).expanded@[file] == marked_document(
                    old(self).expanded@[file],
                    old(self).stale_through(module_id, file),
                ),
    {
        let marks = dependents(&self.dep_graph, module_id);
        self.flag_module(module_id);
        let mut i: usize = 0;
        while i < marks.len()
            invariant
                i <= marks@.len() == self.dep_graph@.len(),
                self.wf(),
                old(self).wf(),
                self.module_id_to_file_id == old(self).module_id_to_file_id,
                self.live_files == old(self).live_files,
                self.live_type_infos == old(self).live_type_infos,
                self.dep_order == old(self).dep_order,
                self.dep_graph == old(self).dep_graph,
                self.expanded@.len() == old(self).expanded@.len(),
                forall|file: int|
                    0 <= file < old(self).expanded@.len() ==> #[trigger] self.expanded@[file] == marked_document(
                        old(self).expanded@[file],
                        lookup(old(self).module_id_to_file_id@, module_id) == Some(LiveFileId(file as u16)) || exists|
                            j: int,
                        |
                            0 <= j < i && #[trigger] marks@[j] && lookup(
                                old(self).module_id_to_file_id@,
                                old(self).dep_graph@[j].0,
                            ) == Some(LiveFileId(file as u16)),
                    ),
            decreases marks@.len() - i,
        {
            if marks[i] {
                let module = self.dep_graph[i].0;
                self.flag_module(module);
            }
            i += 1;
        }
        proof {
            let graph = old(self).dep_graph@;
            let map = old(self).module_id_to_file_id@;
            assert(reaches_within(graph, module_id, module_id, 0));
            assert(is_dependent(graph, module_id, module_id));
            assert forall|file: int| 0 <= file < old(self).expanded@.len() implies #[trigger] self.expanded@[file]
                == marked_document(old(self).expanded@[file], old(self).stale_through(module_id, file)) by {
                let target = Some(LiveFileId(file as u16));
                let flagged = lookup(map, module_id) == target || exists|j: int|
                    0 <= j < marks@.len() && #[trigger] marks@[j] && lookup(map, graph[j].0) == target;
                if flagged {
                    if lookup(map, module_id) == target {
                        assert(is_dependent(graph, module_id, module_id) && lookup(map, module_id) == target);
                    } else {
                        let j = choose|j: int|
                            0 <= j < marks@.len() && #[trigger] marks@[j] && lookup(map, graph[j].0) == target;
                        assert(is_dependent(graph, graph[j].0, module_id) && lookup(map, graph[j].0) == target);
                    }
                    assert(old(self).stale_through(module_id, file));
                }
                if old(self).stale_through(module_id, file) {
                    let module = choose|module: LiveModuleId| #[trigger]
                        is_dependent(graph, module, module_id) && lookup(map, module) == target;
                    if module != module_id {
                        let j = choose|j: int| 0 <= j < graph.len() && #[trigger] marks@[j] && graph[j].0 == module;
                        assert(marks@[j] && lookup(map, graph[j].0) == target);
                    }
                    assert(flagged);
                }
            }
        }
    }

    /// Registers the parsed document of a file for module `own_module_id`
    /// and returns the file's identity. The shapes must agree with the table
    /// of types, and the document must be registrable with them.
    pub fn register_parsed(
        &mut self,
        file_name: &str,
        own_module_id: LiveModuleId,
        source: String,
        live_type_infos: Vec<LiveTypeInfo>,
        start_pos: TextPos,
        nodes: Vec<LiveNode>,
        tokens: Vec<TokenWithSpan>,
        strings: Vec<char>,
    ) -> (file_id: LiveFileId)
        requires
            old(self).wf(),
            old(self).has_room_for(file_name@),
            types_agree(old(self).live_type_infos@, live_type_infos@),
            registrable(
                resolved_nodes(nodes@, own_module_id),
                merged_types(old(self).live_type_infos@, live_type_infos@),
                own_module_id,
            ),
        ensures
            final(self).wf(),
            file_id.0 == old(self).slot_for(file_name@),
            registered(
                *old(self),
                *final(self),
                file_name@,
                own_module_id,
                source@,
                live_type_infos@,
                start_pos,
                nodes@,
                tokens@,
                strings@,
            ),
    {
        let mut nodes = nodes;
        let count = self.live_files.len();
        let slot = match self.find_file(file_name, 1) {
            Some(index) => index,
            None => count,
        };
        let file_id = LiveFileId::index(slot);
        proof {
            lemma_merged_types_distinct(self.live_type_infos@, live_type_infos@);
        }
        self.merge_type_infos(live_type_infos);
        proof {
            lemma_position(self.dep_order@, own_module_id);
        }
        match find_module(&self.dep_order, own_module_id) {
            Some(_) => {
                self.mark_dirty(own_module_id);
            },
            None => {
                proof {
                    let entry = (own_module_id, TokenId { file_id, token_index: 0 });
                    assert forall|module: LiveModuleId|
                        position(self.dep_order@.push(entry), module) == match position(self.dep_order@, module) {
                            Some(index) => Some(index),
                            None => if own_module_id == module {
                                Some(self.dep_order@.len() as int)
                            } else {
                                None
                            },
                        } by {
                        lemma_position_push(self.dep_order@, entry, module);
                    }
                    assert(distinct_modules(self.dep_order@.push(entry))) by {
                        let after = self.dep_order@.push(entry);
                        assert forall|i: int, j: int| 0 <= i < j < after.len() implies (#[trigger] after[i]).0 != (
                        #[trigger] after[j]).0 by {
                            assert(after[i] == self.dep_order@[i]);
                            if j < self.dep_order@.len() {
                                assert(after[j] == self.dep_order@[j]);
                            }
                        }
                    }
                }
                self.dep_order.push((own_module_id, TokenId::new(file_id, 0)));
            },
        }
        let ghost started = self.dep_order@;
        assert(started == old(self).started_order(own_module_id, file_id));
        assert(forall|module: LiveModuleId| has_module(old(self).dep_order@, module) ==> has_module(started, module));
        let found = scan_dependencies(&mut self.dep_order, &self.live_type_infos, &mut nodes, own_module_id);
        let ghost graph = self.dep_graph@;
        proof {
            lemma_graph_view_position(graph, own_module_id, 0);
            lemma_position(graph, own_module_id);
            lemma_position(self.module_id_to_file_id@, own_module_id);
        }
        put_entry(&mut self.dep_graph, own_module_id, found);
        put_entry(&mut self.module_id_to_file_id, own_module_id, file_id);
        assert(graph_view(self.dep_graph@) =~= table_put(graph_view(graph), own_module_id, found@));
        let live_file = LiveFile {
            module_id: own_module_id,
            start_pos,
            file_name: String::from_str(file_name),
            source,
            document: LiveDocument { nodes, strings, tokens, recompile: true },
        };
        if slot == count {
            self.live_files.push(live_file);
            self.expanded.push(LiveDocument::new());
        } else {
            self.live_files.set(slot, live_file);
            self.expanded[slot].recompile = true;
        }
        file_id
    }

    /// What a registration ends in once the parser has spoken: its error
    /// with the file's name and the registry as it was, or the file's
    /// identity and the registry with the file registered.
    pub open spec fn registration_outcome(
        pre: LiveRegistry,
        post: LiveRegistry,
        file_name: Seq<char>,
        own: LiveModuleId,
        source: Seq<char>,
        infos: Seq<LiveTypeInfo>,
        start_pos: TextPos,
        parsed: Result<Vec<LiveNode>, LiveError>,
        tokens: Seq<TokenWithSpan>,
        strings: Seq<char>,
        outcome: Result<LiveFileId, LiveFileError>,
    ) -> bool {
        match parsed {
            Ok(nodes) => {
                &&& outcome == Ok::<LiveFileId, LiveFileError>(LiveFileId(pre.slot_for(file_name) as u16))
                &&& registered(pre, post, file_name, own, source, infos, start_pos, nodes@, tokens, strings)
            },
            Err(error) => {
                &&& outcome matches Err(failure)
                &&& failure.file@ == file_name
                &&& failure.span == error.span
                &&& failure.message == error.message
                &&& post == pre
            },
        }
    }

    /// Ends a registration with what the parser made of the file's tokens:
    /// hands its error on under the file's name, or registers its nodes.
    pub fn finish_registration(
        &mut self,
        file_name: &str,
        own_module_id: LiveModuleId,
        source: String,
        live_type_infos: Vec<LiveTypeInfo>,
        start_pos: TextPos,
        parsed: Result<Vec<LiveNode>, LiveError>,
        tokens: Vec<TokenWithSpan>,
        strings: Vec<char>,
    ) -> (r: Result<LiveFileId, LiveFileError>)
        requires
            old(self).wf(),
            old(self).has_room_for(file_name@),
            parsed matches Ok(nodes) ==> types_agree(old(self).live_type_infos@, live_type_infos@) && registrable(
                resolved_nodes(nodes@, own_module_id),
                merged_types(old(self).live_type_infos@, live_type_infos@),
                own_module_id,
            ),
        ensures
            final(self).wf(),
            LiveRegistry::registration_outcome(
                *old(self),
                *final(self),
                file_name@,
                own_module_id,
                source@,
                live_type_infos@,
                start_pos,
                parsed,
                tokens@,
                strings@,
                r,
            ),
    {
        match parsed {
            Ok(nodes) => Ok(
                self.register_parsed(
                    file_name,
                    own_module_id,
                    source,
                    live_type_infos,
                    start_pos,
                    nodes,
                    tokens,
                    strings,
                ),
            ),
            Err(error) => Err(error.to_live_file_error(file_name)),
        }
    }

    /// What a registration ends in once the lexer has spoken: its error
    /// under the file's name and the registry as it was, or what `parse`
    /// makes of the tokens leads to.
    pub open spec fn lexed_outcome<P>(
        pre: LiveRegistry,
        post: LiveRegistry,
        file_name: Seq<char>,
        own: LiveModuleId,
        source: Seq<char>,
        infos: Vec<LiveTypeInfo>,
        start_pos: TextPos,
        lexed: Result<LexOutput, Span>,
        parse: P,
        outcome: Result<LiveFileId, LiveFileError>,
    ) -> bool where P: FnOnce(&Vec<TokenWithSpan>, &Vec<LiveTypeInfo>, LiveFileId) -> Result<Vec<LiveNode>, LiveError> {
        match lexed {
            Err(span) => {
                &&& outcome matches Err(failure)
                &&& failure.file@ == file_name
                &&& failure.span == span
                &&& failure.message@ == "Error tokenizing"@
                &&& post == pre
            },
            Ok(out) => exists|tokens: Vec<TokenWithSpan>, parsed: Result<Vec<LiveNode>, LiveError>|
                {
                    &&& tokens@ == out.tokens
                    &&& #[trigger] parse.ensures((&tokens, &infos, LiveFileId(pre.slot_for(file_name) as u16)), parsed)
                    &&& LiveRegistry::registration_outcome(
                        pre,
                        post,
                        file_name,
                        own,
                        source,
                        infos@,
                        start_pos,
                        parsed,
                        out.tokens,
                        out.strings,
                        outcome,
                    )
                },
        }
    }

    /// Registers a source file for a module, or registers it anew: lexes
    /// the text with `lex`, which starts in state `start`, has `parse` turn
    /// the tokens into nodes, and takes the result into the registry. A
    /// failure of the lexing or of the parser comes back under the file's
    /// name and leaves the registry as it was. Where the parser can
    /// succeed, the shapes must agree with the table of types and its nodes
    /// must be registrable.
    pub fn register_live_file<S: Copy, L, P>(
        &mut self,
        file_name: &str,
        own_module_id: LiveModuleId,
        source: String,
        live_type_infos: Vec<LiveTypeInfo>,
        start_pos: TextPos,
        start: S,
        lex: L,
        parse: P,
    ) -> (r: Result<LiveFileId, LiveFileError>) where
        L: Fn(S, &Vec<char>, usize) -> (S, Option<(Fragment, usize)>),
        P: FnOnce(&Vec<TokenWithSpan>, &Vec<LiveTypeInfo>, LiveFileId) -> Result<Vec<LiveNode>, LiveError>,

        requires
            old(self).wf(),
            old(self).has_room_for(file_name@),
            fits_positions(source@, start_pos),
            lexer_takes_lines::<S, L>(lex),
            forall|tokens: &Vec<TokenWithSpan>, strings: Seq<char>| #[trigger]
                tokenized_by(
                    lex,
                    start,
                    source@,
                    start_pos,
                    LiveFileId(old(self).slot_for(file_name@) as u16),
                    Ok::<LexOutput, Span>(LexOutput { tokens: tokens@, strings }),
                ) ==> parse.requires(
                    (tokens, &live_type_infos, LiveFileId(old(self).slot_for(file_name@) as u16)),
                ),
            forall|tokens: &Vec<TokenWithSpan>, strings: Seq<char>, nodes: Vec<LiveNode>|
                #![trigger
                    tokenized_by(
                        lex,
                        start,
                        source@,
                        start_pos,
                        LiveFileId(old(self).slot_for(file_name@) as u16),
                        Ok::<LexOutput, Span>(LexOutput { tokens: tokens@, strings }),
                    ),
                    parse.ensures(
                        (tokens, &live_type_infos, LiveFileId(old(self).slot_for(file_name@) as u16)),
                        Ok(nodes),
                    )
                ]
                tokenized_by(
                    lex,
                    start,
                    source@,
                    start_pos,
                    LiveFileId(old(self).slot_for(file_name@) as u16),
                    Ok::<LexOutput, Span>(LexOutput { tokens: tokens@, strings }),
                ) && parse.ensures(
                    (tokens, &live_type_infos, LiveFileId(old(self).slot_for(file_name@) as u16)),
                    Ok(nodes),
                ) ==> types_agree(old(self).live_type_infos@, live_type_infos@) && registrable(
                    resolved_nodes(nodes@, own_module_id),
                    merged_types(old(self).live_type_infos@, live_type_infos@),
                    own_module_id,
                ),
        ensures
            final(self).wf(),
            exists|lexed: Result<LexOutput, Span>| #[trigger]
                tokenized_by(
                    lex,
                    start,
                    source@,
                    start_pos,
                    LiveFileId(old(self).slot_for(file_name@) as u16),
                    lexed,
                ) && LiveRegistry::lexed_outcome(
                    *old(self),
                    *final(self),
                    file_name@,
                    own_module_id,
                    source@,
                    live_type_infos,
                    start_pos,
                    lexed,
                    parse,
                    r,
                ),
    {
        let slot = match self.find_file(file_name, 1) {
            Some(index) => index,
            None => self.live_files.len(),
        };
        let file_id = LiveFileId::index(slot);
        let lexing = tokenize(source.as_str(), start_pos, file_id, start, lex);
        let ghost lexed = lexing_of(lexing);
        let (tokens, strings) = match lexing {
            Ok(found) => found,
            Err(error) => {
                let failure = error.to_live_file_error(file_name);
                proof {
                    assert(LiveRegistry::lexed_outcome(
                        *old(self),
                        *self,
                        file_name@,
                        own_module_id,
                        source@,
                        live_type_infos,
                        start_pos,
                        lexed,
                        parse,
                        Err::<LiveFileId, LiveFileError>(failure),
                    ));
                }
                return Err(failure);
            },
        };
        let ghost given = tokens;
        proof {
            assert(file_id == LiveFileId(old(self).slot_for(file_name@) as u16));
            assert(tokenized_by(
                lex,
                start,
                source@,
                start_pos,
                LiveFileId(old(self).slot_for(file_name@) as u16),
                Ok::<LexOutput, Span>(LexOutput { tokens: (&tokens)@, strings: strings@ }),
            ));
        }
        let parsed = parse(&tokens, &live_type_infos, file_id);
        proof {
            if parsed is Ok {
                assert(parse.ensures(
                    (&tokens, &live_type_infos, LiveFileId(old(self).slot_for(file_name@) as u16)),
                    Ok::<Vec<LiveNode>, LiveError>(parsed->Ok_0),
                ));
            }
        }
        let ghost answer = parsed;
        let ghost shapes = live_type_infos;
        let outcome = self.finish_registration(
            file_name,
            own_module_id,
            source,
            live_type_infos,
            start_pos,
            parsed,
            tokens,
            strings,
        );
        proof {
            assert(parse.ensures((&given, &shapes, file_id), answer));
            assert(LiveRegistry::lexed_outcome(
                *old(self),
                *self,
                file_name@,
                own_module_id,
                source@,
                shapes,
                start_pos,
                lexed,
                parse,
                outcome,
            ));
        }
        outcome
    }
}

} // verus!
