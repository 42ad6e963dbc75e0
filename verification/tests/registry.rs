use live_compiler::live_document::LiveDocument;
use live_compiler::live_error::LiveError;
use live_compiler::live_id::LiveId;
use live_compiler::live_node::{LiveNode, LiveNodeOrigin, LiveType, LiveTypeField, LiveTypeInfo, LiveValue};
use live_compiler::live_ptr::{LiveFileId, LiveModuleId, LivePtr};
use live_compiler::live_registry::{LiveRegistry, LiveScopeTarget};
use live_compiler::live_token::{Delim, Fragment, TokenId, TokenWithSpan};
use makepad_live_tokenizer::{Cursor, FullToken, State};
use live_compiler::span::{Span, TextPos};

fn module(name: &str) -> LiveModuleId {
    LiveModuleId(LiveId::from_str("main"), LiveId::from_str(name))
}

fn origin(file: u16, index: u32) -> LiveNodeOrigin {
    LiveNodeOrigin { token_id: Some(TokenId { file_id: LiveFileId(file), token_index: index }), node_index: Some(index) }
}

fn node(file: u16, index: u32, name: &str, value: LiveValue) -> LiveNode {
    let id = if name.is_empty() { LiveId::empty() } else { LiveId::from_str(name) };
    LiveNode { origin: origin(file, index), id, value }
}

/// A document whose root holds the given children, each a value node.
fn document(file: u16, children: &[(&str, LiveValue)]) -> Vec<LiveNode> {
    let mut nodes = vec![node(file, 0, "", LiveValue::Object)];
    for (name, value) in children {
        let index = nodes.len() as u32;
        nodes.push(node(file, index, name, *value));
        if value.is_open() {
            nodes.push(node(file, index + 1, "", LiveValue::Close));
        }
    }
    let index = nodes.len() as u32;
    nodes.push(node(file, index, "", LiveValue::Close));
    nodes
}


fn delim(delim: makepad_live_tokenizer::Delim) -> Delim {
    match delim {
        makepad_live_tokenizer::Delim::Paren => Delim::Paren,
        makepad_live_tokenizer::Delim::Bracket => Delim::Bracket,
        makepad_live_tokenizer::Delim::Brace => Delim::Brace,
    }
}

/// The lexer of `makepad_live_tokenizer` as the line loop takes it.
fn lex(state: State, line: &Vec<char>, from: usize) -> (State, Option<(Fragment, usize)>) {
    let mut scratch = String::new();
    let mut cursor = Cursor::new(&line[from..], &mut scratch);
    let (next, token) = state.next(&mut cursor);
    let found = token.map(|token| {
        let fragment = match token.token {
            FullToken::Punct(id) => Fragment::Punct(LiveId(id.0)),
            FullToken::Ident(id) => Fragment::Ident(LiveId(id.0)),
            FullToken::Open(d) => Fragment::Open(delim(d)),
            FullToken::Close(d) => Fragment::Close(delim(d)),
            FullToken::String(_) => Fragment::String,
            FullToken::Bool(value) => Fragment::Bool(value),
            FullToken::Color(value) => Fragment::Color(value),
            FullToken::Float(value) => Fragment::Float(value.to_bits()),
            FullToken::Int(value) => Fragment::Int(value),
            FullToken::OtherNumber => Fragment::OtherNumber,
            FullToken::Lifetime => Fragment::Lifetime,
            FullToken::Comment => Fragment::Comment,
            FullToken::Whitespace => Fragment::Whitespace,
            FullToken::Unknown => Fragment::Unknown,
        };
        (fragment, token.len)
    });
    (next, found)
}

fn start() -> TextPos {
    TextPos { line: 0, column: 0 }
}

fn register(registry: &mut LiveRegistry, name: &str, module_id: LiveModuleId, source: &str, nodes: Vec<LiveNode>) -> LiveFileId {
    registry
        .register_live_file(name, module_id, source.to_string(), Vec::new(), start(), State::default(), lex, move |_, _, _| Ok(nodes))
        .unwrap()
}

/// An expander that takes the unexpanded nodes over as they are.
fn copy_nodes(
    _registry: &LiveRegistry,
    _in_crate: LiveId,
    _file_id: LiveFileId,
    raw: &LiveDocument,
    mut out: LiveDocument,
) -> (LiveDocument, Vec<LiveError>) {
    out.nodes = raw.nodes.clone();
    (out, Vec::new())
}

fn order_of(registry: &LiveRegistry) -> Vec<LiveModuleId> {
    registry.dep_order.iter().map(|entry| entry.0).collect()
}

fn deps_of(registry: &LiveRegistry, module_id: LiveModuleId) -> Vec<LiveModuleId> {
    registry.dep_graph.iter().find(|entry| entry.0 == module_id).map(|entry| entry.1.clone()).unwrap()
}

#[test]
fn new_registry_holds_the_reserved_slot() {
    let registry = LiveRegistry::default();
    assert_eq!(registry.live_files.len(), 1);
    assert_eq!(registry.expanded.len(), 1);
    assert!(registry.dep_order.is_empty());
    assert!(registry.dep_graph.is_empty());
    assert!(!registry.expanded[0].recompile);
    assert_eq!(registry.path_str_to_file_id(""), Some(LiveFileId(0)));
    assert_eq!(registry.path_str_to_file_id("a"), None);
}

#[test]
fn import_puts_the_dependency_first() {
    let mut registry = LiveRegistry::default();
    let a = register(
        &mut registry,
        "a",
        module("mod_a"),
        "use mod_b::Foo;",
        document(1, &[("Foo", LiveValue::Use(module("mod_b")))]),
    );
    assert_eq!(a, LiveFileId(1));
    assert_eq!(order_of(&registry), vec![module("mod_b"), module("mod_a")]);
    assert_eq!(registry.dep_order[0].1, TokenId { file_id: LiveFileId(1), token_index: 1 });
    assert_eq!(registry.dep_order[1].1, TokenId { file_id: LiveFileId(1), token_index: 0 });
    let b = register(&mut registry, "b", module("mod_b"), "Foo: {}", document(2, &[("Foo", LiveValue::Object)]));
    assert_eq!(b, LiveFileId(2));
    assert_eq!(order_of(&registry), vec![module("mod_b"), module("mod_a")]);
    assert_eq!(deps_of(&registry, module("mod_a")), vec![module("mod_b")]);
    assert_eq!(deps_of(&registry, module("mod_b")), Vec::<LiveModuleId>::new());
    assert_eq!(registry.module_id_to_file_id(module("mod_a")), Some(LiveFileId(1)));
    assert_eq!(registry.module_id_to_file_id(module("mod_b")), Some(LiveFileId(2)));
    assert_eq!(registry.path_str_to_file_id("b"), Some(LiveFileId(2)));
    assert_eq!(registry.file_id_to_file_name(LiveFileId(1)), "a");

    let mut errors = Vec::new();
    registry.expand_all_documents(&mut errors, copy_nodes);
    assert!(errors.is_empty());
    assert!(!registry.expanded[1].recompile);
    assert!(!registry.expanded[2].recompile);
    let nodes = &registry.file_id_to_doc(LiveFileId(1)).nodes;
    assert_eq!(
        registry.find_scope_target_via_start(LiveId::from_str("Foo"), 0, nodes),
        Some(LiveScopeTarget::LivePtr(LivePtr { file_id: LiveFileId(2), index: 1 }))
    );
    assert_eq!(
        registry.find_scope_ptr_via_origin(origin(1, 0), LiveId::from_str("Foo")),
        Some(LivePtr { file_id: LiveFileId(2), index: 1 })
    );
    assert_eq!(registry.ptr_to_node(LivePtr { file_id: LiveFileId(2), index: 1 }).id, LiveId::from_str("Foo"));
}

#[test]
fn dropped_import_leaves_the_graph() {
    let mut registry = LiveRegistry::default();
    register(
        &mut registry,
        "a",
        module("mod_a"),
        "use mod_b::Foo;",
        document(1, &[("Foo", LiveValue::Use(module("mod_b")))]),
    );
    register(&mut registry, "b", module("mod_b"), "Foo: {}", document(2, &[("Foo", LiveValue::Object)]));
    let mut errors = Vec::new();
    registry.expand_all_documents(&mut errors, copy_nodes);
    assert!(!registry.expanded[2].recompile);

    let again = register(&mut registry, "a", module("mod_a"), "x: 1", document(1, &[("x", LiveValue::Int(1))]));
    assert_eq!(again, LiveFileId(1));
    assert_eq!(deps_of(&registry, module("mod_a")), Vec::<LiveModuleId>::new());
    assert!(registry.expanded[1].recompile);
    assert!(!registry.expanded[2].recompile);
    assert_eq!(registry.live_files.len(), 3);
    assert_eq!(registry.live_files[1].source, "x: 1");
}

#[test]
fn edit_marks_the_chain_of_dependents() {
    let mut registry = LiveRegistry::default();
    register(&mut registry, "a", module("a"), "x: 1", document(1, &[("x", LiveValue::Int(1))]));
    register(&mut registry, "b", module("b"), "use a::x;", document(2, &[("x", LiveValue::Use(module("a")))]));
    register(&mut registry, "c", module("c"), "use b::x;", document(3, &[("x", LiveValue::Use(module("b")))]));
    register(&mut registry, "d", module("d"), "y: 2", document(4, &[("y", LiveValue::Int(2))]));
    assert_eq!(order_of(&registry), vec![module("a"), module("b"), module("c"), module("d")]);
    let mut errors = Vec::new();
    registry.expand_all_documents(&mut errors, copy_nodes);
    for file in 1..5 {
        assert!(!registry.expanded[file].recompile);
    }
    register(&mut registry, "a", module("a"), "x: 3", document(1, &[("x", LiveValue::Int(3))]));
    assert!(registry.expanded[1].recompile);
    assert!(registry.expanded[2].recompile);
    assert!(registry.expanded[3].recompile);
    assert!(!registry.expanded[4].recompile);
}

#[test]
fn mark_dirty_ends_on_a_circle() {
    let mut registry = LiveRegistry::default();
    register(&mut registry, "a", module("a"), "use b::x;", document(1, &[("x", LiveValue::Use(module("b")))]));
    register(&mut registry, "b", module("b"), "use a::x;", document(2, &[("x", LiveValue::Use(module("a")))]));
    let mut errors = Vec::new();
    registry.expand_all_documents(&mut errors, copy_nodes);
    assert!(!registry.expanded[1].recompile && !registry.expanded[2].recompile);
    registry.mark_dirty(module("a"));
    assert!(registry.expanded[1].recompile && registry.expanded[2].recompile);
}

#[test]
fn same_content_twice_changes_nothing_more() {
    let mut registry = LiveRegistry::default();
    register(&mut registry, "b", module("b"), "x: 1", document(1, &[("x", LiveValue::Int(1))]));
    register(&mut registry, "c", module("c"), "use a::x;", document(2, &[("x", LiveValue::Use(module("a")))]));
    let mut errors = Vec::new();
    registry.expand_all_documents(&mut errors, copy_nodes);
    let nodes = document(3, &[("x", LiveValue::Use(module("b"))), ("y", LiveValue::Use(module("c")))]);
    register(&mut registry, "a", module("a"), "use b::x; use c::y;", nodes.clone());
    let order = order_of(&registry);
    let graph = registry.dep_graph.clone();
    let stale: Vec<bool> = registry.expanded.iter().map(|d| d.recompile).collect();
    register(&mut registry, "a", module("a"), "use b::x; use c::y;", nodes);
    assert_eq!(order_of(&registry), order);
    assert_eq!(registry.dep_graph, graph);
    assert_eq!(registry.expanded.iter().map(|d| d.recompile).collect::<Vec<bool>>(), stale);
    assert_eq!(registry.live_files.len(), 4);
}

#[test]
fn first_wildcard_import_wins() {
    let mut registry = LiveRegistry::default();
    register(&mut registry, "p", module("p"), "x: 1", document(1, &[("x", LiveValue::Int(1))]));
    register(&mut registry, "q", module("q"), "w: 0 x: 2", document(2, &[("w", LiveValue::Int(0)), ("x", LiveValue::Int(2))]));
    register(
        &mut registry,
        "r",
        module("r"),
        "use q::*; use p::*;",
        document(3, &[("", LiveValue::Use(module("q"))), ("", LiveValue::Use(module("p")))]),
    );
    let mut errors = Vec::new();
    registry.expand_all_documents(&mut errors, copy_nodes);
    let nodes = &registry.expanded[3].nodes;
    assert_eq!(
        registry.find_scope_target_via_start(LiveId::from_str("x"), 0, nodes),
        Some(LiveScopeTarget::LivePtr(LivePtr { file_id: LiveFileId(2), index: 2 }))
    );
    assert_eq!(
        registry.find_scope_target_via_start(LiveId::from_str("w"), 0, nodes),
        Some(LiveScopeTarget::LivePtr(LivePtr { file_id: LiveFileId(2), index: 1 }))
    );
    assert_eq!(registry.find_scope_target_via_start(LiveId::from_str("z"), 0, nodes), None);
}

#[test]
fn local_name_comes_before_wildcards() {
    let mut registry = LiveRegistry::default();
    register(&mut registry, "p", module("p"), "x: 1", document(1, &[("x", LiveValue::Int(1))]));
    register(
        &mut registry,
        "r",
        module("r"),
        "use p::*; x: 5",
        document(2, &[("", LiveValue::Use(module("p"))), ("x", LiveValue::Int(5))]),
    );
    let mut errors = Vec::new();
    registry.expand_all_documents(&mut errors, copy_nodes);
    let nodes = &registry.expanded[2].nodes;
    assert_eq!(
        registry.find_scope_target_via_start(LiveId::from_str("x"), 0, nodes),
        Some(LiveScopeTarget::LocalPtr(2))
    );
    assert_eq!(
        registry.find_scope_ptr_via_origin(origin(2, 0), LiveId::from_str("x")),
        Some(LivePtr { file_id: LiveFileId(2), index: 2 })
    );
}

#[test]
fn field_of_the_class_parent_is_found() {
    let mut registry = LiveRegistry::default();
    let base = LiveType(7);
    let infos = |module_id: LiveModuleId| {
        vec![LiveTypeInfo { live_type: base, name: LiveId::from_str("Base"), module_id, fields: Vec::new() }]
    };
    // File 1: Base: Class { color: 1 }
    let parent_nodes = vec![
        node(1, 0, "", LiveValue::Object),
        node(1, 1, "Base", LiveValue::Class { live_type: base, class_parent: None }),
        node(1, 2, "color", LiveValue::Color(1)),
        node(1, 3, "", LiveValue::Close),
        node(1, 4, "", LiveValue::Close),
    ];
    registry
        .register_live_file("f1", module("f1"), "Base: {color: 1}".to_string(), infos(module("f1")), start(), State::default(), lex, move |_, _, _| {
            Ok(parent_nodes)
        })
        .unwrap();
    // File 2: Child: Class(parent in file 1) { size: 2 }
    let child_nodes = vec![
        node(2, 0, "", LiveValue::Object),
        node(
            2,
            1,
            "Child",
            LiveValue::Class { live_type: base, class_parent: Some(LivePtr { file_id: LiveFileId(1), index: 1 }) },
        ),
        node(2, 2, "size", LiveValue::Int(2)),
        node(2, 3, "", LiveValue::Close),
        node(2, 4, "", LiveValue::Close),
    ];
    registry
        .register_live_file("f2", module("f2"), "Child: {size: 2}".to_string(), infos(module("f1")), start(), State::default(), lex, move |_, _, _| {
            Ok(child_nodes)
        })
        .unwrap();
    let mut errors = Vec::new();
    registry.expand_all_documents(&mut errors, copy_nodes);
    let child = LivePtr { file_id: LiveFileId(2), index: 1 };
    let (nodes, index) = registry.find_scope_item_via_class_parent(child, LiveId::from_str("color")).unwrap();
    assert_eq!(index, 2);
    assert_eq!(nodes[index].value, LiveValue::Color(1));
    assert_eq!(nodes[index].origin, origin(1, 2));
    let (nodes, index) = registry.find_scope_item_via_class_parent(child, LiveId::from_str("size")).unwrap();
    assert_eq!(index, 2);
    assert_eq!(nodes[index].value, LiveValue::Int(2));
    assert!(registry.find_scope_item_via_class_parent(child, LiveId::from_str("none")).is_none());
    // A node that is no class resolves nothing.
    assert!(registry.find_scope_item_via_class_parent(LivePtr { file_id: LiveFileId(2), index: 2 }, LiveId::from_str("size")).is_none());
}

#[test]
fn class_fields_of_other_modules_are_dependencies() {
    let mut registry = LiveRegistry::default();
    let widget = LiveType(1);
    let infos = vec![LiveTypeInfo {
        live_type: widget,
        name: LiveId::from_str("Widget"),
        module_id: module("ui"),
        fields: vec![
            LiveTypeField { id: LiveId::from_str("own"), live_type: LiveType(2), module_id: module("ui") },
            LiveTypeField { id: LiveId::from_str("font"), live_type: LiveType(3), module_id: module("text") },
            LiveTypeField { id: LiveId::from_str("draw"), live_type: LiveType(4), module_id: module("draw") },
            LiveTypeField { id: LiveId::from_str("more"), live_type: LiveType(5), module_id: module("text") },
        ],
    }];
    let nodes = vec![
        node(1, 0, "", LiveValue::Object),
        node(1, 1, "W", LiveValue::Class { live_type: widget, class_parent: None }),
        node(1, 2, "", LiveValue::Close),
        node(1, 3, "", LiveValue::Close),
    ];
    registry
        .register_live_file("ui", module("ui"), "W: {}".to_string(), infos, start(), State::default(), lex, move |_, _, _| Ok(nodes))
        .unwrap();
    assert_eq!(order_of(&registry), vec![module("text"), module("draw"), module("ui")]);
    assert_eq!(deps_of(&registry, module("ui")), vec![module("text"), module("draw")]);
    assert_eq!(registry.live_type_infos.len(), 1);
}

#[test]
fn own_crate_in_an_import_is_resolved() {
    let mut registry = LiveRegistry::default();
    let relative = LiveModuleId(LiveId::from_str("crate"), LiveId::from_str("other"));
    register(&mut registry, "a", module("a"), "use crate::other::x;", document(1, &[("x", LiveValue::Use(relative))]));
    assert_eq!(registry.live_files[1].document.nodes[1].value, LiveValue::Use(module("other")));
    assert_eq!(order_of(&registry), vec![module("other"), module("a")]);
    assert_eq!(LiveId::own_crate(), LiveId::from_str("crate"));
    assert_ne!(LiveId::from_str("crate"), LiveId::from_str("main"));
}

#[test]
fn lexical_error_leaves_the_registry_alone() {
    let mut registry = LiveRegistry::default();
    let error = registry
        .register_live_file("bad", module("bad"), "x: ~".to_string(), Vec::new(), start(), State::default(), lex, |_, _, _| Ok(Vec::new()))
        .unwrap_err();
    assert_eq!(error.file, "bad");
    assert_eq!(error.message, "Error tokenizing");
    assert_eq!(
        error.span,
        Span { file_id: LiveFileId(1), start: TextPos { line: 0, column: 3 }, end: TextPos { line: 0, column: 4 } }
    );
    assert_eq!(registry.live_files.len(), 1);
    assert!(registry.dep_order.is_empty());
    assert_eq!(registry.path_str_to_file_id("bad"), None);
}

#[test]
fn parse_error_leaves_the_registry_alone() {
    let mut registry = LiveRegistry::default();
    let span = Span { file_id: LiveFileId(1), start: TextPos { line: 0, column: 0 }, end: TextPos { line: 0, column: 1 } };
    let error = registry
        .register_live_file("bad", module("bad"), "x".to_string(), Vec::new(), start(), State::default(), lex, |tokens: &Vec<TokenWithSpan>, _, file_id| {
            assert_eq!(tokens.len(), 2);
            assert_eq!(file_id, LiveFileId(1));
            Err(LiveError { span, message: "Unexpected token".to_string() })
        })
        .unwrap_err();
    assert_eq!(error.file, "bad");
    assert_eq!(error.message, "Unexpected token");
    assert_eq!(error.span, span);
    assert_eq!(registry.live_files.len(), 1);
    assert!(registry.dep_order.is_empty());
    assert!(registry.module_id_to_file_id(module("bad")).is_none());
}

#[test]
fn unregistered_dependency_is_passed_over() {
    let mut registry = LiveRegistry::default();
    register(&mut registry, "a", module("a"), "use b::x;", document(1, &[("x", LiveValue::Use(module("b")))]));
    assert_eq!(registry.next_stale(0), Some((1, LiveFileId(1))));
    let mut errors = vec![LiveError { span: Span::default(), message: "earlier".to_string() }];
    registry.expand_all_documents(&mut errors, |_, _, file_id, raw, mut out| {
        out.nodes = raw.nodes.clone();
        (out, vec![LiveError { span: Span { file_id, ..Span::default() }, message: "unresolved".to_string() }])
    });
    assert_eq!(errors.len(), 2);
    assert_eq!(errors[0].message, "earlier");
    assert_eq!(errors[1].message, "unresolved");
    assert!(!registry.expanded[1].recompile);
    assert_eq!(registry.expanded[1].nodes.len(), 3);
    assert_eq!(registry.expanded[1].tokens.len(), registry.live_files[1].document.tokens.len());
    assert_eq!(registry.next_stale(0), None);
    assert_eq!(
        registry.find_scope_target_via_start(LiveId::from_str("x"), 0, &registry.expanded[1].nodes),
        None
    );
}

#[test]
fn expansion_takes_and_puts_the_document() {
    let mut registry = LiveRegistry::default();
    register(&mut registry, "a", module("a"), "s: \"hi\"", document(1, &[("s", LiveValue::String { index: 0, len: 2 })]));
    let taken = registry.take_stale(LiveFileId(1));
    assert!(taken.nodes.is_empty());
    assert_eq!(taken.strings, vec!['h', 'i']);
    assert_eq!(taken.tokens.len(), 4);
    assert!(registry.expanded[1].nodes.is_empty() && registry.expanded[1].recompile);
    registry.put_expanded(LiveFileId(1), taken);
    assert!(!registry.expanded[1].recompile);
    assert_eq!(registry.expanded[1].strings, vec!['h', 'i']);
    assert_eq!(registry.token_id_to_span(TokenId { file_id: LiveFileId(1), token_index: 2 }).start, TextPos { line: 0, column: 3 });
    assert_eq!(registry.token_id_to_origin_doc(TokenId { file_id: LiveFileId(1), token_index: 0 }).nodes.len(), 3);
    assert_eq!(registry.token_id_to_expanded_doc(TokenId { file_id: LiveFileId(1), token_index: 0 }).nodes.len(), 0);
    let error = LiveError { span: Span { file_id: LiveFileId(1), ..Span::default() }, message: "m".to_string() };
    assert_eq!(registry.live_error_to_live_file_error(error).file, "a");
}

#[test]
fn module_and_name_give_the_definition() {
    let mut registry = LiveRegistry::default();
    register(&mut registry, "a", module("a"), "x: 1 y: 2", document(1, &[("x", LiveValue::Int(1)), ("y", LiveValue::Int(2))]));
    assert!(registry.module_id_and_name_to_doc(module("a"), LiveId::from_str("y")).is_none());
    let root = registry.module_id_and_name_to_doc(module("a"), LiveId::empty()).unwrap();
    assert_eq!((root.file_id, root.index, root.nodes.len()), (LiveFileId(1), 0, 0));
    let mut errors = Vec::new();
    registry.expand_all_documents(&mut errors, copy_nodes);
    let found = registry.module_id_and_name_to_doc(module("a"), LiveId::from_str("y")).unwrap();
    assert_eq!((found.file_id, found.index, found.nodes.len()), (LiveFileId(1), 2, 4));
    assert!(registry.module_id_and_name_to_doc(module("a"), LiveId::from_str("z")).is_none());
    assert!(registry.module_id_and_name_to_doc(module("b"), LiveId::from_str("y")).is_none());
    let ptr = LivePtr { file_id: LiveFileId(1), index: 2 };
    assert_eq!(registry.ptr_to_doc_node(ptr).1.value, LiveValue::Int(2));
    assert_eq!(registry.ptr_to_doc(ptr).nodes.len(), 4);
    assert_eq!(registry.ptr_to_nodes_index(ptr).1, 2);
}

#[test]
fn repair_moves_a_later_dependency_forward() {
    let mut registry = LiveRegistry::default();
    let token = TokenId { file_id: LiveFileId(1), token_index: 0 };
    for name in ["m", "e", "d"] {
        registry.dep_order.push((module(name), token));
    }
    let moved = TokenId { file_id: LiveFileId(1), token_index: 9 };
    registry.insert_dep_order(module("d"), moved, module("m"));
    assert_eq!(order_of(&registry), vec![module("d"), module("m"), module("e")]);
    assert_eq!(registry.dep_order[0].1, moved);
    registry.insert_dep_order(module("d"), token, module("e"));
    assert_eq!(order_of(&registry), vec![module("d"), module("m"), module("e")]);
    assert_eq!(registry.dep_order[0].1, moved);
    registry.insert_dep_order(module("n"), token, module("m"));
    assert_eq!(order_of(&registry), vec![module("d"), module("n"), module("m"), module("e")]);
    registry.insert_dep_order(module("m"), token, module("m"));
    assert_eq!(order_of(&registry), vec![module("d"), module("n"), module("m"), module("e")]);
}

#[test]
fn chain_of_imports_is_ordered_dependencies_first() {
    let mut registry = LiveRegistry::default();
    register(&mut registry, "a", module("a"), "use b::x;", document(1, &[("x", LiveValue::Use(module("b")))]));
    register(&mut registry, "b", module("b"), "use c::x;", document(2, &[("x", LiveValue::Use(module("c")))]));
    register(&mut registry, "c", module("c"), "x: 1", document(3, &[("x", LiveValue::Int(1))]));
    assert_eq!(order_of(&registry), vec![module("c"), module("b"), module("a")]);
    let mut seen = Vec::new();
    let mut errors = Vec::new();
    let log = std::cell::RefCell::new(&mut seen);
    registry.expand_all_documents(&mut errors, |_, _, file_id, raw, mut out| {
        log.borrow_mut().push(file_id);
        out.nodes = raw.nodes.clone();
        (out, Vec::new())
    });
    assert_eq!(seen, vec![LiveFileId(3), LiveFileId(2), LiveFileId(1)]);
    let nodes = &registry.expanded[1].nodes;
    assert_eq!(
        registry.find_scope_target_via_start(LiveId::from_str("x"), 0, nodes),
        Some(LiveScopeTarget::LivePtr(LivePtr { file_id: LiveFileId(2), index: 1 }))
    );
}

#[test]
fn named_import_that_does_not_resolve_ends_the_search() {
    let mut registry = LiveRegistry::default();
    register(&mut registry, "p", module("p"), "x: 1", document(1, &[("x", LiveValue::Int(1))]));
    register(&mut registry, "q", module("q"), "y: 2", document(2, &[("y", LiveValue::Int(2))]));
    // `x` is imported by name from q, which does not export it, and from an
    // unregistered module under the name `z`; p is imported by wildcard and
    // exports `x`.
    register(
        &mut registry,
        "r",
        module("r"),
        "use p::*; use q::x; use gone::z;",
        document(
            3,
            &[
                ("", LiveValue::Use(module("p"))),
                ("x", LiveValue::Use(module("q"))),
                ("z", LiveValue::Use(module("gone"))),
            ],
        ),
    );
    let mut errors = Vec::new();
    registry.expand_all_documents(&mut errors, copy_nodes);
    let nodes = &registry.expanded[3].nodes;
    assert_eq!(registry.find_scope_target_via_start(LiveId::from_str("x"), 0, nodes), None);
    assert_eq!(registry.find_scope_target_via_start(LiveId::from_str("z"), 0, nodes), None);
    assert_eq!(registry.find_scope_ptr_via_origin(origin(3, 0), LiveId::from_str("x")), None);
    // A name that the scopes do not hold still goes to the wildcard import.
    register(&mut registry, "p", module("p"), "x: 1 w: 3", document(1, &[("x", LiveValue::Int(1)), ("w", LiveValue::Int(3))]));
    registry.expand_all_documents(&mut errors, copy_nodes);
    let nodes = &registry.expanded[3].nodes;
    assert_eq!(
        registry.find_scope_target_via_start(LiveId::from_str("w"), 0, nodes),
        Some(LiveScopeTarget::LivePtr(LivePtr { file_id: LiveFileId(1), index: 2 }))
    );
}

#[test]
fn parse_error_comes_back_even_with_conflicting_shapes() {
    let mut registry = LiveRegistry::default();
    let shape = |owner: &str| {
        vec![LiveTypeInfo { live_type: LiveType(1), name: LiveId::from_str("T"), module_id: module(owner), fields: Vec::new() }]
    };
    registry
        .register_live_file("a", module("a"), "x: 1".to_string(), shape("a"), start(), State::default(), lex, |_, _, _| {
            Ok(document(1, &[("x", LiveValue::Int(1))]))
        })
        .unwrap();
    let span = Span { file_id: LiveFileId(2), start: TextPos { line: 0, column: 0 }, end: TextPos { line: 0, column: 1 } };
    let error = registry
        .register_live_file("b", module("b"), "y".to_string(), shape("b"), start(), State::default(), lex, |_, _, _| {
            Err(LiveError { span, message: "Unexpected token".to_string() })
        })
        .unwrap_err();
    assert_eq!((error.file.as_str(), error.message.as_str(), error.span), ("b", "Unexpected token", span));
    let error = registry
        .register_live_file("b", module("b"), "y ~".to_string(), shape("b"), start(), State::default(), lex, |_, _, _| {
            Ok(Vec::new())
        })
        .unwrap_err();
    assert_eq!((error.file.as_str(), error.message.as_str()), ("b", "Error tokenizing"));
    assert_eq!(registry.live_files.len(), 2);
    assert_eq!(registry.live_type_infos.len(), 1);
    assert_eq!(registry.live_type_infos[0].module_id, module("a"));
    assert_eq!(order_of(&registry), vec![module("a")]);
}
