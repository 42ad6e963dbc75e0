use live_compiler::dep_graph::dependents;
use live_compiler::live_id::LiveId;
use live_compiler::live_node::{LiveNode, LiveNodeOrigin, LiveType, LiveTypeField, LiveTypeInfo, LiveValue};
use live_compiler::live_ptr::{LiveFileId, LiveModuleId};
use live_compiler::live_register::nodes_fit;
use live_compiler::live_registry::LiveRegistry;
use live_compiler::live_token::TokenId;
use live_compiler::span::TextPos;
use live_compiler::tokenizer::positions_fit;
use live_compiler::type_table::types_fit;

fn module(name: &str) -> LiveModuleId {
    LiveModuleId(LiveId::from_str("main"), LiveId::from_str(name))
}

fn shape(live_type: u64, owner: &str, fields: Vec<LiveTypeField>) -> LiveTypeInfo {
    LiveTypeInfo { live_type: LiveType(live_type), name: LiveId::from_str("T"), module_id: module(owner), fields }
}

fn field(owner: &str) -> LiveTypeField {
    LiveTypeField { id: LiveId::from_str("f"), live_type: LiveType(99), module_id: module(owner) }
}

fn node(token: bool, value: LiveValue) -> LiveNode {
    let token_id = if token { Some(TokenId { file_id: LiveFileId(1), token_index: 0 }) } else { None };
    LiveNode { origin: LiveNodeOrigin { token_id, node_index: None }, id: LiveId::from_str("n"), value }
}

#[test]
fn types_fit_compares_owning_modules() {
    let table = vec![shape(1, "a", Vec::new()), shape(2, "b", Vec::new())];
    assert!(types_fit(&table, &Vec::new()));
    assert!(types_fit(&table, &vec![shape(1, "a", vec![field("x")]), shape(3, "c", Vec::new())]));
    assert!(!types_fit(&table, &vec![shape(2, "a", Vec::new())]));
    // A shape is held against the shapes before it in the same list.
    assert!(types_fit(&table, &vec![shape(3, "c", Vec::new()), shape(3, "c", Vec::new())]));
    assert!(!types_fit(&table, &vec![shape(3, "c", Vec::new()), shape(3, "d", Vec::new())]));
    assert!(!types_fit(&table, &vec![shape(3, "c", Vec::new()), shape(1, "a", Vec::new()), shape(1, "b", Vec::new())]));
}

#[test]
fn nodes_fit_asks_for_tokens_and_known_types() {
    let table = vec![shape(1, "a", vec![field("a")]), shape(2, "a", vec![field("a"), field("b")])];
    let none = Vec::new();
    let class = |live_type: u64| LiveValue::Class { live_type: LiveType(live_type), class_parent: None };
    assert!(nodes_fit(&table, &none, &Vec::new(), module("a")));
    assert!(nodes_fit(&table, &none, &vec![node(false, LiveValue::Int(1)), node(true, LiveValue::Use(module("b")))], module("a")));
    assert!(!nodes_fit(&table, &none, &vec![node(false, LiveValue::Use(module("b")))], module("a")));
    // A class whose fields all belong to the module needs no token.
    assert!(nodes_fit(&table, &none, &vec![node(false, class(1))], module("a")));
    assert!(!nodes_fit(&table, &none, &vec![node(false, class(2))], module("a")));
    assert!(nodes_fit(&table, &none, &vec![node(true, class(2))], module("a")));
    assert!(!nodes_fit(&table, &none, &vec![node(false, class(1))], module("c")));
    // An unknown type fits once the registration brings its shape.
    assert!(!nodes_fit(&table, &none, &vec![node(true, class(3))], module("a")));
    assert!(nodes_fit(&table, &vec![shape(3, "a", Vec::new())], &vec![node(true, class(3))], module("a")));
    // The shape of the registration counts, not the one it replaces.
    assert!(nodes_fit(&table, &vec![shape(2, "a", Vec::new())], &vec![node(false, class(2))], module("a")));
}

#[test]
fn positions_fit_within_32_bits() {
    assert!(positions_fit("abc", TextPos { line: 0, column: 0 }));
    assert!(positions_fit("abc", TextPos { line: u32::MAX - 4, column: u32::MAX - 4 }));
    assert!(!positions_fit("abc", TextPos { line: u32::MAX - 3, column: 0 }));
    assert!(!positions_fit("abc", TextPos { line: 0, column: u32::MAX - 3 }));
    assert!(positions_fit("", TextPos { line: u32::MAX - 1, column: 0 }));
    assert!(!positions_fit("", TextPos { line: u32::MAX, column: 0 }));
}

#[test]
fn registry_has_room_for_new_names() {
    let registry = LiveRegistry::default();
    assert!(registry.has_room("a"));
    assert_eq!(registry.find_file("", 0), Some(0));
    assert_eq!(registry.find_file("", 1), None);
}

#[test]
fn dependents_follow_chains_and_stop_on_circles() {
    // a <- b <- c, d alone, e <-> f, g -> e
    let graph = vec![
        (module("a"), vec![]),
        (module("b"), vec![module("a")]),
        (module("c"), vec![module("x"), module("b")]),
        (module("d"), vec![]),
        (module("e"), vec![module("f")]),
        (module("f"), vec![module("e")]),
        (module("g"), vec![module("e")]),
    ];
    assert_eq!(dependents(&graph, module("a")), vec![false, true, true, false, false, false, false]);
    assert_eq!(dependents(&graph, module("b")), vec![false, false, true, false, false, false, false]);
    assert_eq!(dependents(&graph, module("d")), vec![false; 7]);
    assert_eq!(dependents(&graph, module("e")), vec![false, false, false, false, true, true, true]);
    assert_eq!(dependents(&graph, module("x")), vec![false, false, true, false, false, false, false]);
    assert_eq!(dependents(&graph, module("unknown")), vec![false; 7]);
}
