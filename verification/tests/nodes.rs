use live_compiler::live_id::LiveId;
use live_compiler::live_node::{LiveNode, LiveNodeOrigin, LiveValue};
use live_compiler::live_node_vec::{child_by_name, next_child, scope_up_down_by_name};

fn node(name: &str, value: LiveValue) -> LiveNode {
    let id = if name.is_empty() { LiveId::empty() } else { LiveId::from_str(name) };
    LiveNode { origin: LiveNodeOrigin { token_id: None, node_index: None }, id, value }
}

/// 0 root { 1 a: 1, 2 b { 3 a: 2, 4 c { 5 d: 3, 6 } 7 e: 4, 8 } 9 f: 5, 10 }
fn tree() -> Vec<LiveNode> {
    vec![
        node("", LiveValue::Object),
        node("a", LiveValue::Int(1)),
        node("b", LiveValue::Object),
        node("a", LiveValue::Int(2)),
        node("c", LiveValue::Array),
        node("d", LiveValue::Int(3)),
        node("", LiveValue::Close),
        node("e", LiveValue::Int(4)),
        node("", LiveValue::Close),
        node("f", LiveValue::Int(5)),
        node("", LiveValue::Close),
    ]
}

fn id(name: &str) -> LiveId {
    LiveId::from_str(name)
}

#[test]
fn child_by_name_sees_direct_children_only() {
    let nodes = tree();
    assert_eq!(child_by_name(&nodes, 0, id("a")), Some(1));
    assert_eq!(child_by_name(&nodes, 0, id("b")), Some(2));
    assert_eq!(child_by_name(&nodes, 0, id("f")), Some(9));
    assert_eq!(child_by_name(&nodes, 0, id("d")), None);
    assert_eq!(child_by_name(&nodes, 0, id("e")), None);
    assert_eq!(child_by_name(&nodes, 2, id("a")), Some(3));
    assert_eq!(child_by_name(&nodes, 2, id("e")), Some(7));
    assert_eq!(child_by_name(&nodes, 2, id("f")), None);
    assert_eq!(child_by_name(&nodes, 4, id("d")), Some(5));
    assert_eq!(child_by_name(&nodes, 1, id("a")), None);
    assert_eq!(child_by_name(&nodes, 11, id("a")), None);
    assert_eq!(child_by_name(&nodes, 0, LiveId::empty()), None);
}

#[test]
fn next_child_steps_over_subtrees() {
    let nodes = tree();
    assert_eq!(next_child(&nodes, 1), Some(2));
    assert_eq!(next_child(&nodes, 2), Some(9));
    assert_eq!(next_child(&nodes, 9), None);
    assert_eq!(next_child(&nodes, 3), Some(4));
    assert_eq!(next_child(&nodes, 4), Some(7));
    assert_eq!(next_child(&nodes, 7), None);
    assert_eq!(next_child(&nodes, 5), None);
    assert_eq!(next_child(&nodes, 6), None);
    assert_eq!(next_child(&nodes, 0), None);
    assert_eq!(next_child(&nodes, 20), None);
}

#[test]
fn scope_search_goes_from_the_inside_out() {
    let nodes = tree();
    // From inside c: d is in c, e and the inner a in b, f in the root.
    assert_eq!(scope_up_down_by_name(&nodes, 5, id("d")), Some(5));
    assert_eq!(scope_up_down_by_name(&nodes, 5, id("e")), Some(7));
    assert_eq!(scope_up_down_by_name(&nodes, 5, id("a")), Some(3));
    assert_eq!(scope_up_down_by_name(&nodes, 5, id("f")), Some(9));
    assert_eq!(scope_up_down_by_name(&nodes, 5, id("z")), None);
    // From c itself the children of c count.
    assert_eq!(scope_up_down_by_name(&nodes, 4, id("d")), Some(5));
    // From e, behind the closed subtree of c, d is out of sight.
    assert_eq!(scope_up_down_by_name(&nodes, 7, id("d")), None);
    assert_eq!(scope_up_down_by_name(&nodes, 7, id("a")), Some(3));
    // From the root level the outer a is found.
    assert_eq!(scope_up_down_by_name(&nodes, 9, id("a")), Some(1));
    assert_eq!(scope_up_down_by_name(&nodes, 0, id("a")), Some(1));
    assert_eq!(scope_up_down_by_name(&nodes, 9, id("e")), None);
    assert_eq!(scope_up_down_by_name(&nodes, 11, id("a")), None);
    assert_eq!(scope_up_down_by_name(&[], 0, id("a")), None);
}
