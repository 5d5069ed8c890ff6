use mago_analysis::dataflow::analyzer::{should_ignore_array_access, should_ignore_property_access};
use mago_analysis::dataflow::path::{ArrayDataKind, PathKind};
use mago_analysis::dataflow::unused_variables::{check_variables_used, DataFlowGraph, DataFlowNode, DataFlowNodeKind};

fn access(key: &str) -> PathKind {
    PathKind::ArrayAccess(ArrayDataKind::ArrayValue, key.to_string())
}

fn assign(key: &str) -> PathKind {
    PathKind::ArrayAssignment(ArrayDataKind::ArrayValue, key.to_string())
}

#[test]
fn array_access_matched_by_same_key_assignment_is_kept() {
    assert!(!should_ignore_array_access(&access("a"), &ArrayDataKind::ArrayValue, &[assign("a")]));
}

#[test]
fn array_access_of_other_key_is_ignored() {
    assert!(should_ignore_array_access(&access("a"), &ArrayDataKind::ArrayValue, &[assign("b")]));
}

#[test]
fn array_access_without_assignment_is_ignored() {
    assert!(should_ignore_array_access(&access("a"), &ArrayDataKind::ArrayValue, &[PathKind::Default]));
    assert!(should_ignore_array_access(&access("a"), &ArrayDataKind::ArrayValue, &[]));
}

#[test]
fn unknown_assignment_matches_any_access() {
    let prev = [PathKind::UnknownArrayAssignment(ArrayDataKind::ArrayValue)];
    assert!(!should_ignore_array_access(&access("a"), &ArrayDataKind::ArrayValue, &prev));
}

#[test]
fn nested_access_skips_one_assignment_level() {
    // assign "a", then an access of the same kind: the outer access must
    // match the assignment before it.
    let prev = [assign("x"), assign("a"), access("b")];
    assert!(!should_ignore_array_access(&access("x"), &ArrayDataKind::ArrayValue, &prev));
    let prev = [assign("y"), assign("a"), access("b")];
    assert!(should_ignore_array_access(&access("x"), &ArrayDataKind::ArrayValue, &prev));
}

#[test]
fn access_of_other_kind_is_not_relevant() {
    let key_access = PathKind::ArrayAccess(ArrayDataKind::ArrayKey, "a".to_string());
    assert!(!should_ignore_array_access(&key_access, &ArrayDataKind::ArrayValue, &[assign("b")]));
    assert!(!should_ignore_array_access(&PathKind::Default, &ArrayDataKind::ArrayValue, &[]));
}

#[test]
fn unknown_key_access_is_relevant_for_values() {
    let k = PathKind::UnknownArrayAccess(ArrayDataKind::ArrayKey);
    assert!(should_ignore_array_access(&k, &ArrayDataKind::ArrayValue, &[assign("b")]));
    assert!(!should_ignore_array_access(&k, &ArrayDataKind::ArrayKey, &[assign("b")]));
}

#[test]
fn removing_the_assigned_key_is_ignored() {
    let remove = PathKind::RemoveArrayKey("a".to_string());
    assert!(should_ignore_array_access(&remove, &ArrayDataKind::ArrayValue, &[assign("a"), PathKind::Default]));
    assert!(!should_ignore_array_access(&remove, &ArrayDataKind::ArrayValue, &[assign("b")]));
    assert!(!should_ignore_array_access(&remove, &ArrayDataKind::ArrayKey, &[assign("a")]));
    assert!(!should_ignore_array_access(&remove, &ArrayDataKind::ArrayValue, &[assign("a"), PathKind::Aggregate]));
}

fn prop_access(p: &str) -> PathKind {
    PathKind::PropertyAccess("Foo".to_string(), p.to_string())
}

fn prop_assign(p: &str) -> PathKind {
    PathKind::PropertyAssignment("Foo".to_string(), p.to_string())
}

#[test]
fn property_rules() {
    assert!(!should_ignore_property_access(&prop_access("x"), &[prop_assign("x")]));
    assert!(should_ignore_property_access(&prop_access("x"), &[prop_assign("y")]));
    assert!(should_ignore_property_access(&prop_access("x"), &[]));
    assert!(!should_ignore_property_access(&prop_access("x"), &[PathKind::UnknownPropertyAssignment]));
    assert!(!should_ignore_property_access(&prop_access("x"), &[prop_assign("x"), prop_assign("z"), prop_access("q")]));
    assert!(!should_ignore_property_access(&PathKind::Default, &[]));
}

fn node(label: &str, kind: DataFlowNodeKind) -> DataFlowNode {
    DataFlowNode { label: label.to_string(), kind }
}

#[test]
fn unused_sources_are_those_no_sink_reaches() {
    // 0: $a (pure source) -> 2 -> 3 (sink); 1: $b (impure source), 4: $c (pure source)
    let graph = DataFlowGraph {
        nodes: vec![
            node("$a", DataFlowNodeKind::VariableUseSource { pure: true }),
            node("$b", DataFlowNodeKind::VariableUseSource { pure: false }),
            node("mid", DataFlowNodeKind::Vertex),
            node("sink", DataFlowNodeKind::VariableUseSink),
            node("$c", DataFlowNodeKind::VariableUseSource { pure: true }),
            node("loop", DataFlowNodeKind::ForLoopInit),
        ],
        sources: vec![0, 1, 4, 5],
        sinks: vec![3],
        backward_edges: vec![vec![], vec![], vec![0], vec![2], vec![], vec![]],
    };
    let (pure, impure) = check_variables_used(&graph);
    assert_eq!(pure.iter().map(|n| n.label.clone()).collect::<Vec<_>>(), vec!["$c".to_string()]);
    assert_eq!(impure.iter().map(|n| n.label.clone()).collect::<Vec<_>>(), vec!["$b".to_string()]);
}

#[test]
fn cycles_terminate_and_everything_reached_is_used() {
    let graph = DataFlowGraph {
        nodes: vec![
            node("$a", DataFlowNodeKind::VariableUseSource { pure: true }),
            node("x", DataFlowNodeKind::Vertex),
            node("sink", DataFlowNodeKind::VariableUseSink),
        ],
        sources: vec![0],
        sinks: vec![2, 2],
        backward_edges: vec![vec![1], vec![0, 2], vec![1]],
    };
    let (pure, impure) = check_variables_used(&graph);
    assert!(pure.is_empty());
    assert!(impure.is_empty());
}
