use indexmap::IndexMap;

use mago_analysis::algebra::assertion::Assertion;
use mago_analysis::algebra::clause::Clause;
use mago_analysis::assertion::OtherValuePosition;
use mago_analysis::context::block::{BlockContext, BreakContext, FunctionLikeScope, ScopeContext};
use mago_analysis::context::local_map::LocalMap;
use mago_analysis::context::scope::finally_scope::FinallyScope;
use mago_analysis::span::Span;

fn global() -> ScopeContext {
    ScopeContext { function_like: None, is_static: false }
}

fn keys<T>(m: &LocalMap<T>) -> Vec<String> {
    (0..m.len()).map(|i| m.entry_at(i).0.clone()).collect()
}

#[test]
fn break_context_kinds() {
    assert!(BreakContext::Loop.is_loop());
    assert!(!BreakContext::Loop.is_switch());
    assert!(BreakContext::Switch.is_switch());
    assert!(!BreakContext::Switch.is_loop());
    assert_ne!(OtherValuePosition::Left, OtherValuePosition::Right);
}

#[test]
fn local_map_keeps_ids_in_order() {
    let mut m: LocalMap<i32> = LocalMap::new();
    assert!(m.insert("$b".to_string(), 2));
    assert!(m.insert("$a".to_string(), 1));
    assert!(m.insert("$c".to_string(), 3));
    assert!(!m.insert("$b".to_string(), 20));
    assert_eq!(keys(&m), vec!["$a", "$b", "$c"]);
    assert_eq!(m.get("$b"), Some(&20));
    assert_eq!(m.get("$z"), None);
    assert!(m.contains_key("$c"));
    assert_eq!(m.remove("$a"), Some(1));
    assert_eq!(m.remove("$a"), None);
    assert_eq!(keys(&m), vec!["$b", "$c"]);
    assert_eq!(m.len(), 2);
}

#[test]
fn local_map_orders_by_bytes() {
    let mut m: LocalMap<()> = LocalMap::new();
    for k in ["$é", "$z", "$A", "$a", "$", "$ab"] {
        m.insert(k.to_string(), ());
    }
    assert_eq!(keys(&m), vec!["$", "$A", "$a", "$ab", "$z", "$é"]);
}

#[test]
fn new_context_is_empty_and_scope_queries() {
    let c: BlockContext<i32> = BlockContext::new(global());
    assert!(c.is_global_scope());
    assert!(!c.is_mutation_free());
    assert!(!c.is_external_mutation_free());
    assert_eq!(c.locals.len(), 0);
    assert!(c.clauses.is_empty());
    assert!(!c.inside_loop);
    assert_eq!(c.branch_point, None);
    let f = ScopeContext {
        function_like: Some(FunctionLikeScope { mutation_free: true, external_mutation_free: false }),
        is_static: false,
    };
    let d: BlockContext<i32> = BlockContext::new(f);
    assert!(!d.is_global_scope());
    assert!(d.is_mutation_free());
    assert!(!d.is_external_mutation_free());
}

#[test]
fn has_variable_records_reference() {
    let mut c: BlockContext<i32> = BlockContext::new(global());
    c.locals.insert("$a".to_string(), 1);
    assert!(c.has_variable("$a"));
    assert!(!c.has_variable("$b"));
    assert!(c.conditionally_referenced_variable_ids.contains_key("$a"));
    assert!(c.conditionally_referenced_variable_ids.contains_key("$b"));
}

#[test]
fn remove_possible_reference_forgets_the_variable() {
    let mut c: BlockContext<i32> = BlockContext::new(global());
    c.locals.insert("$a".to_string(), 1);
    c.locals.insert("$b".to_string(), 2);
    c.assigned_variable_ids.insert("$a".to_string(), 3);
    c.variables_possibly_in_scope.insert("$a".to_string(), ());
    c.possibly_assigned_variable_ids.insert("$a".to_string(), ());
    c.conditionally_referenced_variable_ids.insert("$a".to_string(), ());
    c.remove_possible_reference(&"$a".to_string());
    assert_eq!(keys(&c.locals), vec!["$b"]);
    assert_eq!(c.assigned_variable_ids.len(), 0);
    assert_eq!(c.variables_possibly_in_scope.len(), 0);
    assert_eq!(c.possibly_assigned_variable_ids.len(), 0);
    assert_eq!(c.conditionally_referenced_variable_ids.len(), 0);
}

#[test]
fn redefined_locals() {
    let mut c: BlockContext<i32> = BlockContext::new(global());
    c.locals.insert("$a".to_string(), 1);
    c.locals.insert("$b".to_string(), 2);
    c.locals.insert("$c".to_string(), 3);
    let mut new_locals: LocalMap<i32> = LocalMap::new();
    new_locals.insert("$a".to_string(), 1);
    new_locals.insert("$b".to_string(), 5);
    new_locals.insert("$d".to_string(), 4);
    let mut removed: LocalMap<()> = LocalMap::new();
    let r = c.get_redefined_locals(&new_locals, false, &mut removed);
    assert_eq!(keys(&r), vec!["$b"]);
    assert_eq!(r.get("$b"), Some(&2));
    assert_eq!(keys(&removed), vec!["$d"]);
    let mut removed2: LocalMap<()> = LocalMap::new();
    let r = c.get_redefined_locals(&new_locals, true, &mut removed2);
    assert_eq!(keys(&r), vec!["$b", "$c"]);
    assert_eq!(r.get("$c"), Some(&3));
}

#[test]
fn new_or_updated_locals() {
    let mut earlier: BlockContext<i32> = BlockContext::new(global());
    earlier.locals.insert("$a".to_string(), 1);
    earlier.locals.insert("$b".to_string(), 2);
    earlier.locals.insert("$c".to_string(), 3);
    earlier.assigned_variable_ids.insert("$c".to_string(), 1);
    let mut new: BlockContext<i32> = BlockContext::new(global());
    new.locals.insert("$a".to_string(), 1);
    new.locals.insert("$b".to_string(), 7);
    new.locals.insert("$c".to_string(), 3);
    new.locals.insert("$d".to_string(), 4);
    new.assigned_variable_ids.insert("$c".to_string(), 2);
    let r = BlockContext::get_new_or_updated_locals(&earlier, &new);
    assert_eq!(keys(&r), vec!["$b", "$c", "$d"]);
}

fn clause_on(vars: &[&str], wedge: bool) -> Clause {
    let mut p = IndexMap::new();
    for (i, v) in vars.iter().enumerate() {
        let mut m = IndexMap::new();
        m.insert(i as u64, Assertion::Truthy);
        p.insert(v.to_string(), m);
    }
    Clause::new(p, Span::new(0, 0, 1), Span::new(0, 2, 3), Some(wedge), None, None)
}

#[test]
fn remove_mutable_object_vars_drops_properties_and_their_clauses() {
    let mut c: BlockContext<i32> = BlockContext::new(global());
    c.locals.insert("$a".to_string(), 1);
    c.locals.insert("$a->b".to_string(), 2);
    c.locals.insert("A::$c".to_string(), 3);
    c.clauses = vec![clause_on(&["$a"], false), clause_on(&["$a->b"], false), clause_on(&["$a", "A::$c"], false)];
    c.remove_mutable_object_vars();
    assert_eq!(keys(&c.locals), vec!["$a"]);
    assert_eq!(c.clauses.len(), 1);
    assert_eq!(c.clauses[0].possibilities.keys().cloned().collect::<Vec<_>>(), vec!["$a".to_string()]);
}

#[test]
fn remove_mutable_object_vars_keeps_clauses_when_nothing_removed() {
    let mut c: BlockContext<i32> = BlockContext::new(global());
    c.locals.insert("$a".to_string(), 1);
    c.clauses = vec![clause_on(&["$a->b"], false)];
    c.remove_mutable_object_vars();
    assert_eq!(c.clauses.len(), 1);
}

#[test]
fn reconciled_clauses_split() {
    let clauses = vec![clause_on(&["$a"], false), clause_on(&["$b"], false), clause_on(&["$a"], true), clause_on(&["$c", "$a"], false)];
    let mut changed: LocalMap<()> = LocalMap::new();
    changed.insert("$a".to_string(), ());
    let (included, rejected) = BlockContext::<i32>::remove_reconciled_clauses(&clauses, &changed);
    assert_eq!(included.len(), 2);
    assert_eq!(included[0].possibilities.keys().next().unwrap(), "$b");
    assert!(included[1].wedge);
    assert_eq!(rejected.len(), 2);
    assert_eq!(rejected[1].possibilities.keys().cloned().collect::<Vec<_>>(), vec!["$c".to_string(), "$a".to_string()]);
}

#[test]
fn finally_scope() {
    let mut s: FinallyScope<i32> = FinallyScope::new();
    assert!(!s.contains("$a"));
    s.locals.insert("$a".to_string(), 1);
    assert!(s.contains("$a"));
    let d: FinallyScope<i32> = FinallyScope::default();
    assert_eq!(d.locals.len(), 0);
}
