use stack_scope::graph::{FileId, GraphStore, NodeId, NodeKind};
use stack_scope::resolve::{ordered_edges, resolve, resolve_polled, Budget};

fn budget(max_states: usize) -> Budget {
    Budget { max_states, max_bindings: 100, ignore_scope_stack: false }
}

fn scope(g: &mut GraphStore, f: FileId) -> NodeId {
    g.add_node(f, NodeKind::Scope { is_exported: false }, false, vec![]).unwrap()
}

#[test]
fn reference_reaches_its_definition() {
    let mut g = GraphStore::new();
    let f = g.create_file("a.py").unwrap();
    let x = g.intern_symbol("x");
    let reference = g.add_node(f, NodeKind::PushSymbol { symbol: x }, false, vec![]).unwrap();
    let s = scope(&mut g, f);
    let def = g.add_node(f, NodeKind::PopSymbol { symbol: x }, true, vec![]).unwrap();
    g.add_edge(reference, s, 0).unwrap();
    g.add_edge(s, def, 0).unwrap();
    let r = resolve(&g, reference, budget(100));
    assert!(r.complete);
    assert_eq!(r.bindings, vec![vec![reference, s, def]]);
}

#[test]
fn mismatched_pop_kills_the_path() {
    let mut g = GraphStore::new();
    let f = g.create_file("a.py").unwrap();
    let x = g.intern_symbol("x");
    let y = g.intern_symbol("y");
    let reference = g.add_node(f, NodeKind::PushSymbol { symbol: y }, false, vec![]).unwrap();
    let def = g.add_node(f, NodeKind::PopSymbol { symbol: x }, true, vec![]).unwrap();
    g.add_edge(reference, def, 0).unwrap();
    let r = resolve(&g, reference, budget(100));
    assert!(r.bindings.is_empty());
    assert!(r.complete);
}

#[test]
fn scope_cycle_terminates() {
    let mut g = GraphStore::new();
    let f = g.create_file("a.py").unwrap();
    let x = g.intern_symbol("x");
    let reference = g.add_node(f, NodeKind::PushSymbol { symbol: x }, false, vec![]).unwrap();
    let a = scope(&mut g, f);
    let b = scope(&mut g, f);
    let c = scope(&mut g, f);
    g.add_edge(reference, a, 0).unwrap();
    g.add_edge(a, b, 0).unwrap();
    g.add_edge(b, c, 0).unwrap();
    g.add_edge(c, a, 0).unwrap();
    let r = resolve(&g, reference, budget(1000));
    assert!(r.bindings.is_empty());
    assert!(r.complete);
}

#[test]
fn zero_state_budget_is_incomplete() {
    let mut g = GraphStore::new();
    let f = g.create_file("a.py").unwrap();
    let x = g.intern_symbol("x");
    let reference = g.add_node(f, NodeKind::PushSymbol { symbol: x }, false, vec![]).unwrap();
    let def = g.add_node(f, NodeKind::PopSymbol { symbol: x }, true, vec![]).unwrap();
    g.add_edge(reference, def, 0).unwrap();
    let r = resolve(&g, reference, budget(0));
    assert!(r.bindings.is_empty());
    assert!(!r.complete);
}

#[test]
fn resolving_twice_gives_the_same_answer() {
    let mut g = GraphStore::new();
    let f = g.create_file("a.py").unwrap();
    let x = g.intern_symbol("x");
    let reference = g.add_node(f, NodeKind::PushSymbol { symbol: x }, false, vec![]).unwrap();
    let d1 = g.add_node(f, NodeKind::PopSymbol { symbol: x }, true, vec![]).unwrap();
    let d2 = g.add_node(f, NodeKind::PopSymbol { symbol: x }, true, vec![]).unwrap();
    g.add_edge(reference, d1, 0).unwrap();
    g.add_edge(reference, d2, 3).unwrap();
    let r1 = resolve(&g, reference, budget(100));
    let r2 = resolve(&g, reference, budget(100));
    assert_eq!(r1.bindings, r2.bindings);
    assert_eq!(r1.complete, r2.complete);
    assert_eq!(r1.bindings, vec![vec![reference, d2], vec![reference, d1]]);
}

#[test]
fn higher_precedence_is_tried_first_then_insertion_order() {
    let mut g = GraphStore::new();
    let f = g.create_file("a.py").unwrap();
    let a = scope(&mut g, f);
    let b = scope(&mut g, f);
    let c = scope(&mut g, f);
    let d = scope(&mut g, f);
    g.add_edge(a, b, 0).unwrap();
    g.add_edge(a, c, 2).unwrap();
    g.add_edge(a, d, 0).unwrap();
    let sinks: Vec<NodeId> = ordered_edges(&g, a).iter().map(|e| e.sink).collect();
    assert_eq!(sinks, vec![c, b, d]);
}

#[test]
fn binding_budget_marks_incomplete() {
    let mut g = GraphStore::new();
    let f = g.create_file("a.py").unwrap();
    let x = g.intern_symbol("x");
    let reference = g.add_node(f, NodeKind::PushSymbol { symbol: x }, false, vec![]).unwrap();
    let d1 = g.add_node(f, NodeKind::PopSymbol { symbol: x }, true, vec![]).unwrap();
    let d2 = g.add_node(f, NodeKind::PopSymbol { symbol: x }, true, vec![]).unwrap();
    g.add_edge(reference, d1, 0).unwrap();
    g.add_edge(reference, d2, 0).unwrap();
    let r = resolve(&g, reference, Budget { max_states: 100, max_bindings: 1, ignore_scope_stack: false });
    assert_eq!(r.bindings, vec![vec![reference, d1]]);
    assert!(!r.complete);
}

#[test]
fn scoped_symbols_jump_to_the_pushed_scope() {
    let mut g = GraphStore::new();
    let f = g.create_file("a.py").unwrap();
    let sys = g.intern_symbol("sys");
    let path = g.intern_symbol("path");
    let module = scope(&mut g, f);
    let attr = g.add_node(f, NodeKind::PopSymbol { symbol: path }, true, vec![]).unwrap();
    g.add_edge(module, attr, 0).unwrap();
    let push_path = g.add_node(f, NodeKind::PushSymbol { symbol: path }, false, vec![]).unwrap();
    let push_sys =
        g.add_node(f, NodeKind::PushScopedSymbol { symbol: sys, scope: module }, false, vec![]).unwrap();
    let pop_sys = g.add_node(f, NodeKind::PopScopedSymbol { symbol: sys }, false, vec![]).unwrap();
    let jump = g.add_node(f, NodeKind::JumpTo, false, vec![]).unwrap();
    g.add_edge(push_path, push_sys, 0).unwrap();
    g.add_edge(push_sys, pop_sys, 0).unwrap();
    g.add_edge(pop_sys, jump, 0).unwrap();
    let r = resolve(&g, push_path, budget(100));
    assert!(r.complete);
    assert_eq!(r.bindings, vec![vec![push_path, push_sys, pop_sys, jump, module, attr]]);
}

#[test]
fn jump_with_empty_scope_stack_dies() {
    let mut g = GraphStore::new();
    let f = g.create_file("a.py").unwrap();
    let x = g.intern_symbol("x");
    let reference = g.add_node(f, NodeKind::PushSymbol { symbol: x }, false, vec![]).unwrap();
    let jump = g.add_node(f, NodeKind::JumpTo, false, vec![]).unwrap();
    g.add_edge(reference, jump, 0).unwrap();
    let r = resolve(&g, reference, budget(100));
    assert!(r.bindings.is_empty());
    assert!(r.complete);
}

#[test]
fn scope_stack_must_be_empty_unless_ignored() {
    let mut g = GraphStore::new();
    let f = g.create_file("a.py").unwrap();
    let x = g.intern_symbol("x");
    let module = scope(&mut g, f);
    let push = g.add_node(f, NodeKind::PushScopedSymbol { symbol: x, scope: module }, false, vec![]).unwrap();
    let pop = g.add_node(f, NodeKind::PopScopedSymbol { symbol: x }, true, vec![]).unwrap();
    g.add_edge(push, pop, 0).unwrap();
    let strict = resolve(&g, push, budget(100));
    assert!(strict.bindings.is_empty());
    let relaxed = resolve(&g, push, Budget { max_states: 100, max_bindings: 10, ignore_scope_stack: true });
    assert_eq!(relaxed.bindings, vec![vec![push, pop]]);
    let drop = g.add_node(f, NodeKind::DropScopes, false, vec![]).unwrap();
    let def = g.add_node(f, NodeKind::PopSymbol { symbol: x }, true, vec![]).unwrap();
    let push2 = g.add_node(f, NodeKind::PushScopedSymbol { symbol: x, scope: module }, false, vec![]).unwrap();
    g.add_edge(push2, drop, 0).unwrap();
    g.add_edge(drop, def, 0).unwrap();
    let dropped = resolve(&g, push2, budget(100));
    assert_eq!(dropped.bindings, vec![vec![push2, drop, def]]);
}

#[test]
fn unknown_reference_has_no_binding() {
    let g = GraphStore::new();
    let r = resolve(&g, NodeId::Local { file: 0, local: 0 }, budget(10));
    assert!(r.bindings.is_empty());
    assert!(r.complete);
}

#[test]
fn polled_resolution_stops_when_asked() {
    let mut g = GraphStore::new();
    let f = g.create_file("a.py").unwrap();
    let x = g.intern_symbol("x");
    let reference = g.add_node(f, NodeKind::PushSymbol { symbol: x }, false, vec![]).unwrap();
    let def = g.add_node(f, NodeKind::PopSymbol { symbol: x }, true, vec![]).unwrap();
    g.add_edge(reference, def, 0).unwrap();
    assert!(resolve_polled(&g, reference, budget(100), &|| true).is_none());
    let r = resolve_polled(&g, reference, budget(100), &|| false).unwrap();
    assert_eq!(r.bindings, vec![vec![reference, def]]);
    assert!(r.complete);
}
