use stack_scope::graph::{Edge, GraphError, GraphStore, Node, NodeId, NodeKind};

#[test]
fn interning_twice_gives_the_same_handle() {
    let mut g = GraphStore::new();
    let a = g.intern_symbol("sys");
    let b = g.intern_symbol("path");
    let c = g.intern_symbol("sys");
    assert_eq!(a, c);
    assert_ne!(a, b);
    assert_eq!(g.symbol_text(a), "sys");
    assert_eq!(g.symbol_text(b), "path");
}

#[test]
fn creating_a_file_twice_is_refused() {
    let mut g = GraphStore::new();
    let f = g.create_file("a.py").unwrap();
    assert_eq!(f.index, 0);
    assert_eq!(g.create_file("a.py"), Err(GraphError::DuplicateFile));
    let h = g.create_file("b.py").unwrap();
    assert_eq!(h.index, 1);
    assert_eq!(g.file_name(f), "a.py");
    assert_eq!(g.file_name(h), "b.py");
}

#[test]
fn local_indices_are_per_file() {
    let mut g = GraphStore::new();
    let f = g.create_file("a.py").unwrap();
    let h = g.create_file("b.py").unwrap();
    let a0 = g.add_node(f, NodeKind::Scope { is_exported: false }, false, vec![]).unwrap();
    let b0 = g.add_node(h, NodeKind::DropScopes, false, vec![]).unwrap();
    let a1 = g.add_node(f, NodeKind::JumpTo, false, vec![]).unwrap();
    assert_eq!(a0, NodeId::Local { file: 0, local: 0 });
    assert_eq!(b0, NodeId::Local { file: 1, local: 0 });
    assert_eq!(a1, NodeId::Local { file: 0, local: 1 });
    assert_eq!(g.iter_nodes().clone(), vec![a0, b0, a1]);
    assert_eq!(g.node(a1), Ok(Node { kind: NodeKind::JumpTo, is_definition: false }));
    assert_eq!(g.node(NodeId::Root), Ok(Node { kind: NodeKind::Root, is_definition: false }));
}

#[test]
fn node_count_matches_successful_additions() {
    let mut g = GraphStore::new();
    let f = g.create_file("a.py").unwrap();
    let s = g.intern_symbol("x");
    let mut added = 0;
    for _ in 0..5 {
        if g.add_node(f, NodeKind::PushSymbol { symbol: s }, false, vec![]).is_ok() {
            added += 1;
        }
    }
    let missing = NodeId::Local { file: 0, local: 99 };
    let refused = g.add_node(f, NodeKind::PushScopedSymbol { symbol: s, scope: missing }, false, vec![]);
    assert_eq!(refused, Err(GraphError::UnknownNode));
    assert_eq!(g.iter_nodes().len(), added);
    assert_eq!(added, 5);
}

#[test]
fn unknown_nodes_are_reported() {
    let mut g = GraphStore::new();
    let f = g.create_file("a.py").unwrap();
    let a = g.add_node(f, NodeKind::Scope { is_exported: true }, false, vec![]).unwrap();
    let missing = NodeId::Local { file: 0, local: 1 };
    assert_eq!(g.node(missing), Err(GraphError::UnknownNode));
    assert_eq!(g.node(NodeId::Local { file: 3, local: 0 }), Err(GraphError::UnknownNode));
    assert_eq!(g.add_edge(a, missing, 0), Err(GraphError::DanglingNode));
    assert_eq!(g.add_edge(missing, a, 0), Err(GraphError::DanglingNode));
    assert!(g.edges().is_empty());
    assert_eq!(g.add_edge(NodeId::Root, a, 2), Ok(()));
    assert_eq!(g.edges().clone(), vec![Edge { source: NodeId::Root, sink: a, precedence: 2 }]);
}

#[test]
fn outgoing_edges_keep_insertion_order() {
    let mut g = GraphStore::new();
    let f = g.create_file("a.py").unwrap();
    let a = g.add_node(f, NodeKind::Scope { is_exported: false }, false, vec![]).unwrap();
    let b = g.add_node(f, NodeKind::Scope { is_exported: false }, false, vec![]).unwrap();
    let c = g.add_node(f, NodeKind::Scope { is_exported: false }, false, vec![]).unwrap();
    g.add_edge(a, c, 1).unwrap();
    g.add_edge(b, c, 0).unwrap();
    g.add_edge(a, b, 5).unwrap();
    let out = g.iter_edges(a);
    assert_eq!(out.len(), 2);
    assert_eq!(out[0].sink, c);
    assert_eq!(out[1].sink, b);
    assert!(g.iter_edges(c).is_empty());
}

#[test]
fn attributes_are_kept_with_their_node() {
    let mut g = GraphStore::new();
    let f = g.create_file("a.py").unwrap();
    g.add_node(f, NodeKind::DropScopes, false, vec![("note".to_string(), "first".to_string())])
        .unwrap();
    g.add_node(f, NodeKind::JumpTo, false, vec![]).unwrap();
    assert_eq!(g.attributes_at(0).clone(), vec![("note".to_string(), "first".to_string())]);
    assert!(g.attributes_at(1).is_empty());
}
