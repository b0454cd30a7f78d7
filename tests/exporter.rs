use stack_scope::export::{node_color, to_dot};
use stack_scope::graph::{GraphStore, NodeId, NodeKind, Symbol};

const EMPTY_DOT: &str = "digraph StackGraph {\n    // Graph attributes\n    graph [rankdir=LR];\n    node [shape=box, style=rounded];\n\n    // Nodes\n\n    // Edges\n}\n";

#[test]
fn empty_store_exports_the_preamble_only() {
    let g = GraphStore::new();
    let first = to_dot(&g);
    let second = to_dot(&g);
    assert_eq!(first, EMPTY_DOT);
    assert_eq!(first, second);
}

#[test]
fn nodes_then_edges_in_store_order() {
    let mut g = GraphStore::new();
    let f = g.create_file("a.py").unwrap();
    let sys = g.intern_symbol("sys");
    let s = g.add_node(f, NodeKind::Scope { is_exported: false }, false, vec![]).unwrap();
    let p = g.add_node(f, NodeKind::PopSymbol { symbol: sys }, true, vec![]).unwrap();
    g.add_edge(s, p, 0).unwrap();
    g.add_edge(NodeId::Root, s, 0).unwrap();
    let expected = "digraph StackGraph {\n    // Graph attributes\n    graph [rankdir=LR];\n    node [shape=box, style=rounded];\n\n    // Nodes\n    \"0:0\" [fillcolor=\"lightblue\", style=\"filled\", label=\"scope\"];\n    \"0:1\" [fillcolor=\"lightpink\", style=\"filled\", label=\"pop sys definition\"];\n\n    // Edges\n    \"root\" -> \"0:0\";\n    \"0:0\" -> \"0:1\";\n}\n";
    assert_eq!(to_dot(&g), expected);
}

#[test]
fn ids_with_several_digits() {
    let mut g = GraphStore::new();
    for k in 0..12 {
        g.create_file(&format!("f{}.py", k)).unwrap();
    }
    let f = g.create_file("last.py").unwrap();
    assert_eq!(f.index, 12);
    let mut last = NodeId::Root;
    for _ in 0..11 {
        last = g.add_node(f, NodeKind::JumpTo, false, vec![]).unwrap();
    }
    assert_eq!(last, NodeId::Local { file: 12, local: 10 });
    let dot = to_dot(&g);
    assert!(dot.contains("    \"12:10\" [fillcolor=\"orange\", style=\"filled\", label=\"jump to scope\"];\n"));
}

#[test]
fn color_table() {
    let s = Symbol { index: 0 };
    assert_eq!(node_color(NodeKind::Scope { is_exported: true }), "lightblue");
    assert_eq!(node_color(NodeKind::PushSymbol { symbol: s }), "lightgreen");
    assert_eq!(node_color(NodeKind::PopSymbol { symbol: s }), "lightpink");
    assert_eq!(node_color(NodeKind::PushScopedSymbol { symbol: s, scope: NodeId::Root }), "lightgreen");
    assert_eq!(node_color(NodeKind::PopScopedSymbol { symbol: s }), "lightpink");
    assert_eq!(node_color(NodeKind::DropScopes), "yellow");
    assert_eq!(node_color(NodeKind::JumpTo), "orange");
    assert_eq!(node_color(NodeKind::Root), "purple");
}

#[test]
fn labels_name_kind_and_symbol() {
    let mut g = GraphStore::new();
    let f = g.create_file("a.py").unwrap();
    let x = g.intern_symbol("x");
    let s = g.add_node(f, NodeKind::Scope { is_exported: true }, false, vec![]).unwrap();
    g.add_node(f, NodeKind::PushScopedSymbol { symbol: x, scope: s }, false, vec![]).unwrap();
    g.add_node(f, NodeKind::PopScopedSymbol { symbol: x }, false, vec![]).unwrap();
    g.add_node(f, NodeKind::PushSymbol { symbol: x }, false, vec![]).unwrap();
    g.add_node(f, NodeKind::DropScopes, false, vec![]).unwrap();
    let dot = to_dot(&g);
    assert!(dot.contains("label=\"exported scope\""));
    assert!(dot.contains("label=\"push scoped x\""));
    assert!(dot.contains("label=\"pop scoped x\""));
    assert!(dot.contains("label=\"push x\""));
    assert!(dot.contains("\"0:4\" [fillcolor=\"yellow\", style=\"filled\", label=\"drop scopes\"];"));
}

fn edge_section(dot: &str) -> Vec<String> {
    let start = dot.find("    // Edges\n").unwrap() + "    // Edges\n".len();
    dot[start..].lines().filter(|l| l.contains("->")).map(|l| l.trim().to_string()).collect()
}

fn node_section(dot: &str) -> Vec<String> {
    let start = dot.find("    // Nodes\n").unwrap() + "    // Nodes\n".len();
    let end = dot.find("\n    // Edges\n").unwrap();
    dot[start..end].lines().map(|l| l.trim().to_string()).collect()
}

#[test]
fn edges_are_grouped_by_source_in_node_order() {
    let mut g = GraphStore::new();
    let f = g.create_file("a.py").unwrap();
    let a = g.add_node(f, NodeKind::Scope { is_exported: false }, false, vec![]).unwrap();
    let b = g.add_node(f, NodeKind::Scope { is_exported: false }, false, vec![]).unwrap();
    g.add_edge(b, a, 0).unwrap();
    g.add_edge(a, b, 0).unwrap();
    g.add_edge(NodeId::Root, b, 0).unwrap();
    g.add_edge(a, a, 1).unwrap();
    assert_eq!(
        edge_section(&to_dot(&g)),
        vec![
            "\"root\" -> \"0:1\";".to_string(),
            "\"0:0\" -> \"0:1\";".to_string(),
            "\"0:0\" -> \"0:0\";".to_string(),
            "\"0:1\" -> \"0:0\";".to_string(),
        ]
    );
}

#[test]
fn labels_are_escaped() {
    let mut g = GraphStore::new();
    let f = g.create_file("a.py").unwrap();
    let odd = g.intern_symbol("a\"b\\c\nd");
    g.add_node(f, NodeKind::PushSymbol { symbol: odd }, false, vec![]).unwrap();
    let dot = to_dot(&g);
    assert!(dot.contains("label=\"push a\\\"b\\\\c\\nd\"];\n"));
    assert_eq!(node_section(&dot).len(), 1);
}

#[test]
fn one_node_line_per_added_node() {
    let mut g = GraphStore::new();
    let f = g.create_file("a.py").unwrap();
    let h = g.create_file("b.py").unwrap();
    let x = g.intern_symbol("x");
    for k in 0..7 {
        let file = if k % 2 == 0 { f } else { h };
        g.add_node(file, NodeKind::PopSymbol { symbol: x }, k == 3, vec![]).unwrap();
    }
    let lines = node_section(&to_dot(&g));
    assert_eq!(lines.len(), 7);
    assert!(lines[0].starts_with("\"0:0\""));
    assert!(lines[1].starts_with("\"1:0\""));
    assert!(lines[6].starts_with("\"0:3\""));
}

#[test]
fn scope_cycle_exports_each_node_and_edge_once() {
    let mut g = GraphStore::new();
    let f = g.create_file("a.py").unwrap();
    let mut ids = vec![];
    for _ in 0..3 {
        ids.push(g.add_node(f, NodeKind::Scope { is_exported: false }, false, vec![]).unwrap());
    }
    for i in 0..3 {
        g.add_edge(ids[i], ids[(i + 1) % 3], 0).unwrap();
    }
    let dot = to_dot(&g);
    let nodes = node_section(&dot);
    assert_eq!(nodes.len(), 3);
    assert!(nodes.iter().all(|l| l.contains("fillcolor=\"lightblue\"")));
    assert_eq!(
        edge_section(&dot),
        vec![
            "\"0:0\" -> \"0:1\";".to_string(),
            "\"0:1\" -> \"0:2\";".to_string(),
            "\"0:2\" -> \"0:0\";".to_string(),
        ]
    );
}

#[test]
fn import_and_reference_export() {
    let mut g = GraphStore::new();
    let f = g.create_file("sample.py").unwrap();
    let sys = g.intern_symbol("sys");
    let sc = g.add_node(f, NodeKind::Scope { is_exported: false }, false, vec![]).unwrap();
    let d = g.add_node(f, NodeKind::PopSymbol { symbol: sys }, true, vec![]).unwrap();
    g.add_edge(sc, d, 0).unwrap();
    let u = g.create_file("user.py").unwrap();
    let r = g.add_node(u, NodeKind::PushSymbol { symbol: sys }, false, vec![]).unwrap();
    g.add_edge(r, sc, 0).unwrap();
    let dot = to_dot(&g);
    let nodes = node_section(&dot);
    assert_eq!(nodes.iter().filter(|l| l.contains("lightpink")).count(), 1);
    assert_eq!(nodes[0], "\"0:0\" [fillcolor=\"lightblue\", style=\"filled\", label=\"scope\"];");
    assert_eq!(nodes[1], "\"0:1\" [fillcolor=\"lightpink\", style=\"filled\", label=\"pop sys definition\"];");
    assert_eq!(nodes[2], "\"1:0\" [fillcolor=\"lightgreen\", style=\"filled\", label=\"push sys\"];");
    assert_eq!(
        edge_section(&dot),
        vec!["\"0:0\" -> \"0:1\";".to_string(), "\"1:0\" -> \"0:0\";".to_string()]
    );
}

#[test]
fn dead_path_is_still_exported() {
    let mut g = GraphStore::new();
    let f = g.create_file("a.py").unwrap();
    let x = g.intern_symbol("x");
    let y = g.intern_symbol("y");
    let r = g.add_node(f, NodeKind::PushSymbol { symbol: y }, false, vec![]).unwrap();
    let d = g.add_node(f, NodeKind::PopSymbol { symbol: x }, true, vec![]).unwrap();
    g.add_edge(r, d, 0).unwrap();
    let dot = to_dot(&g);
    let nodes = node_section(&dot);
    assert_eq!(nodes.len(), 2);
    assert!(nodes[0].contains("lightgreen"));
    assert!(nodes[1].contains("lightpink"));
    assert_eq!(edge_section(&dot), vec!["\"0:0\" -> \"0:1\";".to_string()]);
}
