use stack_scope::builder::{
    build_file, BuildCause, BuildError, ChildPattern, Instruction, NodeRef, NodeTemplate, Pattern,
    Rule, RulePlan, SyntaxTree, TreeNode,
};
use stack_scope::graph::{GraphStore, NodeId, NodeKind};
use stack_scope::resolve::{resolve, Budget};

fn tnode(kind: &str, field: Option<&str>, parent: Option<usize>, start: usize, end: usize) -> TreeNode {
    TreeNode {
        kind: kind.to_string(),
        field: field.map(|f| f.to_string()),
        parent,
        start,
        end,
    }
}

fn child(field: &str, kind: &str) -> ChildPattern {
    ChildPattern { field: Some(field.to_string()), kind: kind.to_string() }
}

fn pattern(kind: &str, children: Vec<ChildPattern>) -> Pattern {
    Pattern { kind: kind.to_string(), children }
}

fn create(template: NodeTemplate, is_definition: bool) -> Instruction {
    Instruction::CreateNode { template, is_definition }
}

fn edge(source: NodeRef, sink: NodeRef) -> Instruction {
    Instruction::CreateEdge { source, sink, precedence: 0 }
}

const MODULE_SCOPE: NodeRef = NodeRef::Enclosing { rule: 0, slot: 0 };

/// A module scope; each import defines its name as a scoped pop under the
/// module scope; each attribute access pushes its object and pops its attribute.
fn scoped_rules() -> RulePlan {
    RulePlan {
        rules: vec![
            Rule {
                pattern: pattern("module", vec![]),
                program: vec![create(NodeTemplate::Scope { is_exported: false }, false)],
            },
            Rule {
                pattern: pattern("import_statement", vec![child("name", "dotted_name")]),
                program: vec![
                    create(NodeTemplate::PopScopedSymbol { capture: 1 }, true),
                    edge(MODULE_SCOPE, NodeRef::Slot { slot: 0 }),
                ],
            },
            Rule {
                pattern: pattern(
                    "attribute",
                    vec![child("object", "identifier"), child("attribute", "identifier")],
                ),
                program: vec![
                    create(NodeTemplate::PushScopedSymbol { capture: 1, scope: MODULE_SCOPE }, false),
                    create(NodeTemplate::PopScopedSymbol { capture: 2 }, false),
                    edge(NodeRef::Slot { slot: 0 }, NodeRef::Slot { slot: 1 }),
                ],
            },
        ],
    }
}

fn import_tree(source: &str, names: &[(usize, usize, usize, usize)]) -> SyntaxTree {
    let mut nodes = vec![tnode("module", None, None, 0, source.chars().count())];
    for &(start, end, name_start, name_end) in names {
        let stmt = nodes.len();
        nodes.push(tnode("import_statement", None, Some(0), start, end));
        nodes.push(tnode("dotted_name", Some("name"), Some(stmt), name_start, name_end));
        nodes.push(tnode("identifier", None, Some(stmt + 1), name_start, name_end));
    }
    SyntaxTree { source: source.to_string(), nodes }
}

struct Counts {
    total: usize,
    scopes: usize,
    pushes: usize,
    pops: usize,
    symbols: Vec<String>,
}

fn counts(g: &GraphStore) -> Counts {
    let mut c = Counts { total: 0, scopes: 0, pushes: 0, pops: 0, symbols: vec![] };
    for id in g.iter_nodes() {
        c.total += 1;
        match g.node(*id).unwrap().kind {
            NodeKind::Scope { .. } => c.scopes += 1,
            NodeKind::PushScopedSymbol { symbol, .. } | NodeKind::PushSymbol { symbol } => {
                c.pushes += 1;
                c.symbols.push(g.symbol_text(symbol).clone());
            }
            NodeKind::PopScopedSymbol { symbol } | NodeKind::PopSymbol { symbol } => {
                c.pops += 1;
                c.symbols.push(g.symbol_text(symbol).clone());
            }
            _ => {}
        }
    }
    c
}

fn build(tree: &SyntaxTree, plan: &RulePlan) -> (GraphStore, Result<(), BuildError>) {
    let mut g = GraphStore::new();
    let f = g.create_file("test_sample.py").unwrap();
    let r = build_file(&mut g, f, tree, plan, &|| false);
    (g, r)
}

#[test]
fn test_basic_import() {
    let tree = import_tree("import sys", &[(0, 10, 7, 10)]);
    let (g, r) = build(&tree, &scoped_rules());
    assert_eq!(r, Ok(()));
    let c = counts(&g);
    assert_eq!(c.total, 2);
    assert_eq!(c.scopes, 1);
    assert_eq!(c.pushes, 0);
    assert_eq!(c.pops, 1);
    assert_eq!(c.symbols, vec!["sys".to_string()]);
    assert_eq!(g.edges().len(), 1);
    assert_eq!(g.edges()[0].source, NodeId::Local { file: 0, local: 0 });
    assert_eq!(g.edges()[0].sink, NodeId::Local { file: 0, local: 1 });
    assert!(g.node(NodeId::Local { file: 0, local: 1 }).unwrap().is_definition);
}

#[test]
fn test_module_attribute_access() {
    let source = "\nimport sys\nprint(sys.path)\n    ";
    let tree = SyntaxTree {
        source: source.to_string(),
        nodes: vec![
            tnode("module", None, None, 0, 32),
            tnode("import_statement", None, Some(0), 1, 11),
            tnode("dotted_name", Some("name"), Some(1), 8, 11),
            tnode("identifier", None, Some(2), 8, 11),
            tnode("expression_statement", None, Some(0), 12, 27),
            tnode("call", None, Some(4), 12, 27),
            tnode("identifier", Some("function"), Some(5), 12, 17),
            tnode("argument_list", Some("arguments"), Some(5), 17, 27),
            tnode("attribute", None, Some(7), 18, 26),
            tnode("identifier", Some("object"), Some(8), 18, 21),
            tnode("identifier", Some("attribute"), Some(8), 22, 26),
        ],
    };
    let (g, r) = build(&tree, &scoped_rules());
    assert_eq!(r, Ok(()));
    let c = counts(&g);
    assert_eq!(c.total, 4);
    assert_eq!(c.scopes, 1);
    assert_eq!(c.pushes, 1);
    assert_eq!(c.pops, 2);
    assert_eq!(c.symbols, vec!["sys".to_string(), "sys".to_string(), "path".to_string()]);
    let module = NodeId::Local { file: 0, local: 0 };
    let push = g.node(NodeId::Local { file: 0, local: 2 }).unwrap();
    assert!(matches!(push.kind, NodeKind::PushScopedSymbol { scope, .. } if scope == module));
    assert_eq!(g.edges().len(), 2);
}

#[test]
fn test_multiple_imports() {
    let source = "\nimport os\nimport sys\nimport json\n    ";
    let tree = import_tree(source, &[(1, 10, 8, 10), (11, 21, 18, 21), (22, 33, 29, 33)]);
    let (g, r) = build(&tree, &scoped_rules());
    assert_eq!(r, Ok(()));
    let c = counts(&g);
    assert_eq!(c.total, 4);
    assert_eq!(c.scopes, 1);
    assert_eq!(c.pops, 3);
    assert_eq!(c.symbols, vec!["os".to_string(), "sys".to_string(), "json".to_string()]);
    assert_eq!(g.edges().len(), 3);
}

#[test]
fn built_import_resolves_from_a_reference() {
    let plan = RulePlan {
        rules: vec![
            Rule {
                pattern: pattern("module", vec![]),
                program: vec![create(NodeTemplate::Scope { is_exported: true }, false)],
            },
            Rule {
                pattern: pattern("import_statement", vec![child("name", "dotted_name")]),
                program: vec![
                    create(NodeTemplate::PopSymbol { capture: 1 }, true),
                    edge(MODULE_SCOPE, NodeRef::Slot { slot: 0 }),
                ],
            },
        ],
    };
    let tree = import_tree("import sys", &[(0, 10, 7, 10)]);
    let mut g = GraphStore::new();
    let f = g.create_file("sample.py").unwrap();
    assert_eq!(build_file(&mut g, f, &tree, &plan, &|| false), Ok(()));
    let other = g.create_file("user.py").unwrap();
    let sys = g.intern_symbol("sys");
    let reference = g.add_node(other, NodeKind::PushSymbol { symbol: sys }, false, vec![]).unwrap();
    let module = NodeId::Local { file: 0, local: 0 };
    let definition = NodeId::Local { file: 0, local: 1 };
    g.add_edge(reference, module, 0).unwrap();
    let r = resolve(&g, reference, Budget { max_states: 100, max_bindings: 10, ignore_scope_stack: false });
    assert!(r.complete);
    assert_eq!(r.bindings, vec![vec![reference, module, definition]]);
}

#[test]
fn failed_build_commits_nothing() {
    let plan = RulePlan {
        rules: vec![
            Rule {
                pattern: pattern("class_definition", vec![]),
                program: vec![create(NodeTemplate::Scope { is_exported: false }, false)],
            },
            Rule {
                pattern: pattern("module", vec![]),
                program: vec![create(NodeTemplate::Scope { is_exported: false }, false)],
            },
            Rule {
                pattern: pattern("import_statement", vec![child("name", "dotted_name")]),
                program: vec![
                    create(NodeTemplate::PopSymbol { capture: 1 }, true),
                    edge(NodeRef::Enclosing { rule: 0, slot: 0 }, NodeRef::Slot { slot: 0 }),
                ],
            },
        ],
    };
    let tree = import_tree("import sys", &[(0, 10, 7, 10)]);
    let mut g = GraphStore::new();
    let first = g.create_file("first.py").unwrap();
    g.add_node(first, NodeKind::DropScopes, false, vec![]).unwrap();
    let f = g.create_file("sample.py").unwrap();
    let r = build_file(&mut g, f, &tree, &plan, &|| false);
    assert_eq!(r, Err(BuildError::BuildFailed { file: f, cause: BuildCause::NoEnclosingMatch }));
    assert_eq!(g.iter_nodes().len(), 1);
    assert!(g.edges().is_empty());
}

#[test]
fn capture_outside_the_source_fails_the_build() {
    let plan = scoped_rules();
    let mut tree = import_tree("import sys", &[(0, 10, 7, 10)]);
    tree.nodes[2].end = 40;
    let (g, r) = build(&tree, &plan);
    assert_eq!(r, Err(BuildError::BuildFailed { file: stack_scope::graph::FileId { index: 0 }, cause: BuildCause::BadRange }));
    assert!(g.iter_nodes().is_empty());
}

#[test]
fn invalid_plan_is_refused() {
    let plan = RulePlan {
        rules: vec![Rule {
            pattern: pattern("module", vec![]),
            program: vec![edge(NodeRef::Slot { slot: 0 }, NodeRef::Root)],
        }],
    };
    let tree = import_tree("import sys", &[(0, 10, 7, 10)]);
    let (g, r) = build(&tree, &plan);
    assert_eq!(r, Err(BuildError::InvalidRulePlan));
    assert!(g.iter_nodes().is_empty());
    let bad_capture = RulePlan {
        rules: vec![Rule {
            pattern: pattern("module", vec![]),
            program: vec![create(NodeTemplate::PushSymbol { capture: 1 }, false)],
        }],
    };
    assert_eq!(build(&tree, &bad_capture).1, Err(BuildError::InvalidRulePlan));
}

#[test]
fn cancelled_build_commits_nothing() {
    let tree = import_tree("import sys", &[(0, 10, 7, 10)]);
    let mut g = GraphStore::new();
    let f = g.create_file("sample.py").unwrap();
    let r = build_file(&mut g, f, &tree, &scoped_rules(), &|| true);
    assert_eq!(r, Err(BuildError::Cancelled));
    assert!(g.iter_nodes().is_empty());
}

#[test]
fn captures_become_attributes() {
    let plan = RulePlan {
        rules: vec![Rule {
            pattern: pattern("import_statement", vec![child("name", "dotted_name")]),
            program: vec![
                create(NodeTemplate::PopSymbol { capture: 1 }, true),
                Instruction::SetAttribute { slot: 0, name: "imported".to_string(), capture: 1 },
                Instruction::SetAttribute { slot: 0, name: "statement".to_string(), capture: 0 },
            ],
        }],
    };
    let tree = import_tree("import sys", &[(0, 10, 7, 10)]);
    let (g, r) = build(&tree, &plan);
    assert_eq!(r, Ok(()));
    assert_eq!(
        g.attributes_at(0).clone(),
        vec![
            ("imported".to_string(), "sys".to_string()),
            ("statement".to_string(), "import sys".to_string()),
        ]
    );
}
