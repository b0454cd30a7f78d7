//! The graph store: interned symbols, files with their own node arenas, nodes
//! and edges. Everything is append-only.

use vstd::prelude::*;

verus! {

/// A handle to an interned symbol.
#[derive(Clone, Copy, Debug, PartialEq, Eq, Structural)]
pub struct Symbol {
    pub index: usize,
}

/// A handle to a file of the store.
#[derive(Clone, Copy, Debug, PartialEq, Eq, Structural)]
pub struct FileId {
    pub index: usize,
}

/// A node identifier: the shared root, or a local index within a file.
#[derive(Clone, Copy, Debug, PartialEq, Eq, Structural)]
pub enum NodeId {
    Root,
    Local { file: usize, local: usize },
}

/// What a node does to the stacks of a path that crosses it.
#[derive(Clone, Copy, Debug, PartialEq, Eq, Structural)]
pub enum NodeKind {
    Root,
    Scope { is_exported: bool },
    PushSymbol { symbol: Symbol },
    PopSymbol { symbol: Symbol },
    PushScopedSymbol { symbol: Symbol, scope: NodeId },
    PopScopedSymbol { symbol: Symbol },
    DropScopes,
    JumpTo,
}

#[derive(Clone, Copy, Debug, PartialEq, Eq, Structural)]
pub struct Node {
    pub kind: NodeKind,
    pub is_definition: bool,
}

/// A directed edge; outgoing edges are tried by descending precedence.
#[derive(Clone, Copy, Debug, PartialEq, Eq, Structural)]
pub struct Edge {
    pub source: NodeId,
    pub sink: NodeId,
    pub precedence: i32,
}

#[derive(Clone, Copy, Debug, PartialEq, Eq, Structural)]
pub enum GraphError {
    DuplicateFile,
    DanglingNode,
    UnknownNode,
}

/// The mathematical content of a store.
pub struct GraphModel {
    pub symbols: Seq<Seq<char>>,
    pub files: Seq<Seq<char>>,
    /// `nodes[f][l]` is the node with local index `l` in file `f`.
    pub nodes: Seq<Seq<Node>>,
    /// Every node but the root, in the order in which it was added.
    pub order: Seq<NodeId>,
    /// Debug attributes of each node, aligned with `order`.
    pub debug: Seq<Seq<(Seq<char>, Seq<char>)>>,
    pub edges: Seq<Edge>,
}

pub open spec fn attributes_view(a: Seq<(String, String)>) -> Seq<(Seq<char>, Seq<char>)> {
    a.map_values(|p: (String, String)| (p.0@, p.1@))
}

/// The edges of `edges` that leave `n`, in insertion order.
pub open spec fn outgoing(edges: Seq<Edge>, n: NodeId) -> Seq<Edge>
    decreases edges.len(),
{
    if edges.len() == 0 {
        Seq::empty()
    } else if edges.last().source == n {
        outgoing(edges.drop_last(), n).push(edges.last())
    } else {
        outgoing(edges.drop_last(), n)
    }
}

pub open spec fn root_node() -> Node {
    Node { kind: NodeKind::Root, is_definition: false }
}

/// Sum of the lengths of the per-file arenas.
pub open spec fn total_nodes(nodes: Seq<Seq<Node>>) -> nat
    decreases nodes.len(),
{
    if nodes.len() == 0 {
        0
    } else {
        total_nodes(nodes.drop_last()) + nodes.last().len()
    }
}

impl GraphModel {
    pub open spec fn has_file(self, f: FileId) -> bool {
        f.index < self.files.len()
    }

    pub open spec fn has_symbol(self, s: Symbol) -> bool {
        s.index < self.symbols.len()
    }

    pub open spec fn has_node(self, id: NodeId) -> bool {
        match id {
            NodeId::Root => true,
            NodeId::Local { file, local } => file < self.nodes.len() && local < self.nodes[
                file as int
            ].len(),
        }
    }

    pub open spec fn node(self, id: NodeId) -> Node {
        match id {
            NodeId::Root => root_node(),
            NodeId::Local { file, local } => self.nodes[file as int][local as int],
        }
    }

    /// A kind that may be stored: its symbols and scope exist, and it is not the root.
    pub open spec fn kind_ok(self, k: NodeKind) -> bool {
        match k {
            NodeKind::Root => false,
            NodeKind::PushSymbol { symbol } => self.has_symbol(symbol),
            NodeKind::PopSymbol { symbol } => self.has_symbol(symbol),
            NodeKind::PushScopedSymbol { symbol, scope } => self.has_symbol(symbol)
                && self.has_node(scope),
            NodeKind::PopScopedSymbol { symbol } => self.has_symbol(symbol),
            _ => true,
        }
    }

    pub open spec fn wf(self) -> bool {
        &&& self.nodes.len() == self.files.len()
        &&& forall|i: int, j: int|
            0 <= i < j < self.symbols.len() ==> self.symbols[i] != self.symbols[j]
        &&& forall|i: int, j: int| 0 <= i < j < self.files.len() ==> self.files[i] != self.files[j]
        &&& forall|f: int, l: int|
            0 <= f < self.nodes.len() && 0 <= l < self.nodes[f].len() ==> self.kind_ok(
                #[trigger] self.nodes[f][l].kind,
            )
        &&& forall|i: int|
            0 <= i < self.order.len() ==> self.has_node(#[trigger] self.order[i])
                && self.order[i] is Local
        &&& self.order.no_duplicates()
        &&& forall|f: usize, l: usize|
            (f as int) < self.nodes.len() && (l as int) < self.nodes[f as int].len()
                ==> #[trigger] self.order.contains(NodeId::Local { file: f, local: l })
        &&& self.order.len() == total_nodes(self.nodes)
        &&& self.debug.len() == self.order.len()
        &&& forall|i: int|
            0 <= i < self.edges.len() ==> self.has_node(#[trigger] self.edges[i].source)
                && self.has_node(self.edges[i].sink)
    }
}

/// `new` is `old` after interning `text`, which returned `r`.
pub open spec fn interned(old: GraphModel, text: Seq<char>, r: Symbol, new: GraphModel) -> bool {
    &&& new.wf()
    &&& r.index < new.symbols.len()
    &&& new.symbols[r.index as int] == text
    &&& old.symbols.contains(text) ==> new == old
    &&& !old.symbols.contains(text) ==> new == (GraphModel { symbols: old.symbols.push(text), ..old })
}

/// `new` is `old` after creating a file named `name`, which returned `r`.
pub open spec fn file_created(old: GraphModel, name: Seq<char>, r: Result<FileId, GraphError>, new: GraphModel) -> bool {
    &&& new.wf()
    &&& old.files.contains(name) <==> r == Err::<FileId, GraphError>(GraphError::DuplicateFile)
    &&& !old.files.contains(name) ==> r is Ok
    &&& r is Err ==> new == old
    &&& r is Ok ==> r->Ok_0.index == old.files.len() && new == (GraphModel {
        files: old.files.push(name),
        nodes: old.nodes.push(Seq::empty()),
        ..old
    })
}

/// Interning a text twice gives the same handle, and the second call changes nothing.
pub proof fn law_intern_idempotent(
    g0: GraphModel,
    g1: GraphModel,
    g2: GraphModel,
    text: Seq<char>,
    a: Symbol,
    b: Symbol,
)
    requires
        g0.wf(),
        interned(g0, text, a, g1),
        interned(g1, text, b, g2),
    ensures
        a == b,
        g2 == g1,
{
    assert(g1.symbols.contains(text)) by {
        assert(g1.symbols[a.index as int] == text);
    }
}

/// Creating a file whose name is already in the store fails with `DuplicateFile`
/// and changes nothing.
pub proof fn law_duplicate_file(
    g0: GraphModel,
    g1: GraphModel,
    g2: GraphModel,
    name: Seq<char>,
    a: Result<FileId, GraphError>,
    b: Result<FileId, GraphError>,
)
    requires
        g0.wf(),
        file_created(g0, name, a, g1),
        a is Ok,
        file_created(g1, name, b, g2),
    ensures
        b == Err::<FileId, GraphError>(GraphError::DuplicateFile),
        g2 == g1,
{
    assert(g1.files.contains(name)) by {
        assert(g1.files[g0.files.len() as int] == name);
    }
}

pub open spec fn local_id(f: usize, l: usize) -> NodeId {
    NodeId::Local { file: f, local: l }
}

/// The node list holds each node of each file exactly once, and its length
/// is the sum over the files of their node counts.
pub proof fn law_node_count(g: GraphModel, f: usize, l: usize)
    requires
        g.wf(),
        (f as int) < g.nodes.len(),
        (l as int) < g.nodes[f as int].len(),
    ensures
        g.order.len() == total_nodes(g.nodes),
        exists|i: int| 0 <= i < g.order.len() && #[trigger] g.order[i] == local_id(f, l) && (forall|j: int| 0 <= j < g.order.len() && #[trigger] g.order[j] == local_id(f, l) ==> j == i),
{
    let id = local_id(f, l);
    assert(g.order.contains(id));
    let i = choose|i: int| 0 <= i < g.order.len() && g.order[i] == id;
    assert forall|j: int| 0 <= j < g.order.len() && #[trigger] g.order[j] == id implies j == i by {
        if j != i {
            assert(g.order[j] == g.order[i]);
        }
    }
}

/// The store. Its content is given by its view, a `GraphModel`.
pub struct GraphStore {
    symbols: Vec<String>,
    files: Vec<String>,
    arenas: Vec<Vec<Node>>,
    order: Vec<NodeId>,
    attributes: Vec<Vec<(String, String)>>,
    edges: Vec<Edge>,
}

impl View for GraphStore {
    type V = GraphModel;

    closed spec fn view(&self) -> GraphModel {
        GraphModel {
            symbols: self.symbols@.map_values(|s: String| s@),
            files: self.files@.map_values(|s: String| s@),
            nodes: self.arenas@.map_values(|a: Vec<Node>| a@),
            order: self.order@,
            debug: self.attributes@.map_values(|a: Vec<(String, String)>| attributes_view(a@)),
            edges: self.edges@,
        }
    }
}

proof fn lemma_total_nodes_update(nodes: Seq<Seq<Node>>, f: int, n: Node)
    requires
        0 <= f < nodes.len(),
    ensures
        total_nodes(nodes.update(f, nodes[f].push(n))) == total_nodes(nodes) + 1,
    decreases nodes.len(),
{
    let u = nodes.update(f, nodes[f].push(n));
    if f == nodes.len() - 1 {
        assert(u.drop_last() =~= nodes.drop_last());
    } else {
        lemma_total_nodes_update(nodes.drop_last(), f, n);
        assert(u.drop_last() =~= nodes.drop_last().update(f, nodes[f].push(n)));
    }
}

proof fn lemma_total_nodes_push_empty(nodes: Seq<Seq<Node>>)
    ensures
        total_nodes(nodes.push(Seq::empty())) == total_nodes(nodes),
{
    assert(nodes.push(Seq::empty()).drop_last() =~= nodes);
}

impl GraphStore {
    pub closed spec fn wf(&self) -> bool {
        &&& self@.wf()
        &&& self.arenas@.len() == self.files@.len()
    }

    /// A well-formed store has a well-formed model.
    pub proof fn lemma_model_wf(&self)
        requires
            self.wf(),
        ensures
            self@.wf(),
    {
    }

    /// An empty store: no symbols, files, nodes or edges.
    pub fn new() -> (r: GraphStore)
        ensures
            r.wf(),
            r@.symbols.len() == 0,
            r@.files.len() == 0,
            r@.nodes.len() == 0,
            r@.order.len() == 0,
            r@.debug.len() == 0,
            r@.edges.len() == 0,
    {
        let r = GraphStore {
            symbols: Vec::new(),
            files: Vec::new(),
            arenas: Vec::new(),
            order: Vec::new(),
            attributes: Vec::new(),
            edges: Vec::new(),
        };
        assert(r@.nodes =~= Seq::<Seq<Node>>::empty());
        assert(r@.debug =~= Seq::<Seq<(Seq<char>, Seq<char>)>>::empty());
        r
    }

    /// Returns the handle of `text`, interning it if it is new.
    pub fn intern_symbol(&mut self, text: &str) -> (r: Symbol)
        requires
            old(self).wf(),
        ensures
            final(self).wf(),
            interned(old(self)@, text@, r, final(self)@),
    {
        let owned = text.to_owned();
        let mut i: usize = 0;
        while i < self.symbols.len()
            invariant
                self.wf(),
                *self == *old(self),
                0 <= i <= self.symbols@.len(),
                owned@ == text@,
                forall|j: int| 0 <= j < i ==> self.symbols@[j]@ != text@,
            decreases self.symbols@.len() - i,
        {
            if self.symbols[i] == owned {
                assert(self@.symbols[i as int] == self.symbols@[i as int]@);
                return Symbol { index: i };
            }
            i = i + 1;
        }
        assert(!self@.symbols.contains(text@)) by {
            if exists|j: int| 0 <= j < self@.symbols.len() && self@.symbols[j] == text@ {
                let j = choose|j: int| 0 <= j < self@.symbols.len() && self@.symbols[j] == text@;
                assert(self@.symbols[j] == self.symbols@[j]@);
            }
        }
        let ghost before = self@;
        self.symbols.push(owned);
        assert(self@.symbols =~= before.symbols.push(text@));
        proof {
            assert(self@.nodes == before.nodes);
            assert forall|f: int, l: int|
                0 <= f < self@.nodes.len() && 0 <= l < self@.nodes[f].len() implies self@.kind_ok(
                #[trigger] self@.nodes[f][l].kind,
            ) by {
                assert(before.kind_ok(before.nodes[f][l].kind));
            }
        }
        Symbol { index: self.symbols.len() - 1 }
    }

    /// Adds a file named `name`; a name already present is refused.
    pub fn create_file(&mut self, name: &str) -> (r: Result<FileId, GraphError>)
        requires
            old(self).wf(),
        ensures
            final(self).wf(),
            file_created(old(self)@, name@, r, final(self)@),
    {
        let owned = name.to_owned();
        let mut i: usize = 0;
        while i < self.files.len()
            invariant
                self.wf(),
                *self == *old(self),
                owned@ == name@,
                0 <= i <= self.files@.len(),
                forall|j: int| 0 <= j < i ==> self.files@[j]@ != name@,
            decreases self.files@.len() - i,
        {
            if self.files[i] == owned {
                assert(self@.files[i as int] == self.files@[i as int]@);
                return Err(GraphError::DuplicateFile);
            }
            i = i + 1;
        }
        assert(!self@.files.contains(name@)) by {
            if exists|j: int| 0 <= j < self@.files.len() && self@.files[j] == name@ {
                let j = choose|j: int| 0 <= j < self@.files.len() && self@.files[j] == name@;
                assert(self@.files[j] == self.files@[j]@);
            }
        }
        let ghost before = self@;
        self.files.push(owned);
        self.arenas.push(Vec::new());
        proof {
            assert(self@.files =~= before.files.push(name@));
            assert(self@.nodes =~= before.nodes.push(Seq::empty()));
            lemma_total_nodes_push_empty(before.nodes);
            assert forall|i: int, j: int| 0 <= i < j < self@.files.len() implies self@.files[i]
                != self@.files[j] by {
                if j == before.files.len() {
                    assert(before.files.contains(before.files[i]));
                }
            }
            assert forall|f: int, l: int|
                0 <= f < self@.nodes.len() && 0 <= l < self@.nodes[f].len() implies self@.kind_ok(
                #[trigger] self@.nodes[f][l].kind,
            ) by {
                assert(before.kind_ok(before.nodes[f][l].kind));
            }
            assert forall|i: int| 0 <= i < self@.order.len() implies self@.has_node(
                #[trigger] self@.order[i],
            ) && self@.order[i] is Local by {
                assert(before.has_node(before.order[i]));
            }
            assert forall|i: int| 0 <= i < self@.edges.len() implies self@.has_node(
                #[trigger] self@.edges[i].source,
            ) && self@.has_node(self@.edges[i].sink) by {
                assert(before.has_node(before.edges[i].source));
                assert(before.has_node(before.edges[i].sink));
            }
            assert forall|f: usize, l: usize|
                (f as int) < self@.nodes.len() && (l as int) < self@.nodes[f as int].len()
                implies #[trigger] self@.order.contains(NodeId::Local { file: f, local: l }) by {
                if (f as int) < before.nodes.len() {
                    assert(before.order.contains(NodeId::Local { file: f, local: l }));
                }
            }
        }
        assert(self@.symbols == before.symbols);
        Ok(FileId { index: self.files.len() - 1 })
    }

    /// Whether `id` names a node of this store.
    pub fn contains_node(&self, id: NodeId) -> (r: bool)
        requires
            self.wf(),
        ensures
            r == self@.has_node(id),
    {
        match id {
            NodeId::Root => true,
            NodeId::Local { file, local } => file < self.arenas.len() && local
                < self.arenas[file].len(),
        }
    }

    /// Adds a node to `file` under the next local index of that file. A
    /// scoped push whose scope is not a node of the store is refused.
    pub fn add_node(
        &mut self,
        file: FileId,
        kind: NodeKind,
        is_definition: bool,
        attributes: Vec<(String, String)>,
    ) -> (r: Result<NodeId, GraphError>)
        requires
            old(self).wf(),
            old(self)@.has_file(file),
            !(kind is Root),
            old(self)@.kind_ok(kind) || kind is PushScopedSymbol,
            kind is PushScopedSymbol ==> old(self)@.has_symbol(kind->PushScopedSymbol_symbol),
        ensures
            final(self).wf(),
            r is Err <==> !old(self)@.kind_ok(kind),
            r is Ok ==> old(self)@.nodes[file.index as int].len() <= usize::MAX,
            r is Err ==> r == Err::<NodeId, GraphError>(GraphError::UnknownNode)
                && final(self)@ == old(self)@,
            r is Ok ==> ({
                let id = NodeId::Local {
                    file: file.index,
                    local: old(self)@.nodes[file.index as int].len() as usize,
                };
                &&& r->Ok_0 == id
                &&& final(self)@ == (GraphModel {
                    nodes: old(self)@.nodes.update(
                        file.index as int,
                        old(self)@.nodes[file.index as int].push(
                            Node { kind, is_definition },
                        ),
                    ),
                    order: old(self)@.order.push(id),
                    debug: old(self)@.debug.push(attributes_view(attributes@)),
                    ..old(self)@
                })
            }),
    {
        if let NodeKind::PushScopedSymbol { symbol, scope } = kind {
            if !self.contains_node(scope) {
                return Err(GraphError::UnknownNode);
            }
        }
        let ghost before = self@;
        let f = file.index;
        let local = self.arenas[f].len();
        let id = NodeId::Local { file: f, local };
        let node = Node { kind, is_definition };
        self.arenas[f].push(node);
        self.order.push(id);
        self.attributes.push(attributes);
        proof {
            let nodes2 = before.nodes.update(f as int, before.nodes[f as int].push(node));
            assert(self@.nodes =~= nodes2);
            assert(self@.order =~= before.order.push(id));
            assert(self@.debug =~= before.debug.push(attributes_view(attributes@)));
            lemma_total_nodes_update(before.nodes, f as int, node);
            assert forall|g: int, l: int|
                0 <= g < self@.nodes.len() && 0 <= l < self@.nodes[g].len() implies self@.kind_ok(
                #[trigger] self@.nodes[g][l].kind,
            ) by {
                if g == f && l == local {
                } else {
                    assert(before.kind_ok(before.nodes[g][l].kind));
                }
            }
            assert forall|i: int| 0 <= i < self@.order.len() implies self@.has_node(
                #[trigger] self@.order[i],
            ) && self@.order[i] is Local by {
                if i < before.order.len() {
                    assert(before.has_node(before.order[i]));
                }
            }
            assert(!before.order.contains(id)) by {
                if before.order.contains(id) {
                    let k = choose|k: int| 0 <= k < before.order.len() && before.order[k] == id;
                    assert(before.has_node(before.order[k]));
                }
            }
            assert(self@.order.no_duplicates()) by {
                assert forall|i: int, j: int|
                    0 <= i < self@.order.len() && 0 <= j < self@.order.len() && i != j implies self@.order[i]
                    != self@.order[j] by {
                    if i == before.order.len() {
                        assert(self@.order[j] == before.order[j]);
                    } else if j == before.order.len() {
                        assert(self@.order[i] == before.order[i]);
                    } else {
                        assert(self@.order[i] == before.order[i]);
                        assert(self@.order[j] == before.order[j]);
                    }
                }
            }
            assert forall|g2: usize, l2: usize|
                (g2 as int) < self@.nodes.len() && (l2 as int) < self@.nodes[g2 as int].len()
                implies #[trigger] self@.order.contains(NodeId::Local { file: g2, local: l2 }) by {
                if g2 == f && l2 == local {
                    assert(self@.order[before.order.len() as int] == id);
                } else {
                    assert(before.order.contains(NodeId::Local { file: g2, local: l2 }));
                    let k = choose|k: int|
                        0 <= k < before.order.len() && before.order[k] == NodeId::Local {
                            file: g2,
                            local: l2,
                        };
                    assert(self@.order[k] == before.order[k]);
                }
            }
            assert forall|i: int| 0 <= i < self@.edges.len() implies self@.has_node(
                #[trigger] self@.edges[i].source,
            ) && self@.has_node(self@.edges[i].sink) by {
                assert(before.has_node(before.edges[i].source));
                assert(before.has_node(before.edges[i].sink));
            }
        }
        Ok(id)
    }

    /// Adds an edge; both endpoints must be nodes of the store.
    pub fn add_edge(&mut self, source: NodeId, sink: NodeId, precedence: i32) -> (r: Result<
        (),
        GraphError,
    >)
        requires
            old(self).wf(),
        ensures
            final(self).wf(),
            r is Err <==> !(old(self)@.has_node(source) && old(self)@.has_node(sink)),
            r is Err ==> r == Err::<(), GraphError>(GraphError::DanglingNode) && final(self)@
                == old(self)@,
            r is Ok ==> final(self)@ == (GraphModel {
                edges: old(self)@.edges.push(Edge { source, sink, precedence }),
                ..old(self)@
            }),
    {
        if !self.contains_node(source) || !self.contains_node(sink) {
            return Err(GraphError::DanglingNode);
        }
        let ghost before = self@;
        self.edges.push(Edge { source, sink, precedence });
        proof {
            assert(self@.edges =~= before.edges.push(Edge { source, sink, precedence }));
            assert forall|i: int| 0 <= i < self@.edges.len() implies self@.has_node(
                #[trigger] self@.edges[i].source,
            ) && self@.has_node(self@.edges[i].sink) by {
                if i < before.edges.len() {
                    assert(before.has_node(before.edges[i].source));
                    assert(before.has_node(before.edges[i].sink));
                }
            }
        }
        Ok(())
    }

    /// The node named `id`.
    pub fn node(&self, id: NodeId) -> (r: Result<Node, GraphError>)
        requires
            self.wf(),
        ensures
            self@.has_node(id) ==> r == Ok::<Node, GraphError>(self@.node(id)),
            !self@.has_node(id) ==> r == Err::<Node, GraphError>(GraphError::UnknownNode),
    {
        match id {
            NodeId::Root => Ok(Node { kind: NodeKind::Root, is_definition: false }),
            NodeId::Local { file, local } => {
                if file < self.arenas.len() && local < self.arenas[file].len() {
                    Ok(self.arenas[file][local])
                } else {
                    Err(GraphError::UnknownNode)
                }
            },
        }
    }

    /// Every node but the root, in the order in which it was added.
    pub fn iter_nodes(&self) -> (r: &Vec<NodeId>)
        requires
            self.wf(),
        ensures
            r@ == self@.order,
    {
        &self.order
    }

    /// All edges, in the order in which they were added.
    pub fn edges(&self) -> (r: &Vec<Edge>)
        ensures
            r@ == self@.edges,
    {
        &self.edges
    }

    /// The edges that leave `n`, in the order in which they were added.
    pub fn iter_edges(&self, n: NodeId) -> (r: Vec<Edge>)
        ensures
            r@ == outgoing(self@.edges, n),
    {
        let mut r: Vec<Edge> = Vec::new();
        let mut i: usize = 0;
        while i < self.edges.len()
            invariant
                0 <= i <= self.edges@.len(),
                r@ == outgoing(self.edges@.take(i as int), n),
            decreases self.edges@.len() - i,
        {
            assert(self.edges@.take(i + 1).drop_last() =~= self.edges@.take(i as int));
            if self.edges[i].source == n {
                r.push(self.edges[i]);
            }
            i = i + 1;
        }
        assert(self.edges@.take(i as int) =~= self.edges@);
        r
    }

    /// The text of an interned symbol.
    pub fn symbol_text(&self, s: Symbol) -> (r: &String)
        requires
            self.wf(),
            self@.has_symbol(s),
        ensures
            r@ == self@.symbols[s.index as int],
    {
        &self.symbols[s.index]
    }

    /// The name of a file.
    pub fn file_name(&self, f: FileId) -> (r: &String)
        requires
            self.wf(),
            self@.has_file(f),
        ensures
            r@ == self@.files[f.index as int],
    {
        &self.files[f.index]
    }

    /// The debug attributes of the node at position `i` of `iter_nodes`.
    pub fn attributes_at(&self, i: usize) -> (r: &Vec<(String, String)>)
        requires
            self.wf(),
            i < self@.order.len(),
        ensures
            attributes_view(r@) == self@.debug[i as int],
    {
        &self.attributes[i]
    }
}

} // verus!
