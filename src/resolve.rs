//! The path resolver: a depth-first stack-machine search from a reference
//! node to definitions, bounded by a visited-state set and by budgets.

use vstd::prelude::*;
use crate::graph::{Edge, GraphModel, GraphStore, NodeId, NodeKind, Symbol, outgoing, total_nodes};
use vstd::set_lib::{lemma_int_range, lemma_len_subset, set_int_range};

verus! {

/// Limits of one query.
#[derive(Clone, Copy, Debug, PartialEq, Eq, Structural)]
pub struct Budget {
    /// How many distinct states may be expanded.
    pub max_states: usize,
    /// How many bindings may be returned.
    pub max_bindings: usize,
    /// Whether a binding may end with a nonempty scope stack.
    pub ignore_scope_stack: bool,
}

/// A partial path: where it stands, its two stacks (top last) and the nodes crossed.
pub struct PathModel {
    pub node: NodeId,
    pub symbols: Seq<Symbol>,
    pub scopes: Seq<NodeId>,
    pub path: Seq<NodeId>,
}

/// The state of the search.
pub struct SearchModel {
    /// Paths waiting to be expanded; the last is expanded next.
    pub stack: Seq<PathModel>,
    /// The states already expanded: node and both stacks.
    pub visited: Seq<(NodeId, Seq<Symbol>, Seq<NodeId>)>,
    pub found: Seq<Seq<NodeId>>,
    pub incomplete: bool,
}

/// The answer to a query: the bindings in the order found, and whether the
/// search ran to its end.
pub struct ResolutionModel {
    pub bindings: Seq<Seq<NodeId>>,
    pub complete: bool,
}

/// Descending precedence; `e` goes after every edge of equal or higher precedence.
pub open spec fn insert_desc(s: Seq<Edge>, e: Edge) -> Seq<Edge>
    decreases s.len(),
{
    if s.len() == 0 {
        seq![e]
    } else if s[0].precedence < e.precedence {
        seq![e] + s
    } else {
        seq![s[0]] + insert_desc(s.drop_first(), e)
    }
}

/// A stable sort by descending precedence.
pub open spec fn sort_desc(s: Seq<Edge>) -> Seq<Edge>
    decreases s.len(),
{
    if s.len() == 0 {
        Seq::empty()
    } else {
        insert_desc(sort_desc(s.drop_last()), s.last())
    }
}

/// The edges leaving `n` in the order in which the search tries them.
pub open spec fn ordered_out(g: GraphModel, n: NodeId) -> Seq<Edge> {
    sort_desc(outgoing(g.edges, n))
}

/// The path `p` extended to node `n`, or `None` where `n` kills it.
pub open spec fn arrive(g: GraphModel, p: PathModel, n: NodeId) -> Option<PathModel> {
    let path = p.path.push(n);
    match g.node(n).kind {
        NodeKind::PushSymbol { symbol } => Some(
            PathModel { node: n, symbols: p.symbols.push(symbol), scopes: p.scopes, path },
        ),
        NodeKind::PopSymbol { symbol } => if p.symbols.len() > 0 && p.symbols.last() == symbol {
            Some(PathModel { node: n, symbols: p.symbols.drop_last(), scopes: p.scopes, path })
        } else {
            None
        },
        NodeKind::PushScopedSymbol { symbol, scope } => Some(
            PathModel {
                node: n,
                symbols: p.symbols.push(symbol),
                scopes: p.scopes.push(scope),
                path,
            },
        ),
        NodeKind::PopScopedSymbol { symbol } => if p.symbols.len() > 0 && p.symbols.last()
            == symbol {
            Some(PathModel { node: n, symbols: p.symbols.drop_last(), scopes: p.scopes, path })
        } else {
            None
        },
        NodeKind::DropScopes => Some(
            PathModel { node: n, symbols: p.symbols, scopes: Seq::empty(), path },
        ),
        NodeKind::JumpTo => if p.scopes.len() > 0 {
            Some(
                PathModel {
                    node: p.scopes.last(),
                    symbols: p.symbols,
                    scopes: p.scopes.drop_last(),
                    path: path.push(p.scopes.last()),
                },
            )
        } else {
            None
        },
        _ => Some(PathModel { node: n, symbols: p.symbols, scopes: p.scopes, path }),
    }
}

/// Whether `p` is a binding: it stands on a definition with empty stacks.
pub open spec fn is_binding(g: GraphModel, b: Budget, p: PathModel) -> bool {
    &&& g.node(p.node).is_definition
    &&& p.symbols.len() == 0
    &&& (b.ignore_scope_stack || p.scopes.len() == 0)
}

/// The live paths that extend `p` along `es`, in reverse order of `es`.
pub open spec fn successors_rev(g: GraphModel, p: PathModel, es: Seq<Edge>) -> Seq<PathModel>
    decreases es.len(),
{
    if es.len() == 0 {
        Seq::empty()
    } else {
        let rest = successors_rev(g, p, es.drop_first());
        match arrive(g, p, es[0].sink) {
            Some(q) => rest.push(q),
            None => rest,
        }
    }
}

pub open spec fn key_of(p: PathModel) -> (NodeId, Seq<Symbol>, Seq<NodeId>) {
    (p.node, p.symbols, p.scopes)
}

/// The search run to its end from `s`.
pub open spec fn run(g: GraphModel, b: Budget, s: SearchModel) -> SearchModel
    decreases b.max_states - s.visited.len(), s.stack.len(),
{
    if s.stack.len() == 0 || s.visited.len() > b.max_states {
        s
    } else {
        let p = s.stack.last();
        if s.visited.contains(key_of(p)) {
            run(g, b, SearchModel { stack: s.stack.drop_last(), ..s })
        } else if s.visited.len() == b.max_states {
            SearchModel { incomplete: true, ..s }
        } else if is_binding(g, b, p) && s.found.len() >= b.max_bindings {
            SearchModel { incomplete: true, ..s }
        } else {
            run(
                g,
                b,
                SearchModel {
                    stack: s.stack.drop_last() + successors_rev(g, p, ordered_out(g, p.node)),
                    visited: s.visited.push(key_of(p)),
                    found: if is_binding(g, b, p) {
                        s.found.push(p.path)
                    } else {
                        s.found
                    },
                    incomplete: false,
                },
            )
        }
    }
}

/// The first state of a search from `reference`.
pub open spec fn initial(g: GraphModel, reference: NodeId) -> SearchModel {
    let empty = PathModel {
        node: reference,
        symbols: Seq::empty(),
        scopes: Seq::empty(),
        path: Seq::empty(),
    };
    SearchModel {
        stack: if g.has_node(reference) {
            match arrive(g, empty, reference) {
                Some(p) => seq![p],
                None => Seq::empty(),
            }
        } else {
            Seq::empty()
        },
        visited: Seq::empty(),
        found: Seq::empty(),
        incomplete: false,
    }
}

/// The answer to a query from `reference` under `b`.
pub open spec fn resolution(g: GraphModel, reference: NodeId, b: Budget) -> ResolutionModel {
    let s = run(g, b, initial(g, reference));
    ResolutionModel { bindings: s.found, complete: !s.incomplete }
}

/// Resolving the same reference against the same store with the same budget
/// twice gives the same bindings, in the same order, with the same completeness.
pub proof fn law_resolve_deterministic(
    g: GraphModel,
    reference: NodeId,
    b: Budget,
    r1: ResolutionModel,
    r2: ResolutionModel,
)
    requires
        r1 == resolution(g, reference, b),
        r2 == resolution(g, reference, b),
    ensures
        r1 == r2,
{
}

/// With no state to expand, a query whose reference starts a live path
/// returns no binding and is marked incomplete.
pub proof fn law_zero_state_budget(g: GraphModel, reference: NodeId, b: Budget)
    requires
        b.max_states == 0,
        g.has_node(reference),
        arrive(
            g,
            PathModel {
                node: reference,
                symbols: Seq::empty(),
                scopes: Seq::empty(),
                path: Seq::empty(),
            },
            reference,
        ) is Some,
    ensures
        resolution(g, reference, b).bindings.len() == 0,
        !resolution(g, reference, b).complete,
{
    let s = initial(g, reference);
    assert(!s.visited.contains(key_of(s.stack.last())));
}

/// A position for each node: the root first, then the files' nodes in order.
pub open spec fn node_index(g: GraphModel, n: NodeId) -> int {
    match n {
        NodeId::Root => 0,
        NodeId::Local { file, local } => 1 + total_nodes(g.nodes.take(file as int)) + local,
    }
}

proof fn lemma_total_prefix_mono(nodes: Seq<Seq<crate::graph::Node>>, f1: int, f2: int)
    requires
        0 <= f1 <= f2 <= nodes.len(),
    ensures
        total_nodes(nodes.take(f1)) <= total_nodes(nodes.take(f2)),
        f1 < f2 ==> total_nodes(nodes.take(f1)) + nodes[f1].len() <= total_nodes(nodes.take(f2)),
    decreases f2 - f1,
{
    if f1 < f2 {
        lemma_total_prefix_mono(nodes, f1, f2 - 1);
        assert(nodes.take(f2).drop_last() =~= nodes.take(f2 - 1));
        if f1 == f2 - 1 {
            assert(nodes.take(f2).last() == nodes[f1]);
        }
    }
}

proof fn lemma_node_index(g: GraphModel, a: NodeId, b: NodeId)
    requires
        g.has_node(a),
        g.has_node(b),
    ensures
        0 <= node_index(g, a) < 1 + total_nodes(g.nodes),
        node_index(g, a) == node_index(g, b) ==> a == b,
{
    assert(g.nodes.take(g.nodes.len() as int) =~= g.nodes);
    if let NodeId::Local { file, local } = a {
        lemma_total_prefix_mono(g.nodes, file as int, g.nodes.len() as int);
    }
    match (a, b) {
        (NodeId::Local { file: f1, local: l1 }, NodeId::Local { file: f2, local: l2 }) => {
            if f1 < f2 {
                lemma_total_prefix_mono(g.nodes, f1 as int, f2 as int);
            } else if f2 < f1 {
                lemma_total_prefix_mono(g.nodes, f2 as int, f1 as int);
            }
        },
        _ => {},
    }
}

/// Distinct nodes of a store are at most as many as its nodes, the root included.
proof fn lemma_distinct_nodes_bound(g: GraphModel, ns: Seq<NodeId>)
    requires
        ns.no_duplicates(),
        forall|i: int| 0 <= i < ns.len() ==> g.has_node(#[trigger] ns[i]),
    ensures
        ns.len() <= 1 + total_nodes(g.nodes),
{
    let is = ns.map_values(|n: NodeId| node_index(g, n));
    assert(is.no_duplicates()) by {
        assert forall|i: int, j: int| 0 <= i < is.len() && 0 <= j < is.len() && i != j implies is[i] != is[j] by {
            lemma_node_index(g, ns[i], ns[j]);
        }
    }
    is.unique_seq_to_set();
    let range = set_int_range(0, 1 + total_nodes(g.nodes) as int);
    lemma_int_range(0, 1 + total_nodes(g.nodes) as int);
    assert(is.to_set().subset_of(range)) by {
        assert forall|x: int| is.to_set().contains(x) implies range.contains(x) by {
            let i = choose|i: int| 0 <= i < is.len() && is[i] == x;
            lemma_node_index(g, ns[i], ns[i]);
        }
    }
    lemma_len_subset(is.to_set(), range);
}

/// Every node other than `reference` passes both stacks through unchanged,
/// no edge leads back to `reference`, and `reference` pushes a symbol.
pub open spec fn scopes_only(g: GraphModel, reference: NodeId) -> bool {
    &&& g.has_node(reference)
    &&& g.node(reference).kind is PushSymbol
    &&& forall|n: NodeId|
        #[trigger] g.has_node(n) && n != reference ==> (g.node(n).kind is Scope || g.node(n).kind is Root)
    &&& forall|i: int| 0 <= i < g.edges.len() ==> (#[trigger] g.edges[i]).sink != reference
}

pub open spec fn sinks_avoid(g: GraphModel, es: Seq<Edge>, reference: NodeId) -> bool {
    forall|i: int| 0 <= i < es.len() ==> g.has_node((#[trigger] es[i]).sink) && es[i].sink != reference
}

proof fn lemma_outgoing_avoid(g: GraphModel, edges: Seq<Edge>, n: NodeId, reference: NodeId)
    requires
        sinks_avoid(g, edges, reference),
    ensures
        sinks_avoid(g, outgoing(edges, n), reference),
    decreases edges.len(),
{
    if edges.len() > 0 {
        lemma_outgoing_avoid(g, edges.drop_last(), n, reference);
        assert(edges.drop_last().len() == edges.len() - 1);
        let last = edges[edges.len() - 1];
        assert(g.has_node(last.sink) && last.sink != reference);
    }
}

proof fn lemma_insert_desc_avoid(g: GraphModel, s: Seq<Edge>, e: Edge, reference: NodeId)
    requires
        sinks_avoid(g, s, reference),
        g.has_node(e.sink),
        e.sink != reference,
    ensures
        sinks_avoid(g, insert_desc(s, e), reference),
    decreases s.len(),
{
    if s.len() > 0 && s[0].precedence >= e.precedence {
        lemma_insert_desc_avoid(g, s.drop_first(), e, reference);
        assert(g.has_node(s[0].sink) && s[0].sink != reference);
        let r = insert_desc(s, e);
        assert forall|i: int| 0 <= i < r.len() implies g.has_node((#[trigger] r[i]).sink) && r[i].sink != reference by {
            if i > 0 {
                assert(r[i] == insert_desc(s.drop_first(), e)[i - 1]);
            }
        }
    } else if s.len() > 0 {
        let r = insert_desc(s, e);
        assert forall|i: int| 0 <= i < r.len() implies g.has_node((#[trigger] r[i]).sink) && r[i].sink != reference by {
            if i > 0 {
                assert(r[i] == s[i - 1]);
            }
        }
    }
}

proof fn lemma_sort_desc_avoid(g: GraphModel, s: Seq<Edge>, reference: NodeId)
    requires
        sinks_avoid(g, s, reference),
    ensures
        sinks_avoid(g, sort_desc(s), reference),
    decreases s.len(),
{
    if s.len() > 0 {
        lemma_sort_desc_avoid(g, s.drop_last(), reference);
        let last = s[s.len() - 1];
        assert(g.has_node(last.sink) && last.sink != reference);
        lemma_insert_desc_avoid(g, sort_desc(s.drop_last()), s.last(), reference);
    }
}

/// A path that stands on a valid node with the given stacks.
pub open spec fn neutral_path(g: GraphModel, p: PathModel, syms: Seq<Symbol>) -> bool {
    g.has_node(p.node) && p.symbols == syms && p.scopes.len() == 0
}

proof fn lemma_successors_neutral(g: GraphModel, p: PathModel, es: Seq<Edge>, reference: NodeId, syms: Seq<Symbol>)
    requires
        scopes_only(g, reference),
        sinks_avoid(g, es, reference),
        neutral_path(g, p, syms),
    ensures
        forall|i: int| 0 <= i < successors_rev(g, p, es).len() ==> neutral_path(g, #[trigger] successors_rev(g, p, es)[i], syms),
    decreases es.len(),
{
    if es.len() > 0 {
        let rest = es.drop_first();
        assert forall|i: int| 0 <= i < rest.len() implies g.has_node((#[trigger] rest[i]).sink) && rest[i].sink != reference by {
            assert(rest[i] == es[i + 1]);
        }
        lemma_successors_neutral(g, p, rest, reference, syms);
        let n = es[0].sink;
        assert(g.has_node(n) && n != reference);
        assert(g.node(n).kind is Scope || g.node(n).kind is Root);
        let q = PathModel { node: n, symbols: p.symbols, scopes: p.scopes, path: p.path.push(n) };
        assert(arrive(g, p, n) == Some(q));
        let r = successors_rev(g, p, rest);
        assert(successors_rev(g, p, es) == r.push(q));
        assert forall|i: int| 0 <= i < r.push(q).len() implies neutral_path(g, #[trigger] r.push(q)[i], syms) by {
            if i < r.len() {
                assert(r.push(q)[i] == r[i]);
            }
        }
    }
}

pub open spec fn neutral_search(g: GraphModel, s: SearchModel, syms: Seq<Symbol>) -> bool {
    &&& forall|i: int| 0 <= i < s.stack.len() ==> neutral_path(g, #[trigger] s.stack[i], syms)
    &&& forall|i: int|
        0 <= i < s.visited.len() ==> g.has_node((#[trigger] s.visited[i]).0) && s.visited[i].1 == syms
            && s.visited[i].2.len() == 0
    &&& s.visited.no_duplicates()
    &&& !s.incomplete
}

proof fn lemma_run_neutral(g: GraphModel, b: Budget, s: SearchModel, reference: NodeId, syms: Seq<Symbol>)
    requires
        g.wf(),
        scopes_only(g, reference),
        syms.len() > 0,
        b.max_states > total_nodes(g.nodes),
        neutral_search(g, s, syms),
    ensures
        !run(g, b, s).incomplete,
    decreases b.max_states - s.visited.len(), s.stack.len(),
{
    if s.stack.len() == 0 || s.visited.len() > b.max_states {
    } else {
        let p = s.stack.last();
        assert(neutral_path(g, s.stack[s.stack.len() - 1], syms));
        if s.visited.contains(key_of(p)) {
            let s2 = SearchModel { stack: s.stack.drop_last(), ..s };
            assert forall|i: int| 0 <= i < s2.stack.len() implies neutral_path(g, #[trigger] s2.stack[i], syms) by {
                assert(s2.stack[i] == s.stack[i]);
            }
            lemma_run_neutral(g, b, s2, reference, syms);
        } else {
            let ns = s.visited.map_values(|k: (NodeId, Seq<Symbol>, Seq<NodeId>)| k.0).push(p.node);
            assert(ns.no_duplicates()) by {
                assert forall|i: int, j: int| 0 <= i < ns.len() && 0 <= j < ns.len() && i != j implies ns[i] != ns[j] by {
                    if i < s.visited.len() && j < s.visited.len() {
                        assert(s.visited[i].2 =~= s.visited[j].2);
                    } else if i < s.visited.len() {
                        assert(s.visited[i].2 =~= p.scopes);
                        if ns[i] == ns[j] {
                            assert(s.visited[i] == key_of(p));
                        }
                    } else {
                        assert(s.visited[j].2 =~= p.scopes);
                        if ns[i] == ns[j] {
                            assert(s.visited[j] == key_of(p));
                        }
                    }
                }
            }
            assert forall|i: int| 0 <= i < ns.len() implies g.has_node(#[trigger] ns[i]) by {
                if i < s.visited.len() {
                    assert(g.has_node(s.visited[i].0));
                }
            }
            lemma_distinct_nodes_bound(g, ns);
            assert(s.visited.len() < b.max_states);
            assert(!is_binding(g, b, p));
            let es = ordered_out(g, p.node);
            assert(sinks_avoid(g, g.edges, reference)) by {
                assert forall|i: int| 0 <= i < g.edges.len() implies g.has_node((#[trigger] g.edges[i]).sink)
                    && g.edges[i].sink != reference by {
                    assert(g.has_node(g.edges[i].source));
                }
            }
            lemma_outgoing_avoid(g, g.edges, p.node, reference);
            lemma_sort_desc_avoid(g, outgoing(g.edges, p.node), reference);
            lemma_successors_neutral(g, p, es, reference, syms);
            let succ = successors_rev(g, p, es);
            let s2 = SearchModel {
                stack: s.stack.drop_last() + succ,
                visited: s.visited.push(key_of(p)),
                found: s.found,
                incomplete: false,
            };
            assert forall|i: int| 0 <= i < s2.stack.len() implies neutral_path(g, #[trigger] s2.stack[i], syms) by {
                if i < s.stack.len() - 1 {
                    assert(s2.stack[i] == s.stack[i]);
                } else {
                    assert(s2.stack[i] == succ[i - (s.stack.len() - 1)]);
                }
            }
            assert(s2.visited.no_duplicates()) by {
                assert forall|i: int, j: int| 0 <= i < s2.visited.len() && 0 <= j < s2.visited.len() && i != j implies s2.visited[i] != s2.visited[j] by {
                    if i == s.visited.len() {
                        assert(!s.visited.contains(key_of(p)));
                        assert(s2.visited[j] == s.visited[j]);
                    } else if j == s.visited.len() {
                        assert(!s.visited.contains(key_of(p)));
                        assert(s2.visited[i] == s.visited[i]);
                    }
                }
            }
            lemma_run_neutral(g, b, s2, reference, syms);
        }
    }
}

/// A search from a symbol reference through a graph whose other nodes are all
/// scopes (or the root), with no edge back to the reference, ends on its own
/// however those scopes form cycles: under a state budget larger than the
/// number of nodes it is always complete.
pub proof fn law_scope_cycles_complete(g: GraphModel, reference: NodeId, b: Budget)
    requires
        g.wf(),
        scopes_only(g, reference),
        b.max_states > total_nodes(g.nodes),
    ensures
        resolution(g, reference, b).complete,
{
    let empty = PathModel {
        node: reference,
        symbols: Seq::empty(),
        scopes: Seq::empty(),
        path: Seq::empty(),
    };
    let p0 = arrive(g, empty, reference).unwrap();
    let syms = p0.symbols;
    assert(syms.len() == 1);
    let s = initial(g, reference);
    assert(s.stack =~= seq![p0]);
    assert(s.visited.no_duplicates());
    lemma_run_neutral(g, b, s, reference, syms);
}

/// A partial path under exploration.
pub struct PartialPath {
    pub node: NodeId,
    pub symbols: Vec<Symbol>,
    pub scopes: Vec<NodeId>,
    pub path: Vec<NodeId>,
}

impl View for PartialPath {
    type V = PathModel;

    open spec fn view(&self) -> PathModel {
        PathModel { node: self.node, symbols: self.symbols@, scopes: self.scopes@, path: self.path@ }
    }
}

/// A state that the search has expanded.
pub struct VisitKey {
    pub node: NodeId,
    pub symbols: Vec<Symbol>,
    pub scopes: Vec<NodeId>,
}

impl View for VisitKey {
    type V = (NodeId, Seq<Symbol>, Seq<NodeId>);

    open spec fn view(&self) -> (NodeId, Seq<Symbol>, Seq<NodeId>) {
        (self.node, self.symbols@, self.scopes@)
    }
}

/// The answer to a query.
pub struct Resolution {
    /// Each binding is the list of nodes from the reference to a definition.
    pub bindings: Vec<Vec<NodeId>>,
    /// False where a budget ran out before the search ended.
    pub complete: bool,
}

impl View for Resolution {
    type V = ResolutionModel;

    open spec fn view(&self) -> ResolutionModel {
        ResolutionModel {
            bindings: self.bindings@.map_values(|v: Vec<NodeId>| v@),
            complete: self.complete,
        }
    }
}

/// Every node that a path stands on or may jump to exists.
pub open spec fn path_ok(g: GraphModel, p: PathModel) -> bool {
    &&& g.has_node(p.node)
    &&& forall|i: int| 0 <= i < p.scopes.len() ==> g.has_node(#[trigger] p.scopes[i])
}

fn copy_vec<T: Copy>(v: &Vec<T>) -> (r: Vec<T>)
    ensures
        r@ == v@,
{
    let mut r: Vec<T> = Vec::new();
    let mut i: usize = 0;
    while i < v.len()
        invariant
            0 <= i <= v@.len(),
            r@ == v@.take(i as int),
        decreases v@.len() - i,
    {
        r.push(v[i]);
        i = i + 1;
        assert(r@ =~= v@.take(i as int));
    }
    assert(v@.take(i as int) =~= v@);
    r
}

fn same_symbols(a: &Vec<Symbol>, b: &Vec<Symbol>) -> (r: bool)
    ensures
        r == (a@ == b@),
{
    if a.len() != b.len() {
        return false;
    }
    let mut i: usize = 0;
    while i < a.len()
        invariant
            a@.len() == b@.len(),
            0 <= i <= a@.len(),
            forall|j: int| 0 <= j < i ==> a@[j] == b@[j],
        decreases a@.len() - i,
    {
        if a[i] != b[i] {
            return false;
        }
        i = i + 1;
    }
    assert(a@ =~= b@);
    true
}

fn same_nodes(a: &Vec<NodeId>, b: &Vec<NodeId>) -> (r: bool)
    ensures
        r == (a@ == b@),
{
    if a.len() != b.len() {
        return false;
    }
    let mut i: usize = 0;
    while i < a.len()
        invariant
            a@.len() == b@.len(),
            0 <= i <= a@.len(),
            forall|j: int| 0 <= j < i ==> a@[j] == b@[j],
        decreases a@.len() - i,
    {
        if a[i] != b[i] {
            return false;
        }
        i = i + 1;
    }
    assert(a@ =~= b@);
    true
}

proof fn lemma_stored_kind_ok(g: GraphModel, n: NodeId)
    requires
        g.wf(),
        g.has_node(n),
    ensures
        n is Local ==> g.kind_ok(g.node(n).kind),
        n is Root ==> g.node(n).kind is Root,
{
    if let NodeId::Local { file, local } = n {
        assert(g.kind_ok(g.nodes[file as int][local as int].kind));
    }
}

/// Extends `p` to node `n`, as `arrive` says.
pub fn extend_path(g: &GraphStore, p: &PartialPath, n: NodeId) -> (r: Option<PartialPath>)
    requires
        g.wf(),
        g@.wf(),
        g@.has_node(n),
        path_ok(g@, p@),
    ensures
        match r {
            Some(q) => arrive(g@, p@, n) == Some(q@) && path_ok(g@, q@),
            None => arrive(g@, p@, n) is None,
        },
{
    proof {
        lemma_stored_kind_ok(g@, n);
    }
    let node = match g.node(n) {
        Ok(x) => x,
        Err(_) => {
            return None;
        },
    };
    let mut path = copy_vec(&p.path);
    path.push(n);
    let mut symbols = copy_vec(&p.symbols);
    let mut scopes = copy_vec(&p.scopes);
    let ghost g0 = g@;
    match node.kind {
        NodeKind::PushSymbol { symbol } => {
            symbols.push(symbol);
        },
        NodeKind::PopSymbol { symbol } => {
            if symbols.len() > 0 && symbols[symbols.len() - 1] == symbol {
                symbols.pop();
            } else {
                return None;
            }
        },
        NodeKind::PushScopedSymbol { symbol, scope } => {
            symbols.push(symbol);
            scopes.push(scope);
        },
        NodeKind::PopScopedSymbol { symbol } => {
            if symbols.len() > 0 && symbols[symbols.len() - 1] == symbol {
                symbols.pop();
            } else {
                return None;
            }
        },
        NodeKind::DropScopes => {
            scopes = Vec::new();
        },
        NodeKind::JumpTo => {
            if scopes.len() > 0 {
                let top = scopes.pop().unwrap();
                path.push(top);
                let q = PartialPath { node: top, symbols, scopes, path };
                assert(q@.scopes =~= p@.scopes.drop_last());
                assert(q@.path =~= p@.path.push(n).push(p@.scopes.last()));
                assert(g@.has_node(p@.scopes[p@.scopes.len() - 1]));
                return Some(q);
            } else {
                return None;
            }
        },
        _ => {},
    }
    let q = PartialPath { node: n, symbols, scopes, path };
    proof {
        assert(q@.path =~= p@.path.push(n));
        match node.kind {
            NodeKind::PopSymbol { symbol } => {
                assert(q@.symbols =~= p@.symbols.drop_last());
            },
            NodeKind::PopScopedSymbol { symbol } => {
                assert(q@.symbols =~= p@.symbols.drop_last());
            },
            NodeKind::DropScopes => {
                assert(q@.scopes =~= Seq::<NodeId>::empty());
            },
            NodeKind::PushScopedSymbol { symbol, scope } => {
                assert forall|i: int| 0 <= i < q@.scopes.len() implies g@.has_node(
                    #[trigger] q@.scopes[i],
                ) by {
                    if i < p@.scopes.len() {
                        assert(q@.scopes[i] == p@.scopes[i]);
                    }
                }
            },
            _ => {},
        }
    }
    Some(q)
}

proof fn lemma_insert_desc_at(s: Seq<Edge>, e: Edge, k: int)
    requires
        0 <= k <= s.len(),
        forall|j: int| 0 <= j < k ==> s[j].precedence >= e.precedence,
        k < s.len() ==> s[k].precedence < e.precedence,
    ensures
        insert_desc(s, e) == s.insert(k, e),
    decreases k,
{
    if k == 0 {
        if s.len() == 0 {
            assert(s.insert(0, e) =~= seq![e]);
        } else {
            assert(s.insert(0, e) =~= seq![e] + s);
        }
    } else {
        let t = s.drop_first();
        assert forall|j: int| 0 <= j < k - 1 implies t[j].precedence >= e.precedence by {
            assert(t[j] == s[j + 1]);
        }
        lemma_insert_desc_at(t, e, k - 1);
        assert(seq![s[0]] + t.insert(k - 1, e) =~= s.insert(k, e));
    }
}

/// Inserts `e` after every edge of equal or higher precedence.
fn insert_by_precedence(v: &mut Vec<Edge>, e: Edge)
    ensures
        final(v)@ == insert_desc(old(v)@, e),
{
    let mut k: usize = 0;
    while k < v.len() && v[k].precedence >= e.precedence
        invariant
            0 <= k <= v@.len(),
            forall|j: int| 0 <= j < k ==> v@[j].precedence >= e.precedence,
        decreases v@.len() - k,
    {
        k = k + 1;
    }
    proof {
        lemma_insert_desc_at(v@, e, k as int);
    }
    v.insert(k, e);
}

/// The edges leaving `n`, by descending precedence, then in insertion order.
pub fn ordered_edges(g: &GraphStore, n: NodeId) -> (r: Vec<Edge>)
    ensures
        r@ == ordered_out(g@, n),
{
    let out = g.iter_edges(n);
    let mut r: Vec<Edge> = Vec::new();
    let mut i: usize = 0;
    while i < out.len()
        invariant
            0 <= i <= out@.len(),
            out@ == outgoing(g@.edges, n),
            r@ == sort_desc(out@.take(i as int)),
        decreases out@.len() - i,
    {
        assert(out@.take(i + 1).drop_last() =~= out@.take(i as int));
        insert_by_precedence(&mut r, out[i]);
        i = i + 1;
    }
    assert(out@.take(i as int) =~= out@);
    r
}

pub open spec fn sinks_ok(g: GraphModel, es: Seq<Edge>) -> bool {
    forall|i: int| 0 <= i < es.len() ==> g.has_node(#[trigger] es[i].sink)
}

proof fn lemma_outgoing_sinks(g: GraphModel, edges: Seq<Edge>, n: NodeId)
    requires
        sinks_ok(g, edges),
    ensures
        sinks_ok(g, outgoing(edges, n)),
    decreases edges.len(),
{
    if edges.len() > 0 {
        lemma_outgoing_sinks(g, edges.drop_last(), n);
        assert(g.has_node(edges[edges.len() - 1].sink));
    }
}

proof fn lemma_insert_desc_sinks(g: GraphModel, s: Seq<Edge>, e: Edge)
    requires
        sinks_ok(g, s),
        g.has_node(e.sink),
    ensures
        sinks_ok(g, insert_desc(s, e)),
    decreases s.len(),
{
    if s.len() > 0 && s[0].precedence >= e.precedence {
        lemma_insert_desc_sinks(g, s.drop_first(), e);
        assert(g.has_node(s[0].sink));
    }
}

proof fn lemma_sort_desc_sinks(g: GraphModel, s: Seq<Edge>)
    requires
        sinks_ok(g, s),
    ensures
        sinks_ok(g, sort_desc(s)),
    decreases s.len(),
{
    if s.len() > 0 {
        lemma_sort_desc_sinks(g, s.drop_last());
        assert(g.has_node(s[s.len() - 1].sink));
        lemma_insert_desc_sinks(g, sort_desc(s.drop_last()), s.last());
    }
}

fn visited_contains(visited: &Vec<VisitKey>, p: &PartialPath) -> (r: bool)
    ensures
        r == visited@.map_values(|k: VisitKey| k@).contains(key_of(p@)),
{
    let ghost keys = visited@.map_values(|k: VisitKey| k@);
    let mut i: usize = 0;
    while i < visited.len()
        invariant
            0 <= i <= visited@.len(),
            keys == visited@.map_values(|k: VisitKey| k@),
            forall|j: int| 0 <= j < i ==> keys[j] != key_of(p@),
        decreases visited@.len() - i,
    {
        let k = &visited[i];
        if k.node == p.node && same_symbols(&k.symbols, &p.symbols) && same_nodes(
            &k.scopes,
            &p.scopes,
        ) {
            assert(keys[i as int] == key_of(p@));
            return true;
        }
        i = i + 1;
    }
    assert(!keys.contains(key_of(p@))) by {
        if exists|j: int| 0 <= j < keys.len() && keys[j] == key_of(p@) {
            let j = choose|j: int| 0 <= j < keys.len() && keys[j] == key_of(p@);
        }
    }
    false
}

pub open spec fn paths_view(s: Seq<PartialPath>) -> Seq<PathModel> {
    s.map_values(|p: PartialPath| p@)
}

pub open spec fn search_view(
    stack: Seq<PartialPath>,
    visited: Seq<VisitKey>,
    found: Seq<Vec<NodeId>>,
) -> SearchModel {
    SearchModel {
        stack: paths_view(stack),
        visited: visited.map_values(|k: VisitKey| k@),
        found: found.map_values(|v: Vec<NodeId>| v@),
        incomplete: false,
    }
}

/// Resolves `reference`: a depth-first search that tries the edges of each
/// node by descending precedence, then in insertion order, never expands a
/// state (node and both stacks) twice, and stops, with the answer marked
/// incomplete, when it would expand more than `budget.max_states` states or
/// return more than `budget.max_bindings` bindings.
pub fn resolve(g: &GraphStore, reference: NodeId, budget: Budget) -> (r: Resolution)
    requires
        g.wf(),
    ensures
        r@ == resolution(g@, reference, budget),
{
    let never = || -> (c: bool)
        ensures
            !c,
        { false };
    match resolve_polled(g, reference, budget, &never) {
        Some(r) => r,
        None => {
            assert(false);
            Resolution { bindings: Vec::new(), complete: false }
        },
    }
}

/// `resolve`, polling `cancel` before each expansion step; `None` where it
/// asked to stop.
pub fn resolve_polled<F: Fn() -> bool>(g: &GraphStore, reference: NodeId, budget: Budget, cancel: &F) -> (r: Option<Resolution>)
    requires
        g.wf(),
        call_requires(*cancel, ()),
    ensures
        r matches Some(x) ==> x@ == resolution(g@, reference, budget),
        r is None ==> call_ensures(*cancel, (), true),
{
    proof {
        g.lemma_model_wf();
    }
    let ghost gm = g@;
    let ghost b = budget;
    let ghost init = initial(gm, reference);
    let mut stack: Vec<PartialPath> = Vec::new();
    if g.contains_node(reference) {
        let empty = PartialPath {
            node: reference,
            symbols: Vec::new(),
            scopes: Vec::new(),
            path: Vec::new(),
        };
        assert(empty@.symbols =~= Seq::<Symbol>::empty());
        assert(empty@.scopes =~= Seq::<NodeId>::empty());
        assert(empty@.path =~= Seq::<NodeId>::empty());
        match extend_path(g, &empty, reference) {
            Some(p) => {
                stack.push(p);
            },
            None => {},
        }
    }
    let mut visited: Vec<VisitKey> = Vec::new();
    let mut found: Vec<Vec<NodeId>> = Vec::new();
    let mut stopped = false;
    let ghost mut answer = init;
    proof {
        assert(search_view(stack@, visited@, found@) =~= init) by {
            assert(paths_view(stack@) =~= init.stack);
            assert(visited@.map_values(|k: VisitKey| k@) =~= init.visited);
            assert(found@.map_values(|v: Vec<NodeId>| v@) =~= init.found);
        }
    }
    while stack.len() > 0 && !stopped
        invariant
            call_requires(*cancel, ()),
            g.wf(),
            gm == g@,
            gm.wf(),
            b == budget,
            visited@.len() <= budget.max_states,
            forall|i: int| 0 <= i < stack@.len() ==> path_ok(gm, #[trigger] stack@[i]@),
            !stopped ==> run(gm, b, search_view(stack@, visited@, found@)) == run(gm, b, init),
            stopped ==> answer == run(gm, b, init) && answer.found == found@.map_values(
                |v: Vec<NodeId>| v@,
            ) && answer.incomplete,
        decreases budget.max_states - visited@.len(), stack@.len(),
    {
        if cancel() {
            return None;
        }
        let ghost s = search_view(stack@, visited@, found@);
        let p = stack.pop().unwrap();
        proof {
            assert(paths_view(stack@) =~= s.stack.drop_last());
            assert(s.stack.last() == p@);
        }
        if visited_contains(&visited, &p) {
            proof {
                assert(search_view(stack@, visited@, found@) =~= SearchModel {
                    stack: s.stack.drop_last(),
                    ..s
                });
            }
        } else if visited.len() == budget.max_states {
            stopped = true;
            proof {
                answer = SearchModel { incomplete: true, ..s };
            }
        } else {
            let node = match g.node(p.node) {
                Ok(x) => x,
                Err(_) => {
                    return Some(Resolution { bindings: found, complete: false });
                },
            };
            let binding = node.is_definition && p.symbols.len() == 0 && (
            budget.ignore_scope_stack || p.scopes.len() == 0);
            assert(binding == is_binding(gm, b, p@));
            if binding && found.len() >= budget.max_bindings {
                stopped = true;
                proof {
                    answer = SearchModel { incomplete: true, ..s };
                }
            } else {
                let ghost base = stack@;
                let ghost visited0 = visited@;
                let ghost found0 = found@;
                assert(visited0.map_values(|k: VisitKey| k@) == s.visited);
                assert(found0.map_values(|v: Vec<NodeId>| v@) == s.found);
                visited.push(
                    VisitKey {
                        node: p.node,
                        symbols: copy_vec(&p.symbols),
                        scopes: copy_vec(&p.scopes),
                    },
                );
                if binding {
                    found.push(copy_vec(&p.path));
                }
                let es = ordered_edges(g, p.node);
                proof {
                    assert(sinks_ok(gm, gm.edges)) by {
                        assert forall|i: int| 0 <= i < gm.edges.len() implies gm.has_node(
                            #[trigger] gm.edges[i].sink,
                        ) by {
                            assert(gm.has_node(gm.edges[i].source));
                        }
                    }
                    lemma_outgoing_sinks(gm, gm.edges, p@.node);
                    lemma_sort_desc_sinks(gm, outgoing(gm.edges, p@.node));
                }
                let mut j: usize = es.len();
                assert(es@.skip(j as int) =~= Seq::<Edge>::empty());
                assert(paths_view(stack@) =~= paths_view(base) + successors_rev(
                    gm,
                    p@,
                    es@.skip(j as int),
                ));
                while j > 0
                    invariant
                        g.wf(),
                        gm == g@,
                        gm.wf(),
                        path_ok(gm, p@),
                        0 <= j <= es@.len(),
                        es@ == ordered_out(gm, p@.node),
                        forall|i: int| 0 <= i < es@.len() ==> gm.has_node(#[trigger] es@[i].sink),
                        paths_view(stack@) == paths_view(base) + successors_rev(
                            gm,
                            p@,
                            es@.skip(j as int),
                        ),
                        forall|i: int| 0 <= i < stack@.len() ==> path_ok(gm, #[trigger] stack@[i]@),
                    decreases j,
                {
                    j = j - 1;
                    assert(es@.skip(j as int).drop_first() =~= es@.skip(j + 1));
                    assert(es@.skip(j as int)[0] == es@[j as int]);
                    match extend_path(g, &p, es[j].sink) {
                        Some(q) => {
                            let ghost before = stack@;
                            stack.push(q);
                            assert(paths_view(stack@) =~= paths_view(before).push(q@));
                        },
                        None => {},
                    }
                }
                proof {
                    assert(es@.skip(0) =~= es@);
                    assert(visited@.map_values(|k: VisitKey| k@) =~= s.visited.push(key_of(p@)));
                    if binding {
                        assert(found@.map_values(|v: Vec<NodeId>| v@) =~= s.found.push(p@.path));
                    } else {
                        assert(found@.map_values(|v: Vec<NodeId>| v@) =~= s.found);
                    }
                    assert(search_view(stack@, visited@, found@) =~= SearchModel {
                        stack: s.stack.drop_last() + successors_rev(
                            gm,
                            p@,
                            ordered_out(gm, p@.node),
                        ),
                        visited: s.visited.push(key_of(p@)),
                        found: if is_binding(gm, b, p@) {
                            s.found.push(p@.path)
                        } else {
                            s.found
                        },
                        incomplete: false,
                    });
                }
            }
        }
    }
    Some(Resolution { bindings: found, complete: !stopped })
}

} // verus!
