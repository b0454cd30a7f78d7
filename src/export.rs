//! A deterministic DOT rendering of a store: a fixed preamble, one statement
//! per node in store order, then one per edge in store order.

use vstd::prelude::*;
use vstd::string::StringExecFns;
use crate::graph::{Edge, GraphModel, GraphStore, Node, NodeId, NodeKind, outgoing};
use vstd::string::StrSliceExecFns;

verus! {

pub open spec fn digit_char(d: nat) -> char {
    if d == 0 {
        '0'
    } else if d == 1 {
        '1'
    } else if d == 2 {
        '2'
    } else if d == 3 {
        '3'
    } else if d == 4 {
        '4'
    } else if d == 5 {
        '5'
    } else if d == 6 {
        '6'
    } else if d == 7 {
        '7'
    } else if d == 8 {
        '8'
    } else {
        '9'
    }
}

/// The decimal digits of `n`, most significant first.
pub open spec fn decimal(n: nat) -> Seq<char>
    decreases n,
{
    if n < 10 {
        seq![digit_char(n)]
    } else {
        decimal(n / 10).push(digit_char(n % 10))
    }
}

/// `root` for the root, `<file>:<local>` for any other node.
pub open spec fn id_text(id: NodeId) -> Seq<char> {
    match id {
        NodeId::Root => "root"@,
        NodeId::Local { file, local } => decimal(file as nat) + ":"@ + decimal(local as nat),
    }
}

/// The fill colour of each kind of node.
pub open spec fn color(k: NodeKind) -> Seq<char> {
    match k {
        NodeKind::Scope { .. } => "lightblue"@,
        NodeKind::PushSymbol { .. } => "lightgreen"@,
        NodeKind::PopSymbol { .. } => "lightpink"@,
        NodeKind::PushScopedSymbol { .. } => "lightgreen"@,
        NodeKind::PopScopedSymbol { .. } => "lightpink"@,
        NodeKind::DropScopes => "yellow"@,
        NodeKind::JumpTo => "orange"@,
        NodeKind::Root => "purple"@,
    }
}

/// A character as it stands inside a quoted DOT string.
pub open spec fn escape_char(c: char) -> Seq<char> {
    if c == '"' {
        seq!['\\', '"']
    } else if c == '\\' {
        seq!['\\', '\\']
    } else if c == '\n' {
        seq!['\\', 'n']
    } else {
        seq![c]
    }
}

/// A text as it stands inside a quoted DOT string.
pub open spec fn escaped(s: Seq<char>) -> Seq<char>
    decreases s.len(),
{
    if s.len() == 0 {
        Seq::empty()
    } else {
        escaped(s.drop_last()) + escape_char(s.last())
    }
}

/// A short description of a node: its kind, its symbol, and whether it is a definition.
pub open spec fn label(g: GraphModel, n: Node) -> Seq<char> {
    let base = match n.kind {
        NodeKind::Root => "root"@,
        NodeKind::Scope { is_exported } => if is_exported {
            "exported scope"@
        } else {
            "scope"@
        },
        NodeKind::PushSymbol { symbol } => "push "@ + escaped(g.symbols[symbol.index as int]),
        NodeKind::PopSymbol { symbol } => "pop "@ + escaped(g.symbols[symbol.index as int]),
        NodeKind::PushScopedSymbol { symbol, .. } => "push scoped "@ + escaped(g.symbols[symbol.index as int]),
        NodeKind::PopScopedSymbol { symbol } => "pop scoped "@ + escaped(g.symbols[symbol.index as int]),
        NodeKind::DropScopes => "drop scopes"@,
        NodeKind::JumpTo => "jump to scope"@,
    };
    if n.is_definition {
        base + " definition"@
    } else {
        base
    }
}

pub open spec fn node_line(g: GraphModel, id: NodeId) -> Seq<char> {
    "    \""@ + id_text(id) + "\" [fillcolor=\""@ + color(g.node(id).kind)
        + "\", style=\"filled\", label=\""@ + label(g, g.node(id)) + "\"];\n"@
}

pub open spec fn edge_line(e: Edge) -> Seq<char> {
    "    \""@ + id_text(e.source) + "\" -> \""@ + id_text(e.sink) + "\";\n"@
}

pub open spec fn node_lines(g: GraphModel, ids: Seq<NodeId>) -> Seq<char>
    decreases ids.len(),
{
    if ids.len() == 0 {
        Seq::empty()
    } else {
        node_lines(g, ids.drop_last()) + node_line(g, ids.last())
    }
}

pub open spec fn edge_lines(es: Seq<Edge>) -> Seq<char>
    decreases es.len(),
{
    if es.len() == 0 {
        Seq::empty()
    } else {
        edge_lines(es.drop_last()) + edge_line(es.last())
    }
}

/// The lines of the edges that leave each of `ids`, node by node.
pub open spec fn node_edge_lines(g: GraphModel, ids: Seq<NodeId>) -> Seq<char>
    decreases ids.len(),
{
    if ids.len() == 0 {
        Seq::empty()
    } else {
        node_edge_lines(g, ids.drop_last()) + edge_lines(outgoing(g.edges, ids.last()))
    }
}

pub open spec fn preamble() -> Seq<char> {
    "digraph StackGraph {\n    // Graph attributes\n    graph [rankdir=LR];\n    node [shape=box, style=rounded];\n\n    // Nodes\n"@
}

pub open spec fn edges_header() -> Seq<char> {
    "\n    // Edges\n"@
}

/// The whole DOT text of a store: the preamble, a line per node in store
/// order, then the edges that leave the root, then those that leave each
/// node in store order, each group in insertion order.
pub open spec fn dot(g: GraphModel) -> Seq<char> {
    preamble() + node_lines(g, g.order) + edges_header() + edge_lines(outgoing(g.edges, NodeId::Root))
        + node_edge_lines(g, g.order) + "}\n"@
}

/// The number of line ends in `s`.
pub open spec fn newlines(s: Seq<char>) -> nat
    decreases s.len(),
{
    if s.len() == 0 {
        0
    } else {
        newlines(s.drop_last()) + if s.last() == '\n' {
            1nat
        } else {
            0nat
        }
    }
}

proof fn lemma_newlines_concat(a: Seq<char>, b: Seq<char>)
    ensures
        newlines(a + b) == newlines(a) + newlines(b),
    decreases b.len(),
{
    if b.len() == 0 {
        assert(a + b =~= a);
    } else {
        assert((a + b).drop_last() =~= a + b.drop_last());
        lemma_newlines_concat(a, b.drop_last());
    }
}

pub open spec fn single_line(s: Seq<char>) -> bool {
    forall|i: int| 0 <= i < s.len() ==> s[i] != '\n'
}

proof fn lemma_single_line(s: Seq<char>)
    requires
        single_line(s),
    ensures
        newlines(s) == 0,
    decreases s.len(),
{
    if s.len() > 0 {
        lemma_single_line(s.drop_last());
    }
}

proof fn lemma_decimal_single_line(n: nat)
    ensures
        single_line(decimal(n)),
    decreases n,
{
    if n >= 10 {
        lemma_decimal_single_line(n / 10);
    }
}

proof fn lemma_escaped_single_line(s: Seq<char>)
    ensures
        single_line(escaped(s)),
    decreases s.len(),
{
    if s.len() > 0 {
        lemma_escaped_single_line(s.drop_last());
        let a = escaped(s.drop_last());
        let b = escape_char(s.last());
        assert forall|i: int| 0 <= i < (a + b).len() implies (a + b)[i] != '\n' by {
            if i >= a.len() {
                assert((a + b)[i] == b[i - a.len()]);
            }
        }
    }
}

proof fn lemma_concat_single_line(a: Seq<char>, b: Seq<char>)
    requires
        single_line(a),
        single_line(b),
    ensures
        single_line(a + b),
{
    assert forall|i: int| 0 <= i < (a + b).len() implies (a + b)[i] != '\n' by {
        if i >= a.len() {
            assert((a + b)[i] == b[i - a.len()]);
        }
    }
}

proof fn lemma_id_single_line(id: NodeId)
    ensures
        single_line(id_text(id)),
{
    reveal_strlit("root");
    reveal_strlit(":");
    match id {
        NodeId::Root => {},
        NodeId::Local { file, local } => {
            lemma_decimal_single_line(file as nat);
            lemma_decimal_single_line(local as nat);
            lemma_concat_single_line(decimal(file as nat), ":"@);
            lemma_concat_single_line(decimal(file as nat) + ":"@, decimal(local as nat));
        },
    }
}

proof fn lemma_color_single_line(k: NodeKind)
    ensures
        single_line(color(k)),
{
    reveal_strlit("lightblue");
    reveal_strlit("lightgreen");
    reveal_strlit("lightpink");
    reveal_strlit("yellow");
    reveal_strlit("orange");
    reveal_strlit("purple");
}

proof fn lemma_label_single_line(g: GraphModel, n: Node)
    ensures
        single_line(label(g, n)),
{
    reveal_strlit("root");
    reveal_strlit("exported scope");
    reveal_strlit("scope");
    reveal_strlit("push ");
    reveal_strlit("pop ");
    reveal_strlit("push scoped ");
    reveal_strlit("pop scoped ");
    reveal_strlit("drop scopes");
    reveal_strlit("jump to scope");
    reveal_strlit(" definition");
    let base = match n.kind {
        NodeKind::Root => "root"@,
        NodeKind::Scope { is_exported } => if is_exported {
            "exported scope"@
        } else {
            "scope"@
        },
        NodeKind::PushSymbol { symbol } => "push "@ + escaped(g.symbols[symbol.index as int]),
        NodeKind::PopSymbol { symbol } => "pop "@ + escaped(g.symbols[symbol.index as int]),
        NodeKind::PushScopedSymbol { symbol, .. } => "push scoped "@ + escaped(g.symbols[symbol.index as int]),
        NodeKind::PopScopedSymbol { symbol } => "pop scoped "@ + escaped(g.symbols[symbol.index as int]),
        NodeKind::DropScopes => "drop scopes"@,
        NodeKind::JumpTo => "jump to scope"@,
    };
    match n.kind {
        NodeKind::PushSymbol { symbol } => {
            lemma_escaped_single_line(g.symbols[symbol.index as int]);
            lemma_concat_single_line("push "@, escaped(g.symbols[symbol.index as int]));
        },
        NodeKind::PopSymbol { symbol } => {
            lemma_escaped_single_line(g.symbols[symbol.index as int]);
            lemma_concat_single_line("pop "@, escaped(g.symbols[symbol.index as int]));
        },
        NodeKind::PushScopedSymbol { symbol, .. } => {
            lemma_escaped_single_line(g.symbols[symbol.index as int]);
            lemma_concat_single_line("push scoped "@, escaped(g.symbols[symbol.index as int]));
        },
        NodeKind::PopScopedSymbol { symbol } => {
            lemma_escaped_single_line(g.symbols[symbol.index as int]);
            lemma_concat_single_line("pop scoped "@, escaped(g.symbols[symbol.index as int]));
        },
        _ => {},
    }
    assert(single_line(base));
    if n.is_definition {
        lemma_concat_single_line(base, " definition"@);
    }
}

proof fn lemma_node_line_newlines(g: GraphModel, id: NodeId)
    ensures
        newlines(node_line(g, id)) == 1,
{
    let p1 = "    \""@;
    let p2 = "\" [fillcolor=\""@;
    let p3 = "\", style=\"filled\", label=\""@;
    let p4 = "\"];\n"@;
    reveal_strlit("    \"");
    reveal_strlit("\" [fillcolor=\"");
    reveal_strlit("\", style=\"filled\", label=\"");
    reveal_strlit("\"];\n");
    lemma_id_single_line(id);
    lemma_color_single_line(g.node(id).kind);
    lemma_label_single_line(g, g.node(id));
    let body = p1 + id_text(id) + p2 + color(g.node(id).kind) + p3 + label(g, g.node(id));
    lemma_concat_single_line(p1, id_text(id));
    lemma_concat_single_line(p1 + id_text(id), p2);
    lemma_concat_single_line(p1 + id_text(id) + p2, color(g.node(id).kind));
    lemma_concat_single_line(p1 + id_text(id) + p2 + color(g.node(id).kind), p3);
    lemma_concat_single_line(p1 + id_text(id) + p2 + color(g.node(id).kind) + p3, label(g, g.node(id)));
    lemma_single_line(body);
    assert(p4.drop_last() =~= seq!['"', ']', ';']);
    lemma_single_line(p4.drop_last());
    lemma_newlines_concat(body, p4);
}

proof fn lemma_node_lines_newlines(g: GraphModel, ids: Seq<NodeId>)
    ensures
        newlines(node_lines(g, ids)) == ids.len(),
    decreases ids.len(),
{
    if ids.len() > 0 {
        lemma_node_lines_newlines(g, ids.drop_last());
        lemma_node_line_newlines(g, ids.last());
        lemma_newlines_concat(node_lines(g, ids.drop_last()), node_line(g, ids.last()));
    }
}

/// The node section of the DOT text has exactly one line per entry of the
/// node list: labels are escaped, so no node's line breaks in two.
pub proof fn law_one_line_per_node(g: GraphModel)
    ensures
        newlines(node_lines(g, g.order)) == g.order.len(),
{
    lemma_node_lines_newlines(g, g.order);
}

/// Relies on `String::push`, which appends one character.
#[verifier::external_body]
fn push_char(s: &mut String, c: char)
    ensures
        final(s)@ == old(s)@.push(c),
{
    s.push(c)
}

fn digit(d: usize) -> (r: char)
    requires
        d < 10,
    ensures
        r == digit_char(d as nat),
{
    if d == 0 {
        '0'
    } else if d == 1 {
        '1'
    } else if d == 2 {
        '2'
    } else if d == 3 {
        '3'
    } else if d == 4 {
        '4'
    } else if d == 5 {
        '5'
    } else if d == 6 {
        '6'
    } else if d == 7 {
        '7'
    } else if d == 8 {
        '8'
    } else {
        '9'
    }
}

fn push_decimal(s: &mut String, n: usize)
    ensures
        final(s)@ == old(s)@ + decimal(n as nat),
    decreases n,
{
    if n >= 10 {
        push_decimal(s, n / 10);
    }
    push_char(s, digit(n % 10));
    assert(s@ =~= old(s)@ + decimal(n as nat));
}

fn push_id(s: &mut String, id: NodeId)
    ensures
        final(s)@ == old(s)@ + id_text(id),
{
    match id {
        NodeId::Root => {
            s.append("root");
        },
        NodeId::Local { file, local } => {
            push_decimal(s, file);
            s.append(":");
            push_decimal(s, local);
        },
    }
    assert(s@ =~= old(s)@ + id_text(id));
}

/// The fill colour of a node kind.
pub fn node_color(k: NodeKind) -> (r: &'static str)
    ensures
        r@ == color(k),
{
    match k {
        NodeKind::Scope { .. } => "lightblue",
        NodeKind::PushSymbol { .. } => "lightgreen",
        NodeKind::PopSymbol { .. } => "lightpink",
        NodeKind::PushScopedSymbol { .. } => "lightgreen",
        NodeKind::PopScopedSymbol { .. } => "lightpink",
        NodeKind::DropScopes => "yellow",
        NodeKind::JumpTo => "orange",
        NodeKind::Root => "purple",
    }
}

fn push_escaped(s: &mut String, text: &str)
    ensures
        final(s)@ == old(s)@ + escaped(text@),
{
    let n = text.unicode_len();
    let mut i: usize = 0;
    while i < n
        invariant
            n == text@.len(),
            0 <= i <= n,
            s@ == old(s)@ + escaped(text@.take(i as int)),
        decreases n - i,
    {
        let c = text.get_char(i);
        let ghost before = s@;
        if c == '"' {
            s.append("\\\"");
        } else if c == '\\' {
            s.append("\\\\");
        } else if c == '\n' {
            s.append("\\n");
        } else {
            push_char(s, c);
        }
        proof {
            reveal_strlit("\\\"");
            reveal_strlit("\\\\");
            reveal_strlit("\\n");
            assert(text@.take(i + 1).drop_last() =~= text@.take(i as int));
            assert(s@ =~= before + escape_char(c));
        }
        i = i + 1;
    }
    assert(text@.take(i as int) =~= text@);
}

fn push_label(s: &mut String, g: &GraphStore, n: Node)
    requires
        g.wf(),
        g@.kind_ok(n.kind) || n.kind is Root,
    ensures
        final(s)@ == old(s)@ + label(g@, n),
{
    match n.kind {
        NodeKind::Root => {
            s.append("root");
        },
        NodeKind::Scope { is_exported } => {
            if is_exported {
                s.append("exported scope");
            } else {
                s.append("scope");
            }
        },
        NodeKind::PushSymbol { symbol } => {
            s.append("push ");
            push_escaped(s, g.symbol_text(symbol).as_str());
        },
        NodeKind::PopSymbol { symbol } => {
            s.append("pop ");
            push_escaped(s, g.symbol_text(symbol).as_str());
        },
        NodeKind::PushScopedSymbol { symbol, .. } => {
            s.append("push scoped ");
            push_escaped(s, g.symbol_text(symbol).as_str());
        },
        NodeKind::PopScopedSymbol { symbol } => {
            s.append("pop scoped ");
            push_escaped(s, g.symbol_text(symbol).as_str());
        },
        NodeKind::DropScopes => {
            s.append("drop scopes");
        },
        NodeKind::JumpTo => {
            s.append("jump to scope");
        },
    }
    if n.is_definition {
        s.append(" definition");
    }
    assert(s@ =~= old(s)@ + label(g@, n));
}

fn push_edge_lines(r: &mut String, es: &Vec<Edge>)
    ensures
        final(r)@ == old(r)@ + edge_lines(es@),
{
    let mut j: usize = 0;
    assert(r@ =~= old(r)@ + edge_lines(es@.take(0)));
    while j < es.len()
        invariant
            0 <= j <= es@.len(),
            r@ == old(r)@ + edge_lines(es@.take(j as int)),
        decreases es@.len() - j,
    {
        let e = es[j];
        let ghost before = r@;
        r.append("    \"");
        push_id(r, e.source);
        r.append("\" -> \"");
        push_id(r, e.sink);
        r.append("\";\n");
        assert(es@.take(j + 1).drop_last() =~= es@.take(j as int));
        assert(r@ =~= before + edge_line(e));
        j = j + 1;
    }
    assert(es@.take(j as int) =~= es@);
}

/// Renders the store as DOT text.
pub fn to_dot(g: &GraphStore) -> (r: String)
    requires
        g.wf(),
    ensures
        r@ == dot(g@),
{
    proof {
        g.lemma_model_wf();
    }
    let mut r = String::new();
    r.append(
        "digraph StackGraph {\n    // Graph attributes\n    graph [rankdir=LR];\n    node [shape=box, style=rounded];\n\n    // Nodes\n",
    );
    let order = g.iter_nodes();
    let mut i: usize = 0;
    assert(r@ =~= preamble() + node_lines(g@, order@.take(0)));
    while i < order.len()
        invariant
            g.wf(),
            g@.wf(),
            order@ == g@.order,
            0 <= i <= order@.len(),
            r@ == preamble() + node_lines(g@, order@.take(i as int)),
        decreases order@.len() - i,
    {
        let id = order[i];
        assert(g@.has_node(g@.order[i as int]));
        let node = match g.node(id) {
            Ok(x) => x,
            Err(_) => {
                return r;
            },
        };
        if let NodeId::Local { file, local } = id {
            assert(g@.kind_ok(g@.nodes[file as int][local as int].kind));
        }
        let ghost before = r@;
        r.append("    \"");
        push_id(&mut r, id);
        r.append("\" [fillcolor=\"");
        r.append(node_color(node.kind));
        r.append("\", style=\"filled\", label=\"");
        push_label(&mut r, g, node);
        r.append("\"];\n");
        assert(order@.take(i + 1).drop_last() =~= order@.take(i as int));
        assert(r@ =~= before + node_line(g@, id));
        i = i + 1;
    }
    assert(order@.take(i as int) =~= order@);
    r.append("\n    // Edges\n");
    let root_edges = g.iter_edges(NodeId::Root);
    push_edge_lines(&mut r, &root_edges);
    let ghost head = r@;
    let mut j: usize = 0;
    assert(r@ =~= head + node_edge_lines(g@, order@.take(0)));
    while j < order.len()
        invariant
            order@ == g@.order,
            0 <= j <= order@.len(),
            r@ == head + node_edge_lines(g@, order@.take(j as int)),
        decreases order@.len() - j,
    {
        let out = g.iter_edges(order[j]);
        push_edge_lines(&mut r, &out);
        assert(order@.take(j + 1).drop_last() =~= order@.take(j as int));
        j = j + 1;
    }
    assert(order@.take(j as int) =~= order@);
    r.append("}\n");
    assert(r@ =~= dot(g@));
    r
}

} // verus!
