//! The rule-driven builder: walks a syntax tree in preorder, matches each
//! rule's pattern at each tree node, runs the rule's program on a match, and
//! commits what the programs emitted for one file all at once.

use vstd::prelude::*;
use vstd::string::StrSliceExecFns;
use crate::graph::{
    Edge, FileId, GraphModel, GraphStore, Node, NodeId, NodeKind, Symbol, attributes_view,
};

verus! {

/// One node of a syntax tree. `start..end` is a range of characters of the source.
pub struct TreeNode {
    pub kind: String,
    /// The name under which the parent holds this node, if any.
    pub field: Option<String>,
    /// The parent's index in the tree's node list.
    pub parent: Option<usize>,
    pub start: usize,
    pub end: usize,
}

/// A syntax tree as a list of nodes in preorder, with the text they cover.
pub struct SyntaxTree {
    pub source: String,
    pub nodes: Vec<TreeNode>,
}

/// A child that a pattern asks for: its field name, if any, and its kind.
pub struct ChildPattern {
    pub field: Option<String>,
    pub kind: String,
}

/// A node of the given kind with a child for each child pattern. Capture 0
/// is the node itself; capture `k + 1` is the first child that fits child pattern `k`.
pub struct Pattern {
    pub kind: String,
    pub children: Vec<ChildPattern>,
}

/// A node named by a rule's program.
#[derive(Clone, Copy, Debug, PartialEq, Eq, Structural)]
pub enum NodeRef {
    Root,
    /// The node created by the `slot`-th node instruction of this match.
    Slot { slot: usize },
    /// The node created by the `slot`-th node instruction of the latest match
    /// of rule `rule` at this tree node or at one of its ancestors.
    Enclosing { rule: usize, slot: usize },
}

/// The node that a node instruction creates; symbols come from captures.
#[derive(Clone, Copy, Debug, PartialEq, Eq, Structural)]
pub enum NodeTemplate {
    Scope { is_exported: bool },
    PushSymbol { capture: usize },
    PopSymbol { capture: usize },
    PushScopedSymbol { capture: usize, scope: NodeRef },
    PopScopedSymbol { capture: usize },
    DropScopes,
    JumpTo,
}

pub enum Instruction {
    CreateNode { template: NodeTemplate, is_definition: bool },
    CreateEdge { source: NodeRef, sink: NodeRef, precedence: i32 },
    /// Gives the node of `slot` the attribute `name`, valued with the text of `capture`.
    SetAttribute { slot: usize, name: String, capture: usize },
}

pub struct Rule {
    pub pattern: Pattern,
    pub program: Vec<Instruction>,
}

/// A compiled rule plan: rules are tried in order at each tree node.
pub struct RulePlan {
    pub rules: Vec<Rule>,
}

#[derive(Clone, Copy, Debug, PartialEq, Eq, Structural)]
pub enum BuildCause {
    /// A slot names no node of its match.
    BadSlot,
    /// A capture index is beyond the pattern's captures.
    BadCapture,
    /// A captured node's range does not lie within the source.
    BadRange,
    /// No enclosing match of the named rule exists.
    NoEnclosingMatch,
}

#[derive(Clone, Copy, Debug, PartialEq, Eq, Structural)]
pub enum BuildError {
    InvalidRulePlan,
    BuildFailed { file: FileId, cause: BuildCause },
    Cancelled,
}

/// A node named during staging: the root, or the `index`-th staged node.
#[derive(Clone, Copy, Debug, PartialEq, Eq, Structural)]
pub enum StagedRef {
    Root,
    Staged { index: usize },
}

/// A staged node; `text` is the tree node whose text is the symbol.
#[derive(Clone, Copy, Debug, PartialEq, Eq, Structural)]
pub enum StagedKind {
    Scope { is_exported: bool },
    PushSymbol { text: usize },
    PopSymbol { text: usize },
    PushScopedSymbol { text: usize, scope: StagedRef },
    PopScopedSymbol { text: usize },
    DropScopes,
    JumpTo,
}

#[derive(Clone, Copy, Debug, PartialEq, Eq, Structural)]
pub struct StagedNode {
    pub kind: StagedKind,
    pub is_definition: bool,
}

#[derive(Clone, Copy, Debug, PartialEq, Eq, Structural)]
pub struct StagedEdge {
    pub source: StagedRef,
    pub sink: StagedRef,
    pub precedence: i32,
}

/// An attribute of staged node `node`, set by instruction `instr` of rule
/// `rule`, valued with the text of tree node `text`.
#[derive(Clone, Copy, Debug, PartialEq, Eq, Structural)]
pub struct StagedAttr {
    pub node: usize,
    pub rule: usize,
    pub instr: usize,
    pub text: usize,
}

/// The nodes `first..first + count` were created by rule `rule` at `tree_node`.
#[derive(Clone, Copy, Debug, PartialEq, Eq, Structural)]
pub struct MatchRecord {
    pub tree_node: usize,
    pub rule: usize,
    pub first: usize,
    pub count: usize,
}

/// What the programs have emitted so far for one file.
pub struct Stage {
    pub nodes: Seq<StagedNode>,
    pub edges: Seq<StagedEdge>,
    pub attrs: Seq<StagedAttr>,
    pub records: Seq<MatchRecord>,
}

pub open spec fn empty_stage() -> Stage {
    Stage { nodes: Seq::empty(), edges: Seq::empty(), attrs: Seq::empty(), records: Seq::empty() }
}

pub open spec fn field_fits(n: TreeNode, cp: ChildPattern) -> bool {
    match cp.field {
        None => true,
        Some(f) => match n.field {
            Some(g) => g@ == f@,
            None => false,
        },
    }
}

pub open spec fn child_fits(t: SyntaxTree, i: int, j: int, cp: ChildPattern) -> bool {
    &&& t.nodes@[j].parent == Some(i as usize)
    &&& t.nodes@[j].kind@ == cp.kind@
    &&& field_fits(t.nodes@[j], cp)
}

/// The first node at or after `j` that is a child of `i` fitting `cp`.
pub open spec fn first_child_from(t: SyntaxTree, i: int, cp: ChildPattern, j: int) -> Option<usize>
    decreases t.nodes@.len() - j,
{
    if j < 0 || j >= t.nodes@.len() {
        None
    } else if child_fits(t, i, j, cp) {
        Some(j as usize)
    } else {
        first_child_from(t, i, cp, j + 1)
    }
}

pub open spec fn child_captures(t: SyntaxTree, i: int, cps: Seq<ChildPattern>, k: int) -> Option<
    Seq<usize>,
>
    decreases cps.len() - k,
{
    if k < 0 || k >= cps.len() {
        Some(Seq::empty())
    } else {
        match first_child_from(t, i, cps[k], 0) {
            None => None,
            Some(j) => match child_captures(t, i, cps, k + 1) {
                None => None,
                Some(rest) => Some(seq![j] + rest),
            },
        }
    }
}

/// The captures of `pat` at tree node `i`, if it matches there.
pub open spec fn captures_of(t: SyntaxTree, i: int, pat: Pattern) -> Option<Seq<usize>> {
    if t.nodes@[i].kind@ != pat.kind@ {
        None
    } else {
        match child_captures(t, i, pat.children@, 0) {
            None => None,
            Some(cs) => Some(seq![i as usize] + cs),
        }
    }
}

/// Whether tree node `a` is `i` or one of its ancestors.
pub open spec fn ancestor_or_self(t: SyntaxTree, a: int, i: int) -> bool
    decreases i,
{
    if i < 0 || i >= t.nodes@.len() {
        false
    } else if i == a {
        true
    } else {
        match t.nodes@[i].parent {
            Some(p) => p < i && ancestor_or_self(t, a, p as int),
            None => false,
        }
    }
}

/// The latest of the first `k` records that is of `rule` and encloses tree node `i`.
pub open spec fn find_record(t: SyntaxTree, recs: Seq<MatchRecord>, rule: usize, i: int, k: int) -> Option<
    MatchRecord,
>
    decreases k,
{
    if k <= 0 || k > recs.len() {
        None
    } else if recs[k - 1].rule == rule && ancestor_or_self(t, recs[k - 1].tree_node as int, i) {
        Some(recs[k - 1])
    } else {
        find_record(t, recs, rule, i, k - 1)
    }
}

pub open spec fn text_ok(t: SyntaxTree, j: int) -> bool {
    0 <= j < t.nodes@.len() && t.nodes@[j].start <= t.nodes@[j].end <= t.source@.len()
}

/// The source text under tree node `j`.
pub open spec fn text_of(t: SyntaxTree, j: int) -> Seq<char> {
    t.source@.subrange(t.nodes@[j].start as int, t.nodes@[j].end as int)
}

/// The tree node of capture `c`, which must have a text.
pub open spec fn capture_node(t: SyntaxTree, caps: Seq<usize>, c: usize) -> Result<usize, BuildCause> {
    if c >= caps.len() {
        Err(BuildCause::BadCapture)
    } else if !text_ok(t, caps[c as int] as int) {
        Err(BuildCause::BadRange)
    } else {
        Ok(caps[c as int])
    }
}

/// The staged node that `r` names, in a match at tree node `i` whose first node is `first`.
pub open spec fn ref_target(t: SyntaxTree, s: Stage, i: int, first: int, r: NodeRef) -> Result<
    StagedRef,
    BuildCause,
> {
    match r {
        NodeRef::Root => Ok(StagedRef::Root),
        NodeRef::Slot { slot } => if first + slot < s.nodes.len() {
            Ok(StagedRef::Staged { index: (first + slot) as usize })
        } else {
            Err(BuildCause::BadSlot)
        },
        NodeRef::Enclosing { rule, slot } => match find_record(
            t,
            s.records,
            rule,
            i,
            s.records.len() as int,
        ) {
            None => Err(BuildCause::NoEnclosingMatch),
            Some(rec) => if slot < rec.count {
                Ok(StagedRef::Staged { index: (rec.first + slot) as usize })
            } else {
                Err(BuildCause::BadSlot)
            },
        },
    }
}

pub open spec fn staged_kind(t: SyntaxTree, s: Stage, i: int, first: int, caps: Seq<usize>, k: NodeTemplate) -> Result<
    StagedKind,
    BuildCause,
> {
    match k {
        NodeTemplate::Scope { is_exported } => Ok(StagedKind::Scope { is_exported }),
        NodeTemplate::PushSymbol { capture } => match capture_node(t, caps, capture) {
            Ok(j) => Ok(StagedKind::PushSymbol { text: j }),
            Err(e) => Err(e),
        },
        NodeTemplate::PopSymbol { capture } => match capture_node(t, caps, capture) {
            Ok(j) => Ok(StagedKind::PopSymbol { text: j }),
            Err(e) => Err(e),
        },
        NodeTemplate::PushScopedSymbol { capture, scope } => match capture_node(t, caps, capture) {
            Ok(j) => match ref_target(t, s, i, first, scope) {
                Ok(r) => Ok(StagedKind::PushScopedSymbol { text: j, scope: r }),
                Err(e) => Err(e),
            },
            Err(e) => Err(e),
        },
        NodeTemplate::PopScopedSymbol { capture } => match capture_node(t, caps, capture) {
            Ok(j) => Ok(StagedKind::PopScopedSymbol { text: j }),
            Err(e) => Err(e),
        },
        NodeTemplate::DropScopes => Ok(StagedKind::DropScopes),
        NodeTemplate::JumpTo => Ok(StagedKind::JumpTo),
    }
}

/// One instruction `k` of rule `r`, run at tree node `i` with captures `caps`.
pub open spec fn step(
    t: SyntaxTree,
    s: Stage,
    i: int,
    r: int,
    k: int,
    first: int,
    caps: Seq<usize>,
    ins: Instruction,
) -> Result<Stage, BuildCause> {
    match ins {
        Instruction::CreateNode { template, is_definition } => match staged_kind(
            t,
            s,
            i,
            first,
            caps,
            template,
        ) {
            Ok(kind) => Ok(Stage { nodes: s.nodes.push(StagedNode { kind, is_definition }), ..s }),
            Err(e) => Err(e),
        },
        Instruction::CreateEdge { source, sink, precedence } => match ref_target(
            t,
            s,
            i,
            first,
            source,
        ) {
            Ok(a) => match ref_target(t, s, i, first, sink) {
                Ok(b) => Ok(
                    Stage { edges: s.edges.push(StagedEdge { source: a, sink: b, precedence }), ..s },
                ),
                Err(e) => Err(e),
            },
            Err(e) => Err(e),
        },
        Instruction::SetAttribute { slot, name, capture } => if first + slot < s.nodes.len() {
            match capture_node(t, caps, capture) {
                Ok(j) => Ok(
                    Stage {
                        attrs: s.attrs.push(
                            StagedAttr {
                                node: (first + slot) as usize,
                                rule: r as usize,
                                instr: k as usize,
                                text: j,
                            },
                        ),
                        ..s
                    },
                ),
                Err(e) => Err(e),
            }
        } else {
            Err(BuildCause::BadSlot)
        },
    }
}

/// The instructions of rule `r` from the `k`-th on.
pub open spec fn run_program(
    t: SyntaxTree,
    plan: RulePlan,
    s: Stage,
    i: int,
    r: int,
    k: int,
    first: int,
    caps: Seq<usize>,
) -> Result<Stage, BuildCause>
    decreases plan.rules@[r].program@.len() - k,
{
    if k < 0 || k >= plan.rules@[r].program@.len() {
        Ok(s)
    } else {
        match step(t, s, i, r, k, first, caps, plan.rules@[r].program@[k]) {
            Ok(s2) => run_program(t, plan, s2, i, r, k + 1, first, caps),
            Err(e) => Err(e),
        }
    }
}

/// Rule `r` at tree node `i`: on a match, its program, then a record of the match.
pub open spec fn apply_rule(t: SyntaxTree, plan: RulePlan, s: Stage, i: int, r: int) -> Result<
    Stage,
    BuildCause,
> {
    match captures_of(t, i, plan.rules@[r].pattern) {
        None => Ok(s),
        Some(caps) => match run_program(t, plan, s, i, r, 0, s.nodes.len() as int, caps) {
            Ok(s2) => Ok(
                Stage {
                    records: s2.records.push(
                        MatchRecord {
                            tree_node: i as usize,
                            rule: r as usize,
                            first: s.nodes.len() as usize,
                            count: (s2.nodes.len() - s.nodes.len()) as usize,
                        },
                    ),
                    ..s2
                },
            ),
            Err(e) => Err(e),
        },
    }
}

/// The rules from the `r`-th on, at tree node `i`.
pub open spec fn run_rules(t: SyntaxTree, plan: RulePlan, s: Stage, i: int, r: int) -> Result<
    Stage,
    BuildCause,
>
    decreases plan.rules@.len() - r,
{
    if r < 0 || r >= plan.rules@.len() {
        Ok(s)
    } else {
        match apply_rule(t, plan, s, i, r) {
            Ok(s2) => run_rules(t, plan, s2, i, r + 1),
            Err(e) => Err(e),
        }
    }
}

/// The tree nodes from the `i`-th on, in preorder.
pub open spec fn run_tree(t: SyntaxTree, plan: RulePlan, s: Stage, i: int) -> Result<
    Stage,
    BuildCause,
>
    decreases t.nodes@.len() - i,
{
    if i < 0 || i >= t.nodes@.len() {
        Ok(s)
    } else {
        match run_rules(t, plan, s, i, 0) {
            Ok(s2) => run_tree(t, plan, s2, i + 1),
            Err(e) => Err(e),
        }
    }
}

/// What the plan emits for the whole tree.
pub open spec fn staged(t: SyntaxTree, plan: RulePlan) -> Result<Stage, BuildCause> {
    run_tree(t, plan, empty_stage(), 0)
}

pub open spec fn sref_ok(r: StagedRef, bound: int) -> bool {
    match r {
        StagedRef::Root => true,
        StagedRef::Staged { index } => index < bound,
    }
}

/// A staged node's texts lie in the source, and its scope was staged before it.
pub open spec fn staged_node_ok(t: SyntaxTree, n: StagedNode, m: int) -> bool {
    match n.kind {
        StagedKind::PushSymbol { text } => text_ok(t, text as int),
        StagedKind::PopSymbol { text } => text_ok(t, text as int),
        StagedKind::PushScopedSymbol { text, scope } => text_ok(t, text as int) && sref_ok(scope, m),
        StagedKind::PopScopedSymbol { text } => text_ok(t, text as int),
        _ => true,
    }
}

pub open spec fn attr_ok(t: SyntaxTree, plan: RulePlan, a: StagedAttr, bound: int) -> bool {
    &&& a.node < bound
    &&& text_ok(t, a.text as int)
    &&& a.rule < plan.rules@.len()
    &&& a.instr < plan.rules@[a.rule as int].program@.len()
    &&& plan.rules@[a.rule as int].program@[a.instr as int] is SetAttribute
}

/// Everything staged names only nodes staged before it, and texts within the source.
pub open spec fn stage_ok(t: SyntaxTree, plan: RulePlan, s: Stage) -> bool {
    &&& forall|m: int| 0 <= m < s.nodes.len() ==> staged_node_ok(t, #[trigger] s.nodes[m], m)
    &&& forall|q: int|
        0 <= q < s.edges.len() ==> sref_ok(#[trigger] s.edges[q].source, s.nodes.len() as int)
            && sref_ok(s.edges[q].sink, s.nodes.len() as int)
    &&& forall|q: int| 0 <= q < s.attrs.len() ==> attr_ok(t, plan, #[trigger] s.attrs[q], s.nodes.len() as int)
    &&& forall|q: int|
        0 <= q < s.records.len() ==> (#[trigger] s.records[q]).first + s.records[q].count
            <= s.nodes.len()
}

proof fn lemma_find_record_in(t: SyntaxTree, recs: Seq<MatchRecord>, rule: usize, i: int, k: int)
    ensures
        find_record(t, recs, rule, i, k) matches Some(rec) ==> exists|q: int|
            0 <= q < recs.len() && recs[q] == rec,
    decreases k,
{
    if k > 0 && k <= recs.len() {
        if recs[k - 1].rule == rule && ancestor_or_self(t, recs[k - 1].tree_node as int, i) {
            assert(recs[k - 1] == recs[k - 1]);
        } else {
            lemma_find_record_in(t, recs, rule, i, k - 1);
        }
    }
}

/// The staged output of one build, before it is committed.
pub struct StageBuf {
    pub nodes: Vec<StagedNode>,
    pub edges: Vec<StagedEdge>,
    pub attrs: Vec<StagedAttr>,
    pub records: Vec<MatchRecord>,
}

impl View for StageBuf {
    type V = Stage;

    open spec fn view(&self) -> Stage {
        Stage {
            nodes: self.nodes@,
            edges: self.edges@,
            attrs: self.attrs@,
            records: self.records@,
        }
    }
}

fn field_fits_exec(n: &TreeNode, cp: &ChildPattern) -> (r: bool)
    ensures
        r == field_fits(*n, *cp),
{
    match &cp.field {
        None => true,
        Some(f) => match &n.field {
            Some(g) => *g == *f,
            None => false,
        },
    }
}

/// The first child of tree node `i` that fits `cp`.
pub fn first_child(t: &SyntaxTree, i: usize, cp: &ChildPattern) -> (r: Option<usize>)
    ensures
        r == first_child_from(*t, i as int, *cp, 0),
{
    let mut j: usize = 0;
    while j < t.nodes.len()
        invariant
            0 <= j <= t.nodes@.len(),
            first_child_from(*t, i as int, *cp, j as int) == first_child_from(*t, i as int, *cp, 0),
        decreases t.nodes@.len() - j,
    {
        let n = &t.nodes[j];
        if n.parent == Some(i) && n.kind == cp.kind && field_fits_exec(n, cp) {
            return Some(j);
        }
        j = j + 1;
    }
    None
}

/// The captures of `pat` at tree node `i`, if it matches there.
pub fn match_pattern(t: &SyntaxTree, i: usize, pat: &Pattern) -> (r: Option<Vec<usize>>)
    requires
        i < t.nodes@.len(),
    ensures
        match r {
            Some(v) => captures_of(*t, i as int, *pat) == Some(v@),
            None => captures_of(*t, i as int, *pat) is None,
        },
{
    if t.nodes[i].kind != pat.kind {
        return None;
    }
    let mut caps: Vec<usize> = Vec::new();
    caps.push(i);
    let ghost cps = pat.children@;
    let mut k: usize = 0;
    while k < pat.children.len()
        invariant
            cps == pat.children@,
            0 <= k <= cps.len(),
            caps@.len() == k + 1,
            caps@[0] == i,
            child_captures(*t, i as int, cps, 0) == match child_captures(*t, i as int, cps, k as int) {
                Some(rest) => Some(caps@.drop_first() + rest),
                None => None::<Seq<usize>>,
            },
        decreases cps.len() - k,
    {
        match first_child(t, i, &pat.children[k]) {
            Some(j) => {
                let ghost before = caps@;
                caps.push(j);
                proof {
                    let cc = child_captures(*t, i as int, cps, k + 1);
                    if let Some(rest) = cc {
                        assert(caps@.drop_first() + rest =~= before.drop_first() + (seq![j] + rest));
                    }
                }
            },
            None => {
                return None;
            },
        }
        k = k + 1;
    }
    proof {
        assert(caps@.drop_first() + Seq::<usize>::empty() =~= caps@.drop_first());
        assert(seq![i] + caps@.drop_first() =~= caps@);
    }
    Some(caps)
}

/// Whether tree node `a` is `i` or one of its ancestors.
pub fn is_ancestor_or_self(t: &SyntaxTree, a: usize, i: usize) -> (r: bool)
    ensures
        r == ancestor_or_self(*t, a as int, i as int),
{
    let mut cur = i;
    loop
        invariant
            ancestor_or_self(*t, a as int, cur as int) == ancestor_or_self(*t, a as int, i as int),
        decreases cur,
    {
        if cur >= t.nodes.len() {
            return false;
        }
        if cur == a {
            return true;
        }
        match t.nodes[cur].parent {
            Some(p) => {
                if p < cur {
                    cur = p;
                } else {
                    return false;
                }
            },
            None => {
                return false;
            },
        }
    }
}

fn find_enclosing(t: &SyntaxTree, recs: &Vec<MatchRecord>, rule: usize, i: usize) -> (r: Option<
    MatchRecord,
>)
    ensures
        r == find_record(*t, recs@, rule, i as int, recs@.len() as int),
{
    let mut k = recs.len();
    while k > 0
        invariant
            0 <= k <= recs@.len(),
            find_record(*t, recs@, rule, i as int, k as int) == find_record(
                *t,
                recs@,
                rule,
                i as int,
                recs@.len() as int,
            ),
        decreases k,
    {
        let rec = recs[k - 1];
        if rec.rule == rule && is_ancestor_or_self(t, rec.tree_node, i) {
            return Some(rec);
        }
        k = k - 1;
    }
    None
}

fn capture_node_exec(t: &SyntaxTree, caps: &Vec<usize>, c: usize) -> (r: Result<usize, BuildCause>)
    ensures
        r == capture_node(*t, caps@, c),
{
    if c >= caps.len() {
        return Err(BuildCause::BadCapture);
    }
    let j = caps[c];
    if j < t.nodes.len() && t.nodes[j].start <= t.nodes[j].end && t.nodes[j].end
        <= t.source.as_str().unicode_len() {
        Ok(j)
    } else {
        Err(BuildCause::BadRange)
    }
}

fn ref_target_exec(t: &SyntaxTree, plan: &RulePlan, s: &StageBuf, i: usize, first: usize, r: NodeRef) -> (res: Result<
    StagedRef,
    BuildCause,
>)
    requires
        first <= s.nodes@.len(),
        stage_ok(*t, *plan, s@),
    ensures
        res == ref_target(*t, s@, i as int, first as int, r),
        res matches Ok(StagedRef::Staged { index }) ==> index < s.nodes@.len(),
{
    match r {
        NodeRef::Root => Ok(StagedRef::Root),
        NodeRef::Slot { slot } => {
            if slot < s.nodes.len() - first {
                Ok(StagedRef::Staged { index: first + slot })
            } else {
                Err(BuildCause::BadSlot)
            }
        },
        NodeRef::Enclosing { rule, slot } => match find_enclosing(t, &s.records, rule, i) {
            None => Err(BuildCause::NoEnclosingMatch),
            Some(rec) => {
                let staged_count = s.nodes.len();
                if slot < rec.count {
                    proof {
                        lemma_find_record_in(*t, s.records@, rule, i as int, s.records@.len() as int);
                        assert(find_record(*t, s.records@, rule, i as int, s.records@.len() as int) == Some(rec));
                        assert(exists|q: int| 0 <= q < s.records@.len() && s.records@[q] == rec);
                        let q = choose|q: int| 0 <= q < s.records@.len() && s.records@[q] == rec;
                        assert(s@.records[q] == rec);
                        assert(s@.records[q].first + s@.records[q].count <= s@.nodes.len());
                    }
                    Ok(StagedRef::Staged { index: rec.first + slot })
                } else {
                    Err(BuildCause::BadSlot)
                }
            },
        },
    }
}

proof fn lemma_push_node(t: SyntaxTree, plan: RulePlan, s: Stage, n: StagedNode)
    requires
        stage_ok(t, plan, s),
        staged_node_ok(t, n, s.nodes.len() as int),
    ensures
        stage_ok(t, plan, Stage { nodes: s.nodes.push(n), ..s }),
{
    let s2 = Stage { nodes: s.nodes.push(n), ..s };
    assert forall|m: int| 0 <= m < s2.nodes.len() implies staged_node_ok(t, #[trigger] s2.nodes[m], m) by {
        if m < s.nodes.len() {
            assert(s2.nodes[m] == s.nodes[m]);
        }
    }
    assert forall|q: int| 0 <= q < s2.edges.len() implies sref_ok(#[trigger] s2.edges[q].source, s2.nodes.len() as int)
        && sref_ok(s2.edges[q].sink, s2.nodes.len() as int) by {
        assert(sref_ok(s.edges[q].source, s.nodes.len() as int));
        assert(sref_ok(s.edges[q].sink, s.nodes.len() as int));
    }
    assert forall|q: int| 0 <= q < s2.attrs.len() implies attr_ok(t, plan, #[trigger] s2.attrs[q], s2.nodes.len() as int) by {
        assert(attr_ok(t, plan, s.attrs[q], s.nodes.len() as int));
    }
    assert forall|q: int| 0 <= q < s2.records.len() implies (#[trigger] s2.records[q]).first + s2.records[q].count
        <= s2.nodes.len() by {
        assert(s.records[q].first + s.records[q].count <= s.nodes.len());
    }
}

proof fn lemma_push_edge(t: SyntaxTree, plan: RulePlan, s: Stage, e: StagedEdge)
    requires
        stage_ok(t, plan, s),
        sref_ok(e.source, s.nodes.len() as int),
        sref_ok(e.sink, s.nodes.len() as int),
    ensures
        stage_ok(t, plan, Stage { edges: s.edges.push(e), ..s }),
{
    let s2 = Stage { edges: s.edges.push(e), ..s };
    assert forall|q: int| 0 <= q < s2.edges.len() implies sref_ok(#[trigger] s2.edges[q].source, s2.nodes.len() as int)
        && sref_ok(s2.edges[q].sink, s2.nodes.len() as int) by {
        if q < s.edges.len() {
            assert(s2.edges[q] == s.edges[q]);
        }
    }
}

proof fn lemma_push_attr(t: SyntaxTree, plan: RulePlan, s: Stage, a: StagedAttr)
    requires
        stage_ok(t, plan, s),
        attr_ok(t, plan, a, s.nodes.len() as int),
    ensures
        stage_ok(t, plan, Stage { attrs: s.attrs.push(a), ..s }),
{
    let s2 = Stage { attrs: s.attrs.push(a), ..s };
    assert forall|q: int| 0 <= q < s2.attrs.len() implies attr_ok(t, plan, #[trigger] s2.attrs[q], s2.nodes.len() as int) by {
        if q < s.attrs.len() {
            assert(s2.attrs[q] == s.attrs[q]);
        }
    }
}

proof fn lemma_push_record(t: SyntaxTree, plan: RulePlan, s: Stage, rec: MatchRecord)
    requires
        stage_ok(t, plan, s),
        rec.first + rec.count <= s.nodes.len(),
    ensures
        stage_ok(t, plan, Stage { records: s.records.push(rec), ..s }),
{
    let s2 = Stage { records: s.records.push(rec), ..s };
    assert forall|q: int| 0 <= q < s2.records.len() implies (#[trigger] s2.records[q]).first + s2.records[q].count
        <= s2.nodes.len() by {
        if q < s.records.len() {
            assert(s2.records[q] == s.records[q]);
        }
    }
}

fn staged_kind_exec(
    t: &SyntaxTree,
    plan: &RulePlan,
    s: &StageBuf,
    i: usize,
    first: usize,
    caps: &Vec<usize>,
    k: NodeTemplate,
) -> (r: Result<StagedKind, BuildCause>)
    requires
        first <= s.nodes@.len(),
        stage_ok(*t, *plan, s@),
    ensures
        r == staged_kind(*t, s@, i as int, first as int, caps@, k),
        r matches Ok(kind) ==> staged_node_ok(*t, StagedNode { kind, is_definition: false }, s.nodes@.len() as int),
{
    match k {
        NodeTemplate::Scope { is_exported } => Ok(StagedKind::Scope { is_exported }),
        NodeTemplate::PushSymbol { capture } => match capture_node_exec(t, caps, capture) {
            Ok(j) => Ok(StagedKind::PushSymbol { text: j }),
            Err(e) => Err(e),
        },
        NodeTemplate::PopSymbol { capture } => match capture_node_exec(t, caps, capture) {
            Ok(j) => Ok(StagedKind::PopSymbol { text: j }),
            Err(e) => Err(e),
        },
        NodeTemplate::PushScopedSymbol { capture, scope } => match capture_node_exec(t, caps, capture) {
            Ok(j) => match ref_target_exec(t, plan, s, i, first, scope) {
                Ok(r) => Ok(StagedKind::PushScopedSymbol { text: j, scope: r }),
                Err(e) => Err(e),
            },
            Err(e) => Err(e),
        },
        NodeTemplate::PopScopedSymbol { capture } => match capture_node_exec(t, caps, capture) {
            Ok(j) => Ok(StagedKind::PopScopedSymbol { text: j }),
            Err(e) => Err(e),
        },
        NodeTemplate::DropScopes => Ok(StagedKind::DropScopes),
        NodeTemplate::JumpTo => Ok(StagedKind::JumpTo),
    }
}

/// Runs instruction `k` of rule `r` at tree node `i`.
fn step_exec(
    t: &SyntaxTree,
    plan: &RulePlan,
    s: &mut StageBuf,
    i: usize,
    r: usize,
    k: usize,
    first: usize,
    caps: &Vec<usize>,
) -> (res: Result<(), BuildCause>)
    requires
        first <= old(s).nodes@.len(),
        stage_ok(*t, *plan, old(s)@),
        r < plan.rules@.len(),
        k < plan.rules@[r as int].program@.len(),
    ensures
        match res {
            Ok(_) => step(*t, old(s)@, i as int, r as int, k as int, first as int, caps@, plan.rules@[r as int].program@[k as int])
                == Ok::<Stage, BuildCause>(final(s)@),
            Err(e) => step(*t, old(s)@, i as int, r as int, k as int, first as int, caps@, plan.rules@[r as int].program@[k as int])
                == Err::<Stage, BuildCause>(e),
        },
        stage_ok(*t, *plan, final(s)@),
        final(s).nodes@.len() >= old(s).nodes@.len(),
{
    let ghost s0 = s@;
    match &plan.rules[r].program[k] {
        Instruction::CreateNode { template, is_definition } => {
            match staged_kind_exec(t, plan, s, i, first, caps, *template) {
                Ok(kind) => {
                    let n = StagedNode { kind, is_definition: *is_definition };
                    proof {
                        lemma_push_node(*t, *plan, s0, n);
                    }
                    s.nodes.push(n);
                    assert(s@ == Stage { nodes: s0.nodes.push(n), ..s0 });
                    Ok(())
                },
                Err(e) => Err(e),
            }
        },
        Instruction::CreateEdge { source, sink, precedence } => {
            match ref_target_exec(t, plan, s, i, first, *source) {
                Ok(a) => match ref_target_exec(t, plan, s, i, first, *sink) {
                    Ok(b) => {
                        let e = StagedEdge { source: a, sink: b, precedence: *precedence };
                        proof {
                            lemma_push_edge(*t, *plan, s0, e);
                        }
                        s.edges.push(e);
                        assert(s@ == Stage { edges: s0.edges.push(e), ..s0 });
                        Ok(())
                    },
                    Err(e) => Err(e),
                },
                Err(e) => Err(e),
            }
        },
        Instruction::SetAttribute { slot, name, capture } => {
            if *slot < s.nodes.len() - first {
                match capture_node_exec(t, caps, *capture) {
                    Ok(j) => {
                        let a = StagedAttr { node: first + *slot, rule: r, instr: k, text: j };
                        proof {
                            lemma_push_attr(*t, *plan, s0, a);
                        }
                        s.attrs.push(a);
                        assert(s@ == Stage { attrs: s0.attrs.push(a), ..s0 });
                        Ok(())
                    },
                    Err(e) => Err(e),
                }
            } else {
                Err(BuildCause::BadSlot)
            }
        },
    }
}

/// Applies rule `r` at tree node `i`.
fn apply_rule_exec(t: &SyntaxTree, plan: &RulePlan, s: &mut StageBuf, i: usize, r: usize) -> (res:
    Result<(), BuildCause>)
    requires
        stage_ok(*t, *plan, old(s)@),
        i < t.nodes@.len(),
        r < plan.rules@.len(),
    ensures
        match res {
            Ok(_) => apply_rule(*t, *plan, old(s)@, i as int, r as int) == Ok::<Stage, BuildCause>(final(s)@),
            Err(e) => apply_rule(*t, *plan, old(s)@, i as int, r as int) == Err::<Stage, BuildCause>(e),
        },
        stage_ok(*t, *plan, final(s)@),
{
    let caps = match match_pattern(t, i, &plan.rules[r].pattern) {
        Some(c) => c,
        None => {
            return Ok(());
        },
    };
    let ghost s0 = s@;
    let first = s.nodes.len();
    let prog = &plan.rules[r].program;
    let mut k: usize = 0;
    while k < prog.len()
        invariant
            prog@ == plan.rules@[r as int].program@,
            r < plan.rules@.len(),
            0 <= k <= prog@.len(),
            first == s0.nodes.len(),
            s0 == old(s)@,
            i < t.nodes@.len(),
            captures_of(*t, i as int, plan.rules@[r as int].pattern) == Some(caps@),
            first <= s.nodes@.len(),
            stage_ok(*t, *plan, s@),
            run_program(*t, *plan, s@, i as int, r as int, k as int, first as int, caps@)
                == run_program(*t, *plan, s0, i as int, r as int, 0, first as int, caps@),
        decreases prog@.len() - k,
    {
        let ghost before = s@;
        match step_exec(t, plan, s, i, r, k, first, &caps) {
            Ok(_) => {},
            Err(e) => {
                assert(run_program(*t, *plan, before, i as int, r as int, k as int, first as int, caps@)
                    == Err::<Stage, BuildCause>(e));
                assert(captures_of(*t, i as int, plan.rules@[r as int].pattern) == Some(caps@));
                assert(apply_rule(*t, *plan, s0, i as int, r as int) == Err::<Stage, BuildCause>(e));
                return Err(e);
            },
        }
        k = k + 1;
    }
    let rec = MatchRecord { tree_node: i, rule: r, first, count: s.nodes.len() - first };
    let ghost s1 = s@;
    proof {
        lemma_push_record(*t, *plan, s1, rec);
    }
    s.records.push(rec);
    assert(s@ == Stage { records: s1.records.push(rec), ..s1 });
    Ok(())
}

/// Stages the whole tree. `Ok(None)` where `cancel` asked to stop; it is
/// polled before each tree node and before each rule.
fn stage_tree<F: Fn() -> bool>(t: &SyntaxTree, plan: &RulePlan, cancel: &F) -> (res: Result<
    Option<StageBuf>,
    BuildCause,
>)
    requires
        call_requires(*cancel, ()),
    ensures
        match res {
            Ok(Some(s)) => staged(*t, *plan) == Ok::<Stage, BuildCause>(s@) && stage_ok(*t, *plan, s@),
            Ok(None) => call_ensures(*cancel, (), true),
            Err(e) => staged(*t, *plan) == Err::<Stage, BuildCause>(e),
        },
{
    let mut s = StageBuf { nodes: Vec::new(), edges: Vec::new(), attrs: Vec::new(), records: Vec::new() };
    assert(s@ == empty_stage());
    let mut i: usize = 0;
    while i < t.nodes.len()
        invariant
            call_requires(*cancel, ()),
            0 <= i <= t.nodes@.len(),
            stage_ok(*t, *plan, s@),
            run_tree(*t, *plan, s@, i as int) == staged(*t, *plan),
        decreases t.nodes@.len() - i,
    {
        if cancel() {
            return Ok(None);
        }
        let ghost si = s@;
        let mut r: usize = 0;
        while r < plan.rules.len()
            invariant
                call_requires(*cancel, ()),
                0 <= i < t.nodes@.len(),
                0 <= r <= plan.rules@.len(),
                stage_ok(*t, *plan, s@),
                run_tree(*t, *plan, si, i as int) == staged(*t, *plan),
                run_tree(*t, *plan, si, i as int) == match run_rules(*t, *plan, s@, i as int, r as int) {
                    Ok(x) => run_tree(*t, *plan, x, i + 1),
                    Err(e) => Err(e),
                },
            decreases plan.rules@.len() - r,
        {
            if cancel() {
                return Ok(None);
            }
            match apply_rule_exec(t, plan, &mut s, i, r) {
                Ok(_) => {},
                Err(e) => {
                    return Err(e);
                },
            }
            r = r + 1;
        }
        i = i + 1;
    }
    Ok(Some(s))
}

/// The node of the store that a staged reference becomes.
pub open spec fn staged_id(file: FileId, base: int, r: StagedRef) -> NodeId {
    match r {
        StagedRef::Root => NodeId::Root,
        StagedRef::Staged { index } => NodeId::Local { file: file.index, local: (base + index) as usize },
    }
}

pub open spec fn symbol_is(g: GraphModel, s: Symbol, text: Seq<char>) -> bool {
    g.has_symbol(s) && g.symbols[s.index as int] == text
}

/// `n` is what staged node `s` becomes when committed.
pub open spec fn node_built(g: GraphModel, t: SyntaxTree, file: FileId, base: int, s: StagedNode, n: Node) -> bool {
    &&& n.is_definition == s.is_definition
    &&& match (s.kind, n.kind) {
        (StagedKind::Scope { is_exported: a }, NodeKind::Scope { is_exported: b }) => a == b,
        (StagedKind::PushSymbol { text }, NodeKind::PushSymbol { symbol }) => symbol_is(g, symbol, text_of(t, text as int)),
        (StagedKind::PopSymbol { text }, NodeKind::PopSymbol { symbol }) => symbol_is(g, symbol, text_of(t, text as int)),
        (StagedKind::PushScopedSymbol { text, scope: a }, NodeKind::PushScopedSymbol { symbol, scope: b }) =>
            symbol_is(g, symbol, text_of(t, text as int)) && b == staged_id(file, base, a),
        (StagedKind::PopScopedSymbol { text }, NodeKind::PopScopedSymbol { symbol }) => symbol_is(g, symbol, text_of(t, text as int)),
        (StagedKind::DropScopes, NodeKind::DropScopes) => true,
        (StagedKind::JumpTo, NodeKind::JumpTo) => true,
        _ => false,
    }
}

pub open spec fn attr_name(plan: RulePlan, a: StagedAttr) -> Seq<char> {
    match plan.rules@[a.rule as int].program@[a.instr as int] {
        Instruction::SetAttribute { name, .. } => name@,
        _ => Seq::empty(),
    }
}

/// The attributes staged for staged node `m`, in the order they were set.
pub open spec fn attrs_for(t: SyntaxTree, plan: RulePlan, attrs: Seq<StagedAttr>, m: int) -> Seq<(Seq<char>, Seq<char>)>
    decreases attrs.len(),
{
    if attrs.len() == 0 {
        Seq::empty()
    } else if attrs.last().node == m {
        attrs_for(t, plan, attrs.drop_last(), m).push((attr_name(plan, attrs.last()), text_of(t, attrs.last().text as int)))
    } else {
        attrs_for(t, plan, attrs.drop_last(), m)
    }
}

pub open spec fn commit_edge(file: FileId, base: int, e: StagedEdge) -> Edge {
    Edge { source: staged_id(file, base, e.source), sink: staged_id(file, base, e.sink), precedence: e.precedence }
}

/// `new` is `old` with the first `m` staged nodes and the first `q` staged edges of `s` committed to `file`.
pub open spec fn committed_upto(
    old: GraphModel,
    new: GraphModel,
    t: SyntaxTree,
    plan: RulePlan,
    file: FileId,
    s: Stage,
    m: int,
    q: int,
) -> bool {
    let f = file.index as int;
    let base = old.nodes[f].len() as int;
    &&& new.files == old.files
    &&& old.symbols.len() <= new.symbols.len()
    &&& new.symbols.subrange(0, old.symbols.len() as int) == old.symbols
    &&& new.nodes.len() == old.nodes.len()
    &&& forall|g: int| 0 <= g < new.nodes.len() && g != f ==> #[trigger] new.nodes[g] == old.nodes[g]
    &&& new.nodes[f].len() == base + m
    &&& new.nodes[f].subrange(0, base) == old.nodes[f]
    &&& forall|j: int| 0 <= j < m ==> node_built(new, t, file, base, #[trigger] s.nodes[j], new.nodes[f][base + j])
    &&& new.order == old.order + Seq::new(m as nat, |j: int| NodeId::Local { file: file.index, local: (base + j) as usize })
    &&& new.debug == old.debug + Seq::new(m as nat, |j: int| attrs_for(t, plan, s.attrs, j))
    &&& new.edges == old.edges + s.edges.take(q).map_values(|e: StagedEdge| commit_edge(file, base, e))
}

/// `new` is `old` with all of `s` committed to `file`.
pub open spec fn committed(old: GraphModel, new: GraphModel, t: SyntaxTree, plan: RulePlan, file: FileId, s: Stage) -> bool {
    committed_upto(old, new, t, plan, file, s, s.nodes.len() as int, s.edges.len() as int)
}

/// A committed build adds exactly one node-list entry per staged node, so the
/// node list keeps one entry per node added.
pub proof fn law_build_node_count(
    old: GraphModel,
    new: GraphModel,
    t: SyntaxTree,
    plan: RulePlan,
    file: FileId,
    s: Stage,
)
    requires
        committed(old, new, t, plan, file, s),
    ensures
        new.order.len() == old.order.len() + s.nodes.len(),
{
}

fn text_slice(t: &SyntaxTree, j: usize) -> (r: &str)
    requires
        text_ok(*t, j as int),
    ensures
        r@ == text_of(*t, j as int),
{
    t.source.as_str().substring_char(t.nodes[j].start, t.nodes[j].end)
}

fn attributes_of(t: &SyntaxTree, plan: &RulePlan, s: &StageBuf, m: usize) -> (r: Vec<(String, String)>)
    requires
        stage_ok(*t, *plan, s@),
    ensures
        attributes_view(r@) == attrs_for(*t, *plan, s.attrs@, m as int),
{
    let mut r: Vec<(String, String)> = Vec::new();
    let mut q: usize = 0;
    while q < s.attrs.len()
        invariant
            stage_ok(*t, *plan, s@),
            0 <= q <= s.attrs@.len(),
            attributes_view(r@) == attrs_for(*t, *plan, s.attrs@.take(q as int), m as int),
        decreases s.attrs@.len() - q,
    {
        let a = s.attrs[q];
        assert(s.attrs@.take(q + 1).drop_last() =~= s.attrs@.take(q as int));
        assert(attr_ok(*t, *plan, s@.attrs[q as int], s@.nodes.len() as int));
        if a.node == m {
            let name = match &plan.rules[a.rule].program[a.instr] {
                Instruction::SetAttribute { name, .. } => name.clone(),
                _ => String::new(),
            };
            let value = text_slice(t, a.text).to_owned();
            let ghost before = r@;
            r.push((name, value));
            assert(attributes_view(r@) =~= attributes_view(before).push((name@, value@)));
        }
        q = q + 1;
    }
    assert(s.attrs@.take(q as int) =~= s.attrs@);
    r
}

proof fn lemma_symbols_grow(
    g0: GraphModel,
    g1: GraphModel,
    g2: GraphModel,
    t: SyntaxTree,
    plan: RulePlan,
    file: FileId,
    s: Stage,
    m: int,
)
    requires
        committed_upto(g0, g1, t, plan, file, s, m, 0),
        0 <= m <= s.nodes.len(),
        g1.symbols.len() <= g2.symbols.len(),
        g2.symbols.subrange(0, g1.symbols.len() as int) == g1.symbols,
        g2 == (GraphModel { symbols: g2.symbols, ..g1 }),
    ensures
        committed_upto(g0, g2, t, plan, file, s, m, 0),
{
    let f = file.index as int;
    let base = g0.nodes[f].len() as int;
    assert(g2.symbols.subrange(0, g0.symbols.len() as int) =~= g0.symbols) by {
        assert forall|k: int| 0 <= k < g0.symbols.len() implies g2.symbols[k] == g0.symbols[k] by {
            assert(g2.symbols[k] == g2.symbols.subrange(0, g1.symbols.len() as int)[k]);
            assert(g1.symbols[k] == g1.symbols.subrange(0, g0.symbols.len() as int)[k]);
        }
    }
    assert forall|j: int| 0 <= j < m implies node_built(g2, t, file, base, #[trigger] s.nodes[j], g2.nodes[f][base + j]) by {
        assert(node_built(g1, t, file, base, s.nodes[j], g1.nodes[f][base + j]));
        let n = g1.nodes[f][base + j];
        match n.kind {
            NodeKind::PushSymbol { symbol } => {
                assert(g2.symbols[symbol.index as int] == g2.symbols.subrange(0, g1.symbols.len() as int)[symbol.index as int]);
            },
            NodeKind::PopSymbol { symbol } => {
                assert(g2.symbols[symbol.index as int] == g2.symbols.subrange(0, g1.symbols.len() as int)[symbol.index as int]);
            },
            NodeKind::PushScopedSymbol { symbol, .. } => {
                assert(g2.symbols[symbol.index as int] == g2.symbols.subrange(0, g1.symbols.len() as int)[symbol.index as int]);
            },
            NodeKind::PopScopedSymbol { symbol } => {
                assert(g2.symbols[symbol.index as int] == g2.symbols.subrange(0, g1.symbols.len() as int)[symbol.index as int]);
            },
            _ => {},
        }
    }
}

fn intern_text(g: &mut GraphStore, t: &SyntaxTree, j: usize) -> (r: Symbol)
    requires
        old(g).wf(),
        text_ok(*t, j as int),
    ensures
        final(g).wf(),
        symbol_is(final(g)@, r, text_of(*t, j as int)),
        old(g)@.symbols.len() <= final(g)@.symbols.len(),
        final(g)@.symbols.subrange(0, old(g)@.symbols.len() as int) == old(g)@.symbols,
        final(g)@ == (GraphModel { symbols: final(g)@.symbols, ..old(g)@ }),
{
    let r = g.intern_symbol(text_slice(t, j));
    assert(g@.symbols.subrange(0, old(g)@.symbols.len() as int) =~= old(g)@.symbols);
    r
}

/// Adds every staged node, then every staged edge, to `file`.
fn commit(g: &mut GraphStore, t: &SyntaxTree, plan: &RulePlan, file: FileId, s: &StageBuf)
    requires
        old(g).wf(),
        old(g)@.has_file(file),
        stage_ok(*t, *plan, s@),
    ensures
        final(g).wf(),
        committed(old(g)@, final(g)@, *t, *plan, file, s@),
{
    proof {
        g.lemma_model_wf();
    }
    let ghost g0 = g@;
    let ghost f = file.index as int;
    let ghost base = g0.nodes[f].len() as int;
    let ghost ids_of = |j: int| NodeId::Local { file: file.index, local: (base + j) as usize };
    let ghost attrs_of = |j: int| attrs_for(*t, *plan, s.attrs@, j);
    let mut ids: Vec<NodeId> = Vec::new();
    proof {
        assert(g0.order + Seq::new(0, ids_of) =~= g0.order);
        assert(g0.debug + Seq::new(0, attrs_of) =~= g0.debug);
        assert(g0.edges + s.edges@.take(0).map_values(|e: StagedEdge| commit_edge(file, base, e)) =~= g0.edges);
        assert(g0.symbols.subrange(0, g0.symbols.len() as int) =~= g0.symbols);
        assert(g0.nodes[f].subrange(0, base) =~= g0.nodes[f]);
    }
    let mut m: usize = 0;
    while m < s.nodes.len()
        invariant
            g.wf(),
            g0.wf(),
            g0.has_file(file),
            f == file.index,
            base == g0.nodes[f].len(),
            stage_ok(*t, *plan, s@),
            0 <= m <= s.nodes@.len(),
            committed_upto(g0, g@, *t, *plan, file, s@, m as int, 0),
            ids@.len() == m,
            forall|x: int| 0 <= x < m ==> ids@[x] == ids_of(x),
            m == 0 || base + m - 1 <= usize::MAX,
            ids_of == (|j: int| NodeId::Local { file: file.index, local: (base + j) as usize }),
            attrs_of == (|j: int| attrs_for(*t, *plan, s.attrs@, j)),
        decreases s.nodes@.len() - m,
    {
        proof {
            g.lemma_model_wf();
        }
        let sn = s.nodes[m];
        assert(staged_node_ok(*t, s@.nodes[m as int], m as int));
        let ghost ga = g@;
        let kind = match sn.kind {
            StagedKind::Scope { is_exported } => NodeKind::Scope { is_exported },
            StagedKind::PushSymbol { text } => NodeKind::PushSymbol { symbol: intern_text(g, t, text) },
            StagedKind::PopSymbol { text } => NodeKind::PopSymbol { symbol: intern_text(g, t, text) },
            StagedKind::PushScopedSymbol { text, scope } => {
                let symbol = intern_text(g, t, text);
                let sc = match scope {
                    StagedRef::Root => NodeId::Root,
                    StagedRef::Staged { index } => ids[index],
                };
                NodeKind::PushScopedSymbol { symbol, scope: sc }
            },
            StagedKind::PopScopedSymbol { text } => NodeKind::PopScopedSymbol { symbol: intern_text(g, t, text) },
            StagedKind::DropScopes => NodeKind::DropScopes,
            StagedKind::JumpTo => NodeKind::JumpTo,
        };
        proof {
            if ga != g@ {
                lemma_symbols_grow(g0, ga, g@, *t, *plan, file, s@, m as int);
            }
            g.lemma_model_wf();
            if let NodeKind::PushScopedSymbol { symbol, scope } = kind {
                if let StagedKind::PushScopedSymbol { text, scope: sr } = sn.kind {
                    if let StagedRef::Staged { index } = sr {
                        assert(scope == ids_of(index as int));
                        assert(g@.has_node(scope));
                    }
                }
            }
        }
        let attrs = attributes_of(t, plan, s, m);
        let ghost gb = g@;
        let res = g.add_node(file, kind, sn.is_definition, attrs);
        match res {
            Ok(id) => {
                ids.push(id);
            },
            Err(_) => {
                assert(false);
            },
        }
        proof {
            let g2 = g@;
            let n = Node { kind, is_definition: sn.is_definition };
            assert(g2.nodes[f] == gb.nodes[f].push(n));
            assert(g2.nodes[f].subrange(0, base) =~= g0.nodes[f]) by {
                assert(gb.nodes[f].subrange(0, base) == g0.nodes[f]);
                assert forall|k: int| 0 <= k < base implies g2.nodes[f][k] == gb.nodes[f].subrange(0, base)[k] by {}
            }
            assert forall|gg: int| 0 <= gg < g2.nodes.len() && gg != f implies #[trigger] g2.nodes[gg] == g0.nodes[gg] by {
                assert(gb.nodes[gg] == g0.nodes[gg]);
            }
            assert forall|j: int| 0 <= j < m + 1 implies node_built(g2, *t, file, base, #[trigger] s@.nodes[j], g2.nodes[f][base + j]) by {
                if j < m {
                    assert(node_built(gb, *t, file, base, s@.nodes[j], gb.nodes[f][base + j]));
                    assert(g2.nodes[f][base + j] == gb.nodes[f][base + j]);
                } else {
                    assert(g2.nodes[f][base + j] == n);
                }
            }
            assert(g2.order =~= g0.order + Seq::new((m + 1) as nat, ids_of)) by {
                assert(gb.order == g0.order + Seq::new(m as nat, ids_of));
            }
            assert(g2.debug =~= g0.debug + Seq::new((m + 1) as nat, attrs_of)) by {
                assert(gb.debug == g0.debug + Seq::new(m as nat, attrs_of));
            }
        }
        m = m + 1;
    }
    let mut q: usize = 0;
    while q < s.edges.len()
        invariant
            g.wf(),
            g0.wf(),
            g0.has_file(file),
            f == file.index,
            base == g0.nodes[f].len(),
            stage_ok(*t, *plan, s@),
            m == s.nodes@.len(),
            0 <= q <= s.edges@.len(),
            committed_upto(g0, g@, *t, *plan, file, s@, m as int, q as int),
            ids@.len() == m,
            forall|x: int| 0 <= x < m ==> ids@[x] == ids_of(x),
            m == 0 || base + m - 1 <= usize::MAX,
            ids_of == (|j: int| NodeId::Local { file: file.index, local: (base + j) as usize }),
        decreases s.edges@.len() - q,
    {
        proof {
            g.lemma_model_wf();
        }
        let e = s.edges[q];
        assert(sref_ok(s@.edges[q as int].source, m as int) && sref_ok(s@.edges[q as int].sink, m as int));
        let a = match e.source {
            StagedRef::Root => NodeId::Root,
            StagedRef::Staged { index } => ids[index],
        };
        let b = match e.sink {
            StagedRef::Root => NodeId::Root,
            StagedRef::Staged { index } => ids[index],
        };
        let ghost gb = g@;
        assert(g@.has_node(a) && g@.has_node(b));
        match g.add_edge(a, b, e.precedence) {
            Ok(_) => {},
            Err(_) => {
                assert(false);
            },
        }
        proof {
            assert(s.edges@.take(q + 1) =~= s.edges@.take(q as int).push(e));
            assert(s.edges@.take(q + 1).map_values(|e: StagedEdge| commit_edge(file, base, e))
                =~= s.edges@.take(q as int).map_values(|e: StagedEdge| commit_edge(file, base, e)).push(commit_edge(file, base, e)));
            assert(g@.edges =~= g0.edges + s.edges@.take(q + 1).map_values(|e: StagedEdge| commit_edge(file, base, e)));
        }
        q = q + 1;
    }
}

/// How many of the first `k` instructions of `prog` create a node.
pub open spec fn nodes_created(prog: Seq<Instruction>, k: int) -> nat
    decreases k,
{
    if k <= 0 || k > prog.len() {
        0
    } else {
        nodes_created(prog, k - 1) + if prog[k - 1] is CreateNode {
            1nat
        } else {
            0nat
        }
    }
}

/// `r` names a node that exists once `created` nodes of the match exist.
pub open spec fn ref_valid(plan: RulePlan, r: NodeRef, created: nat) -> bool {
    match r {
        NodeRef::Root => true,
        NodeRef::Slot { slot } => slot < created,
        NodeRef::Enclosing { rule, slot } => rule < plan.rules@.len() && slot < nodes_created(
            plan.rules@[rule as int].program@,
            plan.rules@[rule as int].program@.len() as int,
        ),
    }
}

pub open spec fn capture_valid(pat: Pattern, c: usize) -> bool {
    c <= pat.children@.len()
}

pub open spec fn template_valid(plan: RulePlan, pat: Pattern, k: NodeTemplate, created: nat) -> bool {
    match k {
        NodeTemplate::PushSymbol { capture } => capture_valid(pat, capture),
        NodeTemplate::PopSymbol { capture } => capture_valid(pat, capture),
        NodeTemplate::PushScopedSymbol { capture, scope } => capture_valid(pat, capture) && ref_valid(
            plan,
            scope,
            created,
        ),
        NodeTemplate::PopScopedSymbol { capture } => capture_valid(pat, capture),
        _ => true,
    }
}

/// Instruction `k` of rule `r` names only captures of its pattern and nodes
/// that exist when it runs.
pub open spec fn instr_valid(plan: RulePlan, r: int, k: int) -> bool {
    let rule = plan.rules@[r];
    let created = nodes_created(rule.program@, k);
    match rule.program@[k] {
        Instruction::CreateNode { template, .. } => template_valid(plan, rule.pattern, template, created),
        Instruction::CreateEdge { source, sink, .. } => ref_valid(plan, source, created) && ref_valid(
            plan,
            sink,
            created,
        ),
        Instruction::SetAttribute { slot, capture, .. } => slot < created && capture_valid(
            rule.pattern,
            capture,
        ),
    }
}

pub open spec fn plan_valid(plan: RulePlan) -> bool {
    forall|r: int, k: int|
        0 <= r < plan.rules@.len() && 0 <= k < plan.rules@[r].program@.len() ==> instr_valid(
            plan,
            r,
            k,
        )
}

fn count_created(prog: &Vec<Instruction>) -> (r: usize)
    ensures
        r == nodes_created(prog@, prog@.len() as int),
{
    let mut n: usize = 0;
    let mut k: usize = 0;
    while k < prog.len()
        invariant
            0 <= k <= prog@.len(),
            n == nodes_created(prog@, k as int),
            n <= k,
        decreases prog@.len() - k,
    {
        if let Instruction::CreateNode { .. } = &prog[k] {
            n = n + 1;
        }
        k = k + 1;
    }
    n
}

fn ref_valid_exec(plan: &RulePlan, counts: &Vec<usize>, r: NodeRef, created: usize) -> (res: bool)
    requires
        counts@.len() == plan.rules@.len(),
        forall|q: int|
            0 <= q < counts@.len() ==> #[trigger] counts@[q] == nodes_created(
                plan.rules@[q].program@,
                plan.rules@[q].program@.len() as int,
            ),
    ensures
        res == ref_valid(*plan, r, created as nat),
{
    match r {
        NodeRef::Root => true,
        NodeRef::Slot { slot } => slot < created,
        NodeRef::Enclosing { rule, slot } => rule < counts.len() && slot < counts[rule],
    }
}

/// Whether every instruction of the plan is valid.
pub fn validate_plan(plan: &RulePlan) -> (res: bool)
    ensures
        res == plan_valid(*plan),
{
    let mut counts: Vec<usize> = Vec::new();
    let mut r: usize = 0;
    while r < plan.rules.len()
        invariant
            0 <= r <= plan.rules@.len(),
            counts@.len() == r,
            forall|q: int|
                0 <= q < r ==> #[trigger] counts@[q] == nodes_created(
                    plan.rules@[q].program@,
                    plan.rules@[q].program@.len() as int,
                ),
        decreases plan.rules@.len() - r,
    {
        counts.push(count_created(&plan.rules[r].program));
        r = r + 1;
    }
    let mut r: usize = 0;
    while r < plan.rules.len()
        invariant
            0 <= r <= plan.rules@.len(),
            counts@.len() == plan.rules@.len(),
            forall|q: int|
                0 <= q < counts@.len() ==> #[trigger] counts@[q] == nodes_created(
                    plan.rules@[q].program@,
                    plan.rules@[q].program@.len() as int,
                ),
            forall|q: int, k: int|
                0 <= q < r && 0 <= k < plan.rules@[q].program@.len() ==> instr_valid(*plan, q, k),
        decreases plan.rules@.len() - r,
    {
        let rule = &plan.rules[r];
        let nchildren = rule.pattern.children.len();
        let mut created: usize = 0;
        let mut k: usize = 0;
        while k < rule.program.len()
            invariant
                0 <= r < plan.rules@.len(),
                *rule == plan.rules@[r as int],
                nchildren == rule.pattern.children@.len(),
                counts@.len() == plan.rules@.len(),
                forall|q: int|
                    0 <= q < counts@.len() ==> #[trigger] counts@[q] == nodes_created(
                        plan.rules@[q].program@,
                        plan.rules@[q].program@.len() as int,
                    ),
                forall|q: int, k: int|
                    0 <= q < r && 0 <= k < plan.rules@[q].program@.len() ==> instr_valid(*plan, q, k),
                0 <= k <= rule.program@.len(),
                created == nodes_created(rule.program@, k as int),
                created <= k,
                forall|j: int| 0 <= j < k ==> instr_valid(*plan, r as int, j),
            decreases rule.program@.len() - k,
        {
            let ok = match &rule.program[k] {
                Instruction::CreateNode { template, .. } => match *template {
                    NodeTemplate::PushSymbol { capture } => capture <= nchildren,
                    NodeTemplate::PopSymbol { capture } => capture <= nchildren,
                    NodeTemplate::PushScopedSymbol { capture, scope } => capture <= nchildren
                        && ref_valid_exec(plan, &counts, scope, created),
                    NodeTemplate::PopScopedSymbol { capture } => capture <= nchildren,
                    _ => true,
                },
                Instruction::CreateEdge { source, sink, .. } => ref_valid_exec(
                    plan,
                    &counts,
                    *source,
                    created,
                ) && ref_valid_exec(plan, &counts, *sink, created),
                Instruction::SetAttribute { slot, capture, .. } => *slot < created && *capture
                    <= nchildren,
            };
            assert(ok == instr_valid(*plan, r as int, k as int));
            if !ok {
                return false;
            }
            if let Instruction::CreateNode { .. } = &rule.program[k] {
                created = created + 1;
            }
            k = k + 1;
        }
        r = r + 1;
    }
    true
}

/// Builds the graph of one file from its syntax tree under `plan`, as a
/// single transaction. An invalid plan is refused before anything else; a
/// failure while running the plan, or a cancellation (`cancel` is polled
/// before each tree node and before each rule), leaves the store unchanged.
pub fn build_file<F: Fn() -> bool>(
    g: &mut GraphStore,
    file: FileId,
    tree: &SyntaxTree,
    plan: &RulePlan,
    cancel: &F,
) -> (r: Result<(), BuildError>)
    requires
        old(g).wf(),
        old(g)@.has_file(file),
        call_requires(*cancel, ()),
    ensures
        final(g).wf(),
        (r == Err::<(), BuildError>(BuildError::InvalidRulePlan)) <==> !plan_valid(*plan),
        r is Err ==> final(g)@ == old(g)@,
        r is Ok ==> plan_valid(*plan) && (staged(*tree, *plan) matches Ok(st) && committed(
            old(g)@,
            final(g)@,
            *tree,
            *plan,
            file,
            st,
        )),
        r matches Err(BuildError::BuildFailed { file: f2, cause }) ==> f2 == file && staged(
            *tree,
            *plan,
        ) == Err::<Stage, BuildCause>(cause),
        r == Err::<(), BuildError>(BuildError::Cancelled) ==> call_ensures(*cancel, (), true),
        plan_valid(*plan) && !call_ensures(*cancel, (), true) ==> match staged(*tree, *plan) {
            Ok(_) => r is Ok,
            Err(cause) => r == Err::<(), BuildError>(BuildError::BuildFailed { file, cause }),
        },
{
    if !validate_plan(plan) {
        return Err(BuildError::InvalidRulePlan);
    }
    match stage_tree(tree, plan, cancel) {
        Ok(Some(s)) => {
            commit(g, tree, plan, file, &s);
            Ok(())
        },
        Ok(None) => Err(BuildError::Cancelled),
        Err(cause) => Err(BuildError::BuildFailed { file, cause }),
    }
}

} // verus!
