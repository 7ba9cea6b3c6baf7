//! The structural call graph: per-file extraction results and the resolved, canonical whole-repo
//! graph.

use vstd::prelude::*;

use crate::text::{
    compare_str, lemma_lex_irreflexive, lemma_lex_total, lemma_lex_transitive, lex_lt, Cmp,
};

pub mod callee;
pub mod canon;
pub mod order;
pub mod resolve;

use canon::Canonical;

verus! {

/// One graph node: a file, or a definition inside one. `node_id` is `<file>` for a file node and
/// `<file>#<line>:<name-or-kind>` for a definition; `start_line` is 1-based.
#[derive(Clone, Debug, PartialEq, Eq, PartialOrd, Ord, Hash)]
pub struct GraphNode {
    pub node_id: String,
    pub label: String,
    pub source_file: String,
    pub start_line: i64,
}

/// One directed edge: `contains`, `method` or `calls`.
#[derive(Clone, Debug, PartialEq, Eq, PartialOrd, Ord, Hash)]
pub struct GraphEdge {
    pub source: String,
    pub target: String,
    pub relation: String,
}

/// The whole-repo structural graph.
#[derive(Clone, Debug, PartialEq, Eq)]
pub struct Graph {
    pub nodes: Vec<GraphNode>,
    pub edges: Vec<GraphEdge>,
}

/// A function/method definition a call may resolve to; `scope` is the enclosing type name.
#[derive(Clone, Debug, PartialEq, Eq)]
pub struct Callable {
    pub name: String,
    pub node_id: String,
    pub scope: Option<String>,
}

/// An unresolved call site: the caller's node id, the bare callee name, and an optional
/// qualifier (the receiver or path segment, used only to break same-name ties).
#[derive(Clone, Debug, PartialEq, Eq)]
pub struct CallSite {
    pub caller: String,
    pub name: String,
    pub qualifier: Option<String>,
}

/// What graph extraction records for one file.
#[derive(Clone, Debug)]
pub struct FileSymbols {
    pub nodes: Vec<GraphNode>,
    pub contains: Vec<GraphEdge>,
    pub calls: Vec<CallSite>,
    pub callables: Vec<Callable>,
}

pub struct GraphNodeView {
    pub node_id: Seq<char>,
    pub label: Seq<char>,
    pub source_file: Seq<char>,
    pub start_line: i64,
}

pub struct GraphEdgeView {
    pub source: Seq<char>,
    pub target: Seq<char>,
    pub relation: Seq<char>,
}

pub struct CallableView {
    pub name: Seq<char>,
    pub node_id: Seq<char>,
    pub scope: Option<Seq<char>>,
}

pub struct CallSiteView {
    pub caller: Seq<char>,
    pub name: Seq<char>,
    pub qualifier: Option<Seq<char>>,
}

pub struct FileSymbolsView {
    pub nodes: Seq<GraphNodeView>,
    pub contains: Seq<GraphEdgeView>,
    pub calls: Seq<CallSiteView>,
    pub callables: Seq<CallableView>,
}

pub struct GraphView {
    pub nodes: Seq<GraphNodeView>,
    pub edges: Seq<GraphEdgeView>,
}

/// The view of an optional string.
pub open spec fn opt_view(o: Option<String>) -> Option<Seq<char>> {
    match o {
        Some(s) => Some(s@),
        None => None,
    }
}

impl View for GraphNode {
    type V = GraphNodeView;

    open spec fn view(&self) -> GraphNodeView {
        GraphNodeView {
            node_id: self.node_id@,
            label: self.label@,
            source_file: self.source_file@,
            start_line: self.start_line,
        }
    }
}

impl View for GraphEdge {
    type V = GraphEdgeView;

    open spec fn view(&self) -> GraphEdgeView {
        GraphEdgeView { source: self.source@, target: self.target@, relation: self.relation@ }
    }
}

impl View for Callable {
    type V = CallableView;

    open spec fn view(&self) -> CallableView {
        CallableView { name: self.name@, node_id: self.node_id@, scope: opt_view(self.scope) }
    }
}

impl View for CallSite {
    type V = CallSiteView;

    open spec fn view(&self) -> CallSiteView {
        CallSiteView { caller: self.caller@, name: self.name@, qualifier: opt_view(self.qualifier) }
    }
}

impl View for FileSymbols {
    type V = FileSymbolsView;

    open spec fn view(&self) -> FileSymbolsView {
        FileSymbolsView {
            nodes: canon::views(self.nodes@),
            contains: canon::views(self.contains@),
            calls: canon::views(self.calls@),
            callables: canon::views(self.callables@),
        }
    }
}

impl View for Graph {
    type V = GraphView;

    open spec fn view(&self) -> GraphView {
        GraphView { nodes: canon::views(self.nodes@), edges: canon::views(self.edges@) }
    }
}

impl Default for Graph {
    fn default() -> (g: Self)
        ensures
            g@.nodes.len() == 0,
            g@.edges.len() == 0,
    {
        Graph { nodes: Vec::new(), edges: Vec::new() }
    }
}

impl Default for FileSymbols {
    fn default() -> (f: Self)
        ensures
            f@.nodes.len() == 0,
            f@.contains.len() == 0,
            f@.calls.len() == 0,
            f@.callables.len() == 0,
    {
        FileSymbols { nodes: Vec::new(), contains: Vec::new(), calls: Vec::new(), callables: Vec::new() }
    }
}

/// A copy of an optional string with the same view.
pub fn copy_opt(o: &Option<String>) -> (r: Option<String>)
    ensures
        opt_view(r) == opt_view(*o),
{
    match o {
        Some(s) => Some(s.clone()),
        None => None,
    }
}

impl GraphNode {
    /// A copy with the same view.
    pub fn duplicate(&self) -> (r: GraphNode)
        ensures
            r@ == self@,
    {
        GraphNode {
            node_id: self.node_id.clone(),
            label: self.label.clone(),
            source_file: self.source_file.clone(),
            start_line: self.start_line,
        }
    }
}

impl GraphEdge {
    /// A copy with the same view.
    pub fn duplicate(&self) -> (r: GraphEdge)
        ensures
            r@ == self@,
    {
        GraphEdge {
            source: self.source.clone(),
            target: self.target.clone(),
            relation: self.relation.clone(),
        }
    }
}

/// The order `derive(Ord)` gives `GraphNode`: field by field, in declaration order.
pub open spec fn node_lt(a: GraphNodeView, b: GraphNodeView) -> bool {
    lex_lt(a.node_id, b.node_id) || (a.node_id == b.node_id && (lex_lt(a.label, b.label) || (a.label
        == b.label && (lex_lt(a.source_file, b.source_file) || (a.source_file == b.source_file
        && a.start_line < b.start_line)))))
}

/// The order `derive(Ord)` gives `GraphEdge`: field by field, in declaration order.
pub open spec fn edge_lt(a: GraphEdgeView, b: GraphEdgeView) -> bool {
    lex_lt(a.source, b.source) || (a.source == b.source && (lex_lt(a.target, b.target) || (a.target
        == b.target && lex_lt(a.relation, b.relation))))
}

impl Canonical for GraphNode {
    open spec fn lt(a: GraphNodeView, b: GraphNodeView) -> bool {
        node_lt(a, b)
    }

    proof fn lemma_irreflexive(a: GraphNodeView) {
        lemma_lex_irreflexive(a.node_id);
        lemma_lex_irreflexive(a.label);
        lemma_lex_irreflexive(a.source_file);
    }

    proof fn lemma_transitive(a: GraphNodeView, b: GraphNodeView, c: GraphNodeView) {
        lemma_lex_irreflexive(a.node_id);
        lemma_lex_irreflexive(a.label);
        lemma_lex_irreflexive(a.source_file);
        lemma_lex_irreflexive(b.node_id);
        lemma_lex_irreflexive(b.label);
        lemma_lex_irreflexive(b.source_file);
        if lex_lt(a.node_id, b.node_id) && lex_lt(b.node_id, c.node_id) {
            lemma_lex_transitive(a.node_id, b.node_id, c.node_id);
        }
        if lex_lt(a.label, b.label) && lex_lt(b.label, c.label) {
            lemma_lex_transitive(a.label, b.label, c.label);
        }
        if lex_lt(a.source_file, b.source_file) && lex_lt(b.source_file, c.source_file) {
            lemma_lex_transitive(a.source_file, b.source_file, c.source_file);
        }
    }

    proof fn lemma_total(a: GraphNodeView, b: GraphNodeView) {
        lemma_lex_total(a.node_id, b.node_id);
        lemma_lex_total(a.label, b.label);
        lemma_lex_total(a.source_file, b.source_file);
    }

    fn compare(&self, other: &Self) -> (c: Cmp) {
        proof {
            lemma_lex_irreflexive(self.node_id@);
            lemma_lex_irreflexive(self.label@);
            lemma_lex_irreflexive(self.source_file@);
            lemma_lex_total(self.node_id@, other.node_id@);
            lemma_lex_total(self.label@, other.label@);
            lemma_lex_total(self.source_file@, other.source_file@);
        }
        match compare_str(self.node_id.as_str(), other.node_id.as_str()) {
            Cmp::Equal => {},
            c => { return c; },
        }
        match compare_str(self.label.as_str(), other.label.as_str()) {
            Cmp::Equal => {},
            c => { return c; },
        }
        match compare_str(self.source_file.as_str(), other.source_file.as_str()) {
            Cmp::Equal => {},
            c => { return c; },
        }
        if self.start_line < other.start_line {
            Cmp::Less
        } else if self.start_line == other.start_line {
            Cmp::Equal
        } else {
            Cmp::Greater
        }
    }
}

impl Canonical for GraphEdge {
    open spec fn lt(a: GraphEdgeView, b: GraphEdgeView) -> bool {
        edge_lt(a, b)
    }

    proof fn lemma_irreflexive(a: GraphEdgeView) {
        lemma_lex_irreflexive(a.source);
        lemma_lex_irreflexive(a.target);
        lemma_lex_irreflexive(a.relation);
    }

    proof fn lemma_transitive(a: GraphEdgeView, b: GraphEdgeView, c: GraphEdgeView) {
        lemma_lex_irreflexive(a.source);
        lemma_lex_irreflexive(a.target);
        lemma_lex_irreflexive(b.source);
        lemma_lex_irreflexive(b.target);
        if lex_lt(a.source, b.source) && lex_lt(b.source, c.source) {
            lemma_lex_transitive(a.source, b.source, c.source);
        }
        if lex_lt(a.target, b.target) && lex_lt(b.target, c.target) {
            lemma_lex_transitive(a.target, b.target, c.target);
        }
        if lex_lt(a.relation, b.relation) && lex_lt(b.relation, c.relation) {
            lemma_lex_transitive(a.relation, b.relation, c.relation);
        }
    }

    proof fn lemma_total(a: GraphEdgeView, b: GraphEdgeView) {
        lemma_lex_total(a.source, b.source);
        lemma_lex_total(a.target, b.target);
        lemma_lex_total(a.relation, b.relation);
    }

    fn compare(&self, other: &Self) -> (c: Cmp) {
        proof {
            lemma_lex_irreflexive(self.source@);
            lemma_lex_irreflexive(self.target@);
            lemma_lex_irreflexive(self.relation@);
            lemma_lex_total(self.source@, other.source@);
            lemma_lex_total(self.target@, other.target@);
            lemma_lex_total(self.relation@, other.relation@);
        }
        match compare_str(self.source.as_str(), other.source.as_str()) {
            Cmp::Equal => {},
            c => { return c; },
        }
        match compare_str(self.target.as_str(), other.target.as_str()) {
            Cmp::Equal => {},
            c => { return c; },
        }
        compare_str(self.relation.as_str(), other.relation.as_str())
    }
}

impl Canonical for String {
    open spec fn lt(a: Seq<char>, b: Seq<char>) -> bool {
        lex_lt(a, b)
    }

    proof fn lemma_irreflexive(a: Seq<char>) {
        lemma_lex_irreflexive(a);
    }

    proof fn lemma_transitive(a: Seq<char>, b: Seq<char>, c: Seq<char>) {
        lemma_lex_transitive(a, b, c);
    }

    proof fn lemma_total(a: Seq<char>, b: Seq<char>) {
        lemma_lex_total(a, b);
    }

    fn compare(&self, other: &Self) -> (c: Cmp) {
        compare_str(self.as_str(), other.as_str())
    }
}

} // verus!
