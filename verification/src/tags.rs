//! Definition and call-reference identification through each grammar's bundled `tags.scm` query.
//! The query says *what is a definition or a call, and its name*; containment and call qualifiers
//! are left to the graph walk over the tree. This module is the classifier: it turns the query's
//! matches into the tagged definitions and calls of one file.

use vstd::prelude::*;

use std::collections::HashMap;

use tree_sitter::StreamingIterator;

use crate::lang::{by_id, compile_tags, query_compiles, tags_source_of, uses_tags, CompiledTags, GraphStrategy, LanguageSupport, ParsedTree, Registered};
use crate::text::{starts_with, str_eq, str_starts_with};

verus! {

broadcast use vstd::std_specs::hash::group_hash_axioms;

/// The compiled query type.
#[verifier::external_type_specification]
#[verifier::external_body]
pub struct ExQuery(tree_sitter::Query);

/// One tagged definition: the graph node kind (normalised across languages) and its symbol name.
#[derive(Debug, Clone)]
pub struct DefTag {
    pub kind: &'static str,
    pub name: Option<String>,
}

pub struct DefTagView {
    pub kind: Seq<char>,
    pub name: Option<Seq<char>>,
}

impl View for DefTag {
    type V = DefTagView;

    open spec fn view(&self) -> DefTagView {
        DefTagView { kind: self.kind@, name: crate::graph::opt_view(self.name) }
    }
}

/// The per-file classification the tags query yields, keyed by tree-node id (stable within one
/// parse): `defs` maps a definition node to its kind and name; `calls` maps a callee name node to
/// the bare callee name.
#[derive(Debug)]
pub struct TaggedSymbols {
    pub defs: HashMap<usize, DefTag>,
    pub calls: HashMap<usize, String>,
}

pub struct TaggedSymbolsView {
    pub defs: Map<usize, DefTagView>,
    pub calls: Map<usize, Seq<char>>,
}

impl View for TaggedSymbols {
    type V = TaggedSymbolsView;

    open spec fn view(&self) -> TaggedSymbolsView {
        TaggedSymbolsView {
            defs: self.defs@.map_values(|d: DefTag| d@),
            calls: self.calls@.map_values(|s: String| s@),
        }
    }
}

impl Default for TaggedSymbols {
    fn default() -> (t: Self)
        ensures
            t@.defs == Map::<usize, DefTagView>::empty(),
            t@.calls == Map::<usize, Seq<char>>::empty(),
    {
        let t = TaggedSymbols { defs: HashMap::new(), calls: HashMap::new() };
        assert(t@.defs =~= Map::<usize, DefTagView>::empty());
        assert(t@.calls =~= Map::<usize, Seq<char>>::empty());
        t
    }
}

/// One capture of one query match, as plain values: the capture's name in the query, and the
/// captured node's id and byte range in the source.
#[derive(Clone, Debug)]
pub struct Capture {
    pub name: String,
    pub node_id: usize,
    pub start_byte: usize,
    pub end_byte: usize,
}

pub struct CaptureView {
    pub name: Seq<char>,
    pub node_id: usize,
    pub start_byte: usize,
    pub end_byte: usize,
}

impl View for Capture {
    type V = CaptureView;

    open spec fn view(&self) -> CaptureView {
        CaptureView {
            name: self.name@,
            node_id: self.node_id,
            start_byte: self.start_byte,
            end_byte: self.end_byte,
        }
    }
}

/// The graph node kind of a `@definition.<suffix>` capture, or `None` to skip it. Callables and
/// type containers are kept; a Scala `object` is a class; constants, modules, variables and
/// properties are value bindings, not call-graph material.
pub open spec fn def_kind_spec(suffix: Seq<char>) -> Option<Seq<char>> {
    if suffix == "function"@ {
        Some("function"@)
    } else if suffix == "method"@ {
        Some("method"@)
    } else if suffix == "class"@ || suffix == "object"@ {
        Some("class"@)
    } else if suffix == "interface"@ {
        Some("interface"@)
    } else if suffix == "enum"@ {
        Some("enum"@)
    } else if suffix == "type"@ {
        Some("type"@)
    } else {
        None
    }
}

/// Map a `@definition.<suffix>` capture suffix to a graph node kind (see [`def_kind_spec`]).
pub fn map_def_kind(suffix: &str) -> (r: Option<&'static str>)
    ensures
        match r {
            Some(k) => def_kind_spec(suffix@) == Some(k@),
            None => def_kind_spec(suffix@) is None,
        },
{
    if str_eq(suffix, "function") {
        Some("function")
    } else if str_eq(suffix, "method") {
        Some("method")
    } else if str_eq(suffix, "class") || str_eq(suffix, "object") {
        Some("class")
    } else if str_eq(suffix, "interface") {
        Some("interface")
    } else if str_eq(suffix, "enum") {
        Some("enum")
    } else if str_eq(suffix, "type") {
        Some("type")
    } else {
        None
    }
}

/// The number of bytes UTF-8 encodes `c` in.
pub open spec fn utf8_width(c: char) -> nat {
    if (c as u32) < 0x80 {
        1
    } else if (c as u32) < 0x800 {
        2
    } else if (c as u32) < 0x10000 {
        3
    } else {
        4
    }
}

/// The byte offset, in the UTF-8 encoding of `s`, at which its `k`-th char starts (the length of
/// the encoding for `k == s.len()`).
pub open spec fn byte_offset(s: Seq<char>, k: int) -> nat
    decreases k,
{
    if k <= 0 || s.len() == 0 {
        0
    } else if k > s.len() {
        byte_offset(s, s.len() as int)
    } else {
        byte_offset(s, k - 1) + utf8_width(s[k - 1])
    }
}

/// The text of `source` between byte offsets `start` and `end`, as `str::get(start..end)` gives
/// it: the chars from the one starting at `start` up to the one starting at `end` when both
/// offsets fall on char boundaries (the end of the text counts as one) and `start <= end`;
/// otherwise nothing.
pub open spec fn source_slice(source: Seq<char>, start: usize, end: usize) -> Option<Seq<char>> {
    if exists|i: int, j: int|
        0 <= i <= j <= source.len() && #[trigger] byte_offset(source, i) == start && #[trigger] byte_offset(
            source,
            j,
        ) == end {
        let (i, j) = choose|i: int, j: int|
            0 <= i <= j <= source.len() && #[trigger] byte_offset(source, i) == start && #[trigger] byte_offset(
                source,
                j,
            ) == end;
        Some(source.subrange(i, j))
    } else {
        None
    }
}

/// `source.get(start..end)`, owned: the text between the two byte offsets, or `None` when the
/// range is reversed, out of bounds or not on char boundaries. Claimed: the result is
/// [`source_slice`] for the same arguments, `str` being UTF-8 and `get` slicing by byte offsets.
#[verifier::external_body]
fn node_text(source: &str, start: usize, end: usize) -> (r: Option<String>)
    ensures
        crate::graph::opt_view(r) == source_slice(source@, start, end),
{
    match source.get(start..end) {
        Some(s) => Some(s.to_string()),
        None => None,
    }
}

/// What the captures of one match say, read in order (a later capture of a role overrides an
/// earlier one).
pub struct MatchScan {
    pub def_node: Option<usize>,
    pub def_kind: Option<Seq<char>>,
    pub name_node: Option<(usize, usize, usize)>,
    pub is_call: bool,
}

/// Read the captures of one match: `@name` gives the name node, `@reference.call` marks a call,
/// `@definition.<suffix>` gives the definition node and its kind; other captures are ignored.
pub open spec fn scan(caps: Seq<CaptureView>) -> MatchScan
    decreases caps.len(),
{
    if caps.len() == 0 {
        MatchScan { def_node: None, def_kind: None, name_node: None, is_call: false }
    } else {
        let s = scan(caps.drop_last());
        let c = caps.last();
        if c.name == "name"@ {
            MatchScan { name_node: Some((c.node_id, c.start_byte, c.end_byte)), ..s }
        } else if c.name == "reference.call"@ {
            MatchScan { is_call: true, ..s }
        } else if starts_with(c.name, "definition."@) {
            MatchScan {
                def_node: Some(c.node_id),
                def_kind: def_kind_spec(c.name.skip("definition."@.len() as int)),
                ..s
            }
        } else {
            s
        }
    }
}

/// The tags after one more match: a kept definition is recorded under its node (with its name's
/// text, when there is one); otherwise a call with a readable name node is recorded under that
/// node; anything else changes nothing.
pub open spec fn apply_match(t: TaggedSymbolsView, caps: Seq<CaptureView>, source: Seq<char>) -> TaggedSymbolsView {
    let s = scan(caps);
    if s.def_node is Some && s.def_kind is Some {
        TaggedSymbolsView {
            defs: t.defs.insert(
                s.def_node->0,
                DefTagView {
                    kind: s.def_kind->0,
                    name: match s.name_node {
                        Some(nn) => source_slice(source, nn.1, nn.2),
                        None => None,
                    },
                },
            ),
            ..t
        }
    } else if s.is_call {
        match s.name_node {
            Some(nn) => match source_slice(source, nn.1, nn.2) {
                Some(text) => TaggedSymbolsView { calls: t.calls.insert(nn.0, text), ..t },
                None => t,
            },
            None => t,
        }
    } else {
        t
    }
}

/// The tags of a file's matches, taken in order.
pub open spec fn tags_of(matches: Seq<Seq<CaptureView>>, source: Seq<char>) -> TaggedSymbolsView
    decreases matches.len(),
{
    if matches.len() == 0 {
        TaggedSymbolsView { defs: Map::empty(), calls: Map::empty() }
    } else {
        apply_match(tags_of(matches.drop_last(), source), matches.last(), source)
    }
}

/// One of the graph's definition node kinds.
pub open spec fn graph_def_kind(k: Seq<char>) -> bool {
    k == "function"@ || k == "method"@ || k == "class"@ || k == "interface"@ || k == "enum"@ || k
        == "type"@
}

/// Every recorded definition has one of the graph's definition kinds.
pub open spec fn kinds_kept(t: TaggedSymbolsView) -> bool {
    forall|id: usize| t.defs.dom().contains(id) ==> graph_def_kind(#[trigger] t.defs[id].kind)
}

proof fn lemma_scan_kind(caps: Seq<CaptureView>)
    ensures
        scan(caps).def_kind matches Some(k) ==> graph_def_kind(k),
    decreases caps.len(),
{
    if caps.len() > 0 {
        lemma_scan_kind(caps.drop_last());
    }
}

/// Whatever the matches, the tags keep only the graph's definition kinds.
pub proof fn lemma_tags_kinds_kept(matches: Seq<Seq<CaptureView>>, source: Seq<char>)
    ensures
        kinds_kept(tags_of(matches, source)),
    decreases matches.len(),
{
    if matches.len() > 0 {
        lemma_tags_kinds_kept(matches.drop_last(), source);
        lemma_scan_kind(matches.last());
    }
}

/// The views of the captures of each match.
pub open spec fn match_views(matches: Seq<Vec<Capture>>) -> Seq<Seq<CaptureView>> {
    matches.map_values(|m: Vec<Capture>| crate::graph::canon::views(m@))
}

/// Read the captures of one match (see [`scan`]).
fn scan_match(caps: &Vec<Capture>) -> (r: (Option<usize>, Option<&'static str>, Option<(usize, usize, usize)>, bool))
    ensures
        r.0 == scan(crate::graph::canon::views(caps@)).def_node,
        match r.1 {
            Some(k) => scan(crate::graph::canon::views(caps@)).def_kind == Some(k@),
            None => scan(crate::graph::canon::views(caps@)).def_kind is None,
        },
        r.2 == scan(crate::graph::canon::views(caps@)).name_node,
        r.3 == scan(crate::graph::canon::views(caps@)).is_call,
{
    let ghost cv = crate::graph::canon::views(caps@);
    let mut def_node: Option<usize> = None;
    let mut def_kind: Option<&'static str> = None;
    let mut name_node: Option<(usize, usize, usize)> = None;
    let mut is_call = false;
    let mut i: usize = 0;
    assert(cv.take(0) =~= Seq::<CaptureView>::empty());
    while i < caps.len()
        invariant
            i <= caps@.len(),
            cv == crate::graph::canon::views(caps@),
            def_node == scan(cv.take(i as int)).def_node,
            match def_kind {
                Some(k) => scan(cv.take(i as int)).def_kind == Some(k@),
                None => scan(cv.take(i as int)).def_kind is None,
            },
            name_node == scan(cv.take(i as int)).name_node,
            is_call == scan(cv.take(i as int)).is_call,
        decreases caps.len() - i,
    {
        let c = &caps[i];
        assert(cv.take(i + 1).drop_last() =~= cv.take(i as int));
        assert(cv.take(i + 1).last() == c@);
        if str_eq(c.name.as_str(), "name") {
            name_node = Some((c.node_id, c.start_byte, c.end_byte));
        } else if str_eq(c.name.as_str(), "reference.call") {
            is_call = true;
        } else if str_starts_with(c.name.as_str(), "definition.") {
            let len = c.name.as_str().unicode_len();
            let prefix_len = "definition.".unicode_len();
            def_node = Some(c.node_id);
            def_kind = map_def_kind(c.name.as_str().substring_char(prefix_len, len));
            assert(c.name@.subrange(prefix_len as int, len as int) =~= c.name@.skip(
                "definition."@.len() as int,
            ));
        }
        i = i + 1;
    }
    assert(cv.take(i as int) =~= cv);
    (def_node, def_kind, name_node, is_call)
}

/// Turn a file's query matches, each a list of captures, into its tagged definitions and calls
/// (see [`tags_of`]).
pub fn classify(matches: &Vec<Vec<Capture>>, source: &str) -> (t: TaggedSymbols)
    ensures
        t@ == tags_of(match_views(matches@), source@),
{
    let ghost mv = match_views(matches@);
    let mut out = TaggedSymbols::default();
    let mut k: usize = 0;
    assert(mv.take(0) =~= Seq::<Seq<CaptureView>>::empty());
    while k < matches.len()
        invariant
            k <= matches@.len(),
            mv == match_views(matches@),
            out@ == tags_of(mv.take(k as int), source@),
        decreases matches.len() - k,
    {
        let m = &matches[k];
        assert(mv.take(k + 1).drop_last() =~= mv.take(k as int));
        assert(mv.take(k + 1).last() == crate::graph::canon::views(m@));
        let ghost before = out@;
        let (def_node, def_kind, name_node, is_call) = scan_match(m);
        match (def_node, def_kind) {
            (Some(node), Some(kind)) => {
                let name = match name_node {
                    Some((_, start, end)) => node_text(source, start, end),
                    None => None,
                };
                let tag = DefTag { kind, name };
                let ghost old_defs = out.defs@;
                out.defs.insert(node, tag);
                assert(out@.defs =~= before.defs.insert(node, tag@));
            },
            _ => {
                if is_call {
                    if let Some((id, start, end)) = name_node {
                        if let Some(text) = node_text(source, start, end) {
                            let ghost t = text@;
                            out.calls.insert(id, text);
                            assert(out@.calls =~= before.calls.insert(id, t));
                        }
                    }
                }
            },
        }
        k = k + 1;
    }
    assert(mv.take(k as int) =~= mv);
    out
}

/// A capture as a span: its capture name and its node's byte range.
pub open spec fn capture_span(c: CaptureView) -> (Seq<char>, usize, usize) {
    (c.name, c.start_byte, c.end_byte)
}

/// The spans of every capture of every match, match by match.
pub open spec fn match_spans(ms: Seq<Seq<CaptureView>>) -> Seq<Seq<(Seq<char>, usize, usize)>> {
    ms.map_values(|m: Seq<CaptureView>| m.map_values(|c: CaptureView| capture_span(c)))
}

/// Captures that carry the same node id carry the same byte range: an id stands for one node of the
/// tree.
pub open spec fn ids_consistent(ms: Seq<Seq<CaptureView>>) -> bool {
    forall|x1: int, y1: int, x2: int, y2: int|
        0 <= x1 < ms.len() && 0 <= y1 < ms[x1].len() && 0 <= x2 < ms.len() && 0 <= y2 < ms[x2].len() && (
        #[trigger] ms[x1][y1]).node_id == (#[trigger] ms[x2][y2]).node_id ==> ms[x1][y1].start_byte
            == ms[x2][y2].start_byte && ms[x1][y1].end_byte == ms[x2][y2].end_byte
}

proof fn lemma_scan_nodes(caps: Seq<CaptureView>)
    ensures
        scan(caps).def_node matches Some(id) ==> exists|y: int|
            0 <= y < caps.len() && (#[trigger] caps[y]).node_id == id && starts_with(caps[y].name, "definition."@),
        scan(caps).name_node matches Some(nn) ==> exists|y: int|
            0 <= y < caps.len() && (#[trigger] caps[y]).node_id == nn.0 && caps[y].name == "name"@
                && caps[y].start_byte == nn.1 && caps[y].end_byte == nn.2,
    decreases caps.len(),
{
    if caps.len() > 0 {
        let c1 = caps.drop_last();
        lemma_scan_nodes(c1);
        let last = caps.len() - 1;
        assert(caps[last] == caps.last());
        if scan(c1).def_node is Some {
            let id = scan(c1).def_node->0;
            let y = choose|y: int|
                0 <= y < c1.len() && (#[trigger] c1[y]).node_id == id && starts_with(c1[y].name, "definition."@);
            assert(caps[y] == c1[y]);
        }
        if scan(c1).name_node is Some {
            let nn = scan(c1).name_node->0;
            let y = choose|y: int|
                0 <= y < c1.len() && (#[trigger] c1[y]).node_id == nn.0 && c1[y].name == "name"@ && c1[y].start_byte
                    == nn.1 && c1[y].end_byte == nn.2;
            assert(caps[y] == c1[y]);
        }
    }
}

/// How the tags are keyed: every recorded definition under the node id of a `@definition.*`
/// capture of the matches, every recorded call under the node id of a `@name` capture; and when
/// the matches' ids stand for nodes ([`ids_consistent`]), every capture carrying a definition's key
/// spans that definition capture's bytes, so a definition is never keyed by its name node (whose
/// span differs).
pub proof fn lemma_tags_keyed_by_captured_nodes(ms: Seq<Seq<CaptureView>>, source: Seq<char>)
    ensures
        forall|k: usize|
            #[trigger] tags_of(ms, source).defs.dom().contains(k) ==> exists|x: int, y: int|
                0 <= x < ms.len() && 0 <= y < ms[x].len() && (#[trigger] ms[x][y]).node_id == k && starts_with(
                    ms[x][y].name,
                    "definition."@,
                ) && (ids_consistent(ms) ==> forall|x2: int, y2: int|
                    0 <= x2 < ms.len() && 0 <= y2 < ms[x2].len() && (#[trigger] ms[x2][y2]).node_id == k
                        ==> ms[x2][y2].start_byte == ms[x][y].start_byte && ms[x2][y2].end_byte
                        == ms[x][y].end_byte),
        forall|k: usize|
            #[trigger] tags_of(ms, source).calls.dom().contains(k) ==> exists|x: int, y: int|
                0 <= x < ms.len() && 0 <= y < ms[x].len() && (#[trigger] ms[x][y]).node_id == k && ms[x][y].name
                    == "name"@,
    decreases ms.len(),
{
    if ms.len() > 0 {
        let m1 = ms.drop_last();
        lemma_tags_keyed_by_captured_nodes(m1, source);
        let last = ms.len() - 1;
        assert(ms[last] == ms.last());
        lemma_scan_nodes(ms.last());
        assert forall|x: int, y: int| 0 <= x < m1.len() && 0 <= y < m1[x].len() implies #[trigger] ms[x][y] == m1[x][y] by {
            assert(ms[x] == m1[x]);
        }
        assert forall|x1: int, y1: int, x2: int, y2: int|
            ids_consistent(ms) && 0 <= x1 < m1.len() && 0 <= y1 < m1[x1].len() && 0 <= x2 < m1.len() && 0 <= y2
                < m1[x2].len() && (#[trigger] m1[x1][y1]).node_id == (#[trigger] m1[x2][y2]).node_id implies m1[x1][y1].start_byte
            == m1[x2][y2].start_byte && m1[x1][y1].end_byte == m1[x2][y2].end_byte by {
            assert(ms[x1][y1] == m1[x1][y1]);
            assert(ms[x2][y2] == m1[x2][y2]);
        }
        assert(ids_consistent(ms) ==> ids_consistent(m1));
        let t1 = tags_of(m1, source);
        let t = tags_of(ms, source);
        assert forall|k: usize| #[trigger] t.defs.dom().contains(k) implies exists|x: int, y: int|
            0 <= x < ms.len() && 0 <= y < ms[x].len() && (#[trigger] ms[x][y]).node_id == k && starts_with(
                ms[x][y].name,
                "definition."@,
            ) && (ids_consistent(ms) ==> forall|x2: int, y2: int|
                0 <= x2 < ms.len() && 0 <= y2 < ms[x2].len() && (#[trigger] ms[x2][y2]).node_id == k
                    ==> ms[x2][y2].start_byte == ms[x][y].start_byte && ms[x2][y2].end_byte == ms[x][y].end_byte) by {
            let sc = scan(ms.last());
            if sc.def_node is Some && sc.def_kind is Some && sc.def_node->0 == k {
                let y = choose|y: int|
                    0 <= y < ms.last().len() && (#[trigger] ms.last()[y]).node_id == k && starts_with(
                        ms.last()[y].name,
                        "definition."@,
                    );
                assert(ms[last][y] == ms.last()[y]);
            } else {
                assert(t1.defs.dom().contains(k));
                let (x, y) = choose|x: int, y: int|
                    0 <= x < m1.len() && 0 <= y < m1[x].len() && (#[trigger] m1[x][y]).node_id == k && starts_with(
                        m1[x][y].name,
                        "definition."@,
                    ) && (ids_consistent(m1) ==> forall|x2: int, y2: int|
                        0 <= x2 < m1.len() && 0 <= y2 < m1[x2].len() && (#[trigger] m1[x2][y2]).node_id == k
                            ==> m1[x2][y2].start_byte == m1[x][y].start_byte && m1[x2][y2].end_byte
                            == m1[x][y].end_byte);
                assert(ms[x][y] == m1[x][y]);
            }
        }
        assert forall|k: usize| #[trigger] t.calls.dom().contains(k) implies exists|x: int, y: int|
            0 <= x < ms.len() && 0 <= y < ms[x].len() && (#[trigger] ms[x][y]).node_id == k && ms[x][y].name
                == "name"@ by {
            let sc = scan(ms.last());
            if !(sc.def_node is Some && sc.def_kind is Some) && sc.is_call && sc.name_node is Some && (sc.name_node->0).0 == k {
                let nn = sc.name_node->0;
                let y = choose|y: int|
                    0 <= y < ms.last().len() && (#[trigger] ms.last()[y]).node_id == nn.0 && ms.last()[y].name
                        == "name"@ && ms.last()[y].start_byte == nn.1 && ms.last()[y].end_byte == nn.2;
                assert(ms[last][y] == ms.last()[y]);
            } else {
                assert(t1.calls.dom().contains(k));
                let (x, y) = choose|x: int, y: int|
                    0 <= x < m1.len() && 0 <= y < m1[x].len() && (#[trigger] m1[x][y]).node_id == k && m1[x][y].name
                        == "name"@;
                assert(ms[x][y] == m1[x][y]);
            }
        }
    }
}

/// The matches of the tags query `query_source`, compiled for the grammar of the language with id
/// `grammar`, over the tree that grammar parses `code` into, with text predicates reading
/// `source`: each match's captures as (capture name, start byte, end byte), in the order
/// `QueryCursor::matches` yields them.
pub uninterp spec fn tag_matches(
    grammar: Seq<char>,
    query_source: Seq<char>,
    code: Seq<char>,
    source: Seq<char>,
) -> Seq<Seq<(Seq<char>, usize, usize)>>;

/// Run `query` over the whole of `tree` (`QueryCursor::matches`) and hand back every match's
/// captures as plain values, in the order the cursor yields them. The text a predicate reads for
/// a node is `source.as_bytes().get(node.byte_range())`, empty where that range lies outside
/// `source`, so a tree that does not belong to `source` cannot make the cursor index out of
/// bounds. Claimed: the captures' names and byte ranges are the matches named [`tag_matches`] for
/// the query's grammar and text, the tree's code, and `source` (the cursor's result depends on
/// those alone). A node id is `Node::id`, which no two nodes of one tree share, so captures with
/// the same id are of the same node and span the same bytes ([`ids_consistent`]); nothing more is
/// claimed of the ids, which are the nodes' addresses.
#[verifier::external_body]
fn query_captures(query: &CompiledTags, tree: &ParsedTree, source: &str) -> (r: Vec<Vec<Capture>>)
    requires
        query@.grammar == tree@.grammar,
    ensures
        match_spans(match_views(r@)) == tag_matches(query@.grammar, query@.source, tree@.code, source@),
        ids_consistent(match_views(r@)),
{
    let names = query.query.capture_names();
    let bytes = source.as_bytes();
    let text = |n: tree_sitter::Node| std::iter::once(bytes.get(n.byte_range()).unwrap_or(&[]));
    let mut cursor = tree_sitter::QueryCursor::new();
    let mut it = cursor.matches(&query.query, tree.tree.root_node(), text);
    let mut out = Vec::new();
    while let Some(m) = it.next() {
        out.push(m.captures.iter().map(|c| Capture {
            name: names[c.index as usize].to_string(),
            node_id: c.node.id(),
            start_byte: c.node.start_byte(),
            end_byte: c.node.end_byte(),
        }).collect());
    }
    out
}

/// Run a compiled tags `query` over a `tree` of the same grammar and classify the matches, reading
/// names from `source`: the tags of the matches [`tag_matches`] names, keyed by the ids the tree
/// gives their nodes (see [`lemma_tags_keyed_by_captured_nodes`]).
pub fn extract_with(query: &CompiledTags, tree: &ParsedTree, source: &str) -> (t: TaggedSymbols)
    requires
        query@.grammar == tree@.grammar,
    ensures
        exists|ms: Seq<Seq<CaptureView>>|
            match_spans(ms) == tag_matches(query@.grammar, query@.source, tree@.code, source@) && ids_consistent(ms)
                && t@ == tags_of(ms, source@),
        kinds_kept(t@),
{
    let matches = query_captures(query, tree, source);
    let t = classify(&matches, source);
    proof {
        lemma_tags_kinds_kept(match_views(matches@), source@);
    }
    t
}

/// Run the bundled tags query for `language` over a `tree` parsed in that language. `None` for a
/// language with no tags pipeline (Rust keeps its own extractor; an unknown id has no grammar;
/// some grammars have no graph), and when the language's query does not compile; otherwise the
/// tags of the query's matches over the tree.
pub fn extract(language: &str, tree: &ParsedTree, source: &str) -> (r: Option<TaggedSymbols>)
    requires
        forall|l: Registered|
            crate::lang::registered_id(l) == language@ && uses_tags(l) ==> tree@.grammar == language@,
    ensures
        (forall|l: Registered| crate::lang::registered_id(l) == language@ ==> !uses_tags(l)) ==> r is None,
        forall|l: Registered|
            crate::lang::registered_id(l) == language@ && uses_tags(l) ==> (r is Some <==> query_compiles(
                language@,
                tags_source_of(l),
            )),
        forall|l: Registered|
            crate::lang::registered_id(l) == language@ && uses_tags(l) ==> (r matches Some(t) ==> exists|
                ms: Seq<Seq<CaptureView>>,
            |
                match_spans(ms) == tag_matches(language@, tags_source_of(l), tree@.code, source@)
                    && ids_consistent(ms) && t@ == tags_of(ms, source@)),
        r matches Some(t) ==> kinds_kept(t@),
{
    let lang = match by_id(language) {
        Some(l) => l,
        None => {
            return None;
        },
    };
    proof {
        assert forall|l: Registered| crate::lang::registered_id(l) == language@ implies l == lang by {
            crate::lang::lemma_registered_id_injective(l, lang);
        }
    }
    let q = match lang.graph_strategy() {
        Some(GraphStrategy::Tags(q)) => q,
        _ => {
            return None;
        },
    };
    let query = match compile_tags(lang, q.source.as_str()) {
        Some(query) => query,
        None => {
            return None;
        },
    };
    Some(extract_with(&query, tree, source))
}

} // verus!
