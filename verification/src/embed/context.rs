//! Builds the graph-aware text sent to the embedding model: a small deterministic header
//! (enclosing container, callees, callers) ahead of the chunk's own source. Pure, no I/O, and
//! deterministic: the same chunk and graph always render the same text.

use vstd::prelude::*;

use crate::chunk::{Chunk, ChunkView};
use crate::graph::{Graph, GraphEdgeView, GraphNode, GraphNodeView};
use crate::graph::order::same_items;
use vstd::seq_lib::to_multiset_contains;
use crate::embed::lookup::{
    build_id_index, build_loc_index, id_index, last_index_of, lemma_find_idx_is_last, loc_index,
    nodes_at, IdSlot, LocSlot,
};
use crate::embed::EmbedConfig;
use crate::graph::canon::{canonicalize, lemma_strictly_sorted_unique, strictly_sorted, views};
use crate::text::{chars_end_with, chars_of, compare_str, decimal, ends_with, lex_lt, u64_to_decimal, Cmp};

verus! {

broadcast use {vstd::seq_lib::group_seq_properties, vstd::seq::Seq::lemma_filter_push};

/// The index of the last node whose id is `id` (the node a by-id lookup that lets later nodes
/// overwrite earlier ones finds).
pub open spec fn find_idx(nodes: Seq<GraphNodeView>, id: Seq<char>) -> Option<int>
    decreases nodes.len(),
{
    if nodes.len() == 0 {
        None
    } else if nodes.last().node_id == id {
        Some(nodes.len() - 1)
    } else {
        find_idx(nodes.drop_last(), id)
    }
}

/// One edge the header uses: a `calls` edge, or a container (`contains`/`method`) edge, with the
/// node indices of its endpoints.
pub struct LinkView {
    pub calls: bool,
    pub source: int,
    pub target: int,
}

/// The link an edge contributes: `calls` edges, and `contains`/`method` edges whose parent is not
/// the child's own file node, both of whose endpoints are graph nodes.
pub open spec fn edge_link(nodes: Seq<GraphNodeView>, e: crate::graph::GraphEdgeView) -> Option<LinkView> {
    match (find_idx(nodes, e.source), find_idx(nodes, e.target)) {
        (Some(s), Some(t)) => if e.relation == "calls"@ {
            Some(LinkView { calls: true, source: s, target: t })
        } else if (e.relation == "contains"@ || e.relation == "method"@) && e.source
            != nodes[t].source_file {
            Some(LinkView { calls: false, source: s, target: t })
        } else {
            None
        },
        _ => None,
    }
}

/// The links of `edges`, in edge order.
pub open spec fn header_links(nodes: Seq<GraphNodeView>, edges: Seq<crate::graph::GraphEdgeView>) -> Seq<LinkView>
    decreases edges.len(),
{
    if edges.len() == 0 {
        Seq::empty()
    } else {
        let prev = header_links(nodes, edges.drop_last());
        match edge_link(nodes, edges.last()) {
            Some(l) => prev.push(l),
            None => prev,
        }
    }
}

/// A header link with `usize` node indices.
#[derive(Clone, Copy)]
pub struct Link {
    pub calls: bool,
    pub source: usize,
    pub target: usize,
}

impl View for Link {
    type V = LinkView;

    open spec fn view(&self) -> LinkView {
        LinkView { calls: self.calls, source: self.source as int, target: self.target as int }
    }
}

/// Whether node `n` sits at `file`, 1-based line `line`.
pub open spec fn at_location(n: GraphNodeView, file: Seq<char>, line: int) -> bool {
    n.source_file == file && n.start_line == line
}

/// The indices below `k` of the nodes at `file`/`line`, in graph order.
pub open spec fn located(nodes: Seq<GraphNodeView>, file: Seq<char>, line: int, k: int) -> Seq<int>
    decreases k,
{
    if k <= 0 {
        Seq::empty()
    } else {
        let prev = located(nodes, file, line, k - 1);
        if at_location(nodes[k - 1], file, line) {
            prev.push(k - 1)
        } else {
            prev
        }
    }
}

/// The first of `idxs` whose node id ends with `suffix`.
pub open spec fn first_suffix_match(nodes: Seq<GraphNodeView>, idxs: Seq<int>, suffix: Seq<char>) -> Option<int>
    decreases idxs.len(),
{
    if idxs.len() == 0 {
        None
    } else {
        match first_suffix_match(nodes, idxs.drop_last(), suffix) {
            Some(i) => Some(i),
            None => if ends_with(nodes[idxs.last()].node_id, suffix) {
                Some(idxs.last())
            } else {
                None
            },
        }
    }
}

/// The first of `idxs` whose node id is least (the head of a stable sort by node id).
pub open spec fn first_min_id(nodes: Seq<GraphNodeView>, idxs: Seq<int>) -> int
    decreases idxs.len(),
{
    if idxs.len() <= 1 {
        idxs[0]
    } else {
        let m = first_min_id(nodes, idxs.drop_last());
        if lex_lt(nodes[idxs.last()].node_id, nodes[m].node_id) {
            idxs.last()
        } else {
            m
        }
    }
}

/// The node a chunk maps to. Node lines are 1-based and chunk lines 0-based, so the lookup is at
/// `start_line + 1` in the chunk's file. Among several nodes there, the first whose id ends with
/// `:<symbol name>` wins when the chunk has a symbol name; otherwise the first with the least id.
pub open spec fn chunk_node(
    nodes: Seq<GraphNodeView>,
    file: Seq<char>,
    start_line: i32,
    symbol: Option<Seq<char>>,
) -> Option<int> {
    let idxs = located(nodes, file, start_line as int + 1, nodes.len() as int);
    if idxs.len() == 0 {
        None
    } else {
        match symbol {
            Some(s) => match first_suffix_match(nodes, idxs, ":"@ + s) {
                Some(i) => Some(i),
                None => Some(first_min_id(nodes, idxs)),
            },
            None => Some(first_min_id(nodes, idxs)),
        }
    }
}

proof fn lemma_located_bounds(nodes: Seq<GraphNodeView>, file: Seq<char>, line: int, k: int)
    requires
        k <= nodes.len(),
    ensures
        forall|j: int| 0 <= j < located(nodes, file, line, k).len() ==> 0 <= #[trigger] located(nodes, file, line, k)[j] < k,
    decreases k,
{
    if k > 0 {
        lemma_located_bounds(nodes, file, line, k - 1);
        let prev = located(nodes, file, line, k - 1);
        assert forall|j: int| 0 <= j < located(nodes, file, line, k).len() implies 0
            <= #[trigger] located(nodes, file, line, k)[j] < k by {
            if j < prev.len() {
                assert(located(nodes, file, line, k)[j] == prev[j]);
            }
        }
    }
}

proof fn lemma_first_min_in(nodes: Seq<GraphNodeView>, idxs: Seq<int>)
    requires
        idxs.len() > 0,
    ensures
        idxs.contains(first_min_id(nodes, idxs)),
    decreases idxs.len(),
{
    if idxs.len() > 1 {
        lemma_first_min_in(nodes, idxs.drop_last());
        let m = first_min_id(nodes, idxs.drop_last());
        let k = choose|k: int| 0 <= k < idxs.drop_last().len() && idxs.drop_last()[k] == m;
        assert(idxs[k] == m);
        assert(idxs[idxs.len() - 1] == idxs.last());
    } else {
        assert(idxs[0] == first_min_id(nodes, idxs));
    }
}

proof fn lemma_suffix_match_in(nodes: Seq<GraphNodeView>, idxs: Seq<int>, suffix: Seq<char>)
    ensures
        first_suffix_match(nodes, idxs, suffix) matches Some(i) ==> idxs.contains(i),
    decreases idxs.len(),
{
    if idxs.len() > 0 {
        lemma_suffix_match_in(nodes, idxs.drop_last(), suffix);
        if let Some(i) = first_suffix_match(nodes, idxs.drop_last(), suffix) {
            let k = choose|k: int| 0 <= k < idxs.drop_last().len() && idxs.drop_last()[k] == i;
            assert(idxs[k] == i);
        } else {
            assert(idxs[idxs.len() - 1] == idxs.last());
        }
    }
}

/// How a node is listed on a `calls:`/`called by:` line: `label [source_file]`.
pub open spec fn ref_text(n: GraphNodeView) -> Seq<char> {
    n.label + " ["@ + n.source_file + "]"@
}

/// The callees of the node with id `key`: the target nodes of the `calls` links whose source node
/// has that id, in link order.
pub open spec fn callee_nodes(nodes: Seq<GraphNodeView>, links: Seq<LinkView>, key: Seq<char>) -> Seq<GraphNodeView>
    decreases links.len(),
{
    if links.len() == 0 {
        Seq::empty()
    } else {
        let prev = callee_nodes(nodes, links.drop_last(), key);
        let l = links.last();
        if l.calls && nodes[l.source].node_id == key {
            prev.push(nodes[l.target])
        } else {
            prev
        }
    }
}

/// The callers of the node with id `key`: the source nodes of the `calls` links whose target node
/// has that id, in link order.
pub open spec fn caller_nodes(nodes: Seq<GraphNodeView>, links: Seq<LinkView>, key: Seq<char>) -> Seq<GraphNodeView>
    decreases links.len(),
{
    if links.len() == 0 {
        Seq::empty()
    } else {
        let prev = caller_nodes(nodes, links.drop_last(), key);
        let l = links.last();
        if l.calls && nodes[l.target].node_id == key {
            prev.push(nodes[l.source])
        } else {
            prev
        }
    }
}

/// The container of the node with id `key`: the parent of the last container link into it.
pub open spec fn container_node(nodes: Seq<GraphNodeView>, links: Seq<LinkView>, key: Seq<char>) -> Option<GraphNodeView>
    decreases links.len(),
{
    if links.len() == 0 {
        None
    } else {
        let l = links.last();
        if !l.calls && nodes[l.target].node_id == key {
            Some(nodes[l.source])
        } else {
            container_node(nodes, links.drop_last(), key)
        }
    }
}

/// `texts` sorted and deduplicated: the strictly increasing sequence holding exactly its values
/// (unique, by `lemma_strictly_sorted_unique`).
pub open spec fn sorted_distinct(texts: Seq<Seq<char>>) -> Seq<Seq<char>> {
    sorted_set(texts.to_set())
}

/// The strictly increasing sequence holding exactly the texts of `s`.
pub open spec fn sorted_set(s: Set<Seq<char>>) -> Seq<Seq<char>> {
    choose|r: Seq<Seq<char>>| strictly_sorted::<String>(r) && (forall|y: Seq<char>| r.contains(y) <==> s.contains(y))
}

/// `items` joined with `sep` between neighbours.
pub open spec fn join(items: Seq<Seq<char>>, sep: Seq<char>) -> Seq<char>
    decreases items.len(),
{
    if items.len() == 0 {
        Seq::empty()
    } else if items.len() == 1 {
        items[0]
    } else {
        join(items.drop_last(), sep) + sep + items.last()
    }
}

/// The rendered reference list of `ns`: their texts sorted and deduplicated, comma-joined, capped
/// at `cap` entries with ` (+N more)` when cut; `None` when `ns` is empty.
pub open spec fn render_refs_spec(ns: Seq<GraphNodeView>, cap: nat) -> Option<Seq<char>> {
    if ns.len() == 0 {
        None
    } else {
        let r = sorted_distinct(ns.map_values(|n: GraphNodeView| ref_text(n)));
        if r.len() > cap {
            Some(join(r.take(cap as int), ", "@) + " (+"@ + decimal((r.len() - cap) as nat) + " more)"@)
        } else {
            Some(join(r, ", "@))
        }
    }
}

/// The text of `header + content` cut to `max` chars: the header kept whole and the content cut to
/// the chars left, or, when the header alone reaches `max`, the header itself cut.
pub open spec fn truncated(header: Seq<char>, content: Seq<char>, max: nat) -> Seq<char> {
    if header.len() >= max {
        header.take(max as int)
    } else {
        let room = (max - header.len()) as int;
        header + content.take(if content.len() < room { content.len() as int } else { room })
    }
}

/// One optional header line: `prefix`, the value, a newline; nothing when there is no value.
pub open spec fn opt_line(prefix: Seq<char>, value: Option<Seq<char>>) -> Seq<char> {
    match value {
        Some(v) => prefix + v + "\n"@,
        None => Seq::empty(),
    }
}

/// The graph part of a chunk's header: `within:`, `calls:` and `called by:` lines for the node the
/// chunk maps to, each present only when it has something to say.
pub open spec fn graph_lines(c: ChunkView, g: crate::graph::GraphView, cap: nat) -> Seq<char> {
    let links = header_links(g.nodes, g.edges);
    match chunk_node(g.nodes, c.file_path, c.start_line, c.symbol_name) {
        None => Seq::empty(),
        Some(i) => {
            let key = g.nodes[i].node_id;
            let within = match container_node(g.nodes, links, key) {
                Some(p) => Some(p.label),
                None => None,
            };
            opt_line("// within: "@, within)
                + opt_line("// calls: "@, render_refs_spec(callee_nodes(g.nodes, links, key), cap))
                + opt_line("// called by: "@, render_refs_spec(caller_nodes(g.nodes, links, key), cap))
        },
    }
}

/// The header of a chunk: file, language, chunk type (with its symbol name when it has one), the
/// graph lines, and a blank line.
pub open spec fn header_text(c: ChunkView, g: crate::graph::GraphView, cap: nat) -> Seq<char> {
    let kind = match c.symbol_name {
        Some(name) => "// "@ + c.chunk_type + ": "@ + name + "\n"@,
        None => "// "@ + c.chunk_type + "\n"@,
    };
    "// file: "@ + c.file_path + "\n"@ + "// language: "@ + c.language + "\n"@ + kind + graph_lines(c, g, cap)
        + "\n"@
}

/// The text sent to the embedding model for a chunk.
pub open spec fn embed_input_text(c: ChunkView, g: crate::graph::GraphView, max_refs: nat, max_chars: nat) -> Seq<char> {
    truncated(header_text(c, g, max_refs), c.content, max_chars)
}

/// `label [source_file]` for `n`.
fn ref_string(n: &GraphNode) -> (s: String)
    ensures
        s@ == ref_text(n@),
{
    let mut s = String::from_str(n.label.as_str());
    s.append(" [");
    s.append(n.source_file.as_str());
    s.append("]");
    s
}

proof fn lemma_join_step(items: Seq<Seq<char>>, sep: Seq<char>, i: int)
    requires
        0 <= i < items.len(),
    ensures
        join(items.take(i + 1), sep) == if i == 0 {
            items[0]
        } else {
            join(items.take(i), sep) + sep + items[i]
        },
{
    assert(items.take(i + 1).drop_last() =~= items.take(i));
    assert(items.take(i + 1).last() == items[i]);
}

/// Render `nodes` as sorted, deduplicated `label [source_file]` entries, comma-joined, capped at
/// `cap` entries with a trailing ` (+N more)` when cut. `None` when `nodes` is empty (the caller
/// then leaves the whole header line out).
pub fn render_refs(nodes: &Vec<&GraphNode>, cap: usize) -> (r: Option<String>)
    ensures
        crate::graph::opt_view(r) == render_refs_spec(views(nodes@), cap as nat),
{
    if nodes.len() == 0 {
        return None;
    }
    let ghost texts = views(nodes@).map_values(|n: GraphNodeView| ref_text(n));
    let mut rendered: Vec<String> = Vec::new();
    let mut i: usize = 0;
    while i < nodes.len()
        invariant
            i <= nodes@.len(),
            texts == views(nodes@).map_values(|n: GraphNodeView| ref_text(n)),
            views(rendered@) == texts.take(i as int),
        decreases nodes.len() - i,
    {
        let ghost before = rendered@;
        let t = ref_string(nodes[i]);
        assert(views(nodes@)[i as int] == nodes@[i as int]@);
        assert(texts[i as int] == t@);
        rendered.push(t);
        assert(views(rendered@) =~= views(before).push(t@));
        assert(views(rendered@) =~= texts.take(i + 1));
        i = i + 1;
    }
    assert(texts.take(i as int) =~= texts);
    let sorted = canonicalize(rendered);
    let ghost sv = views(sorted@);
    proof {
        let d = sorted_distinct(texts);
        assert(strictly_sorted::<String>(d) && forall|y: Seq<char>| d.contains(y) <==> texts.contains(y));
        lemma_strictly_sorted_unique::<String>(sv, d);
    }
    let total = sorted.len();
    let shown = if total > cap { cap } else { total };
    let mut out = String::new();
    let mut j: usize = 0;
    while j < shown
        invariant
            j <= shown <= sorted@.len(),
            sv == views(sorted@),
            out@ == join(sv.take(j as int), ", "@),
        decreases shown - j,
    {
        proof {
            lemma_join_step(sv, ", "@, j as int);
        }
        if j > 0 {
            out.append(", ");
        }
        assert(sv[j as int] == sorted@[j as int]@);
        out.append(sorted[j].as_str());
        j = j + 1;
    }
    if total > cap {
        out.append(" (+");
        let more = u64_to_decimal((total - cap) as u64);
        out.append(more.as_str());
        out.append(" more)");
    } else {
        assert(sv.take(j as int) =~= sv);
    }
    Some(out)
}

/// Truncate `header + content` to `max_chars` chars, never splitting a `char`: the header is kept
/// and `content` cut to the chars left; only when the header alone reaches the cap is the header
/// itself cut instead.
pub fn truncate_header_and_content(header: &str, content: &str, max_chars: usize) -> (r: String)
    ensures
        r@ == truncated(header@, content@, max_chars as nat),
{
    let header_chars = header.unicode_len();
    if header_chars >= max_chars {
        return String::from_str(header.substring_char(0, max_chars));
    }
    let room = max_chars - header_chars;
    let content_chars = content.unicode_len();
    let take = if content_chars < room { content_chars } else { room };
    let mut out = String::from_str(header);
    out.append(content.substring_char(0, take));
    out
}

fn push_opt_line(out: &mut String, prefix: &str, value: &Option<String>)
    ensures
        final(out)@ == old(out)@ + opt_line(prefix@, crate::graph::opt_view(*value)),
{
    if let Some(v) = value {
        out.append(prefix);
        out.append(v.as_str());
        out.append("\n");
    }
}

/// The text sent to the embedding model for `chunk`: a header block (file, language, chunk type and
/// symbol, then what the graph knows of the chunk's node), a blank line, then the chunk's content,
/// all cut to `config.max_input_chars` chars.
pub fn embed_input<V>(chunk: &Chunk<V>, index: &ContextIndex<'_>, config: &EmbedConfig) -> (r: String)
    requires
        index.wf(),
    ensures
        r@ == embed_input_text(
            chunk@,
            index.graph_view(),
            config.max_context_refs as nat,
            config.max_input_chars as nat,
        ),
{
    let ghost g = index.graph_view();
    let ghost cap = config.max_context_refs as nat;
    let mut header = String::from_str("// file: ");
    header.append(chunk.file_path.as_str());
    header.append("\n");
    header.append("// language: ");
    header.append(chunk.language.as_str());
    header.append("\n");
    match &chunk.symbol_name {
        Some(name) => {
            header.append("// ");
            header.append(chunk.chunk_type.as_str());
            header.append(": ");
            header.append(name.as_str());
            header.append("\n");
        },
        None => {
            header.append("// ");
            header.append(chunk.chunk_type.as_str());
            header.append("\n");
        },
    }
    let ghost top = header@;
    match index.map_chunk(chunk) {
        Some(node) => {
            let within = match index.container(node) {
                Some(p) => Some(String::from_str(p.label.as_str())),
                None => None,
            };
            push_opt_line(&mut header, "// within: ", &within);
            let callees = index.callees(node);
            let calls = render_refs(&callees, config.max_context_refs);
            push_opt_line(&mut header, "// calls: ", &calls);
            let callers = index.callers(node);
            let called_by = render_refs(&callers, config.max_context_refs);
            push_opt_line(&mut header, "// called by: ", &called_by);
            assert(header@ =~= top + graph_lines(chunk@, g, cap));
        },
        None => {
            assert(header@ =~= top + graph_lines(chunk@, g, cap));
        },
    }
    header.append("\n");
    assert(header@ =~= header_text(chunk@, g, cap));
    truncate_header_and_content(header.as_str(), chunk.content.as_str(), config.max_input_chars)
}

/// What truncation keeps: never more than `max` chars; a prefix of `header + content`, as long
/// as the whole or `max`; the header whole whenever it is shorter than `max`.
pub proof fn lemma_truncated_bounds(header: Seq<char>, content: Seq<char>, max: nat)
    ensures
        truncated(header, content, max).len() == if header.len() + content.len() < max {
            header.len() + content.len()
        } else {
            max
        },
        truncated(header, content, max) == (header + content).take(
            truncated(header, content, max).len() as int,
        ),
        header.len() < max ==> truncated(header, content, max).take(header.len() as int) == header,
{
    let r = truncated(header, content, max);
    assert(r =~= (header + content).take(r.len() as int));
    if header.len() < max {
        assert(r.take(header.len() as int) =~= header);
    }
}

/// The links of `links` that leave node `c`, in order.
pub open spec fn from_node(links: Seq<LinkView>, c: int) -> Seq<LinkView> {
    links.filter(|l: LinkView| l.source == c)
}

/// The links of `links` that enter node `c`, in order.
pub open spec fn into_node(links: Seq<LinkView>, c: int) -> Seq<LinkView> {
    links.filter(|l: LinkView| l.target == c)
}

/// The target nodes of the `calls` links among `ls`, in order.
pub open spec fn call_targets(nodes: Seq<GraphNodeView>, ls: Seq<LinkView>) -> Seq<GraphNodeView>
    decreases ls.len(),
{
    if ls.len() == 0 {
        Seq::empty()
    } else {
        let prev = call_targets(nodes, ls.drop_last());
        if ls.last().calls {
            prev.push(nodes[ls.last().target])
        } else {
            prev
        }
    }
}

/// The source nodes of the `calls` links among `ls`, in order.
pub open spec fn call_sources(nodes: Seq<GraphNodeView>, ls: Seq<LinkView>) -> Seq<GraphNodeView>
    decreases ls.len(),
{
    if ls.len() == 0 {
        Seq::empty()
    } else {
        let prev = call_sources(nodes, ls.drop_last());
        if ls.last().calls {
            prev.push(nodes[ls.last().source])
        } else {
            prev
        }
    }
}

/// The source node of the last container link among `ls`.
pub open spec fn last_parent(nodes: Seq<GraphNodeView>, ls: Seq<LinkView>) -> Option<GraphNodeView>
    decreases ls.len(),
{
    if ls.len() == 0 {
        None
    } else if !ls.last().calls {
        Some(nodes[ls.last().source])
    } else {
        last_parent(nodes, ls.drop_last())
    }
}

/// Every link names nodes of the graph, each by the position a lookup of its id gives.
pub open spec fn canonical_links(nodes: Seq<GraphNodeView>, links: Seq<LinkView>) -> bool {
    forall|j: int|
        0 <= j < links.len() ==> {
            let l = #[trigger] links[j];
            &&& 0 <= l.source < nodes.len()
            &&& 0 <= l.target < nodes.len()
            &&& find_idx(nodes, nodes[l.source].node_id) == Some(l.source)
            &&& find_idx(nodes, nodes[l.target].node_id) == Some(l.target)
        }
}

proof fn lemma_header_links_canonical(nodes: Seq<GraphNodeView>, edges: Seq<crate::graph::GraphEdgeView>)
    ensures
        canonical_links(nodes, header_links(nodes, edges)),
    decreases edges.len(),
{
    if edges.len() > 0 {
        lemma_header_links_canonical(nodes, edges.drop_last());
        let prev = header_links(nodes, edges.drop_last());
        let e = edges.last();
        lemma_find_idx_is_last(nodes, e.source);
        lemma_find_idx_is_last(nodes, e.target);
        let cur = header_links(nodes, edges);
        assert forall|j: int| 0 <= j < cur.len() implies {
            let l = #[trigger] cur[j];
            &&& 0 <= l.source < nodes.len()
            &&& 0 <= l.target < nodes.len()
            &&& find_idx(nodes, nodes[l.source].node_id) == Some(l.source)
            &&& find_idx(nodes, nodes[l.target].node_id) == Some(l.target)
        } by {
            if j < prev.len() {
                assert(cur[j] == prev[j]);
            }
        }
    }
}

/// The neighbours of the node with id `key` are read off the links at the position its id names:
/// its callees from the links leaving it, its callers and container from those entering it.
proof fn lemma_neighbours_by_position(nodes: Seq<GraphNodeView>, links: Seq<LinkView>, key: Seq<char>)
    requires
        canonical_links(nodes, links),
    ensures
        callee_nodes(nodes, links, key) == match find_idx(nodes, key) {
            Some(c) => call_targets(nodes, from_node(links, c)),
            None => Seq::empty(),
        },
        caller_nodes(nodes, links, key) == match find_idx(nodes, key) {
            Some(c) => call_sources(nodes, into_node(links, c)),
            None => Seq::empty(),
        },
        container_node(nodes, links, key) == match find_idx(nodes, key) {
            Some(c) => last_parent(nodes, into_node(links, c)),
            None => None,
        },
    decreases links.len(),
{
    if links.len() > 0 {
        let prev = links.drop_last();
        assert forall|j: int| 0 <= j < prev.len() implies #[trigger] prev[j] == links[j] by {}
        assert(canonical_links(nodes, prev));
        lemma_neighbours_by_position(nodes, prev, key);
        lemma_find_idx_is_last(nodes, key);
        let l = links.last();
        assert(links[links.len() - 1] == l);
        assert(links == prev.push(l));
        match find_idx(nodes, key) {
            Some(c) => {
                assert((nodes[l.source].node_id == key) == (l.source == c));
                assert((nodes[l.target].node_id == key) == (l.target == c));
                assert(from_node(links, c) == if l.source == c {
                    from_node(prev, c).push(l)
                } else {
                    from_node(prev, c)
                });
                assert(into_node(links, c) == if l.target == c {
                    into_node(prev, c).push(l)
                } else {
                    into_node(prev, c)
                });
                if l.source == c {
                    assert(from_node(links, c).drop_last() == from_node(prev, c));
                }
                if l.target == c {
                    assert(into_node(links, c).drop_last() == into_node(prev, c));
                }
            },
            None => {
                assert(nodes[l.source].node_id != key);
                assert(nodes[l.target].node_id != key);
            },
        }
    }
}

/// A graph-derived index over one resolved [`Graph`], built once and consulted per chunk: sorted
/// tables of the nodes by id and by location, and for each node the header links leaving it and
/// entering it.
pub struct ContextIndex<'g> {
    graph: &'g Graph,
    ids: Vec<IdSlot>,
    locs: Vec<LocSlot>,
    outgoing: Vec<Vec<Link>>,
    incoming: Vec<Vec<Link>>,
}

impl<'g> ContextIndex<'g> {
    /// The graph this index was built over.
    pub closed spec fn graph_view(&self) -> crate::graph::GraphView {
        self.graph@
    }

    /// The tables describe the graph: every node by id and by location, and at each node exactly
    /// the header links leaving it and entering it.
    pub closed spec fn wf(&self) -> bool {
        let nodes = self.graph@.nodes;
        let links = header_links(nodes, self.graph@.edges);
        &&& id_index(views(self.ids@), nodes)
        &&& loc_index(views(self.locs@), nodes)
        &&& canonical_links(nodes, links)
        &&& self.outgoing@.len() == nodes.len()
        &&& self.incoming@.len() == nodes.len()
        &&& forall|c: int|
            0 <= c < nodes.len() ==> views((#[trigger] self.outgoing@[c])@) == from_node(links, c)
        &&& forall|c: int|
            0 <= c < nodes.len() ==> views((#[trigger] self.incoming@[c])@) == into_node(links, c)
        &&& forall|c: int, j: int|
            0 <= c < nodes.len() && 0 <= j < self.outgoing@[c]@.len() ==> (#[trigger] self.outgoing@[c]@[j]).target
                < nodes.len()
        &&& forall|c: int, j: int|
            0 <= c < nodes.len() && 0 <= j < self.incoming@[c]@.len() ==> (#[trigger] self.incoming@[c]@[j]).source
                < nodes.len()
    }

    /// Build the index from a resolved [`Graph`]: `O((n + e) log n)`.
    pub fn build(graph: &'g Graph) -> (ix: ContextIndex<'g>)
        ensures
            ix.wf(),
            ix.graph_view() == graph@,
    {
        let ghost nv = graph@.nodes;
        let ghost ev = graph@.edges;
        let ids = build_id_index(&graph.nodes);
        let locs = build_loc_index(&graph.nodes);
        let n = graph.nodes.len();
        let mut outgoing: Vec<Vec<Link>> = Vec::new();
        let mut incoming: Vec<Vec<Link>> = Vec::new();
        let mut i: usize = 0;
        while i < n
            invariant
                i <= n,
                n == nv.len(),
                outgoing@.len() == i,
                incoming@.len() == i,
                forall|c: int| 0 <= c < i ==> (#[trigger] outgoing@[c])@.len() == 0,
                forall|c: int| 0 <= c < i ==> (#[trigger] incoming@[c])@.len() == 0,
            decreases n - i,
        {
            outgoing.push(Vec::new());
            incoming.push(Vec::new());
            i = i + 1;
        }
        proof {
            assert(ev.take(0) =~= Seq::<crate::graph::GraphEdgeView>::empty());
            assert forall|c: int| 0 <= c < n implies views((#[trigger] outgoing@[c])@) == from_node(
                header_links(nv, ev.take(0)),
                c,
            ) by {
                assert(views(outgoing@[c]@) =~= Seq::<LinkView>::empty());
                assert(header_links(nv, ev.take(0)) =~= Seq::<LinkView>::empty());
                assert(Seq::<LinkView>::empty().filter(|l: LinkView| l.source == c) =~= Seq::<LinkView>::empty());
            }
            assert forall|c: int| 0 <= c < n implies views((#[trigger] incoming@[c])@) == into_node(
                header_links(nv, ev.take(0)),
                c,
            ) by {
                assert(views(incoming@[c]@) =~= Seq::<LinkView>::empty());
                assert(header_links(nv, ev.take(0)) =~= Seq::<LinkView>::empty());
                assert(Seq::<LinkView>::empty().filter(|l: LinkView| l.target == c) =~= Seq::<LinkView>::empty());
            }
        }
        let mut k: usize = 0;
        while k < graph.edges.len()
            invariant
                0 <= k <= graph.edges@.len(),
                nv == graph@.nodes,
                ev == graph@.edges,
                n == nv.len(),
                id_index(views(ids@), nv),
                outgoing@.len() == n,
                incoming@.len() == n,
                forall|c: int| 0 <= c < n ==> views((#[trigger] outgoing@[c])@) == from_node(
                    header_links(nv, ev.take(k as int)),
                    c,
                ),
                forall|c: int| 0 <= c < n ==> views((#[trigger] incoming@[c])@) == into_node(
                    header_links(nv, ev.take(k as int)),
                    c,
                ),
                forall|c: int, j: int|
                    0 <= c < n && 0 <= j < outgoing@[c]@.len() ==> (#[trigger] outgoing@[c]@[j]).target < n,
                forall|c: int, j: int|
                    0 <= c < n && 0 <= j < incoming@[c]@.len() ==> (#[trigger] incoming@[c]@[j]).source < n,
            decreases graph.edges.len() - k,
        {
            let e = &graph.edges[k];
            assert(e@ == ev[k as int]);
            assert(ev.take(k + 1).drop_last() =~= ev.take(k as int));
            assert(ev.take(k + 1).last() == e@);
            let ghost hl = header_links(nv, ev.take(k as int));
            let s = last_index_of(&ids, e.source.as_str(), Ghost(nv));
            let t = last_index_of(&ids, e.target.as_str(), Ghost(nv));
            proof {
                lemma_find_idx_is_last(nv, e@.source);
                lemma_find_idx_is_last(nv, e@.target);
            }
            let mut link: Option<Link> = None;
            if let (Some(s), Some(t)) = (s, t) {
                proof {
                    reveal_strlit("calls");
                    reveal_strlit("contains");
                    reveal_strlit("method");
                }
                let is_calls = e.relation == String::from_str("calls");
                let is_container = e.relation == String::from_str("contains") || e.relation
                    == String::from_str("method");
                assert(nv[t as int] == graph.nodes@[t as int]@);
                if is_calls {
                    link = Some(Link { calls: true, source: s, target: t });
                } else if is_container && e.source != graph.nodes[t].source_file {
                    link = Some(Link { calls: false, source: s, target: t });
                }
            }
            match link {
                Some(l) => {
                    assert(header_links(nv, ev.take(k + 1)) == hl.push(l@));
                    let ghost og = outgoing@;
                    let ghost ig = incoming@;
                    outgoing[l.source].push(l);
                    incoming[l.target].push(l);
                    proof {
                        assert forall|c: int| 0 <= c < n implies views((#[trigger] outgoing@[c])@) == from_node(
                            hl.push(l@),
                            c,
                        ) by {
                            if c == l.source {
                                assert(views(outgoing@[c]@) =~= views(og[c]@).push(l@));
                            } else {
                                assert(outgoing@[c] == og[c]);
                            }
                        }
                        assert forall|c: int| 0 <= c < n implies views((#[trigger] incoming@[c])@) == into_node(
                            hl.push(l@),
                            c,
                        ) by {
                            if c == l.target {
                                assert(views(incoming@[c]@) =~= views(ig[c]@).push(l@));
                            } else {
                                assert(incoming@[c] == ig[c]);
                            }
                        }
                        assert forall|c: int, j: int|
                            0 <= c < n && 0 <= j < outgoing@[c]@.len() implies (#[trigger] outgoing@[c]@[j]).target < n by {
                            if c == l.source && j == og[c]@.len() {
                            } else if c == l.source {
                                assert(outgoing@[c]@[j] == og[c]@[j]);
                            } else {
                                assert(outgoing@[c] == og[c]);
                            }
                        }
                        assert forall|c: int, j: int|
                            0 <= c < n && 0 <= j < incoming@[c]@.len() implies (#[trigger] incoming@[c]@[j]).source < n by {
                            if c == l.target && j == ig[c]@.len() {
                            } else if c == l.target {
                                assert(incoming@[c]@[j] == ig[c]@[j]);
                            } else {
                                assert(incoming@[c] == ig[c]);
                            }
                        }
                    }
                },
                None => {
                    assert(header_links(nv, ev.take(k + 1)) == hl);
                },
            }
            k = k + 1;
        }
        assert(ev.take(k as int) =~= ev);
        proof {
            lemma_header_links_canonical(nv, ev);
        }
        ContextIndex { graph, ids, locs, outgoing, incoming }
    }
}

impl<'g> ContextIndex<'g> {
    /// The position the id of `node` names in the graph (the last node with that id).
    fn position_of(&self, node: &GraphNode) -> (r: Option<usize>)
        requires
            self.wf(),
        ensures
            match r {
                Some(c) => find_idx(self.graph_view().nodes, node@.node_id) == Some(c as int),
                None => find_idx(self.graph_view().nodes, node@.node_id) is None,
            },
    {
        let n = self.graph.nodes.len();
        assert(self.graph@.nodes.len() == n);
        last_index_of(&self.ids, node.node_id.as_str(), Ghost(self.graph@.nodes))
    }

    /// The index of the node `chunk` maps to (see [`chunk_node`]).
    pub fn map_chunk_index<V>(&self, chunk: &Chunk<V>) -> (r: Option<usize>)
        requires
            self.wf(),
        ensures
            match r {
                Some(i) => i < self.graph_view().nodes.len() && chunk_node(
                    self.graph_view().nodes,
                    chunk@.file_path,
                    chunk@.start_line,
                    chunk@.symbol_name,
                ) == Some(i as int),
                None => chunk_node(
                    self.graph_view().nodes,
                    chunk@.file_path,
                    chunk@.start_line,
                    chunk@.symbol_name,
                ) is None,
            },
    {
        let nodes = &self.graph.nodes;
        let ghost nv = self.graph@.nodes;
        let line: i64 = chunk.start_line as i64 + 1;
        let count = nodes.len();
        assert(nv.len() == count);
        let at = nodes_at(&self.locs, chunk.file_path.as_str(), line, Ghost(nv));
        let ghost idxs = located(nv, chunk@.file_path, line as int, nv.len() as int);
        assert(at@.map_values(|i: usize| i as int) == idxs);
        proof {
            lemma_located_bounds(nv, chunk@.file_path, line as int, nv.len() as int);
        }
        if at.len() == 0 {
            return None;
        }
        let ghost sym_suffix: Seq<char> = match chunk@.symbol_name {
            Some(s) => ":"@ + s,
            None => Seq::empty(),
        };
        let suffix: Option<Vec<char>> = match &chunk.symbol_name {
            Some(name) => {
                let mut sfx = String::from_str(":");
                sfx.append(name.as_str());
                Some(chars_of(sfx.as_str()))
            },
            None => None,
        };
        let mut best: usize = at[0];
        let mut sym: Option<usize> = None;
        assert(idxs.take(1) =~= seq![idxs[0]]);
        assert(idxs[0] == at@[0] as int);
        proof {
            assert(first_suffix_match(nv, idxs.take(0), sym_suffix) is None) by {
                assert(idxs.take(0) =~= Seq::<int>::empty());
            }
        }
        let mut k: usize = 0;
        while k < at.len()
            invariant
                0 <= k <= at@.len(),
                at@.len() == idxs.len(),
                at@.len() > 0,
                forall|j: int| 0 <= j < at@.len() ==> #[trigger] at@[j] as int == idxs[j],
                forall|j: int| 0 <= j < idxs.len() ==> 0 <= #[trigger] idxs[j] < nv.len(),
                nv == self.graph@.nodes,
                nv == views(nodes@),
                match suffix {
                    Some(v) => chunk@.symbol_name is Some && v@ == sym_suffix,
                    None => chunk@.symbol_name is None,
                },
                k > 0 ==> best as int == first_min_id(nv, idxs.take(k as int)),
                k == 0 ==> best == at@[0],
                suffix is Some ==> match sym {
                    Some(j) => first_suffix_match(nv, idxs.take(k as int), sym_suffix) == Some(j as int),
                    None => first_suffix_match(nv, idxs.take(k as int), sym_suffix) is None,
                },
            decreases at.len() - k,
        {
            let i = at[k];
            assert(i as int == idxs[k as int]);
            assert(idxs.take(k + 1).drop_last() =~= idxs.take(k as int));
            assert(idxs.take(k + 1).last() == i as int);
            let n = &nodes[i];
            assert(n@ == nv[i as int]);
            if k == 0 {
                assert(idxs.take(1) =~= seq![i as int]);
                best = i;
            } else {
                proof {
                    lemma_first_min_in(nv, idxs.take(k as int));
                    let m = choose|m: int| 0 <= m < idxs.take(k as int).len() && idxs.take(k as int)[m] == best as int;
                    assert(idxs[m] == best as int);
                }
                let c = compare_str(n.node_id.as_str(), nodes[best].node_id.as_str());
                assert(nv[best as int] == nodes@[best as int]@);
                if c == Cmp::Less {
                    best = i;
                }
            }
            if let Some(sfx) = &suffix {
                if sym.is_none() {
                    let id_chars = chars_of(n.node_id.as_str());
                    if chars_end_with(&id_chars, sfx) {
                        sym = Some(i);
                    }
                }
            }
            k = k + 1;
        }
        assert(idxs.take(k as int) =~= idxs);
        proof {
            lemma_first_min_in(nv, idxs);
            match sym {
                Some(j) => {
                    if suffix is Some {
                        lemma_suffix_match_in(nv, idxs, sym_suffix);
                    }
                },
                None => {},
            }
        }
        match sym {
            Some(j) => {
                if suffix.is_some() {
                    return Some(j);
                }
            },
            None => {},
        }
        Some(best)
    }

    /// The node `chunk` maps to, or `None` for a window chunk, a chunk with no node at its line,
    /// or any chunk of a walk that built no graph.
    pub fn map_chunk<V>(&self, chunk: &Chunk<V>) -> (r: Option<&'g GraphNode>)
        requires
            self.wf(),
        ensures
            match r {
                Some(n) => exists|i: int|
                    chunk_node(
                        self.graph_view().nodes,
                        chunk@.file_path,
                        chunk@.start_line,
                        chunk@.symbol_name,
                    ) == Some(i) && 0 <= i < self.graph_view().nodes.len() && n@ == self.graph_view().nodes[i],
                None => chunk_node(
                    self.graph_view().nodes,
                    chunk@.file_path,
                    chunk@.start_line,
                    chunk@.symbol_name,
                ) is None,
            },
    {
        match self.map_chunk_index(chunk) {
            Some(i) => {
                let n: &'g GraphNode = &self.graph.nodes[i];
                assert(n@ == self.graph_view().nodes[i as int]);
                Some(n)
            },
            None => None,
        }
    }

    /// The node a container link into `node` comes from (the last such link wins), if any.
    pub fn container(&self, node: &GraphNode) -> (r: Option<&'g GraphNode>)
        requires
            self.wf(),
        ensures
            match container_node(
                self.graph_view().nodes,
                header_links(self.graph_view().nodes, self.graph_view().edges),
                node@.node_id,
            ) {
                Some(p) => r is Some && r->0@ == p,
                None => r is None,
            },
    {
        let ghost nv = self.graph@.nodes;
        let ghost links = header_links(nv, self.graph@.edges);
        proof {
            lemma_neighbours_by_position(nv, links, node@.node_id);
            lemma_find_idx_is_last(nv, node@.node_id);
        }
        let c = match self.position_of(node) {
            Some(c) => c,
            None => {
                return None;
            },
        };
        let ins = &self.incoming[c];
        let ghost lv = views(ins@);
        assert(lv == into_node(links, c as int));
        let mut k: usize = ins.len();
        assert(lv.take(k as int) =~= lv);
        while k > 0
            invariant
                k <= ins@.len(),
                lv == views(ins@),
                nv == self.graph@.nodes,
                links == header_links(nv, self.graph@.edges),
                container_node(nv, links, node@.node_id) == last_parent(nv, lv),
                forall|j: int| 0 <= j < ins@.len() ==> (#[trigger] ins@[j]).source < nv.len(),
                last_parent(nv, lv) == last_parent(nv, lv.take(k as int)),
            decreases k,
        {
            let l = ins[k - 1];
            assert(lv.take(k as int).last() == l@);
            assert(lv.take(k as int).drop_last() =~= lv.take(k - 1));
            if !l.calls {
                let p: &'g GraphNode = &self.graph.nodes[l.source];
                assert(p@ == nv[l.source as int]);
                return Some(p);
            }
            k = k - 1;
        }
        assert(lv.take(0) =~= Seq::<LinkView>::empty());
        None
    }

    /// The callees of `node`, in edge order (with repeats).
    pub fn callees(&self, node: &GraphNode) -> (r: Vec<&'g GraphNode>)
        requires
            self.wf(),
        ensures
            views(r@) == callee_nodes(
                self.graph_view().nodes,
                header_links(self.graph_view().nodes, self.graph_view().edges),
                node@.node_id,
            ),
    {
        let ghost nv = self.graph@.nodes;
        let ghost links = header_links(nv, self.graph@.edges);
        proof {
            lemma_neighbours_by_position(nv, links, node@.node_id);
            lemma_find_idx_is_last(nv, node@.node_id);
        }
        let mut out: Vec<&'g GraphNode> = Vec::new();
        let c = match self.position_of(node) {
            Some(c) => c,
            None => {
                assert(views(out@) =~= Seq::<GraphNodeView>::empty());
                return out;
            },
        };
        let og = &self.outgoing[c];
        let ghost lv = views(og@);
        assert(lv == from_node(links, c as int));
        let mut k: usize = 0;
        assert(lv.take(0) =~= Seq::<LinkView>::empty());
        while k < og.len()
            invariant
                k <= og@.len(),
                lv == views(og@),
                nv == self.graph@.nodes,
                forall|j: int| 0 <= j < og@.len() ==> (#[trigger] og@[j]).target < nv.len(),
                views(out@) == call_targets(nv, lv.take(k as int)),
            decreases og.len() - k,
        {
            let l = og[k];
            assert(lv.take(k + 1).last() == l@);
            assert(lv.take(k + 1).drop_last() =~= lv.take(k as int));
            if l.calls {
                let ghost before = views(out@);
                let n: &'g GraphNode = &self.graph.nodes[l.target];
                out.push(n);
                assert(views(out@) =~= before.push(nv[l.target as int]));
            }
            k = k + 1;
        }
        assert(lv.take(k as int) =~= lv);
        out
    }

    /// The callers of `node`, in edge order (with repeats).
    pub fn callers(&self, node: &GraphNode) -> (r: Vec<&'g GraphNode>)
        requires
            self.wf(),
        ensures
            views(r@) == caller_nodes(
                self.graph_view().nodes,
                header_links(self.graph_view().nodes, self.graph_view().edges),
                node@.node_id,
            ),
    {
        let ghost nv = self.graph@.nodes;
        let ghost links = header_links(nv, self.graph@.edges);
        proof {
            lemma_neighbours_by_position(nv, links, node@.node_id);
            lemma_find_idx_is_last(nv, node@.node_id);
        }
        let mut out: Vec<&'g GraphNode> = Vec::new();
        let c = match self.position_of(node) {
            Some(c) => c,
            None => {
                assert(views(out@) =~= Seq::<GraphNodeView>::empty());
                return out;
            },
        };
        let ins = &self.incoming[c];
        let ghost lv = views(ins@);
        assert(lv == into_node(links, c as int));
        let mut k: usize = 0;
        assert(lv.take(0) =~= Seq::<LinkView>::empty());
        while k < ins.len()
            invariant
                k <= ins@.len(),
                lv == views(ins@),
                nv == self.graph@.nodes,
                forall|j: int| 0 <= j < ins@.len() ==> (#[trigger] ins@[j]).source < nv.len(),
                views(out@) == call_sources(nv, lv.take(k as int)),
            decreases ins.len() - k,
        {
            let l = ins[k];
            assert(lv.take(k + 1).last() == l@);
            assert(lv.take(k + 1).drop_last() =~= lv.take(k as int));
            if l.calls {
                let ghost before = views(out@);
                let n: &'g GraphNode = &self.graph.nodes[l.source];
                out.push(n);
                assert(views(out@) =~= before.push(nv[l.source as int]));
            }
            k = k + 1;
        }
        assert(lv.take(k as int) =~= lv);
        out
    }
}

/// Whether an edge is a `calls` edge.
pub open spec fn is_calls_edge(e: GraphEdgeView) -> bool {
    e.relation == "calls"@
}

/// The links of the non-`calls` edges are the container links of all the edges, in order.
proof fn lemma_container_links(nodes: Seq<GraphNodeView>, edges: Seq<GraphEdgeView>)
    ensures
        header_links(nodes, edges.filter(|e: GraphEdgeView| !is_calls_edge(e))) == header_links(
            nodes,
            edges,
        ).filter(|l: LinkView| !l.calls),
    decreases edges.len(),
{
    let pe = |e: GraphEdgeView| !is_calls_edge(e);
    let pl = |l: LinkView| !l.calls;
    if edges.len() == 0 {
        assert(edges.filter(pe) =~= Seq::<GraphEdgeView>::empty());
        assert(header_links(nodes, edges).filter(pl) =~= Seq::<LinkView>::empty());
    } else {
        let e1 = edges.drop_last();
        lemma_container_links(nodes, e1);
        assert(edges =~= e1.push(edges.last()));
        let prev = header_links(nodes, e1);
        match edge_link(nodes, edges.last()) {
            Some(l) => {
                assert(header_links(nodes, edges) == prev.push(l));
                if pe(edges.last()) {
                    assert(edges.filter(pe) == e1.filter(pe).push(edges.last()));
                    assert(edges.filter(pe).drop_last() =~= e1.filter(pe));
                } else {
                    assert(edges.filter(pe) == e1.filter(pe));
                }
            },
            None => {
                if pe(edges.last()) {
                    assert(edges.filter(pe) == e1.filter(pe).push(edges.last()));
                    assert(edges.filter(pe).drop_last() =~= e1.filter(pe));
                } else {
                    assert(edges.filter(pe) == e1.filter(pe));
                }
            },
        }
    }
}

/// A node's container is read from the container links alone.
proof fn lemma_container_from_container_links(nodes: Seq<GraphNodeView>, links: Seq<LinkView>, key: Seq<char>)
    ensures
        container_node(nodes, links, key) == container_node(nodes, links.filter(|l: LinkView| !l.calls), key),
    decreases links.len(),
{
    let pl = |l: LinkView| !l.calls;
    if links.len() == 0 {
        assert(links.filter(pl) =~= Seq::<LinkView>::empty());
    } else {
        let l1 = links.drop_last();
        lemma_container_from_container_links(nodes, l1, key);
        assert(links =~= l1.push(links.last()));
        if pl(links.last()) {
            assert(links.filter(pl) == l1.filter(pl).push(links.last()));
            assert(links.filter(pl).drop_last() =~= l1.filter(pl));
        } else {
            assert(links.filter(pl) == l1.filter(pl));
        }
    }
}

/// The `calls` links of a graph are exactly the links of its `calls` edges.
proof fn lemma_call_links(nodes: Seq<GraphNodeView>, edges: Seq<GraphEdgeView>, l: LinkView)
    ensures
        header_links(nodes, edges).contains(l) && l.calls <==> exists|j: int|
            0 <= j < edges.len() && is_calls_edge(#[trigger] edges[j]) && edge_link(nodes, edges[j]) == Some(l),
    decreases edges.len(),
{
    if edges.len() > 0 {
        let e1 = edges.drop_last();
        lemma_call_links(nodes, e1, l);
        let last = edges.len() - 1;
        if exists|j: int| 0 <= j < e1.len() && is_calls_edge(#[trigger] e1[j]) && edge_link(nodes, e1[j]) == Some(l) {
            let j = choose|j: int| 0 <= j < e1.len() && is_calls_edge(#[trigger] e1[j]) && edge_link(nodes, e1[j]) == Some(l);
            assert(edges[j] == e1[j]);
        }
        if exists|j: int| 0 <= j < edges.len() && is_calls_edge(#[trigger] edges[j]) && edge_link(nodes, edges[j]) == Some(l) {
            let j = choose|j: int| 0 <= j < edges.len() && is_calls_edge(#[trigger] edges[j]) && edge_link(nodes, edges[j]) == Some(l);
            if j < last {
                assert(e1[j] == edges[j]);
            }
        }
    }
}

/// The callees of `key` are the targets of the `calls` links out of it.
proof fn lemma_callee_members(nodes: Seq<GraphNodeView>, links: Seq<LinkView>, key: Seq<char>, n: GraphNodeView)
    ensures
        callee_nodes(nodes, links, key).contains(n) <==> exists|l: LinkView|
            #[trigger] links.contains(l) && l.calls && nodes[l.source].node_id == key && n == nodes[l.target],
    decreases links.len(),
{
    if links.len() > 0 {
        let l1 = links.drop_last();
        lemma_callee_members(nodes, l1, key, n);
        assert(links =~= l1.push(links.last()));
        assert(links.contains(links[links.len() - 1]));
        assert forall|l: LinkView| l1.contains(l) implies links.contains(l) by {
            let k = choose|k: int| 0 <= k < l1.len() && l1[k] == l;
            assert(links[k] == l);
        }
        if exists|l: LinkView| #[trigger] l1.contains(l) && l.calls && nodes[l.source].node_id == key && n == nodes[l.target] {
            let l = choose|l: LinkView| #[trigger] l1.contains(l) && l.calls && nodes[l.source].node_id == key && n == nodes[l.target];
            assert(links.contains(l));
        }
        if exists|l: LinkView| #[trigger] links.contains(l) && l.calls && nodes[l.source].node_id == key && n == nodes[l.target] {
            let l = choose|l: LinkView| #[trigger] links.contains(l) && l.calls && nodes[l.source].node_id == key && n == nodes[l.target];
            if l != links.last() {
                assert(l1.contains(l));
            }
        }
    }
}

/// The callers of `key` are the sources of the `calls` links into it.
proof fn lemma_caller_members(nodes: Seq<GraphNodeView>, links: Seq<LinkView>, key: Seq<char>, n: GraphNodeView)
    ensures
        caller_nodes(nodes, links, key).contains(n) <==> exists|l: LinkView|
            #[trigger] links.contains(l) && l.calls && nodes[l.target].node_id == key && n == nodes[l.source],
    decreases links.len(),
{
    if links.len() > 0 {
        let l1 = links.drop_last();
        lemma_caller_members(nodes, l1, key, n);
        assert(links =~= l1.push(links.last()));
        assert(links.contains(links[links.len() - 1]));
        assert forall|l: LinkView| l1.contains(l) implies links.contains(l) by {
            let k = choose|k: int| 0 <= k < l1.len() && l1[k] == l;
            assert(links[k] == l);
        }
        if exists|l: LinkView| #[trigger] l1.contains(l) && l.calls && nodes[l.target].node_id == key && n == nodes[l.source] {
            let l = choose|l: LinkView| #[trigger] l1.contains(l) && l.calls && nodes[l.target].node_id == key && n == nodes[l.source];
            assert(links.contains(l));
        }
        if exists|l: LinkView| #[trigger] links.contains(l) && l.calls && nodes[l.target].node_id == key && n == nodes[l.source] {
            let l = choose|l: LinkView| #[trigger] links.contains(l) && l.calls && nodes[l.target].node_id == key && n == nodes[l.source];
            if l != links.last() {
                assert(l1.contains(l));
            }
        }
    }
}

/// Node lists holding the same nodes render the same reference list.
proof fn lemma_refs_by_members(a: Seq<GraphNodeView>, b: Seq<GraphNodeView>, cap: nat)
    requires
        forall|n: GraphNodeView| a.contains(n) <==> b.contains(n),
    ensures
        render_refs_spec(a, cap) == render_refs_spec(b, cap),
{
    if a.len() > 0 {
        assert(a.contains(a[0]));
    }
    if b.len() > 0 {
        assert(b.contains(b[0]));
    }
    let f = |n: GraphNodeView| ref_text(n);
    let ta = a.map_values(f);
    let tb = b.map_values(f);
    assert forall|y: Seq<char>| ta.contains(y) implies tb.contains(y) by {
        let k = choose|k: int| 0 <= k < ta.len() && ta[k] == y;
        assert(a.contains(a[k]));
        let m = choose|m: int| 0 <= m < b.len() && b[m] == a[k];
        assert(tb[m] == y);
    }
    assert forall|y: Seq<char>| tb.contains(y) implies ta.contains(y) by {
        let k = choose|k: int| 0 <= k < tb.len() && tb[k] == y;
        assert(b.contains(b[k]));
        let m = choose|m: int| 0 <= m < a.len() && a[m] == b[k];
        assert(ta[m] == y);
    }
    assert(ta.to_set() =~= tb.to_set());
}

/// Reordering a graph's `calls` edges, with its nodes and its other edges kept as they are, leaves
/// the text sent for every chunk unchanged; that text never exceeds `max_chars` chars.
pub proof fn lemma_embed_input_ignores_call_order(
    c: ChunkView,
    g1: crate::graph::GraphView,
    g2: crate::graph::GraphView,
    max_refs: nat,
    max_chars: nat,
)
    requires
        g1.nodes == g2.nodes,
        g1.edges.filter(|e: GraphEdgeView| !is_calls_edge(e)) == g2.edges.filter(|e: GraphEdgeView| !is_calls_edge(e)),
        same_items(g1.edges.filter(|e: GraphEdgeView| is_calls_edge(e)), g2.edges.filter(|e: GraphEdgeView| is_calls_edge(e))),
    ensures
        embed_input_text(c, g1, max_refs, max_chars) == embed_input_text(c, g2, max_refs, max_chars),
        embed_input_text(c, g1, max_refs, max_chars).len() <= max_chars,
{
    lemma_truncated_bounds(header_text(c, g1, max_refs), c.content, max_chars);
    let nodes = g1.nodes;
    let l1 = header_links(nodes, g1.edges);
    let l2 = header_links(nodes, g2.edges);
    let pc = |e: GraphEdgeView| is_calls_edge(e);
    let c1 = g1.edges.filter(pc);
    let c2 = g2.edges.filter(pc);
    lemma_container_links(nodes, g1.edges);
    lemma_container_links(nodes, g2.edges);
    assert forall|l: LinkView| l1.contains(l) && l.calls <==> l2.contains(l) && l.calls by {
        lemma_call_links(nodes, g1.edges, l);
        lemma_call_links(nodes, g2.edges, l);
        if l1.contains(l) && l.calls {
            let j = choose|j: int|
                0 <= j < g1.edges.len() && is_calls_edge(#[trigger] g1.edges[j]) && edge_link(nodes, g1.edges[j]) == Some(l);
            let e = g1.edges[j];
            assert(c1.contains(e));
            to_multiset_contains(c1, e);
            to_multiset_contains(c2, e);
            g2.edges.lemma_filter_contains_rev(pc, e);
            assert(c2.contains(e));
            assert(g2.edges.contains(e));
            let m = choose|m: int| 0 <= m < g2.edges.len() && g2.edges[m] == e;
            assert(is_calls_edge(g2.edges[m]) && edge_link(nodes, g2.edges[m]) == Some(l));
        }
        if l2.contains(l) && l.calls {
            let j = choose|j: int|
                0 <= j < g2.edges.len() && is_calls_edge(#[trigger] g2.edges[j]) && edge_link(nodes, g2.edges[j]) == Some(l);
            let e = g2.edges[j];
            assert(c2.contains(e));
            to_multiset_contains(c1, e);
            to_multiset_contains(c2, e);
            g1.edges.lemma_filter_contains_rev(pc, e);
            assert(c1.contains(e));
            assert(g1.edges.contains(e));
            let m = choose|m: int| 0 <= m < g1.edges.len() && g1.edges[m] == e;
            assert(is_calls_edge(g1.edges[m]) && edge_link(nodes, g1.edges[m]) == Some(l));
        }
    }
    match chunk_node(nodes, c.file_path, c.start_line, c.symbol_name) {
        None => {},
        Some(i) => {
            let key = nodes[i].node_id;
            lemma_container_from_container_links(nodes, l1, key);
            lemma_container_from_container_links(nodes, l2, key);
            assert forall|n: GraphNodeView|
                callee_nodes(nodes, l1, key).contains(n) <==> callee_nodes(nodes, l2, key).contains(n) by {
                lemma_callee_members(nodes, l1, key, n);
                lemma_callee_members(nodes, l2, key, n);
            }
            assert forall|n: GraphNodeView|
                caller_nodes(nodes, l1, key).contains(n) <==> caller_nodes(nodes, l2, key).contains(n) by {
                lemma_caller_members(nodes, l1, key, n);
                lemma_caller_members(nodes, l2, key, n);
            }
            lemma_refs_by_members(callee_nodes(nodes, l1, key), callee_nodes(nodes, l2, key), max_refs);
            lemma_refs_by_members(caller_nodes(nodes, l1, key), caller_nodes(nodes, l2, key), max_refs);
        },
    }
    assert(graph_lines(c, g1, max_refs) == graph_lines(c, g2, max_refs));
}

/// Every `calls` edge whose two ends are graph nodes is listed both ways, whatever files the two
/// nodes are in: among the callees of its source's id is a node with its target's id, and among
/// the callers of its target's id a node with its source's id, so neither node's header goes
/// without its `calls:` or `called by:` line.
pub proof fn lemma_every_call_edge_is_listed(g: crate::graph::GraphView, e: GraphEdgeView)
    requires
        g.edges.contains(e),
        e.relation == "calls"@,
        exists|a: int| 0 <= a < g.nodes.len() && (#[trigger] g.nodes[a]).node_id == e.source,
        exists|b: int| 0 <= b < g.nodes.len() && (#[trigger] g.nodes[b]).node_id == e.target,
    ensures
        exists|n: GraphNodeView|
            #[trigger] callee_nodes(g.nodes, header_links(g.nodes, g.edges), e.source).contains(n) && n.node_id
                == e.target,
        exists|n: GraphNodeView|
            #[trigger] caller_nodes(g.nodes, header_links(g.nodes, g.edges), e.target).contains(n) && n.node_id
                == e.source,
        forall|cap: nat|
            #[trigger] render_refs_spec(callee_nodes(g.nodes, header_links(g.nodes, g.edges), e.source), cap) is Some,
        forall|cap: nat|
            #[trigger] render_refs_spec(caller_nodes(g.nodes, header_links(g.nodes, g.edges), e.target), cap) is Some,
{
    let nodes = g.nodes;
    let links = header_links(nodes, g.edges);
    crate::embed::lookup::lemma_find_idx_is_last(nodes, e.source);
    crate::embed::lookup::lemma_find_idx_is_last(nodes, e.target);
    let a = choose|a: int| 0 <= a < nodes.len() && (#[trigger] nodes[a]).node_id == e.source;
    let b = choose|b: int| 0 <= b < nodes.len() && (#[trigger] nodes[b]).node_id == e.target;
    assert(nodes[a].node_id == e.source);
    assert(nodes[b].node_id == e.target);
    let s = find_idx(nodes, e.source)->0;
    let t = find_idx(nodes, e.target)->0;
    let l = LinkView { calls: true, source: s, target: t };
    assert(edge_link(nodes, e) == Some(l));
    let j = choose|j: int| 0 <= j < g.edges.len() && g.edges[j] == e;
    lemma_call_links(nodes, g.edges, l);
    assert(is_calls_edge(g.edges[j]) && edge_link(nodes, g.edges[j]) == Some(l));
    assert(links.contains(l));
    lemma_callee_members(nodes, links, e.source, nodes[t]);
    lemma_caller_members(nodes, links, e.target, nodes[s]);
    assert(callee_nodes(nodes, links, e.source).contains(nodes[t]));
    assert(caller_nodes(nodes, links, e.target).contains(nodes[s]));
}

} // verus!
