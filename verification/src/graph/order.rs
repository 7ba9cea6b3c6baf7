//! The resolved graph does not depend on the order in which the files are handed over, nor on the
//! order of the nodes, edges, call sites and callables inside each file: any such reordering
//! resolves every call to the same definition and yields the same canonical graph.

use vstd::prelude::*;

use vstd::multiset::Multiset;
use vstd::seq_lib::{
    lemma_flatten_concat, lemma_multiset_commutative, to_multiset_contains, to_multiset_len,
    to_multiset_remove,
};

use super::canon::{lemma_strictly_sorted_unique, strictly_sorted};
use super::resolve::{
    all_callables, all_edges, all_nodes, call_edges, call_target, calls_edge, file_edges, named,
    pick_spec, scoped, target_in, PickView,
};
use super::{CallSiteView, CallableView, FileSymbolsView, GraphEdge, GraphEdgeView, GraphNode, GraphView};

verus! {

broadcast use {
    vstd::seq_lib::group_seq_properties,
    vstd::multiset::group_multiset_axioms,
    vstd::seq::Seq::lemma_filter_push,
    vstd::seq::Seq::lemma_flatten_push,
};

/// `a` and `b` hold the same values, each the same number of times: one is a reordering of the
/// other.
pub open spec fn same_items<A>(a: Seq<A>, b: Seq<A>) -> bool {
    a.to_multiset() == b.to_multiset()
}

/// What [`super::resolve::resolve`] promises of its result `g` for `files`: strictly sorted nodes
/// and edges, holding exactly the files' nodes and exactly their edges.
pub open spec fn resolved(files: Seq<FileSymbolsView>, g: GraphView) -> bool {
    &&& strictly_sorted::<GraphNode>(g.nodes)
    &&& strictly_sorted::<GraphEdge>(g.edges)
    &&& forall|n| g.nodes.contains(n) <==> all_nodes(files).contains(n)
    &&& forall|e| g.edges.contains(e) <==> all_edges(files).contains(e)
}

/// Removing position `j` of `s` removes `s[j]` from its filtered items exactly when it passes.
proof fn lemma_filter_remove<A>(s: Seq<A>, j: int, p: spec_fn(A) -> bool)
    requires
        0 <= j < s.len(),
    ensures
        s.filter(p).to_multiset() == if p(s[j]) {
            s.remove(j).filter(p).to_multiset().insert(s[j])
        } else {
            s.remove(j).filter(p).to_multiset()
        },
{
    let t = s.take(j);
    let x = seq![s[j]];
    let u = s.skip(j + 1);
    assert(s =~= (t + x) + u);
    assert(s.remove(j) =~= t + u);
    Seq::filter_distributes_over_add(t + x, u, p);
    Seq::filter_distributes_over_add(t, x, p);
    Seq::filter_distributes_over_add(t, u, p);
    assert(x =~= Seq::<A>::empty().push(s[j]));
    assert(Seq::<A>::empty().filter(p) =~= Seq::<A>::empty());
    let xf = x.filter(p);
    lemma_multiset_commutative(t.filter(p) + xf, u.filter(p));
    lemma_multiset_commutative(t.filter(p), xf);
    lemma_multiset_commutative(t.filter(p), u.filter(p));
    if p(s[j]) {
        assert(xf =~= seq![s[j]]);
        assert(xf.to_multiset() =~= Multiset::<A>::empty().insert(s[j])) by {
            assert(xf =~= Seq::<A>::empty().push(s[j]));
            assert(Seq::<A>::empty().to_multiset() =~= Multiset::<A>::empty());
        }
        assert(s.filter(p).to_multiset() =~= s.remove(j).filter(p).to_multiset().insert(s[j]));
    } else {
        assert(xf =~= Seq::<A>::empty());
        assert(xf.to_multiset() =~= Multiset::<A>::empty());
        assert(s.filter(p).to_multiset() =~= s.remove(j).filter(p).to_multiset());
    }
}

/// A reordering of a sequence, filtered, is a reordering of the filtered sequence.
pub proof fn lemma_filter_same_items<A>(a: Seq<A>, b: Seq<A>, p: spec_fn(A) -> bool)
    requires
        same_items(a, b),
    ensures
        same_items(a.filter(p), b.filter(p)),
    decreases a.len(),
{
    to_multiset_len(a);
    to_multiset_len(b);
    if a.len() == 0 {
        assert(a =~= Seq::<A>::empty());
        assert(b =~= Seq::<A>::empty());
    } else {
        let last = a.len() - 1;
        let x = a[last];
        to_multiset_contains(a, x);
        to_multiset_contains(b, x);
        assert(a.contains(x));
        let j = choose|j: int| 0 <= j < b.len() && b[j] == x;
        to_multiset_remove(a, last);
        to_multiset_remove(b, j);
        lemma_filter_same_items(a.remove(last), b.remove(j), p);
        lemma_filter_remove(a, last, p);
        lemma_filter_remove(b, j, p);
    }
}

/// A reordering of a sequence of groups, each mapped and all flattened, gives a reordering of the
/// flattened items.
pub proof fn lemma_flatten_map_same_items<A, B>(a: Seq<A>, b: Seq<A>, h: spec_fn(A) -> Seq<B>)
    requires
        same_items(a, b),
    ensures
        same_items(a.map_values(h).flatten(), b.map_values(h).flatten()),
    decreases a.len(),
{
    to_multiset_len(a);
    to_multiset_len(b);
    if a.len() == 0 {
        assert(a =~= Seq::<A>::empty());
        assert(b =~= Seq::<A>::empty());
        assert(a.map_values(h) =~= b.map_values(h));
    } else {
        let last = a.len() - 1;
        let x = a[last];
        to_multiset_contains(a, x);
        to_multiset_contains(b, x);
        assert(a.contains(x));
        let j = choose|j: int| 0 <= j < b.len() && b[j] == x;
        to_multiset_remove(a, last);
        to_multiset_remove(b, j);
        let a1 = a.remove(last);
        let b1 = b.remove(j);
        lemma_flatten_map_same_items(a1, b1, h);
        // a = a1 + [x]
        assert(a.map_values(h) =~= a1.map_values(h).push(h(x)));
        lemma_multiset_commutative(a1.map_values(h).flatten(), h(x));
        // b = take + [x] + skip
        let bt = b.take(j).map_values(h);
        let bs = b.skip(j + 1).map_values(h);
        assert(b.map_values(h) =~= (bt + seq![h(x)]) + bs);
        assert(b1.map_values(h) =~= bt + bs);
        lemma_flatten_concat(bt + seq![h(x)], bs);
        lemma_flatten_concat(bt, seq![h(x)]);
        lemma_flatten_concat(bt, bs);
        assert(seq![h(x)] =~= Seq::<Seq<B>>::empty().push(h(x)));
        assert(Seq::<Seq<B>>::empty().flatten() =~= Seq::<B>::empty());
        assert(seq![h(x)].flatten() =~= h(x));
        lemma_multiset_commutative(bt.flatten() + h(x), bs.flatten());
        lemma_multiset_commutative(bt.flatten(), h(x));
        lemma_multiset_commutative(bt.flatten(), bs.flatten());
        assert(b.map_values(h).flatten().to_multiset() =~= b1.map_values(h).flatten().to_multiset().add(
            h(x).to_multiset(),
        ));
    }
}

/// Two reorderings of each other with a single item hold the same item.
proof fn lemma_single_item<A>(a: Seq<A>, b: Seq<A>)
    requires
        same_items(a, b),
        a.len() == 1,
    ensures
        b.len() == 1,
        a[0] == b[0],
{
    to_multiset_len(a);
    to_multiset_len(b);
    to_multiset_contains(a, a[0]);
    to_multiset_contains(b, a[0]);
    assert(a.contains(a[0]));
    let j = choose|j: int| 0 <= j < b.len() && b[j] == a[0];
    assert(j == 0);
}

/// Resolving against a reordering of the same candidates gives the same outcome: a pick depends on
/// how many candidates there are and which, never on their order.
pub proof fn lemma_pick_ignores_order(a: Seq<CallableView>, b: Seq<CallableView>, qualifier: Option<Seq<char>>)
    requires
        same_items(a, b),
    ensures
        pick_spec(a, qualifier) == pick_spec(b, qualifier),
{
    to_multiset_len(a);
    to_multiset_len(b);
    if a.len() == 1 {
        lemma_single_item(a, b);
    }
    if let Some(q) = qualifier {
        let p = |c: CallableView| c.scope == Some(q);
        lemma_filter_same_items(a, b, p);
        to_multiset_len(a.filter(p));
        to_multiset_len(b.filter(p));
        assert(scoped(a, q) == a.filter(p));
        assert(scoped(b, q) == b.filter(p));
        if scoped(a, q).len() == 1 {
            lemma_single_item(scoped(a, q), scoped(b, q));
        }
    }
}

/// A call resolves to the same definition against any reordering of the global table.
proof fn lemma_target_ignores_order(
    local: Seq<CallableView>,
    ga: Seq<CallableView>,
    gb: Seq<CallableView>,
    call: CallSiteView,
)
    requires
        same_items(ga, gb),
    ensures
        target_in(local, ga, call) == target_in(local, gb, call),
{
    let p = |c: CallableView| c.name == call.name;
    lemma_filter_same_items(ga, gb, p);
    assert(named(ga, call.name) == ga.filter(p));
    assert(named(gb, call.name) == gb.filter(p));
    lemma_pick_ignores_order(named(ga, call.name), named(gb, call.name), call.qualifier);
}

/// The `calls` edges of a file's call sites are the same for any reordering of the files.
proof fn lemma_call_edges_ignore_order(
    a: Seq<FileSymbolsView>,
    b: Seq<FileSymbolsView>,
    f: FileSymbolsView,
    calls: Seq<CallSiteView>,
)
    requires
        same_items(all_callables(a), all_callables(b)),
    ensures
        call_edges(a, f, calls) == call_edges(b, f, calls),
    decreases calls.len(),
{
    if calls.len() > 0 {
        lemma_call_edges_ignore_order(a, b, f, calls.drop_last());
        lemma_target_ignores_order(f.callables, all_callables(a), all_callables(b), calls.last());
        assert(call_target(a, f, calls.last()) == call_target(b, f, calls.last()));
    }
}

/// Reordering the files reorders their nodes and their edges.
proof fn lemma_file_order_items(a: Seq<FileSymbolsView>, b: Seq<FileSymbolsView>)
    requires
        same_items(a, b),
    ensures
        same_items(all_nodes(a), all_nodes(b)),
        same_items(all_callables(a), all_callables(b)),
        same_items(all_edges(a), all_edges(b)),
{
    let hn = |f: FileSymbolsView| f.nodes;
    lemma_flatten_map_same_items(a, b, hn);
    assert(all_nodes(a) == a.map_values(hn).flatten());
    assert(all_nodes(b) == b.map_values(hn).flatten());
    let hc = |f: FileSymbolsView| f.callables;
    lemma_flatten_map_same_items(a, b, hc);
    assert(all_callables(a) == a.map_values(hc).flatten());
    assert(all_callables(b) == b.map_values(hc).flatten());
    let he = |f: FileSymbolsView| file_edges(a, f);
    assert forall|f: FileSymbolsView| #[trigger] file_edges(a, f) == file_edges(b, f) by {
        lemma_call_edges_ignore_order(a, b, f, f.calls);
    }
    let hb = |f: FileSymbolsView| file_edges(b, f);
    assert(he =~= hb);
    lemma_flatten_map_same_items(a, b, he);
    assert(all_edges(a) == a.map_values(he).flatten());
    assert(all_edges(b) == b.map_values(hb).flatten());
}

/// Two resolved graphs of files with the same nodes and the same edges are equal.
proof fn lemma_same_graph(a: Seq<FileSymbolsView>, b: Seq<FileSymbolsView>, ga: GraphView, gb: GraphView)
    requires
        same_items(all_nodes(a), all_nodes(b)),
        same_items(all_edges(a), all_edges(b)),
        resolved(a, ga),
        resolved(b, gb),
    ensures
        ga == gb,
{
    assert forall|n| ga.nodes.contains(n) <==> gb.nodes.contains(n) by {
        to_multiset_contains(all_nodes(a), n);
        to_multiset_contains(all_nodes(b), n);
    }
    assert forall|e| ga.edges.contains(e) <==> gb.edges.contains(e) by {
        to_multiset_contains(all_edges(a), e);
        to_multiset_contains(all_edges(b), e);
    }
    lemma_strictly_sorted_unique::<GraphNode>(ga.nodes, gb.nodes);
    lemma_strictly_sorted_unique::<GraphEdge>(ga.edges, gb.edges);
}

/// The law: resolving any reordering of the same files yields the same graph.
pub proof fn lemma_resolve_ignores_file_order(
    a: Seq<FileSymbolsView>,
    b: Seq<FileSymbolsView>,
    ga: GraphView,
    gb: GraphView,
)
    requires
        same_items(a, b),
        resolved(a, ga),
        resolved(b, gb),
    ensures
        ga == gb,
{
    lemma_file_order_items(a, b);
    lemma_same_graph(a, b, ga, gb);
}

/// `f` and `g` are the same file with its nodes, `contains` edges, call sites and callables each
/// possibly reordered.
pub open spec fn file_reordered(f: FileSymbolsView, g: FileSymbolsView) -> bool {
    &&& same_items(f.nodes, g.nodes)
    &&& same_items(f.contains, g.contains)
    &&& same_items(f.calls, g.calls)
    &&& same_items(f.callables, g.callables)
}

/// Groups that are reorderings of each other, position by position, flatten to reorderings of
/// each other.
proof fn lemma_flatten_pointwise<A, B>(a: Seq<A>, m: Seq<A>, ha: spec_fn(A) -> Seq<B>, hm: spec_fn(A) -> Seq<B>)
    requires
        a.len() == m.len(),
        forall|i: int| 0 <= i < a.len() ==> same_items(#[trigger] ha(a[i]), hm(m[i])),
    ensures
        same_items(a.map_values(ha).flatten(), m.map_values(hm).flatten()),
    decreases a.len(),
{
    if a.len() == 0 {
        assert(a.map_values(ha) =~= Seq::<Seq<B>>::empty());
        assert(m.map_values(hm) =~= Seq::<Seq<B>>::empty());
    } else {
        let a1 = a.drop_last();
        let m1 = m.drop_last();
        assert forall|i: int| 0 <= i < a1.len() implies same_items(#[trigger] ha(a1[i]), hm(m1[i])) by {
            assert(ha(a1[i]) == ha(a[i]));
            assert(hm(m1[i]) == hm(m[i]));
        }
        lemma_flatten_pointwise(a1, m1, ha, hm);
        assert(a.map_values(ha) =~= a1.map_values(ha).push(ha(a.last())));
        assert(m.map_values(hm) =~= m1.map_values(hm).push(hm(m.last())));
        assert(same_items(ha(a[a.len() - 1]), hm(m[a.len() - 1])));
        lemma_multiset_commutative(a1.map_values(ha).flatten(), ha(a.last()));
        lemma_multiset_commutative(m1.map_values(hm).flatten(), hm(m.last()));
    }
}

/// The `calls` edge a call site of `f` resolves to, if any.
spec fn edge_of(files: Seq<FileSymbolsView>, f: FileSymbolsView, c: CallSiteView) -> Seq<GraphEdgeView> {
    match call_target(files, f, c) {
        Some(t) => seq![calls_edge(c.caller, t)],
        None => Seq::empty(),
    }
}

/// The `calls` edges of call sites are their per-site edges, flattened.
proof fn lemma_call_edges_flatten(files: Seq<FileSymbolsView>, f: FileSymbolsView, calls: Seq<CallSiteView>)
    ensures
        call_edges(files, f, calls) == calls.map_values(|c: CallSiteView| edge_of(files, f, c)).flatten(),
    decreases calls.len(),
{
    let h = |c: CallSiteView| edge_of(files, f, c);
    if calls.len() == 0 {
        assert(calls.map_values(h) =~= Seq::<Seq<GraphEdgeView>>::empty());
    } else {
        let c1 = calls.drop_last();
        lemma_call_edges_flatten(files, f, c1);
        assert(calls.map_values(h) =~= c1.map_values(h).push(h(calls.last())));
        let prev = c1.map_values(h).flatten();
        match call_target(files, f, calls.last()) {
            Some(t) => {
                assert(prev + seq![calls_edge(calls.last().caller, t)] =~= prev.push(calls_edge(calls.last().caller, t)));
            },
            None => {
                assert(prev + Seq::<GraphEdgeView>::empty() =~= prev);
            },
        }
    }
}

/// A call resolves alike against reorderings of its file's callables and of the global table.
proof fn lemma_target_ignores_both(
    la: Seq<CallableView>,
    lb: Seq<CallableView>,
    ga: Seq<CallableView>,
    gb: Seq<CallableView>,
    call: CallSiteView,
)
    requires
        same_items(la, lb),
        same_items(ga, gb),
    ensures
        target_in(la, ga, call) == target_in(lb, gb, call),
{
    let p = |c: CallableView| c.name == call.name;
    lemma_filter_same_items(la, lb, p);
    lemma_filter_same_items(ga, gb, p);
    assert(named(la, call.name) == la.filter(p));
    assert(named(lb, call.name) == lb.filter(p));
    assert(named(ga, call.name) == ga.filter(p));
    assert(named(gb, call.name) == gb.filter(p));
    lemma_pick_ignores_order(named(la, call.name), named(lb, call.name), call.qualifier);
    lemma_pick_ignores_order(named(ga, call.name), named(gb, call.name), call.qualifier);
}

/// Reordering the lists inside each file reorders the files' nodes and edges.
proof fn lemma_within_file_items(a: Seq<FileSymbolsView>, m: Seq<FileSymbolsView>)
    requires
        a.len() == m.len(),
        forall|i: int| 0 <= i < a.len() ==> #[trigger] file_reordered(a[i], m[i]),
    ensures
        same_items(all_nodes(a), all_nodes(m)),
        same_items(all_edges(a), all_edges(m)),
{
    let hn = |f: FileSymbolsView| f.nodes;
    assert forall|i: int| 0 <= i < a.len() implies same_items(#[trigger] hn(a[i]), hn(m[i])) by {
        assert(file_reordered(a[i], m[i]));
    }
    lemma_flatten_pointwise(a, m, hn, hn);
    let hc = |f: FileSymbolsView| f.callables;
    assert forall|i: int| 0 <= i < a.len() implies same_items(#[trigger] hc(a[i]), hc(m[i])) by {
        assert(file_reordered(a[i], m[i]));
    }
    lemma_flatten_pointwise(a, m, hc, hc);
    assert(all_callables(a) == a.map_values(hc).flatten());
    assert(all_callables(m) == m.map_values(hc).flatten());
    let ha = |f: FileSymbolsView| file_edges(a, f);
    let hm = |f: FileSymbolsView| file_edges(m, f);
    assert forall|i: int| 0 <= i < a.len() implies same_items(#[trigger] ha(a[i]), hm(m[i])) by {
        let f = a[i];
        let g = m[i];
        assert(file_reordered(f, g));
        let ef = |c: CallSiteView| edge_of(a, f, c);
        let eg = |c: CallSiteView| edge_of(m, g, c);
        assert forall|c: CallSiteView| #[trigger] ef(c) == eg(c) by {
            lemma_target_ignores_both(f.callables, g.callables, all_callables(a), all_callables(m), c);
        }
        assert(ef =~= eg);
        lemma_call_edges_flatten(a, f, f.calls);
        lemma_call_edges_flatten(m, g, g.calls);
        lemma_flatten_map_same_items(f.calls, g.calls, ef);
        lemma_multiset_commutative(f.contains, call_edges(a, f, f.calls));
        lemma_multiset_commutative(g.contains, call_edges(m, g, g.calls));
    }
    lemma_flatten_pointwise(a, m, ha, hm);
    assert(all_edges(a) == a.map_values(ha).flatten());
    assert(all_edges(m) == m.map_values(hm).flatten());
}

/// The law, in full: resolving files that are a reordering `b` of the files `a`, each file with
/// its nodes, `contains` edges, call sites and callables possibly reordered too (`m` is `a` with
/// only the lists inside each file reordered), yields the same graph.
pub proof fn lemma_resolve_ignores_order(
    a: Seq<FileSymbolsView>,
    m: Seq<FileSymbolsView>,
    b: Seq<FileSymbolsView>,
    ga: GraphView,
    gb: GraphView,
)
    requires
        a.len() == m.len(),
        forall|i: int| 0 <= i < a.len() ==> #[trigger] file_reordered(a[i], m[i]),
        same_items(m, b),
        resolved(a, ga),
        resolved(b, gb),
    ensures
        ga == gb,
{
    lemma_within_file_items(a, m);
    lemma_file_order_items(m, b);
    lemma_same_graph(a, b, ga, gb);
}

/// An item of one group is an item of the flattened groups.
proof fn lemma_flatten_contains<A>(s: Seq<Seq<A>>, i: int, x: A)
    requires
        0 <= i < s.len(),
        s[i].contains(x),
    ensures
        s.flatten().contains(x),
    decreases s.len(),
{
    let s1 = s.drop_last();
    assert(s =~= s1.push(s.last()));
    assert(s.flatten() == s1.flatten() + s.last());
    if i == s.len() - 1 {
        let m = choose|m: int| 0 <= m < s[i].len() && s[i][m] == x;
        assert((s1.flatten() + s.last())[s1.flatten().len() + m] == x);
    } else {
        assert(s1[i] == s[i]);
        lemma_flatten_contains(s1, i, x);
        let m = choose|m: int| 0 <= m < s1.flatten().len() && s1.flatten()[m] == x;
        assert((s1.flatten() + s.last())[m] == x);
    }
}

/// A call site that resolves to `t` contributes its `calls` edge to its file's edges.
proof fn lemma_call_edge_present(files: Seq<FileSymbolsView>, f: FileSymbolsView, calls: Seq<CallSiteView>, k: int, t: Seq<char>)
    requires
        0 <= k < calls.len(),
        call_target(files, f, calls[k]) == Some(t),
    ensures
        call_edges(files, f, calls).contains(calls_edge(calls[k].caller, t)),
    decreases calls.len(),
{
    let c1 = calls.drop_last();
    let prev = call_edges(files, f, c1);
    if k == calls.len() - 1 {
        assert(call_edges(files, f, calls) == prev.push(calls_edge(calls[k].caller, t)));
        assert(call_edges(files, f, calls)[prev.len() as int] == calls_edge(calls[k].caller, t));
    } else {
        assert(c1[k] == calls[k]);
        lemma_call_edge_present(files, f, c1, k, t);
        let m = choose|m: int| 0 <= m < prev.len() && prev[m] == calls_edge(calls[k].caller, t);
        match call_target(files, f, calls.last()) {
            Some(t2) => {
                assert(call_edges(files, f, calls) == prev.push(calls_edge(calls.last().caller, t2)));
                assert(call_edges(files, f, calls)[m] == prev[m]);
            },
            None => {},
        }
    }
}

/// A local ambiguity does not shadow the rest of the repository: when a call's own file has two or
/// more definitions of its name and its qualifier `q` does not pick out exactly one of them, but
/// exactly one definition of that name in the whole repository has `q` as its scope, the resolved
/// graph holds a `calls` edge from the caller to that definition.
pub proof fn lemma_local_ambiguity_defers_to_repo(
    files: Seq<FileSymbolsView>,
    g: GraphView,
    i: int,
    k: int,
    q: Seq<char>,
    d: CallableView,
)
    requires
        resolved(files, g),
        0 <= i < files.len(),
        0 <= k < files[i].calls.len(),
        files[i].calls[k].qualifier == Some(q),
        named(files[i].callables, files[i].calls[k].name).len() >= 2,
        scoped(named(files[i].callables, files[i].calls[k].name), q).len() != 1,
        scoped(named(all_callables(files), files[i].calls[k].name), q) == seq![d],
    ensures
        g.edges.contains(GraphEdgeView { source: files[i].calls[k].caller, target: d.node_id, relation: "calls"@ }),
{
    let f = files[i];
    let call = f.calls[k];
    let gn = named(all_callables(files), call.name);
    let sc = scoped(gn, q);
    assert(pick_spec(named(f.callables, call.name), call.qualifier) == PickView::Ambiguous);
    assert(sc.contains(d)) by {
        assert(sc[0] == d);
    }
    gn.lemma_filter_contains_rev(|c: CallableView| c.scope == Some(q), d);
    assert(gn.len() > 0);
    if gn.len() == 1 {
        let m = choose|m: int| 0 <= m < gn.len() && gn[m] == d;
        assert(gn[0] == d);
    }
    assert(pick_spec(gn, Some(q)) == PickView::One(d.node_id));
    assert(call_target(files, f, call) == Some(d.node_id));
    lemma_call_edge_present(files, f, f.calls, k, d.node_id);
    let ce = call_edges(files, f, f.calls);
    let e = calls_edge(call.caller, d.node_id);
    let m = choose|m: int| 0 <= m < ce.len() && ce[m] == e;
    assert(file_edges(files, f)[f.contains.len() + m] == e);
    assert(file_edges(files, f).contains(e));
    let h = |x: FileSymbolsView| file_edges(files, x);
    assert(files.map_values(h)[i] == file_edges(files, f));
    lemma_flatten_contains(files.map_values(h), i, e);
    assert(all_edges(files) == files.map_values(h).flatten());
}

} // verus!
