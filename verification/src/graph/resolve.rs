//! The cross-file name resolver: turns every file's recorded call sites into `calls` edges and
//! returns the canonical whole-repo [`Graph`]. Same-file definitions win; otherwise every file's
//! definitions are consulted. In both tables a call resolves only to a single matching
//! definition: a bare name matching several same-named definitions is dropped, never fanned out,
//! and a qualifier is used solely to single out one of several candidates.

use vstd::prelude::*;

use super::canon::{canonicalize, strictly_sorted, views, Canonical};
use super::{
    CallSite, CallSiteView, Callable, CallableView, FileSymbols, FileSymbolsView, Graph, GraphEdge,
    GraphEdgeView, GraphNode, GraphNodeView,
};
use crate::text::{
    compare_str, lemma_lex_irreflexive, lemma_lex_total, lemma_lex_transitive, lex_lt, str_eq, Cmp,
};

verus! {

broadcast use {
    vstd::seq_lib::group_seq_properties,
    vstd::seq::Seq::lemma_filter_push,
    vstd::seq_lib::group_filter_ensures,
    vstd::seq::Seq::lemma_flatten_push,
};

/// Outcome of resolving one call against a candidate set.
#[derive(Debug)]
pub enum Pick<'a> {
    /// Exactly one definition matched: emit the edge.
    One(&'a str),
    /// Several same-named definitions and no qualifier singles one out: drop and count.
    Ambiguous,
    /// Nothing matched here: try the next table (or count as unresolved).
    Unmatched,
}

/// The view of a [`Pick`].
pub enum PickView {
    One(Seq<char>),
    Ambiguous,
    Unmatched,
}

pub open spec fn pick_view(p: Pick) -> PickView {
    match p {
        Pick::One(id) => PickView::One(id@),
        Pick::Ambiguous => PickView::Ambiguous,
        Pick::Unmatched => PickView::Unmatched,
    }
}

/// The candidates whose scope is exactly `q`.
pub open spec fn scoped(cands: Seq<CallableView>, q: Seq<char>) -> Seq<CallableView> {
    cands.filter(|c: CallableView| c.scope == Some(q))
}

/// Resolution of one call against the candidates sharing its bare name. A single candidate
/// resolves unless a qualifier positively contradicts its type scope (a candidate without a scope
/// still matches any qualifier, so a module path `math::add` resolves to a free `add`). Several
/// candidates resolve only when the qualifier names exactly one of them by scope.
pub open spec fn pick_spec(cands: Seq<CallableView>, qualifier: Option<Seq<char>>) -> PickView {
    if cands.len() == 0 {
        PickView::Unmatched
    } else if cands.len() == 1 {
        match (qualifier, cands[0].scope) {
            (Some(q), Some(s)) => if q != s {
                PickView::Unmatched
            } else {
                PickView::One(cands[0].node_id)
            },
            _ => PickView::One(cands[0].node_id),
        }
    } else {
        match qualifier {
            Some(q) => if scoped(cands, q).len() == 1 {
                PickView::One(scoped(cands, q)[0].node_id)
            } else {
                PickView::Ambiguous
            },
            None => PickView::Ambiguous,
        }
    }
}

pub open spec fn opt_str_view(o: Option<&str>) -> Option<Seq<char>> {
    match o {
        Some(s) => Some(s@),
        None => None,
    }
}

pub open spec fn candidate_views(candidates: Option<&[&Callable]>) -> Seq<CallableView> {
    match candidates {
        Some(c) => views(c@),
        None => Seq::empty(),
    }
}

/// Resolve a call against `candidates`, all the definitions sharing the callee's bare name.
pub fn pick<'a>(candidates: Option<&[&'a Callable]>, qualifier: Option<&str>) -> (p: Pick<'a>)
    ensures
        pick_view(p) == pick_spec(candidate_views(candidates), opt_str_view(qualifier)),
{
    let cands = match candidates {
        Some(c) => c,
        None => {
            return Pick::Unmatched;
        },
    };
    let ghost cv = views(cands@);
    let n = cands.len();
    if n == 0 {
        return Pick::Unmatched;
    }
    if n == 1 {
        let only: &'a Callable = cands[0];
        assert(cv[0] == only@);
        if let Some(q) = qualifier {
            if let Some(scope) = &only.scope {
                if !str_eq(q, scope.as_str()) {
                    return Pick::Unmatched;
                }
            }
        }
        return Pick::One(only.node_id.as_str());
    }
    let q = match qualifier {
        Some(q) => q,
        None => {
            return Pick::Ambiguous;
        },
    };
    let ghost pred = |c: CallableView| c.scope == Some(q@);
    let mut count: usize = 0;
    let mut first: Option<&'a Callable> = None;
    let mut i: usize = 0;
    while i < n
        invariant
            n == cands@.len(),
            cv == views(cands@),
            0 <= i <= n,
            pred == (|c: CallableView| c.scope == Some(q@)),
            count as int == if cv.take(i as int).filter(pred).len() < 2 {
                cv.take(i as int).filter(pred).len() as int
            } else {
                2
            },
            count >= 1 ==> (first matches Some(f) && f@ == cv.take(i as int).filter(pred)[0]),
        decreases n - i,
    {
        let c: &'a Callable = cands[i];
        assert(cv[i as int] == c@);
        assert(cv.take(i + 1) == cv.take(i as int).push(cv[i as int]));
        let hit = match &c.scope {
            Some(s) => str_eq(s.as_str(), q),
            None => false,
        };
        assert(hit == pred(cv[i as int]));
        if hit {
            if count == 0 {
                first = Some(c);
            }
            if count < 2 {
                count = count + 1;
            }
        }
        i = i + 1;
    }
    assert(cv.take(n as int) == cv);
    if count == 1 {
        match first {
            Some(f) => Pick::One(f.node_id.as_str()),
            None => Pick::Ambiguous,
        }
    } else {
        Pick::Ambiguous
    }
}

/// The callables named `name`, in table order.
pub open spec fn named(cands: Seq<CallableView>, name: Seq<char>) -> Seq<CallableView> {
    cands.filter(|c: CallableView| c.name == name)
}

/// Every callable of every file, file by file.
pub open spec fn all_callables(files: Seq<FileSymbolsView>) -> Seq<CallableView> {
    files.map_values(|f: FileSymbolsView| f.callables).flatten()
}

/// The definition a call resolves to, given the callables of its own file (`local`) and of every
/// file (`global`).
pub open spec fn target_in(
    local: Seq<CallableView>,
    global: Seq<CallableView>,
    call: CallSiteView,
) -> Option<Seq<char>> {
    match pick_spec(named(local, call.name), call.qualifier) {
        PickView::One(id) => Some(id),
        _ => match pick_spec(named(global, call.name), call.qualifier) {
            PickView::One(id) => Some(id),
            _ => None,
        },
    }
}

/// The definition a call site in `f` resolves to: a clean single hit among `f`'s own callables
/// first; otherwise (no local match, or a local set too ambiguous to attribute) the definitions
/// of every file.
pub open spec fn call_target(
    files: Seq<FileSymbolsView>,
    f: FileSymbolsView,
    call: CallSiteView,
) -> Option<Seq<char>> {
    target_in(f.callables, all_callables(files), call)
}

/// A `calls` edge.
pub open spec fn calls_edge(caller: Seq<char>, target: Seq<char>) -> GraphEdgeView {
    GraphEdgeView { source: caller, target, relation: "calls"@ }
}

/// The `calls` edges the call sites `calls` of file `f` resolve to, in call order.
pub open spec fn call_edges(
    files: Seq<FileSymbolsView>,
    f: FileSymbolsView,
    calls: Seq<CallSiteView>,
) -> Seq<GraphEdgeView>
    decreases calls.len(),
{
    if calls.len() == 0 {
        Seq::empty()
    } else {
        let prev = call_edges(files, f, calls.drop_last());
        match call_target(files, f, calls.last()) {
            Some(t) => prev.push(calls_edge(calls.last().caller, t)),
            None => prev,
        }
    }
}

/// Every edge file `f` contributes: its `contains`/`method` edges, then its resolved calls.
pub open spec fn file_edges(files: Seq<FileSymbolsView>, f: FileSymbolsView) -> Seq<GraphEdgeView> {
    f.contains + call_edges(files, f, f.calls)
}

/// Every node of every file, file by file.
pub open spec fn all_nodes(files: Seq<FileSymbolsView>) -> Seq<GraphNodeView> {
    files.map_values(|f: FileSymbolsView| f.nodes).flatten()
}

/// Every edge of every file, file by file.
pub open spec fn all_edges(files: Seq<FileSymbolsView>) -> Seq<GraphEdgeView> {
    files.map_values(|f: FileSymbolsView| file_edges(files, f)).flatten()
}

/// The callables of `cs` named `name`, in order.
fn named_candidates<'a>(cs: &Vec<&'a Callable>, name: &str) -> (r: Vec<&'a Callable>)
    ensures
        views(r@) == named(views(cs@), name@),
{
    let ghost cv = views(cs@);
    let ghost pred = |c: CallableView| c.name == name@;
    let mut r: Vec<&'a Callable> = Vec::new();
    let mut i: usize = 0;
    while i < cs.len()
        invariant
            0 <= i <= cs@.len(),
            cv == views(cs@),
            pred == (|c: CallableView| c.name == name@),
            views(r@) == cv.take(i as int).filter(pred),
        decreases cs.len() - i,
    {
        let c: &'a Callable = cs[i];
        assert(cv[i as int] == c@);
        assert(cv.take(i + 1) == cv.take(i as int).push(cv[i as int]));
        if str_eq(c.name.as_str(), name) {
            r.push(c);
            assert(views(r@) =~= cv.take(i as int).filter(pred).push(c@));
        }
        i = i + 1;
    }
    assert(cv.take(cs.len() as int) == cv);
    r
}

/// References to the callables of `f`, in order.
fn callables_of<'a>(f: &'a FileSymbols) -> (r: Vec<&'a Callable>)
    ensures
        views(r@) == f@.callables,
{
    let mut r: Vec<&'a Callable> = Vec::new();
    let mut i: usize = 0;
    while i < f.callables.len()
        invariant
            0 <= i <= f.callables@.len(),
            views(r@) == f@.callables.take(i as int),
        decreases f.callables.len() - i,
    {
        let c: &'a Callable = &f.callables[i];
        assert(c@ == f@.callables[i as int]);
        let ghost before = r@;
        r.push(c);
        assert(r@ == before.push(c));
        assert(views(r@) =~= views(before).push(c@));
        assert(f@.callables.take(i + 1) =~= f@.callables.take(i as int).push(f@.callables[i as int]));
        i = i + 1;
    }
    assert(f@.callables.take(f.callables.len() as int) =~= f@.callables);
    r
}

/// A callable's name paired with its position in the global table.
pub struct NameSlot {
    pub name: String,
    pub pos: usize,
}

/// The view of a [`NameSlot`].
pub struct NameSlotView {
    pub name: Seq<char>,
    pub pos: usize,
}

impl View for NameSlot {
    type V = NameSlotView;

    open spec fn view(&self) -> NameSlotView {
        NameSlotView { name: self.name@, pos: self.pos }
    }
}

impl Canonical for NameSlot {
    open spec fn lt(a: NameSlotView, b: NameSlotView) -> bool {
        lex_lt(a.name, b.name) || (a.name == b.name && a.pos < b.pos)
    }

    proof fn lemma_irreflexive(a: NameSlotView) {
        lemma_lex_irreflexive(a.name);
    }

    proof fn lemma_transitive(a: NameSlotView, b: NameSlotView, c: NameSlotView) {
        lemma_lex_irreflexive(a.name);
        lemma_lex_irreflexive(b.name);
        if lex_lt(a.name, b.name) && lex_lt(b.name, c.name) {
            lemma_lex_transitive(a.name, b.name, c.name);
        }
    }

    proof fn lemma_total(a: NameSlotView, b: NameSlotView) {
        lemma_lex_total(a.name, b.name);
    }

    fn compare(&self, other: &Self) -> (c: Cmp) {
        proof {
            lemma_lex_irreflexive(self.name@);
            lemma_lex_total(self.name@, other.name@);
        }
        match compare_str(self.name.as_str(), other.name.as_str()) {
            Cmp::Equal => {},
            c => {
                return c;
            },
        }
        if self.pos < other.pos {
            Cmp::Less
        } else if self.pos == other.pos {
            Cmp::Equal
        } else {
            Cmp::Greater
        }
    }
}

/// `slots` lists every callable of `table` as (name, position), strictly sorted.
spec fn name_index(slots: Seq<NameSlotView>, table: Seq<CallableView>) -> bool {
    &&& strictly_sorted::<NameSlot>(slots)
    &&& forall|s: NameSlotView| #[trigger] slots.contains(s) <==> (s.pos < table.len() && table[s.pos as int].name == s.name)
}

/// Build the by-name table of `table`.
fn build_name_index(table: &Vec<&Callable>) -> (r: Vec<NameSlot>)
    ensures
        name_index(views(r@), views(table@)),
{
    let ghost tv = views(table@);
    let mut v: Vec<NameSlot> = Vec::new();
    let mut i: usize = 0;
    while i < table.len()
        invariant
            i <= table@.len(),
            tv == views(table@),
            views(v@).len() == i,
            forall|k: int| 0 <= k < i ==> #[trigger] views(v@)[k] == (NameSlotView { name: tv[k].name, pos: k as usize }),
        decreases table.len() - i,
    {
        let ghost before = views(v@);
        assert(tv[i as int] == table@[i as int]@);
        v.push(NameSlot { name: table[i].name.clone(), pos: i });
        assert(views(v@) =~= before.push(NameSlotView { name: tv[i as int].name, pos: i }));
        i = i + 1;
    }
    let ghost vv = views(v@);
    let r = canonicalize(v);
    assert forall|s: NameSlotView| views(r@).contains(s) <==> (s.pos < tv.len() && tv[s.pos as int].name == s.name) by {
        if vv.contains(s) {
            let k = choose|k: int| 0 <= k < vv.len() && vv[k] == s;
            assert(vv[k] == (NameSlotView { name: tv[k].name, pos: k as usize }));
        }
        if s.pos < tv.len() && tv[s.pos as int].name == s.name {
            assert(vv[s.pos as int] == s);
        }
    }
    r
}

/// Slots are in non-decreasing name order.
proof fn lemma_names_ordered(sv: Seq<NameSlotView>, a: int, b: int)
    requires
        strictly_sorted::<NameSlot>(sv),
        0 <= a <= b < sv.len(),
    ensures
        !lex_lt(sv[b].name, sv[a].name),
{
    lemma_lex_irreflexive(sv[a].name);
    if a < b {
        assert(NameSlot::lt(sv[a], sv[b]));
        if lex_lt(sv[b].name, sv[a].name) && lex_lt(sv[a].name, sv[b].name) {
            lemma_lex_transitive(sv[a].name, sv[b].name, sv[a].name);
        }
    }
}

/// The items of `s` at the strictly increasing positions `ps`, which are exactly the positions
/// of the items passing `p`, are `s` filtered by `p`.
proof fn lemma_filter_by_positions<A>(s: Seq<A>, p: spec_fn(A) -> bool, ps: Seq<int>)
    requires
        forall|a: int, b: int| 0 <= a < b < ps.len() ==> #[trigger] ps[a] < #[trigger] ps[b],
        forall|i: int| ps.contains(i) <==> (0 <= i < s.len() && p(s[i])),
    ensures
        ps.map_values(|i: int| s[i]) == s.filter(p),
    decreases s.len(),
{
    if s.len() == 0 {
        if ps.len() > 0 {
            assert(ps.contains(ps[0]));
        }
        assert(ps.map_values(|i: int| s[i]) =~= Seq::<A>::empty());
    } else {
        let last = s.len() - 1;
        let s1 = s.drop_last();
        assert(s == s1.push(s[last]));
        if p(s[last]) {
            assert(ps.contains(last));
            let m = choose|m: int| 0 <= m < ps.len() && ps[m] == last;
            if m < ps.len() - 1 {
                assert(ps.contains(ps[ps.len() - 1]));
                assert(ps[m] < ps[ps.len() - 1]);
            }
            assert(m == ps.len() - 1);
            let ps1 = ps.drop_last();
            assert forall|i: int| ps1.contains(i) <==> (0 <= i < s1.len() && p(s1[i])) by {
                if ps1.contains(i) {
                    let k = choose|k: int| 0 <= k < ps1.len() && ps1[k] == i;
                    assert(ps[k] == i);
                    assert(ps.contains(i));
                    assert(ps[k] < ps[m]);
                    assert(s1[i] == s[i]);
                }
                if 0 <= i < s1.len() && p(s1[i]) {
                    assert(s1[i] == s[i]);
                    assert(ps.contains(i));
                    let k = choose|k: int| 0 <= k < ps.len() && ps[k] == i;
                    assert(k != m);
                    assert(ps1[k] == i);
                }
            }
            lemma_filter_by_positions(s1, p, ps1);
            assert forall|k: int| 0 <= k < ps1.len() implies #[trigger] s1[ps1[k]] == s[ps1[k]] by {
                assert(ps1.contains(ps1[k]));
            }
            assert(ps1.map_values(|i: int| s1[i]) =~= ps1.map_values(|i: int| s[i]));
            assert(ps.map_values(|i: int| s[i]) =~= ps1.map_values(|i: int| s[i]).push(s[last]));
        } else {
            assert forall|i: int| ps.contains(i) <==> (0 <= i < s1.len() && p(s1[i])) by {
                if ps.contains(i) {
                    assert(i != last);
                    assert(s1[i] == s[i]);
                }
                if 0 <= i < s1.len() && p(s1[i]) {
                    assert(s1[i] == s[i]);
                }
            }
            lemma_filter_by_positions(s1, p, ps);
            assert forall|k: int| 0 <= k < ps.len() implies #[trigger] s1[ps[k]] == s[ps[k]] by {
                assert(ps.contains(ps[k]));
            }
            assert(ps.map_values(|i: int| s1[i]) =~= ps.map_values(|i: int| s[i]));
        }
    }
}

/// The callables of `table` named `name`, in table order, looked up in its by-name table.
fn named_in_table<'a>(table: &Vec<&'a Callable>, slots: &Vec<NameSlot>, name: &str) -> (r: Vec<&'a Callable>)
    requires
        name_index(views(slots@), views(table@)),
    ensures
        views(r@) == named(views(table@), name@),
{
    let ghost tv = views(table@);
    let ghost sv = views(slots@);
    let mut lo: usize = 0;
    let mut hi: usize = slots.len();
    while lo < hi
        invariant
            0 <= lo <= hi <= slots@.len(),
            sv == views(slots@),
            name_index(sv, tv),
            forall|j: int| 0 <= j < lo ==> lex_lt((#[trigger] sv[j]).name, name@),
            forall|j: int| hi <= j < sv.len() ==> !lex_lt((#[trigger] sv[j]).name, name@),
        decreases hi - lo,
    {
        let mid = lo + (hi - lo) / 2;
        assert(sv[mid as int] == slots@[mid as int]@);
        let c = compare_str(slots[mid].name.as_str(), name);
        if c == Cmp::Less {
            assert forall|j: int| 0 <= j < mid + 1 implies lex_lt((#[trigger] sv[j]).name, name@) by {
                if j < mid {
                    lemma_names_ordered(sv, j, mid as int);
                    lemma_lex_total(sv[j].name, sv[mid as int].name);
                    if lex_lt(sv[j].name, sv[mid as int].name) {
                        lemma_lex_transitive(sv[j].name, sv[mid as int].name, name@);
                    }
                }
            }
            lo = mid + 1;
        } else {
            assert forall|j: int| mid <= j < sv.len() implies !lex_lt((#[trigger] sv[j]).name, name@) by {
                lemma_lex_irreflexive(name@);
                if j > mid {
                    lemma_names_ordered(sv, mid as int, j);
                    if lex_lt(sv[j].name, name@) {
                        lemma_lex_total(sv[mid as int].name, name@);
                        if lex_lt(name@, sv[mid as int].name) {
                            lemma_lex_transitive(sv[j].name, name@, sv[mid as int].name);
                        }
                    }
                } else {
                    if lex_lt(sv[j].name, name@) {
                        lemma_lex_total(sv[j].name, name@);
                        if lex_lt(name@, sv[j].name) {
                            lemma_lex_transitive(name@, sv[j].name, name@);
                        }
                    }
                }
            }
            hi = mid;
        }
    }
    let mut out: Vec<&'a Callable> = Vec::new();
    let ghost mut ps: Seq<int> = Seq::empty();
    let mut j: usize = lo;
    while j < slots.len() && str_eq(slots[j].name.as_str(), name)
        invariant
            lo <= j <= slots@.len(),
            sv == views(slots@),
            tv == views(table@),
            name_index(sv, tv),
            ps.len() == j - lo,
            forall|k: int| 0 <= k < ps.len() ==> #[trigger] ps[k] == sv[lo + k].pos as int,
            forall|k: int| lo <= k < j ==> (#[trigger] sv[k]).name == name@,
            views(out@) == ps.map_values(|i: int| tv[i]),
        decreases slots.len() - j,
    {
        assert(sv[j as int] == slots@[j as int]@);
        assert(sv.contains(sv[j as int]));
        let p = slots[j].pos;
        let c: &'a Callable = table[p];
        let ghost before = views(out@);
        out.push(c);
        proof {
            let old_ps = ps;
            ps = ps.push(p as int);
            assert(views(out@) =~= before.push(c@));
            assert(ps.map_values(|i: int| tv[i]) =~= old_ps.map_values(|i: int| tv[i]).push(tv[p as int]));
        }
        j = j + 1;
    }
    let table_len = table.len();
    proof {
        let pred = |c: CallableView| c.name == name@;
        lemma_lex_irreflexive(name@);
        assert forall|a: int, b: int| 0 <= a < b < ps.len() implies #[trigger] ps[a] < #[trigger] ps[b] by {
            assert(NameSlot::lt(sv[lo + a], sv[lo + b]));
        }
        assert forall|i: int| ps.contains(i) <==> (0 <= i < tv.len() && pred(tv[i])) by {
            if ps.contains(i) {
                let k = choose|k: int| 0 <= k < ps.len() && ps[k] == i;
                assert(sv.contains(sv[lo + k]));
            }
            if 0 <= i < tv.len() && pred(tv[i]) {
                assert(tv.len() == table@.len());
                assert(i < table_len);
                let t = NameSlotView { name: name@, pos: i as usize };
                assert(t.pos as int == i);
                assert(sv.contains(t));
                let m = choose|m: int| 0 <= m < sv.len() && sv[m] == t;
                assert(m >= lo);
                if m >= j {
                    assert(j < sv.len());
                    assert(sv[j as int] == slots@[j as int]@);
                    lemma_names_ordered(sv, j as int, m);
                    lemma_lex_total(sv[j as int].name, name@);
                    assert(sv[j as int].name == name@);
                }
                assert(ps[m - lo] == i);
            }
        }
        lemma_filter_by_positions(tv, pred, ps);
    }
    out
}

/// Resolve one call site against its file's callables and every file's callables.
fn resolve_call(local: &Vec<&Callable>, global: &Vec<&Callable>, names: &Vec<NameSlot>, call: &CallSite) -> (r: Option<
    String,
>)
    requires
        name_index(views(names@), views(global@)),
    ensures
        crate::graph::opt_view(r) == target_in(views(local@), views(global@), call@),
{
    let q: Option<&str> = match &call.qualifier {
        Some(q) => Some(q.as_str()),
        None => None,
    };
    assert(opt_str_view(q) == call@.qualifier);
    let local_named = named_candidates(local, call.name.as_str());
    match pick(Some(local_named.as_slice()), q) {
        Pick::One(id) => {
            return Some(String::from_str(id));
        },
        _ => {},
    }
    let global_named = named_in_table(global, names, call.name.as_str());
    match pick(Some(global_named.as_slice()), q) {
        Pick::One(id) => Some(String::from_str(id)),
        _ => None,
    }
}

proof fn lemma_take_map_push<A, B>(s: Seq<A>, i: int, g: spec_fn(A) -> B)
    requires
        0 <= i < s.len(),
    ensures
        s.take(i + 1).map_values(g) == s.take(i).map_values(g).push(g(s[i])),
{
    assert(s.take(i + 1).map_values(g) =~= s.take(i).map_values(g).push(g(s[i])));
}

/// Every callable of every file, as references, file by file.
fn global_table<'a>(files: &'a Vec<FileSymbols>) -> (r: Vec<&'a Callable>)
    ensures
        views(r@) == all_callables(views(files@)),
{
    let ghost fv = views(files@);
    let ghost g = |f: FileSymbolsView| f.callables;
    let mut r: Vec<&'a Callable> = Vec::new();
    let mut fi: usize = 0;
    assert(fv.take(0).map_values(g).flatten() =~= Seq::<CallableView>::empty());
    while fi < files.len()
        invariant
            0 <= fi <= files@.len(),
            fv == views(files@),
            g == (|f: FileSymbolsView| f.callables),
            views(r@) == fv.take(fi as int).map_values(g).flatten(),
        decreases files.len() - fi,
    {
        let f: &'a FileSymbols = &files[fi];
        assert(f@ == fv[fi as int]);
        let ghost base = views(r@);
        let mut k: usize = 0;
        while k < f.callables.len()
            invariant
                0 <= k <= f.callables@.len(),
                views(r@) == base + f@.callables.take(k as int),
            decreases f.callables.len() - k,
        {
            let c: &'a Callable = &f.callables[k];
            assert(c@ == f@.callables[k as int]);
            let ghost before = r@;
            r.push(c);
            assert(views(r@) =~= views(before).push(c@));
            assert(f@.callables.take(k + 1) =~= f@.callables.take(k as int).push(c@));
            k = k + 1;
        }
        assert(f@.callables.take(k as int) =~= f@.callables);
        proof {
            lemma_take_map_push(fv, fi as int, g);
        }
        fi = fi + 1;
    }
    assert(fv.take(fi as int) =~= fv);
    r
}

/// Resolve every file's call sites into `calls` edges with cross-file resolution, and return the
/// canonical whole-repo [`Graph`]: its nodes are exactly the files' nodes and its edges exactly
/// the files' `contains`/`method` edges plus one `calls` edge per call site that resolves, each
/// list strictly sorted (so sorted and free of duplicates).
pub fn resolve(files: Vec<FileSymbols>) -> (g: Graph)
    ensures
        strictly_sorted::<GraphNode>(g@.nodes),
        strictly_sorted::<GraphEdge>(g@.edges),
        forall|n: GraphNodeView| g@.nodes.contains(n) <==> all_nodes(views(files@)).contains(n),
        forall|e: GraphEdgeView| g@.edges.contains(e) <==> all_edges(views(files@)).contains(e),
{
    let ghost fv = views(files@);
    let ghost gn = |f: FileSymbolsView| f.nodes;
    let ghost ge = |f: FileSymbolsView| file_edges(fv, f);
    let global = global_table(&files);
    let names = build_name_index(&global);
    let mut nodes: Vec<GraphNode> = Vec::new();
    let mut edges: Vec<GraphEdge> = Vec::new();
    assert(fv.take(0).map_values(gn).flatten() =~= Seq::<GraphNodeView>::empty());
    assert(fv.take(0).map_values(ge).flatten() =~= Seq::<GraphEdgeView>::empty());
    let mut fi: usize = 0;
    while fi < files.len()
        invariant
            0 <= fi <= files@.len(),
            fv == views(files@),
            gn == (|f: FileSymbolsView| f.nodes),
            ge == (|f: FileSymbolsView| file_edges(fv, f)),
            views(global@) == all_callables(fv),
            name_index(views(names@), views(global@)),
            views(nodes@) == fv.take(fi as int).map_values(gn).flatten(),
            views(edges@) == fv.take(fi as int).map_values(ge).flatten(),
        decreases files.len() - fi,
    {
        let f = &files[fi];
        assert(f@ == fv[fi as int]);
        let ghost nbase = views(nodes@);
        let mut k: usize = 0;
        while k < f.nodes.len()
            invariant
                0 <= k <= f.nodes@.len(),
                views(nodes@) == nbase + f@.nodes.take(k as int),
            decreases f.nodes.len() - k,
        {
            let n = f.nodes[k].duplicate();
            assert(n@ == f@.nodes[k as int]);
            let ghost before = nodes@;
            nodes.push(n);
            assert(views(nodes@) =~= views(before).push(n@));
            assert(f@.nodes.take(k + 1) =~= f@.nodes.take(k as int).push(n@));
            k = k + 1;
        }
        assert(f@.nodes.take(k as int) =~= f@.nodes);
        let ghost ebase = views(edges@);
        let mut k: usize = 0;
        while k < f.contains.len()
            invariant
                0 <= k <= f.contains@.len(),
                views(edges@) == ebase + f@.contains.take(k as int),
            decreases f.contains.len() - k,
        {
            let e = f.contains[k].duplicate();
            assert(e@ == f@.contains[k as int]);
            let ghost before = edges@;
            edges.push(e);
            assert(views(edges@) =~= views(before).push(e@));
            assert(f@.contains.take(k + 1) =~= f@.contains.take(k as int).push(e@));
            k = k + 1;
        }
        assert(f@.contains.take(k as int) =~= f@.contains);
        let local = callables_of(f);
        let mut k: usize = 0;
        assert(call_edges(fv, f@, f@.calls.take(0)) =~= Seq::<GraphEdgeView>::empty());
        while k < f.calls.len()
            invariant
                0 <= k <= f.calls@.len(),
                f@ == fv[fi as int],
                views(local@) == f@.callables,
                views(global@) == all_callables(fv),
                name_index(views(names@), views(global@)),
                views(edges@) == ebase + f@.contains + call_edges(fv, f@, f@.calls.take(k as int)),
            decreases f.calls.len() - k,
        {
            let call = &f.calls[k];
            assert(call@ == f@.calls[k as int]);
            assert(f@.calls.take(k + 1).drop_last() =~= f@.calls.take(k as int));
            assert(f@.calls.take(k + 1).last() == call@);
            let target = resolve_call(&local, &global, &names, call);
            match target {
                Some(t) => {
                    let e = GraphEdge {
                        source: call.caller.clone(),
                        target: t,
                        relation: String::from_str("calls"),
                    };
                    let ghost before = edges@;
                    edges.push(e);
                    assert(views(edges@) =~= views(before).push(e@));
                },
                None => {},
            }
            k = k + 1;
        }
        assert(f@.calls.take(k as int) =~= f@.calls);
        proof {
            lemma_take_map_push(fv, fi as int, gn);
            lemma_take_map_push(fv, fi as int, ge);
        }
        fi = fi + 1;
    }
    assert(fv.take(fi as int) =~= fv);
    let nodes = canonicalize(nodes);
    let edges = canonicalize(edges);
    Graph { nodes, edges }
}

} // verus!
