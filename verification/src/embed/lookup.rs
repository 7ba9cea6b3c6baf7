//! Sorted lookup tables over a graph's nodes, built once per graph: one by node id (the last
//! node with an id is the one an id names), one by source location. Each lookup is a binary
//! search, so consulting the graph once per chunk costs `O(log n)` rather than a pass over it.

use vstd::prelude::*;

use super::context::{at_location, find_idx, located};
use crate::graph::canon::{canonicalize, strictly_sorted, views, Canonical};
use crate::graph::{GraphNode, GraphNodeView};
use crate::text::{
    compare_str, lemma_lex_irreflexive, lemma_lex_total, lemma_lex_transitive, lex_lt, str_eq, Cmp,
};

verus! {

broadcast use vstd::seq_lib::group_seq_properties;

/// `find_idx` finds the last node with the id, and nothing when no node has it.
pub proof fn lemma_find_idx_is_last(nodes: Seq<GraphNodeView>, id: Seq<char>)
    ensures
        match find_idx(nodes, id) {
            Some(i) => 0 <= i < nodes.len() && nodes[i].node_id == id && forall|j: int|
                i < j < nodes.len() ==> (#[trigger] nodes[j]).node_id != id,
            None => forall|j: int| 0 <= j < nodes.len() ==> (#[trigger] nodes[j]).node_id != id,
        },
    decreases nodes.len(),
{
    if nodes.len() > 0 {
        let prev = nodes.drop_last();
        lemma_find_idx_is_last(prev, id);
        if nodes.last().node_id != id {
            match find_idx(prev, id) {
                Some(i) => {
                    assert(nodes[i] == prev[i]);
                    assert forall|j: int| i < j < nodes.len() implies (#[trigger] nodes[j]).node_id != id by {
                        if j < prev.len() {
                            assert(prev[j] == nodes[j]);
                        }
                    }
                },
                None => {
                    assert forall|j: int| 0 <= j < nodes.len() implies (#[trigger] nodes[j]).node_id != id by {
                        if j < prev.len() {
                            assert(prev[j] == nodes[j]);
                        }
                    }
                },
            }
        }
    }
}

/// A node id paired with the node's position.
pub struct IdSlot {
    pub id: String,
    pub idx: usize,
}

pub struct IdSlotView {
    pub id: Seq<char>,
    pub idx: usize,
}

impl View for IdSlot {
    type V = IdSlotView;

    open spec fn view(&self) -> IdSlotView {
        IdSlotView { id: self.id@, idx: self.idx }
    }
}

/// By id, then by position.
pub open spec fn id_slot_lt(a: IdSlotView, b: IdSlotView) -> bool {
    lex_lt(a.id, b.id) || (a.id == b.id && a.idx < b.idx)
}

impl Canonical for IdSlot {
    open spec fn lt(a: IdSlotView, b: IdSlotView) -> bool {
        id_slot_lt(a, b)
    }

    proof fn lemma_irreflexive(a: IdSlotView) {
        lemma_lex_irreflexive(a.id);
    }

    proof fn lemma_transitive(a: IdSlotView, b: IdSlotView, c: IdSlotView) {
        lemma_lex_irreflexive(a.id);
        lemma_lex_irreflexive(b.id);
        if lex_lt(a.id, b.id) && lex_lt(b.id, c.id) {
            lemma_lex_transitive(a.id, b.id, c.id);
        }
    }

    proof fn lemma_total(a: IdSlotView, b: IdSlotView) {
        lemma_lex_total(a.id, b.id);
    }

    fn compare(&self, other: &Self) -> (c: Cmp) {
        proof {
            lemma_lex_irreflexive(self.id@);
            lemma_lex_total(self.id@, other.id@);
        }
        match compare_str(self.id.as_str(), other.id.as_str()) {
            Cmp::Equal => {},
            c => {
                return c;
            },
        }
        if self.idx < other.idx {
            Cmp::Less
        } else if self.idx == other.idx {
            Cmp::Equal
        } else {
            Cmp::Greater
        }
    }
}

/// `slots` lists every node as (id, position), strictly sorted.
pub open spec fn id_index(slots: Seq<IdSlotView>, nodes: Seq<GraphNodeView>) -> bool {
    &&& strictly_sorted::<IdSlot>(slots)
    &&& forall|s: IdSlotView| slots.contains(s) <==> (s.idx < nodes.len() && nodes[s.idx as int].node_id == s.id)
}

/// Build the by-id table of `nodes`.
pub fn build_id_index(nodes: &Vec<GraphNode>) -> (r: Vec<IdSlot>)
    ensures
        id_index(views(r@), views(nodes@)),
{
    let ghost nv = views(nodes@);
    let mut v: Vec<IdSlot> = Vec::new();
    let mut i: usize = 0;
    while i < nodes.len()
        invariant
            i <= nodes@.len(),
            nv == views(nodes@),
            views(v@).len() == i,
            forall|k: int| 0 <= k < i ==> #[trigger] views(v@)[k] == (IdSlotView { id: nv[k].node_id, idx: k as usize }),
        decreases nodes.len() - i,
    {
        let ghost before = views(v@);
        assert(nv[i as int] == nodes@[i as int]@);
        v.push(IdSlot { id: nodes[i].node_id.clone(), idx: i });
        assert(views(v@) =~= before.push(IdSlotView { id: nv[i as int].node_id, idx: i }));
        i = i + 1;
    }
    let ghost vv = views(v@);
    let r = canonicalize(v);
    assert forall|s: IdSlotView| views(r@).contains(s) <==> (s.idx < nv.len() && nv[s.idx as int].node_id == s.id) by {
        if vv.contains(s) {
            let k = choose|k: int| 0 <= k < vv.len() && vv[k] == s;
            assert(vv[k] == (IdSlotView { id: nv[k].node_id, idx: k as usize }));
        }
        if s.idx < nv.len() && nv[s.idx as int].node_id == s.id {
            assert(vv[s.idx as int] == s);
        }
    }
    r
}

/// Slots are in non-decreasing id order.
proof fn lemma_ids_ordered(sv: Seq<IdSlotView>, a: int, b: int)
    requires
        strictly_sorted::<IdSlot>(sv),
        0 <= a <= b < sv.len(),
    ensures
        !lex_lt(sv[b].id, sv[a].id),
{
    lemma_lex_irreflexive(sv[a].id);
    if a < b {
        assert(IdSlot::lt(sv[a], sv[b]));
        if lex_lt(sv[b].id, sv[a].id) && lex_lt(sv[a].id, sv[b].id) {
            lemma_lex_transitive(sv[a].id, sv[b].id, sv[a].id);
        }
    }
}

/// The position `find_idx` gives for `id`, looked up in the by-id table.
pub fn last_index_of(slots: &Vec<IdSlot>, id: &str, Ghost(nodes): Ghost<Seq<GraphNodeView>>) -> (r: Option<usize>)
    requires
        id_index(views(slots@), nodes),
        nodes.len() <= usize::MAX,
    ensures
        match r {
            Some(i) => find_idx(nodes, id@) == Some(i as int),
            None => find_idx(nodes, id@) is None,
        },
{
    let ghost sv = views(slots@);
    let mut lo: usize = 0;
    let mut hi: usize = slots.len();
    while lo < hi
        invariant
            0 <= lo <= hi <= slots@.len(),
            sv == views(slots@),
            id_index(sv, nodes),
            nodes.len() <= usize::MAX,
            forall|j: int| 0 <= j < lo ==> !lex_lt(id@, (#[trigger] sv[j]).id),
            forall|j: int| hi <= j < sv.len() ==> lex_lt(id@, (#[trigger] sv[j]).id),
        decreases hi - lo,
    {
        let mid = lo + (hi - lo) / 2;
        assert(sv[mid as int] == slots@[mid as int]@);
        let c = compare_str(slots[mid].id.as_str(), id);
        proof {
            lemma_lex_total(sv[mid as int].id, id@);
        }
        if c == Cmp::Greater {
            assert forall|j: int| mid <= j < sv.len() implies lex_lt(id@, (#[trigger] sv[j]).id) by {
                if j > mid {
                    lemma_ids_ordered(sv, mid as int, j);
                    lemma_lex_total(sv[mid as int].id, sv[j].id);
                    if lex_lt(sv[mid as int].id, sv[j].id) {
                        lemma_lex_transitive(id@, sv[mid as int].id, sv[j].id);
                    }
                }
            }
            hi = mid;
        } else {
            assert(!lex_lt(id@, sv[mid as int].id)) by {
                lemma_lex_irreflexive(id@);
                if lex_lt(id@, sv[mid as int].id) && lex_lt(sv[mid as int].id, id@) {
                    lemma_lex_transitive(id@, sv[mid as int].id, id@);
                }
            }
            assert forall|j: int| 0 <= j < mid + 1 implies !lex_lt(id@, (#[trigger] sv[j]).id) by {
                if j < mid {
                    lemma_ids_ordered(sv, j, mid as int);
                    lemma_lex_total(sv[j].id, sv[mid as int].id);
                    if lex_lt(id@, sv[j].id) && lex_lt(sv[j].id, sv[mid as int].id) {
                        lemma_lex_transitive(id@, sv[j].id, sv[mid as int].id);
                    }
                }
            }
            lo = mid + 1;
        }
    }
    proof {
        lemma_find_idx_is_last(nodes, id@);
        lemma_lex_irreflexive(id@);
    }
    if lo > 0 && str_eq(slots[lo - 1].id.as_str(), id) {
        let s = &slots[lo - 1];
        proof {
            let p = lo - 1;
            assert(sv[p] == s@);
            assert(sv.contains(s@));
            assert forall|j: int| s.idx < j < nodes.len() implies (#[trigger] nodes[j]).node_id != id@ by {
                if nodes[j].node_id == id@ {
                    let t = IdSlotView { id: id@, idx: j as usize };
                    assert(sv.contains(t));
                    let m = choose|m: int| 0 <= m < sv.len() && sv[m] == t;
                    if m < p {
                        assert(IdSlot::lt(sv[m], sv[p]));
                    } else if m > p {
                        assert(m >= hi);
                    }
                }
            }
        }
        Some(s.idx)
    } else {
        proof {
            assert forall|j: int| 0 <= j < nodes.len() implies (#[trigger] nodes[j]).node_id != id@ by {
                if nodes[j].node_id == id@ {
                    let t = IdSlotView { id: id@, idx: j as usize };
                    assert(sv.contains(t));
                    let m = choose|m: int| 0 <= m < sv.len() && sv[m] == t;
                    if m < lo {
                        let p = lo - 1;
                        if m < p {
                            assert(IdSlot::lt(sv[m], sv[p]));
                            lemma_lex_total(id@, sv[p].id);
                        }
                    }
                }
            }
        }
        None
    }
}

/// The indices `located` lists are strictly increasing, below `k`, and exactly those of the
/// nodes at the location.
pub proof fn lemma_located_members(nodes: Seq<GraphNodeView>, file: Seq<char>, line: int, k: int)
    requires
        k <= nodes.len(),
    ensures
        forall|a: int, b: int|
            0 <= a < b < located(nodes, file, line, k).len() ==> #[trigger] located(nodes, file, line, k)[a]
                < #[trigger] located(nodes, file, line, k)[b],
        forall|i: int| located(nodes, file, line, k).contains(i) <==> (0 <= i < k && at_location(nodes[i], file, line)),
    decreases k,
{
    if k > 0 {
        lemma_located_members(nodes, file, line, k - 1);
        let prev = located(nodes, file, line, k - 1);
        let cur = located(nodes, file, line, k);
        assert forall|i: int| cur.contains(i) <==> (0 <= i < k && at_location(nodes[i], file, line)) by {
            if cur.contains(i) {
                let m = choose|m: int| 0 <= m < cur.len() && cur[m] == i;
                if m < prev.len() {
                    assert(prev[m] == i);
                    assert(prev.contains(i));
                }
            }
            if 0 <= i < k && at_location(nodes[i], file, line) {
                if i < k - 1 {
                    assert(prev.contains(i));
                    let m = choose|m: int| 0 <= m < prev.len() && prev[m] == i;
                    assert(cur[m] == i);
                } else {
                    assert(cur[cur.len() - 1] == i);
                }
            }
        }
        assert forall|a: int, b: int| 0 <= a < b < cur.len() implies #[trigger] cur[a] < #[trigger] cur[b] by {
            if b < prev.len() {
                assert(cur[a] == prev[a] && cur[b] == prev[b]);
            } else {
                assert(cur[a] == prev[a]);
                assert(prev.contains(prev[a]));
            }
        }
    }
}

/// Two strictly increasing sequences of integers with the same members are equal.
pub proof fn lemma_increasing_unique(a: Seq<int>, b: Seq<int>)
    requires
        forall|i: int, j: int| 0 <= i < j < a.len() ==> #[trigger] a[i] < #[trigger] a[j],
        forall|i: int, j: int| 0 <= i < j < b.len() ==> #[trigger] b[i] < #[trigger] b[j],
        forall|x: int| a.contains(x) <==> b.contains(x),
    ensures
        a == b,
    decreases a.len(),
{
    if a.len() == 0 {
        if b.len() > 0 {
            assert(b.contains(b[0]));
        }
        assert(a =~= b);
    } else if b.len() == 0 {
        assert(a.contains(a[0]));
    } else {
        assert(a.contains(a[0]));
        assert(b.contains(b[0]));
        let ka = choose|k: int| 0 <= k < b.len() && b[k] == a[0];
        let kb = choose|k: int| 0 <= k < a.len() && a[k] == b[0];
        if a[0] != b[0] {
            assert(ka > 0 && kb > 0);
            assert(b[0] < b[ka]);
            assert(a[0] < a[kb]);
        }
        let a1 = a.drop_first();
        let b1 = b.drop_first();
        assert forall|x: int| a1.contains(x) <==> b1.contains(x) by {
            if a1.contains(x) {
                let k = choose|k: int| 0 <= k < a1.len() && a1[k] == x;
                assert(a[k + 1] == x);
                assert(b.contains(x));
                let m = choose|m: int| 0 <= m < b.len() && b[m] == x;
                assert(a[0] < x);
                assert(m != 0);
                assert(b1[m - 1] == x);
            }
            if b1.contains(x) {
                let k = choose|k: int| 0 <= k < b1.len() && b1[k] == x;
                assert(b[k + 1] == x);
                assert(a.contains(x));
                let m = choose|m: int| 0 <= m < a.len() && a[m] == x;
                assert(b[0] < x);
                assert(m != 0);
                assert(a1[m - 1] == x);
            }
        }
        assert forall|i: int, j: int| 0 <= i < j < a1.len() implies #[trigger] a1[i] < #[trigger] a1[j] by {
            assert(a1[i] == a[i + 1] && a1[j] == a[j + 1]);
        }
        assert forall|i: int, j: int| 0 <= i < j < b1.len() implies #[trigger] b1[i] < #[trigger] b1[j] by {
            assert(b1[i] == b[i + 1] && b1[j] == b[j + 1]);
        }
        lemma_increasing_unique(a1, b1);
        assert(a =~= seq![a[0]] + a1);
        assert(b =~= seq![b[0]] + b1);
    }
}

/// A node's location paired with its position.
pub struct LocSlot {
    pub file: String,
    pub line: i64,
    pub idx: usize,
}

pub struct LocSlotView {
    pub file: Seq<char>,
    pub line: i64,
    pub idx: usize,
}

impl View for LocSlot {
    type V = LocSlotView;

    open spec fn view(&self) -> LocSlotView {
        LocSlotView { file: self.file@, line: self.line, idx: self.idx }
    }
}

/// Location `(file, line)` of `a` is before that of `b`.
pub open spec fn key_lt(a: Seq<char>, al: i64, b: Seq<char>, bl: i64) -> bool {
    lex_lt(a, b) || (a == b && al < bl)
}

/// By file, then line, then position.
pub open spec fn loc_slot_lt(a: LocSlotView, b: LocSlotView) -> bool {
    key_lt(a.file, a.line, b.file, b.line) || (a.file == b.file && a.line == b.line && a.idx < b.idx)
}

impl Canonical for LocSlot {
    open spec fn lt(a: LocSlotView, b: LocSlotView) -> bool {
        loc_slot_lt(a, b)
    }

    proof fn lemma_irreflexive(a: LocSlotView) {
        lemma_lex_irreflexive(a.file);
    }

    proof fn lemma_transitive(a: LocSlotView, b: LocSlotView, c: LocSlotView) {
        lemma_lex_irreflexive(a.file);
        lemma_lex_irreflexive(b.file);
        if lex_lt(a.file, b.file) && lex_lt(b.file, c.file) {
            lemma_lex_transitive(a.file, b.file, c.file);
        }
    }

    proof fn lemma_total(a: LocSlotView, b: LocSlotView) {
        lemma_lex_total(a.file, b.file);
    }

    fn compare(&self, other: &Self) -> (c: Cmp) {
        proof {
            lemma_lex_irreflexive(self.file@);
            lemma_lex_total(self.file@, other.file@);
        }
        match compare_str(self.file.as_str(), other.file.as_str()) {
            Cmp::Equal => {},
            c => {
                return c;
            },
        }
        if self.line < other.line {
            return Cmp::Less;
        } else if self.line > other.line {
            return Cmp::Greater;
        }
        if self.idx < other.idx {
            Cmp::Less
        } else if self.idx == other.idx {
            Cmp::Equal
        } else {
            Cmp::Greater
        }
    }
}

/// `slots` lists every node as (file, line, position), strictly sorted.
pub open spec fn loc_index(slots: Seq<LocSlotView>, nodes: Seq<GraphNodeView>) -> bool {
    &&& strictly_sorted::<LocSlot>(slots)
    &&& forall|s: LocSlotView| slots.contains(s) <==> (s.idx < nodes.len() && nodes[s.idx as int].source_file
        == s.file && nodes[s.idx as int].start_line == s.line)
}

/// Build the by-location table of `nodes`.
pub fn build_loc_index(nodes: &Vec<GraphNode>) -> (r: Vec<LocSlot>)
    ensures
        loc_index(views(r@), views(nodes@)),
{
    let ghost nv = views(nodes@);
    let mut v: Vec<LocSlot> = Vec::new();
    let mut i: usize = 0;
    while i < nodes.len()
        invariant
            i <= nodes@.len(),
            nv == views(nodes@),
            views(v@).len() == i,
            forall|k: int| 0 <= k < i ==> #[trigger] views(v@)[k] == (LocSlotView {
                file: nv[k].source_file,
                line: nv[k].start_line,
                idx: k as usize,
            }),
        decreases nodes.len() - i,
    {
        let ghost before = views(v@);
        assert(nv[i as int] == nodes@[i as int]@);
        v.push(LocSlot { file: nodes[i].source_file.clone(), line: nodes[i].start_line, idx: i });
        assert(views(v@) =~= before.push(
            LocSlotView { file: nv[i as int].source_file, line: nv[i as int].start_line, idx: i },
        ));
        i = i + 1;
    }
    let ghost vv = views(v@);
    let r = canonicalize(v);
    assert forall|s: LocSlotView| views(r@).contains(s) <==> (s.idx < nv.len() && nv[s.idx as int].source_file
        == s.file && nv[s.idx as int].start_line == s.line) by {
        if vv.contains(s) {
            let k = choose|k: int| 0 <= k < vv.len() && vv[k] == s;
            assert(vv[k] == (LocSlotView {
                file: nv[k].source_file,
                line: nv[k].start_line,
                idx: k as usize,
            }));
        }
        if s.idx < nv.len() && nv[s.idx as int].source_file == s.file && nv[s.idx as int].start_line
            == s.line {
            assert(vv[s.idx as int] == s);
        }
    }
    r
}

/// Slots are in non-decreasing location order.
proof fn lemma_locs_ordered(sv: Seq<LocSlotView>, a: int, b: int)
    requires
        strictly_sorted::<LocSlot>(sv),
        0 <= a <= b < sv.len(),
    ensures
        !key_lt(sv[b].file, sv[b].line, sv[a].file, sv[a].line),
{
    lemma_lex_irreflexive(sv[a].file);
    if a < b {
        assert(LocSlot::lt(sv[a], sv[b]));
        if lex_lt(sv[b].file, sv[a].file) && lex_lt(sv[a].file, sv[b].file) {
            lemma_lex_transitive(sv[a].file, sv[b].file, sv[a].file);
        }
    }
}

/// The positions of the nodes at `file`/`line`, in increasing order, looked up in the
/// by-location table (the list `located` gives).
pub fn nodes_at(slots: &Vec<LocSlot>, file: &str, line: i64, Ghost(nodes): Ghost<Seq<GraphNodeView>>) -> (r: Vec<usize>)
    requires
        loc_index(views(slots@), nodes),
        nodes.len() <= usize::MAX,
    ensures
        r@.map_values(|i: usize| i as int) == located(nodes, file@, line as int, nodes.len() as int),
{
    let ghost sv = views(slots@);
    let mut lo: usize = 0;
    let mut hi: usize = slots.len();
    while lo < hi
        invariant
            0 <= lo <= hi <= slots@.len(),
            sv == views(slots@),
            loc_index(sv, nodes),
            forall|j: int| 0 <= j < lo ==> key_lt((#[trigger] sv[j]).file, sv[j].line, file@, line),
            forall|j: int| hi <= j < sv.len() ==> !key_lt((#[trigger] sv[j]).file, sv[j].line, file@, line),
        decreases hi - lo,
    {
        let mid = lo + (hi - lo) / 2;
        assert(sv[mid as int] == slots@[mid as int]@);
        let c = compare_str(slots[mid].file.as_str(), file);
        proof {
            lemma_lex_total(sv[mid as int].file, file@);
            lemma_lex_irreflexive(file@);
        }
        let before = c == Cmp::Less || (c == Cmp::Equal && slots[mid].line < line);
        if before {
            assert forall|j: int| 0 <= j < mid + 1 implies key_lt((#[trigger] sv[j]).file, sv[j].line, file@, line) by {
                if j < mid {
                    lemma_locs_ordered(sv, j, mid as int);
                    lemma_lex_total(sv[j].file, sv[mid as int].file);
                    if lex_lt(sv[j].file, sv[mid as int].file) && lex_lt(sv[mid as int].file, file@) {
                        lemma_lex_transitive(sv[j].file, sv[mid as int].file, file@);
                    }
                }
            }
            lo = mid + 1;
        } else {
            assert forall|j: int| mid <= j < sv.len() implies !key_lt((#[trigger] sv[j]).file, sv[j].line, file@, line) by {
                if j > mid {
                    lemma_locs_ordered(sv, mid as int, j);
                    lemma_lex_total(sv[j].file, sv[mid as int].file);
                    lemma_lex_total(sv[j].file, file@);
                    if lex_lt(sv[j].file, file@) {
                        if lex_lt(file@, sv[mid as int].file) {
                            lemma_lex_transitive(sv[j].file, file@, sv[mid as int].file);
                        }
                        if lex_lt(sv[mid as int].file, sv[j].file) {
                            lemma_lex_transitive(sv[mid as int].file, sv[j].file, file@);
                        }
                    }
                }
            }
            hi = mid;
        }
    }
    let mut out: Vec<usize> = Vec::new();
    let mut j: usize = lo;
    while j < slots.len() && str_eq(slots[j].file.as_str(), file) && slots[j].line == line
        invariant
            lo <= j <= slots@.len(),
            sv == views(slots@),
            loc_index(sv, nodes),
            out@.len() == j - lo,
            forall|k: int| 0 <= k < out@.len() ==> (#[trigger] out@[k]) == sv[lo + k].idx,
            forall|k: int| lo <= k < j ==> (#[trigger] sv[k]).file == file@ && sv[k].line == line,
        decreases slots.len() - j,
    {
        assert(sv[j as int] == slots@[j as int]@);
        out.push(slots[j].idx);
        j = j + 1;
    }
    proof {
        let found = out@.map_values(|i: usize| i as int);
        let want = located(nodes, file@, line as int, nodes.len() as int);
        lemma_located_members(nodes, file@, line as int, nodes.len() as int);
        lemma_lex_irreflexive(file@);
        assert forall|a: int, b: int| 0 <= a < b < found.len() implies #[trigger] found[a] < #[trigger] found[b] by {
            assert(LocSlot::lt(sv[lo + a], sv[lo + b]));
        }
        assert forall|x: int| found.contains(x) <==> want.contains(x) by {
            if found.contains(x) {
                let k = choose|k: int| 0 <= k < found.len() && found[k] == x;
                let s = sv[lo + k];
                assert(sv.contains(s));
                assert(s.idx == x);
            }
            if want.contains(x) {
                let t = LocSlotView { file: file@, line: line, idx: x as usize };
                assert(sv.contains(t));
                let m = choose|m: int| 0 <= m < sv.len() && sv[m] == t;
                assert(m >= lo);
                if m >= j {
                    // the scan stopped at `j`, whose location differs, between `lo` and `m`
                    assert(j < sv.len());
                    assert(sv[j as int] == slots@[j as int]@);
                    lemma_locs_ordered(sv, j as int, m);
                    lemma_lex_total(sv[j as int].file, file@);
                    assert(!key_lt(sv[j as int].file, sv[j as int].line, file@, line));
                    assert(sv[j as int].file == file@ && sv[j as int].line == line);
                }
                assert(found[m - lo] == x);
            }
        }
        lemma_increasing_unique(found, want);
    }
    out
}

} // verus!
