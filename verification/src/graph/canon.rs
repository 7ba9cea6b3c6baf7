//! Canonical ordering: a strict total order per graph value, and a deterministic sort + dedup that
//! every graph output goes through before it leaves the resolver.

use vstd::prelude::*;

use crate::text::Cmp;

verus! {

/// A type whose views carry a strict total order, with an executable three-way comparison that
/// agrees with it.
pub trait Canonical: View + Sized {
    spec fn lt(a: Self::V, b: Self::V) -> bool;

    proof fn lemma_irreflexive(a: Self::V)
        ensures
            !Self::lt(a, a),
    ;

    proof fn lemma_transitive(a: Self::V, b: Self::V, c: Self::V)
        requires
            Self::lt(a, b),
            Self::lt(b, c),
        ensures
            Self::lt(a, c),
    ;

    proof fn lemma_total(a: Self::V, b: Self::V)
        ensures
            a == b || Self::lt(a, b) || Self::lt(b, a),
    ;

    fn compare(&self, other: &Self) -> (c: Cmp)
        ensures
            (c == Cmp::Less) == Self::lt(self@, other@),
            (c == Cmp::Equal) == (self@ == other@),
            (c == Cmp::Greater) == Self::lt(other@, self@),
    ;
}

/// The views of a sequence of values.
pub open spec fn views<T: View>(s: Seq<T>) -> Seq<T::V> {
    s.map_values(|x: T| x@)
}

/// Strictly increasing in `T`'s order: sorted, and no value twice.
pub open spec fn strictly_sorted<T: Canonical>(s: Seq<T::V>) -> bool {
    forall|i: int, j: int| 0 <= i < j < s.len() ==> T::lt(#[trigger] s[i], #[trigger] s[j])
}

/// Merge two strictly increasing runs into one strictly increasing run holding the values of
/// both (a value in both is kept once). Linear: it takes from the back of each run.
fn merge_unique<T: Canonical>(a: Vec<T>, b: Vec<T>) -> (r: Vec<T>)
    requires
        strictly_sorted::<T>(views(a@)),
        strictly_sorted::<T>(views(b@)),
    ensures
        strictly_sorted::<T>(views(r@)),
        forall|y: T::V| views(r@).contains(y) <==> (views(a@).contains(y) || views(b@).contains(y)),
{
    let ghost av = views(a@);
    let ghost bv = views(b@);
    let mut a = a;
    let mut b = b;
    let mut rev: Vec<T> = Vec::new();
    assert(av.take(av.len() as int) =~= av);
    assert(bv.take(bv.len() as int) =~= bv);
    while a.len() > 0 || b.len() > 0
        invariant
            av.len() >= a@.len(),
            bv.len() >= b@.len(),
            views(a@) == av.take(a@.len() as int),
            views(b@) == bv.take(b@.len() as int),
            strictly_sorted::<T>(av),
            strictly_sorted::<T>(bv),
            forall|i: int, j: int| 0 <= i < j < rev@.len() ==> T::lt(#[trigger] views(rev@)[j], #[trigger] views(rev@)[i]),
            rev@.len() > 0 ==> forall|k: int| 0 <= k < a@.len() ==> T::lt(#[trigger] av[k], views(rev@).last()),
            rev@.len() > 0 ==> forall|k: int| 0 <= k < b@.len() ==> T::lt(#[trigger] bv[k], views(rev@).last()),
            forall|y: T::V| (views(rev@).contains(y) || views(a@).contains(y) || views(b@).contains(y)) <==> (av.contains(y) || bv.contains(y)),
        decreases a@.len() + b@.len(),
    {
        let ghost ra = views(a@);
        let ghost rb = views(b@);
        let ghost rr = views(rev@);
        let la = a.len();
        let lb = b.len();
        let take_a: bool;
        let take_both: bool;
        if la == 0 {
            take_a = false;
            take_both = false;
        } else if lb == 0 {
            take_a = true;
            take_both = false;
        } else {
            let c = a[la - 1].compare(&b[lb - 1]);
            assert(ra[la - 1] == a@[la - 1]@);
            assert(rb[lb - 1] == b@[lb - 1]@);
            match c {
                Cmp::Less => {
                    take_a = false;
                    take_both = false;
                },
                Cmp::Greater => {
                    take_a = true;
                    take_both = false;
                },
                Cmp::Equal => {
                    take_a = true;
                    take_both = true;
                },
            }
        }
        let x = if take_a { a.pop().unwrap() } else { b.pop().unwrap() };
        if take_both {
            let _dup = b.pop();
        }
        let ghost xv = x@;
        proof {
            if take_a {
                assert(xv == ra[la - 1]);
                assert(ra.drop_last() =~= views(a@));
            } else {
                assert(xv == rb[lb - 1]);
                assert(rb.drop_last() =~= views(b@));
            }
            if take_both {
                assert(rb[lb - 1] == xv);
                assert(rb.drop_last() =~= views(b@));
            }
            assert(views(a@) == av.take(a@.len() as int));
            assert(views(b@) == bv.take(b@.len() as int));
            // everything left is below x
            assert forall|k: int| 0 <= k < a@.len() implies T::lt(#[trigger] av[k], xv) by {
                if take_a {
                    assert(av[k] == ra[k] && ra[la - 1] == av[la - 1]);
                } else {
                    assert(av[k] == ra[k]);
                    if k < la - 1 {
                        T::lemma_transitive(av[k], av[la - 1], xv);
                    } else {
                        assert(k == la - 1);
                    }
                }
            }
            assert forall|k: int| 0 <= k < b@.len() implies T::lt(#[trigger] bv[k], xv) by {
                if take_a && !take_both {
                    if lb > 0 {
                        assert(bv[k] == rb[k]);
                        if k < lb - 1 {
                            T::lemma_transitive(bv[k], bv[lb - 1], xv);
                        }
                    }
                } else {
                    assert(bv[k] == rb[k]);
                    assert(rb[lb - 1] == bv[lb - 1]);
                }
            }
            // x is below everything already in rev
            if rr.len() > 0 {
                if take_a {
                    assert(T::lt(av[la - 1], rr.last()));
                } else {
                    assert(T::lt(bv[lb - 1], rr.last()));
                }
            }
        }
        let ghost rev_before = rev@;
        rev.push(x);
        proof {
            let nr = views(rev@);
            assert(nr =~= rr.push(xv));
            assert forall|i: int, j: int| 0 <= i < j < nr.len() implies T::lt(#[trigger] nr[j], #[trigger] nr[i]) by {
                if j == nr.len() - 1 {
                    if i < rr.len() - 1 {
                        T::lemma_transitive(xv, rr.last(), rr[i]);
                    }
                } else {
                    assert(nr[i] == rr[i] && nr[j] == rr[j]);
                }
            }
            assert forall|y: T::V| (nr.contains(y) || views(a@).contains(y) || views(b@).contains(y)) <==> (av.contains(y) || bv.contains(y)) by {
                if ra.contains(y) && !views(a@).contains(y) {
                    let k = choose|k: int| 0 <= k < ra.len() && ra[k] == y;
                    if k < ra.len() - 1 {
                        assert(views(a@)[k] == y);
                    } else {
                        assert(nr[nr.len() - 1] == y || rb.contains(y));
                    }
                }
                if rb.contains(y) && !views(b@).contains(y) {
                    let k = choose|k: int| 0 <= k < rb.len() && rb[k] == y;
                    if k < rb.len() - 1 {
                        assert(views(b@)[k] == y);
                    } else {
                        assert(nr[nr.len() - 1] == y);
                    }
                }
                if views(a@).contains(y) {
                    let k = choose|k: int| 0 <= k < views(a@).len() && views(a@)[k] == y;
                    assert(ra[k] == y);
                }
                if views(b@).contains(y) {
                    let k = choose|k: int| 0 <= k < views(b@).len() && views(b@)[k] == y;
                    assert(rb[k] == y);
                }
                if nr.contains(y) {
                    let k = choose|k: int| 0 <= k < nr.len() && nr[k] == y;
                    if k < rr.len() {
                        assert(rr[k] == y);
                    } else {
                        assert(y == xv);
                        if take_a {
                            assert(ra[la - 1] == y);
                        } else {
                            assert(rb[lb - 1] == y);
                        }
                    }
                }
                if rr.contains(y) {
                    let k = choose|k: int| 0 <= k < rr.len() && rr[k] == y;
                    assert(nr[k] == y);
                }
            }
        }
    }
    assert(views(a@) =~= Seq::<T::V>::empty());
    assert(views(b@) =~= Seq::<T::V>::empty());
    let ghost rv = views(rev@);
    let mut out: Vec<T> = Vec::new();
    while rev.len() > 0
        invariant
            rev@.len() + out@.len() == rv.len(),
            views(rev@) == rv.take(rev@.len() as int),
            forall|i: int, j: int| 0 <= i < j < rv.len() ==> T::lt(#[trigger] rv[j], #[trigger] rv[i]),
            forall|k: int| 0 <= k < out@.len() ==> #[trigger] views(out@)[k] == rv[rv.len() - 1 - k],
        decreases rev@.len(),
    {
        let ghost before = views(rev@);
        let ghost ob = views(out@);
        let x = rev.pop().unwrap();
        assert(x@ == before.last());
        assert(views(rev@) =~= rv.take(rev@.len() as int));
        out.push(x);
        assert(views(out@) =~= ob.push(x@));
    }
    proof {
        let ov = views(out@);
        assert forall|i: int, j: int| 0 <= i < j < ov.len() implies T::lt(#[trigger] ov[i], #[trigger] ov[j]) by {
            assert(ov[i] == rv[rv.len() - 1 - i]);
            assert(ov[j] == rv[rv.len() - 1 - j]);
        }
        assert forall|y: T::V| ov.contains(y) <==> rv.contains(y) by {
            if ov.contains(y) {
                let k = choose|k: int| 0 <= k < ov.len() && ov[k] == y;
                assert(rv[rv.len() - 1 - k] == y);
            }
            if rv.contains(y) {
                let k = choose|k: int| 0 <= k < rv.len() && rv[k] == y;
                assert(ov[rv.len() - 1 - k] == y);
            }
        }
    }
    out
}

/// Sort `items` into `T`'s order and drop duplicates (values with equal views): the result is
/// strictly increasing and holds exactly the values of `items`. The outcome depends only on which
/// values `items` holds, never on their order. A merge sort: `O(n log n)` comparisons.
pub fn canonicalize<T: Canonical>(items: Vec<T>) -> (r: Vec<T>)
    ensures
        strictly_sorted::<T>(views(r@)),
        forall|y: T::V| views(r@).contains(y) <==> views(items@).contains(y),
    decreases items@.len(),
{
    let n = items.len();
    if n <= 1 {
        return items;
    }
    let ghost all = views(items@);
    let mut left = items;
    let right = left.split_off(n / 2);
    assert(all =~= views(left@) + views(right@));
    let l = canonicalize(left);
    let r = canonicalize(right);
    let m = merge_unique(l, r);
    assert forall|y: T::V| views(m@).contains(y) <==> all.contains(y) by {
        if all.contains(y) {
            let k = choose|k: int| 0 <= k < all.len() && all[k] == y;
            if k < views(left@).len() {
                assert(views(left@)[k] == y);
            } else {
                assert(views(right@)[k - views(left@).len()] == y);
            }
        }
        if views(left@).contains(y) {
            let k = choose|k: int| 0 <= k < views(left@).len() && views(left@)[k] == y;
            assert(all[k] == y);
        }
        if views(right@).contains(y) {
            let k = choose|k: int| 0 <= k < views(right@).len() && views(right@)[k] == y;
            assert(all[k + views(left@).len()] == y);
        }
    }
    m
}

/// Two strictly sorted sequences holding the same values are the same sequence: the canonical
/// form of a set of values is unique.
pub proof fn lemma_strictly_sorted_unique<T: Canonical>(a: Seq<T::V>, b: Seq<T::V>)
    requires
        strictly_sorted::<T>(a),
        strictly_sorted::<T>(b),
        forall|y: T::V| a.contains(y) <==> b.contains(y),
    ensures
        a == b,
    decreases a.len(),
{
    if a.len() == 0 {
        if b.len() > 0 {
            assert(b.contains(b[0]));
        }
        assert(a =~= b);
    } else if b.len() == 0 {
        assert(a.contains(a[0]));
    } else {
        // The first elements agree: each is the least value of the shared set.
        assert(a.contains(a[0]));
        assert(b.contains(b[0]));
        let ka = choose|k: int| 0 <= k < b.len() && b[k] == a[0];
        let kb = choose|k: int| 0 <= k < a.len() && a[k] == b[0];
        if a[0] != b[0] {
            assert(ka > 0 && kb > 0);
            assert(T::lt(b[0], b[ka]));
            assert(T::lt(a[0], a[kb]));
            T::lemma_transitive(a[0], b[0], a[0]);
            T::lemma_irreflexive(a[0]);
        }
        let a1 = a.drop_first();
        let b1 = b.drop_first();
        assert forall|y: T::V| a1.contains(y) <==> b1.contains(y) by {
            if a1.contains(y) {
                let k = choose|k: int| 0 <= k < a1.len() && a1[k] == y;
                assert(a[k + 1] == y);
                assert(T::lt(a[0], y));
                assert(b.contains(y));
                let m = choose|m: int| 0 <= m < b.len() && b[m] == y;
                if m == 0 {
                    T::lemma_irreflexive(y);
                }
                assert(b1[m - 1] == y);
            }
            if b1.contains(y) {
                let k = choose|k: int| 0 <= k < b1.len() && b1[k] == y;
                assert(b[k + 1] == y);
                assert(T::lt(b[0], y));
                assert(a.contains(y));
                let m = choose|m: int| 0 <= m < a.len() && a[m] == y;
                if m == 0 {
                    T::lemma_irreflexive(y);
                }
                assert(a1[m - 1] == y);
            }
        }
        assert(strictly_sorted::<T>(a1)) by {
            assert forall|i: int, j: int| 0 <= i < j < a1.len() implies T::lt(#[trigger] a1[i], #[trigger] a1[j]) by {
                assert(a1[i] == a[i + 1] && a1[j] == a[j + 1]);
            }
        }
        assert(strictly_sorted::<T>(b1)) by {
            assert forall|i: int, j: int| 0 <= i < j < b1.len() implies T::lt(#[trigger] b1[i], #[trigger] b1[j]) by {
                assert(b1[i] == b[i + 1] && b1[j] == b[j + 1]);
            }
        }
        lemma_strictly_sorted_unique::<T>(a1, b1);
        assert(a =~= seq![a[0]] + a1);
        assert(b =~= seq![b[0]] + b1);
    }
}

} // verus!
