//! Stable sorting by an order of the type's own.
use vstd::prelude::*;

verus! {

/// A total preorder: "comes no later than".
pub trait Ranked: Sized {
    spec fn le(self, other: Self) -> bool;

    proof fn le_total(a: Self, b: Self)
        ensures
            a.le(b) || b.le(a),
    ;

    proof fn le_transitive(a: Self, b: Self, c: Self)
        requires
            a.le(b),
            b.le(c),
        ensures
            a.le(c),
    ;

    fn is_le(&self, other: &Self) -> (r: bool)
        ensures
            r == self.le(*other),
    ;
}

/// A sorted row with one more element, behind those that come no later.
pub open spec fn inserted<T: Ranked>(s: Seq<T>, x: T) -> Seq<T>
    decreases s.len(),
{
    if s.len() == 0 || s.last().le(x) {
        s.push(x)
    } else {
        inserted(s.drop_last(), x).push(s.last())
    }
}

/// The row in order; elements of equal rank keep their order.
pub open spec fn ranked<T: Ranked>(s: Seq<T>) -> Seq<T>
    decreases s.len(),
{
    if s.len() == 0 {
        s
    } else {
        inserted(ranked(s.drop_last()), s.last())
    }
}

pub open spec fn in_order<T: Ranked>(s: Seq<T>) -> bool {
    forall|i: int, j: int| 0 <= i <= j < s.len() ==> (#[trigger] s[i]).le(#[trigger] s[j])
}

proof fn lemma_inserted_at<T: Ranked>(s: Seq<T>, x: T, k: int)
    requires
        0 <= k <= s.len(),
        k > 0 ==> s[k - 1].le(x),
        forall|i: int| k <= i < s.len() ==> !(#[trigger] s[i]).le(x),
    ensures
        inserted(s, x) == s.insert(k, x),
    decreases s.len(),
{
    if s.len() == k {
        assert(s.insert(k, x) =~= s.push(x));
    } else {
        let init = s.drop_last();
        assert forall|i: int| k <= i < init.len() implies !(#[trigger] init[i]).le(x) by {
            assert(init[i] == s[i]);
        }
        assert(!s[s.len() - 1].le(x));
        lemma_inserted_at(init, x, k);
        assert(s.insert(k, x) =~= init.insert(k, x).push(s.last()));
    }
}

/// Sort a row; elements of equal rank keep their order.
pub fn sort_ranked<T: Ranked>(v: Vec<T>) -> (r: Vec<T>)
    ensures
        r@ == ranked(v@),
        r@.len() == v@.len(),
        r@.to_multiset() == v@.to_multiset(),
        in_order(r@),
{
    let ghost all = v@;
    let mut rest = v;
    let mut out: Vec<T> = Vec::new();
    let ghost mut n: int = 0;
    assert(all.take(0) =~= Seq::<T>::empty());
    assert(all.skip(0) =~= all);
    while rest.len() > 0
        invariant
            0 <= n <= all.len(),
            rest@ == all.skip(n),
            out@ == ranked(all.take(n)),
        decreases rest.len(),
    {
        let x = rest.remove(0);
        proof {
            assert(rest@ =~= all.skip(n + 1));
            assert(x == all[n]);
            assert(all.take(n + 1).drop_last() =~= all.take(n));
            assert(all.take(n + 1).last() == x);
        }
        let mut k: usize = out.len();
        while k > 0 && !out[k - 1].is_le(&x)
            invariant
                k <= out.len(),
                forall|i: int| k <= i < out.len() ==> !(#[trigger] out@[i]).le(x),
            decreases k,
        {
            k = k - 1;
        }
        proof {
            lemma_inserted_at(out@, x, k as int);
        }
        out.insert(k, x);
        proof {
            n = n + 1;
        }
    }
    proof {
        assert(all.take(n) =~= all);
        lemma_ranked(all);
    }
    out
}

/// Sorting gives a row in order, of the same elements.
pub proof fn lemma_ranked<T: Ranked>(s: Seq<T>)
    ensures
        in_order(ranked(s)),
        ranked(s).to_multiset() == s.to_multiset(),
        ranked(s).len() == s.len(),
    decreases s.len(),
{
    if s.len() > 0 {
        let init = s.drop_last();
        lemma_ranked(init);
        lemma_inserted_in_order(ranked(init), s.last());
        lemma_inserted_multiset(ranked(init), s.last());
        assert(s =~= init.push(s.last()));
        vstd::seq_lib::to_multiset_build(init, s.last());
    }
}

proof fn lemma_inserted_multiset<T: Ranked>(s: Seq<T>, x: T)
    ensures
        inserted(s, x).to_multiset() == s.to_multiset().insert(x),
        inserted(s, x).len() == s.len() + 1,
    decreases s.len(),
{
    if s.len() == 0 || s.last().le(x) {
        vstd::seq_lib::to_multiset_build(s, x);
    } else {
        let init = s.drop_last();
        lemma_inserted_multiset(init, x);
        vstd::seq_lib::to_multiset_build(inserted(init, x), s.last());
        vstd::seq_lib::to_multiset_build(init, s.last());
        assert(init.push(s.last()) =~= s);
        assert(s.to_multiset().insert(x) =~= init.to_multiset().insert(x).insert(s.last()));
    }
}

proof fn lemma_inserted_in_order<T: Ranked>(s: Seq<T>, x: T)
    requires
        in_order(s),
    ensures
        in_order(inserted(s, x)),
        forall|y: T| inserted(s, x).contains(y) ==> s.contains(y) || y == x,
    decreases s.len(),
{
    let t = inserted(s, x);
    if s.len() == 0 || s.last().le(x) {
        assert forall|i: int, j: int| 0 <= i <= j < t.len() implies (#[trigger] t[i]).le(
            #[trigger] t[j],
        ) by {
            if j < s.len() {
                assert(s[i].le(s[j]));
            } else if i < s.len() {
                assert(s[i].le(s[s.len() - 1]));
                T::le_transitive(s[i], s.last(), x);
            } else {
                T::le_total(x, x);
            }
        }
        assert forall|y: T| t.contains(y) implies s.contains(y) || y == x by {
            let i = choose|i: int| 0 <= i < t.len() && t[i] == y;
            if i < s.len() {
                assert(s[i] == y);
            }
        }
    } else {
        let init = s.drop_last();
        assert forall|i: int, j: int| 0 <= i <= j < init.len() implies (#[trigger] init[i]).le(
            #[trigger] init[j],
        ) by {
            assert(s[i].le(s[j]));
        }
        lemma_inserted_in_order(init, x);
        let u = inserted(init, x);
        T::le_total(s.last(), x);
        assert forall|i: int, j: int| 0 <= i <= j < t.len() implies (#[trigger] t[i]).le(
            #[trigger] t[j],
        ) by {
            if j < u.len() {
                assert(u[i].le(u[j]));
            } else if i < u.len() {
                assert(t[i] == u[i] && t[j] == s.last());
                assert(u.contains(u[i]));
                if u[i] != x {
                    assert(init.contains(u[i]));
                    let k = choose|k: int| 0 <= k < init.len() && init[k] == u[i];
                    assert(s[k] == init[k]);
                    assert(s[k].le(s[s.len() - 1]));
                }
            } else {
                T::le_total(s.last(), s.last());
            }
        }
        assert forall|y: T| t.contains(y) implies s.contains(y) || y == x by {
            let i = choose|i: int| 0 <= i < t.len() && t[i] == y;
            if i < u.len() {
                assert(u.contains(u[i]));
                if y != x {
                    assert(init.contains(y));
                    let k = choose|k: int| 0 <= k < init.len() && init[k] == y;
                    assert(s[k] == y);
                }
            } else {
                assert(s[s.len() - 1] == y);
            }
        }
    }
}

/// Two rows in order of the same elements are the same row, where only equal elements
/// share a rank.
pub proof fn order_decides<T: Ranked>(a: Seq<T>, b: Seq<T>)
    requires
        in_order(a),
        in_order(b),
        a.to_multiset() == b.to_multiset(),
        forall|x: T, y: T| a.contains(x) && a.contains(y) && #[trigger] x.le(y) && y.le(x) ==> x == y,
    ensures
        a == b,
    decreases a.len(),
{
    broadcast use vstd::seq_lib::group_to_multiset_ensures;

    assert(a.len() == a.to_multiset().len() && b.len() == b.to_multiset().len());
    if a.len() == 0 {
        assert(a =~= b);
    } else {
        let x = a.last();
        let y = b.last();
        assert(a[a.len() - 1] == x && b[b.len() - 1] == y);
        assert(a.contains(x) && b.contains(y));
        assert(a.to_multiset().contains(y) && b.to_multiset().contains(x));
        assert(a.contains(y) && b.contains(x));
        let i = choose|i: int| 0 <= i < a.len() && a[i] == y;
        let j = choose|j: int| 0 <= j < b.len() && b[j] == x;
        assert(a[i].le(a[a.len() - 1]));
        assert(b[j].le(b[b.len() - 1]));
        assert(x == y);
        let p = a.drop_last();
        let q = b.drop_last();
        assert(p.push(x) =~= a && q.push(x) =~= b);
        vstd::seq_lib::to_multiset_build(p, x);
        vstd::seq_lib::to_multiset_build(q, x);
        assert(p.to_multiset() =~= a.to_multiset().remove(x));
        assert(q.to_multiset() =~= b.to_multiset().remove(x));
        assert forall|u: T, v: T|
            p.contains(u) && p.contains(v) && #[trigger] u.le(v) && v.le(u) implies u == v by {
            let k = choose|k: int| 0 <= k < p.len() && p[k] == u;
            let l = choose|l: int| 0 <= l < p.len() && p[l] == v;
            assert(a[k] == u && a[l] == v);
        }
        assert(in_order(p)) by {
            assert forall|i: int, j: int| 0 <= i <= j < p.len() implies (#[trigger] p[i]).le(
                #[trigger] p[j],
            ) by {
                assert(a[i].le(a[j]));
            }
        }
        assert(in_order(q)) by {
            assert forall|i: int, j: int| 0 <= i <= j < q.len() implies (#[trigger] q[i]).le(
                #[trigger] q[j],
            ) by {
                assert(b[i].le(b[j]));
            }
        }
        order_decides(p, q);
    }
}

/// The order of a row is not seen in it once it is sorted, where only equal elements
/// share a rank.
pub proof fn sorting_forgets_the_order<T: Ranked>(s: Seq<T>, t: Seq<T>)
    requires
        s.to_multiset() == t.to_multiset(),
        forall|x: T, y: T| s.contains(x) && s.contains(y) && #[trigger] x.le(y) && y.le(x) ==> x == y,
    ensures
        ranked(s) == ranked(t),
{
    broadcast use vstd::seq_lib::group_to_multiset_ensures;

    lemma_ranked(s);
    lemma_ranked(t);
    assert forall|x: T, y: T|
        ranked(s).contains(x) && ranked(s).contains(y) && #[trigger] x.le(y) && y.le(x) implies x
        == y by {
        assert(ranked(s).to_multiset().contains(x) && ranked(s).to_multiset().contains(y));
        assert(s.contains(x) && s.contains(y));
    }
    order_decides(ranked(s), ranked(t));
}

/// Sorting what is shown of each element is showing the sorted row, where what is shown
/// has the same order.
pub proof fn showing_keeps_the_order<T: Ranked, U: Ranked>(s: Seq<T>, show: spec_fn(T) -> U)
    requires
        forall|a: T, b: T| #[trigger] a.le(b) == show(a).le(show(b)),
    ensures
        ranked(s).map_values(show) == ranked(s.map_values(show)),
    decreases s.len(),
{
    if s.len() == 0 {
        assert(ranked(s).map_values(show) =~= ranked(s.map_values(show)));
    } else {
        let init = s.drop_last();
        showing_keeps_the_order(init, show);
        assert(s.map_values(show).drop_last() =~= init.map_values(show));
        assert(s.map_values(show).last() == show(s.last()));
        lemma_inserted_shown(ranked(init), s.last(), show);
    }
}

proof fn lemma_inserted_shown<T: Ranked, U: Ranked>(s: Seq<T>, x: T, show: spec_fn(T) -> U)
    requires
        forall|a: T, b: T| #[trigger] a.le(b) == show(a).le(show(b)),
    ensures
        inserted(s, x).map_values(show) == inserted(s.map_values(show), show(x)),
    decreases s.len(),
{
    let t = s.map_values(show);
    if s.len() == 0 || s.last().le(x) {
        assert(s.push(x).map_values(show) =~= t.push(show(x)));
    } else {
        assert(t.last() == show(s.last()));
        assert(t.drop_last() =~= s.drop_last().map_values(show));
        lemma_inserted_shown(s.drop_last(), x, show);
        let u = inserted(s.drop_last(), x);
        assert(u.push(s.last()).map_values(show) =~= u.map_values(show).push(show(s.last())));
    }
}

/// Whether two elements share a rank.
pub open spec fn tied<T: Ranked>(a: T, b: T) -> bool {
    a.le(b) && b.le(a)
}

/// Elements that share a rank keep their order: those tied with any one element stand in
/// the sorted row as they stood before.
pub proof fn ties_keep_their_order<T: Ranked>(s: Seq<T>, y: T)
    ensures
        ranked(s).filter(|x: T| tied(x, y)) == s.filter(|x: T| tied(x, y)),
    decreases s.len(),
{
    reveal(Seq::filter);
    if s.len() > 0 {
        ties_keep_their_order(s.drop_last(), y);
        lemma_inserted_tie(ranked(s.drop_last()), s.last(), y);
    }
}

proof fn lemma_inserted_tie<T: Ranked>(s: Seq<T>, x: T, y: T)
    ensures
        inserted(s, x).filter(|z: T| tied(z, y)) == (if tied(x, y) {
            s.filter(|z: T| tied(z, y)).push(x)
        } else {
            s.filter(|z: T| tied(z, y))
        }),
    decreases s.len(),
{
    reveal(Seq::filter);
    if s.len() == 0 || s.last().le(x) {
        assert(s.push(x).drop_last() =~= s);
        assert(s.push(x).last() == x);
    } else {
        let init = s.drop_last();
        let rest = inserted(init, x);
        lemma_inserted_tie(init, x, y);
        assert(rest.push(s.last()).drop_last() =~= rest);
        assert(rest.push(s.last()).last() == s.last());
        if tied(s.last(), y) && tied(x, y) {
            T::le_transitive(s.last(), y, x);
        }
    }
}

} // verus!
