//! Rows without repetition.
use vstd::prelude::*;
use crate::platform::Platform;
use crate::text;
use crate::text::text_eq;

verus! {

/// The row with every element only where it first stands.
pub open spec fn deduped<T>(s: Seq<T>) -> Seq<T>
    decreases s.len(),
{
    if s.len() == 0 {
        s
    } else if deduped(s.drop_last()).contains(s.last()) {
        deduped(s.drop_last())
    } else {
        deduped(s.drop_last()).push(s.last())
    }
}

/// Nothing occurs twice after deduplication, what occurs is the same, and doing it
/// again changes nothing.
pub proof fn dedup_laws<T>(s: Seq<T>)
    ensures
        deduped(s).no_duplicates(),
        forall|x: T| deduped(s).contains(x) <==> s.contains(x),
        deduped(deduped(s)) == deduped(s),
    decreases s.len(),
{
    lemma_dedup(s);
    lemma_dedup_fixed(deduped(s));
}

proof fn lemma_dedup<T>(s: Seq<T>)
    ensures
        deduped(s).no_duplicates(),
        forall|x: T| deduped(s).contains(x) <==> s.contains(x),
    decreases s.len(),
{
    if s.len() > 0 {
        let init = s.drop_last();
        let d = deduped(init);
        lemma_dedup(init);
        assert forall|x: T| deduped(s).contains(x) <==> s.contains(x) by {
            if s.contains(x) {
                let i = choose|i: int| 0 <= i < s.len() && s[i] == x;
                if i < init.len() {
                    assert(init[i] == x);
                    assert(init.contains(x));
                    assert(d.contains(x));
                    let k = choose|k: int| 0 <= k < d.len() && d[k] == x;
                    assert(d.push(s.last())[k] == x);
                } else if !d.contains(x) {
                    assert(d.push(s.last())[d.len() as int] == x);
                }
            }
            if deduped(s).contains(x) {
                let t = deduped(s);
                let k = choose|k: int| 0 <= k < t.len() && t[k] == x;
                if k < d.len() {
                    assert(d[k] == x);
                    assert(init.contains(x));
                    let i = choose|i: int| 0 <= i < init.len() && init[i] == x;
                    assert(s[i] == x);
                } else {
                    assert(s[s.len() - 1] == x);
                }
            }
        }
    }
}

proof fn lemma_dedup_fixed<T>(s: Seq<T>)
    requires
        s.no_duplicates(),
    ensures
        deduped(s) == s,
    decreases s.len(),
{
    if s.len() > 0 {
        let init = s.drop_last();
        assert forall|i: int, j: int| 0 <= i < init.len() && 0 <= j < init.len() && i
            != j implies init[i] != init[j] by {
            assert(s[i] != s[j]);
        }
        lemma_dedup_fixed(init);
        if init.contains(s.last()) {
            let i = choose|i: int| 0 <= i < init.len() && init[i] == s.last();
            assert(s[i] == s[s.len() - 1]);
        }
        assert(init.push(s.last()) =~= s);
    }
}

/// A row of at most one element has no repetition.
pub proof fn dedup_short<T>(s: Seq<T>)
    requires
        s.len() <= 1,
    ensures
        deduped(s) == s,
{
    lemma_dedup_fixed(s);
}

/// Each element keeps its place among the others: what stands first stays first.
pub proof fn dedup_keeps_first_occurrences<T>(s: Seq<T>, t: Seq<T>)
    ensures
        deduped(s).is_prefix_of(deduped(s + t)),
    decreases t.len(),
{
    if t.len() == 0 {
        assert(s + t =~= s);
    } else {
        dedup_keeps_first_occurrences(s, t.drop_last());
        assert((s + t).drop_last() =~= s + t.drop_last());
        assert((s + t).last() == t.last());
        let d = deduped(s + t.drop_last());
        let e = deduped(s);
        assert(d.subrange(0, e.len() as int) == e);
        if !d.contains(t.last()) {
            assert(d.push(t.last()).subrange(0, e.len() as int) =~= e);
        }
    }
}

pub fn dedup_platforms(v: &Vec<Platform>) -> (r: Vec<Platform>)
    ensures
        r@ == deduped(v@),
{
    let mut r: Vec<Platform> = Vec::new();
    let mut i: usize = 0;
    assert(v@.take(0) =~= Seq::<Platform>::empty());
    while i < v.len()
        invariant
            i <= v.len(),
            r@ == deduped(v@.take(i as int)),
        decreases v.len() - i,
    {
        let p = v[i];
        proof {
            assert(v@.take(i as int + 1).drop_last() =~= v@.take(i as int));
            assert(v@.take(i as int + 1).last() == p);
        }
        let mut found = false;
        let mut j: usize = 0;
        while j < r.len() && !found
            invariant
                j <= r.len(),
                found ==> r@.contains(p),
                !found ==> forall|k: int| 0 <= k < j ==> r@[k] != p,
            decreases r.len() - j + (if found {
                0int
            } else {
                1int
            }),
        {
            if r[j] == p {
                assert(r@.contains(p));
                found = true;
            } else {
                j = j + 1;
            }
        }
        if !found {
            assert(!r@.contains(p));
            r.push(p);
        }
        i = i + 1;
    }
    assert(v@.take(v@.len() as int) =~= v@);
    r
}

/// Whether a text is among others.
pub fn has_string(v: &Vec<String>, s: &str) -> (r: bool)
    ensures
        r == text::texts(v@).contains(s@),
{
    let mut i: usize = 0;
    while i < v.len()
        invariant
            i <= v.len(),
            forall|k: int| 0 <= k < i ==> (#[trigger] text::texts(v@)[k]) != s@,
        decreases v.len() - i,
    {
        assert(text::texts(v@)[i as int] == v@[i as int]@);
        if text_eq(v[i].as_str(), s) {
            return true;
        }
        i = i + 1;
    }
    false
}

pub fn dedup_strings(v: &Vec<String>) -> (r: Vec<String>)
    ensures
        text::texts(r@) == deduped(text::texts(v@)),
{
    let ghost all = text::texts(v@);
    let mut r: Vec<String> = Vec::new();
    let mut i: usize = 0;
    assert(all.take(0) =~= Seq::<Seq<char>>::empty());
    assert(text::texts(r@) =~= deduped(all.take(0)));
    while i < v.len()
        invariant
            i <= v.len(),
            all == text::texts(v@),
            text::texts(r@) == deduped(all.take(i as int)),
        decreases v.len() - i,
    {
        proof {
            assert(all.take(i as int + 1).drop_last() =~= all.take(i as int));
            assert(all.take(i as int + 1).last() == v@[i as int]@);
        }
        if !has_string(&r, v[i].as_str()) {
            let s = v[i].clone();
            let ghost before = r@;
            r.push(s);
            assert(text::texts(r@) =~= text::texts(before).push(s@));
        }
        i = i + 1;
    }
    assert(all.take(all.len() as int) =~= all);
    r
}

/// The sum of a row of numbers.
pub open spec fn sum(s: Seq<nat>) -> nat
    decreases s.len(),
{
    if s.len() == 0 {
        0
    } else {
        sum(s.drop_last()) + s.last()
    }
}

/// An element that stands in front of all its equals keeps its order towards every
/// other such element.
pub proof fn dedup_keeps_the_order<T>(s: Seq<T>, i: int, j: int)
    requires
        0 <= i < j < s.len(),
        s[i] != s[j],
        forall|k: int| 0 <= k < i ==> #[trigger] s[k] != s[i],
        forall|k: int| 0 <= k < j ==> #[trigger] s[k] != s[j],
    ensures
        exists|a: int, b: int|
            0 <= a < b < deduped(s).len() && #[trigger] deduped(s)[a] == s[i]
                && #[trigger] deduped(s)[b] == s[j],
{
    let head = s.take(j);
    dedup_laws(head);
    assert(head[i] == s[i]);
    assert(head.contains(s[i]));
    let d = deduped(head);
    let a = choose|a: int| 0 <= a < d.len() && d[a] == s[i];
    assert(!head.contains(s[j])) by {
        if head.contains(s[j]) {
            let k = choose|k: int| 0 <= k < head.len() && head[k] == s[j];
            assert(s[k] == s[j]);
        }
    }
    assert(!d.contains(s[j]));
    let upto = s.take(j + 1);
    assert(upto.drop_last() =~= head);
    assert(upto.last() == s[j]);
    let e = deduped(upto);
    assert(e == d.push(s[j]));
    dedup_keeps_first_occurrences(upto, s.skip(j + 1));
    assert(upto + s.skip(j + 1) =~= s);
    let f = deduped(s);
    assert(f.subrange(0, e.len() as int) == e);
    assert(f[a] == e[a] && f[d.len() as int] == e[d.len() as int]);
    assert(f[a] == s[i] && f[d.len() as int] == s[j]);
}

} // verus!
