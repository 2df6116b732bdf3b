//! What holds of lists of any kind.
use vstd::prelude::*;

verus! {

/// What a partial function picks from a list is what it gives for one of the items.
pub proof fn law_picked<A, B>(v: Seq<A>, f: spec_fn(A) -> Option<B>, y: B)
    ensures
        v.filter_map(f).contains(y) == exists|i: int|
            0 <= i < v.len() && f(#[trigger] v[i]) == Some(y),
    decreases v.len(),
{
    reveal(Seq::filter_map);
    let w = v.filter_map(f);
    if v.len() > 0 {
        let rest = v.drop_last();
        let d = rest.filter_map(f);
        law_picked(rest, f, y);
        if d.contains(y) {
            let k = choose|k: int| 0 <= k < d.len() && d[k] == y;
            assert(w[k] == y);
            let i = choose|i: int| 0 <= i < rest.len() && f(#[trigger] rest[i]) == Some(y);
            assert(f(v[i]) == Some(y));
        }
        if f(v.last()) == Some(y) {
            assert(f(v[v.len() - 1]) == Some(y));
            assert(w[d.len() as int] == y);
        }
        if w.contains(y) && !d.contains(y) {
            let k = choose|k: int| 0 <= k < w.len() && w[k] == y;
            if k < d.len() {
                assert(d[k] == y);
            }
        }
        if exists|i: int| 0 <= i < v.len() && f(#[trigger] v[i]) == Some(y) {
            let i = choose|i: int| 0 <= i < v.len() && f(#[trigger] v[i]) == Some(y);
            if i < rest.len() {
                assert(f(rest[i]) == Some(y));
            }
        }
    }
}

/// A partial function picks nothing from a list exactly where it gives nothing for any item.
pub proof fn law_none_picked<A, B>(v: Seq<A>, f: spec_fn(A) -> Option<B>)
    ensures
        (v.filter_map(f).len() == 0) == (forall|i: int|
            0 <= i < v.len() ==> f(#[trigger] v[i]) is None),
        v.filter_map(f).len() <= v.len(),
    decreases v.len(),
{
    reveal(Seq::filter_map);
    if v.len() > 0 {
        let rest = v.drop_last();
        law_none_picked(rest, f);
        assert(f(v[v.len() - 1]) == f(v.last()));
        if forall|i: int| 0 <= i < v.len() ==> f(#[trigger] v[i]) is None {
            assert forall|i: int| 0 <= i < rest.len() implies f(#[trigger] rest[i]) is None by {
                assert(rest[i] == v[i]);
            }
        }
        if forall|i: int| 0 <= i < rest.len() ==> f(#[trigger] rest[i]) is None {
            assert forall|i: int| 0 <= i < v.len() - 1 implies f(#[trigger] v[i]) is None by {
                assert(rest[i] == v[i]);
            }
        }
    }
}

/// Picking from two lists one after the other is picking from both together.
pub proof fn law_picked_from_both<A, B>(a: Seq<A>, b: Seq<A>, f: spec_fn(A) -> Option<B>)
    ensures
        (a + b).filter_map(f) == a.filter_map(f) + b.filter_map(f),
    decreases b.len(),
{
    reveal(Seq::filter_map);
    if b.len() == 0 {
        assert(a + b =~= a);
        assert(b.filter_map(f) =~= Seq::<B>::empty());
        assert(a.filter_map(f) + b.filter_map(f) =~= a.filter_map(f));
    } else {
        assert((a + b).drop_last() =~= a + b.drop_last());
        law_picked_from_both(a, b.drop_last(), f);
        assert((a + b).filter_map(f) =~= a.filter_map(f) + b.filter_map(f));
    }
}

/// What is kept of a list is what is in it and is wanted.
pub proof fn law_kept<A>(v: Seq<A>, p: spec_fn(A) -> bool, x: A)
    ensures
        v.filter(p).contains(x) == (v.contains(x) && p(x)),
        v.filter(p).len() <= v.len(),
    decreases v.len(),
{
    reveal(Seq::filter);
    let w = v.filter(p);
    if v.len() > 0 {
        let rest = v.drop_last();
        let d = rest.filter(p);
        law_kept(rest, p, x);
        if d.contains(x) {
            let k = choose|k: int| 0 <= k < d.len() && d[k] == x;
            assert(w[k] == x);
            let i = choose|i: int| 0 <= i < rest.len() && rest[i] == x;
            assert(v[i] == x);
        }
        if x == v.last() && p(x) {
            assert(v[v.len() - 1] == x);
            assert(w[d.len() as int] == x);
        }
        if w.contains(x) && !d.contains(x) {
            let k = choose|k: int| 0 <= k < w.len() && w[k] == x;
            if k < d.len() {
                assert(d[k] == x);
            }
            assert(v[v.len() - 1] == x);
        }
        if v.contains(x) {
            let i = choose|i: int| 0 <= i < v.len() && v[i] == x;
            if i < rest.len() {
                assert(rest[i] == x);
            }
        }
    }
}

/// What is kept of two lists one after the other is what is kept of both.
pub proof fn law_kept_of_both<A>(a: Seq<A>, b: Seq<A>, p: spec_fn(A) -> bool)
    ensures
        (a + b).filter(p) == a.filter(p) + b.filter(p),
    decreases b.len(),
{
    reveal(Seq::filter);
    if b.len() == 0 {
        assert(a + b =~= a);
        assert(b.filter(p) =~= Seq::<A>::empty());
        assert(a.filter(p) + b.filter(p) =~= a.filter(p));
    } else {
        assert((a + b).drop_last() =~= a + b.drop_last());
        law_kept_of_both(a, b.drop_last(), p);
        assert((a + b).filter(p) =~= a.filter(p) + b.filter(p));
    }
}

/// Where everything is wanted, everything is kept; where nothing is, nothing.
pub proof fn law_all_or_none_kept<A>(v: Seq<A>, p: spec_fn(A) -> bool)
    ensures
        (forall|i: int| 0 <= i < v.len() ==> p(#[trigger] v[i])) ==> v.filter(p) == v,
        (forall|i: int| 0 <= i < v.len() ==> !p(#[trigger] v[i])) ==> v.filter(p).len() == 0,
    decreases v.len(),
{
    reveal(Seq::filter);
    if v.len() > 0 {
        let rest = v.drop_last();
        law_all_or_none_kept(rest, p);
        assert(p(v[v.len() - 1]) == p(v.last()));
        assert forall|i: int| 0 <= i < rest.len() implies #[trigger] rest[i] == v[i] by {}
        if forall|i: int| 0 <= i < v.len() ==> p(#[trigger] v[i]) {
            assert(rest.push(v.last()) =~= v);
        }
    } else {
        assert(v.filter(p) =~= v);
    }
}

} // verus!
