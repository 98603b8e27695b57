//! Stable sorting by insertion, for any order that a `Ranking` describes.

use vstd::prelude::*;

verus! {

/// A total preorder on `T`, with the function that decides it.
pub trait Ranking<T> {
    /// Whether `a` may stand before `b`.
    spec fn at_most(a: T, b: T) -> bool;

    /// Of any two items, one may stand before the other.
    proof fn total(a: T, b: T)
        ensures
            Self::at_most(a, b) || Self::at_most(b, a),
    ;

    /// The order has no cycles.
    proof fn transitive(a: T, b: T, c: T)
        requires
            Self::at_most(a, b),
            Self::at_most(b, c),
        ensures
            Self::at_most(a, c),
    ;

    /// Decides whether `a` may stand before `b`.
    fn precedes(a: &T, b: &T) -> (r: bool)
        ensures
            r == Self::at_most(*a, *b),
    ;
}

/// The sequence `s` with `x` put in from the right: `x` passes every item
/// at the end of `s` that may not stand before it, and stops behind the
/// first that may.
pub open spec fn placed<T, R: Ranking<T>>(s: Seq<T>, x: T) -> Seq<T>
    decreases s.len(),
{
    if s.len() == 0 {
        seq![x]
    } else if R::at_most(s.last(), x) {
        s.push(x)
    } else {
        placed::<T, R>(s.drop_last(), x).push(s.last())
    }
}

/// The items of `s` in the order of `R`; items that rank alike keep the
/// order they had in `s`.
pub open spec fn sorted<T, R: Ranking<T>>(s: Seq<T>) -> Seq<T>
    decreases s.len(),
{
    if s.len() == 0 {
        Seq::empty()
    } else {
        placed::<T, R>(sorted::<T, R>(s.drop_last()), s.last())
    }
}

/// Whether every item of `s` may stand before every later one.
pub open spec fn in_order<T, R: Ranking<T>>(s: Seq<T>) -> bool {
    forall|i: int, j: int| 0 <= i < j < s.len() ==> R::at_most(#[trigger] s[i], #[trigger] s[j])
}

/// Putting `x` in from the right is inserting it at the place `p` behind
/// which nothing may stand before it, and in front of which stands an item
/// that may.
pub proof fn lemma_placed_at<T, R: Ranking<T>>(s: Seq<T>, x: T, p: int)
    requires
        0 <= p <= s.len(),
        forall|q: int| p <= q < s.len() ==> !R::at_most(#[trigger] s[q], x),
        p > 0 ==> R::at_most(s[p - 1], x),
    ensures
        placed::<T, R>(s, x) == s.insert(p, x),
    decreases s.len(),
{
    if s.len() == 0 {
        assert(s.insert(p, x) =~= seq![x]);
    } else if p == s.len() {
        assert(s.insert(p, x) =~= s.push(x));
    } else {
        assert(!R::at_most(s[s.len() - 1], x));
        let front = s.drop_last();
        assert forall|q: int| p <= q < front.len() implies !R::at_most(#[trigger] front[q], x) by {
            assert(front[q] == s[q]);
        }
        lemma_placed_at::<T, R>(front, x, p);
        assert(front.insert(p, x).push(s.last()) =~= s.insert(p, x));
    }
}

/// Putting an item into a sequence that is in order leaves it in order.
pub proof fn lemma_placed_in_order<T, R: Ranking<T>>(s: Seq<T>, x: T)
    requires
        in_order::<T, R>(s),
    ensures
        in_order::<T, R>(placed::<T, R>(s, x)),
        placed::<T, R>(s, x).len() == s.len() + 1,
    decreases s.len(),
{
    let out = placed::<T, R>(s, x);
    if s.len() == 0 {
    } else if R::at_most(s.last(), x) {
        assert forall|i: int, j: int| 0 <= i < j < out.len() implies R::at_most(
            #[trigger] out[i],
            #[trigger] out[j],
        ) by {
            if j == s.len() {
                if i < s.len() - 1 {
                    R::transitive(s[i], s.last(), x);
                }
            }
        }
    } else {
        let front = s.drop_last();
        let last = s.last();
        assert(in_order::<T, R>(front)) by {
            assert forall|i: int, j: int| 0 <= i < j < front.len() implies R::at_most(
                #[trigger] front[i],
                #[trigger] front[j],
            ) by {
                assert(front[i] == s[i] && front[j] == s[j]);
            }
        }
        lemma_placed_in_order::<T, R>(front, x);
        let inner = placed::<T, R>(front, x);
        R::total(last, x);
        // Every item of `inner` may stand before `last`: those of `front`
        // because `s` is in order, and `x` because `last` may not stand
        // before it.
        lemma_placed_bounded::<T, R>(front, x, last);
        assert forall|i: int, j: int| 0 <= i < j < out.len() implies R::at_most(
            #[trigger] out[i],
            #[trigger] out[j],
        ) by {
            if j < inner.len() {
                assert(out[i] == inner[i] && out[j] == inner[j]);
            } else {
                assert(out[i] == inner[i]);
            }
        }
    }
}

/// Where every item of `s`, and `x` too, may stand before `bound`, so may
/// every item of `s` with `x` put in.
proof fn lemma_placed_bounded<T, R: Ranking<T>>(s: Seq<T>, x: T, bound: T)
    requires
        forall|i: int| 0 <= i < s.len() ==> R::at_most(#[trigger] s[i], bound),
        R::at_most(x, bound),
    ensures
        forall|i: int|
            0 <= i < placed::<T, R>(s, x).len() ==> R::at_most(
                #[trigger] placed::<T, R>(s, x)[i],
                bound,
            ),
    decreases s.len(),
{
    let out = placed::<T, R>(s, x);
    if s.len() == 0 {
    } else if R::at_most(s.last(), x) {
    } else {
        let front = s.drop_last();
        assert forall|i: int| 0 <= i < front.len() implies R::at_most(
            #[trigger] front[i],
            bound,
        ) by {
            assert(front[i] == s[i]);
        }
        lemma_placed_bounded::<T, R>(front, x, bound);
        let inner = placed::<T, R>(front, x);
        assert forall|i: int| 0 <= i < out.len() implies R::at_most(#[trigger] out[i], bound) by {
            if i < inner.len() {
                assert(out[i] == inner[i]);
            } else {
                assert(out[i] == s[s.len() - 1]);
            }
        }
    }
}

/// A sorted sequence is in order and as long as the one it was made from.
pub proof fn sorted_is_in_order<T, R: Ranking<T>>(s: Seq<T>)
    ensures
        in_order::<T, R>(sorted::<T, R>(s)),
        sorted::<T, R>(s).len() == s.len(),
    decreases s.len(),
{
    if s.len() > 0 {
        sorted_is_in_order::<T, R>(s.drop_last());
        lemma_placed_in_order::<T, R>(sorted::<T, R>(s.drop_last()), s.last());
    }
}

/// Putting `x` into `s` adds `x` to its items and changes nothing else.
pub proof fn lemma_placed_items<T, R: Ranking<T>>(s: Seq<T>, x: T)
    ensures
        placed::<T, R>(s, x).to_multiset() == s.to_multiset().insert(x),
    decreases s.len(),
{
    broadcast use vstd::seq_lib::group_to_multiset_ensures;

    if s.len() == 0 {
        assert(seq![x] =~= s.push(x));
    } else if R::at_most(s.last(), x) {
    } else {
        let front = s.drop_last();
        lemma_placed_items::<T, R>(front, x);
        assert(s =~= front.push(s.last()));
        assert(front.to_multiset().insert(x).insert(s.last()) =~= front.to_multiset().insert(
            s.last(),
        ).insert(x));
    }
}

/// A sorted sequence holds the items it was made from, each as often.
pub proof fn sorted_keeps_items<T, R: Ranking<T>>(s: Seq<T>)
    ensures
        sorted::<T, R>(s).to_multiset() == s.to_multiset(),
    decreases s.len(),
{
    broadcast use vstd::seq_lib::group_to_multiset_ensures;

    if s.len() == 0 {
        assert(sorted::<T, R>(s) =~= s);
    } else {
        let front = s.drop_last();
        sorted_keeps_items::<T, R>(front);
        lemma_placed_items::<T, R>(sorted::<T, R>(front), s.last());
        assert(s =~= front.push(s.last()));
    }
}

/// Every item of `s` with `x` put in is `x` or an item of `s`.
pub proof fn lemma_placed_members<T, R: Ranking<T>>(s: Seq<T>, x: T)
    ensures
        forall|i: int|
            0 <= i < placed::<T, R>(s, x).len() ==> (#[trigger] placed::<T, R>(s, x)[i]) == x
                || s.contains(placed::<T, R>(s, x)[i]),
    decreases s.len(),
{
    let out = placed::<T, R>(s, x);
    if s.len() == 0 {
    } else if R::at_most(s.last(), x) {
        assert forall|i: int| 0 <= i < out.len() implies (#[trigger] out[i]) == x || s.contains(
            out[i],
        ) by {
            if i < s.len() {
                assert(s[i] == out[i]);
            }
        }
    } else {
        let front = s.drop_last();
        lemma_placed_members::<T, R>(front, x);
        let inner = placed::<T, R>(front, x);
        assert forall|i: int| 0 <= i < out.len() implies (#[trigger] out[i]) == x || s.contains(
            out[i],
        ) by {
            if i < inner.len() {
                assert(out[i] == inner[i]);
                if inner[i] != x {
                    let j = choose|j: int| 0 <= j < front.len() && front[j] == inner[i];
                    assert(s[j] == inner[i]);
                }
            } else {
                assert(out[i] == s[s.len() - 1]);
            }
        }
    }
}

/// Every item of a sorted sequence is an item of the one it was made from.
pub proof fn lemma_sorted_members<T, R: Ranking<T>>(s: Seq<T>)
    ensures
        forall|i: int|
            0 <= i < sorted::<T, R>(s).len() ==> s.contains(#[trigger] sorted::<T, R>(s)[i]),
    decreases s.len(),
{
    if s.len() > 0 {
        let front = s.drop_last();
        lemma_sorted_members::<T, R>(front);
        let inner = sorted::<T, R>(front);
        lemma_placed_members::<T, R>(inner, s.last());
        let out = sorted::<T, R>(s);
        assert forall|i: int| 0 <= i < out.len() implies s.contains(#[trigger] out[i]) by {
            if out[i] == s.last() {
                assert(s[s.len() - 1] == out[i]);
            } else {
                let j = choose|j: int| 0 <= j < inner.len() && inner[j] == out[i];
                let k = choose|k: int| 0 <= k < front.len() && front[k] == inner[j];
                assert(s[k] == out[i]);
            }
        }
    }
}

/// Sorts the items into the order of `R`; items that rank alike keep the
/// order they came in.
pub fn sort<T, R: Ranking<T>>(items: &mut Vec<T>)
    ensures
        final(items)@ == sorted::<T, R>(old(items)@),
{
    let mut rest: Vec<T> = Vec::new();
    core::mem::swap(items, &mut rest);
    let ghost input = rest@;
    let ghost mut taken: int = 0;
    proof {
        assert(input.skip(0) =~= input);
        assert(input.take(0) =~= Seq::<T>::empty());
    }
    while rest.len() > 0
        invariant
            0 <= taken <= input.len(),
            rest@ == input.skip(taken),
            items@ == sorted::<T, R>(input.take(taken)),
        decreases rest.len(),
    {
        let x = rest.remove(0);
        let mut p: usize = items.len();
        while p > 0 && !R::precedes(&items[p - 1], &x)
            invariant
                p <= items.len(),
                forall|q: int| p <= q < items.len() ==> !R::at_most(#[trigger] items@[q], x),
            decreases p,
        {
            p = p - 1;
        }
        proof {
            lemma_placed_at::<T, R>(items@, x, p as int);
            assert(input.take(taken + 1).drop_last() =~= input.take(taken));
            assert(input.take(taken + 1).last() == x);
            assert(input.skip(taken).remove(0) =~= input.skip(taken + 1));
            taken = taken + 1;
        }
        items.insert(p, x);
    }
    proof {
        assert(input.take(taken) =~= input);
    }
}

} // verus!
