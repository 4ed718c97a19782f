//! What a swim and a sink do to a sequence: they keep its elements, and
//! under a strict weak order they restore the heap property where it fails
//! at one place only.

use vstd::prelude::*;
use crate::model::{
    above, after_next, after_sink, after_swim, children_present, climbs_along_links, exchange,
    heap_ordered, left_child, ordered_at, parent, preferred_child, right_child, unsurpassed,
    without_root,
};
use crate::priority::{lemma_asymmetric, strict_weak_order, Priority};

verus! {

/// Exchanging two elements keeps the length and the elements.
pub proof fn lemma_exchange_permutes<T>(s: Seq<T>, i: int, j: int)
    requires
        0 <= i < s.len(),
        0 <= j < s.len(),
    ensures
        exchange(s, i, j).len() == s.len(),
        exchange(s, i, j).to_multiset() == s.to_multiset(),
{
    broadcast use {
        vstd::seq_lib::to_multiset_update,
        vstd::seq_lib::to_multiset_contains,
        vstd::multiset::group_multiset_axioms,
    };

    let t = s.update(i, s[j]);
    assert(s.contains(s[i]) && s.contains(s[j]));
    assert(t.to_multiset() == s.to_multiset().insert(s[j]).remove(s[i]));
    assert(exchange(s, i, j).to_multiset() == t.to_multiset().insert(s[i]).remove(s[j]));
    assert(exchange(s, i, j).to_multiset() =~= s.to_multiset());
}

/// A swim keeps the length and the elements.
pub proof fn lemma_swim_permutes<T, P: Priority<T>>(p: P, s: Seq<T>, i: int)
    ensures
        after_swim(p, s, i).len() == s.len(),
        after_swim(p, s, i).to_multiset() == s.to_multiset(),
    decreases i,
{
    if 0 < i < s.len() && p.outranks(s[i], s[parent(i)]) {
        lemma_exchange_permutes(s, i, parent(i));
        lemma_swim_permutes(p, exchange(s, i, parent(i)), parent(i));
    }
}

/// A sink keeps the length and the elements.
pub proof fn lemma_sink_permutes<T, P: Priority<T>>(p: P, s: Seq<T>, i: int)
    ensures
        after_sink(p, s, i).len() == s.len(),
        after_sink(p, s, i).to_multiset() == s.to_multiset(),
    decreases s.len() - i,
{
    let c = preferred_child(p, s, i);
    if 0 <= i && children_present(i, s.len() as int) && !p.outranks(s[i], s[c]) {
        lemma_exchange_permutes(s, i, c);
        lemma_sink_permutes(p, exchange(s, i, c), c);
    }
}

/// Taking the root out removes exactly that element.
pub proof fn lemma_without_root_permutes<T>(s: Seq<T>)
    requires
        s.len() > 0,
    ensures
        without_root(s).len() == s.len() - 1,
        without_root(s).to_multiset() == s.to_multiset().remove(s[0]),
{
    broadcast use {
        vstd::seq_lib::to_multiset_update,
        vstd::seq_lib::to_multiset_build,
        vstd::seq_lib::to_multiset_contains,
        vstd::multiset::group_multiset_axioms,
    };

    let u = s.update(0, s.last());
    let w = without_root(s);
    let m = s.to_multiset();
    assert(s.contains(s[0]) && s.contains(s.last()));
    assert(u.to_multiset() == m.insert(s.last()).remove(s[0]));
    assert(u.len() == s.len());
    assert(u =~= w.push(s.last()));
    assert(u.to_multiset() == w.to_multiset().insert(s.last()));
    assert forall|v: T| w.to_multiset().count(v) == m.remove(s[0]).count(v) by {
        assert(w.to_multiset().insert(s.last()).count(v) == m.insert(s.last()).remove(
            s[0],
        ).count(v));
    }
    assert(w.to_multiset() =~= m.remove(s[0]));
}

/// One extraction from a non-empty sequence removes exactly its root.
pub proof fn lemma_next_permutes<T, P: Priority<T>>(p: P, s: Seq<T>)
    requires
        s.len() > 0,
    ensures
        after_next(p, s).len() == s.len() - 1,
        after_next(p, s).to_multiset() == s.to_multiset().remove(s[0]),
{
    lemma_without_root_permutes(s);
    lemma_sink_permutes(p, without_root(s), 0);
}

/// The heap property with a hole at `h`: it holds at every node but `h`, and
/// the children of `h` do not outrank the node above `h` either, so that `h`
/// is the only place left to repair.
pub open spec fn ordered_but<T, P: Priority<T>>(p: P, s: Seq<T>, h: int) -> bool {
    &&& forall|i: int| 0 <= i < s.len() && i != h ==> #[trigger] ordered_at(p, s, i)
    &&& h > 0 && left_child(h) < s.len() ==> !p.outranks(s[left_child(h)], s[above(h)])
    &&& h > 0 && right_child(h) < s.len() ==> !p.outranks(s[right_child(h)], s[above(h)])
}

/// A sink from the one node at which the heap property may fail restores it
/// everywhere.
pub proof fn lemma_sink_restores_order<T, P: Priority<T>>(p: P, s: Seq<T>, h: int)
    requires
        strict_weak_order(p),
        0 <= h,
        ordered_but(p, s, h),
    ensures
        heap_ordered(p, after_sink(p, s, h)),
    decreases s.len() - h,
{
    let c = preferred_child(p, s, h);
    let l = left_child(h);
    let r = right_child(h);
    if !children_present(h, s.len() as int) {
        assert(ordered_at(p, s, h));
    } else if p.outranks(s[h], s[c]) {
        // The descent stops: `h` outranks its preferred child, and with it
        // the other child.
        lemma_asymmetric(p, s[h], s[c]);
        if r < s.len() {
            if c == l {
                assert(p.outranks(s[h], s[l]) && p.outranks(s[l], s[r]));
                lemma_asymmetric(p, s[h], s[r]);
            } else {
                if p.outranks(s[l], s[h]) {
                    assert(p.outranks(s[l], s[h]) && p.outranks(s[h], s[r]));
                }
            }
        }
        assert(ordered_at(p, s, h));
    } else {
        let t = exchange(s, h, c);
        if r < s.len() && c == l {
            lemma_asymmetric(p, s[l], s[r]);
        }
        assert(ordered_at(p, t, h));
        assert forall|i: int| 0 <= i < t.len() && i != c implies #[trigger] ordered_at(
            p,
            t,
            i,
        ) by {
            if i != h {
                assert(ordered_at(p, s, i));
            }
        }
        assert(ordered_at(p, s, c));
        assert(above(c) == h);
        assert(ordered_but(p, t, c));
        lemma_sink_restores_order(p, t, c);
    }
}

/// An extraction from an ordered heap leaves an ordered heap.
pub proof fn lemma_next_keeps_order<T, P: Priority<T>>(p: P, s: Seq<T>)
    requires
        strict_weak_order(p),
        heap_ordered(p, s),
    ensures
        heap_ordered(p, after_next(p, s)),
{
    if s.len() > 0 {
        let w = without_root(s);
        assert forall|i: int| 0 <= i < w.len() && i != 0 implies #[trigger] ordered_at(
            p,
            w,
            i,
        ) by {
            assert(ordered_at(p, s, i));
        }
        lemma_sink_restores_order(p, w, 0);
    }
}

/// In an ordered heap no element outranks the root.
pub proof fn lemma_root_unsurpassed<T, P: Priority<T>>(p: P, s: Seq<T>)
    requires
        strict_weak_order(p),
        heap_ordered(p, s),
        s.len() > 0,
    ensures
        unsurpassed(p, s, s[0]),
{
    assert forall|i: int| 0 <= i < s.len() implies !p.outranks(#[trigger] s[i], s[0]) by {
        lemma_below_root(p, s, i);
    }
}

/// In an ordered heap the element at `i` does not outrank the root, by
/// induction along the nodes above `i`.
proof fn lemma_below_root<T, P: Priority<T>>(p: P, s: Seq<T>, i: int)
    requires
        strict_weak_order(p),
        heap_ordered(p, s),
        0 <= i < s.len(),
    ensures
        !p.outranks(s[i], s[0]),
    decreases i,
{
    if i > 0 {
        let a = above(i);
        assert(ordered_at(p, s, a));
        assert(left_child(a) == i || right_child(a) == i);
        lemma_below_root(p, s, a);
        assert(!p.outranks(s[i], s[a]) && !p.outranks(s[a], s[0]));
    }
}

/// A swim from `i` leaves an unsurpassed element at the root, where the
/// root was unsurpassed among the elements that do not move by themselves.
pub proof fn lemma_swim_keeps_root_unsurpassed<T, P: Priority<T>>(p: P, s: Seq<T>, i: int)
    requires
        strict_weak_order(p),
        0 <= i < s.len(),
        forall|j: int| 0 <= j < s.len() && j != i ==> !p.outranks(#[trigger] s[j], s[0]),
    ensures
        unsurpassed(p, after_swim(p, s, i), after_swim(p, s, i)[0]),
    decreases i,
{
    let up = parent(i);
    if i == 0 {
    } else if p.outranks(s[i], s[up]) {
        let t = exchange(s, i, up);
        assert forall|j: int| 0 <= j < t.len() && j != up implies !p.outranks(
            #[trigger] t[j],
            t[0],
        ) by {
            if up == 0 {
                if j == i {
                    lemma_asymmetric(p, s[i], s[up]);
                } else {
                    assert(t[j] == s[j]);
                    if p.outranks(s[j], s[i]) {
                        assert(p.outranks(s[j], s[i]) && p.outranks(s[i], s[0]));
                    }
                }
            } else {
                if j == i {
                    assert(t[j] == s[up]);
                } else {
                    assert(t[j] == s[j]);
                }
            }
        }
        lemma_swim_keeps_root_unsurpassed(p, t, up);
    } else {
        if up != 0 {
            assert(!p.outranks(s[i], s[up]) && !p.outranks(s[up], s[0]));
        }
        assert forall|j: int| 0 <= j < s.len() implies !p.outranks(#[trigger] s[j], s[0]) by {}
    }
}

/// The heap property with a loose element at `i`: it holds between every
/// other element and the node above it, and the children of `i` do not
/// outrank the node above `i` either.
pub open spec fn ordered_above<T, P: Priority<T>>(p: P, s: Seq<T>, i: int) -> bool {
    &&& forall|c: int| 0 < c < s.len() && c != i ==> !p.outranks(#[trigger] s[c], s[above(c)])
    &&& forall|c: int|
        0 < i && 0 < c < s.len() && above(c) == i ==> !p.outranks(#[trigger] s[c], s[above(i)])
}

/// A swim that climbs only along links of the tree restores the heap
/// property.
pub proof fn lemma_swim_restores_order<T, P: Priority<T>>(p: P, s: Seq<T>, i: int)
    requires
        strict_weak_order(p),
        0 <= i < s.len(),
        ordered_above(p, s, i),
        climbs_along_links(p, s, i),
    ensures
        heap_ordered(p, after_swim(p, s, i)),
    decreases i,
{
    let up = parent(i);
    if i > 0 && p.outranks(s[i], s[up]) {
        let t = exchange(s, i, up);
        assert(up == above(i));
        lemma_asymmetric(p, s[i], s[up]);
        assert forall|c: int| 0 < c < t.len() && c != up implies !p.outranks(
            #[trigger] t[c],
            t[above(c)],
        ) by {
            if c == i {
            } else if above(c) == up {
                assert(!p.outranks(s[c], s[up]));
                if p.outranks(s[c], s[i]) {
                    assert(p.outranks(s[c], s[i]) && p.outranks(s[i], s[up]));
                }
            } else if above(c) == i {
                assert(!p.outranks(s[c], s[above(i)]));
            } else {
                assert(!p.outranks(s[c], s[above(c)]));
            }
        }
        assert forall|c: int| 0 < up && 0 < c < t.len() && above(c) == up implies !p.outranks(
            #[trigger] t[c],
            t[above(up)],
        ) by {
            assert(!p.outranks(s[up], s[above(up)]));
            if c != i {
                assert(!p.outranks(s[c], s[up]) && !p.outranks(s[up], s[above(up)]));
            }
        }
        lemma_swim_restores_order(p, t, up);
    } else {
        assert forall|n: int| 0 <= n < s.len() implies #[trigger] ordered_at(p, s, n) by {
            if left_child(n) < s.len() {
                assert(above(left_child(n)) == n);
                assert(!p.outranks(s[left_child(n)], s[above(left_child(n))]));
            }
            if right_child(n) < s.len() {
                assert(above(right_child(n)) == n);
                assert(!p.outranks(s[right_child(n)], s[above(right_child(n))]));
            }
        }
    }
}

} // verus!
