//! The heap as a mathematical sequence: index arithmetic, the two fix-up
//! passes, the operations built on them and the order they are meant to
//! keep.
//!
//! The elements lie in breadth-first order. The links downwards are
//! `left_child` and `right_child`; the link that a swim climbs is `parent`,
//! which halves the index.

use vstd::prelude::*;
use crate::lemmas::lemma_next_permutes;
use crate::priority::Priority;

verus! {

/// The index a swim climbs to from `i`: half of `i`.
///
/// For odd `i` this is the node whose left child is `i`. For even `i > 0` it
/// is the right-hand neighbour of the node whose right child is `i`, see
/// [`above`].
pub open spec fn parent(i: int) -> int {
    i / 2
}

/// The index of the left child of node `i`.
pub open spec fn left_child(i: int) -> int {
    2 * i + 1
}

/// The index of the right child of node `i`.
pub open spec fn right_child(i: int) -> int {
    left_child(i) + 1
}

/// Whether node `i` has at least one child among `count` elements.
pub open spec fn children_present(i: int, count: int) -> bool {
    left_child(i) < count
}

/// The node that has `c` as its left or right child, for `c > 0`.
pub open spec fn above(c: int) -> int {
    (c - 1) / 2
}

/// `s` with the elements at `i` and `j` exchanged.
pub open spec fn exchange<T>(s: Seq<T>, i: int, j: int) -> Seq<T> {
    s.update(i, s[j]).update(j, s[i])
}

/// The child of `i` that a sink compares against: the left child where it is
/// the only one, else whichever of the two the relation ranks higher, the
/// right one where neither outranks the other.
pub open spec fn preferred_child<T, P: Priority<T>>(p: P, s: Seq<T>, i: int) -> int {
    if right_child(i) >= s.len() {
        left_child(i)
    } else if p.outranks(s[left_child(i)], s[right_child(i)]) {
        left_child(i)
    } else {
        right_child(i)
    }
}

/// The sequence after a swim from index `i`: while the element is not at the
/// root and outranks the element at its `parent`, the two are exchanged and
/// the climb goes on from there.
pub open spec fn after_swim<T, P: Priority<T>>(p: P, s: Seq<T>, i: int) -> Seq<T>
    decreases i,
{
    if 0 < i < s.len() && p.outranks(s[i], s[parent(i)]) {
        after_swim(p, exchange(s, i, parent(i)), parent(i))
    } else {
        s
    }
}

/// The sequence after a sink from index `i`: while the node has a child and
/// does not outrank its preferred child, the two are exchanged and the descent
/// goes on from the child's index.
pub open spec fn after_sink<T, P: Priority<T>>(p: P, s: Seq<T>, i: int) -> Seq<T>
    decreases s.len() - i,
{
    let c = preferred_child(p, s, i);
    if 0 <= i && children_present(i, s.len() as int) && !p.outranks(s[i], s[c]) {
        after_sink(p, exchange(s, i, c), c)
    } else {
        s
    }
}

/// The sequence after inserting `value`: appended at the tail, then swum.
pub open spec fn after_add<T, P: Priority<T>>(p: P, s: Seq<T>, value: T) -> Seq<T> {
    after_swim(p, s.push(value), s.len() as int)
}

/// A non-empty `s` with its root taken out and its last element in the
/// root's place.
pub open spec fn without_root<T>(s: Seq<T>) -> Seq<T> {
    s.update(0, s.last()).drop_last()
}

/// The sequence after one extraction: unchanged where `s` is empty, else the
/// last element moved into the root's place and sunk.
pub open spec fn after_next<T, P: Priority<T>>(p: P, s: Seq<T>) -> Seq<T> {
    if s.len() == 0 {
        s
    } else {
        after_sink(p, without_root(s), 0)
    }
}

/// The elements in the order in which repeated extraction hands them out,
/// until the heap is empty.
pub open spec fn extraction<T, P: Priority<T>>(p: P, s: Seq<T>) -> Seq<T>
    decreases s.len(),
    via extraction_shrinks::<T, P>
{
    if s.len() == 0 {
        Seq::empty()
    } else {
        seq![s[0]] + extraction(p, after_next(p, s))
    }
}

#[via_fn]
proof fn extraction_shrinks<T, P: Priority<T>>(p: P, s: Seq<T>) {
    if s.len() != 0 {
        lemma_next_permutes(p, s);
    }
}

/// The heap that results from inserting `values` one after the other into an
/// empty heap.
pub open spec fn filled<T, P: Priority<T>>(p: P, values: Seq<T>) -> Seq<T>
    decreases values.len(),
{
    if values.len() == 0 {
        Seq::empty()
    } else {
        after_add(p, filled(p, values.drop_last()), values.last())
    }
}

/// Node `i` is not outranked by either of its present children.
pub open spec fn ordered_at<T, P: Priority<T>>(p: P, s: Seq<T>, i: int) -> bool {
    &&& left_child(i) < s.len() ==> !p.outranks(s[left_child(i)], s[i])
    &&& right_child(i) < s.len() ==> !p.outranks(s[right_child(i)], s[i])
}

/// The heap property: no node is outranked by one of its children. Elements
/// of equal rank may stand in either order.
pub open spec fn heap_ordered<T, P: Priority<T>>(p: P, s: Seq<T>) -> bool {
    forall|i: int| 0 <= i < s.len() ==> #[trigger] ordered_at(p, s, i)
}

/// No element of `s` outranks `top`.
pub open spec fn unsurpassed<T, P: Priority<T>>(p: P, s: Seq<T>, top: T) -> bool {
    forall|i: int| 0 <= i < s.len() ==> !p.outranks(#[trigger] s[i], top)
}

/// `s` runs from highest to lowest priority: no element outranks one that
/// comes before it.
pub open spec fn in_priority_order<T, P: Priority<T>>(p: P, s: Seq<T>) -> bool {
    forall|i: int, j: int| 0 <= i < j < s.len() ==> !p.outranks(#[trigger] s[j], #[trigger] s[i])
}

/// A swim from `i` climbs only along links of the tree and comes to rest
/// where the order holds: every exchange starts from an odd index, where
/// `parent` is the node above, and where the climb stops short of the root
/// the element does not outrank the node above it.
pub open spec fn climbs_along_links<T, P: Priority<T>>(p: P, s: Seq<T>, i: int) -> bool
    decreases i,
{
    if 0 < i < s.len() {
        if p.outranks(s[i], s[parent(i)]) {
            i % 2 == 1 && climbs_along_links(p, exchange(s, i, parent(i)), parent(i))
        } else {
            !p.outranks(s[i], s[above(i)])
        }
    } else {
        true
    }
}

} // verus!
