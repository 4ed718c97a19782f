//! The executable heap.

use vstd::prelude::*;
use crate::laws::{
    lemma_extraction_in_priority_order, lemma_extraction_permutes, lemma_insert_keeps_order,
    lemma_insert_keeps_root_unsurpassed,
};
use crate::lemmas::{
    lemma_next_keeps_order, lemma_next_permutes, lemma_root_unsurpassed, lemma_swim_permutes,
};
use crate::model::{
    after_add, after_next, after_sink, after_swim, children_present, climbs_along_links,
    extraction, heap_ordered, in_priority_order, left_child, ordered_at, parent,
    preferred_child, right_child, unsurpassed,
};
use crate::priority::{strict_weak_order, Ascending, Descending, Priority};

verus! {

/// A binary heap over a `Vec`, ordered by the priority relation `P`.
///
/// Its view is the sequence of its elements in breadth-first order: index 0
/// is the root, and the children of index `i` are at `2 * i + 1` and
/// `2 * i + 2`.
pub struct Heap<T, P: Priority<T>> {
    count: usize,
    items: Vec<T>,
    priority: P,
}

impl<T, P: Priority<T>> View for Heap<T, P> {
    type V = Seq<T>;

    closed spec fn view(&self) -> Seq<T> {
        self.items@
    }
}

impl<T, P: Priority<T>> Heap<T, P> {
    /// The heap's own consistency: the counter agrees with the storage and
    /// the priority relation can be relied on. Every constructor establishes
    /// it and every operation keeps it.
    pub closed spec fn wf(&self) -> bool {
        &&& self.count == self.items@.len()
        &&& self.priority.valid()
    }

    /// The priority relation that the heap was made with.
    pub closed spec fn priority(&self) -> P {
        self.priority
    }

    /// Whether the heap property holds: no element is outranked by one of its
    /// children.
    pub open spec fn ordered(&self) -> bool {
        heap_ordered(self.priority(), self@)
    }

    /// An empty heap bound to `priority`.
    pub fn new(priority: P) -> (heap: Self)
        requires
            priority.valid(),
        ensures
            heap.wf(),
            heap@ == Seq::<T>::empty(),
            heap.priority() == priority,
    {
        Self { count: 0, items: Vec::new(), priority }
    }

    /// The number of elements.
    pub fn len(&self) -> (n: usize)
        requires
            self.wf(),
        ensures
            n == self@.len(),
    {
        self.count
    }

    /// Whether the heap holds no element.
    pub fn is_empty(&self) -> (empty: bool)
        requires
            self.wf(),
        ensures
            empty == (self@.len() == 0),
    {
        self.len() == 0
    }

    /// Inserts `value`: it is appended at the tail and then swims up.
    ///
    /// The swim climbs by halving the index. From an odd index that leads to
    /// the node above it, from an even one to that node's right-hand
    /// neighbour, so an insertion does not re-establish the heap property on
    /// every input; [`Heap::is_ordered`] tells.
    pub fn add(&mut self, value: T)
        requires
            old(self).wf(),
        ensures
            final(self).wf(),
            final(self).priority() == old(self).priority(),
            final(self)@ == after_add(old(self).priority(), old(self)@, value),
            final(self)@.len() == old(self)@.len() + 1,
            final(self)@.to_multiset() == old(self)@.to_multiset().insert(value),
            strict_weak_order(old(self).priority()) && old(self).ordered() && climbs_along_links(
                old(self).priority(),
                old(self)@.push(value),
                old(self)@.len() as int,
            ) ==> final(self).ordered(),
            strict_weak_order(old(self).priority()) && (old(self)@.len() > 0 ==> unsurpassed(
                old(self).priority(),
                old(self)@,
                old(self)@[0],
            )) ==> unsurpassed(final(self).priority(), final(self)@, final(self)@[0]),
    {
        proof {
            let p = self.priority;
            let s = self.items@;
            lemma_swim_permutes(p, s.push(value), s.len() as int);
            vstd::seq_lib::to_multiset_build(s, value);
            if strict_weak_order(p) {
                if heap_ordered(p, s) && climbs_along_links(p, s.push(value), s.len() as int) {
                    lemma_insert_keeps_order(p, s, value);
                }
                if s.len() > 0 ==> unsurpassed(p, s, s[0]) {
                    lemma_insert_keeps_root_unsurpassed(p, s, value);
                }
            }
        }
        self.items.push(value);
        assert(self.items.len() == self.items@.len());
        self.count += 1;
        self.swim(self.count - 1);
    }

    /// Extracts the root, the element that an ordered heap ranks highest, or
    /// returns `None` and changes nothing where the heap is empty.
    ///
    /// The last element takes the root's place and sinks.
    pub fn next(&mut self) -> (top: Option<T>)
        requires
            old(self).wf(),
        ensures
            final(self).wf(),
            final(self).priority() == old(self).priority(),
            top == (if old(self)@.len() == 0 {
                None
            } else {
                Some(old(self)@[0])
            }),
            final(self)@ == after_next(old(self).priority(), old(self)@),
            old(self)@.len() == 0 ==> final(self)@ == old(self)@,
            old(self)@.len() > 0 ==> final(self)@.len() == old(self)@.len() - 1,
            old(self)@.len() > 0 ==> final(self)@.to_multiset() == old(self)@.to_multiset().remove(
                old(self)@[0],
            ),
            strict_weak_order(old(self).priority()) && old(self).ordered()
                ==> final(self).ordered(),
            strict_weak_order(old(self).priority()) && old(self).ordered() && old(self)@.len() > 0
                ==> unsurpassed(old(self).priority(), old(self)@, old(self)@[0]),
    {
        proof {
            if self.items@.len() > 0 {
                lemma_next_permutes(self.priority, self.items@);
            }
            if strict_weak_order(self.priority) && heap_ordered(self.priority, self.items@) {
                lemma_next_keeps_order(self.priority, self.items@);
                if self.items@.len() > 0 {
                    lemma_root_unsurpassed(self.priority, self.items@);
                }
            }
        }
        if self.count == 0 {
            return None;
        }
        let top = self.items.swap_remove(0);
        self.count -= 1;
        self.sink(0);
        Some(top)
    }

    /// Extracts until the heap is empty and returns the elements in the
    /// order in which they came out.
    pub fn drain(&mut self) -> (out: Vec<T>)
        requires
            old(self).wf(),
        ensures
            final(self).wf(),
            final(self).priority() == old(self).priority(),
            final(self)@ == Seq::<T>::empty(),
            out@ == extraction(old(self).priority(), old(self)@),
            out@.len() == old(self)@.len(),
            out@.to_multiset() == old(self)@.to_multiset(),
            strict_weak_order(old(self).priority()) && old(self).ordered() ==> in_priority_order(
                old(self).priority(),
                out@,
            ),
    {
        proof {
            lemma_extraction_permutes(self.priority, self.items@);
            if strict_weak_order(self.priority) && heap_ordered(self.priority, self.items@) {
                lemma_extraction_in_priority_order(self.priority, self.items@);
            }
        }
        let mut out: Vec<T> = Vec::new();
        loop
            invariant
                self.wf(),
                self.priority() == old(self).priority(),
                out@ + extraction(self.priority(), self@) == extraction(
                    old(self).priority(),
                    old(self)@,
                ),
            ensures
                self.wf(),
                self.priority() == old(self).priority(),
                self@ == Seq::<T>::empty(),
                out@ == extraction(old(self).priority(), old(self)@),
            decreases self@.len(),
        {
            match self.next() {
                Some(top) => {
                    out.push(top);
                    assert(out@ + extraction(self.priority(), self@) =~= (out@.drop_last() + (
                    seq![top] + extraction(self.priority(), self@))));
                },
                None => {
                    assert(out@ + extraction(self.priority(), self@) =~= out@);
                    assert(self@ =~= Seq::<T>::empty());
                    break ;
                },
            }
        }
        out
    }

    /// Checks the heap property node by node.
    pub fn is_ordered(&self) -> (ok: bool)
        requires
            self.wf(),
        ensures
            ok == self.ordered(),
    {
        let mut idx: usize = 0;
        while self.children_present(idx)
            invariant
                self.wf(),
                forall|i: int| 0 <= i < idx ==> #[trigger] ordered_at(self.priority(), self@, i),
            decreases self@.len() - idx,
        {
            let left = self.left_child_idx(idx);
            if self.priority.higher_priority(&self.items[left], &self.items[idx]) {
                assert(!ordered_at(self.priority(), self@, idx as int));
                return false;
            }
            let right = self.right_child_idx(idx);
            if right < self.count && self.priority.higher_priority(
                &self.items[right],
                &self.items[idx],
            ) {
                assert(!ordered_at(self.priority(), self@, idx as int));
                return false;
            }
            idx += 1;
        }
        assert forall|i: int| 0 <= i < self@.len() implies #[trigger] ordered_at(
            self.priority(),
            self@,
            i,
        ) by {}
        true
    }

    /// Restores the order upwards from `idx`: while the element there is not
    /// at the root and outranks the element at its parent index, the two are
    /// exchanged.
    fn swim(&mut self, idx: usize)
        requires
            old(self).wf(),
            idx < old(self)@.len(),
        ensures
            final(self).wf(),
            final(self).priority() == old(self).priority(),
            final(self)@ == after_swim(old(self).priority(), old(self)@, idx as int),
    {
        let mut curr_idx = idx;
        let mut parent_idx = self.parent_idx(curr_idx);
        while curr_idx > 0 && self.priority.higher_priority(
            &self.items[curr_idx],
            &self.items[parent_idx],
        )
            invariant
                self.wf(),
                self.priority() == old(self).priority(),
                curr_idx < self@.len(),
                parent_idx == parent(curr_idx as int),
                after_swim(self.priority(), self@, curr_idx as int) == after_swim(
                    old(self).priority(),
                    old(self)@,
                    idx as int,
                ),
            decreases curr_idx,
        {
            self.items.swap(curr_idx, parent_idx);
            curr_idx = parent_idx;
            parent_idx = self.parent_idx(curr_idx);
        }
    }

    /// Restores the order downwards from `idx`: while the node has a child
    /// and does not outrank its preferred child, the two are exchanged.
    fn sink(&mut self, idx: usize)
        requires
            old(self).wf(),
        ensures
            final(self).wf(),
            final(self).priority() == old(self).priority(),
            final(self)@ == after_sink(old(self).priority(), old(self)@, idx as int),
    {
        let mut curr_idx = idx;
        while self.children_present(curr_idx)
            invariant
                self.wf(),
                self.priority() == old(self).priority(),
                after_sink(self.priority(), self@, curr_idx as int) == after_sink(
                    old(self).priority(),
                    old(self)@,
                    idx as int,
                ),
            ensures
                self.wf(),
                self.priority() == old(self).priority(),
                self@ == after_sink(old(self).priority(), old(self)@, idx as int),
            decreases self@.len() - curr_idx,
        {
            let child_to_switch = self.smallest_child_idx(curr_idx);
            if self.priority.higher_priority(
                &self.items[curr_idx],
                &self.items[child_to_switch],
            ) {
                break ;
            }
            self.items.swap(curr_idx, child_to_switch);
            curr_idx = child_to_switch;
        }
    }

    /// The index that a swim climbs to from `idx`.
    fn parent_idx(&self, idx: usize) -> (r: usize)
        ensures
            r == parent(idx as int),
    {
        idx / 2
    }

    /// Whether the node at `idx` has a child, that is whether its left child
    /// index lies within the heap. Computed by halving the count, which
    /// cannot overflow.
    fn children_present(&self, idx: usize) -> (r: bool)
        requires
            self.wf(),
        ensures
            r == children_present(idx as int, self@.len() as int),
    {
        idx < self.count / 2
    }

    /// The index of the left child of `idx`.
    fn left_child_idx(&self, idx: usize) -> (r: usize)
        requires
            left_child(idx as int) <= usize::MAX,
        ensures
            r == left_child(idx as int),
    {
        idx * 2 + 1
    }

    /// The index of the right child of `idx`.
    fn right_child_idx(&self, idx: usize) -> (r: usize)
        requires
            right_child(idx as int) <= usize::MAX,
        ensures
            r == right_child(idx as int),
    {
        self.left_child_idx(idx) + 1
    }

    /// The child that a sink from `idx` compares against: the one that the
    /// priority relation ranks higher, which is the smaller one in a min-heap
    /// and the larger one in a max-heap.
    fn smallest_child_idx(&self, idx: usize) -> (r: usize)
        requires
            self.wf(),
            children_present(idx as int, self@.len() as int),
        ensures
            r == preferred_child(self.priority(), self@, idx as int),
            idx < r < self@.len(),
    {
        if self.count <= self.right_child_idx(idx) {
            return self.left_child_idx(idx);
        }
        let (left_child_idx, right_child_idx) = (
            self.left_child_idx(idx),
            self.right_child_idx(idx),
        );
        if self.priority.higher_priority(
            &self.items[left_child_idx],
            &self.items[right_child_idx],
        ) {
            left_child_idx
        } else {
            right_child_idx
        }
    }
}

impl<T: Ord> Heap<T, Ascending> {
    /// An empty min-heap: `a` sits above `b` iff `a < b`.
    pub fn new_min() -> (heap: Self)
        requires
            Priority::<T>::valid(&Ascending),
        ensures
            heap.wf(),
            heap@ == Seq::<T>::empty(),
            heap.priority() == Ascending,
    {
        Self::new(Ascending)
    }
}

impl<T: Ord> Heap<T, Descending> {
    /// An empty max-heap: `a` sits above `b` iff `a > b`.
    pub fn new_max() -> (heap: Self)
        requires
            Priority::<T>::valid(&Descending),
        ensures
            heap.wf(),
            heap@ == Seq::<T>::empty(),
            heap.priority() == Descending,
    {
        Self::new(Descending)
    }
}

/// Maker of min-heaps.
pub struct MinHeap;

impl MinHeap {
    /// An empty min-heap: `a` sits above `b` iff `a < b`.
    pub fn new<T: Ord>() -> (heap: Heap<T, Ascending>)
        requires
            Priority::<T>::valid(&Ascending),
        ensures
            heap.wf(),
            heap@ == Seq::<T>::empty(),
            heap.priority() == Ascending,
    {
        Heap::new(Ascending)
    }
}

/// Maker of max-heaps.
pub struct MaxHeap;

impl MaxHeap {
    /// An empty max-heap: `a` sits above `b` iff `a > b`.
    pub fn new<T: Ord>() -> (heap: Heap<T, Descending>)
        requires
            Priority::<T>::valid(&Descending),
        ensures
            heap.wf(),
            heap@ == Seq::<T>::empty(),
            heap.priority() == Descending,
    {
        Heap::new(Descending)
    }
}

} // verus!
