//! What holds of the heap across its operations.
//!
//! The laws are stated over the sequence model of [`crate::model`], in which
//! the contracts of the executable operations are written too. What a single
//! extraction keeps is proved in [`crate::lemmas`].

use vstd::prelude::*;
use vstd::std_specs::cmp::{OrdSpec, PartialEqSpec, PartialOrdIs, PartialOrdSpec};
use crate::lemmas::{
    lemma_next_keeps_order, lemma_next_permutes, lemma_root_unsurpassed,
    lemma_swim_keeps_root_unsurpassed, lemma_swim_permutes, lemma_swim_restores_order,
    ordered_above,
};
use crate::model::{
    above, after_add, after_next, climbs_along_links, extraction, filled, heap_ordered,
    in_priority_order, left_child, ordered_at, right_child, unsurpassed,
};
use crate::priority::{lemma_natural_orders, strict_weak_order, Ascending, Descending, Priority};

verus! {

/// One operation on a heap.
pub enum Step<T> {
    /// The insertion of a value.
    Insert(T),
    /// One extraction, which takes the root out unless the heap is empty.
    Extract,
}

/// The heap after one operation.
pub open spec fn after_step<T, P: Priority<T>>(p: P, s: Seq<T>, step: Step<T>) -> Seq<T> {
    match step {
        Step::Insert(value) => after_add(p, s, value),
        Step::Extract => after_next(p, s),
    }
}

/// The heap after a run of operations, starting from `s`.
pub open spec fn after_steps<T, P: Priority<T>>(p: P, s: Seq<T>, steps: Seq<Step<T>>) -> Seq<T>
    decreases steps.len(),
{
    if steps.len() == 0 {
        s
    } else {
        after_step(p, after_steps(p, s, steps.drop_last()), steps.last())
    }
}

/// The number of insertions in a run.
pub open spec fn insertions<T>(steps: Seq<Step<T>>) -> nat
    decreases steps.len(),
{
    if steps.len() == 0 {
        0
    } else if steps.last() is Insert {
        insertions(steps.drop_last()) + 1
    } else {
        insertions(steps.drop_last())
    }
}

/// The number of extractions in a run from `s` that found the heap non-empty
/// and so handed out an element.
pub open spec fn extractions<T, P: Priority<T>>(p: P, s: Seq<T>, steps: Seq<Step<T>>) -> nat
    decreases steps.len(),
{
    if steps.len() == 0 {
        0
    } else if steps.last() is Extract && after_steps(p, s, steps.drop_last()).len() > 0 {
        extractions(p, s, steps.drop_last()) + 1
    } else {
        extractions(p, s, steps.drop_last())
    }
}

/// After any run of operations the size is the size at the start, plus the
/// number of insertions, minus the number of extractions that handed out an
/// element. From an empty heap it is the one minus the other, and the
/// extractions never outnumber the insertions.
pub proof fn lemma_size_counts_steps<T, P: Priority<T>>(p: P, s: Seq<T>, steps: Seq<Step<T>>)
    ensures
        after_steps(p, s, steps).len() == s.len() + insertions(steps) - extractions(p, s, steps),
        extractions(p, s, steps) <= s.len() + insertions(steps),
    decreases steps.len(),
{
    if steps.len() > 0 {
        let before = after_steps(p, s, steps.drop_last());
        lemma_size_counts_steps(p, s, steps.drop_last());
        match steps.last() {
            Step::Insert(value) => {
                lemma_swim_permutes(p, before.push(value), before.len() as int);
            },
            Step::Extract => {
                if before.len() > 0 {
                    lemma_next_permutes(p, before);
                }
            },
        }
    }
}

/// Extraction from an empty heap leaves it empty, however often it is
/// repeated.
pub proof fn lemma_empty_stays_empty<T, P: Priority<T>>(p: P, steps: Seq<Step<T>>)
    requires
        forall|k: int| 0 <= k < steps.len() ==> #[trigger] steps[k] is Extract,
    ensures
        after_steps(p, Seq::<T>::empty(), steps) == Seq::<T>::empty(),
        extractions(p, Seq::<T>::empty(), steps) == 0,
    decreases steps.len(),
{
    if steps.len() > 0 {
        assert(steps.last() == steps[steps.len() - 1]);
        lemma_empty_stays_empty(p, steps.drop_last());
    }
}

/// A heap with one inserted value has that value at its root, hands it out
/// at the first extraction and is empty from then on.
pub proof fn lemma_single_value<T, P: Priority<T>>(p: P, value: T)
    ensures
        after_add(p, Seq::<T>::empty(), value) == seq![value],
        after_next(p, seq![value]) == Seq::<T>::empty(),
        extraction(p, seq![value]) == seq![value],
{
    let one = seq![value];
    assert(Seq::<T>::empty().push(value) =~= one);
    assert(after_next(p, one) =~= Seq::<T>::empty());
    assert(extraction(p, Seq::<T>::empty()) =~= Seq::<T>::empty());
    assert(extraction(p, one) =~= one);
}

/// Extraction until the heap is empty hands out every element exactly once.
pub proof fn lemma_extraction_permutes<T, P: Priority<T>>(p: P, s: Seq<T>)
    ensures
        extraction(p, s).len() == s.len(),
        extraction(p, s).to_multiset() == s.to_multiset(),
    decreases s.len(),
{
    broadcast use {
        vstd::seq_lib::to_multiset_insert,
        vstd::seq_lib::to_multiset_contains,
        vstd::multiset::group_multiset_axioms,
    };

    if s.len() == 0 {
        assert(extraction(p, s) =~= s);
    } else {
        let rest = after_next(p, s);
        lemma_next_permutes(p, s);
        lemma_extraction_permutes(p, rest);
        assert(extraction(p, s) =~= extraction(p, rest).insert(0, s[0]));
        assert(s.contains(s[0]));
        assert(extraction(p, s).to_multiset() =~= s.to_multiset());
    }
}

/// Extraction from an ordered heap, repeated until it is empty, hands out
/// the elements from highest to lowest priority.
pub proof fn lemma_extraction_in_priority_order<T, P: Priority<T>>(p: P, s: Seq<T>)
    requires
        strict_weak_order(p),
        heap_ordered(p, s),
    ensures
        in_priority_order(p, extraction(p, s)),
    decreases s.len(),
{
    broadcast use {vstd::seq_lib::to_multiset_contains, vstd::multiset::group_multiset_axioms};

    if s.len() > 0 {
        let rest = after_next(p, s);
        let tail = extraction(p, rest);
        let all = extraction(p, s);
        lemma_next_permutes(p, s);
        lemma_next_keeps_order(p, s);
        lemma_root_unsurpassed(p, s);
        lemma_extraction_permutes(p, rest);
        lemma_extraction_in_priority_order(p, rest);
        assert forall|i: int, j: int| 0 <= i < j < all.len() implies !p.outranks(
            #[trigger] all[j],
            #[trigger] all[i],
        ) by {
            assert(all[j] == tail[j - 1]);
            if i == 0 {
                assert(tail.contains(tail[j - 1]));
                assert(rest.to_multiset().count(tail[j - 1]) > 0);
                assert(s.to_multiset().count(tail[j - 1]) > 0);
                assert(s.contains(tail[j - 1]));
                let k = choose|k: int| 0 <= k < s.len() && s[k] == tail[j - 1];
                assert(!p.outranks(s[k], s[0]));
            } else {
                assert(all[i] == tail[i - 1]);
            }
        }
    }
}

/// Whatever was inserted into an empty heap, a full extraction hands out
/// exactly the inserted values; where the insertions left the heap ordered,
/// it hands them out from highest to lowest priority.
pub proof fn lemma_fill_then_extract<T, P: Priority<T>>(p: P, values: Seq<T>)
    ensures
        extraction(p, filled(p, values)).to_multiset() == values.to_multiset(),
        strict_weak_order(p) && heap_ordered(p, filled(p, values)) ==> in_priority_order(
            p,
            extraction(p, filled(p, values)),
        ),
{
    lemma_filled_permutes(p, values);
    lemma_extraction_permutes(p, filled(p, values));
    if strict_weak_order(p) && heap_ordered(p, filled(p, values)) {
        lemma_extraction_in_priority_order(p, filled(p, values));
    }
}

/// The heap made by inserting `values` holds exactly those values.
pub proof fn lemma_filled_permutes<T, P: Priority<T>>(p: P, values: Seq<T>)
    ensures
        filled(p, values).len() == values.len(),
        filled(p, values).to_multiset() == values.to_multiset(),
    decreases values.len(),
{
    broadcast use vstd::seq_lib::to_multiset_build;

    if values.len() == 0 {
        assert(filled(p, values) =~= values);
    } else {
        let before = filled(p, values.drop_last());
        lemma_filled_permutes(p, values.drop_last());
        lemma_swim_permutes(p, before.push(values.last()), before.len() as int);
        assert(values =~= values.drop_last().push(values.last()));
        assert(before.push(values.last()).to_multiset() == values.to_multiset());
    }
}

/// The heap property can only be lost by an insertion: in a run from an empty
/// heap in which every insertion leaves the heap ordered, the heap is ordered
/// after every step.
pub proof fn lemma_order_holds_throughout<T, P: Priority<T>>(p: P, steps: Seq<Step<T>>)
    requires
        strict_weak_order(p),
        forall|k: int|
            0 <= k < steps.len() && steps[k] is Insert ==> heap_ordered(
                p,
                #[trigger] after_steps(p, Seq::<T>::empty(), steps.take(k + 1)),
            ),
    ensures
        forall|k: int|
            0 <= k <= steps.len() ==> heap_ordered(
                p,
                #[trigger] after_steps(p, Seq::<T>::empty(), steps.take(k)),
            ),
{
    assert forall|k: int| 0 <= k <= steps.len() implies heap_ordered(
        p,
        #[trigger] after_steps(p, Seq::<T>::empty(), steps.take(k)),
    ) by {
        lemma_order_holds_up_to(p, steps, k);
    }
}

proof fn lemma_order_holds_up_to<T, P: Priority<T>>(p: P, steps: Seq<Step<T>>, k: int)
    requires
        strict_weak_order(p),
        forall|k: int|
            0 <= k < steps.len() && steps[k] is Insert ==> heap_ordered(
                p,
                #[trigger] after_steps(p, Seq::<T>::empty(), steps.take(k + 1)),
            ),
        0 <= k <= steps.len(),
    ensures
        heap_ordered(p, after_steps(p, Seq::<T>::empty(), steps.take(k))),
    decreases k,
{
    let done = steps.take(k);
    if k > 0 {
        assert(done.drop_last() =~= steps.take(k - 1));
        assert(done.last() == steps[k - 1]);
        lemma_order_holds_up_to(p, steps, k - 1);
        if steps[k - 1] is Extract {
            lemma_next_keeps_order(p, after_steps(p, Seq::<T>::empty(), steps.take(k - 1)));
        } else {
            assert(steps.take(k - 1 + 1) == done);
        }
    } else {
        assert(after_steps(p, Seq::<T>::empty(), done) =~= Seq::<T>::empty());
    }
}

/// An insertion keeps the heap property where the swim of the new value
/// climbs only along links of the tree. A value that stays at the tail, under
/// a node that it does not outrank, is the simplest case.
pub proof fn lemma_insert_keeps_order<T, P: Priority<T>>(p: P, s: Seq<T>, value: T)
    requires
        strict_weak_order(p),
        heap_ordered(p, s),
        climbs_along_links(p, s.push(value), s.len() as int),
    ensures
        heap_ordered(p, after_add(p, s, value)),
{
    let t = s.push(value);
    assert forall|c: int| 0 < c < t.len() && c != s.len() implies !p.outranks(
        #[trigger] t[c],
        t[above(c)],
    ) by {
        assert(ordered_at(p, s, above(c)));
        assert(left_child(above(c)) == c || right_child(above(c)) == c);
    }
    assert(ordered_above(p, t, s.len() as int));
    lemma_swim_restores_order(p, t, s.len() as int);
}

/// An insertion keeps an unsurpassed element at the root, whether or not it
/// keeps the heap property.
pub proof fn lemma_insert_keeps_root_unsurpassed<T, P: Priority<T>>(p: P, s: Seq<T>, value: T)
    requires
        strict_weak_order(p),
        s.len() > 0 ==> unsurpassed(p, s, s[0]),
    ensures
        unsurpassed(p, after_add(p, s, value), after_add(p, s, value)[0]),
{
    let t = s.push(value);
    assert forall|j: int| 0 <= j < t.len() && j != s.len() implies !p.outranks(
        #[trigger] t[j],
        t[0],
    ) by {
        assert(t[j] == s[j]);
    }
    lemma_swim_keeps_root_unsurpassed(p, t, s.len() as int);
}

/// After insertions alone the root is unsurpassed: the first extraction
/// hands out an element that none of the inserted values outranks.
pub proof fn lemma_filled_root_unsurpassed<T, P: Priority<T>>(p: P, values: Seq<T>)
    requires
        strict_weak_order(p),
        values.len() > 0,
    ensures
        unsurpassed(p, filled(p, values), filled(p, values)[0]),
    decreases values.len(),
{
    if values.len() > 1 {
        lemma_filled_root_unsurpassed(p, values.drop_last());
    } else {
        assert(filled(p, values.drop_last()).len() == 0);
    }
    lemma_insert_keeps_root_unsurpassed(p, filled(p, values.drop_last()), values.last());
}

/// No element of `s` is greater than one that comes after it.
pub open spec fn non_decreasing<T: Ord>(s: Seq<T>) -> bool {
    forall|i: int, j: int| #![trigger s[i], s[j]] 0 <= i < j < s.len() ==> s[i].is_le(&s[j])
}

/// No element of `s` is less than one that comes after it.
pub open spec fn non_increasing<T: Ord>(s: Seq<T>) -> bool {
    forall|i: int, j: int| #![trigger s[i], s[j]] 0 <= i < j < s.len() ==> s[i].is_ge(&s[j])
}

/// Full extraction from an ordered min-heap is non-decreasing in the natural
/// order of `T`.
pub proof fn lemma_min_heap_ascends<T: Ord>(s: Seq<T>)
    requires
        vstd::laws_cmp::obeys_cmp::<T>(),
        heap_ordered(Ascending, s),
    ensures
        non_decreasing(extraction(Ascending, s)),
{
    let out = extraction(Ascending, s);
    lemma_natural_orders::<T>();
    lemma_extraction_in_priority_order(Ascending, s);
    assert forall|i: int, j: int|
        #![trigger out[i], out[j]]
        0 <= i < j < out.len() implies out[i].is_le(&out[j]) by {
        assert(!Ascending.outranks(out[j], out[i]));
        lemma_not_less_is_ge(out[j], out[i]);
    }
}

/// Full extraction from an ordered max-heap is non-increasing in the natural
/// order of `T`.
pub proof fn lemma_max_heap_descends<T: Ord>(s: Seq<T>)
    requires
        vstd::laws_cmp::obeys_cmp::<T>(),
        heap_ordered(Descending, s),
    ensures
        non_increasing(extraction(Descending, s)),
{
    let out = extraction(Descending, s);
    lemma_natural_orders::<T>();
    lemma_extraction_in_priority_order(Descending, s);
    assert forall|i: int, j: int|
        #![trigger out[i], out[j]]
        0 <= i < j < out.len() implies out[i].is_ge(&out[j]) by {
        assert(!Descending.outranks(out[j], out[i]));
        lemma_not_less_is_ge(out[i], out[j]);
    }
}

/// In a total order, what is not below is equal or above, seen from both
/// sides.
proof fn lemma_not_less_is_ge<T: Ord>(a: T, b: T)
    requires
        vstd::laws_cmp::obeys_cmp::<T>(),
    ensures
        !a.is_lt(&b) ==> a.is_ge(&b) && b.is_le(&a),
        !b.is_gt(&a) ==> a.is_ge(&b) && b.is_le(&a),
{
    reveal(vstd::laws_cmp::obeys_cmp_partial_ord);
    reveal(vstd::laws_cmp::obeys_cmp_ord);
    reveal(vstd::laws_cmp::obeys_partial_cmp_spec_properties);
    reveal(vstd::laws_eq::obeys_eq_spec_properties);
    assert(a.partial_cmp_spec(&b) == Some(a.cmp_spec(&b)));
    assert(b.partial_cmp_spec(&a) == Some(b.cmp_spec(&a)));
    if a.is_lt(&b) {
        assert(b.is_gt(&a));
    } else if a.is_gt(&b) {
        assert(b.is_lt(&a));
    } else {
        assert(a.eq_spec(&b));
        assert(b.eq_spec(&a));
    }
}

} // verus!
