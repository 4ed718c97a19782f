use binary_heap::{Ascending, Descending, Heap, MaxHeap, MinHeap, Priority};

/// Pairs ranked by their number alone, the smaller number first.
fn lower_number(a: &(char, u8), b: &(char, u8)) -> bool {
    a.1 < b.1
}

fn drained_by_next<T, P: Priority<T>>(heap: &mut Heap<T, P>) -> Vec<T> {
    let mut out = Vec::new();
    while let Some(top) = heap.next() {
        out.push(top);
    }
    out
}

#[test]
fn min_heap_hands_out_ascending() {
    let mut heap = MinHeap::new();
    for value in [5, 3, 8, 1, 9, 2] {
        heap.add(value);
        assert!(heap.is_ordered());
    }
    assert_eq!(drained_by_next(&mut heap), vec![1, 2, 3, 5, 8, 9]);
}

#[test]
fn max_heap_hands_out_descending() {
    let mut heap = MaxHeap::new();
    for value in [5, 3, 8, 1, 9, 2] {
        heap.add(value);
        assert!(heap.is_ordered());
    }
    assert_eq!(drained_by_next(&mut heap), vec![9, 8, 5, 3, 2, 1]);
}

#[test]
fn equal_values_all_come_out() {
    let mut low = MinHeap::new();
    let mut high = MaxHeap::new();
    for value in [7u64, 7, 3, 3, 9, 1, 1] {
        low.add(value);
        high.add(value);
    }
    assert!(low.is_ordered());
    assert!(high.is_ordered());
    assert_eq!(low.drain(), vec![1, 1, 3, 3, 7, 7, 9]);
    assert_eq!(high.drain(), vec![9, 7, 7, 3, 3, 1, 1]);
}

#[test]
fn values_inserted_in_order_and_against_it() {
    let mut rising = MinHeap::new();
    let mut falling = MinHeap::new();
    for value in [10, 20, 30, 40, 50, 60, 70, 80] {
        rising.add(value);
        falling.add(90 - value);
    }
    assert!(rising.is_ordered());
    assert!(falling.is_ordered());
    assert_eq!(rising.drain(), vec![10, 20, 30, 40, 50, 60, 70, 80]);
    assert_eq!(falling.drain(), vec![10, 20, 30, 40, 50, 60, 70, 80]);
}

#[test]
fn size_follows_inserts_and_extractions() {
    let mut heap = MinHeap::new();
    assert_eq!(heap.len(), 0);
    assert!(heap.is_empty());
    assert_eq!(heap.next(), None);
    assert_eq!(heap.len(), 0);
    heap.add(6i64);
    assert_eq!(heap.len(), 1);
    assert!(!heap.is_empty());
    heap.add(-2);
    heap.add(4);
    assert_eq!(heap.len(), 3);
    assert_eq!(heap.next(), Some(-2));
    assert_eq!(heap.len(), 2);
    heap.add(0);
    assert_eq!(heap.len(), 3);
    assert_eq!(heap.next(), Some(0));
    assert_eq!(heap.next(), Some(4));
    assert_eq!(heap.next(), Some(6));
    assert_eq!(heap.len(), 0);
    assert_eq!(heap.next(), None);
    assert_eq!(heap.len(), 0);
    assert!(heap.is_empty());
}

#[test]
fn empty_heap_stays_empty() {
    let mut heap = MinHeap::new::<u8>();
    for _ in 0..5 {
        assert_eq!(heap.next(), None);
        assert_eq!(heap.len(), 0);
        assert!(heap.is_empty());
        assert!(heap.is_ordered());
    }
    assert_eq!(heap.drain(), Vec::<u8>::new());
    heap.add(3);
    assert_eq!(heap.next(), Some(3));
}

#[test]
fn single_value_comes_out_once() {
    let mut low = MinHeap::new();
    low.add(42);
    assert_eq!(low.len(), 1);
    assert_eq!(low.next(), Some(42));
    assert_eq!(low.next(), None);
    assert_eq!(low.next(), None);

    let mut high = MaxHeap::new();
    high.add("only");
    assert_eq!(high.next(), Some("only"));
    assert_eq!(high.next(), None);
}

#[test]
fn extraction_keeps_the_heap_ordered() {
    let mut heap = MinHeap::new();
    for value in [5, 3, 8, 1, 9, 2] {
        heap.add(value);
    }
    let mut left = 6;
    for expected in [1, 2, 3, 5, 8, 9] {
        assert!(heap.is_ordered());
        assert_eq!(heap.next(), Some(expected));
        left -= 1;
        assert_eq!(heap.len(), left);
    }
    assert!(heap.is_ordered());
}

#[test]
fn swim_halves_the_index() {
    // The seventh value arrives at index 6 and is compared with index 3,
    // which holds 2, not with the node above it at index 2, which holds 4.
    let mut heap = MinHeap::new();
    for value in [0, 1, 4, 2, 5, 6] {
        heap.add(value);
        assert!(heap.is_ordered());
    }
    heap.add(3);
    assert!(!heap.is_ordered());
    assert_eq!(heap.len(), 7);
    assert_eq!(heap.next(), Some(0));
    assert!(heap.is_ordered());
    assert_eq!(heap.drain(), vec![1, 2, 3, 4, 5, 6]);
}

#[test]
fn swim_halves_the_index_in_a_max_heap() {
    let mut heap = MaxHeap::new();
    for value in [9, 8, 5, 7, 4, 3] {
        heap.add(value);
        assert!(heap.is_ordered());
    }
    heap.add(6);
    assert!(!heap.is_ordered());
    assert_eq!(heap.next(), Some(9));
}

#[test]
fn unordered_heap_hands_out_what_its_root_holds() {
    let mut heap = MinHeap::new();
    for value in [0, 1, 4, 2, 5, 6, 3, 7, 8, 9] {
        heap.add(value);
    }
    assert!(!heap.is_ordered());
    assert_eq!(heap.len(), 10);
    assert_eq!(heap.drain(), vec![0, 1, 2, 4, 3, 5, 6, 7, 8, 9]);
    assert!(heap.is_empty());
}

#[test]
fn first_extraction_after_inserts_is_unsurpassed() {
    let mut low = MinHeap::new();
    let mut high = MaxHeap::new();
    for value in [13, 8, 21, 3, 34, 5, 1, 55, 2, 89, 1] {
        low.add(value);
        high.add(value);
    }
    assert_eq!(low.next(), Some(1));
    assert_eq!(high.next(), Some(89));
}

#[test]
fn drain_and_next_agree() {
    let values = [9, 8, 7, 6, 5, 4, 3, 2, 1, 0];
    let mut one = MinHeap::new();
    let mut other = MinHeap::new();
    for value in values {
        one.add(value);
        other.add(value);
    }
    let by_next = drained_by_next(&mut one);
    assert_eq!(other.drain(), by_next);
    assert_eq!(by_next, vec![0, 1, 2, 3, 4, 5, 6, 7, 8, 9]);
    assert_eq!(other.len(), 0);
}

#[test]
fn heap_made_with_a_function() {
    let mut heap = Heap::new(lower_number);
    for pair in [('a', 3), ('b', 1), ('c', 2), ('d', 1)] {
        heap.add(pair);
    }
    assert!(heap.is_ordered());
    assert_eq!(heap.len(), 4);
    assert_eq!(heap.drain(), vec![('b', 1), ('d', 1), ('c', 2), ('a', 3)]);
}

#[test]
fn heap_made_with_a_closure() {
    let mut longest_first = Heap::new(|a: &&str, b: &&str| a.len() > b.len());
    for word in ["fig", "quince", "pear", "apple"] {
        longest_first.add(word);
    }
    assert_eq!(longest_first.next(), Some("quince"));
    assert_eq!(longest_first.next(), Some("apple"));
    assert_eq!(longest_first.next(), Some("pear"));
    assert_eq!(longest_first.next(), Some("fig"));
    assert_eq!(longest_first.next(), None);
}

#[test]
fn natural_orders_as_priorities() {
    let mut low = Heap::new(Ascending);
    let mut high = Heap::new(Descending);
    for word in ["pear", "apple", "quince", "fig"] {
        low.add(word);
        high.add(word);
    }
    assert_eq!(low.drain(), vec!["apple", "fig", "pear", "quince"]);
    assert_eq!(high.drain(), vec!["quince", "pear", "fig", "apple"]);
    assert!(Ascending.higher_priority(&1, &2));
    assert!(!Ascending.higher_priority(&2, &2));
    assert!(Descending.higher_priority(&2, &1));
    assert!(!Descending.higher_priority(&1, &1));
}
