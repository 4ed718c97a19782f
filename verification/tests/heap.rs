use binary_heap::{Heap, MaxHeap, MinHeap};

#[test]
fn test_empty_heap() {
    let mut heap = MaxHeap::new::<i32>();
    assert_eq!(heap.next(), None);
}

#[test]
fn test_min_heap() {
    let mut heap = MinHeap::new();
    heap.add(4);
    heap.add(2);
    heap.add(9);
    heap.add(11);
    assert_eq!(heap.len(), 4);
    assert_eq!(heap.next(), Some(2));
    assert_eq!(heap.next(), Some(4));
    assert_eq!(heap.next(), Some(9));
    heap.add(1);
    assert_eq!(heap.next(), Some(1));
}

#[test]
fn test_max_heap() {
    let mut heap = MaxHeap::new();
    heap.add(4);
    heap.add(2);
    heap.add(9);
    heap.add(11);
    assert_eq!(heap.len(), 4);
    assert_eq!(heap.next(), Some(11));
    assert_eq!(heap.next(), Some(9));
    assert_eq!(heap.next(), Some(4));
    heap.add(1);
    assert_eq!(heap.next(), Some(2));
}

#[test]
fn test_new_min_and_new_max() {
    let mut low = Heap::new_min();
    let mut high = Heap::new_max();
    for value in [5u32, 3, 8] {
        low.add(value);
        high.add(value);
    }
    assert_eq!(low.next(), Some(3));
    assert_eq!(high.next(), Some(8));
}
