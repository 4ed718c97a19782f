use binary_heap::sort;

#[test]
fn test_sort_1() {
    let mut vec = vec![37, 73, 57, 75, 91, 19, 46, 64];
    sort(&mut vec);
    assert_eq!(vec, vec![19, 37, 46, 57, 64, 73, 75, 91]);
}

#[test]
fn test_sort_2() {
    let mut vec = vec![1];
    sort(&mut vec);
    assert_eq!(vec, vec![1]);
}

#[test]
fn test_sort_3() {
    let mut vec = vec![99, 88, 77, 66, 55, 44, 33, 22, 11];
    sort(&mut vec);
    assert_eq!(vec, vec![11, 22, 33, 44, 55, 66, 77, 88, 99]);
}

#[test]
fn sort_of_nothing() {
    let mut none: Vec<u8> = vec![];
    sort(&mut none);
    assert_eq!(none, Vec::<u8>::new());
}

#[test]
fn sort_keeps_equal_values() {
    let mut vec = vec![3, 1, 3, 2, 1, 3];
    sort(&mut vec);
    assert_eq!(vec, vec![1, 1, 2, 3, 3, 3]);
}

#[test]
fn sort_of_sorted_and_of_two() {
    let mut sorted = vec![-4, -1, 0, 7];
    sort(&mut sorted);
    assert_eq!(sorted, vec![-4, -1, 0, 7]);
    let mut two = [2u64, 1];
    sort(&mut two);
    assert_eq!(two, [1, 2]);
}

#[test]
fn sort_of_words_and_of_a_part() {
    let mut words = vec!["pear", "apple", "fig"];
    sort(&mut words);
    assert_eq!(words, vec!["apple", "fig", "pear"]);
    let mut vec = vec![9, 8, 7, 6, 5];
    sort(&mut vec[1..4]);
    assert_eq!(vec, vec![9, 6, 7, 8, 5]);
}

#[test]
fn sort_of_fractions() {
    let mut vec = vec![2.5, -1.0, 0.0, 7.25, 0.5];
    sort(&mut vec);
    assert_eq!(vec, vec![-1.0, 0.0, 0.5, 2.5, 7.25]);
}
