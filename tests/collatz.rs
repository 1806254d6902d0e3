use bytie::collatz::{collatz_sequence, reaches_one_within};

#[test]
fn test_collatz_sequence() {
    assert_eq!(collatz_sequence(0), Vec::<u64>::new());
    assert_eq!(collatz_sequence(1), vec![1]);
    assert_eq!(collatz_sequence(2), vec![2, 1]);
    assert_eq!(collatz_sequence(3), vec![3, 10, 5, 16, 8, 4, 2, 1]);
    assert_eq!(collatz_sequence(4), vec![4, 2, 1]);
}

#[test]
fn collatz_of_27_is_long() {
    let s = collatz_sequence(27);
    assert_eq!(s.len(), 112);
    assert_eq!(s[0], 27);
    assert_eq!(s[1], 82);
    assert_eq!(*s.iter().max().unwrap(), 9232);
    assert_eq!(*s.last().unwrap(), 1);
}

#[test]
fn collatz_precondition_check() {
    assert!(reaches_one_within(1, 0));
    assert!(reaches_one_within(3, 7));
    assert!(!reaches_one_within(3, 6));
    assert!(!reaches_one_within(0, 100));
    assert!(!reaches_one_within(u64::MAX, u64::MAX));
    assert!(reaches_one_within(27, u64::MAX));
}
