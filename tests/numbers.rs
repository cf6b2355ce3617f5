use webserver::fib::FIB_MAX_INDEX;
use webserver::{fib, tlargest};

#[test]
fn fib_first_terms() {
    assert_eq!(fib(0), 1);
    assert_eq!(fib(1), 1);
    assert_eq!(fib(2), 1);
    assert_eq!(fib(3), 2);
    assert_eq!(fib(4), 3);
    assert_eq!(fib(5), 5);
}

#[test]
fn fib_tenth_and_twentieth() {
    assert_eq!(fib(10), 55);
    assert_eq!(fib(20), 6765);
}

#[test]
fn fib_largest_index_fits() {
    assert_eq!(FIB_MAX_INDEX, 47);
    assert_eq!(fib(FIB_MAX_INDEX), 2971215073);
}

#[test]
fn largest_of_odd_numbers() {
    let v = vec![1, 3, 5, 7];
    assert_eq!(*tlargest(&v), 7);
}

#[test]
fn largest_in_the_middle() {
    let v = vec![34, 50, 25, 100, 65];
    assert_eq!(*tlargest(&v), 100);
}

#[test]
fn largest_of_one_element() {
    let v = vec![-4];
    assert_eq!(*tlargest(&v), -4);
}

#[test]
fn largest_of_chars() {
    let v = vec!['y', 'm', 'a', 'q'];
    assert_eq!(*tlargest(&v), 'y');
}

#[test]
fn largest_keeps_first_of_equal_elements() {
    let v = vec![2, 9, 9, 1];
    let r = tlargest(&v);
    assert!(std::ptr::eq(r, &v[1]));
}
