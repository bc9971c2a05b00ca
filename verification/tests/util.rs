use fpu_calc::lazylock::LazyLock;
use fpu_calc::util::{abs, truncate_trailing_zeros};

#[test]
fn trailing_zeros_are_dropped() {
    assert_eq!(truncate_trailing_zeros("1.2500000000".to_string()), "1.25");
    assert_eq!(truncate_trailing_zeros("3.0000000000".to_string()), "3");
    assert_eq!(truncate_trailing_zeros("-0.5000000000".to_string()), "-0.5");
    assert_eq!(truncate_trailing_zeros("000".to_string()), "000");
    assert_eq!(truncate_trailing_zeros(String::new()), "");
    assert_eq!(truncate_trailing_zeros("12".to_string()), "12");
}

#[test]
fn absolute_value() {
    assert_eq!(abs(-5), 5);
    assert_eq!(abs(7), 7);
    assert_eq!(abs(0), 0);
    assert_eq!(abs(-127), 127);
}

#[test]
fn lazy_value_is_computed_once() {
    let mut lock = LazyLock::new(|| 41 + 1);
    assert_eq!(*lock.force(), 42);
    assert_eq!(*lock.force(), 42);
}

#[test]
fn lazy_function_runs_once() {
    let calls = std::cell::Cell::new(0u32);
    let mut lock = LazyLock::new(|| {
        calls.set(calls.get() + 1);
        7
    });
    for _ in 0..3 {
        assert_eq!(*lock.force(), 7);
    }
    assert_eq!(calls.get(), 1);
}
