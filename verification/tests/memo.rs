use cached_fn::cached;
use cached_fn::cached_ord;
use std::cell::Cell;
use std::sync::atomic::AtomicU32;
use std::sync::atomic::Ordering;

#[test]
fn test() {
    let calls = AtomicU32::new(0);
    let mut cached_sqr = cached(|x| {
        calls.fetch_add(1, Ordering::Relaxed);
        x * x
    });
    assert_eq!(cached_sqr.call(1), 1);
    assert_eq!(calls.load(Ordering::Relaxed), 1);
    assert_eq!(cached_sqr.call(2), 4);
    assert_eq!(calls.load(Ordering::Relaxed), 2);
    assert_eq!(cached_sqr.call(3), 9);
    assert_eq!(calls.load(Ordering::Relaxed), 3);
    assert_eq!(cached_sqr.call(2), 4);
    assert_eq!(calls.load(Ordering::Relaxed), 3);
    assert_eq!(cached_sqr.call(1), 1);
    assert_eq!(calls.load(Ordering::Relaxed), 3);
    assert_eq!(cached_sqr.call(4), 16);
    assert_eq!(calls.load(Ordering::Relaxed), 4);
}

#[test]
fn ordered_misses_then_hits() {
    let calls = Cell::new(0u32);
    let mut cached_sqr = cached_ord(|x: i32| {
        calls.set(calls.get() + 1);
        x * x
    });
    assert_eq!(cached_sqr.call(1), 1);
    assert_eq!(calls.get(), 1);
    assert_eq!(cached_sqr.call(2), 4);
    assert_eq!(calls.get(), 2);
    assert_eq!(cached_sqr.call(3), 9);
    assert_eq!(calls.get(), 3);
    assert_eq!(cached_sqr.call(2), 4);
    assert_eq!(calls.get(), 3);
    assert_eq!(cached_sqr.call(1), 1);
    assert_eq!(calls.get(), 3);
    assert_eq!(cached_sqr.call(4), 16);
    assert_eq!(calls.get(), 4);
}

#[test]
fn hashed_same_key_invokes_once() {
    let calls = Cell::new(0u32);
    let mut wrapped = cached(|x: u64| {
        calls.set(calls.get() + 1);
        x + 100
    });
    for _ in 0..50 {
        assert_eq!(wrapped.call(7), 107);
    }
    assert_eq!(calls.get(), 1);
}

#[test]
fn ordered_same_key_invokes_once() {
    let calls = Cell::new(0u32);
    let mut wrapped = cached_ord(|x: u64| {
        calls.set(calls.get() + 1);
        x + 100
    });
    for _ in 0..50 {
        assert_eq!(wrapped.call(7), 107);
    }
    assert_eq!(calls.get(), 1);
}

#[test]
fn hashed_invocations_count_distinct_keys() {
    let calls = Cell::new(0u32);
    let mut wrapped = cached(|x: u8| {
        calls.set(calls.get() + 1);
        x as u32 * 3
    });
    let keys: [u8; 10] = [5, 1, 5, 9, 1, 1, 0, 9, 200, 5];
    for k in keys {
        assert_eq!(wrapped.call(k), k as u32 * 3);
    }
    assert_eq!(calls.get(), 5);
}

#[test]
fn ordered_invocations_count_distinct_keys() {
    let calls = Cell::new(0u32);
    let mut wrapped = cached_ord(|x: u8| {
        calls.set(calls.get() + 1);
        x as u32 * 3
    });
    let keys: [u8; 10] = [5, 1, 5, 9, 1, 1, 0, 9, 200, 5];
    for k in keys {
        assert_eq!(wrapped.call(k), k as u32 * 3);
    }
    assert_eq!(calls.get(), 5);
}

#[test]
fn all_distinct_keys_invoke_every_time() {
    let calls = Cell::new(0u32);
    let mut wrapped = cached(|x: u32| {
        calls.set(calls.get() + 1);
        x
    });
    for k in 0..20u32 {
        assert_eq!(wrapped.call(k), k);
    }
    assert_eq!(calls.get(), 20);
}

#[test]
fn fresh_wrapper_has_invoked_nothing() {
    let calls = Cell::new(0u32);
    let _hashed = cached(|x: u32| {
        calls.set(calls.get() + 1);
        x
    });
    let _ordered = cached_ord(|x: u32| {
        calls.set(calls.get() + 1);
        x
    });
    assert_eq!(calls.get(), 0);
}

#[test]
fn first_result_is_kept_when_inner_changes() {
    let mut next = 0u32;
    let mut wrapped = cached(move |_key: &'static str| {
        next += 1;
        next
    });
    assert_eq!(wrapped.call("a"), 1);
    assert_eq!(wrapped.call("b"), 2);
    assert_eq!(wrapped.call("a"), 1);
    assert_eq!(wrapped.call("b"), 2);
    assert_eq!(wrapped.call("c"), 3);
    assert_eq!(wrapped.call("a"), 1);
}

#[test]
fn ordered_first_result_is_kept_when_inner_changes() {
    let mut next = 0u32;
    let mut wrapped = cached_ord(move |_key: &'static str| {
        next += 1;
        next
    });
    assert_eq!(wrapped.call("a"), 1);
    assert_eq!(wrapped.call("b"), 2);
    assert_eq!(wrapped.call("a"), 1);
    assert_eq!(wrapped.call("c"), 3);
    assert_eq!(wrapped.call("b"), 2);
}

#[test]
fn owned_keys_and_results_are_cloned() {
    let calls = Cell::new(0u32);
    let mut shout = cached(|s: String| {
        calls.set(calls.get() + 1);
        s.to_uppercase()
    });
    assert_eq!(shout.call(String::from("abc")), "ABC");
    assert_eq!(shout.call(String::from("abc")), "ABC");
    assert_eq!(shout.call(String::from("xyz")), "XYZ");
    assert_eq!(shout.call(String::from("abc")), "ABC");
    assert_eq!(calls.get(), 2);

    let mut lens = cached_ord(|v: Vec<u8>| {
        calls.set(calls.get() + 1);
        vec![v.len(); 2]
    });
    assert_eq!(lens.call(vec![1, 2, 3]), vec![3, 3]);
    assert_eq!(lens.call(vec![1, 2, 3]), vec![3, 3]);
    assert_eq!(lens.call(vec![]), vec![0, 0]);
    assert_eq!(calls.get(), 4);
}

#[test]
fn composite_key_packs_two_arguments() {
    let calls = Cell::new(0u32);
    let mut sum = cached(|(a, b): (i64, i64)| {
        calls.set(calls.get() + 1);
        a + b
    });
    assert_eq!(sum.call((1, 2)), 3);
    assert_eq!(sum.call((2, 1)), 3);
    assert_eq!(sum.call((1, 2)), 3);
    assert_eq!(calls.get(), 2);
}

#[test]
fn variants_agree_on_the_same_calls() {
    let hashed_calls = Cell::new(0u32);
    let ordered_calls = Cell::new(0u32);
    let mut hashed = cached(|x: i64| {
        hashed_calls.set(hashed_calls.get() + 1);
        x * x - 7
    });
    let mut ordered = cached_ord(|x: i64| {
        ordered_calls.set(ordered_calls.get() + 1);
        x * x - 7
    });
    let keys: [i64; 12] = [3, -3, 3, 0, 8, 8, -3, 100, 0, 3, -100, 100];
    let mut hashed_outs = Vec::new();
    let mut ordered_outs = Vec::new();
    for k in keys {
        hashed_outs.push(hashed.call(k));
        ordered_outs.push(ordered.call(k));
        assert_eq!(hashed_calls.get(), ordered_calls.get());
    }
    assert_eq!(hashed_outs, ordered_outs);
    assert_eq!(hashed_outs, vec![2, 2, 2, -7, 57, 57, 2, 9993, -7, 2, 9993, 9993]);
    assert_eq!(hashed_calls.get(), 6);
    assert_eq!(ordered_calls.get(), 6);
}

#[test]
fn separate_wrappers_do_not_share() {
    let calls = Cell::new(0u32);
    let inner = |x: u32| {
        calls.set(calls.get() + 1);
        x + 1
    };
    let mut first = cached(inner);
    let mut second = cached(inner);
    assert_eq!(first.call(10), 11);
    assert_eq!(calls.get(), 1);
    assert_eq!(first.call(10), 11);
    assert_eq!(calls.get(), 1);
    assert_eq!(second.call(10), 11);
    assert_eq!(calls.get(), 2);
    assert_eq!(second.call(10), 11);
    assert_eq!(first.call(10), 11);
    assert_eq!(calls.get(), 2);

    let mut third = cached_ord(inner);
    let mut fourth = cached_ord(inner);
    assert_eq!(third.call(10), 11);
    assert_eq!(calls.get(), 3);
    assert_eq!(fourth.call(10), 11);
    assert_eq!(calls.get(), 4);
    assert_eq!(third.call(10), 11);
    assert_eq!(fourth.call(10), 11);
    assert_eq!(calls.get(), 4);
}

#[test]
fn stored_result_is_not_consumed() {
    let mut wrapped = cached_ord(|n: usize| vec![String::from("x"); n]);
    let first = wrapped.call(3);
    let mut second = wrapped.call(3);
    second.push(String::from("y"));
    let third = wrapped.call(3);
    assert_eq!(first, vec!["x", "x", "x"]);
    assert_eq!(second, vec!["x", "x", "x", "y"]);
    assert_eq!(third, vec!["x", "x", "x"]);
}
