use firstmatch::MatchExt;

#[test]
fn test_match() {
    let data: Vec<i32> = vec![1, 2, 3, 4, 5, 6, 7, 8, 9, 10];
    let result: Vec<i32> = data
        .match_on()
        .arm((|x: &i32| x % 2 == 0) as fn(&i32) -> bool, (|x: i32| x * 2) as fn(i32) -> i32)
        .arm((|x: &i32| x % 2 != 0) as fn(&i32) -> bool, (|x: i32| x * 3) as fn(i32) -> i32)
        .collect();
    assert_eq!(result, vec![3, 4, 9, 8, 15, 12, 21, 16, 27, 20]);
}

#[test]
fn partial_match() {
    let data: Vec<i32> = vec![1, 2, 3, 4, 5, 6, 7, 8, 9, 10];
    let result: Vec<i32> = data
        .match_on()
        .arm(|x: &i32| x % 2 == 0, |x: i32| x * 2)
        .collect();
    assert_eq!(result, vec![4, 8, 12, 16, 20]);
}

#[test]
fn default_test() {
    let data: Vec<i32> = vec![1, 2, 3, 4, 5, 6, 7, 8, 9, 10];
    let result: Vec<i32> = data
        .match_on()
        .arm(|x: &i32| x % 2 == 0, |x: i32| x * 2)
        .default(|| 0)
        .collect();
    assert_eq!(result, vec![0, 4, 0, 8, 0, 12, 0, 16, 0, 20]);
}

#[test]
fn once_test() {
    let data: Vec<i32> = vec![1];
    let result: i32 = data
        .match_on()
        .arm((|x: &i32| x % 2 == 0) as fn(&i32) -> bool, (|x: i32| x * 2) as fn(i32) -> i32)
        .arm((|x: &i32| x % 3 == 0) as fn(&i32) -> bool, (|x: i32| x * 3) as fn(i32) -> i32)
        .default(|| 0)
        .next()
        .unwrap();
    assert_eq!(result, 0);
}

#[test]
fn first_registered_arm_wins() {
    // 6 and 12 are accepted by both arms; only the first-registered one fires.
    let data: Vec<i32> = vec![6, 9, 12];
    let result: Vec<i32> = data
        .match_on()
        .arm((|x: &i32| x % 2 == 0) as fn(&i32) -> bool, (|x: i32| x * 2) as fn(i32) -> i32)
        .arm((|x: &i32| x % 3 == 0) as fn(&i32) -> bool, (|x: i32| x * 3) as fn(i32) -> i32)
        .collect();
    assert_eq!(result, vec![12, 27, 24]);
}

#[test]
fn no_default_next_skips_non_matching_items() {
    let data: Vec<i32> = vec![1, 2, 3, 4, 5];
    let mut m = data.match_on().arm(|x: &i32| x % 2 == 0, |x: i32| x * 2);
    assert_eq!(m.next(), Some(4));
    assert_eq!(m.next(), Some(8));
    assert_eq!(m.next(), None);
}

#[test]
fn with_default_next_consumes_one_item_per_pull() {
    let data: Vec<i32> = vec![1, 2, 3];
    let mut m = data
        .match_on()
        .arm(|x: &i32| x % 2 == 0, |x: i32| x * 2)
        .default(|| -1);
    assert_eq!(m.next(), Some(-1));
    assert_eq!(m.next(), Some(4));
    assert_eq!(m.next(), Some(-1));
    assert_eq!(m.next(), None);
}

#[test]
fn with_default_output_has_source_length() {
    let data: Vec<i32> = vec![7, 14, 21, 28];
    let result: Vec<i32> = data
        .match_on()
        .arm(|x: &i32| x % 2 == 0, |x: i32| x / 2)
        .default(|| 0)
        .collect();
    assert_eq!(result.len(), 4);
    assert_eq!(result, vec![0, 7, 0, 14]);
}

#[test]
fn zero_arms_with_default_is_constant_map() {
    let data: Vec<i32> = vec![10, 20, 30];
    let result: Vec<i32> = data
        .match_on::<i32, fn(&i32) -> bool, fn(i32) -> i32>()
        .default(|| 42)
        .collect();
    assert_eq!(result, vec![42, 42, 42]);
}

#[test]
fn zero_arms_without_default_drains_to_nothing() {
    let data: Vec<i32> = vec![10, 20, 30];
    let mut m = data.match_on::<i32, fn(&i32) -> bool, fn(i32) -> i32>();
    assert_eq!(m.next(), None);
    let data2: Vec<i32> = vec![1, 2];
    let result: Vec<i32> = data2.match_on::<i32, fn(&i32) -> bool, fn(i32) -> i32>().collect();
    assert_eq!(result, Vec::<i32>::new());
}

#[test]
fn empty_source_no_default() {
    let data: Vec<i32> = Vec::new();
    let mut m = data.match_on().arm(|x: &i32| x % 2 == 0, |x: i32| x * 2);
    assert_eq!(m.next(), None);
}

#[test]
fn empty_source_with_default() {
    let data: Vec<i32> = Vec::new();
    let mut m = data
        .match_on()
        .arm(|x: &i32| x % 2 == 0, |x: i32| x * 2)
        .default(|| 0);
    assert_eq!(m.next(), None);
}

#[test]
fn arm_order_not_call_order_decides() {
    // The same two arms in the same relative order, registered through
    // different call chains: one fully before attaching the default, one
    // split around it. Outputs agree on the same input.
    let even: fn(&i32) -> bool = |x: &i32| x % 2 == 0;
    let double: fn(i32) -> i32 = |x: i32| x * 2;
    let big: fn(&i32) -> bool = |x: &i32| *x > 5;
    let negate: fn(i32) -> i32 = |x: i32| -x;
    let data1: Vec<i32> = vec![1, 2, 7, 8];
    let data2: Vec<i32> = vec![1, 2, 7, 8];
    let a: Vec<i32> = data1
        .match_on()
        .arm(even, double)
        .arm(big, negate)
        .default(|| 0)
        .collect();
    let b: Vec<i32> = data2
        .match_on()
        .arm(even, double)
        .default(|| 0)
        .arm(big, negate)
        .collect();
    assert_eq!(a, b);
    assert_eq!(a, vec![0, 4, -7, 16]);
}

#[test]
fn default_invoked_each_time_not_cached() {
    // The default's result is produced anew for every miss.
    let data: Vec<i32> = vec![1, 3, 5];
    let result: Vec<i32> = data
        .match_on()
        .arm(|x: &i32| x % 2 == 0, |x: i32| x * 2)
        .default(|| 9)
        .collect();
    assert_eq!(result, vec![9, 9, 9]);
}
