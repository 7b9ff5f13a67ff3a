use flash_test::orbit::{longest_run_among, run_length, Marks};

#[test]
fn run_of_one_is_one() {
    let mut m = Marks::new();
    assert_eq!(run_length(&mut m, 1), 1);
    assert!(m.get(1));
    assert!(!m.get(2));
}

#[test]
fn run_of_zero_is_one() {
    let mut m = Marks::new();
    assert_eq!(run_length(&mut m, 0), 1);
}

#[test]
fn run_of_minus_one_is_two() {
    let mut m = Marks::new();
    assert_eq!(run_length(&mut m, u32::MAX), 2);
    assert!(m.get(1));
    assert!(m.get(u32::MAX));
}

#[test]
fn run_of_two_ends_at_zero() {
    let mut m = Marks::new();
    assert_eq!(run_length(&mut m, 2), 32);
    assert!(m.get(0));
    assert!(m.get(1 << 31));
    assert!(!m.get(1));
}

#[test]
fn run_of_one_plus_two_to_the_24_is_its_order() {
    let a = (1u32 << 24) + 1;
    let mut m = Marks::new();
    assert_eq!(run_length(&mut m, a), 256);
    assert!(m.get(1));
    assert!(m.get(a));
    assert!(m.get(1u32.wrapping_add(255u32 << 24)));
    assert!(!m.get(3));
}

#[test]
fn longest_run_takes_the_last_of_equal_lengths() {
    let runs = vec![(3u32, 8u64), (5, 16), (7, 4), (9, 16), (11, 2)];
    assert_eq!(longest_run_among(&runs), 9);
    let runs = vec![(3u32, 1u64)];
    assert_eq!(longest_run_among(&runs), 3);
    let runs = vec![(3u32, 1073741824u64), (5, 1073741824), (7, 536870912)];
    assert_eq!(longest_run_among(&runs), 5);
}
