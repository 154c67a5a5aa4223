use raytracer_core::order::{nearest_positive, stable_order};
use raytracer_core::text::remove_suffix;

/// Key under which integers compare as `f64::total_cmp` compares the floats.
fn key(t: f64) -> i64 {
    let bits = t.to_bits() as i64;
    bits ^ ((((bits >> 63) as u64) >> 1) as i64)
}

fn keys(ts: &[f64]) -> Vec<i64> {
    ts.iter().map(|t| key(*t)).collect()
}

#[test]
fn intersections_hit_1() {
    assert_eq!(nearest_positive(&keys(&[1.0, 2.0])), Some(0));
}

#[test]
fn intersections_hit_2() {
    assert_eq!(nearest_positive(&keys(&[-1.0, 1.0])), Some(1));
}

#[test]
fn intersections_hit_3() {
    assert_eq!(nearest_positive(&keys(&[-2.0, -1.0])), None);
}

#[test]
fn intersections_hit_first_nonnegative() {
    assert_eq!(nearest_positive(&keys(&[5.0, 7.0, -3.0, 2.0])), Some(3));
}

#[test]
fn hit_skips_zero_and_takes_first_of_equals() {
    assert_eq!(nearest_positive(&keys(&[0.0, -0.0, 4.0, 3.0, 3.0])), Some(3));
    assert_eq!(nearest_positive(&vec![]), None);
    assert_eq!(nearest_positive(&vec![0, -5, i64::MIN]), None);
}

#[test]
fn sort_is_stable_and_ascending() {
    let ts = [4.0, -1.0, 6.0, 4.0, 0.5, -1.0];
    assert_eq!(stable_order(&keys(&ts)), vec![1, 5, 4, 0, 3, 2]);
    assert_eq!(stable_order(&vec![]), Vec::<usize>::new());
    assert_eq!(stable_order(&vec![3, 3, 3]), vec![0, 1, 2]);
    assert_eq!(stable_order(&vec![i64::MAX, i64::MIN, 0]), vec![1, 2, 0]);
}

#[test]
fn remove_suffix_once() {
    assert_eq!(remove_suffix("1 2 3 ".to_string(), " "), "1 2 3");
    assert_eq!(remove_suffix("1 2 3  ".to_string(), " "), "1 2 3 ");
    assert_eq!(remove_suffix("abc".to_string(), "x"), "abc");
    assert_eq!(remove_suffix("abc".to_string(), "abc"), "");
    assert_eq!(remove_suffix("bc".to_string(), "abc"), "bc");
    assert_eq!(remove_suffix("héé".to_string(), "é"), "hé");
    assert_eq!(remove_suffix("abc".to_string(), ""), "abc");
}
