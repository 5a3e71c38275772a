use moving_median::MovingMedian;

#[test]
fn capacity_one_keeps_the_last_value() {
    let mut filter = MovingMedian::<f64, 1>::new();
    for k in 0..10u8 {
        filter.add_value(f64::from(k));
        assert_eq!(filter.median(), f64::from(k));
    }
}

#[test]
fn ring_wraps_more_than_once() {
    let mut filter = MovingMedian::<f64, 4>::new();
    for k in 1..=10u8 {
        filter.add_value(f64::from(k));
    }
    // 7, 8, 9, 10 are held
    assert_eq!(filter.median(), 8.5);
    filter.add_value(0.0);
    // 8, 9, 10, 0
    assert_eq!(filter.median(), 8.5);
    filter.add_value(0.0);
    // 9, 10, 0, 0
    assert_eq!(filter.median(), 4.5);
}

#[test]
fn equal_values_are_counted_each() {
    let mut filter = MovingMedian::<f64, 5>::new();
    filter.add_value(2.0);
    filter.add_value(2.0);
    filter.add_value(1.0);
    assert_eq!(filter.median(), 2.0);
    filter.add_value(1.0);
    assert_eq!(filter.median(), 1.5);
    filter.add_value(1.0);
    assert_eq!(filter.median(), 1.0);
}

#[test]
fn single_precision_samples() {
    let mut filter = MovingMedian::<f32, 3>::new();
    filter.add_value(42.0);
    filter.add_value(43.0);
    assert_eq!(filter.median(), 42.5f32);
    filter.add_value(41.0);
    assert_eq!(filter.median(), 42.0f32);
}

#[test]
fn unsigned_mean_is_cut_off() {
    let mut filter = MovingMedian::<u32, 4>::new();
    filter.add_value(2);
    filter.add_value(1);
    assert_eq!(filter.median(), 1);
    filter.add_value(7);
    assert_eq!(filter.median(), 2);
    filter.add_value(4);
    // 1, 2, 4, 7
    assert_eq!(filter.median(), 3);
}

#[test]
fn signed_mean_is_cut_off_towards_zero() {
    let mut filter = MovingMedian::<i32, 2>::new();
    filter.add_value(-3);
    filter.add_value(0);
    assert_eq!(filter.median(), -1);
    filter.add_value(-4);
    // 0, -4
    assert_eq!(filter.median(), -2);
    filter.add_value(5);
    // -4, 5
    assert_eq!(filter.median(), 0);
}

#[test]
fn infinite_samples_are_taken_as_they_are() {
    let mut filter = MovingMedian::<f64, 3>::new();
    filter.add_value(f64::INFINITY);
    assert_eq!(filter.median(), f64::INFINITY);
    filter.add_value(1.0);
    assert_eq!(filter.median(), f64::INFINITY);
    filter.add_value(f64::NEG_INFINITY);
    assert_eq!(filter.median(), 1.0);
}

#[test]
fn nan_is_taken_as_it_is() {
    let mut filter = MovingMedian::<f64, 3>::new();
    filter.add_value(f64::NAN);
    assert!(filter.median().is_nan());
    filter.add_value(1.0);
    assert!(filter.median().is_nan());
    filter.clear();
    assert_eq!(filter.median(), 0.0);
    filter.add_value(2.0);
    assert_eq!(filter.median(), 2.0);
}

#[test]
fn nan_can_make_the_median_depend_on_arrival() {
    // a sample that does not compare stays where the sort finds it
    let mut first = MovingMedian::<f64, 3>::new();
    first.add_value(f64::NAN);
    first.add_value(1.0);
    first.add_value(2.0);
    assert_eq!(first.median(), 1.0);

    let mut second = MovingMedian::<f64, 3>::new();
    second.add_value(1.0);
    second.add_value(f64::NAN);
    second.add_value(2.0);
    assert!(second.median().is_nan());
}

#[test]
fn zero_is_a_sample_like_any_other() {
    let mut filter = MovingMedian::<f64, 3>::new();
    filter.add_value(0.0);
    assert_eq!(filter.median(), 0.0);
    filter.add_value(-4.0);
    assert_eq!(filter.median(), -2.0);
    filter.add_value(-6.0);
    assert_eq!(filter.median(), -4.0);
}
