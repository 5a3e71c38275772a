use moving_median::MovingMedian;

/// The median of `values` as a plain sort gives it.
fn median_by_sorting(values: &[f64]) -> f64 {
    let mut sorted: Vec<f64> = values.to_vec();
    sorted.sort_by(|a, b| a.partial_cmp(b).unwrap());
    let n: usize = sorted.len();
    if n == 0 {
        0.0
    } else if n % 2 == 1 {
        sorted[n / 2]
    } else {
        (sorted[n / 2 - 1] + sorted[n / 2]) / 2.0
    }
}

#[test]
fn new_filter_reports_zero_at_every_capacity() {
    assert_eq!(MovingMedian::<f64, 1>::new().median(), 0.0);
    assert_eq!(MovingMedian::<f64, 2>::new().median(), 0.0);
    assert_eq!(MovingMedian::<f64, 7>::new().median(), 0.0);
    assert_eq!(MovingMedian::<f32, 4>::new().median(), 0.0);
    assert_eq!(MovingMedian::<u32, 4>::new().median(), 0);
    assert_eq!(MovingMedian::<i64, 4>::new().median(), 0);
}

#[test]
fn one_value_is_its_own_median_at_every_capacity() {
    let mut one = MovingMedian::<f64, 1>::new();
    one.add_value(-7.25);
    assert_eq!(one.median(), -7.25);

    let mut two = MovingMedian::<f64, 2>::new();
    two.add_value(-7.25);
    assert_eq!(two.median(), -7.25);

    let mut many = MovingMedian::<f64, 16>::new();
    many.add_value(-7.25);
    assert_eq!(many.median(), -7.25);
}

#[test]
fn two_values_give_their_mean_in_either_order() {
    let mut up = MovingMedian::<f64, 2>::new();
    up.add_value(1.0);
    up.add_value(4.0);
    assert_eq!(up.median(), 2.5);

    let mut down = MovingMedian::<f64, 2>::new();
    down.add_value(4.0);
    down.add_value(1.0);
    assert_eq!(down.median(), 2.5);

    let mut roomy = MovingMedian::<f64, 5>::new();
    roomy.add_value(4.0);
    roomy.add_value(1.0);
    assert_eq!(roomy.median(), 2.5);
}

#[test]
fn median_does_not_depend_on_arrival_order() {
    let orders: [[f64; 5]; 6] = [
        [1.0, 2.0, 3.0, 4.0, 5.0],
        [5.0, 4.0, 3.0, 2.0, 1.0],
        [3.0, 1.0, 5.0, 2.0, 4.0],
        [2.0, 5.0, 1.0, 4.0, 3.0],
        [4.0, 3.0, 2.0, 1.0, 5.0],
        [5.0, 1.0, 4.0, 2.0, 3.0],
    ];
    for order in orders.iter() {
        let mut filter = MovingMedian::<f64, 5>::new();
        for value in order.iter() {
            filter.add_value(*value);
        }
        assert_eq!(filter.median(), 3.0);
    }
}

#[test]
fn median_follows_a_plain_sort_while_the_filter_fills() {
    let values: [f64; 6] = [9.5, -1.0, 4.0, 4.0, 12.0, 0.5];
    let mut filter = MovingMedian::<f64, 6>::new();
    for k in 0..values.len() {
        filter.add_value(values[k]);
        assert_eq!(filter.median(), median_by_sorting(&values[..k + 1]));
    }
}

#[test]
fn only_the_newest_values_count_once_the_filter_is_full() {
    let values: [f64; 10] = [100.0, -50.0, 3.0, 8.0, 1.0, 9.0, 2.0, 7.0, 7.5, 6.0];
    let mut filter = MovingMedian::<f64, 4>::new();
    for k in 0..values.len() {
        filter.add_value(values[k]);
        let from: usize = if k + 1 > 4 { k + 1 - 4 } else { 0 };
        assert_eq!(filter.median(), median_by_sorting(&values[from..k + 1]));
    }
    // the last four are 2, 7, 7.5, 6
    assert_eq!(filter.median(), 6.5);
}

#[test]
fn values_that_left_the_window_have_no_say() {
    let mut filter = MovingMedian::<f64, 3>::new();
    filter.add_value(1000.0);
    filter.add_value(2000.0);
    filter.add_value(3000.0);
    filter.add_value(1.0);
    filter.add_value(2.0);
    filter.add_value(3.0);
    assert_eq!(filter.median(), 2.0);
}

#[test]
fn cleared_filter_behaves_as_a_new_one() {
    let mut cleared = MovingMedian::<f64, 3>::new();
    cleared.add_value(11.0);
    cleared.add_value(12.0);
    cleared.add_value(13.0);
    cleared.add_value(14.0);
    cleared.clear();
    let mut made = MovingMedian::<f64, 3>::new();
    assert_eq!(cleared.median(), 0.0);
    assert_eq!(cleared.median(), made.median());
    let later: [f64; 7] = [5.0, -2.0, 8.0, 8.0, 1.5, 0.0, 42.0];
    for value in later.iter() {
        cleared.add_value(*value);
        made.add_value(*value);
        assert_eq!(cleared.median(), made.median());
    }
    assert_eq!(cleared.median(), 1.5);
}

#[test]
fn slots_without_a_sample_have_no_say_after_clear() {
    let mut filter = MovingMedian::<f64, 3>::new();
    filter.add_value(9.0);
    filter.add_value(9.0);
    filter.add_value(9.0);
    filter.clear();
    filter.add_value(-5.0);
    assert_eq!(filter.median(), -5.0);
    filter.add_value(-3.0);
    assert_eq!(filter.median(), -4.0);
}

#[test]
fn asking_again_gives_the_same_median_and_changes_nothing() {
    let mut filter = MovingMedian::<f64, 3>::new();
    filter.add_value(42.0);
    filter.add_value(44.0);
    filter.add_value(43.0);
    filter.add_value(41.0);
    let first: f64 = filter.median();
    for _ in 0..5 {
        assert_eq!(filter.median(), first);
    }
    assert_eq!(first, 43.0);
    // the next value takes the place of 44, the oldest one held
    filter.add_value(40.0);
    assert_eq!(filter.median(), 41.0);
    // and the one after that the place of 43
    filter.add_value(39.0);
    assert_eq!(filter.median(), 40.0);
}
