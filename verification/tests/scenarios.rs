use moving_median::MovingMedian;

#[test]
fn median_is_zero_when_no_values_added() {
    let filter = MovingMedian::<f64, 3>::new();
    assert_eq!(filter.median(), 0.0);
}

#[test]
fn median_is_value_when_one_value_added() {
    let mut filter = MovingMedian::<f64, 3>::new();
    filter.add_value(42.0);
    assert_eq!(filter.median(), 42.0);
}

#[test]
fn median_is_average_of_two_values_when_two_values_added() {
    let mut filter = MovingMedian::<f64, 2>::new();
    filter.add_value(42.0);
    filter.add_value(43.0);
    assert_eq!(filter.median(), 42.5);
}

#[test]
fn median_is_middle_value_when_three_values_added() {
    let mut filter = MovingMedian::<f64, 3>::new();
    filter.add_value(42.0);
    filter.add_value(43.0);
    filter.add_value(41.0);
    assert_eq!(filter.median(), 42.0);
}

#[test]
fn median_is_average_of_two_middle_values_when_four_values_added() {
    let mut filter = MovingMedian::<f64, 4>::new();
    filter.add_value(42.0);
    filter.add_value(43.0);
    filter.add_value(41.0);
    filter.add_value(44.0);
    assert_eq!(filter.median(), 42.5);
}

#[test]
fn median_is_midlle_value_of_n_values_when_more_than_n_values_added() {
    let mut filter = MovingMedian::<f64, 3>::new();
    filter.add_value(42.0); // should be pushed out
    filter.add_value(44.0);
    filter.add_value(43.0); // should be the median
    filter.add_value(41.0);
    assert_eq!(filter.median(), 43.0);
}

#[test]
fn median_is_zero_when_cleared() {
    let mut filter = MovingMedian::<f64, 3>::new();
    filter.add_value(42.0);
    filter.add_value(43.0);
    filter.add_value(41.0);
    filter.clear();
    assert_eq!(filter.median(), 0.0);
}
