use circuit_sim::plot::PlotData;

#[test]
fn new_plot_has_empty_series() {
    let plot = PlotData::new(4);
    for i in 0..4 {
        assert!(plot.get_series(i).is_empty());
    }
}

#[test]
fn series_keeps_its_newest_values() {
    let mut plot = PlotData::new(3);
    for value in 1..=5 {
        plot.new_data(value, 1);
    }
    assert_eq!(plot.get_series(1), &vec![3, 4, 5]);
    assert!(plot.get_series(0).is_empty());
    assert!(plot.get_series(2).is_empty());
}

#[test]
fn series_fills_up_to_its_capacity() {
    let mut plot = PlotData::new(3);
    plot.new_data(7, 0);
    plot.new_data(8, 0);
    assert_eq!(plot.get_series(0), &vec![7, 8]);
    plot.new_data(9, 0);
    assert_eq!(plot.get_series(0), &vec![7, 8, 9]);
    plot.new_data(10, 0);
    assert_eq!(plot.get_series(0), &vec![8, 9, 10]);
}
