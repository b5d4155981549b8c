use mongobar::median::StreamingMedian;

#[test]
fn test_streaming_median() {
    let mut sm = StreamingMedian::new();
    sm.add(1);
    sm.add(2);
    sm.add(3);
    sm.add(4);
    sm.add(5);
    sm.add(6);
    sm.add(7);
    sm.add(8);
    sm.add(9);
    sm.add(10);
    assert_eq!(sm.median(), 5);
}

#[test]
fn median_of_empty_estimator_is_zero() {
    let sm = StreamingMedian::new();
    assert_eq!(sm.median(), 0);
}

#[test]
fn median_of_odd_ascending_run_is_ceiling_half() {
    let mut sm = StreamingMedian::new();
    for v in 1..=7 {
        sm.add(v);
    }
    assert_eq!(sm.median(), 4);
}

#[test]
fn median_tracks_unordered_inputs() {
    let mut sm = StreamingMedian::new();
    sm.add(50);
    sm.add(10);
    sm.add(40);
    assert_eq!(sm.median(), 40);
    sm.add(20);
    assert_eq!(sm.median(), 30);
}
