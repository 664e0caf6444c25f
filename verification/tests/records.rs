use jepa_predict::conservation::ConservationTracker;
use jepa_predict::prediction::Prediction;

#[test]
fn test_prediction_with_source() {
    let p = Prediction { predicted_vector: vec![1.0f32], confidence: 0.5, source_index: None }
        .with_source(3);
    assert_eq!(p.source_index, Some(3));
    assert_eq!(p.predicted_vector, vec![1.0]);
    assert_eq!(p.confidence, 0.5);
}

#[test]
fn with_source_replaces_earlier_source() {
    let p = Prediction { predicted_vector: vec![2.0f32], confidence: 0.1, source_index: Some(1) }
        .with_source(7);
    assert_eq!(p.source_index, Some(7));
}

#[test]
fn tracker_records_in_order_and_resets() {
    let mut ct = ConservationTracker::new(10.0f32);
    ct.record(3.0);
    ct.record(4.0);
    ct.record(3.0);
    assert_eq!(ct.count(), 3);
    assert_eq!(ct.values(), &vec![3.0, 4.0, 3.0]);
    ct.reset();
    assert_eq!(ct.count(), 0);
    assert_eq!(ct.expected_total, 10.0);
}

#[test]
fn default_tracker_is_empty() {
    let ct: ConservationTracker<f32> = Default::default();
    assert_eq!(ct.count(), 0);
    assert_eq!(ct.expected_total, 0.0);
}
