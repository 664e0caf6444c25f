use jepa_predict::engine::JepaEngine;

#[test]
fn test_jepa_history_management() {
    let mut engine = JepaEngine::with_capacity(3);
    engine.observe(vec![0.0f32]);
    engine.observe(vec![1.0]);
    engine.observe(vec![2.0]);
    engine.observe(vec![3.0]);
    assert_eq!(engine.history_len(), 3);
}

#[test]
fn test_jepa_predict_not_enough_history() {
    let engine: JepaEngine<f32> = JepaEngine::new();
    assert!(engine.last_two().is_none());
}

#[test]
fn last_two_are_the_newest_observations() {
    let mut engine = JepaEngine::new();
    engine.observe(vec![0.0f32, 0.0]);
    assert!(engine.last_two().is_none());
    engine.observe(vec![1.0, 1.0]);
    let (prev, last) = engine.last_two().unwrap();
    assert_eq!(prev, &vec![0.0, 0.0]);
    assert_eq!(last, &vec![1.0, 1.0]);
    engine.observe(vec![2.0, 2.0]);
    let (prev, last) = engine.last_two().unwrap();
    assert_eq!(prev, &vec![1.0, 1.0]);
    assert_eq!(last, &vec![2.0, 2.0]);
}

#[test]
fn history_keeps_the_most_recent_within_capacity() {
    let mut engine = JepaEngine::with_capacity(2);
    for i in 0..5 {
        engine.observe(vec![i as f32]);
        assert!(engine.history_len() <= 2);
    }
    let (prev, last) = engine.last_two().unwrap();
    assert_eq!(prev, &vec![3.0]);
    assert_eq!(last, &vec![4.0]);
}

#[test]
fn new_engine_keeps_ten_observations() {
    let mut engine = JepaEngine::new();
    for i in 0..15 {
        engine.observe(vec![i as f32]);
    }
    assert_eq!(engine.history_len(), 10);
}

#[test]
fn zero_capacity_keeps_nothing() {
    let mut engine: JepaEngine<f32> = JepaEngine::with_capacity(0);
    engine.observe(vec![1.0]);
    assert_eq!(engine.history_len(), 0);
    let mut default_engine: JepaEngine<f32> = Default::default();
    default_engine.observe(vec![1.0]);
    assert_eq!(default_engine.history_len(), 0);
}

#[test]
fn clear_history_keeps_database() {
    let mut engine = JepaEngine::new();
    engine.db_mut().insert("a".to_string(), vec![0.0f32, 0.0]);
    engine.db_mut().insert("b".to_string(), vec![1.0, 1.0]);
    engine.observe(vec![5.0, 5.0]);
    engine.clear_history();
    assert_eq!(engine.history_len(), 0);
    assert_eq!(engine.db().len(), 2);
    assert_eq!(engine.db().get_id(1), Some("b"));
    engine.observe(vec![6.0, 6.0]);
    assert_eq!(engine.history_len(), 1);
}

#[test]
fn predict_from_db_source_is_nearest_entry() {
    // the query [0.9, 0.9] is nearest to entry 1
    let mut engine = JepaEngine::new();
    engine.db_mut().insert("a".to_string(), vec![0.0f32, 0.0]);
    engine.db_mut().insert("b".to_string(), vec![1.0, 1.0]);
    // squared distances 1.62 and 0.02, as order keys
    let keys = vec![162u32, 2];
    assert_eq!(engine.db().nearest_index(2, &keys, u32::MAX), Some(1));
}
