use jepa_predict::batch::BatchPredictor;
use jepa_predict::moving_average::MovingAveragePredictor;

#[test]
fn moving_average_window_holds_last_observations() {
    let mut p = MovingAveragePredictor::new(2);
    p.push(vec![0.0f32, 0.0]);
    p.push(vec![2.0, 4.0]);
    assert_eq!(p.window(), &vec![vec![0.0, 0.0], vec![2.0, 4.0]]);
    p.push(vec![6.0, 8.0]);
    assert_eq!(p.window(), &vec![vec![2.0, 4.0], vec![6.0, 8.0]]);
}

#[test]
fn moving_average_window_size_is_at_least_one() {
    let mut p = MovingAveragePredictor::new(0);
    assert!(p.window().is_empty());
    p.push(vec![1.0f32]);
    p.push(vec![3.0]);
    assert_eq!(p.window(), &vec![vec![3.0]]);
}

#[test]
fn default_moving_average_keeps_nothing() {
    let mut p: MovingAveragePredictor<f32> = Default::default();
    p.push(vec![1.0]);
    assert!(p.window().is_empty());
}

#[test]
fn batch_channels_are_independent() {
    let mut bp = BatchPredictor::new(2);
    bp.push("ch1".to_string(), vec![1.0f32]);
    bp.push("ch1".to_string(), vec![3.0]);
    bp.push("ch2".to_string(), vec![10.0]);
    assert_eq!(bp.predictor("ch1").unwrap().window(), &vec![vec![1.0], vec![3.0]]);
    assert_eq!(bp.predictor("ch2").unwrap().window(), &vec![vec![10.0]]);
    assert!(bp.predictor("ch3").is_none());
    bp.push("ch2".to_string(), vec![20.0]);
    bp.push("ch2".to_string(), vec![30.0]);
    assert_eq!(bp.predictor("ch2").unwrap().window(), &vec![vec![20.0], vec![30.0]]);
    assert_eq!(bp.predictor("ch1").unwrap().window(), &vec![vec![1.0], vec![3.0]]);
}

#[test]
fn batch_lists_each_channel_once() {
    let mut bp = BatchPredictor::new(3);
    bp.push("a".to_string(), vec![1.0f32]);
    bp.push("b".to_string(), vec![2.0]);
    bp.push("a".to_string(), vec![3.0]);
    let mut names: Vec<String> = bp.channels().into_iter().cloned().collect();
    names.sort();
    assert_eq!(names, vec!["a".to_string(), "b".to_string()]);
    let empty: BatchPredictor<f32> = BatchPredictor::new(3);
    assert!(empty.channels().is_empty());
}

#[test]
fn batch_with_zero_window_keeps_last_observation() {
    let mut bp: BatchPredictor<f32> = Default::default();
    bp.push("x".to_string(), vec![1.0]);
    bp.push("x".to_string(), vec![2.0]);
    assert_eq!(bp.predictor("x").unwrap().window(), &vec![vec![2.0]]);
}

#[test]
fn cloned_batch_has_same_channels() {
    let mut bp = BatchPredictor::new(2);
    bp.push("a".to_string(), vec![1.0f32]);
    let copy = bp.clone();
    bp.push("b".to_string(), vec![2.0]);
    assert_eq!(copy.channels().len(), 1);
    assert_eq!(copy.predictor("a").unwrap().window(), &vec![vec![1.0]]);
    assert_eq!(bp.channels().len(), 2);
}

#[test]
fn batch_channel_matches_lone_predictor() {
    let pushes: Vec<(&str, Vec<f32>)> = vec![
        ("a", vec![1.0]),
        ("b", vec![9.0]),
        ("a", vec![2.0]),
        ("a", vec![3.0]),
        ("b", vec![8.0]),
        ("a", vec![4.0]),
    ];
    let mut bp = BatchPredictor::new(3);
    let mut lone_a = MovingAveragePredictor::new(3);
    let mut lone_b = MovingAveragePredictor::new(3);
    for (ch, v) in &pushes {
        bp.push(ch.to_string(), v.clone());
        if *ch == "a" {
            lone_a.push(v.clone());
        } else {
            lone_b.push(v.clone());
        }
    }
    assert_eq!(bp.predictor("a").unwrap().window(), lone_a.window());
    assert_eq!(bp.predictor("b").unwrap().window(), lone_b.window());
    assert_eq!(lone_a.window(), &vec![vec![2.0], vec![3.0], vec![4.0]]);
}

#[test]
fn cloned_batch_keeps_observations() {
    let mut bp = BatchPredictor::new(2);
    bp.push("a".to_string(), vec![1.0f32, 2.0]);
    bp.push("a".to_string(), vec![3.0, 4.0]);
    let copy = bp.clone();
    assert_eq!(copy.predictor("a").unwrap().window(), &vec![vec![1.0, 2.0], vec![3.0, 4.0]]);
}
