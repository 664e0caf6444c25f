use jepa_predict::vector_db::VectorDb;

fn db_of(entries: &[(&str, Vec<f32>)]) -> VectorDb<f32> {
    let mut db = VectorDb::new();
    for (id, v) in entries {
        db.insert(id.to_string(), v.clone());
    }
    db
}

#[test]
fn test_vector_db_insert_and_get() {
    let mut db = VectorDb::new();
    db.insert("a".to_string(), vec![1.0f32, 2.0, 3.0]);
    assert_eq!(db.len(), 1);
    assert_eq!(db.get(0), Some(&vec![1.0, 2.0, 3.0]));
    assert_eq!(db.get_id(0), Some("a"));
}

#[test]
fn test_vector_db_clear() {
    let mut db = VectorDb::new();
    db.insert("a".to_string(), vec![1.0f32]);
    db.clear();
    assert!(db.is_empty());
}

#[test]
fn get_out_of_range_is_none() {
    let db = db_of(&[("a", vec![1.0]), ("b", vec![2.0])]);
    assert_eq!(db.get(2), None);
    assert_eq!(db.get_id(2), None);
    assert_eq!(db.get(1), Some(&vec![2.0]));
    assert_eq!(db.get_id(1), Some("b"));
}

#[test]
fn default_db_is_empty() {
    let db: VectorDb<f32> = Default::default();
    assert!(db.is_empty());
    assert_eq!(db.len(), 0);
}

#[test]
fn insert_keeps_order_and_clear_empties() {
    let mut db = db_of(&[("x", vec![0.0]), ("y", vec![1.0, 1.0])]);
    assert_eq!(db.len(), 2);
    assert!(!db.is_empty());
    assert_eq!(db.get_id(0), Some("x"));
    assert_eq!(db.get(1), Some(&vec![1.0, 1.0]));
    db.clear();
    assert_eq!(db.len(), 0);
    assert_eq!(db.get(0), None);
}

#[test]
fn nearest_picks_smallest_key_of_matching_length() {
    let db = db_of(&[("a", vec![0.0, 0.0]), ("b", vec![10.0, 0.0]), ("c", vec![5.0])]);
    // keys stand for distances 1, 9 and 0; the third vector has another length
    let keys = vec![10u32, 90, 0];
    assert_eq!(db.nearest_index(2, &keys, u32::MAX), Some(0));
    assert_eq!(db.nearest_index(1, &keys, u32::MAX), Some(2));
    assert_eq!(db.nearest_index(3, &keys, u32::MAX), None);
}

#[test]
fn nearest_first_of_equal_keys_wins() {
    let db = db_of(&[("a", vec![1.0]), ("b", vec![2.0]), ("c", vec![3.0])]);
    let keys = vec![7u32, 3, 3];
    assert_eq!(db.nearest_index(1, &keys, u32::MAX), Some(1));
}

#[test]
fn nearest_ignores_keys_not_below_bound() {
    let db = db_of(&[("a", vec![1.0]), ("b", vec![2.0])]);
    let keys = vec![50u32, 20];
    assert_eq!(db.nearest_index(1, &keys, 20), None);
    assert_eq!(db.nearest_index(1, &keys, 21), Some(1));
    assert_eq!(db.nearest_index(1, &keys, 60), Some(1));
}

#[test]
fn nearest_on_empty_db_is_none() {
    let db: VectorDb<f32> = VectorDb::new();
    assert_eq!(db.nearest_index(2, &vec![], u32::MAX), None);
}

#[test]
fn knn_orders_by_key_then_position() {
    // distances 0.5, 0.4 and 9.5 from the query [0.5, 0.0]
    let db = db_of(&[("a", vec![0.0, 0.0]), ("b", vec![0.9, 0.0]), ("c", vec![10.0, 0.0])]);
    let keys = vec![5u32, 4, 95];
    let knn = db.knn_indices(2, &keys, 2);
    assert_eq!(knn.len(), 2);
    assert_eq!(knn[0], 1);
    assert_eq!(knn, vec![1, 0]);
}

#[test]
fn knn_skips_other_lengths_and_keeps_ties_in_order() {
    let db = db_of(&[
        ("a", vec![1.0]),
        ("b", vec![1.0, 2.0]),
        ("c", vec![2.0]),
        ("d", vec![3.0]),
        ("e", vec![4.0]),
    ]);
    let keys = vec![3u32, 0, 1, 3, 2];
    assert_eq!(db.knn_indices(1, &keys, 10), vec![2, 4, 0, 3]);
    assert_eq!(db.knn_indices(1, &keys, 3), vec![2, 4, 0]);
    assert_eq!(db.knn_indices(1, &keys, 0), Vec::<usize>::new());
    assert_eq!(db.knn_indices(2, &keys, 3), vec![1]);
    assert_eq!(db.knn_indices(7, &keys, 3), Vec::<usize>::new());
}

#[test]
fn knn_head_agrees_with_nearest() {
    let db = db_of(&[("a", vec![1.0]), ("b", vec![2.0]), ("c", vec![3.0])]);
    let keys = vec![9u32, 4, 4];
    let head = db.knn_indices(1, &keys, 1);
    assert_eq!(head, vec![1]);
    assert_eq!(db.nearest_index(1, &keys, u32::MAX), Some(head[0]));
    // a head whose key is not below the bound is no nearest neighbour
    assert_eq!(db.nearest_index(1, &keys, 4), None);
}
