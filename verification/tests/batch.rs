use perception::{
    batch_shape, latest_timestamp, nearest_order, new_vector_stamp, BatchShape, ID_FORMAT_MASK,
    ID_FORMAT_V4,
};
use uuid::Uuid;

#[test]
fn test_latest_timestamp_of_none_is_zero() {
    assert_eq!(latest_timestamp(&[]), 0);
}

#[test]
fn test_latest_timestamp_is_maximum() {
    assert_eq!(latest_timestamp(&[5, 9, 2]), 9);
    assert_eq!(latest_timestamp(&[0, 0]), 0);
    assert_eq!(latest_timestamp(&[u64::MAX, 3]), u64::MAX);
    assert_eq!(latest_timestamp(&[500_000]), 500_000);
}

#[test]
fn test_vector_stamp() {
    let s = new_vector_stamp(&[3, 11, 7]);
    assert_eq!(s.timestamp, 11);
    assert!(s.room_id.is_empty());
    let e = new_vector_stamp(&[]);
    assert_eq!(e.timestamp, 0);
    assert_ne!(s.id, e.id);
    assert_eq!(s.id & ID_FORMAT_MASK, ID_FORMAT_V4);
    assert_eq!(e.id & ID_FORMAT_MASK, ID_FORMAT_V4);
    let u = Uuid::from_u128(s.id);
    assert_eq!(u.get_version_num(), 4);
    assert_eq!(u.get_variant(), uuid::Variant::RFC4122);
}

#[test]
fn test_batch_shape() {
    assert_eq!(batch_shape(&[]), BatchShape { count: 0, dimension: 0 });
    assert_eq!(batch_shape(&[2, 2]), BatchShape { count: 2, dimension: 2 });
    assert_eq!(batch_shape(&[3, 5, 1]), BatchShape { count: 3, dimension: 3 });
}

fn distance_keys(query: &[f64], vectors: &[Vec<f64>]) -> Vec<u64> {
    vectors
        .iter()
        .map(|v| {
            query
                .iter()
                .zip(v)
                .map(|(x, y)| (x - y).powi(2))
                .sum::<f64>()
                .sqrt()
                .to_bits()
        })
        .collect()
}

#[test]
fn test_nearest_order_scenario() {
    let vectors = vec![vec![10.0, 10.0], vec![1.1, 1.1], vec![5.0, 5.0], vec![1.0, 1.0]];
    let keys = distance_keys(&[1.0, 1.0], &vectors);
    let order = nearest_order(&keys, 2);
    assert_eq!(order, vec![3, 1]);
    assert!((vectors[order[0]][0] - 1.0).abs() < 1e-10);
    assert_eq!(nearest_order(&keys, 4), vec![3, 1, 2, 0]);
}

#[test]
fn test_nearest_order_ties_keep_batch_order() {
    assert_eq!(nearest_order(&[3, 1, 2, 1], 2), vec![1, 3]);
    assert_eq!(nearest_order(&[4, 4, 4], 3), vec![0, 1, 2]);
}

#[test]
fn test_nearest_order_short_batches() {
    assert_eq!(nearest_order(&[], 3), Vec::<usize>::new());
    assert_eq!(nearest_order(&[9, 2], 5), vec![1, 0]);
    assert_eq!(nearest_order(&[9, 2], 0), Vec::<usize>::new());
}

#[test]
fn test_nearest_order_smaller_k_is_prefix() {
    let keys = [7u64, 3, 9, 3, 0, 12, 5];
    let all = nearest_order(&keys, keys.len());
    assert_eq!(all, vec![4, 1, 3, 6, 0, 2, 5]);
    for k in 0..=keys.len() {
        assert_eq!(nearest_order(&keys, k), all[..k].to_vec());
    }
}
