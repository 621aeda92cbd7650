use perception::{EncodingMethod, PerceptionEncoder};

#[test]
fn test_encoder_new_keeps_fields() {
    let enc = PerceptionEncoder::new(3, 6, EncodingMethod::Normalized);
    assert_eq!(enc.input_dim, 3);
    assert_eq!(enc.output_dim, 6);
    assert_eq!(enc.method, EncodingMethod::Normalized);
}

#[test]
fn test_method_seeds() {
    assert_eq!(EncodingMethod::Raw.projection_seed(), None);
    assert_eq!(EncodingMethod::Normalized.projection_seed(), None);
    assert_eq!(EncodingMethod::HashProjection.projection_seed(), Some("hash"));
    assert_eq!(EncodingMethod::RandomProjection.projection_seed(), Some("random"));
    assert_eq!(EncodingMethod::LearnedProjection.projection_seed(), Some("learned"));
}

#[test]
fn test_method_normalizes() {
    assert!(EncodingMethod::Normalized.normalizes());
    assert!(!EncodingMethod::Raw.normalizes());
    assert!(!EncodingMethod::HashProjection.normalizes());
    assert!(!EncodingMethod::RandomProjection.normalizes());
    assert!(!EncodingMethod::LearnedProjection.normalizes());
}

#[test]
fn test_resize_pads_with_fill() {
    let enc = PerceptionEncoder::new(3, 6, EncodingMethod::Raw);
    let v = enc.resize(vec![20.0f64, 1.0, 0.0], 0.0);
    assert_eq!(v, vec![20.0, 1.0, 0.0, 0.0, 0.0, 0.0]);
}

#[test]
fn test_resize_cuts_longer_input() {
    let enc = PerceptionEncoder::new(3, 3, EncodingMethod::Raw);
    let v = enc.resize(vec![1e15f64, 1.0, 0.0, 7.0, 8.0, 9.0], 0.0);
    assert_eq!(v, vec![1e15, 1.0, 0.0]);
}

#[test]
fn test_resize_to_large_dimension() {
    let enc = PerceptionEncoder::new(3, 100, EncodingMethod::Raw);
    let v = enc.resize(vec![1u64, 2, 3], 0);
    assert_eq!(v.len(), 100);
    assert_eq!(&v[..3], &[1, 2, 3]);
    assert!(v[3..].iter().all(|&x| x == 0));
}

#[test]
fn test_resize_of_empty_is_all_fill() {
    let enc = PerceptionEncoder::new(3, 6, EncodingMethod::Raw);
    let v: Vec<f64> = enc.resize(Vec::new(), 0.0);
    assert_eq!(v.len(), 6);
    assert!(v.iter().all(|&x| x == 0.0));
}
