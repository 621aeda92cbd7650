//! Verified core of a perception encoder: turning sensor readings into
//! fixed-length perception vectors.
//!
//! The floating-point arithmetic of the encoder lives outside this crate;
//! what stands here is the integer logic that decides its shape: the FNV-1a
//! hash that seeds the deterministic projections, the mixing table those
//! projections use, the padding to the output dimension, the timestamp a
//! vector carries, the shape of a batch and the nearest-neighbour order.

mod batch;
mod encoder;
mod fnv;
mod method;
mod projection;
mod ranking;

pub use batch::{
    batch_shape, is_v4_id, latest_spec, latest_timestamp, lemma_latest_is_maximum, new_vector_stamp,
    stamp_with_id, BatchShape, VectorStamp, ID_FORMAT_MASK, ID_FORMAT_V4,
};
pub use encoder::PerceptionEncoder;
pub use fnv::{
    fnv1a, fnv1a_from, fnv1a_step, hash_bytes, lemma_fnv1a_concat, lemma_fnv1a_round,
    lemma_fnv1a_single_byte_change, lemma_fnv1a_states_stay_apart, lemma_fnv1a_step_injective,
    FNV_OFFSET_BASIS, FNV_PRIME,
};
pub use method::EncodingMethod;
pub use projection::{
    decimal, decimal_value, digit_char, lemma_decimal_reads_back, lemma_mix_value_closed_form,
    lemma_mix_value_step, lemma_projection_key_reads_back, lemma_projection_row_closed_form, mix_numerator, mix_value, projection_hash, projection_key,
    projection_key_chars, projection_row, projection_row_spec, projection_seed_hash, MIX_MULTIPLIER,
    MIX_RANGE,
};
pub use ranking::{
    is_nearest_order, lemma_nearest_order_by_distance, lemma_nearest_order_prefix, nearest_count, nearest_order, ranks_before,
};
