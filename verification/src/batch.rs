use vstd::prelude::*;
use uuid::Uuid;

verus! {

/// The bits of a 128-bit identifier that carry its version and variant.
pub const ID_FORMAT_MASK: u128 = 0x0000_0000_0000_f000_c000_0000_0000_0000;

/// The value of those bits in a random (version 4, RFC variant) identifier.
pub const ID_FORMAT_V4: u128 = 0x0000_0000_0000_4000_8000_0000_0000_0000;

/// `id`, read as a big-endian 128-bit number, is a version-4 identifier of
/// the RFC variant: version nibble 4, variant bits `10`.
pub open spec fn is_v4_id(id: u128) -> bool {
    id & ID_FORMAT_MASK == ID_FORMAT_V4
}

/// The latest of `timestamps`, or 0 when there are none.
pub open spec fn latest_spec(timestamps: Seq<u64>) -> u64
    decreases timestamps.len(),
{
    if timestamps.len() == 0 {
        0
    } else {
        let rest = latest_spec(timestamps.drop_last());
        if timestamps.last() > rest {
            timestamps.last()
        } else {
            rest
        }
    }
}

/// The latest timestamp bounds every timestamp, and is one of them when
/// there is any.
pub proof fn lemma_latest_is_maximum(timestamps: Seq<u64>)
    ensures
        forall|i: int| 0 <= i < timestamps.len() ==> #[trigger] timestamps[i] <= latest_spec(timestamps),
        timestamps.len() == 0 ==> latest_spec(timestamps) == 0,
        timestamps.len() > 0 ==> exists|i: int|
            0 <= i < timestamps.len() && #[trigger] timestamps[i] == latest_spec(timestamps),
    decreases timestamps.len(),
{
    if timestamps.len() > 0 {
        let rest = timestamps.drop_last();
        lemma_latest_is_maximum(rest);
        assert forall|i: int| 0 <= i < timestamps.len() implies #[trigger] timestamps[i]
            <= latest_spec(timestamps) by {
            if i < rest.len() {
                assert(timestamps[i] == rest[i]);
            }
        }
        if timestamps.last() > latest_spec(rest) {
            assert(timestamps[timestamps.len() - 1] == latest_spec(timestamps));
        } else if rest.len() == 0 {
            assert(timestamps[0] == 0);
        } else {
            let k = choose|k: int| 0 <= k < rest.len() && #[trigger] rest[k] == latest_spec(rest);
            assert(timestamps[k] == rest[k]);
        }
    }
}

/// The timestamp of a perception vector: the latest of its readings'
/// timestamps, 0 when it has no readings.
pub fn latest_timestamp(timestamps: &[u64]) -> (t: u64)
    ensures
        t == latest_spec(timestamps@),
        forall|i: int| 0 <= i < timestamps@.len() ==> #[trigger] timestamps@[i] <= t,
        timestamps@.len() == 0 ==> t == 0,
        timestamps@.len() > 0 ==> exists|i: int|
            0 <= i < timestamps@.len() && #[trigger] timestamps@[i] == t,
{
    let mut t: u64 = 0;
    let mut i: usize = 0;
    while i < timestamps.len()
        invariant
            i <= timestamps@.len(),
            t == latest_spec(timestamps@.take(i as int)),
        decreases timestamps@.len() - i,
    {
        proof {
            let next = timestamps@.take(i + 1);
            assert(next.drop_last() =~= timestamps@.take(i as int));
        }
        if timestamps[i] > t {
            t = timestamps[i];
        }
        i = i + 1;
    }
    proof {
        assert(timestamps@.take(i as int) =~= timestamps@);
        lemma_latest_is_maximum(timestamps@);
    }
    t
}

/// Count and dimension of a batch of perception vectors.
#[derive(Debug, Clone, Copy, PartialEq, Eq, Structural)]
pub struct BatchShape {
    pub count: usize,
    pub dimension: usize,
}

/// The shape of a batch whose vectors have the lengths `vector_lens`: how
/// many vectors it holds, and the length of its first vector (0 when empty).
pub fn batch_shape(vector_lens: &[usize]) -> (s: BatchShape)
    ensures
        s.count == vector_lens@.len(),
        s.dimension == (if vector_lens@.len() == 0 { 0 } else { vector_lens@[0] }),
{
    let count = vector_lens.len();
    if count == 0 {
        BatchShape { count: 0, dimension: 0 }
    } else {
        BatchShape { count, dimension: vector_lens[0] }
    }
}

/// What a perception vector carries besides its values and readings.
/// `id` is the vector's identifier as a big-endian 128-bit number.
pub struct VectorStamp {
    pub id: u128,
    pub room_id: String,
    pub timestamp: u64,
}

/// Wraps `Uuid::new_v4`, which draws random bits and then fixes the
/// version nibble to 4 and the variant bits to `10`; the identifier is
/// handed back as its big-endian 128-bit value (`Uuid::as_u128`). The other
/// bits depend on chance, so only the fixed ones are stated.
#[verifier::external_body]
fn fresh_vector_id() -> (id: u128)
    ensures
        is_v4_id(id),
{
    Uuid::new_v4().as_u128()
}

/// The stamp of a vector with identifier `id` encoded from readings with
/// the given timestamps: that identifier unchanged, no room, and the latest
/// timestamp (0 for no readings).
pub fn stamp_with_id(id: u128, timestamps: &[u64]) -> (s: VectorStamp)
    ensures
        s.id == id,
        s.timestamp == latest_spec(timestamps@),
        s.room_id@ == Seq::<char>::empty(),
{
    let timestamp = latest_timestamp(timestamps);
    VectorStamp { id, room_id: String::new(), timestamp }
}

/// The stamp of a vector encoded from readings with the given timestamps:
/// a fresh random version-4 identifier, no room, and the latest timestamp
/// (0 for no readings). The identifier is the one `Uuid::new_v4` drew for
/// this call, handed to `stamp_with_id` unchanged.
pub fn new_vector_stamp(timestamps: &[u64]) -> (s: VectorStamp)
    ensures
        is_v4_id(s.id),
        s.timestamp == latest_spec(timestamps@),
        s.room_id@ == Seq::<char>::empty(),
{
    let id = fresh_vector_id();
    stamp_with_id(id, timestamps)
}

} // verus!
