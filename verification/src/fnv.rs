use vstd::prelude::*;
use vstd::string::StringSliceAdditionalSpecFns;

verus! {

/// FNV-1a 64-bit offset basis: the hash of the empty input.
pub const FNV_OFFSET_BASIS: u64 = 14695981039346656037;

/// FNV-1a 64-bit prime.
pub const FNV_PRIME: u64 = 1099511628211;

/// One FNV-1a round: xor the byte in, then multiply by the prime modulo 2^64.
pub open spec fn fnv1a_step(h: u64, b: u8) -> u64 {
    vstd::wrapping::u64_specs::wrapping_mul(h ^ (b as u64), FNV_PRIME)
}

/// FNV-1a rounds over `bytes`, starting from the state `h`.
pub open spec fn fnv1a_from(h: u64, bytes: Seq<u8>) -> u64
    decreases bytes.len(),
{
    if bytes.len() == 0 {
        h
    } else {
        fnv1a_step(fnv1a_from(h, bytes.drop_last()), bytes.last())
    }
}

/// The 64-bit FNV-1a hash of `bytes`.
pub open spec fn fnv1a(bytes: Seq<u8>) -> u64 {
    fnv1a_from(FNV_OFFSET_BASIS, bytes)
}

/// Hashing a concatenation continues from the hash of the first part:
/// the state after `a` is all that the rounds over `b` depend on.
pub proof fn lemma_fnv1a_concat(h: u64, a: Seq<u8>, b: Seq<u8>)
    ensures
        fnv1a_from(h, a + b) == fnv1a_from(fnv1a_from(h, a), b),
    decreases b.len(),
{
    if b.len() == 0 {
        assert(a + b =~= a);
    } else {
        assert((a + b).drop_last() =~= a + b.drop_last());
        assert((a + b).last() == b.last());
        lemma_fnv1a_concat(h, a, b.drop_last());
    }
}

/// The inverse of the FNV prime modulo 2^64.
const FNV_PRIME_INVERSE: u64 = 14886173955864302971;

/// Multiplying by the FNV prime modulo 2^64 loses nothing: distinct words
/// stay distinct.
proof fn lemma_prime_mul_injective(x: u64, y: u64)
    requires
        x != y,
    ensures
        ((x as int * 1099511628211) % 0x1_0000_0000_0000_0000) != ((y as int * 1099511628211)
            % 0x1_0000_0000_0000_0000),
{
    assert((((x * 1099511628211u64) as u64) * 14886173955864302971u64) as u64 == x) by (bit_vector);
    assert((((y * 1099511628211u64) as u64) * 14886173955864302971u64) as u64 == y) by (bit_vector);
    assert(((x * 1099511628211u64) as u64) as int == (x as int * 1099511628211) % 0x1_0000_0000_0000_0000) by (bit_vector);
    assert(((y * 1099511628211u64) as u64) as int == (y as int * 1099511628211) % 0x1_0000_0000_0000_0000) by (bit_vector);
}

/// One FNV-1a round, written out: the byte is xored into the state and the
/// result is multiplied by 1099511628211 modulo 2^64.
pub proof fn lemma_fnv1a_round(h: u64, b: u8)
    ensures
        fnv1a_from(h, seq![b]) as int == ((h ^ (b as u64)) as int * 1099511628211)
            % 0x1_0000_0000_0000_0000,
{
    let x = h ^ (b as u64);
    assert(seq![b].drop_last() =~= Seq::<u8>::empty());
    assert(seq![b].last() == b);
    assert(fnv1a_from(h, Seq::<u8>::empty()) == h);
    assert(fnv1a_from(h, seq![b]) == fnv1a_step(h, b));
    let v = (x as nat * 1099511628211nat) % 0x1_0000_0000_0000_0000nat;
    assert(v < 0x1_0000_0000_0000_0000nat);
    assert(fnv1a_step(h, b) == v as u64);
    assert((v as u64) as int == v);
}

/// A round separates states: two different states, or two different bytes
/// on the same state, never lead to the same next state.
pub proof fn lemma_fnv1a_step_injective(h1: u64, b1: u8, h2: u64, b2: u8)
    requires
        h1 != h2 || b1 != b2,
        h1 == h2 || b1 == b2,
    ensures
        fnv1a_step(h1, b1) != fnv1a_step(h2, b2),
{
    let x = h1 ^ (b1 as u64);
    let y = h2 ^ (b2 as u64);
    assert(x != y) by (bit_vector)
        requires
            h1 != h2 || b1 != b2,
            h1 == h2 || b1 == b2,
            x == h1 ^ (b1 as u64),
            y == h2 ^ (b2 as u64),
    ;
    lemma_prime_mul_injective(x, y);
}

/// Different states fed the same bytes stay different.
pub proof fn lemma_fnv1a_states_stay_apart(h1: u64, h2: u64, q: Seq<u8>)
    requires
        h1 != h2,
    ensures
        fnv1a_from(h1, q) != fnv1a_from(h2, q),
    decreases q.len(),
{
    if q.len() > 0 {
        lemma_fnv1a_states_stay_apart(h1, h2, q.drop_last());
        lemma_fnv1a_step_injective(fnv1a_from(h1, q.drop_last()), q.last(), fnv1a_from(h2, q.drop_last()), q.last());
    }
}

/// Changing a single byte of the input changes the hash: `p + [x] + q` and
/// `p + [y] + q` hash differently whenever `x != y`.
pub proof fn lemma_fnv1a_single_byte_change(p: Seq<u8>, x: u8, y: u8, q: Seq<u8>)
    requires
        x != y,
    ensures
        fnv1a(p + seq![x] + q) != fnv1a(p + seq![y] + q),
{
    let px = p + seq![x];
    let py = p + seq![y];
    assert(px.drop_last() =~= p);
    assert(py.drop_last() =~= p);
    let hp = fnv1a_from(FNV_OFFSET_BASIS, p);
    lemma_fnv1a_step_injective(hp, x, hp, y);
    lemma_fnv1a_concat(FNV_OFFSET_BASIS, px, q);
    lemma_fnv1a_concat(FNV_OFFSET_BASIS, py, q);
    lemma_fnv1a_states_stay_apart(fnv1a_from(FNV_OFFSET_BASIS, px), fnv1a_from(FNV_OFFSET_BASIS, py), q);
}

/// The 64-bit FNV-1a hash of the UTF-8 bytes of `s`.
pub fn hash_bytes(s: &str) -> (h: u64)
    ensures
        h == fnv1a(s.spec_bytes()),
{
    let bytes = s.as_bytes();
    let mut h: u64 = FNV_OFFSET_BASIS;
    let mut i: usize = 0;
    while i < bytes.len()
        invariant
            i <= bytes@.len(),
            bytes@ == s.spec_bytes(),
            h == fnv1a_from(FNV_OFFSET_BASIS, bytes@.take(i as int)),
        decreases bytes@.len() - i,
    {
        let b: u8 = bytes[i];
        h = (h ^ (b as u64)).wrapping_mul(FNV_PRIME);
        proof {
            let next = bytes@.take(i + 1);
            assert(next.drop_last() =~= bytes@.take(i as int));
            assert(next.last() == b);
        }
        i = i + 1;
    }
    proof {
        assert(bytes@.take(i as int) =~= bytes@);
    }
    h
}

} // verus!
