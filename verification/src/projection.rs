use vstd::prelude::*;
use vstd::utf8::encode_utf8;
use vstd::string::StringSliceAdditionalSpecFns;

use crate::fnv::{fnv1a, hash_bytes};

verus! {

/// The multiplier that spreads output positions over the mixing range.
pub const MIX_MULTIPLIER: u64 = 2654435761;

/// The number of distinct mixing values: a mix is read as `n / MIX_RANGE - 0.5`.
pub const MIX_RANGE: u64 = 1000000;

/// The ASCII character of a decimal digit.
pub open spec fn digit_char(d: nat) -> char {
    (48 + d) as char
}

/// The decimal notation of `n`, most significant digit first, without leading zeros.
pub open spec fn decimal(n: nat) -> Seq<char>
    decreases n,
{
    if n < 10 {
        seq![digit_char(n)]
    } else {
        decimal(n / 10).push(digit_char(n % 10))
    }
}

/// The number a string of decimal digits denotes, most significant first.
pub open spec fn decimal_value(digits: Seq<char>) -> int
    decreases digits.len(),
{
    if digits.len() == 0 {
        0
    } else {
        decimal_value(digits.drop_last()) * 10 + (digits.last() as int - 48)
    }
}

/// `decimal(n)` is the base-10 notation of `n`: it is made of the digits
/// '0' to '9' only, starts with a nonzero digit unless `n` is 0, has at most
/// one digit more than `n / 10` has, and reads back as `n`.
pub proof fn lemma_decimal_reads_back(n: nat)
    ensures
        decimal(n).len() >= 1,
        forall|i: int| 0 <= i < decimal(n).len() ==> '0' <= #[trigger] decimal(n)[i] <= '9',
        n >= 10 ==> decimal(n)[0] != '0',
        n < 10 ==> decimal(n).len() == 1,
        decimal_value(decimal(n)) == n,
    decreases n,
{
    if n < 10 {
        assert(decimal(n) =~= seq![digit_char(n)]);
        assert(decimal(n).drop_last() =~= Seq::<char>::empty());
        assert(digit_char(n) as int == 48 + n);
        assert(decimal_value(Seq::<char>::empty()) == 0);
    } else {
        lemma_decimal_reads_back(n / 10);
        let d = decimal(n);
        assert(d.drop_last() =~= decimal(n / 10));
        assert(d.last() == digit_char(n % 10));
        assert(digit_char(n % 10) as int == 48 + n % 10);
        assert(forall|i: int| 0 <= i < d.len() - 1 ==> d[i] == decimal(n / 10)[i]);
        if n / 10 < 10 {
            assert(decimal(n / 10).len() == 1);
            assert(d[0] == digit_char(n / 10));
        }
    }
}

/// The text that seeds the projection weights of input position `index`:
/// `"{seed}-{index}-{output_dim}"`.
pub open spec fn projection_key_chars(seed: Seq<char>, index: nat, output_dim: nat) -> Seq<char> {
    seed + seq!['-'] + decimal(index) + seq!['-'] + decimal(output_dim)
}

/// A projection key reads back as what it was made from: the seed, a '-',
/// a run of digits that reads as `index`, a '-', and a run of digits up to
/// the end that reads as `output_dim`. The digit runs hold no '-', so the
/// two separators after the seed are the only places the key splits.
pub proof fn lemma_projection_key_reads_back(seed: Seq<char>, index: nat, output_dim: nat)
    ensures
        ({
            let k = projection_key_chars(seed, index, output_dim);
            let a = seed.len() as int;
            let b = a + 1 + decimal(index).len();
            &&& a + 1 < b < k.len() - 1
            &&& k.subrange(0, a) == seed
            &&& k[a] == '-'
            &&& k[b] == '-'
            &&& forall|t: int| a < t < b ==> '0' <= #[trigger] k[t] <= '9'
            &&& forall|t: int| b < t < k.len() ==> '0' <= #[trigger] k[t] <= '9'
            &&& decimal_value(k.subrange(a + 1, b)) == index
            &&& decimal_value(k.subrange(b + 1, k.len() as int)) == output_dim
        }),
{
    lemma_decimal_reads_back(index);
    lemma_decimal_reads_back(output_dim);
    let di = decimal(index);
    let dd = decimal(output_dim);
    let k = projection_key_chars(seed, index, output_dim);
    let a = seed.len() as int;
    let b = a + 1 + di.len();
    assert(k.len() == a + 1 + di.len() + 1 + dd.len());
    assert(k.subrange(0, a) =~= seed);
    assert(k.subrange(a + 1, b) =~= di);
    assert(k.subrange(b + 1, k.len() as int) =~= dd);
    assert forall|t: int| a < t < b implies '0' <= #[trigger] k[t] <= '9' by {
        assert(k[t] == di[t - a - 1]);
    }
    assert forall|t: int| b < t < k.len() implies '0' <= #[trigger] k[t] <= '9' by {
        assert(k[t] == dd[t - b - 1]);
    }
}

/// The hash that seeds the projection weights of input position `index`.
pub open spec fn projection_seed_hash(seed: Seq<char>, index: nat, output_dim: nat) -> u64 {
    fnv1a(encode_utf8(projection_key_chars(seed, index, output_dim)))
}

/// The mixing value of output position `j` for an input position whose seed hash is `h`.
pub open spec fn mix_value(h: u64, j: nat) -> u64 {
    (vstd::wrapping::u64_specs::wrapping_add(
        h,
        vstd::wrapping::u64_specs::wrapping_mul(j as u64, MIX_MULTIPLIER),
    ) % MIX_RANGE) as u64
}

/// The mixing value of output position `j` is `h + j * 2654435761`, taken
/// modulo 2^64 and then modulo 1000000, for every position `j`.
pub proof fn lemma_mix_value_closed_form(h: u64, j: nat)
    requires
        j < 0x1_0000_0000_0000_0000,
    ensures
        mix_value(h, j) as int == ((h as int + j as int * 2654435761) % 0x1_0000_0000_0000_0000)
            % 1000000,
{
    let m: int = 0x1_0000_0000_0000_0000;
    let w: int = (j as int * 2654435761) % m;
    assert((j as u64) as int == j as int);
    assert(vstd::wrapping::u64_specs::wrapping_mul(j as u64, MIX_MULTIPLIER) as int == w);
    let sum: int = h as int + w;
    assert(vstd::wrapping::u64_specs::wrapping_add(h, vstd::wrapping::u64_specs::wrapping_mul(j as u64, MIX_MULTIPLIER)) as int == sum % m) by {
        if sum >= m {
            assert(sum - m < m);
            vstd::arithmetic::div_mod::lemma_fundamental_div_mod(sum, m);
            vstd::arithmetic::div_mod::lemma_mod_sub_multiples_vanish(sum, m);
            vstd::arithmetic::div_mod::lemma_small_mod((sum - m) as nat, m as nat);
        } else {
            vstd::arithmetic::div_mod::lemma_small_mod(sum as nat, m as nat);
        }
    }
    vstd::arithmetic::div_mod::lemma_add_mod_noop(h as int, j as int * 2654435761, m);
    vstd::arithmetic::div_mod::lemma_small_mod(h as nat, m as nat);
    vstd::arithmetic::div_mod::lemma_mod_twice(j as int * 2654435761, m);
    assert((h as int + w) % m == (h as int + j as int * 2654435761) % m);
}

/// Neighbouring output positions are 2654435761 apart before the reductions:
/// while `h + (j + 1) * 2654435761` stays below 2^64, the mixing value of
/// position `j + 1` is that of position `j` plus 435761, modulo 1000000.
pub proof fn lemma_mix_value_step(h: u64, j: nat)
    requires
        h as int + (j + 1) * 2654435761 < 0x1_0000_0000_0000_0000,
    ensures
        mix_value(h, j + 1) as int == (mix_value(h, j) as int + 435761) % 1000000,
{
    lemma_mix_value_closed_form(h, j);
    lemma_mix_value_closed_form(h, j + 1);
    let a: int = h as int + j as int * 2654435761;
    assert(a + 2654435761 == h as int + (j + 1) * 2654435761) by (nonlinear_arith)
        requires
            a == h as int + j as int * 2654435761,
    ;
    vstd::arithmetic::div_mod::lemma_small_mod(a as nat, 0x1_0000_0000_0000_0000nat);
    vstd::arithmetic::div_mod::lemma_small_mod((a + 2654435761) as nat, 0x1_0000_0000_0000_0000nat);
    vstd::arithmetic::div_mod::lemma_add_mod_noop(a, 2654435761, 1000000);
    vstd::arithmetic::div_mod::lemma_add_mod_noop(a % 1000000, 435761, 1000000);
    vstd::arithmetic::div_mod::lemma_mod_twice(a, 1000000);
    assert(2654435761int % 1000000 == 435761);
    assert(435761int % 1000000 == 435761);
}

/// The mixing values of all `output_dim` output positions for input position `index`.
pub open spec fn projection_row_spec(seed: Seq<char>, index: nat, output_dim: nat) -> Seq<u64> {
    Seq::new(output_dim, |j: int| mix_value(projection_seed_hash(seed, index, output_dim), j as nat))
}

/// A projection row has one entry per output position, and entry `j` is
/// `h + j * 2654435761` modulo 2^64 and then modulo 1000000, where `h` is the
/// seed hash of the input position.
pub proof fn lemma_projection_row_closed_form(seed: Seq<char>, index: nat, output_dim: nat, j: int)
    requires
        0 <= j < output_dim,
        output_dim <= 0x1_0000_0000_0000_0000,
    ensures
        projection_row_spec(seed, index, output_dim).len() == output_dim,
        projection_row_spec(seed, index, output_dim)[j] as int == ((projection_seed_hash(
            seed,
            index,
            output_dim,
        ) as int + j * 2654435761) % 0x1_0000_0000_0000_0000) % 1000000,
{
    lemma_mix_value_closed_form(projection_seed_hash(seed, index, output_dim), j as nat);
}

/// Wraps `String::push`, which appends one character at the end of the string.
#[verifier::external_body]
fn push_char(s: &mut String, c: char)
    ensures
        final(s)@ == old(s)@.push(c),
{
    s.push(c);
}

/// Appends the decimal notation of `n` to `s`.
fn push_decimal(s: &mut String, n: usize)
    ensures
        final(s)@ == old(s)@ + decimal(n as nat),
    decreases n,
{
    let d: u8 = (n % 10) as u8;
    if n >= 10 {
        push_decimal(s, n / 10);
    }
    push_char(s, (48u8 + d) as char);
    proof {
        assert(digit_char((n % 10) as nat) == (48u8 + d) as char);
    }
}

/// Builds the key `"{seed}-{index}-{output_dim}"` that seeds the projection
/// weights of input position `index`.
pub fn projection_key(seed: &str, index: usize, output_dim: usize) -> (key: String)
    ensures
        key@ == projection_key_chars(seed@, index as nat, output_dim as nat),
{
    let mut key = seed.to_owned();
    push_char(&mut key, '-');
    push_decimal(&mut key, index);
    push_char(&mut key, '-');
    push_decimal(&mut key, output_dim);
    key
}

/// The seed hash of input position `index`: the FNV-1a hash of its key.
pub fn projection_hash(seed: &str, index: usize, output_dim: usize) -> (h: u64)
    ensures
        h == projection_seed_hash(seed@, index as nat, output_dim as nat),
{
    let key = projection_key(seed, index, output_dim);
    hash_bytes(key.as_str())
}

/// The mixing value of output position `j` under seed hash `h`:
/// `(h + j * MIX_MULTIPLIER) mod 2^64 mod MIX_RANGE`.
pub fn mix_numerator(h: u64, j: usize) -> (m: u64)
    ensures
        m == mix_value(h, j as nat),
        m < MIX_RANGE,
{
    h.wrapping_add((j as u64).wrapping_mul(MIX_MULTIPLIER)) % MIX_RANGE
}

/// The mixing values of all output positions for input position `index`.
pub fn projection_row(seed: &str, index: usize, output_dim: usize) -> (row: Vec<u64>)
    ensures
        row@ == projection_row_spec(seed@, index as nat, output_dim as nat),
        forall|j: int| 0 <= j < row@.len() ==> #[trigger] row@[j] < MIX_RANGE,
{
    let h = projection_hash(seed, index, output_dim);
    let mut row: Vec<u64> = Vec::new();
    let mut j: usize = 0;
    while j < output_dim
        invariant
            j <= output_dim,
            h == projection_seed_hash(seed@, index as nat, output_dim as nat),
            row@.len() == j,
            forall|q: int| 0 <= q < j ==> #[trigger] row@[q] == mix_value(h, q as nat),
            forall|q: int| 0 <= q < j ==> #[trigger] row@[q] < MIX_RANGE,
        decreases output_dim - j,
    {
        let m = mix_numerator(h, j);
        row.push(m);
        j = j + 1;
    }
    proof {
        assert(row@ =~= projection_row_spec(seed@, index as nat, output_dim as nat));
    }
    row
}

} // verus!
