//! The generator behind the bench's testcases: 64-bit xorshift, one byte per
//! round.
//!
//! A round is linear over single bits, so any two states can be told apart by
//! their difference. [`law_inputs_differ`] says how many bytes that takes.

use vstd::prelude::*;

verus! {

/// Multiplier that spreads testcase numbers over the generator's states.
pub const SEED_MULTIPLIER: u64 = 0x9e37_79b9_7f4a_7c15;

/// The number that undoes a multiplication by [`SEED_MULTIPLIER`], to 64 bits.
pub const SEED_INVERSE: u64 = 0xf1de_83e1_9937_733d;

/// The generator's first state for a testcase number; never zero.
pub open spec fn first_state(seed: usize) -> u64 {
    (seed as u64).wrapping_mul(SEED_MULTIPLIER) | 1
}

/// The state that follows a state: one round of 64-bit xorshift.
pub open spec fn next_state(state: u64) -> u64 {
    let a = state ^ (state << 13);
    let b = a ^ (a >> 7);
    b ^ (b << 17)
}

/// The state after `rounds` rounds.
pub open spec fn state_after(seed: usize, rounds: nat) -> u64
    decreases rounds,
{
    if rounds == 0 {
        first_state(seed)
    } else {
        next_state(state_after(seed, (rounds - 1) as nat))
    }
}

/// The byte that a state gives: bits 24 to 31.
pub open spec fn byte_of(state: u64) -> u8 {
    (state >> 24) as u8
}

/// The first `len` bytes for a testcase number.
pub open spec fn generated(seed: usize, len: nat) -> Seq<u8> {
    Seq::new(len, |i: int| byte_of(state_after(seed, (i + 1) as nat)))
}

/// The generator never gets stuck: no state is zero.
pub proof fn law_state_is_never_zero(seed: usize, rounds: nat)
    ensures
        state_after(seed, rounds) != 0,
    decreases rounds,
{
    if rounds == 0 {
        let product = (seed as u64).wrapping_mul(SEED_MULTIPLIER);
        assert(product | 1 != 0) by (bit_vector);
    } else {
        law_state_is_never_zero(seed, (rounds - 1) as nat);
        lemma_round_keeps_nonzero(state_after(seed, (rounds - 1) as nat));
    }
}

proof fn lemma_round_keeps_nonzero(state: u64)
    requires
        state != 0,
    ensures
        next_state(state) != 0,
{
    let a = state ^ (state << 13);
    let b = a ^ (a >> 7);
    assert(state != 0 ==> state ^ (state << 13) != 0) by (bit_vector);
    assert(a != 0 ==> a ^ (a >> 7) != 0) by (bit_vector);
    assert(b != 0 ==> b ^ (b << 17) != 0) by (bit_vector);
}

/// A round takes the difference of two states to the difference of the states
/// that follow them.
proof fn lemma_round_is_linear(x: u64, y: u64)
    ensures
        next_state(x) ^ next_state(y) == next_state(x ^ y),
{
    assert(next_state(x) ^ next_state(y) == next_state(x ^ y)) by (bit_vector);
}

/// Testcases that start in different states stay in different states.
pub proof fn law_states_stay_apart(a: usize, b: usize, rounds: nat)
    requires
        first_state(a) != first_state(b),
    ensures
        state_after(a, rounds) != state_after(b, rounds),
    decreases rounds,
{
    if rounds > 0 {
        law_states_stay_apart(a, b, (rounds - 1) as nat);
        let x = state_after(a, (rounds - 1) as nat);
        let y = state_after(b, (rounds - 1) as nat);
        assert(x != y ==> x ^ y != 0) by (bit_vector);
        lemma_round_keeps_nonzero(x ^ y);
        lemma_round_is_linear(x, y);
        let (p, q) = (next_state(x), next_state(y));
        assert(p ^ q != 0 ==> p != q) by (bit_vector);
    }
}

/// Whether an odd number of a word's bits are set.
spec fn parity(word: u64) -> bool
    decreases word,
{
    if word == 0 {
        false
    } else {
        proof {
            assert(word != 0 ==> (word >> 1) < word) by (bit_vector);
        }
        (word & 1 == 1) != parity(word >> 1)
    }
}

proof fn lemma_parity_step(word: u64)
    ensures
        parity(word) == ((word & 1 == 1) != parity(word >> 1)),
{
    assert(0u64 & 1 == 0) by (bit_vector);
    assert(0u64 >> 1 == 0) by (bit_vector);
}

proof fn lemma_parity_is_linear(x: u64, y: u64)
    ensures
        parity(x ^ y) == (parity(x) != parity(y)),
    decreases x + y,
{
    if x == 0 && y == 0 {
        assert(0u64 ^ 0u64 == 0) by (bit_vector);
    } else {
        assert(x != 0 ==> (x >> 1) < x) by (bit_vector);
        assert(y != 0 ==> (y >> 1) < y) by (bit_vector);
        assert(0u64 >> 1 == 0) by (bit_vector);
        lemma_parity_is_linear(x >> 1, y >> 1);
        lemma_parity_step(x);
        lemma_parity_step(y);
        lemma_parity_step(x ^ y);
        assert((x ^ y) >> 1 == (x >> 1) ^ (y >> 1)) by (bit_vector);
        assert(((x ^ y) & 1 == 1) == ((x & 1 == 1) != (y & 1 == 1))) by (bit_vector);
    }
}

/// Zeros at the low end of a word can be shifted out.
proof fn lemma_parity_of_shifted(word: u64, count: u64)
    requires
        count < 64,
        (word >> count) << count == word,
    ensures
        parity(word) == parity(word >> count),
    decreases count,
{
    if count == 0 {
        assert(word >> 0u64 == word) by (bit_vector);
    } else {
        let less: u64 = (count - 1) as u64;
        let half = word >> 1;
        assert(word & 1 == 0 && (half >> less) << less == half && half >> less == word >> count)
            by (bit_vector)
            requires
                0 < count < 64,
                less == count - 1,
                half == word >> 1,
                (word >> count) << count == word,
        ;
        lemma_parity_step(word);
        lemma_parity_of_shifted(half, less);
    }
}

/// The bits of a state that a mask selects, added up.
spec fn sum_of(state: u64, mask: u64) -> bool {
    parity(state & mask)
}

proof fn lemma_sum_is_linear(x: u64, y: u64, mask: u64)
    ensures
        sum_of(x ^ y, mask) == (sum_of(x, mask) != sum_of(y, mask)),
        sum_of(mask, x ^ y) == (sum_of(mask, x) != sum_of(mask, y)),
{
    assert((x ^ y) & mask == (x & mask) ^ (y & mask)) by (bit_vector);
    assert(mask & (x ^ y) == (mask & x) ^ (mask & y)) by (bit_vector);
    lemma_parity_is_linear(x & mask, y & mask);
    lemma_parity_is_linear(mask & x, mask & y);
}

/// The mask that selects from a state what `mask` selects from the next state.
spec fn pulled_back(mask: u64) -> u64 {
    let p = mask ^ (mask >> 17);
    let q = p ^ (p << 7);
    q ^ (q >> 13)
}

proof fn lemma_sum_after_round(state: u64, mask: u64)
    ensures
        sum_of(next_state(state), mask) == sum_of(state, pulled_back(mask)),
{
    let a = state ^ (state << 13);
    let b = a ^ (a >> 7);
    let p = mask ^ (mask >> 17);
    let q = p ^ (p << 7);

    let w = (b << 17) & mask;
    assert((w >> 17) << 17 == w && w >> 17 == b & (mask >> 17)) by (bit_vector)
        requires
            w == (b << 17) & mask,
    ;
    lemma_parity_of_shifted(w, 17);
    lemma_sum_is_linear(b, b << 17, mask);
    lemma_sum_is_linear(mask, mask >> 17, b);
    assert(sum_of(next_state(state), mask) == sum_of(b, p));

    let w = a & (p << 7);
    assert((w >> 7) << 7 == w && w >> 7 == (a >> 7) & p) by (bit_vector)
        requires
            w == a & (p << 7),
    ;
    lemma_parity_of_shifted(w, 7);
    lemma_sum_is_linear(a, a >> 7, p);
    lemma_sum_is_linear(p, p << 7, a);
    assert(sum_of(b, p) == sum_of(a, q));

    let w = (state << 13) & q;
    assert((w >> 13) << 13 == w && w >> 13 == state & (q >> 13)) by (bit_vector)
        requires
            w == (state << 13) & q,
    ;
    lemma_parity_of_shifted(w, 13);
    lemma_sum_is_linear(state, state << 13, q);
    lemma_sum_is_linear(q, q >> 13, state);
}

/// The mask that selects from a state what `byte` selects from the byte that
/// the next state gives, together with what `mask` selects from that state.
spec fn pulled_with(byte: u64, mask: u64) -> u64 {
    pulled_back(((byte & 0xff) << 24) ^ mask)
}

/// The mask that selects from a state what eight bytes select from the eight
/// bytes that follow it, the lowest from the first.
spec fn combined(bytes: u64) -> u64 {
    let m8 = pulled_with(bytes >> 56, 0);
    let m7 = pulled_with(bytes >> 48, m8);
    let m6 = pulled_with(bytes >> 40, m7);
    let m5 = pulled_with(bytes >> 32, m6);
    let m4 = pulled_with(bytes >> 24, m5);
    let m3 = pulled_with(bytes >> 16, m4);
    let m2 = pulled_with(bytes >> 8, m3);
    pulled_with(bytes, m2)
}

/// For each bit of a state but the lowest: which bits of the eight bytes that
/// follow the state add up to that bit, or to that bit and the lowest one.
spec fn witness(bit: u64) -> u64 {
    if bit == 1 {
        0x3901_9e67_99a5_1051
    } else if bit == 2 {
        0x1349_6552_2e4f_a046
    } else if bit == 3 {
        0x1e40_b3c8_ce7a_6f9d
    } else if bit == 4 {
        0x9aba_6fc8_1f14_6895
    } else if bit == 5 {
        0x0925_8faa_c7e5_5d51
    } else if bit == 6 {
        0xa397_3b7f_e7ef_50a2
    } else if bit == 7 {
        0xbd10_f104_9610_12cc
    } else if bit == 8 {
        0xbf1d_67b2_1eac_9b7a
    } else if bit == 9 {
        0x2ef8_46b2_f31e_19db
    } else if bit == 10 {
        0x2573_3b9d_09e5_44cd
    } else if bit == 11 {
        0xa691_3ff4_eae0_ecf9
    } else if bit == 12 {
        0xa26d_d5cf_b777_9d93
    } else if bit == 13 {
        0x356a_42f7_cb3a_39e5
    } else if bit == 14 {
        0x837b_d730_fde8_ec23
    } else if bit == 15 {
        0x34d3_99ca_c9bb_d850
    } else if bit == 16 {
        0xba3b_69fc_295b_50ff
    } else if bit == 17 {
        0x1f9b_737e_4dc0_243d
    } else if bit == 18 {
        0x1df2_2049_bcc1_3e13
    } else if bit == 19 {
        0x1e08_8f38_e6c9_bde0
    } else if bit == 20 {
        0xa41f_b275_fe52_6795
    } else if bit == 21 {
        0x8ea0_c0c7_5d50_f7d6
    } else if bit == 22 {
        0x82e0_d4cf_a800_ef4e
    } else if bit == 23 {
        0x1d3e_5626_52fa_a03f
    } else if bit == 24 {
        0x0db2_44c0_51b9_115b
    } else if bit == 25 {
        0x8851_bc4a_887b_0e8b
    } else if bit == 26 {
        0x1686_a618_692a_760f
    } else if bit == 27 {
        0xb2e7_69e2_50e6_f88f
    } else if bit == 28 {
        0x0b1c_bc65_5322_432a
    } else if bit == 29 {
        0x0e83_13f6_c506_fe85
    } else if bit == 30 {
        0x1567_3c25_c89f_b39c
    } else if bit == 31 {
        0xb1bb_e32e_f5c5_2d0e
    } else if bit == 32 {
        0xacb3_7d97_209d_cd96
    } else if bit == 33 {
        0x0d70_ca1c_487d_0ec2
    } else if bit == 34 {
        0x1f6e_593e_ab6f_eb17
    } else if bit == 35 {
        0x0f69_6177_a35d_fb9f
    } else if bit == 36 {
        0xb674_4da4_08f6_7eb4
    } else if bit == 37 {
        0x2b2b_0a1d_779e_ca06
    } else if bit == 38 {
        0xafdf_910f_e6ce_8dc8
    } else if bit == 39 {
        0xbd3b_febd_4341_356e
    } else if bit == 40 {
        0x95fd_7128_94c2_9e2c
    } else if bit == 41 {
        0x0225_9f4b_96e8_2a42
    } else if bit == 42 {
        0x2472_491e_d33f_28b8
    } else if bit == 43 {
        0x32e9_f0a0_9bed_2cb8
    } else if bit == 44 {
        0xa91c_fbf1_acd5_8e4a
    } else if bit == 45 {
        0x9abd_b380_211d_c9d3
    } else if bit == 46 {
        0x9208_7b48_762f_59f2
    } else if bit == 47 {
        0x3c12_7c32_00ae_7cf1
    } else if bit == 48 {
        0xb6de_246d_cb6c_859a
    } else if bit == 49 {
        0xbb1e_7af6_f8b9_41bd
    } else if bit == 50 {
        0x9935_fbab_419f_640d
    } else if bit == 51 {
        0x0897_6e0a_4ed4_fa89
    } else if bit == 52 {
        0xbf94_49bb_b940_6e20
    } else if bit == 53 {
        0x0bb3_d362_d9b8_bc7c
    } else if bit == 54 {
        0x076d_841b_3689_7543
    } else if bit == 55 {
        0x13cc_5d4e_3a1c_1928
    } else if bit == 56 {
        0x819c_82c7_47c1_ce09
    } else if bit == 57 {
        0x179f_6f12_29c8_edf8
    } else if bit == 58 {
        0xa297_5edf_65b4_a4c6
    } else if bit == 59 {
        0x9b66_4097_12f7_6bf0
    } else if bit == 60 {
        0x81f7_0ef5_de55_491e
    } else if bit == 61 {
        0x8025_8e5f_9244_aac9
    } else if bit == 62 {
        0x25a9_b200_f047_20b6
    } else if bit == 63 {
        0x30a1_e761_3abf_de84
    } else {
        0
    }
}

proof fn lemma_witness(bit: u64)
    requires
        1 <= bit < 64,
    ensures
        combined(witness(bit)) == 1u64 << bit || combined(witness(bit)) ^ 1 == 1u64 << bit,
{
    let bytes = witness(bit);
    let m8 = pulled_with(bytes >> 56, 0);
    let m7 = pulled_with(bytes >> 48, m8);
    let m6 = pulled_with(bytes >> 40, m7);
    let m5 = pulled_with(bytes >> 32, m6);
    let m4 = pulled_with(bytes >> 24, m5);
    let m3 = pulled_with(bytes >> 16, m4);
    let m2 = pulled_with(bytes >> 8, m3);
    let m1 = pulled_with(bytes, m2);
    assert(m1 == 1u64 << bit || m1 ^ 1 == 1u64 << bit) by (bit_vector)
        requires
            1 <= bit < 64,
            bytes == witness(bit),
            m8 == pulled_with(bytes >> 56, 0),
            m7 == pulled_with(bytes >> 48, m8),
            m6 == pulled_with(bytes >> 40, m7),
            m5 == pulled_with(bytes >> 32, m6),
            m4 == pulled_with(bytes >> 24, m5),
            m3 == pulled_with(bytes >> 16, m4),
            m2 == pulled_with(bytes >> 8, m3),
            m1 == pulled_with(bytes, m2),
    ;
}

/// Where the next state shows nothing in its byte, selecting from that byte
/// adds nothing.
proof fn lemma_quiet_byte(state: u64, byte: u64, mask: u64)
    requires
        next_state(state) & 0xff00_0000 == 0,
    ensures
        sum_of(state, pulled_with(byte, mask)) == sum_of(next_state(state), mask),
{
    let next = next_state(state);
    let selected = (byte & 0xff) << 24;
    assert(next & ((byte & 0xff) << 24) == 0) by (bit_vector)
        requires
            next & 0xff00_0000 == 0,
    ;
    assert(!sum_of(next, selected));
    lemma_sum_after_round(state, selected ^ mask);
    lemma_sum_is_linear(selected, mask, next);
}

/// The difference of the states of two testcases.
spec fn difference(a: usize, b: usize, rounds: nat) -> u64 {
    state_after(a, rounds) ^ state_after(b, rounds)
}

proof fn lemma_difference_step(a: usize, b: usize, rounds: nat)
    requires
        byte_of(state_after(a, rounds + 1)) == byte_of(state_after(b, rounds + 1)),
    ensures
        difference(a, b, rounds + 1) == next_state(difference(a, b, rounds)),
        difference(a, b, rounds + 1) & 0xff00_0000 == 0,
{
    lemma_round_is_linear(state_after(a, rounds), state_after(b, rounds));
    let x = state_after(a, rounds + 1);
    let y = state_after(b, rounds + 1);
    assert((x ^ y) & 0xff00_0000 == 0) by (bit_vector)
        requires
            (x >> 24) as u8 == (y >> 24) as u8,
    ;
}

proof fn lemma_set_bit(word: u64) -> (bit: u64)
    requires
        word != 0,
    ensures
        bit < 64,
        (word >> bit) & 1 == 1,
    decreases word,
{
    if word & 1 == 1 {
        assert(word >> 0u64 == word) by (bit_vector);
        0
    } else {
        let half = word >> 1;
        assert(half != 0 && half < word && half < 0x8000_0000_0000_0000) by (bit_vector)
            requires
                half == word >> 1,
                word != 0,
                word & 1 != 1,
        ;
        let less = lemma_set_bit(half);
        assert(less < 63 && (word >> ((less + 1) as u64)) & 1 == 1) by (bit_vector)
            requires
                half == word >> 1,
                half < 0x8000_0000_0000_0000,
                less < 64,
                (half >> less) & 1 == 1,
        ;
        (less + 1) as u64
    }
}

proof fn lemma_sum_of_one_bit(state: u64, bit: u64)
    requires
        bit < 64,
    ensures
        sum_of(state, 1u64 << bit) == ((state >> bit) & 1 == 1),
{
    let mask = 1u64 << bit;
    assert((mask >> bit) << bit == mask && mask >> bit == 1 && state & mask == if (state >> bit) & 1
        == 1 {
        mask
    } else {
        0
    }) by (bit_vector)
        requires
            bit < 64,
            mask == 1u64 << bit,
    ;
    lemma_parity_of_shifted(mask, bit);
    assert(1u64 & 1 == 1 && 1u64 >> 1 == 0) by (bit_vector);
    lemma_parity_step(1);
}

/// A difference that shows in none of the next eight bytes is none.
proof fn lemma_eight_bytes_tell(a: usize, b: usize)
    requires
        forall|i: int|
            #![trigger state_after(a, (i + 1) as nat)]
            0 <= i < 8 ==> byte_of(state_after(a, (i + 1) as nat)) == byte_of(
                state_after(b, (i + 1) as nat),
            ),
    ensures
        first_state(a) == first_state(b),
{
    let d = difference(a, b, 0);
    let (x, y) = (first_state(a), first_state(b));
    if d != 0 {
        let (u, v) = (
            (a as u64).wrapping_mul(SEED_MULTIPLIER),
            (b as u64).wrapping_mul(SEED_MULTIPLIER),
        );
        assert(((u | 1) ^ (v | 1)) & 1 == 0) by (bit_vector);
        let bit = lemma_set_bit(d);
        assert(bit != 0) by (bit_vector)
            requires
                d & 1 == 0,
                (d >> bit) & 1 == 1,
        ;
        lemma_witness(bit);
        let bytes = witness(bit);
        let m8 = pulled_with(bytes >> 56, 0);
        let m7 = pulled_with(bytes >> 48, m8);
        let m6 = pulled_with(bytes >> 40, m7);
        let m5 = pulled_with(bytes >> 32, m6);
        let m4 = pulled_with(bytes >> 24, m5);
        let m3 = pulled_with(bytes >> 16, m4);
        let m2 = pulled_with(bytes >> 8, m3);
        assert forall|i: int| 0 <= i < 8 implies {
            &&& #[trigger] difference(a, b, (i + 1) as nat) == next_state(
                difference(a, b, i as nat),
            )
            &&& difference(a, b, (i + 1) as nat) & 0xff00_0000 == 0
        } by {
            assert(byte_of(state_after(a, (i + 1) as nat)) == byte_of(
                state_after(b, (i + 1) as nat),
            ));
            lemma_difference_step(a, b, i as nat);
        }
        let (d1, d2, d3, d4) = (
            difference(a, b, (0 + 1) as nat),
            difference(a, b, (1 + 1) as nat),
            difference(a, b, (2 + 1) as nat),
            difference(a, b, (3 + 1) as nat),
        );
        let (d5, d6, d7, d8) = (
            difference(a, b, (4 + 1) as nat),
            difference(a, b, (5 + 1) as nat),
            difference(a, b, (6 + 1) as nat),
            difference(a, b, (7 + 1) as nat),
        );
        lemma_quiet_byte(d, bytes, m2);
        lemma_quiet_byte(d1, bytes >> 8, m3);
        lemma_quiet_byte(d2, bytes >> 16, m4);
        lemma_quiet_byte(d3, bytes >> 24, m5);
        lemma_quiet_byte(d4, bytes >> 32, m6);
        lemma_quiet_byte(d5, bytes >> 40, m7);
        lemma_quiet_byte(d6, bytes >> 48, m8);
        lemma_quiet_byte(d7, bytes >> 56, 0);
        assert(d8 & 0 == 0) by (bit_vector);
        assert(!sum_of(d, combined(bytes)));
        lemma_sum_of_one_bit(d, bit);
        lemma_sum_is_linear(combined(bytes), 1, d);
        assert(false);
    }
    assert(x ^ y == 0 ==> x == y) by (bit_vector);
}

proof fn lemma_same_start(a: usize, b: usize, rounds: nat)
    requires
        first_state(a) == first_state(b),
    ensures
        state_after(a, rounds) == state_after(b, rounds),
    decreases rounds,
{
    if rounds > 0 {
        lemma_same_start(a, b, (rounds - 1) as nat);
    }
}

/// Testcases of eight bytes or more agree only if they start in the same state.
pub proof fn law_inputs_differ(a: usize, b: usize, len: nat)
    requires
        len >= 8,
    ensures
        generated(a, len) == generated(b, len) <==> first_state(a) == first_state(b),
{
    if generated(a, len) == generated(b, len) {
        assert forall|i: int|
            #![trigger state_after(a, (i + 1) as nat)]
            0 <= i < 8 implies byte_of(state_after(a, (i + 1) as nat)) == byte_of(
            state_after(b, (i + 1) as nat),
        ) by {
            assert(generated(a, len)[i] == generated(b, len)[i]);
        }
        lemma_eight_bytes_tell(a, b);
    }
    if first_state(a) == first_state(b) {
        assert forall|i: int| 0 <= i < len implies generated(a, len)[i] == generated(b, len)[i] by {
            lemma_same_start(a, b, (i + 1) as nat);
        }
        assert(generated(a, len) =~= generated(b, len));
    }
}

/// How far apart two numbers have to be before their testcases can start in the
/// same state.
pub open spec fn seed_distance() -> int {
    0x1_0000_0000_0000_0000 - SEED_INVERSE
}

/// Numbers that are near each other start in different states.
pub proof fn law_near_seeds_start_apart(a: usize, b: usize)
    requires
        a != b,
        -seed_distance() < a - b < seed_distance(),
    ensures
        first_state(a) != first_state(b),
{
    let x = (a as u64).wrapping_mul(SEED_MULTIPLIER);
    let y = (b as u64).wrapping_mul(SEED_MULTIPLIER);
    if first_state(a) == first_state(b) {
        assert(x == y || x == y + 1 || y == x + 1) by (bit_vector)
            requires
                x | 1 == y | 1,
        ;
        let whole = lemma_product_undone(a as int, b as int, x as int, y as int);
        assert(x - y == 0 || x - y == 1 || x - y == -1);
        assert(a - b == (x - y) * SEED_INVERSE + whole * 0x1_0000_0000_0000_0000);
        if x - y == 1 {
            assert((x - y) * SEED_INVERSE == SEED_INVERSE);
        } else if x - y == -1 {
            assert((x - y) * SEED_INVERSE == -SEED_INVERSE);
        } else {
            assert((x - y) * SEED_INVERSE == 0);
        }
    }
}

/// Two numbers are as far apart as their products, undone, up to whole turns of
/// 64 bits.
proof fn lemma_product_undone(a: int, b: int, x: int, y: int) -> (whole: int)
    requires
        x == (a * SEED_MULTIPLIER) % 0x1_0000_0000_0000_0000,
        y == (b * SEED_MULTIPLIER) % 0x1_0000_0000_0000_0000,
    ensures
        a - b == (x - y) * SEED_INVERSE + whole * 0x1_0000_0000_0000_0000,
{
    let modulus: int = 0x1_0000_0000_0000_0000;
    let m: int = SEED_MULTIPLIER as int;
    let inverse: int = SEED_INVERSE as int;
    let extra: int = 0x957b_bf35_006e_d677;
    let turns: int = (a * m) / modulus - (b * m) / modulus;
    assert(a * m == modulus * ((a * m) / modulus) + x);
    assert(b * m == modulus * ((b * m) / modulus) + y);
    assert((a - b) * m == (x - y) + turns * modulus) by (nonlinear_arith)
        requires
            a * m == modulus * ((a * m) / modulus) + x,
            b * m == modulus * ((b * m) / modulus) + y,
            turns == (a * m) / modulus - (b * m) / modulus,
    ;
    assert(m * inverse == 1 + extra * modulus);
    let whole: int = turns * inverse - extra * (a - b);
    assert((a - b) * (m * inverse) == ((a - b) * m) * inverse) by (nonlinear_arith);
    assert((a - b) * (1 + extra * modulus) == (a - b) + (extra * (a - b)) * modulus)
        by (nonlinear_arith);
    assert(((x - y) + turns * modulus) * inverse == (x - y) * inverse + (turns * inverse) * modulus)
        by (nonlinear_arith);
    assert((turns * inverse) * modulus - (extra * (a - b)) * modulus == whole * modulus)
        by (nonlinear_arith)
        requires
            whole == turns * inverse - extra * (a - b),
    ;
    whole
}

/// No two testcases of a campaign agree: their numbers are near each other, and
/// they are long enough to tell.
pub proof fn law_no_two_testcases_agree(a: usize, b: usize, len: nat)
    requires
        a != b,
        -seed_distance() < a - b < seed_distance(),
        len >= 8,
    ensures
        generated(a, len) != generated(b, len),
{
    law_near_seeds_start_apart(a, b);
    law_inputs_differ(a, b, len);
}

/// The generator is 64-bit xorshift with the shifts 13, 7 and 17. It starts from
/// the product of the number and the multiplier, to 64 bits, made odd; each
/// round follows from the state alone, at every length; and each byte is the
/// fourth of the state after its round.
pub proof fn law_generator_is_xorshift(seed: usize, rounds: nat, len: nat)
    ensures
        state_after(seed, 0) == ((seed * 0x9e37_79b9_7f4a_7c15) % 0x1_0000_0000_0000_0000) as u64
            | 1,
        ({
            let x = state_after(seed, rounds);
            let y = x ^ (x << 13);
            let z = y ^ (y >> 7);
            state_after(seed, rounds + 1) == z ^ (z << 17)
        }),
        generated(seed, len).len() == len,
        forall|i: int|
            0 <= i < len ==> #[trigger] generated(seed, len)[i] == (state_after(
                seed,
                (i + 1) as nat,
            ) >> 24) as u8,
{
}

/// A shorter testcase is the start of a longer one with the same number.
pub proof fn law_shorter_testcase_is_a_prefix(seed: usize, len: nat, longer: nat)
    requires
        len <= longer,
    ensures
        generated(seed, longer).take(len as int) == generated(seed, len),
{
    assert(generated(seed, longer).take(len as int) =~= generated(seed, len));
}

} // verus!
