//! The rate 1/2, constraint length 32 convolutional code of WSPR.
use vstd::prelude::*;
use crate::bitarray::{WSPRBits, ARRAY_BITS, NUM_CHANNEL_BITS};
use crate::message::WSPRMessage;

verus! {

/// Feedback taps of the first parity register.
pub const REG0_TAP: u32 = 0xF2D05351;

/// Feedback taps of the second parity register.
pub const REG1_TAP: u32 = 0xE4613C47;

/// Number of source bits fed through the encoder.
pub const NUM_BITS_WSPR: usize = 81;

/// Bit `k` of a 32-bit word.
pub open spec fn bit32(x: u32, k: u32) -> bool {
    (x >> k) & 1u32 == 1u32
}

/// Bit `j` of a 128-bit word; positions outside 0..128 read as clear.
pub open spec fn bit128(m: u128, j: int) -> bool {
    0 <= j < 128 && (m >> (j as u128)) & 1u128 == 1u128
}

/// Number of set bits among the lowest `n` bits of `x`.
pub open spec fn ones_below(x: u32, n: nat) -> nat
    decreases n,
{
    if n == 0 {
        0
    } else {
        ones_below(x, (n - 1) as nat) + if bit32(x, (n - 1) as u32) {
            1nat
        } else {
            0nat
        }
    }
}

/// The number of ones in the binary representation of `x`.
fn count_ones(x: u32) -> (r: u32)
    ensures
        r == ones_below(x, 32),
{
    let mut count: u32 = 0;
    let mut k: u32 = 0;
    while k < 32
        invariant
            k <= 32,
            count == ones_below(x, k as nat),
            count <= k,
        decreases 32 - k,
    {
        if (x >> k) & 1 == 1 {
            count = count + 1;
        }
        k = k + 1;
    }
    count
}

/// Among taps `0..n`, how many are set and meet a set input bit: tap `k`
/// at step `i` reads input bit `i - k` (the bit shifted in `k` steps
/// earlier), and nothing before the first step.
pub open spec fn taps_hit(m: u128, tap: u32, i: int, n: nat) -> nat
    decreases n,
{
    if n == 0 {
        0
    } else {
        taps_hit(m, tap, i, (n - 1) as nat) + if bit32(tap, (n - 1) as u32) && n - 1 <= i
            && bit128(m, i - (n - 1)) {
            1nat
        } else {
            0nat
        }
    }
}

/// The parity that a register with taps `tap` emits at step `i` when the
/// source bits of `m` enter it least significant first: the modulo-2
/// convolution of the taps with the input.
pub open spec fn parity_bit(m: u128, tap: u32, i: int) -> bool {
    taps_hit(m, tap, i, 32) % 2 == 1
}

/// Channel bit `t` of the coded stream: at even positions the first
/// register's parity for step `t / 2`, at odd ones the second's.
pub open spec fn coded_bit(m: u128, t: int) -> bool {
    if t % 2 == 0 {
        parity_bit(m, REG0_TAP, t / 2)
    } else {
        parity_bit(m, REG1_TAP, t / 2)
    }
}

/// The whole coded array: 162 channel bits, then clear bits up to the
/// array's length.
pub open spec fn coded_bits(m: u128) -> Seq<bool> {
    Seq::new(
        ARRAY_BITS as nat,
        |t: int|
            if t < NUM_CHANNEL_BITS {
                coded_bit(m, t)
            } else {
                false
            },
    )
}

/// Shifting a register left and or-ing in the low bit of `x`: bit 0 becomes
/// that bit, and every other bit the one below it.
proof fn lemma_shift_in(r: u32, x: u32, k: u32)
    requires
        k < 32,
    ensures
        ((((r << 1u32) | (1u32 & x)) >> k) & 1u32 == 1u32) == (if k == 0 {
            x & 1u32 == 1u32
        } else {
            (r >> ((k - 1) as u32)) & 1u32 == 1u32
        }),
{
    assert(((((r << 1u32) | (1u32 & x)) >> k) & 1u32 == 1u32) == (if k == 0 {
        x & 1u32 == 1u32
    } else {
        (r >> ((k - 1) as u32)) & 1u32 == 1u32
    })) by (bit_vector)
        requires
            k < 32,
    ;
}

proof fn lemma_and_bit(x: u32, y: u32, k: u32)
    requires
        k < 32,
    ensures
        bit32(x & y, k) == (bit32(x, k) && bit32(y, k)),
{
    assert((((x & y) >> k) & 1u32 == 1u32) == (((x >> k) & 1u32 == 1u32) && ((y >> k) & 1u32
        == 1u32))) by (bit_vector)
        requires
            k < 32,
    ;
}

/// The low bit that the encoder reads from the remaining source word is bit
/// `i` of the source word, and shifting right by one more moves to bit `i + 1`.
proof fn lemma_source_step(source: u128, i: u128)
    requires
        i < 127,
    ensures
        (((source >> i) as u32) & 1u32 == 1u32) == ((source >> i) & 1u128 == 1u128),
        (source >> i) >> 1u128 == source >> ((i + 1) as u128),
{
    assert((((source >> i) as u32) & 1u32 == 1u32) == ((source >> i) & 1u128 == 1u128))
        by (bit_vector);
    assert((source >> i) >> 1u128 == source >> ((i + 1) as u128)) by (bit_vector)
        requires
            i < 127,
    ;
}

/// When each bit of `x` is a tap bit met by a set input bit, the ones of `x`
/// count the taps hit.
proof fn lemma_ones_are_taps_hit(x: u32, m: u128, tap: u32, i: int, n: nat)
    requires
        n <= 32,
        forall|k: u32|
            k < 32 ==> #[trigger] bit32(x, k) == (bit32(tap, k) && k <= i && bit128(m, i - k)),
    ensures
        ones_below(x, n) == taps_hit(m, tap, i, n),
    decreases n,
{
    if n > 0 {
        lemma_ones_are_taps_hit(x, m, tap, i, (n - 1) as nat);
        assert(bit32(x, (n - 1) as u32) == (bit32(tap, (n - 1) as u32) && n - 1 <= i && bit128(
            m,
            i - (n - 1),
        )));
    }
}

/// Taps `0..n` hit the same input bits of two words that agree on the
/// bits the taps reach at step `i`.
proof fn lemma_taps_hit_window(m1: u128, m2: u128, tap: u32, i: int, n: nat)
    requires
        n <= 32,
        forall|j: int| i - 31 <= j <= i ==> bit128(m1, j) == bit128(m2, j),
    ensures
        taps_hit(m1, tap, i, n) == taps_hit(m2, tap, i, n),
    decreases n,
{
    if n > 0 {
        lemma_taps_hit_window(m1, m2, tap, i, (n - 1) as nat);
        if n - 1 <= i {
            assert(bit128(m1, i - (n - 1)) == bit128(m2, i - (n - 1)));
        }
    }
}

/// Constraint length 32: the two channel bits of step `i` depend only on
/// the source bits `i - 31` through `i`.
pub proof fn lemma_convolution_window(m1: u128, m2: u128, i: int)
    requires
        0 <= i,
        forall|j: int| i - 31 <= j <= i ==> bit128(m1, j) == bit128(m2, j),
    ensures
        coded_bit(m1, 2 * i) == coded_bit(m2, 2 * i),
        coded_bit(m1, 2 * i + 1) == coded_bit(m2, 2 * i + 1),
{
    lemma_taps_hit_window(m1, m2, REG0_TAP, i, 32);
    lemma_taps_hit_window(m1, m2, REG1_TAP, i, 32);
    assert((2 * i) % 2 == 0 && (2 * i) / 2 == i);
    assert((2 * i + 1) % 2 == 1 && (2 * i + 1) / 2 == i);
}

/// A bit of an exclusive or is the exclusive or of the bits.
proof fn lemma_bit128_xor(m1: u128, m2: u128, j: int)
    ensures
        bit128(m1 ^ m2, j) == (bit128(m1, j) != bit128(m2, j)),
{
    if 0 <= j < 128 {
        let k = j as u128;
        assert((((m1 ^ m2) >> k) & 1u128 == 1u128) == (((m1 >> k) & 1u128 == 1u128) != ((m2 >> k)
            & 1u128 == 1u128))) by (bit_vector);
    }
}

/// The taps hit by an exclusive or, plus those hit by each operand, are an
/// even number.
proof fn lemma_taps_hit_xor(m1: u128, m2: u128, tap: u32, i: int, n: nat)
    requires
        n <= 32,
    ensures
        (taps_hit(m1 ^ m2, tap, i, n) + taps_hit(m1, tap, i, n) + taps_hit(m2, tap, i, n)) % 2 == 0,
    decreases n,
{
    if n > 0 {
        lemma_taps_hit_xor(m1, m2, tap, i, (n - 1) as nat);
        lemma_bit128_xor(m1, m2, i - (n - 1));
    }
}

/// The code is linear over GF(2): coding the exclusive or of two source
/// words gives the exclusive or of their codes.
pub proof fn lemma_convolution_linear(m1: u128, m2: u128, t: int)
    ensures
        coded_bit(m1 ^ m2, t) == (coded_bit(m1, t) != coded_bit(m2, t)),
{
    lemma_taps_hit_xor(m1, m2, REG0_TAP, t / 2, 32);
    lemma_taps_hit_xor(m1, m2, REG1_TAP, t / 2, 32);
}

/// Bit `j` of `m << 1` is bit `j - 1` of `m`; bit 0 is clear, and the top bit
/// of `m` is shifted out.
proof fn lemma_bit128_shl(m: u128, j: int)
    ensures
        bit128(m << 1u128, j) == (1 <= j < 128 && bit128(m, j - 1)),
{
    if j == 0 {
        assert(((m << 1u128) >> 0u128) & 1u128 != 1u128) by (bit_vector);
    } else if 1 <= j < 128 {
        let k = j as u128;
        let k1 = (j - 1) as u128;
        assert((((m << 1u128) >> k) & 1u128 == 1u128) == ((m >> k1) & 1u128 == 1u128))
            by (bit_vector)
            requires
                1 <= k < 128,
                k1 + 1 == k,
        ;
    }
}

/// A word shifted up by one meets, one step later, the same taps.
proof fn lemma_taps_hit_shift(m: u128, tap: u32, i: int, n: nat)
    requires
        0 <= i,
        i + 1 < 128,
        n <= 32,
    ensures
        taps_hit(m << 1u128, tap, i + 1, n) == taps_hit(m, tap, i, n),
    decreases n,
{
    if n > 0 {
        lemma_taps_hit_shift(m, tap, i, (n - 1) as nat);
        lemma_bit128_shl(m, i + 1 - (n - 1));
    }
}

/// The code is time invariant: delaying the input by one step (shifting it
/// up by one bit) delays every channel bit by one step, that is two
/// channel positions.
pub proof fn lemma_convolution_time_invariant(m: u128, t: int)
    requires
        0 <= t,
        t + 2 < NUM_CHANNEL_BITS,
    ensures
        coded_bit(m << 1u128, t + 2) == coded_bit(m, t),
{
    lemma_taps_hit_shift(m, REG0_TAP, t / 2, 32);
    lemma_taps_hit_shift(m, REG1_TAP, t / 2, 32);
    assert((t + 2) % 2 == t % 2 && (t + 2) / 2 == t / 2 + 1);
}

/// A single set input bit at step 0 meets exactly tap `i` at step `i`.
proof fn lemma_taps_hit_impulse(tap: u32, i: int, n: nat)
    requires
        0 <= i,
        n <= 32,
    ensures
        taps_hit(1u128, tap, i, n) == if i < n && bit32(tap, i as u32) {
            1nat
        } else {
            0nat
        },
    decreases n,
{
    if n > 0 {
        lemma_taps_hit_impulse(tap, i, (n - 1) as nat);
        let j = i - (n - 1);
        if 0 <= j < 128 {
            let k = j as u128;
            assert(((1u128 >> k) & 1u128 == 1u128) == (k == 0)) by (bit_vector)
                requires
                    k < 128,
            ;
        }
    }
}

/// The impulse response is the taps: coding the single input bit 0 gives,
/// at step `k`, bit `k` of the first register's taps and then bit `k` of the
/// second's, and nothing after the 32 steps of the registers.
pub proof fn lemma_convolution_impulse(k: int)
    requires
        0 <= k < NUM_BITS_WSPR,
    ensures
        coded_bit(1u128, 2 * k) == (k < 32 && bit32(REG0_TAP, k as u32)),
        coded_bit(1u128, 2 * k + 1) == (k < 32 && bit32(REG1_TAP, k as u32)),
{
    lemma_taps_hit_impulse(REG0_TAP, k, 32);
    lemma_taps_hit_impulse(REG1_TAP, k, 32);
    assert((2 * k) % 2 == 0 && (2 * k) / 2 == k);
    assert((2 * k + 1) % 2 == 1 && (2 * k + 1) / 2 == k);
}

/// The encoder input for a packed message: bit `87 - t` of the message
/// becomes input bit `t`, for the 81 steps, so that the 50 message bits
/// (bits 87 down to 38) enter most significant first and the 31 zero bits
/// below them follow.
pub open spec fn source_word(m: u128) -> u128 {
    source_prefix(m, NUM_BITS_WSPR as nat)
}

/// The first `n` input bits of `source_word(m)`.
pub open spec fn source_prefix(m: u128, n: nat) -> u128
    decreases n,
{
    if n == 0 {
        0
    } else {
        source_prefix(m, (n - 1) as nat) | (((m >> ((87 - (n - 1)) as u128)) & 1u128) << ((n - 1) as u128))
    }
}

/// Or-ing a bit into a clear position sets that position and no other.
proof fn lemma_or_in_bit(x: u128, b: u128, k: u128, j: u128)
    requires
        b <= 1,
        k < 128,
        j < 128,
        (x >> k) & 1u128 == 0,
    ensures
        ((x | (b << k)) >> j) & 1u128 == if j == k {
            b
        } else {
            (x >> j) & 1u128
        },
{
    assert(((x | (b << k)) >> j) & 1u128 == if j == k {
        b
    } else {
        (x >> j) & 1u128
    }) by (bit_vector)
        requires
            b <= 1,
            k < 128,
            j < 128,
            (x >> k) & 1u128 == 0,
    ;
}

/// Input bit `j` of `source_prefix(m, n)` is message bit `87 - j` for the
/// first `n` positions and clear elsewhere.
proof fn lemma_source_prefix_bits(m: u128, n: nat)
    requires
        n <= NUM_BITS_WSPR,
    ensures
        forall|j: int| #[trigger] bit128(source_prefix(m, n), j) == (0 <= j < n && bit128(m, 87 - j)),
    decreases n,
{
    if n > 0 {
        lemma_source_prefix_bits(m, (n - 1) as nat);
        let x = source_prefix(m, (n - 1) as nat);
        let s = (87 - (n - 1)) as u128;
        let b = (m >> s) & 1u128;
        assert(b <= 1) by (bit_vector)
            requires
                b == (m >> s) & 1u128,
        ;
        let k = (n - 1) as u128;
        assert(!bit128(x, n - 1));
        assert((x >> k) & 1u128 == 0) by (bit_vector)
            requires
                (x >> k) & 1u128 != 1u128,
        ;
        assert forall|j: int| #[trigger] bit128(source_prefix(m, n), j) == (0 <= j < n && bit128(
            m,
            87 - j,
        )) by {
            if 0 <= j < 128 {
                lemma_or_in_bit(x, b, (n - 1) as u128, j as u128);
                assert(bit128(x, j) == (0 <= j < n - 1 && bit128(m, 87 - j)));
            }
        }
    } else {
        assert forall|j: int| #[trigger] bit128(source_prefix(m, n), j) == (0 <= j < n && bit128(
            m,
            87 - j,
        )) by {
            if 0 <= j < 128 {
                let jj = j as u128;
                assert((0u128 >> jj) & 1u128 == 0) by (bit_vector);
            }
        }
    }
}

/// The input bits of `source_word(m)`: message bits 87 down to 7.
pub proof fn lemma_source_word_bits(m: u128)
    ensures
        forall|j: int| #[trigger] bit128(source_word(m), j) == (0 <= j < NUM_BITS_WSPR && bit128(m, 87 - j)),
{
    lemma_source_prefix_bits(m, NUM_BITS_WSPR as nat);
}

/// With input bits below `i` clear, only tap 0 can meet a set bit at step
/// `i`.
proof fn lemma_taps_hit_low_clear(d: u128, tap: u32, i: int, n: nat)
    requires
        1 <= n <= 32,
        0 <= i,
        forall|j: int| 0 <= j < i ==> !#[trigger] bit128(d, j),
    ensures
        taps_hit(d, tap, i, n) == if bit32(tap, 0) && bit128(d, i) {
            1nat
        } else {
            0nat
        },
    decreases n,
{
    if n > 1 {
        lemma_taps_hit_low_clear(d, tap, i, (n - 1) as nat);
        if n - 1 <= i {
            assert(!bit128(d, i - (n - 1)));
        }
    } else {
        assert(taps_hit(d, tap, i, 0) == 0);
    }
}

/// If the first-register parities of a word are clear for all 81 steps, so
/// are its first 81 bits: each step adds the new input bit through tap 0.
proof fn lemma_zero_parities_zero_input(d: u128, i: nat)
    requires
        i <= NUM_BITS_WSPR,
        forall|k: int| 0 <= k < NUM_BITS_WSPR ==> !#[trigger] parity_bit(d, REG0_TAP, k),
    ensures
        forall|j: int| 0 <= j < i ==> !#[trigger] bit128(d, j),
    decreases i,
{
    if i > 0 {
        lemma_zero_parities_zero_input(d, (i - 1) as nat);
        assert(bit32(REG0_TAP, 0)) by {
            assert((0xF2D05351u32 >> 0u32) & 1u32 == 1u32) by (bit_vector);
        }
        lemma_taps_hit_low_clear(d, REG0_TAP, i - 1, 32);
        assert(!parity_bit(d, REG0_TAP, i - 1));
    }
}

/// The code can be undone: two inputs with the same 162 channel bits agree
/// on all 81 input bits.
pub proof fn lemma_coded_bits_determine_input(x1: u128, x2: u128)
    requires
        forall|t: int| 0 <= t < NUM_CHANNEL_BITS ==> #[trigger] coded_bit(x1, t) == coded_bit(x2, t),
    ensures
        forall|j: int| 0 <= j < NUM_BITS_WSPR ==> #[trigger] bit128(x1, j) == bit128(x2, j),
{
    let d = x1 ^ x2;
    assert forall|k: int| 0 <= k < NUM_BITS_WSPR implies !#[trigger] parity_bit(d, REG0_TAP, k) by {
        lemma_convolution_linear(x1, x2, 2 * k);
        assert(coded_bit(x1, 2 * k) == coded_bit(x2, 2 * k));
        assert((2 * k) % 2 == 0 && (2 * k) / 2 == k);
    }
    lemma_zero_parities_zero_input(d, NUM_BITS_WSPR as nat);
    assert forall|j: int| 0 <= j < NUM_BITS_WSPR implies #[trigger] bit128(x1, j) == bit128(x2, j) by {
        lemma_bit128_xor(x1, x2, j);
        assert(!bit128(d, j));
    }
}

impl WSPRMessage {
    /// The encoder input for the packed message `bits`: bits 87 down to 7,
    /// that is the 50 message bits most significant first and then 31 zero
    /// bits, placed at input positions 0 to 80.
    pub fn source_bits(bits: u128) -> (r: u128)
        ensures
            r == source_word(bits),
    {
        let mut x: u128 = 0;
        let mut t: usize = 0;
        while t < NUM_BITS_WSPR
            invariant
                t <= NUM_BITS_WSPR,
                x == source_prefix(bits, t as nat),
            decreases NUM_BITS_WSPR - t,
        {
            x = x | (((bits >> ((87 - t) as u128)) & 1) << (t as u128));
            t = t + 1;
        }
        x
    }

    /// Convolutional coding at rate 1/2 with constraint length 32: input
    /// bits 0 to 80 of `bits` (see `source_bits`) enter two 32-bit shift registers least
    /// significant bit first, and after each one the parities of the
    /// registers masked with their taps become the next two channel bits.
    pub fn convolution_code(mut bits: u128) -> (r: WSPRBits)
        ensures
            r@ == coded_bits(bits),
    {
        let ghost source = bits;
        let mut out = WSPRBits::zeroed();
        let mut reg0: u32 = 0;
        let mut reg1: u32 = 0;
        let mut i: usize = 0;
        assert(source >> 0u128 == source) by (bit_vector);
        assert forall|k: u32| k < 32 implies !bit32(0u32, k) by {
            assert((0u32 >> k) & 1u32 == 0u32) by (bit_vector);
        }
        while i < NUM_BITS_WSPR
            invariant
                i <= NUM_BITS_WSPR,
                bits == source >> (i as u128),
                forall|k: u32|
                    k < 32 ==> #[trigger] bit32(reg0, k) == (k < i && bit128(source, i - 1 - k)),
                forall|k: u32|
                    k < 32 ==> #[trigger] bit32(reg1, k) == (k < i && bit128(source, i - 1 - k)),
                out@.len() == ARRAY_BITS,
                forall|t: int| 0 <= t < 2 * i ==> #[trigger] out@[t] == coded_bit(source, t),
                forall|t: int| 2 * i <= t < ARRAY_BITS ==> !#[trigger] out@[t],
            decreases NUM_BITS_WSPR - i,
        {
            let ghost prev0 = reg0;
            let ghost prev1 = reg1;
            proof {
                lemma_source_step(source, i as u128);
            }
            // Shift the next source bit into both registers.
            reg0 = reg0 << 1;
            reg0 = reg0 | (1 & (bits as u32));
            reg1 = reg1 << 1;
            reg1 = reg1 | (1 & (bits as u32));
            bits = bits >> 1;
            proof {
                assert forall|k: u32| k < 32 implies #[trigger] bit32(reg0, k) == (k <= i
                    && bit128(source, i - k)) by {
                    lemma_shift_in(prev0, (source >> (i as u128)) as u32, k);
                    if k > 0 {
                        assert(bit32(prev0, (k - 1) as u32) == ((k - 1) < i && bit128(source, i - 1 - (k - 1))));
                    }
                }
                assert forall|k: u32| k < 32 implies #[trigger] bit32(reg1, k) == (k <= i
                    && bit128(source, i - k)) by {
                    lemma_shift_in(prev1, (source >> (i as u128)) as u32, k);
                    if k > 0 {
                        assert(bit32(prev1, (k - 1) as u32) == ((k - 1) < i && bit128(source, i - 1 - (k - 1))));
                    }
                }
                assert forall|k: u32| k < 32 implies #[trigger] bit32(reg0 & REG0_TAP, k) == (
                bit32(REG0_TAP, k) && k <= i && bit128(source, i - k)) by {
                    lemma_and_bit(reg0, REG0_TAP, k);
                }
                assert forall|k: u32| k < 32 implies #[trigger] bit32(reg1 & REG1_TAP, k) == (
                bit32(REG1_TAP, k) && k <= i && bit128(source, i - k)) by {
                    lemma_and_bit(reg1, REG1_TAP, k);
                }
                lemma_ones_are_taps_hit(reg0 & REG0_TAP, source, REG0_TAP, i as int, 32);
                lemma_ones_are_taps_hit(reg1 & REG1_TAP, source, REG1_TAP, i as int, 32);
            }
            // Single bit parity of the masked registers.
            let parity1 = count_ones(reg0 & REG0_TAP) % 2 == 1;
            let parity2 = count_ones(reg1 & REG1_TAP) % 2 == 1;
            out.set(2 * i, parity1);
            out.set(2 * i + 1, parity2);
            i = i + 1;
            proof {
                assert forall|k: u32| k < 32 implies #[trigger] bit32(reg0, k) == (k < i
                    && bit128(source, i - 1 - k)) by {}
                assert forall|k: u32| k < 32 implies #[trigger] bit32(reg1, k) == (k < i
                    && bit128(source, i - 1 - k)) by {}
                assert(coded_bit(source, 2 * (i - 1)) == parity1);
                assert(coded_bit(source, 2 * (i - 1) + 1) == parity2);
            }
        }
        assert(out@ =~= coded_bits(source));
        out
    }
}

} // verus!
