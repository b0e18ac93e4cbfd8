//! The bit-reversal interleaver of WSPR.
use vstd::prelude::*;
use vstd::set_lib::{lemma_int_range, lemma_len_subset, lemma_map_size, set_int_range};
use crate::bitarray::{WSPRBits, ARRAY_BITS, NUM_CHANNEL_BITS};
use crate::message::WSPRMessage;

verus! {

/// The byte with the bits of `x` in reverse order: bit `k` of the result is
/// bit `7 - k` of `x`.
pub open spec fn rev8(x: u8) -> u8 {
    ((x & 0x01) << 7u8) | ((x & 0x02) << 5u8) | ((x & 0x04) << 3u8) | ((x & 0x08) << 1u8) | ((x
        & 0x10) >> 1u8) | ((x & 0x20) >> 3u8) | ((x & 0x40) >> 5u8) | ((x & 0x80) >> 7u8)
}

/// The bits of `x` in reverse order.
fn reverse_bits(x: u8) -> (r: u8)
    ensures
        r == rev8(x),
{
    ((x & 0x01) << 7u8) | ((x & 0x02) << 5u8) | ((x & 0x04) << 3u8) | ((x & 0x08) << 1u8) | ((x
        & 0x10) >> 1u8) | ((x & 0x20) >> 3u8) | ((x & 0x40) >> 5u8) | ((x & 0x80) >> 7u8)
}

/// `rev8` reverses: bit `k` of `rev8(x)` is bit `7 - k` of `x`.
pub proof fn lemma_rev8_reverses(x: u8, k: u8)
    requires
        k < 8,
    ensures
        (rev8(x) >> k) & 1 == (x >> ((7 - k) as u8)) & 1,
{
    assert((rev8(x) >> k) & 1 == (x >> ((7 - k) as u8)) & 1) by (bit_vector)
        requires
            k < 8,
    ;
}

/// Reversing twice gives the byte back.
pub proof fn lemma_rev8_involution(x: u8)
    ensures
        rev8(rev8(x)) == x,
{
    assert(rev8(rev8(x)) == x) by (bit_vector);
}

/// Number of bytes below `n` whose reversal is a channel index (below 162):
/// the channel bits the interleaver has placed before it reaches byte `n`.
pub open spec fn rank(n: nat) -> nat
    decreases n,
{
    if n == 0 {
        0
    } else {
        rank((n - 1) as nat) + if rev8((n - 1) as u8) < NUM_CHANNEL_BITS {
            1nat
        } else {
            0nat
        }
    }
}

/// The input position whose bit the interleaver writes to channel index `j`:
/// position `j` is written at byte `rev8(j)`, with the bit that comes next
/// in input order.
pub open spec fn interleave_source(j: int) -> nat {
    rank(rev8(j as u8) as nat)
}

/// The interleaved array: each channel index `j` below 162 holds input bit
/// `interleave_source(j)`, the rest are clear.
pub open spec fn interleaved_bits(input: Seq<bool>) -> Seq<bool> {
    Seq::new(
        ARRAY_BITS as nat,
        |j: int|
            if j < NUM_CHANNEL_BITS {
                input[interleave_source(j) as int]
            } else {
                false
            },
    )
}

/// Which bytes have a reversal below 162, in terms of their bits: `162` is
/// `0b1010_0010`.
proof fn lemma_rev8_below_channel(x: u8)
    ensures
        (rev8(x) < 162) == (x % 2 == 0 || ((x / 2) % 2 == 0 && ((x / 4) % 2 == 0 || (x / 8) % 16
            == 0))),
{
    assert((rev8(x) < 162) == (x % 2 == 0 || ((x / 2) % 2 == 0 && ((x / 4) % 2 == 0 || (x / 8)
        % 16 == 0)))) by (bit_vector);
}

/// `x = q * d + r` with `0 <= r < d` has quotient `q` and remainder `r`.
proof fn lemma_divmod(x: int, d: int, q: int, r: int)
    requires
        0 <= r < d,
        x == q * d + r,
    ensures
        x / d == q,
        x % d == r,
{
    vstd::arithmetic::div_mod::lemma_fundamental_div_mod_converse(x, d, q, r);
}

/// One step of `rank`, with the reversal test written in terms of the
/// bits of byte `8 * q + r`.
proof fn lemma_rank_step(q: int, r: int)
    requires
        0 <= q < 32,
        0 <= r < 8,
    ensures
        rank((8 * q + r + 1) as nat) == rank((8 * q + r) as nat) + if r % 2 == 0 || r == 1 || (r
            == 5 && q % 16 == 0) {
            1nat
        } else {
            0nat
        },
{
    let x = 8 * q + r;
    lemma_rev8_below_channel(x as u8);
    assert((x as u8) as int == x);
    lemma_divmod(x, 2, 4 * q + r / 2, r % 2);
    lemma_divmod(x / 2, 2, 2 * q + r / 4, (r / 2) % 2);
    lemma_divmod(x, 4, 2 * q + r / 4, r % 4);
    lemma_divmod(x / 4, 2, q, (r / 4) % 2);
    lemma_divmod(x, 8, q, r);
    assert(rank((x + 1) as nat) == rank(x as nat) + if rev8(x as u8) < NUM_CHANNEL_BITS {
        1nat
    } else {
        0nat
    });
}

/// Each block of eight bytes holds five channel positions, and a sixth in
/// the blocks `0` and `16` (bytes 5 and 133).
proof fn lemma_rank_block(q: nat)
    requires
        q < 32,
    ensures
        rank(8 * q + 8) == rank(8 * q) + 5 + if q % 16 == 0 {
            1nat
        } else {
            0nat
        },
{
    lemma_rank_step(q as int, 0);
    lemma_rank_step(q as int, 1);
    lemma_rank_step(q as int, 2);
    lemma_rank_step(q as int, 3);
    lemma_rank_step(q as int, 4);
    lemma_rank_step(q as int, 5);
    lemma_rank_step(q as int, 6);
    lemma_rank_step(q as int, 7);
}

proof fn lemma_rank_blocks(q: nat)
    requires
        q <= 32,
    ensures
        rank(8 * q) == 5 * q + (q + 15) / 16,
    decreases q,
{
    if q > 0 {
        lemma_rank_blocks((q - 1) as nat);
        lemma_rank_block((q - 1) as nat);
    }
}

/// Exactly 162 of the 256 byte values reverse to a channel index.
pub proof fn lemma_rank_total()
    ensures
        rank(256) == NUM_CHANNEL_BITS,
{
    lemma_rank_blocks(32);
}

/// Positions further on have placed at least as many bits.
proof fn lemma_rank_monotone(a: nat, b: nat)
    requires
        a <= b,
    ensures
        rank(a) <= rank(b),
    decreases b,
{
    if a < b {
        lemma_rank_monotone(a, (b - 1) as nat);
    }
}

/// The interleaver permutes the channel bits: every channel index reads an
/// input position below 162, and no two channel indices read the same one.
pub proof fn lemma_interleave_is_permutation()
    ensures
        forall|j: int| 0 <= j < NUM_CHANNEL_BITS ==> #[trigger] interleave_source(j) < NUM_CHANNEL_BITS,
        forall|j1: int, j2: int|
            0 <= j1 < NUM_CHANNEL_BITS && 0 <= j2 < NUM_CHANNEL_BITS && j1 != j2
                ==> #[trigger] interleave_source(j1) != #[trigger] interleave_source(j2),
{
    lemma_rank_total();
    assert forall|j: int| 0 <= j < NUM_CHANNEL_BITS implies #[trigger] interleave_source(j)
        < NUM_CHANNEL_BITS by {
        let a = rev8(j as u8);
        lemma_rev8_involution(j as u8);
        lemma_rank_monotone((a + 1) as nat, 256);
    }
    assert forall|j1: int, j2: int|
        0 <= j1 < NUM_CHANNEL_BITS && 0 <= j2 < NUM_CHANNEL_BITS && j1 != j2
            implies #[trigger] interleave_source(j1) != #[trigger] interleave_source(j2) by {
        let a1 = rev8(j1 as u8);
        let a2 = rev8(j2 as u8);
        lemma_rev8_involution(j1 as u8);
        lemma_rev8_involution(j2 as u8);
        if a1 < a2 {
            lemma_rank_monotone((a1 + 1) as nat, a2 as nat);
        } else {
            lemma_rank_monotone((a2 + 1) as nat, a1 as nat);
        }
    }
}

/// The bytes below `n` whose reversal is a channel index (below 162).
pub open spec fn placed_before(n: int) -> Set<int> {
    Set::new(|i: int| 0 <= i < n && rev8(i as u8) < NUM_CHANNEL_BITS)
}

/// `rank(n)` counts the bytes of `placed_before(n)`.
proof fn lemma_rank_counts(n: nat)
    requires
        n <= 256,
    ensures
        placed_before(n as int).finite(),
        placed_before(n as int).len() == rank(n),
    decreases n,
{
    if n == 0 {
        assert(placed_before(0) =~= Set::<int>::empty());
    } else {
        lemma_rank_counts((n - 1) as nat);
        let prev = placed_before(n - 1);
        let i = n - 1;
        assert(((i as nat) as u8) == (i as u8));
        if rev8(i as u8) < NUM_CHANNEL_BITS {
            assert(placed_before(n as int) =~= prev.insert(i));
            assert(!prev.contains(i));
        } else {
            assert(placed_before(n as int) =~= prev);
        }
    }
}

/// What the interleaver does, stated over the byte values: channel index
/// `j` (below 162) holds the input bit whose position is the number of
/// bytes below `rev8(j)` that themselves reverse to a channel index; that
/// is, input bits are dealt out in input order to the channel indices `j`
/// taken in increasing order of `rev8(j)`.
pub proof fn lemma_interleave_reads(input: Seq<bool>, j: int)
    requires
        0 <= j < NUM_CHANNEL_BITS,
    ensures
        placed_before(rev8(j as u8) as int).finite(),
        interleaved_bits(input)[j] == input[placed_before(rev8(j as u8) as int).len() as int],
{
    let a = rev8(j as u8);
    lemma_rank_counts(a as nat);
    assert(interleave_source(j) == rank(a as nat));
    assert(interleaved_bits(input)[j] == input[interleave_source(j) as int]);
}

/// Input order is kept along the reversal order: of two channel indices,
/// the one whose reversal is smaller reads the earlier input position.
pub proof fn lemma_interleave_order(j1: int, j2: int)
    requires
        0 <= j1 < NUM_CHANNEL_BITS,
        0 <= j2 < NUM_CHANNEL_BITS,
        rev8(j1 as u8) < rev8(j2 as u8),
    ensures
        interleave_source(j1) < interleave_source(j2),
{
    let a1 = rev8(j1 as u8);
    let a2 = rev8(j2 as u8);
    lemma_rev8_involution(j1 as u8);
    lemma_rank_monotone((a1 + 1) as nat, a2 as nat);
}

/// Every count below `rank(n)` is reached at some byte below `n` that
/// places a bit.
proof fn lemma_rank_reaches(p: nat, n: nat)
    requires
        p < rank(n),
    ensures
        exists|i: int| 0 <= i < n && #[trigger] rank(i as nat) == p && rev8(i as u8) < NUM_CHANNEL_BITS,
    decreases n,
{
    if p < rank((n - 1) as nat) {
        lemma_rank_reaches(p, (n - 1) as nat);
    } else {
        let i = n - 1;
        assert(rank(i as nat) == p && rev8(i as u8) < NUM_CHANNEL_BITS);
    }
}

/// Input position `p` goes to some channel index.
pub open spec fn lands(p: int) -> bool {
    exists|j: int| 0 <= j < NUM_CHANNEL_BITS && #[trigger] interleave_source(j) == p
}

/// Every input position below 162 lands at some channel index: with the
/// injectivity above, `interleave_source` is a bijection of `0..162`.
pub proof fn lemma_interleave_onto()
    ensures
        forall|p: int| 0 <= p < NUM_CHANNEL_BITS ==> #[trigger] lands(p),
{
    lemma_rank_total();
    assert forall|p: int| 0 <= p < NUM_CHANNEL_BITS implies #[trigger] lands(p) by {
        lemma_rank_reaches(p as nat, 256);
        let i = choose|i: int| 0 <= i < 256 && #[trigger] rank(i as nat) == p && rev8(i as u8)
            < NUM_CHANNEL_BITS;
        let j = rev8(i as u8) as int;
        lemma_rev8_involution(i as u8);
        assert((j as u8) == rev8(i as u8));
        assert(interleave_source(j) == p);
    }
}

/// The set channel bits among the first 162.
pub open spec fn set_channel_bits(s: Seq<bool>) -> Set<int> {
    Set::new(|j: int| 0 <= j < NUM_CHANNEL_BITS && s[j])
}

/// Interleaving keeps the number of set channel bits.
pub proof fn lemma_interleave_keeps_count(input: Seq<bool>)
    requires
        input.len() == ARRAY_BITS,
    ensures
        set_channel_bits(interleaved_bits(input)).finite(),
        set_channel_bits(input).finite(),
        set_channel_bits(interleaved_bits(input)).len() == set_channel_bits(input).len(),
{
    lemma_interleave_is_permutation();
    lemma_interleave_onto();
    let out = interleaved_bits(input);
    let a = set_channel_bits(out);
    let b = set_channel_bits(input);
    let f = |j: int| interleave_source(j) as int;
    lemma_int_range(0, NUM_CHANNEL_BITS as int);
    assert(a.subset_of(set_int_range(0, NUM_CHANNEL_BITS as int)));
    lemma_len_subset(a, set_int_range(0, NUM_CHANNEL_BITS as int));
    assert(vstd::relations::injective_on(f, a)) by {
        assert forall|x1: int, x2: int| a.contains(x1) && a.contains(x2) && #[trigger] f(x1) == #[trigger] f(
            x2,
        ) implies x1 == x2 by {
            if x1 != x2 {
                assert(interleave_source(x1) != interleave_source(x2));
            }
        }
    }
    assert(a.map(f) =~= b) by {
        assert forall|p: int| b.contains(p) implies a.map(f).contains(p) by {
            assert(lands(p));
            let j = choose|j: int| 0 <= j < NUM_CHANNEL_BITS && #[trigger] interleave_source(j) == p;
            assert(a.contains(j) && f(j) == p);
        }
        assert forall|p: int| a.map(f).contains(p) implies b.contains(p) by {
            let j = choose|j: int| a.contains(j) && f(j) == p;
            assert(interleave_source(j) < NUM_CHANNEL_BITS);
        }
    }
    lemma_map_size(a, b, f);
}

/// Interleaving works bit by bit: it commutes with the exclusive or of two
/// arrays.
pub proof fn lemma_interleave_xor(a: Seq<bool>, b: Seq<bool>)
    requires
        a.len() == ARRAY_BITS,
        b.len() == ARRAY_BITS,
    ensures
        interleaved_bits(Seq::new(ARRAY_BITS as nat, |i: int| a[i] != b[i])) == Seq::new(
            ARRAY_BITS as nat,
            |j: int| interleaved_bits(a)[j] != interleaved_bits(b)[j],
        ),
{
    lemma_interleave_is_permutation();
    let x = Seq::new(ARRAY_BITS as nat, |i: int| a[i] != b[i]);
    assert(interleaved_bits(x) =~= Seq::new(
        ARRAY_BITS as nat,
        |j: int| interleaved_bits(a)[j] != interleaved_bits(b)[j],
    ));
}

impl WSPRMessage {
    /// Interleaving by bit reversal: for each byte value `i` in increasing
    /// order whose reversal `j` is below 162, the next input bit goes to
    /// channel index `j`.
    pub fn interleave(bits: WSPRBits) -> (r: WSPRBits)
        requires
            bits@.len() == ARRAY_BITS,
        ensures
            r@ == interleaved_bits(bits@),
            forall|j: int|
                0 <= j < NUM_CHANNEL_BITS ==> #[trigger] r@[j] == bits@[placed_before(
                    rev8(j as u8) as int,
                ).len() as int],
    {
        let mut out = WSPRBits::zeroed();
        let mut p: usize = 0;
        let mut i: u32 = 0;
        proof {
            lemma_rank_total();
        }
        while i < 256
            invariant
                i <= 256,
                p == rank(i as nat),
                p < NUM_CHANNEL_BITS,
                rank(256) == NUM_CHANNEL_BITS,
                bits@.len() == ARRAY_BITS,
                out@.len() == ARRAY_BITS,
                forall|j: int|
                    0 <= j < ARRAY_BITS ==> #[trigger] out@[j] == if j < NUM_CHANNEL_BITS && (rev8(
                        j as u8,
                    ) as int) < i {
                        bits@[interleave_source(j) as int]
                    } else {
                        false
                    },
            decreases 256 - i,
        {
            let ghost before = out@;
            let j = reverse_bits(i as u8) as usize;
            proof {
                lemma_rev8_involution(i as u8);
                assert forall|j2: int| 0 <= j2 < ARRAY_BITS && j2 != j implies (#[trigger] rev8(j2 as u8)
                    as int) != i by {
                    lemma_rev8_involution(j2 as u8);
                }
            }
            if j < NUM_CHANNEL_BITS {
                let bit = bits.get(p).unwrap();
                out.set(j, bit);
                p = p + 1;
                if p == NUM_CHANNEL_BITS {
                    proof {
                        assert forall|j2: int| 0 <= j2 < NUM_CHANNEL_BITS implies (#[trigger] rev8(
                            j2 as u8,
                        ) as int) <= i by {
                            let a = rev8(j2 as u8);
                            lemma_rev8_involution(j2 as u8);
                            if a > i {
                                lemma_rank_monotone((i + 1) as nat, a as nat);
                                lemma_rank_monotone((a + 1) as nat, 256);
                            }
                        }
                        assert(out@ =~= interleaved_bits(bits@));
                        assert forall|j2: int| 0 <= j2 < NUM_CHANNEL_BITS implies #[trigger] out@[j2]
                            == bits@[placed_before(rev8(j2 as u8) as int).len() as int] by {
                            lemma_interleave_reads(bits@, j2);
                        }
                    }
                    return out;
                }
            }
            i = i + 1;
        }
        assert(out@ =~= interleaved_bits(bits@));
        assert forall|j2: int| 0 <= j2 < NUM_CHANNEL_BITS implies #[trigger] out@[j2] == bits@[placed_before(
            rev8(j2 as u8) as int,
        ).len() as int] by {
            lemma_interleave_reads(bits@, j2);
        }
        out
    }
}

} // verus!
