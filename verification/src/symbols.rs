//! Channel symbols: each carries one channel bit and one bit of the fixed
//! synchronisation vector.
use vstd::prelude::*;
use crate::bitarray::{WSPRBits, ARRAY_BITS, NUM_CHANNEL_BITS};
use crate::callsign::{callsign_code, callsign_encodable, lemma_callsign_code_28_bits, standard_characters};
use crate::convolution::{
    bit128, coded_bit, coded_bits, lemma_coded_bits_determine_input, lemma_source_word_bits,
    source_word,
};
use crate::interleave::{interleave_source, interleaved_bits, lands, lemma_interleave_onto};
use crate::locator::valid_locator;
use crate::message::{
    lemma_locator_power_22_bits, locator_power_value, message_encodable, message_value, WSPRMessage,
};

verus! {

/// The pseudo-random synchronisation vector of WSPR, one entry per channel
/// symbol.
pub const SYNC_VECTOR: [u8; 162] = [
    1, 1, 0, 0, 0, 0, 0, 0, 1, 0, 0, 0, 1, 1, 1, 0, 0, 0, 1, 0, 0, 1, 0, 1, 1, 1, 1,
    0, 0, 0, 0, 0, 0, 0, 1, 0, 0, 1, 0, 1, 0, 0, 0, 0, 0, 0, 1, 0, 1, 1, 0, 0, 1, 1,
    0, 1, 0, 0, 0, 1, 1, 0, 1, 0, 0, 0, 0, 1, 1, 0, 1, 0, 1, 0, 1, 0, 1, 0, 0, 1, 0,
    0, 1, 0, 1, 1, 0, 0, 0, 1, 1, 0, 1, 0, 1, 0, 0, 0, 1, 0, 0, 0, 0, 0, 1, 0, 0, 1,
    0, 0, 1, 1, 1, 0, 1, 1, 0, 0, 1, 1, 0, 1, 0, 0, 0, 1, 1, 1, 0, 0, 0, 0, 0, 1, 0,
    1, 0, 0, 1, 1, 0, 0, 0, 0, 0, 0, 0, 1, 1, 0, 1, 0, 1, 1, 0, 0, 0, 1, 1, 0, 0, 0
];

/// Synchronisation bit `i`.
pub open spec fn sync_bit(i: int) -> bool {
    SYNC_VECTOR@[i] == 1
}

/// A four-level channel symbol, named by its (channel bit, sync bit) pair:
/// A = (0, 0), B = (0, 1), C = (1, 0), D = (1, 1).
#[derive(Clone, Copy, Debug, PartialEq, Eq, Structural)]
pub enum WSPRSymbol {
    A,
    B,
    C,
    D,
}

/// The symbol that carries channel bit `data` and synchronisation bit `sync`.
pub open spec fn symbol_of(data: bool, sync: bool) -> WSPRSymbol {
    if data {
        if sync {
            WSPRSymbol::D
        } else {
            WSPRSymbol::C
        }
    } else {
        if sync {
            WSPRSymbol::B
        } else {
            WSPRSymbol::A
        }
    }
}

impl WSPRSymbol {
    /// The channel bit a symbol carries.
    pub open spec fn data(self) -> bool {
        self is C || self is D
    }

    /// The synchronisation bit a symbol carries.
    pub open spec fn sync(self) -> bool {
        self is B || self is D
    }

    /// The tone of the symbol in units of the tone spacing: the sync bit
    /// plus twice the channel bit.
    pub fn tone(&self) -> (r: u32)
        ensures
            r == (if self.sync() {
                1int
            } else {
                0int
            }) + 2 * (if self.data() {
                1int
            } else {
                0int
            }),
    {
        match self {
            WSPRSymbol::A => 0,
            WSPRSymbol::B => 1,
            WSPRSymbol::C => 2,
            WSPRSymbol::D => 3,
        }
    }
}

/// The symbols for the first 162 bits of a channel bit array.
pub open spec fn channel_symbols(bits: Seq<bool>) -> Seq<WSPRSymbol> {
    Seq::new(NUM_CHANNEL_BITS as nat, |i: int| symbol_of(bits[i], sync_bit(i)))
}

/// The symbols transmitted for the packed message `m`: the coded bits of
/// its 50 message bits (most significant first) and 31 zero bits,
/// interleaved, merged with the synchronisation vector.
pub open spec fn transmission(m: u128) -> Seq<WSPRSymbol> {
    channel_symbols(interleaved_bits(coded_bits(source_word(m))))
}

/// Every transmission has 162 symbols, carries the synchronisation vector,
/// whatever the message, and carries the interleaved coded bits as data.
pub proof fn lemma_transmission_layout(m: u128)
    ensures
        transmission(m).len() == NUM_CHANNEL_BITS,
        forall|i: int| 0 <= i < NUM_CHANNEL_BITS ==> (#[trigger] transmission(m)[i]).sync() == sync_bit(i),
        forall|i: int|
            0 <= i < NUM_CHANNEL_BITS ==> (#[trigger] transmission(m)[i]).data() == interleaved_bits(
                coded_bits(source_word(m)),
            )[i],
{
}

/// The message can be read back from the symbols: two packed messages with
/// the same symbols agree on the 50 message bits (87 down to 38) and on the
/// 31 bits coded after them.
pub proof fn lemma_transmission_reads_back_bits(m1: u128, m2: u128)
    requires
        transmission(m1) == transmission(m2),
    ensures
        forall|j: int| 7 <= j < 88 ==> #[trigger] bit128(m1, j) == bit128(m2, j),
{
    let x1 = source_word(m1);
    let x2 = source_word(m2);
    lemma_interleave_onto();
    assert forall|t: int| 0 <= t < NUM_CHANNEL_BITS implies #[trigger] coded_bit(x1, t) == coded_bit(
        x2,
        t,
    ) by {
        assert(lands(t));
        let j = choose|j: int| 0 <= j < NUM_CHANNEL_BITS && #[trigger] interleave_source(j) == t;
        assert(transmission(m1)[j] == transmission(m2)[j]);
        assert(transmission(m1)[j].data() == interleaved_bits(coded_bits(x1))[j]);
        assert(transmission(m2)[j].data() == interleaved_bits(coded_bits(x2))[j]);
    }
    lemma_coded_bits_determine_input(x1, x2);
    lemma_source_word_bits(m1);
    lemma_source_word_bits(m2);
    assert forall|j: int| 7 <= j < 88 implies #[trigger] bit128(m1, j) == bit128(m2, j) by {
        assert(bit128(x1, 87 - j) == bit128(x2, 87 - j));
    }
}

/// A word with no set bit is zero, shown from the top: every right shift of
/// it is zero.
proof fn lemma_shifts_clear(d: u128, n: u128)
    requires
        n < 128,
        forall|j: int| 0 <= j < 128 ==> !#[trigger] bit128(d, j),
    ensures
        d >> n == 0,
    decreases 127 - n,
{
    assert(!bit128(d, n as int));
    if n == 127 {
        assert(d >> n == 0) by (bit_vector)
            requires
                n == 127,
                (d >> n) & 1u128 != 1u128,
        ;
    } else {
        lemma_shifts_clear(d, (n + 1) as u128);
        assert(d >> n == 0) by (bit_vector)
            requires
                n < 127,
                d >> ((n + 1) as u128) == 0,
                (d >> n) & 1u128 != 1u128,
        ;
    }
}

/// The bits of a packed message: nothing below bit 38 or from bit 88 up,
/// and the two fields recovered by shifting.
proof fn lemma_packed_bits(c: u128, l: u128, m: u128)
    requires
        c < 0x1000_0000,
        l < 0x40_0000,
        m == c * 0x1000_0000_0000_0000 + l * 0x40_0000_0000,
    ensures
        forall|j: int| 0 <= j < 38 || 88 <= j ==> !#[trigger] bit128(m, j),
        m >> 60u128 == c,
        (m >> 38u128) & 0x3f_ffffu128 == l,
{
    assert(m >> 60u128 == c && (m >> 38u128) & 0x3f_ffffu128 == l) by (bit_vector)
        requires
            c < 0x1000_0000,
            l < 0x40_0000,
            m == c * 0x1000_0000_0000_0000 + l * 0x40_0000_0000,
    ;
    assert forall|j: int| 0 <= j < 38 || 88 <= j implies !#[trigger] bit128(m, j) by {
        if 0 <= j < 128 {
            let k = j as u128;
            assert((m >> k) & 1u128 == 0) by (bit_vector)
                requires
                    c < 0x1000_0000,
                    l < 0x40_0000,
                    m == c * 0x1000_0000_0000_0000 + l * 0x40_0000_0000,
                    k < 38 || (88 <= k && k < 128),
            ;
        }
    }
}

/// A callsign code below 2^28 and a locator and power field below 2^22 can
/// be read back from the symbols of their packed message.
pub proof fn lemma_transmission_reads_back(c1: u128, l1: u128, c2: u128, l2: u128)
    requires
        c1 < 0x1000_0000,
        l1 < 0x40_0000,
        c2 < 0x1000_0000,
        l2 < 0x40_0000,
        transmission((c1 * 0x1000_0000_0000_0000 + l1 * 0x40_0000_0000) as u128) == transmission(
            (c2 * 0x1000_0000_0000_0000 + l2 * 0x40_0000_0000) as u128,
        ),
    ensures
        c1 == c2,
        l1 == l2,
{
    let m1 = (c1 * 0x1000_0000_0000_0000 + l1 * 0x40_0000_0000) as u128;
    let m2 = (c2 * 0x1000_0000_0000_0000 + l2 * 0x40_0000_0000) as u128;
    lemma_packed_bits(c1, l1, m1);
    lemma_packed_bits(c2, l2, m2);
    lemma_transmission_reads_back_bits(m1, m2);
    let d = m1 ^ m2;
    assert forall|j: int| 0 <= j < 128 implies !#[trigger] bit128(d, j) by {
        let k = j as u128;
        assert(bit128(m1, j) == bit128(m2, j));
        assert(((m1 ^ m2) >> k) & 1u128 != 1u128) by (bit_vector)
            requires
                ((m1 >> k) & 1u128 == 1u128) == ((m2 >> k) & 1u128 == 1u128),
        ;
    }
    lemma_shifts_clear(d, 0);
    assert(m1 == m2) by (bit_vector)
        requires
            (m1 ^ m2) >> 0u128 == 0,
    ;
}

/// Two messages in the standard form with the same symbols have the same
/// callsign code and the same locator and power field.
pub proof fn lemma_message_reads_back(
    a: (Seq<char>, (u32, u32, u32, u32), u32),
    b: (Seq<char>, (u32, u32, u32, u32), u32),
)
    requires
        callsign_encodable(a.0),
        standard_characters(a.0),
        valid_locator(a.1),
        a.2 <= 60,
        callsign_encodable(b.0),
        standard_characters(b.0),
        valid_locator(b.1),
        b.2 <= 60,
        transmission(message_value(a) as u128) == transmission(message_value(b) as u128),
    ensures
        callsign_code(a.0) == callsign_code(b.0),
        locator_power_value(a.1, a.2) == locator_power_value(b.1, b.2),
{
    lemma_callsign_code_28_bits(a.0);
    lemma_callsign_code_28_bits(b.0);
    lemma_locator_power_22_bits(a.1, a.2);
    lemma_locator_power_22_bits(b.1, b.2);
    lemma_transmission_reads_back(
        callsign_code(a.0) as u128,
        locator_power_value(a.1, a.2) as u128,
        callsign_code(b.0) as u128,
        locator_power_value(b.1, b.2) as u128,
    );
}

impl WSPRMessage {
    /// Merges the first 162 bits of `bits` with the synchronisation vector
    /// into channel symbols.
    pub fn get_symbols(bits: WSPRBits) -> (r: Vec<WSPRSymbol>)
        requires
            bits@.len() == ARRAY_BITS,
        ensures
            r@ == channel_symbols(bits@),
    {
        let mut sym_bits: Vec<WSPRSymbol> = Vec::new();
        let mut i: usize = 0;
        while i < NUM_CHANNEL_BITS
            invariant
                i <= NUM_CHANNEL_BITS,
                bits@.len() == ARRAY_BITS,
                sym_bits@ =~= channel_symbols(bits@).take(i as int),
            decreases NUM_CHANNEL_BITS - i,
        {
            let b = bits.get(i).unwrap();
            let s = SYNC_VECTOR[i] == 1;
            sym_bits.push(
                match (b, s) {
                    (false, false) => WSPRSymbol::A,
                    (false, true) => WSPRSymbol::B,
                    (true, false) => WSPRSymbol::C,
                    (true, true) => WSPRSymbol::D,
                },
            );
            i = i + 1;
        }
        assert(channel_symbols(bits@).take(NUM_CHANNEL_BITS as int) =~= channel_symbols(bits@));
        sym_bits
    }

    /// The symbols of the whole transmission: the packed message, coded,
    /// interleaved and merged with the synchronisation vector.
    pub fn encode_transmission(self) -> (r: Vec<WSPRSymbol>)
        requires
            message_encodable(self@),
        ensures
            r@ == transmission(message_value(self@) as u128),
    {
        let bits = self.encode();
        let bits = WSPRMessage::source_bits(bits);
        let bits = WSPRMessage::convolution_code(bits);
        let bits = WSPRMessage::interleave(bits);
        WSPRMessage::get_symbols(bits)
    }
}

} // verus!
