//! WSPR messages (callsign, locator, power) and their packing into the
//! source bits of a transmission.
use vstd::prelude::*;
use vstd::string::*;
use crate::callsign::{
    callsign_code, callsign_encodable, padded_callsign, standard_characters, uppercase_of, Callsign,
};
use crate::locator::{locator_bytes_ok, locator_fields, valid_locator, Locator};

verus! {

/// The locator and power field: ((179 - 10 * lon_field - lon_square) * 180
/// + 10 * lat_field + lat_square) * 128 + power + 64, with the square
/// digits taken as their values (the byte less `b'0'`).
pub open spec fn locator_power_value(l: (u32, u32, u32, u32), power: u32) -> int {
    ((179 - 10 * l.0 - (l.2 - 48)) * 180 + 10 * l.1 + (l.3 - 48)) * 128 + power + 64
}

/// Fields for which `encode_locator_power` computes without an arithmetic
/// fault: the square characters are not below `'0'`, the subtractions stay
/// non-negative and the result fits a `u32`.
pub open spec fn locator_power_encodable(l: (u32, u32, u32, u32), power: u32) -> bool {
    &&& 48 <= l.2
    &&& 48 <= l.3
    &&& 10 * l.0 + (l.2 - 48) <= 179
    &&& locator_power_value(l, power) <= u32::MAX
}

/// 2^60: the place of the callsign code in the packed message.
pub open spec fn callsign_place() -> int {
    0x1000_0000_0000_0000
}

/// 2^38: the place of the locator and power field in the packed message.
pub open spec fn locator_power_place() -> int {
    0x40_0000_0000
}

/// The packed message: the callsign code at bit 60 and the locator and
/// power field at bit 38, above 38 zero bits.
pub open spec fn message_value(m: (Seq<char>, (u32, u32, u32, u32), u32)) -> int {
    callsign_code(m.0) * callsign_place() + locator_power_value(m.1, m.2) * locator_power_place()
}

/// Messages that `WSPRMessage::encode` packs without an arithmetic fault.
pub open spec fn message_encodable(m: (Seq<char>, (u32, u32, u32, u32), u32)) -> bool {
    callsign_encodable(m.0) && locator_power_encodable(m.1, m.2)
}

/// The locator and power field of a locator in range and a power of at
/// most 60 dBm fits 22 bits.
pub proof fn lemma_locator_power_22_bits(l: (u32, u32, u32, u32), power: u32)
    requires
        valid_locator(l),
        power <= 60,
    ensures
        0 <= locator_power_value(l, power) < 0x40_0000,
        locator_power_encodable(l, power),
{
}

/// `x = q * d + r` with `0 <= r < d` has quotient `q` and remainder `r`.
proof fn lemma_divmod(x: int, d: int, q: int, r: int)
    requires
        0 <= r < d,
        x == q * d + r,
    ensures
        x / d == q,
        x % d == r,
{
    vstd::arithmetic::div_mod::lemma_fundamental_div_mod_converse(x, d, q, r);
}

/// The locator and power can be read back from the field: the remainder
/// modulo 128 is the power plus 64; of the quotient, the remainder modulo 180
/// gives the latitude letter (tens) and digit (units), and 179 less the
/// quotient by 180 gives the longitude letter (tens) and digit (units).
pub proof fn lemma_locator_power_decodes(l: (u32, u32, u32, u32), power: u32)
    requires
        valid_locator(l),
        power <= 60,
    ensures
        ({
            let v = locator_power_value(l, power);
            &&& v % 128 == power + 64
            &&& ((v / 128) % 180) / 10 == l.1
            &&& ((v / 128) % 180) % 10 == l.3 - 48
            &&& (179 - (v / 128) / 180) / 10 == l.0
            &&& (179 - (v / 128) / 180) % 10 == l.2 - 48
        }),
{
    let v = locator_power_value(l, power);
    let x = 179 - 10 * l.0 - (l.2 - 48);
    let y = 10 * l.1 + (l.3 - 48);
    lemma_divmod(v, 128, x * 180 + y, power + 64);
    lemma_divmod(x * 180 + y, 180, x, y);
    lemma_divmod(y, 10, l.1 as int, l.3 - 48);
    lemma_divmod(179 - x, 10, l.0 as int, l.2 - 48);
}

/// A WSPR message: callsign, locator and transmit power in dBm.
pub struct WSPRMessage {
    callsign: Callsign,
    locator: Locator,
    power: u32,
}

impl View for WSPRMessage {
    /// The callsign field, the locator fields and the power.
    type V = (Seq<char>, (u32, u32, u32, u32), u32);

    closed spec fn view(&self) -> (Seq<char>, (u32, u32, u32, u32), u32) {
        (self.callsign@, self.locator@, self.power)
    }
}

impl WSPRMessage {
    /// The power is at most 60 dBm.
    #[verifier::type_invariant]
    spec fn well_formed(self) -> bool {
        self.power <= 60
    }

    /// A message from a callsign, a four-character locator and a power of at
    /// most 60 dBm.
    pub fn new(callsign: &str, locator: &str, power: u32) -> (r: WSPRMessage)
        requires
            power <= 60,
            locator.spec_bytes().len() == 4,
            locator_bytes_ok(locator.spec_bytes()),
        ensures
            r@ == (
                padded_callsign(uppercase_of(callsign@)),
                locator_fields(locator.spec_bytes()),
                power,
            ),
            r@.2 <= 60,
    {
        let callsign = Callsign::new(callsign);
        let locator = Locator::from_str(locator).expect("Invalid maidenhead locator :3");
        WSPRMessage { callsign, locator, power }
    }

    /// Whether `encode` (and so `encode_transmission`) can pack this
    /// message without an arithmetic fault.
    pub fn is_encodable(&self) -> (r: bool)
        ensures
            r == message_encodable(self@),
    {
        proof {
            use_type_invariant(self);
        }
        let (l0, l1, l2, l3) = self.locator.fields();
        let p = self.power as u128;
        let (l0, l1, l2, l3) = (l0 as u128, l1 as u128, l2 as u128, l3 as u128);
        let locator_ok = if 48 <= l2 && 48 <= l3 && 10 * l0 + (l2 - 48) <= 179 {
            let v = ((179 - 10 * l0 - (l2 - 48)) * 180 + 10 * l1 + (l3 - 48)) * 128 + p + 64;
            v <= u32::MAX as u128
        } else {
            false
        };
        locator_ok && self.callsign.is_encodable()
    }

    /// The 22-bit locator and power field.
    pub fn encode_locator_power(&self) -> (r: u32)
        requires
            locator_power_encodable(self@.1, self@.2),
        ensures
            r == locator_power_value(self@.1, self@.2),
            valid_locator(self@.1) ==> r < 0x40_0000,
            valid_locator(self@.1) ==> {
                &&& r % 128 == self@.2 + 64
                &&& ((r / 128) % 180) / 10 == self@.1.1
                &&& ((r / 128) % 180) % 10 == self@.1.3 - 48
                &&& (179 - (r / 128) / 180) / 10 == self@.1.0
                &&& (179 - (r / 128) / 180) % 10 == self@.1.2 - 48
            },
    {
        proof {
            use_type_invariant(self);
        }
        let (l0, l1, l2, l3) = self.locator.fields();
        let p = self.power;
        let ghost v = locator_power_value(self@.1, self@.2);
        let a = 179 - 10 * l0 - (l2 - 48);
        assert(0 <= a <= 179);
        assert(a * 180 <= (a * 180 + 10 * l1 + (l3 - 48)) * 128 + p + 64 <= u32::MAX)
            by (nonlinear_arith)
            requires
                0 <= a,
                l3 >= 48,
                (a * 180 + 10 * l1 + (l3 - 48)) * 128 + p + 64 <= u32::MAX,
        ;
        let b = a * 180 + 10 * l1 + (l3 - 48);
        assert(b * 128 + p + 64 == v);
        proof {
            use_type_invariant(self);
            if valid_locator(self@.1) {
                lemma_locator_power_decodes(self@.1, self@.2);
            }
        }
        b * 128 + p + 64
    }

    /// The packed message: the callsign code shifted to bit 60 plus the
    /// locator and power field shifted to bit 38.
    pub fn encode(&self) -> (r: u128)
        requires
            message_encodable(self@),
        ensures
            r == message_value(self@),
            (r as int) % locator_power_place() == 0,
            valid_locator(self@.1) ==> ((r as int) / locator_power_place()) % 0x40_0000
                == locator_power_value(self@.1, self@.2),
            valid_locator(self@.1) ==> (r as int) / callsign_place() == callsign_code(self@.0),
            valid_locator(self@.1) && standard_characters(self@.0) ==> r < 0x100_0000_0000_0000_0000_0000,
    {
        let callsign_bits = self.callsign.encode() as u128;
        let locator_power_bits = self.encode_locator_power() as u128;
        assert(callsign_bits << 60 == callsign_bits * 0x1000_0000_0000_0000) by (bit_vector)
            requires
                callsign_bits < 0x1_0000_0000,
        ;
        assert(locator_power_bits << 38 == locator_power_bits * 0x40_0000_0000) by (bit_vector)
            requires
                locator_power_bits < 0x1_0000_0000,
        ;
        let r = (callsign_bits << 60) + (locator_power_bits << 38);
        proof {
            let c = callsign_bits as int;
            let l = locator_power_bits as int;
            assert(r == c * 0x400000 * 0x40_0000_0000 + l * 0x40_0000_0000);
            assert((c * 0x400000 + l) * 0x40_0000_0000 == r) by (nonlinear_arith)
                requires r == c * 0x400000 * 0x40_0000_0000 + l * 0x40_0000_0000;
            lemma_mul_mod_zero(c * 0x400000 + l, 0x40_0000_0000);
            if l < 0x40_0000 {
                lemma_div_exact(c * 0x400000 + l, 0x40_0000_0000);
                lemma_place_decompose(c, l, 0x400000);
                vstd::arithmetic::div_mod::lemma_div_denominator(r as int, 0x40_0000_0000, 0x400000);
            }
        }
        r
    }
}

proof fn lemma_mul_mod_zero(a: int, b: int)
    requires
        a >= 0,
        b > 0,
    ensures
        (a * b) % b == 0,
{
    vstd::arithmetic::div_mod::lemma_mod_multiples_basic(a, b);
}

proof fn lemma_div_exact(a: int, b: int)
    requires
        a >= 0,
        b > 0,
    ensures
        (a * b) / b == a,
{
    vstd::arithmetic::div_mod::lemma_div_multiples_vanish(a, b);
    assert(a * b == b * a) by (nonlinear_arith);
}

/// `c * d + l` with `l < d` splits into `c` above and `l` below.
proof fn lemma_place_decompose(c: int, l: int, d: int)
    requires
        c >= 0,
        0 <= l < d,
    ensures
        (c * d + l) / d == c,
        (c * d + l) % d == l,
{
    vstd::arithmetic::div_mod::lemma_fundamental_div_mod_converse(c * d + l, d, c, l);
}

} // verus!
