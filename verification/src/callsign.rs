//! Callsigns: normalisation to the six-character WSPR field and their 28-bit
//! mixed-radix code.
use vstd::prelude::*;
use vstd::string::*;

verus! {

/// The characters that `str::to_uppercase` returns for a string with the
/// given characters.
pub uninterp spec fn uppercase_of(s: Seq<char>) -> Seq<char>;

/// `str::to_uppercase`: the string mapped to upper case by the Unicode case
/// tables. The result is named, not stated: the mapping is those tables.
#[verifier::external_body]
fn to_uppercase(s: &str) -> (r: String)
    ensures
        r@ == uppercase_of(s@),
{
    s.to_uppercase()
}

/// An ASCII decimal digit, the characters that `char::is_digit(10)` accepts.
pub open spec fn is_decimal_digit(c: char) -> bool {
    48 <= (c as int) && (c as int) <= 57
}

/// `n` space characters.
pub open spec fn spaces(n: nat) -> Seq<char> {
    Seq::new(n, |i: int| ' ')
}

/// A callsign whose second character is a digit (such as `K1ABC`) gets a
/// leading space, so that the digit stands in the third position.
pub open spec fn align_digit(s: Seq<char>) -> Seq<char> {
    if s.len() > 1 && is_decimal_digit(s[1]) {
        seq![' '] + s
    } else {
        s
    }
}

/// Pads with spaces on the right to at least six characters; longer text is
/// kept whole.
pub open spec fn pad_to_six(s: Seq<char>) -> Seq<char> {
    if s.len() >= 6 {
        s
    } else {
        s + spaces((6 - s.len()) as nat)
    }
}

/// The six-or-more character field that an (already upper case) callsign
/// becomes.
pub open spec fn padded_callsign(s: Seq<char>) -> Seq<char> {
    pad_to_six(align_digit(s))
}

/// Characters that have a code: digits, the space, and every character from
/// `'7'` (code point 55) upward.
pub open spec fn char_has_code(c: char) -> bool {
    is_decimal_digit(c) || c == ' ' || (c as int) >= 55
}

/// The code of a character: digits 0-9, letters `A`-`Z` 10-35, space 36.
/// Other characters from code point 55 upward get their code point minus 55.
pub open spec fn char_code(c: char) -> int {
    if is_decimal_digit(c) {
        (c as int) - 48
    } else if c == ' ' {
        36
    } else {
        (c as int) - 55
    }
}

/// The radix of each of the six callsign positions after the first.
pub open spec fn place_radix(k: int) -> int {
    if k == 0 {
        1
    } else if k == 1 {
        36
    } else if k == 2 {
        10
    } else {
        27
    }
}

/// How many characters the code reads: the first six, or all of a shorter
/// field.
pub open spec fn coded_len(s: Seq<char>) -> nat {
    if s.len() < 6 {
        s.len()
    } else {
        6
    }
}

/// The mixed-radix number formed by the codes of the first `n` characters,
/// the first one most significant.
pub open spec fn mixed_radix(s: Seq<char>, n: nat) -> int
    decreases n,
{
    if n == 0 {
        0
    } else {
        mixed_radix(s, (n - 1) as nat) * place_radix(n - 1) + char_code(s[n - 1])
    }
}

/// 7570 = 10 * 27 * 27 + 10 * 27 + 10: the offset of the letter codes in the
/// last three positions, which WSPR counts from `A` = 0 there.
pub open spec fn letter_offset() -> int {
    7570
}

/// The value that `Callsign::encode` returns.
pub open spec fn callsign_code(s: Seq<char>) -> int {
    mixed_radix(s, coded_len(s)) - letter_offset()
}

/// A field that `Callsign::encode` can encode without an arithmetic fault:
/// every coded character has a code, and the number lies between the letter
/// offset and `u32::MAX`.
pub open spec fn callsign_encodable(s: Seq<char>) -> bool {
    &&& forall|i: int| 0 <= i < coded_len(s) ==> char_has_code(#[trigger] s[i])
    &&& letter_offset() <= mixed_radix(s, coded_len(s)) <= u32::MAX
}

/// Every coded character has a code from 0 to 36: digits, letters `A`-`Z`
/// and the space, and also `:` to `@` (codes 3 to 9) and `[` (36).
pub open spec fn standard_characters(s: Seq<char>) -> bool {
    forall|i: int| 0 <= i < coded_len(s) ==> 0 <= char_code(#[trigger] s[i]) <= 36
}

/// Adding positions never lowers the number, as long as the codes are not
/// negative.
proof fn lemma_mixed_radix_monotone(s: Seq<char>, a: nat, b: nat)
    requires
        a <= b,
        forall|i: int| 0 <= i < b ==> char_code(#[trigger] s[i]) >= 0,
    ensures
        mixed_radix(s, a) <= mixed_radix(s, b),
        mixed_radix(s, a) >= 0,
    decreases b,
{
    if b > 0 {
        let c = char_code(s[b - 1]);
        lemma_mixed_radix_nonneg(s, (b - 1) as nat);
        let prev = mixed_radix(s, (b - 1) as nat);
        assert(prev <= prev * place_radix(b - 1)) by (nonlinear_arith)
            requires
                prev >= 0,
                place_radix(b - 1) >= 1,
        ;
        if a < b {
            lemma_mixed_radix_monotone(s, a, (b - 1) as nat);
        }
    }
}

proof fn lemma_mixed_radix_nonneg(s: Seq<char>, n: nat)
    requires
        forall|i: int| 0 <= i < n ==> char_code(#[trigger] s[i]) >= 0,
    ensures
        mixed_radix(s, n) >= 0,
    decreases n,
{
    if n > 0 {
        lemma_mixed_radix_nonneg(s, (n - 1) as nat);
        let prev = mixed_radix(s, (n - 1) as nat);
        assert(prev * place_radix(n - 1) >= 0) by (nonlinear_arith)
            requires
                prev >= 0,
                place_radix(n - 1) >= 1,
        ;
    }
}

/// With codes of at most 36, each position at most multiplies the bound by
/// its radix and adds 36.
proof fn lemma_mixed_radix_standard_bound(s: Seq<char>, n: nat)
    requires
        n <= 6,
        forall|i: int| 0 <= i < n ==> 0 <= char_code(#[trigger] s[i]) <= 36,
    ensures
        0 <= mixed_radix(s, n) <= standard_bound(n),
    decreases n,
{
    if n > 0 {
        lemma_mixed_radix_standard_bound(s, (n - 1) as nat);
        let prev = mixed_radix(s, (n - 1) as nat);
        let r = place_radix(n - 1);
        let bp = standard_bound((n - 1) as nat);
        assert(0 <= prev * r <= bp * r) by (nonlinear_arith)
            requires
                0 <= prev <= bp,
                r >= 1,
        ;
    }
}

/// Largest number formed by `n` positions of codes up to 36.
spec fn standard_bound(n: nat) -> int {
    if n == 0 {
        0
    } else if n == 1 {
        36
    } else if n == 2 {
        1332
    } else if n == 3 {
        13356
    } else if n == 4 {
        360648
    } else if n == 5 {
        9737532
    } else {
        262913400
    }
}

/// The shape of a callsign field: at least six characters; the text,
/// after a leading space exactly when its second character is a digit (so
/// that digit stands third); then only spaces.
pub proof fn lemma_padded_callsign_shape(s: Seq<char>)
    ensures
        padded_callsign(s).len() >= 6,
        padded_callsign(s).subrange(0, align_digit(s).len() as int) == align_digit(s),
        forall|i: int|
            align_digit(s).len() <= i < padded_callsign(s).len() ==> #[trigger] padded_callsign(s)[i]
                == ' ',
        s.len() > 1 && is_decimal_digit(s[1]) ==> align_digit(s) == seq![' '] + s
            && padded_callsign(s)[2] == s[1],
        !(s.len() > 1 && is_decimal_digit(s[1])) ==> align_digit(s) == s,
{
    let a = align_digit(s);
    assert(padded_callsign(s).subrange(0, a.len() as int) =~= a);
}

/// The code of an encodable field of standard characters fits 28 bits.
pub proof fn lemma_callsign_code_28_bits(s: Seq<char>)
    requires
        callsign_encodable(s),
        standard_characters(s),
    ensures
        0 <= callsign_code(s) < 0x1000_0000,
{
    lemma_mixed_radix_standard_bound(s, coded_len(s));
}

/// Each character of the WSPR alphabet is coded by its place: the digits
/// `0`-`9` by 0-9, the letters `A`-`Z` by 10-35 in alphabetical order, the
/// space by 36.
pub proof fn lemma_alphabet_codes(c: char)
    ensures
        48 <= c as u32 <= 57 ==> char_code(c) == c as u32 - 48,
        65 <= c as u32 <= 90 ==> char_code(c) == c as u32 - 65 + 10,
        c == ' ' ==> char_code(c) == 36,
{
}

/// A character of the WSPR alphabet: a digit, a capital letter or the space.
pub open spec fn wspr_alphabet(c: char) -> bool {
    (48 <= c as u32 <= 57) || (65 <= c as u32 <= 90) || c == ' '
}

/// The callsign can be read back from its code: two fields in the standard
/// form, made of digits, capital letters and spaces, with the same code have
/// the same first six characters.
pub proof fn lemma_callsign_code_decodes(s1: Seq<char>, s2: Seq<char>)
    requires
        standard_callsign_field(s1),
        standard_callsign_field(s2),
        forall|i: int| 0 <= i < 6 ==> wspr_alphabet(#[trigger] s1[i]),
        forall|i: int| 0 <= i < 6 ==> wspr_alphabet(#[trigger] s2[i]),
        callsign_code(s1) == callsign_code(s2),
    ensures
        forall|i: int| 0 <= i < 6 ==> #[trigger] s1[i] == s2[i],
{
    lemma_callsign_code_injective(s1, s2);
    assert forall|i: int| 0 <= i < 6 implies #[trigger] s1[i] == s2[i] by {
        lemma_alphabet_codes(s1[i]);
        lemma_alphabet_codes(s2[i]);
        assert(char_code(s1[i]) == char_code(s2[i]));
        assert((s1[i] as u32) == (s2[i] as u32));
    }
}

/// A field in the standard WSPR callsign form: a letter, digit or space;
/// a letter or digit; a digit; then three letters or spaces (by their codes).
pub open spec fn standard_callsign_field(s: Seq<char>) -> bool {
    &&& s.len() >= 6
    &&& 0 <= char_code(s[0]) <= 36
    &&& 0 <= char_code(s[1]) <= 35
    &&& 0 <= char_code(s[2]) <= 9
    &&& 10 <= char_code(s[3]) <= 36
    &&& 10 <= char_code(s[4]) <= 36
    &&& 10 <= char_code(s[5]) <= 36
}

/// The code of a six-character field written with the letter offset taken
/// out of the last three positions.
proof fn lemma_code_places(s: Seq<char>)
    requires
        s.len() >= 6,
    ensures
        callsign_code(s) == (((((char_code(s[0]) * 36 + char_code(s[1])) * 10 + char_code(s[2]))
            * 27 + (char_code(s[3]) - 10)) * 27 + (char_code(s[4]) - 10)) * 27 + (char_code(s[5])
            - 10)),
{
    reveal_with_fuel(mixed_radix, 7);
}

/// `q * d + r` with `0 <= r < d` determines `q` and `r`.
proof fn lemma_place_unique(q1: int, r1: int, q2: int, r2: int, d: int)
    requires
        0 <= r1 < d,
        0 <= r2 < d,
        q1 * d + r1 == q2 * d + r2,
    ensures
        q1 == q2,
        r1 == r2,
{
    vstd::arithmetic::div_mod::lemma_fundamental_div_mod_converse(q1 * d + r1, d, q1, r1);
    vstd::arithmetic::div_mod::lemma_fundamental_div_mod_converse(q2 * d + r2, d, q2, r2);
}

/// The callsign code can be decoded: two standard fields with the same code
/// have the same character codes in all six positions.
pub proof fn lemma_callsign_code_injective(s1: Seq<char>, s2: Seq<char>)
    requires
        standard_callsign_field(s1),
        standard_callsign_field(s2),
        callsign_code(s1) == callsign_code(s2),
    ensures
        forall|i: int| 0 <= i < 6 ==> char_code(#[trigger] s1[i]) == char_code(s2[i]),
{
    lemma_code_places(s1);
    lemma_code_places(s2);
    let a0 = char_code(s1[0]);
    let a1 = char_code(s1[1]);
    let a2 = char_code(s1[2]);
    let a3 = char_code(s1[3]) - 10;
    let a4 = char_code(s1[4]) - 10;
    let a5 = char_code(s1[5]) - 10;
    let b0 = char_code(s2[0]);
    let b1 = char_code(s2[1]);
    let b2 = char_code(s2[2]);
    let b3 = char_code(s2[3]) - 10;
    let b4 = char_code(s2[4]) - 10;
    let b5 = char_code(s2[5]) - 10;
    let x1 = (a0 * 36 + a1) * 10 + a2;
    let x2 = (b0 * 36 + b1) * 10 + b2;
    lemma_place_unique((x1 * 27 + a3) * 27 + a4, a5, (x2 * 27 + b3) * 27 + b4, b5, 27);
    lemma_place_unique(x1 * 27 + a3, a4, x2 * 27 + b3, b4, 27);
    lemma_place_unique(x1, a3, x2, b3, 27);
    lemma_place_unique(a0 * 36 + a1, a2, b0 * 36 + b1, b2, 10);
    lemma_place_unique(a0, a1, b0, b1, 36);
}

/// A callsign field of a WSPR message.
pub struct Callsign(String);

impl View for Callsign {
    type V = Seq<char>;

    closed spec fn view(&self) -> Seq<char> {
        self.0@
    }
}

impl Callsign {
    /// The callsign in upper case, with a leading space when its second
    /// character is a digit, padded with spaces to six characters.
    pub fn new(callsign: &str) -> (r: Callsign)
        ensures
            r@ == padded_callsign(uppercase_of(callsign@)),
    {
        Self::from_uppercase(to_uppercase(callsign))
    }

    /// The callsign field of text that is already in upper case: a leading
    /// space when the second character is a digit, then spaces up to six
    /// characters.
    pub fn from_uppercase(upper: String) -> (r: Callsign)
        ensures
            r@ == padded_callsign(upper@),
    {
        let len = upper.as_str().unicode_len();
        let mut field = if len > 1 && Self::is_digit(upper.as_str().get_char(1)) {
            let mut t = String::new();
            t.append(" ");
            proof {
                reveal_strlit(" ");
            }
            t.append(upper.as_str());
            t
        } else {
            upper
        };
        assert(field@ == align_digit(upper@));
        let ghost aligned = field@;
        let mut n = field.as_str().unicode_len();
        while n < 6
            invariant
                n == field@.len(),
                aligned.len() <= n,
                n <= 6 || n == aligned.len(),
                field@ == aligned + spaces((n - aligned.len()) as nat),
            decreases 6 - n,
        {
            field.append(" ");
            proof {
                reveal_strlit(" ");
                assert(field@ == aligned + spaces((n + 1 - aligned.len()) as nat));
            }
            n = n + 1;
        }
        assert(field@ == pad_to_six(aligned));
        Callsign(field)
    }

    /// Whether `encode` can encode this callsign: every coded character has
    /// a code and the number lies between the letter offset and `u32::MAX`.
    pub fn is_encodable(&self) -> (r: bool)
        ensures
            r == callsign_encodable(self@),
    {
        let s = self.0.as_str();
        let len = s.unicode_len();
        let n: usize = if len < 6 {
            len
        } else {
            6
        };
        let mut acc: u64 = 0;
        let mut k: usize = 0;
        while k < n
            invariant
                n == coded_len(self@),
                s@ == self@,
                k <= n,
                acc == mixed_radix(self@, k as nat),
                acc <= u32::MAX,
                forall|i: int| 0 <= i < k ==> char_has_code(#[trigger] self@[i]),
            decreases n - k,
        {
            let c = s.get_char(k);
            if !(Self::is_digit(c) || c == ' ' || (c as u32) >= 55) {
                return false;
            }
            let radix: u64 = if k == 0 {
                1
            } else if k == 1 {
                36
            } else if k == 2 {
                10
            } else {
                27
            };
            let code = Self::callsign_char_lookup(c) as u64;
            acc = acc * radix + code;
            k = k + 1;
            if acc > u32::MAX as u64 {
                proof {
                    if forall|i: int| 0 <= i < n ==> char_has_code(#[trigger] self@[i]) {
                        lemma_mixed_radix_monotone(self@, k as nat, n as nat);
                    }
                }
                return false;
            }
        }
        acc >= 7570
    }

    /// The callsign field as text.
    pub fn as_str(&self) -> (r: &str)
        ensures
            r@ == self@,
    {
        self.0.as_str()
    }

    fn is_digit(c: char) -> (r: bool)
        ensures
            r == is_decimal_digit(c),
    {
        let code = c as u32;
        48 <= code && code <= 57
    }

    /// The numeric code of a callsign character: digits 0-9, letters `A`-`Z`
    /// 10-35, space 36, any other character from `'7'` upward its code point
    /// minus 55.
    pub fn callsign_char_lookup(chr: char) -> (r: u32)
        requires
            char_has_code(chr),
        ensures
            r == char_code(chr),
            48 <= chr as u32 <= 57 ==> r == chr as u32 - 48,
            65 <= chr as u32 <= 90 ==> r == chr as u32 - 65 + 10,
            chr == ' ' ==> r == 36,
    {
        let code = chr as u32;
        if 48 <= code && code <= 57 {
            code - 48
        } else if chr == ' ' {
            36
        } else {
            code - 55
        }
    }

    /// The 28-bit WSPR code of the callsign: the mixed-radix number of its
    /// first six character codes (radices 36, 10, 27, 27, 27 after the first)
    /// less the letter offset 7570.
    pub fn encode(&self) -> (r: u32)
        requires
            callsign_encodable(self@),
        ensures
            r == callsign_code(self@),
            standard_characters(self@) ==> r < 0x1000_0000,
    {
        let s = self.0.as_str();
        let len = s.unicode_len();
        let n: usize = if len < 6 {
            len
        } else {
            6
        };
        assert(n == coded_len(self@));
        let mut acc: u32 = 0;
        let mut k: usize = 0;
        while k < n
            invariant
                n == coded_len(self@),
                s@ == self@,
                k <= n,
                acc == mixed_radix(self@, k as nat),
                callsign_encodable(self@),
            decreases n - k,
        {
            let radix: u32 = if k == 0 {
                1
            } else if k == 1 {
                36
            } else if k == 2 {
                10
            } else {
                27
            };
            assert(radix == place_radix(k as int));
            let c = s.get_char(k);
            assert(char_has_code(self@[k as int]));
            proof {
                lemma_mixed_radix_monotone(self@, (k + 1) as nat, n as nat);
            }
            let code = Self::callsign_char_lookup(c);
            acc = acc * radix + code;
            k = k + 1;
        }
        proof {
            if standard_characters(self@) {
                lemma_mixed_radix_standard_bound(self@, n as nat);
            }
        }
        acc - 7570
    }
}

} // verus!
