use wspr_tx::bitarray::WSPRBits;
use wspr_tx::callsign::Callsign;
use wspr_tx::locator::Locator;
use wspr_tx::message::WSPRMessage;
use wspr_tx::symbols::WSPRSymbol;

const KC3ZNA_AA00_1: &str = "DDACACACDAAADDBAACBACDCDBBBAACACCADCCDADCAAAACDADDACDBABACCBDCBCAAADBCDABCDCDACDAADADBACABDADABCCCBCACACDAABAADDBADBCCBDADACCDDDCCCCADCBCABDCACAAAABBCDADDAAADDCAC";
const K1ABC_FN20_37: &str = "DDACCCAABCCCBBBCCCBCABCDBDDACCAAACDCABCBCCAACCBCBBACDDABAACBDADCCAABDCDCDABABCCBCCDCBBAAABDADCBCCCDACCCABACDAABBBCDDAABBCDCCCDDDCCAAADADCCBBCACCCACBDCDCDDCAADDCCC";
// The example transmission of the WSPR documentation: K1ABC FN42 37, tones 3 3 0 0 2 0 0 0 1 0 2 0 1 3 1 2 ...
const K1ABC_FN42_37: &str = "DDAACAAABACABDBCCCBAADCDBDDCCACAAADCABCDCCAACCDCBBACDDCBACCBDCBCCCADDADADABCBACBCADCBDCAADDCDADCCADACACABACDACBBBCDDACDBCBCCCBDDCAAAABADCABDCCCCCACDDCDCDDCAADBCCC";

fn letters(symbols: &[WSPRSymbol]) -> String {
    symbols
        .iter()
        .map(|s| match s {
            WSPRSymbol::A => 'A',
            WSPRSymbol::B => 'B',
            WSPRSymbol::C => 'C',
            WSPRSymbol::D => 'D',
        })
        .collect()
}

fn bits_of(b: &WSPRBits) -> Vec<bool> {
    (0..192).map(|i| b.get(i).unwrap()).collect()
}

#[test]
fn callsign_is_padded_to_six() {
    assert_eq!(Callsign::new("KC3ZNA").as_str(), "KC3ZNA");
    assert_eq!(Callsign::new("GB4").as_str(), "GB4   ");
    assert_eq!(Callsign::new("G4AB").as_str(), " G4AB ");
    assert_eq!(Callsign::new("").as_str(), "      ");
}

#[test]
fn callsign_with_digit_second_gets_leading_space() {
    assert_eq!(Callsign::new("K1ABC").as_str(), " K1ABC");
    assert_eq!(Callsign::from_uppercase("K1A".to_string()).as_str(), " K1A  ");
    assert_eq!(Callsign::new("W1").as_str(), " W1   ");
}

#[test]
fn callsign_longer_than_six_is_kept_whole() {
    assert_eq!(Callsign::new("LONGCALL").as_str(), "LONGCALL");
    assert_eq!(Callsign::new("LONGCA").encode(), Callsign::new("LONGCALL").encode());
}

#[test]
fn callsign_is_upper_cased() {
    assert_eq!(Callsign::new("kc3zna").as_str(), "KC3ZNA");
    assert_eq!(Callsign::new("k1abc").as_str(), " K1ABC");
    assert_eq!(Callsign::new("kc3zna").encode(), 144157185);
}

#[test]
fn from_uppercase_keeps_other_characters() {
    assert_eq!(Callsign::from_uppercase("ab".to_string()).as_str(), "ab    ");
}

#[test]
fn callsign_char_codes() {
    assert_eq!(Callsign::callsign_char_lookup('0'), 0);
    assert_eq!(Callsign::callsign_char_lookup('9'), 9);
    assert_eq!(Callsign::callsign_char_lookup('A'), 10);
    assert_eq!(Callsign::callsign_char_lookup('Z'), 35);
    assert_eq!(Callsign::callsign_char_lookup(' '), 36);
    assert_eq!(Callsign::callsign_char_lookup('['), 36);
}

#[test]
fn callsign_codes() {
    assert_eq!(Callsign::new("KC3ZNA").encode(), 144157185);
    assert_eq!(Callsign::new("K1ABC").encode(), 259047992);
}

#[test]
fn callsign_code_fits_28_bits() {
    // The largest field of standard characters: every position at code 36.
    assert_eq!(Callsign::from_uppercase("      ".to_string()).encode(), 262905830);
    assert!(Callsign::from_uppercase("      ".to_string()).encode() < 1 << 28);
    assert_eq!(Callsign::from_uppercase("ZZ9   ".to_string()).encode(), 255091679);
}

#[test]
fn callsign_encodability() {
    assert!(Callsign::new("KC3ZNA").is_encodable());
    assert!(Callsign::new("K1ABC").is_encodable());
    // '!' has no code.
    assert!(!Callsign::new("K!ABC").is_encodable());
    // A character far up in Unicode overflows the code.
    assert!(!Callsign::from_uppercase("\u{10FFFF}\u{10FFFF}\u{10FFFF}\u{10FFFF}\u{10FFFF}\u{10FFFF}".to_string()).is_encodable());
}

#[test]
fn locator_reads_four_bytes() {
    assert_eq!(Locator::from_str("AA00").unwrap().fields(), (0, 0, 48, 48));
    assert_eq!(Locator::from_str("FN20").unwrap().fields(), (5, 13, 50, 48));
    assert_eq!(Locator::from_str("RR99").unwrap().fields(), (17, 17, 57, 57));
    assert_eq!(Locator::from_str("ZZ99").unwrap().fields(), (25, 25, 57, 57));
    assert_eq!(Locator::from_str("fn42").unwrap().fields(), (37, 45, 52, 50));
}

#[test]
fn locator_of_other_length_is_rejected() {
    assert!(Locator::from_str("AA0").is_none());
    assert!(Locator::from_str("FN20xx").is_none());
    assert!(Locator::from_str("").is_none());
}

#[test]
fn locator_form() {
    assert!(Locator::from_str("AA00").unwrap().is_valid());
    assert!(Locator::from_str("RR99").unwrap().is_valid());
    assert!(!Locator::from_str("SA00").unwrap().is_valid());
    assert!(!Locator::from_str("AS00").unwrap().is_valid());
    assert!(!Locator::from_str("fn42").unwrap().is_valid());
    assert!(!Locator::from_str("FNA2").unwrap().is_valid());
    assert!(!Locator::from_str("FN4:").unwrap().is_valid());
}

#[test]
fn locator_power_field() {
    let m = WSPRMessage::new("KC3ZNA", "AA00", 1);
    assert_eq!(m.encode_locator_power(), 4124225);
    let m = WSPRMessage::new("K1ABC", "FN20", 37);
    assert_eq!(m.encode_locator_power(), 2942821);
    let m = WSPRMessage::new("K1ABC", "FN42", 37);
    assert_eq!(m.encode_locator_power(), ((179 - 50 - 4) * 180 + 130 + 2) * 128 + 37 + 64);
    assert_eq!(m.encode_locator_power(), 2896997);
    let m = WSPRMessage::new("K1ABC", "RR99", 0);
    assert_eq!(m.encode_locator_power(), 22976);
    let m = WSPRMessage::new("K1ABC", "AA00", 60);
    assert!(m.encode_locator_power() < 1 << 22);
}

#[test]
fn message_packing() {
    let m = WSPRMessage::new("KC3ZNA", "AA00", 1);
    let v = m.encode();
    assert_eq!(v, 0x897aa01fbb904000000000);
    assert_eq!(v, (144157185u128 << 60) + (4124225u128 << 38));
    assert_eq!(v % (1u128 << 38), 0);
    assert_eq!(v >> 60, 144157185);
    assert_eq!((v >> 38) & 0x3fffff, 4124225);
    assert!(v < 1u128 << 88);
}

#[test]
fn message_encodability() {
    assert!(WSPRMessage::new("KC3ZNA", "AA00", 1).is_encodable());
    assert!(WSPRMessage::new("KC3ZNA", "RR99", 60).is_encodable());
    assert!(!WSPRMessage::new("K!ABC", "AA00", 1).is_encodable());
    // Outside the Maidenhead form, but still computable.
    assert!(WSPRMessage::new("KC3ZNA", "AZ00", 1).is_encodable());
    assert_eq!(WSPRMessage::new("KC3ZNA", "AZ00", 1).encode_locator_power(), ((179 * 180) + 250) * 128 + 65);
    // Field Z underflows the longitude term; a square below '0' underflows too.
    assert!(!WSPRMessage::new("KC3ZNA", "ZZ99", 1).is_encodable());
    assert!(!WSPRMessage::new("KC3ZNA", "AA/0", 1).is_encodable());
}

#[test]
fn source_bits_take_the_message_most_significant_first() {
    let v = WSPRMessage::new("KC3ZNA", "AA00", 1).encode();
    let x = WSPRMessage::source_bits(v);
    assert_eq!(x, 0x209ddf8055e91);
    for t in 0..81 {
        assert_eq!((x >> t) & 1, (v >> (87 - t)) & 1);
    }
    assert_eq!(x >> 81, 0);
}

#[test]
fn convolution_of_zero_is_zero() {
    let bits = WSPRMessage::convolution_code(0);
    assert!(bits_of(&bits).iter().all(|b| !b));
}

#[test]
fn convolution_impulse_response_is_the_taps() {
    let bits = bits_of(&WSPRMessage::convolution_code(1));
    for i in 0..32 {
        assert_eq!(bits[2 * i], (0xF2D05351u32 >> i) & 1 == 1);
        assert_eq!(bits[2 * i + 1], (0xE4613C47u32 >> i) & 1 == 1);
    }
    assert!(bits[64..].iter().all(|b| !b));
}

#[test]
fn convolution_is_linear() {
    let a = 0x1234_5678_9abc_def0_1122u128;
    let b = 0x0fed_cba9_8765_4321_3344u128;
    let ca = bits_of(&WSPRMessage::convolution_code(a));
    let cb = bits_of(&WSPRMessage::convolution_code(b));
    let cx = bits_of(&WSPRMessage::convolution_code(a ^ b));
    for t in 0..192 {
        assert_eq!(cx[t], ca[t] != cb[t]);
    }
}

#[test]
fn convolution_reads_only_81_bits() {
    let low = bits_of(&WSPRMessage::convolution_code(0x5));
    let high = bits_of(&WSPRMessage::convolution_code(0x5 | (1u128 << 81) | (1u128 << 127)));
    assert_eq!(low, high);
}

#[test]
fn interleave_moves_single_bits() {
    let mut b = WSPRBits::zeroed();
    b.set(1, true);
    let out = bits_of(&WSPRMessage::interleave(b));
    // The second channel bit goes to the reversal of byte 1, which is 128.
    assert!(out[128]);
    assert_eq!(out.iter().filter(|x| **x).count(), 1);

    let mut b = WSPRBits::zeroed();
    b.set(0, true);
    let out = bits_of(&WSPRMessage::interleave(b));
    assert!(out[0]);
    assert_eq!(out.iter().filter(|x| **x).count(), 1);
}

#[test]
fn interleave_is_a_permutation() {
    let mut seen = vec![false; 162];
    for p in 0..162 {
        let mut b = WSPRBits::zeroed();
        b.set(p, true);
        let out = bits_of(&WSPRMessage::interleave(b));
        let set: Vec<usize> = (0..192).filter(|j| out[*j]).collect();
        assert_eq!(set.len(), 1);
        assert!(set[0] < 162);
        assert!(!seen[set[0]]);
        seen[set[0]] = true;
    }
    assert!(seen.iter().all(|x| *x));
}

#[test]
fn interleave_ignores_bits_past_the_channel() {
    let mut b = WSPRBits::zeroed();
    b.set(170, true);
    b.set(191, true);
    let out = bits_of(&WSPRMessage::interleave(b));
    assert!(out.iter().all(|x| !x));
}

#[test]
fn symbols_of_zero_bits_follow_the_sync_vector() {
    let symbols = WSPRMessage::get_symbols(WSPRBits::zeroed());
    assert_eq!(symbols.len(), 162);
    assert_eq!(&letters(&symbols)[..12], "BBAAAAAABAAA");
}

#[test]
fn symbols_merge_data_and_sync() {
    let mut b = WSPRBits::zeroed();
    b.set(0, true);
    b.set(2, true);
    let symbols = WSPRMessage::get_symbols(b);
    assert_eq!(&letters(&symbols)[..4], "DBCA");
}

#[test]
fn symbol_tones() {
    assert_eq!(WSPRSymbol::A.tone(), 0);
    assert_eq!(WSPRSymbol::B.tone(), 1);
    assert_eq!(WSPRSymbol::C.tone(), 2);
    assert_eq!(WSPRSymbol::D.tone(), 3);
}

#[test]
fn transmission_of_kc3zna() {
    let symbols = WSPRMessage::new("KC3ZNA", "AA00", 1).encode_transmission();
    assert_eq!(symbols.len(), 162);
    assert_eq!(letters(&symbols), KC3ZNA_AA00_1);
}

#[test]
fn transmission_of_the_documented_example() {
    let symbols = WSPRMessage::new("K1ABC", "FN42", 37).encode_transmission();
    assert_eq!(letters(&symbols), K1ABC_FN42_37);
    let tones: Vec<u32> = symbols[..16].iter().map(|s| s.tone()).collect();
    assert_eq!(tones, vec![3, 3, 0, 0, 2, 0, 0, 0, 1, 0, 2, 0, 1, 3, 1, 2]);
}

#[test]
fn every_field_reaches_the_symbols() {
    // Callsign codes that differ by a multiple of 2^21.
    assert_eq!(Callsign::new("U7OUI").encode() - Callsign::new("K1AAA").encode(), 1 << 21);
    let a = WSPRMessage::new("K1AAA", "FN42", 37).encode_transmission();
    let b = WSPRMessage::new("U7OUI", "FN42", 37).encode_transmission();
    assert_ne!(a, b);
    let c = WSPRMessage::new("K1AAA", "FN43", 37).encode_transmission();
    assert_ne!(a, c);
    let d = WSPRMessage::new("K1AAA", "FN42", 36).encode_transmission();
    assert_ne!(a, d);
}

#[test]
fn transmission_of_k1abc() {
    let symbols = WSPRMessage::new("K1ABC", "FN20", 37).encode_transmission();
    assert_eq!(letters(&symbols), K1ABC_FN20_37);
}

#[test]
fn transmission_carries_the_sync_vector() {
    let a = WSPRMessage::new("KC3ZNA", "AA00", 1).encode_transmission();
    let b = WSPRMessage::new("K1ABC", "FN20", 37).encode_transmission();
    let sync = |s: &WSPRSymbol| matches!(s, WSPRSymbol::B | WSPRSymbol::D);
    for i in 0..162 {
        assert_eq!(sync(&a[i]), sync(&b[i]));
        assert_eq!(sync(&a[i]), wspr_tx::symbols::SYNC_VECTOR[i] == 1);
    }
}

#[test]
fn convolution_window_is_32_bits() {
    // Two inputs that differ only in bit 5 give the same channel bits from
    // step 37 on, where bit 5 has left the 32-bit window.
    let a = bits_of(&WSPRMessage::convolution_code(0xF0F0_1234));
    let b = bits_of(&WSPRMessage::convolution_code(0xF0F0_1234 ^ (1 << 5)));
    for i in 37..81 {
        assert_eq!(a[2 * i], b[2 * i]);
        assert_eq!(a[2 * i + 1], b[2 * i + 1]);
    }
    assert!((5..37).any(|i| a[2 * i] != b[2 * i] || a[2 * i + 1] != b[2 * i + 1]));
}

#[test]
fn distinct_standard_callsigns_have_distinct_codes() {
    let calls = ["KC3ZNA", "K1ABC", "W1AW", "G4XYZ", "KC3ZNB", "JA1AA", "VK2ABC", "K1ABD"];
    let codes: Vec<u32> = calls.iter().map(|c| Callsign::new(c).encode()).collect();
    for i in 0..codes.len() {
        for j in 0..codes.len() {
            assert_eq!(i == j, codes[i] == codes[j]);
        }
    }
}
