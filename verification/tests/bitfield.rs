use rpeg::bitfield::{fitss, fitsu, gets, getu, news, newu};
use rpeg::codec::{word_from_be_bytes, word_to_be_bytes};
use rpeg::codeword::{bitpack, unpack_bits};

#[test]
fn test_fitss() {
    assert_eq!(fitss(-1, 3), true); // Should be true
    assert_eq!(fitss(5, 3), false); // Shroud be false
}

#[test]
fn test_fitsu() {
    assert_eq!(fitsu(5, 3), true); // Shroud be true
}

#[test]
fn test_gets() {
    assert_eq!(gets(0x3f4, 6, 2), -3);
}

#[test]
fn test_getu() {
    assert_eq!(getu(0x3f4, 6, 2), 61);
}

#[test]
fn test_newu() {
    assert_eq!(newu(0_u64, 4, 0, 10), Some(10_u64));
    assert_eq!(newu(0b100, 3, 8, 0b110), Some(0b011000000100));
}

#[test]
fn test_news() {
    assert_eq!(news(0b0, 3, 5, -3), Some(0b000010100000));
}

#[test]
fn unsigned_round_trip() {
    // A fitting value written into any span reads back unchanged.
    let word = newu(0, 9, 23, 300).unwrap();
    assert_eq!(getu(word, 9, 23), 300);
    // Full-width span.
    let word = newu(0, 64, 0, u64::MAX).unwrap();
    assert_eq!(getu(word, 64, 0), u64::MAX);
    // Bits outside the span are untouched.
    let word = newu(0xffff_0000_ffff_0000, 8, 20, 0xab).unwrap();
    assert_eq!(getu(word, 8, 20), 0xab);
    assert_eq!(getu(word, 16, 0), 0x0000);
    assert_eq!(getu(word, 16, 48), 0xffff);
}

#[test]
fn signed_round_trip() {
    let word = news(0, 5, 18, -16).unwrap();
    assert_eq!(gets(word, 5, 18), -16);
    let word = news(0, 5, 18, 15).unwrap();
    assert_eq!(gets(word, 5, 18), 15);
    // Full-width span holds any i64.
    let word = news(0, 64, 0, -1).unwrap();
    assert_eq!(gets(word, 64, 0), -1);
    assert_eq!(word, u64::MAX);
}

#[test]
fn set_rejects_unfit_values() {
    assert_eq!(newu(0, 4, 0, 16), None);
    assert_eq!(news(0, 5, 0, 16), None);
    assert_eq!(news(0, 5, 0, -17), None);
    assert_eq!(newu(0, 4, 0, 15), Some(15));
    assert_eq!(news(0, 5, 0, -16), Some(0b10000));
}

#[test]
fn codeword_round_trip() {
    let w = bitpack(300, -10, 5, -1, 11, 2).unwrap();
    assert_eq!(unpack_bits(w), (300, -10, 5, -1, 11, 2));
    let w = bitpack(0, 0, 0, 0, 0, 0).unwrap();
    assert_eq!(unpack_bits(w), (0, 0, 0, 0, 0, 0));
    let w = bitpack(511, -16, 15, -16, 15, 15).unwrap();
    assert_eq!(unpack_bits(w), (511, -16, 15, -16, 15, 15));
}

#[test]
fn bitpack_rejects_unfit_fields() {
    assert_eq!(bitpack(512, 0, 0, 0, 0, 0), None);
    assert_eq!(bitpack(0, 16, 0, 0, 0, 0), None);
    assert_eq!(bitpack(0, 0, -17, 0, 0, 0), None);
    assert_eq!(bitpack(0, 0, 0, 16, 0, 0), None);
    assert_eq!(bitpack(0, 0, 0, 0, 16, 0), None);
    assert_eq!(bitpack(0, 0, 0, 0, 0, 16), None);
}

#[test]
fn be_bytes_round_trip() {
    assert_eq!(word_to_be_bytes(0x01020304), (1, 2, 3, 4));
    assert_eq!(word_from_be_bytes(1, 2, 3, 4), 0x01020304);
    for &w in &[0u32, 0xdead_beef, u32::MAX, 0x8000_0001] {
        let (b0, b1, b2, b3) = word_to_be_bytes(w);
        assert_eq!(word_from_be_bytes(b0, b1, b2, b3), w);
    }
}
