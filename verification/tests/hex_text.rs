use csv_verify::hex_text::{digest_from_hex, digest_hex, HexError};
use csv_verify::sha256;

#[test]
fn digest_hex_is_lower_case() {
    let mut hash = [0u8; 32];
    hash[0] = 0xab;
    hash[1] = 0x09;
    hash[31] = 0xf0;
    let text = digest_hex(&hash);
    assert_eq!(text.len(), 64);
    assert!(text.starts_with("ab0900"));
    assert!(text.ends_with("00f0"));
}

#[test]
fn hex_text_of_a_digest_reads_back() {
    let hash = sha256(b"row");
    assert_eq!(digest_from_hex(&digest_hex(&hash)), Ok(hash));
}

#[test]
fn digits_of_both_cases_are_read() {
    let hash = sha256(b"row");
    let upper = digest_hex(&hash).to_uppercase();
    assert_eq!(digest_from_hex(&upper), Ok(hash));
    let mixed = "aB".repeat(32);
    assert_eq!(digest_from_hex(&mixed), Ok([0xabu8; 32]));
}

#[test]
fn the_first_byte_that_is_no_digit_is_told() {
    let text = format!("{}gz{}", "0".repeat(5), "1".repeat(57));
    assert_eq!(
        digest_from_hex(&text),
        Err(HexError::InvalidHexCharacter { c: 'g', index: 5 })
    );
}

#[test]
fn a_character_of_two_bytes_is_told_by_its_first_byte() {
    let text = format!("{}\u{e9}", "0".repeat(62));
    assert_eq!(text.len(), 64);
    assert_eq!(
        digest_from_hex(&text),
        Err(HexError::InvalidHexCharacter { c: '\u{c3}', index: 62 })
    );
}
