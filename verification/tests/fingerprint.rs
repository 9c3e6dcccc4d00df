use lcc_lib::fingerprint::{hash_string_to_filter_item, InputFormatError, FINGERPRINT_DIGITS};

#[test]
fn sixteen_digits_give_their_value() {
    let hash = "ABCDEF0123456789".to_string();
    assert_eq!(hash_string_to_filter_item(&hash), Ok(0xABCDEF0123456789));
}

#[test]
fn suffix_is_ignored() {
    for suffix in ["0", "FFFF", "zz not hex at all", "\u{e9}\u{4e2d}", "0123456789ABCDEF01234567"] {
        let hash = format!("ABCDEF0123456789{}", suffix);
        assert_eq!(hash_string_to_filter_item(&hash), Ok(0xABCDEF0123456789));
    }
}

#[test]
fn ten_characters_are_too_short() {
    let hash = "ABCDEF0123".to_string();
    assert_eq!(hash_string_to_filter_item(&hash), Err(InputFormatError::TooShort));
}

#[test]
fn fifteen_characters_are_too_short() {
    let hash = "ABCDEF012345678".to_string();
    assert_eq!(hash_string_to_filter_item(&hash), Err(InputFormatError::TooShort));
}

#[test]
fn empty_string_is_too_short() {
    assert_eq!(hash_string_to_filter_item(&String::new()), Err(InputFormatError::TooShort));
}

#[test]
fn lower_case_digits_are_read() {
    let hash = "abcdef0123456789".to_string();
    assert_eq!(hash_string_to_filter_item(&hash), Ok(0xABCDEF0123456789));
    let mixed = "aBcDeF0123456789".to_string();
    assert_eq!(hash_string_to_filter_item(&mixed), Ok(0xABCDEF0123456789));
}

#[test]
fn extreme_values_are_read() {
    assert_eq!(hash_string_to_filter_item(&"0000000000000000".to_string()), Ok(0));
    assert_eq!(hash_string_to_filter_item(&"FFFFFFFFFFFFFFFF".to_string()), Ok(u64::MAX));
    assert_eq!(hash_string_to_filter_item(&"0000000000000010".to_string()), Ok(16));
    assert_eq!(hash_string_to_filter_item(&"8000000000000000".to_string()), Ok(1 << 63));
}

#[test]
fn other_characters_are_refused() {
    for hash in [
        "ABCDEF012345678G",
        "GBCDEF0123456789",
        "ABCDEF01 3456789",
        "ABCDEF0123456-89",
        "0xABCDEF01234567",
        "ABCDEF01234567\u{e9}",
        "/000000000000000",
        ":000000000000000",
        "@000000000000000",
        "`000000000000000",
        "g000000000000000",
    ] {
        assert_eq!(
            hash_string_to_filter_item(&hash.to_string()),
            Err(InputFormatError::NotHexadecimal),
            "{}",
            hash
        );
    }
}

#[test]
fn a_sign_is_no_digit() {
    let hash = "+BCDEF0123456789".to_string();
    assert_eq!(hash_string_to_filter_item(&hash), Err(InputFormatError::NotHexadecimal));
    let longer = "+ABCDEF0123456789".to_string();
    assert_eq!(hash_string_to_filter_item(&longer), Err(InputFormatError::NotHexadecimal));
}

#[test]
fn length_is_counted_in_bytes() {
    // Eight characters of two bytes each: long enough, but no digits.
    let hash = "\u{e9}".repeat(8);
    assert_eq!(hash_string_to_filter_item(&hash), Err(InputFormatError::NotHexadecimal));
    let short = "\u{e9}".repeat(7);
    assert_eq!(hash_string_to_filter_item(&short), Err(InputFormatError::TooShort));
}

#[test]
fn a_sha1_digest_is_read_by_its_head() {
    let hash = "5BAA61E4C9B93F3F0682250B6CF8331B7EE68FD8".to_string();
    assert_eq!(hash.len(), 40);
    assert_eq!(hash_string_to_filter_item(&hash), Ok(0x5BAA61E4C9B93F3F));
    assert_eq!(FINGERPRINT_DIGITS, 16);
}

#[test]
fn messages_name_the_fault() {
    assert_eq!(InputFormatError::TooShort.message(), "Given hash string too short (< 16 chars)");
    assert_eq!(InputFormatError::NotHexadecimal.message(), "invalid digit found in string");
}
