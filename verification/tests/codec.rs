use std::collections::HashMap;

use iso8583::converter::{bitmap_array_to_hex, hex_to_bitmap_array};
use iso8583::errors::IsoError;
use iso8583::iso8583::{new_iso_struct, MtiType};
use iso8583::specfile::{FieldDescription, Spec};
use iso8583::strpad::left_pad;
use iso8583::validators::{
    fixed_length_integer_validator, mti_validator, variable_length_integer_validator,
};

fn fd(content_type: &str, max_len: usize, min_len: usize, len_type: &str, label: &str) -> FieldDescription {
    FieldDescription {
        content_type: content_type.to_string(),
        max_len,
        min_len,
        len_type: len_type.to_string(),
        label: label.to_string(),
    }
}

/// Field 2: llvar up to 19; field 4: fixed width 12.
fn sample_spec() -> Spec {
    let mut fields = HashMap::new();
    fields.insert(2, fd("n", 19, 1, "llvar", "Primary account number"));
    fields.insert(4, fd("n", 12, 12, "fixed", "Amount, transaction"));
    fields.insert(70, fd("n", 3, 3, "lllvar", "Network management code"));
    Spec { fields }
}

#[test]
fn bitmap_to_hex_basic() {
    let mut bits = vec![0i64; 64];
    bits[0] = 1;
    let hex = bitmap_array_to_hex(&bits).unwrap();
    assert_eq!(hex, "8000000000000000");
}

#[test]
fn bitmap_to_hex_rejects_bad_length() {
    let bits = vec![0i64; 63];
    assert!(matches!(bitmap_array_to_hex(&bits), Err(IsoError::InvalidBitmapLength)));
    let bits4 = vec![0i64; 4];
    assert!(matches!(bitmap_array_to_hex(&bits4), Err(IsoError::InvalidBitmapLength)));
}

#[test]
fn hex_to_bitmap_basic() {
    let bits = hex_to_bitmap_array("80").unwrap();
    assert_eq!(bits, vec![1, 0, 0, 0, 0, 0, 0, 0]);
    let bits = hex_to_bitmap_array("f1").unwrap();
    assert_eq!(bits, vec![1, 1, 1, 1, 0, 0, 0, 1]);
}

#[test]
fn hex_to_bitmap_rejects_bad_input() {
    assert!(matches!(hex_to_bitmap_array("zz"), Err(IsoError::InvalidHex)));
    assert!(matches!(hex_to_bitmap_array("123"), Err(IsoError::InvalidHex)));
}

#[test]
fn bitmap_symmetry_concrete() {
    let mut bits = vec![0i64; 64];
    bits[1] = 1;
    bits[3] = 1;
    bits[63] = 1;
    let hex = bitmap_array_to_hex(&bits).unwrap();
    assert_eq!(hex_to_bitmap_array(&hex).unwrap(), bits);

    let mut bits128 = vec![0i64; 128];
    bits128[0] = 1;
    bits128[69] = 1;
    let hex128 = bitmap_array_to_hex(&bits128).unwrap();
    assert_eq!(hex128.len(), 32);
    assert_eq!(hex_to_bitmap_array(&hex128).unwrap(), bits128);
}

#[test]
fn decode_is_permissive_about_length() {
    // Decoding accepts any even digit count, not only whole bitmaps.
    let bits = hex_to_bitmap_array("1122").unwrap();
    assert_eq!(bits.len(), 16);
    assert_eq!(bitmap_array_to_hex(&bits).unwrap(), "1122");
}

#[test]
fn left_pad_pads_and_keeps_long() {
    assert_eq!(left_pad("7", 2, "0"), "07");
    assert_eq!(left_pad("7", 3, "0"), "007");
    assert_eq!(left_pad("hello", 3, "0"), "hello");
    assert_eq!(left_pad("", 2, "0"), "00");
}

#[test]
fn mti_validation() {
    let ok = MtiType { mti: "0200".to_string() };
    assert!(mti_validator(&ok).unwrap());
    let short = MtiType { mti: "020".to_string() };
    assert!(matches!(mti_validator(&short), Err(IsoError::InvalidMtiLength)));
    let letters = MtiType { mti: "02A0".to_string() };
    assert!(matches!(mti_validator(&letters), Err(IsoError::InvalidMtiContent)));
}

#[test]
fn set_mti_scenarios() {
    let mut m = new_iso_struct(sample_spec(), false);
    assert!(m.add_mti("0200").is_ok());
    assert_eq!(m.mti.to_string(), "0200");
    assert!(matches!(m.add_mti("02A0"), Err(IsoError::InvalidMtiContent)));
    assert_eq!(m.mti.to_string(), "0200");
    assert!(matches!(m.add_mti("020"), Err(IsoError::InvalidMtiLength)));
}

#[test]
fn length_validators() {
    assert!(fixed_length_integer_validator(4, 12, "000000010000").unwrap());
    assert!(matches!(
        fixed_length_integer_validator(4, 12, "abc"),
        Err(IsoError::LengthMismatch(4))
    ));
    assert!(variable_length_integer_validator(2, 1, 19, "4111111111111111").unwrap());
    assert!(matches!(
        variable_length_integer_validator(2, 1, 19, ""),
        Err(IsoError::LengthOutOfRange(2))
    ));
}

#[test]
fn add_field_range_checks() {
    let mut m = new_iso_struct(sample_spec(), false);
    assert!(matches!(m.add_field(1, "x"), Err(IsoError::FieldOutOfRange(1))));
    assert!(matches!(m.add_field(0, "x"), Err(IsoError::FieldOutOfRange(0))));
    assert!(matches!(m.add_field(65, "x"), Err(IsoError::FieldOutOfRange(65))));
    assert!(m.add_field(64, "x").is_ok());
    assert_eq!(m.bitmap[63], 1);
}

#[test]
fn concrete_scenario_encode_decode() {
    let mut m = new_iso_struct(sample_spec(), false);
    m.add_mti("0200").unwrap();
    m.add_field(2, "4111111111111111").unwrap();
    m.add_field(4, "000000010000").unwrap();

    let wire = m.to_string().unwrap();
    assert_eq!(
        wire,
        "02005000000000000000164111111111111111000000010000"
    );

    let decoded = m.parse(&wire).unwrap();
    assert_eq!(decoded.mti.to_string(), "0200");
    assert_eq!(decoded.bitmap, m.bitmap);
    let elems = decoded.elements.get_elements();
    assert_eq!(elems.len(), 2);
    assert_eq!(elems.get(&2).unwrap().as_str(), "4111111111111111");
    assert_eq!(elems.get(&4).unwrap().as_str(), "000000010000");
}

#[test]
fn round_trip_secondary_bitmap() {
    let mut m = new_iso_struct(sample_spec(), true);
    m.add_mti("0800").unwrap();
    m.add_field(70, "301").unwrap();

    let wire = m.to_string().unwrap();
    // High bit set: 32 hex digits of bitmap follow the indicator.
    assert_eq!(&wire[4..6], "80");
    assert_eq!(wire.len(), 4 + 32 + 3 + 3);

    let decoded = m.parse(&wire).unwrap();
    assert_eq!(decoded.mti.to_string(), "0800");
    assert_eq!(decoded.bitmap.len(), 128);
    assert_eq!(decoded.bitmap, m.bitmap);
    let elems = decoded.elements.get_elements();
    assert_eq!(elems.len(), 1);
    assert_eq!(elems.get(&70).unwrap().as_str(), "301");
}

#[test]
fn length_prefix_forms() {
    // llvar with a 7-character value packs as "07" + value.
    let mut fields = HashMap::new();
    fields.insert(2, fd("n", 19, 1, "llvar", "pan"));
    fields.insert(3, fd("n", 10, 1, "lllvar", "processing code"));
    let mut m = new_iso_struct(Spec { fields }, false);
    m.add_mti("0200").unwrap();
    m.add_field(2, "4111111").unwrap();
    m.add_field(3, "1234567").unwrap();
    let wire = m.to_string().unwrap();
    assert_eq!(wire, "020060000000000000000741111110071234567");
}

#[test]
fn length_prefix_overflow() {
    let mut fields = HashMap::new();
    fields.insert(2, fd("n", 19, 1, "llvar", "pan"));
    let mut m = new_iso_struct(Spec { fields }, false);
    m.add_mti("0200").unwrap();
    let long_value = "9".repeat(100);
    m.add_field(2, &long_value).unwrap();
    assert!(matches!(m.to_string(), Err(IsoError::LengthOverflow(2))));
}

#[test]
fn encode_rejects_bad_bitmap_length() {
    let mut m = new_iso_struct(sample_spec(), false);
    m.add_mti("0200").unwrap();
    m.bitmap.truncate(60);
    assert!(matches!(m.to_string(), Err(IsoError::InvalidBitmapLength)));
}

#[test]
fn bitmap_selector_sizes() {
    let m = new_iso_struct(sample_spec(), false);
    // High bit clear: 16 hex digits of bitmap, none of the fields set.
    let decoded = m.parse("02000000000000000000").unwrap();
    assert_eq!(decoded.bitmap.len(), 64);
    // High bit set: 32 hex digits must be present and consumed.
    let decoded = m.parse("020080000000000000000000000000000000").unwrap();
    assert_eq!(decoded.bitmap.len(), 128);
    // High bit set but only 16 hex digits: truncated.
    assert!(matches!(
        m.parse("02008000000000000000"),
        Err(IsoError::TruncatedBitmap)
    ));
}

#[test]
fn truncated_wire_errors() {
    let m = new_iso_struct(sample_spec(), false);
    assert!(matches!(m.parse(""), Err(IsoError::TruncatedBitmap)));
    assert!(matches!(m.parse("02"), Err(IsoError::TruncatedBitmap)));
    assert!(matches!(m.parse("0200"), Err(IsoError::TruncatedBitmap)));
    assert!(matches!(m.parse("02000"), Err(IsoError::TruncatedBitmap)));
    assert!(matches!(m.parse("0200000000000"), Err(IsoError::TruncatedBitmap)));
}

#[test]
fn bad_bitmap_header() {
    let m = new_iso_struct(sample_spec(), false);
    assert!(matches!(
        m.parse("0200zz00000000000000"),
        Err(IsoError::InvalidBitmapHeader)
    ));
}

#[test]
fn bad_bitmap_hex_body() {
    let m = new_iso_struct(sample_spec(), false);
    assert!(matches!(
        m.parse("020000000000000000zz"),
        Err(IsoError::InvalidHex)
    ));
}

#[test]
fn bad_mti_in_wire() {
    let m = new_iso_struct(sample_spec(), false);
    assert!(matches!(
        m.parse("02A00000000000000000"),
        Err(IsoError::InvalidMtiContent)
    ));
}

#[test]
fn truncated_field_value() {
    let m = new_iso_struct(sample_spec(), false);
    // Field 4 (fixed, width 12) present but only 3 characters remain.
    assert!(matches!(
        m.parse("02001000000000000000123"),
        Err(IsoError::TruncatedField(4))
    ));
    // Field 2 (llvar) prefix says 16 but only 3 characters remain.
    assert!(matches!(
        m.parse("020040000000000000001641?"),
        Err(IsoError::TruncatedField(2))
    ));
}

#[test]
fn bad_length_prefix() {
    let m = new_iso_struct(sample_spec(), false);
    // Field 2 (llvar) with a non-numeric length prefix.
    assert!(matches!(
        m.parse("02004000000000000000a1411"),
        Err(IsoError::InvalidLengthPrefix(2))
    ));
}

#[test]
fn missing_field_spec() {
    let mut m = new_iso_struct(sample_spec(), false);
    m.add_mti("0200").unwrap();
    m.add_field(9, "value").unwrap();
    assert!(matches!(m.to_string(), Err(IsoError::MissingFieldSpec(9))));
    // Decoding with a present field the specification does not know.
    let m2 = new_iso_struct(sample_spec(), false);
    assert!(matches!(
        m2.parse("02000080000000000000xyz"),
        Err(IsoError::MissingFieldSpec(9))
    ));
}

#[test]
fn unknown_len_type() {
    let mut fields = HashMap::new();
    fields.insert(2, fd("n", 19, 1, "bogus", "pan"));
    let mut m = new_iso_struct(Spec { fields }, false);
    m.add_mti("0200").unwrap();
    m.add_field(2, "41").unwrap();
    match m.to_string() {
        Err(IsoError::UnknownLenType(v)) => assert_eq!(v, "bogus"),
        other => panic!("expected UnknownLenType, got {:?}", other),
    }
}

#[test]
fn trailing_data_is_ignored() {
    let m = new_iso_struct(sample_spec(), false);
    let decoded = m
        .parse("02005000000000000000164111111111111111000000010000EXTRA")
        .unwrap();
    let elems = decoded.elements.get_elements();
    assert_eq!(elems.len(), 2);
    assert_eq!(elems.get(&4).unwrap().as_str(), "000000010000");
}

#[test]
fn empty_message_round_trip() {
    let mut m = new_iso_struct(sample_spec(), false);
    m.add_mti("0800").unwrap();
    let wire = m.to_string().unwrap();
    assert_eq!(wire, "08000000000000000000");
    let decoded = m.parse(&wire).unwrap();
    assert_eq!(decoded.mti.to_string(), "0800");
    assert!(decoded.elements.get_elements().is_empty());
}
