use winfsp_fs_skeleton::le::{read_u16, read_u32, read_u64};
use winfsp_fs_skeleton::text::{decimal_string, joined, push_decimal, push_hex_byte, push_hex_bytes};
use winfsp_fs_skeleton::utf16::{
    decode_lossy, decode_strict, decode_units, read_until_nul, wide_z,
};

#[test]
fn bytes_become_two_hexadecimal_digits() {
    let mut s = String::from("x");
    push_hex_byte(&mut s, 0x0F, true);
    push_hex_byte(&mut s, 0xA0, false);
    assert_eq!(s, "x0Fa0");
    let mut s = String::new();
    push_hex_bytes(&mut s, &[0x00, 0xFF, 0x9A], true);
    assert_eq!(s, "00FF9A");
    push_hex_bytes(&mut s, &[], true);
    assert_eq!(s, "00FF9A");
}

#[test]
fn every_byte_has_the_digits_that_format_gives_it() {
    for b in 0..=255u8 {
        let mut upper = String::new();
        push_hex_byte(&mut upper, b, true);
        assert_eq!(upper, format!("{b:02X}"));
        let mut lower = String::new();
        push_hex_byte(&mut lower, b, false);
        assert_eq!(lower, format!("{b:02x}"));
    }
}

#[test]
fn numbers_become_decimal_digits() {
    for n in [0, 9, 10, 99, 100, 4096, u64::MAX] {
        assert_eq!(decimal_string(n), n.to_string());
    }
    let mut s = String::from("n=");
    push_decimal(&mut s, 12);
    assert_eq!(s, "n=12");
}

#[test]
fn texts_are_joined_in_order() {
    assert_eq!(joined("a", "bc"), "abc");
}

#[test]
fn integers_are_little_endian() {
    let b = [0x01, 0x02, 0x03, 0x04, 0x05, 0x06, 0x07, 0x08, 0xFF];
    assert_eq!(read_u16(&b, 1), 0x0302);
    assert_eq!(read_u32(&b, 1), 0x0504_0302);
    assert_eq!(read_u64(&b, 1), 0xFF08_0706_0504_0302);
}

#[test]
fn units_are_read_up_to_the_first_nul() {
    assert_eq!(read_until_nul(&[0x41, 0, 0x42, 0, 0, 0, 0x43, 0]), [0x41, 0x42]);
    assert_eq!(read_until_nul(&[0x41, 0, 0x42]), [0x41]);
    assert_eq!(read_until_nul(&[]), []);
}

#[test]
fn surrogate_pairs_decode_to_one_character() {
    assert_eq!(decode_units(&[0xD83D, 0xDE00]), [Some('\u{1F600}')]);
    assert_eq!(decode_units(&[0xDBFF, 0xDFFF]), [Some('\u{10FFFF}')]);
}

#[test]
fn lone_surrogates_do_not_decode() {
    let units = [0x41, 0xDC00, 0xD800, 0x42, 0xD800];
    assert_eq!(decode_units(&units), [Some('A'), None, None, Some('B'), None]);
    assert_eq!(decode_strict(&units), None);
    assert_eq!(decode_lossy(&units), "A\u{FFFD}\u{FFFD}B\u{FFFD}");
    assert_eq!(decode_lossy(&units), String::from_utf16_lossy(&units));
}

#[test]
fn well_formed_text_decodes_strictly() {
    let units: Vec<u16> = "Größe \u{1F600}".encode_utf16().collect();
    assert_eq!(decode_strict(&units), Some("Größe \u{1F600}".to_string()));
    assert_eq!(decode_strict(&[]), Some(String::new()));
}

#[test]
fn wide_text_ends_in_a_nul() {
    assert_eq!(wide_z(""), [0]);
    assert_eq!(wide_z("Ab"), [0x41, 0x62, 0]);
    assert_eq!(wide_z("\u{1F600}\u{FFFF}"), [0xD83D, 0xDE00, 0xFFFF, 0]);
}

#[test]
fn decoding_gives_back_what_was_encoded() {
    for text in ["", "SOFTWARE\\WinFsp", "\u{7FF}\u{800}\u{FFFF}\u{10000}\u{10FFFF}"] {
        let mut units = wide_z(text);
        assert_eq!(units.pop(), Some(0));
        assert_eq!(decode_strict(&units).as_deref(), Some(text));
        assert_eq!(decode_lossy(&units), text);
        assert_eq!(units, text.encode_utf16().collect::<Vec<u16>>());
    }
}
