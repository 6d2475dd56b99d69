use unveil::codec::{decode_b64, decode_hex, decode_percent, encode_b64, encode_hex, encode_percent};
use unveil::text::{excerpt, parse_u64, text_preview, u64_decimal};

#[test]
fn base64_round_trips() {
    let data = b"Hello, UNVEIL!";
    let text = encode_b64(data, false, true);
    assert_eq!(text, "SGVsbG8sIFVOVkVJTCE=");
    assert_eq!(decode_b64(&text, false).unwrap(), data.to_vec());
    let url = encode_b64(&[0xfb, 0xff], true, false);
    assert_eq!(url, "-_8");
    assert_eq!(decode_b64(&url, true).unwrap(), vec![0xfb, 0xff]);
    assert_eq!(encode_b64(&[], false, true), "");
}

#[test]
fn base64_rejects_foreign_characters() {
    assert!(decode_b64("SGVs*G8=", false).is_none());
    assert!(decode_b64("-_8", false).is_none());
}

#[test]
fn hex_round_trips() {
    assert_eq!(encode_hex(&[0x00, 0xab, 0xff]), "00abff");
    assert_eq!(decode_hex("00abff").unwrap(), vec![0x00, 0xab, 0xff]);
    assert_eq!(decode_hex("00ABFF").unwrap(), vec![0x00, 0xab, 0xff]);
    assert!(decode_hex("abc").is_none());
    assert!(decode_hex("zz").is_none());
}

#[test]
fn percent_round_trips() {
    let data = b"a b/%";
    let text = encode_percent(data);
    assert_eq!(decode_percent(&text).unwrap(), data.to_vec());
    assert_eq!(decode_percent("%41%62c").unwrap(), b"Abc".to_vec());
    assert!(decode_percent("%4").is_none());
    assert!(decode_percent("%zz").is_none());
}

#[test]
fn decimals_round_trip() {
    assert_eq!(u64_decimal(0), "0");
    assert_eq!(u64_decimal(1600), "1600");
    assert_eq!(u64_decimal(u64::MAX), "18446744073709551615");
    assert_eq!(parse_u64("1600"), Some(1600));
    assert_eq!(parse_u64("18446744073709551615"), Some(u64::MAX));
    assert_eq!(parse_u64("18446744073709551616"), None);
    assert_eq!(parse_u64(""), None);
    assert_eq!(parse_u64("12a"), None);
    assert_eq!(parse_u64(&u64_decimal(987654321)), Some(987654321));
}

#[test]
fn previews_show_nul_as_dot() {
    assert_eq!(text_preview(b"a\0b"), "a\u{b7}b");
    assert_eq!(excerpt(b"Hello, UNVEIL!", 7, 13), "UNVEIL");
}
