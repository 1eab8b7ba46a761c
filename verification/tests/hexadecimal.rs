use zk4log::hexadecimal::{decode_hex, encode_hex};

#[test]
fn encode_is_lowercase_high_nibble_first() {
    assert_eq!(encode_hex(&[]), "");
    assert_eq!(encode_hex(&[0x00]), "00");
    assert_eq!(encode_hex(&[0x0f, 0xf0, 0xa9, 0x10, 0xff]), "0ff0a910ff");
    assert_eq!(encode_hex(&[0xde, 0xad, 0xbe, 0xef]), "deadbeef");
}

#[test]
fn decode_accepts_both_cases() {
    assert_eq!(decode_hex(""), Some(vec![]));
    assert_eq!(decode_hex("deadBEEF"), Some(vec![0xde, 0xad, 0xbe, 0xef]));
    assert_eq!(decode_hex("0A1b"), Some(vec![0x0a, 0x1b]));
}

#[test]
fn decode_refuses_odd_lengths_and_other_characters() {
    assert_eq!(decode_hex("abc"), None);
    assert_eq!(decode_hex("0g"), None);
    assert_eq!(decode_hex("0x10"), None);
    assert_eq!(decode_hex(" 10"), None);
    assert_eq!(decode_hex("é"), None);
    assert_eq!(decode_hex("éa0"), None);
}

#[test]
fn decode_undoes_encode() {
    let bytes: Vec<u8> = (0..=255u8).collect();
    let text = encode_hex(&bytes);
    assert_eq!(text.len(), 512);
    assert_eq!(decode_hex(&text), Some(bytes));
}
