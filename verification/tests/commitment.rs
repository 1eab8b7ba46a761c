use zk4log::commitment::{commit, commit_value};
use zk4log::hexadecimal::encode_hex;
use zk4log::preimage::{buffer_bits, pad_preimage, salt_value};

#[test]
fn sha256_test() {
    let preimage = [65; 80];
    let text = encode_hex(&commit(&preimage));
    println!("{}", text);
    assert_eq!(text, "3898049c9ebd2ad6c3d21c13cd2c8ead4631652c9c17b56d454c9ff580a7aa30");
}

#[test]
fn commitment_of_the_zero_buffer() {
    let commitment = commit(&[0u8; 80]);
    assert_eq!(commitment.len(), 32);
    assert_eq!(
        encode_hex(&commitment),
        "4be7570e8f70eb093640c8468274ba759745a7aa2b7d25ab1e0421b259845014"
    );
}

#[test]
fn commitment_of_a_padded_text() {
    let m = "2rL9AkP0zS6E8yYXg7lUvB1tjHn4JwQcOqT5IeWxN3MmKpFfDdVbGhZaC";
    let buffer = pad_preimage(m.as_bytes()).unwrap();
    assert_eq!(
        encode_hex(&commit(&buffer)),
        "ebd7556ebc4c768abdcee3ab394cdc6d71914c025a4adea8891e7510a328d48d"
    );
}

#[test]
fn commit_value_joins_pads_hashes_and_writes_hex() {
    let text = commit_value("secret1", "ABCDEFGHabcdefgh").unwrap();
    assert_eq!(text, "4da1384df14758c38882c5595e4b4ba46db4207481ef8bc4200accdcb1558bc9");
}

#[test]
fn commit_value_depends_on_value_and_salt() {
    let a = commit_value("secret1", "ABCDEFGHabcdefgh").unwrap();
    let b = commit_value("secret2", "ABCDEFGHabcdefgh").unwrap();
    let c = commit_value("secret1", "ABCDEFGHabcdefgi").unwrap();
    assert_ne!(a, b);
    assert_ne!(a, c);
}

#[test]
fn commit_value_refuses_what_does_not_fit() {
    let salt = "ABCDEFGHabcdefgh";
    assert!(commit_value(&"v".repeat(64), salt).is_some());
    assert!(commit_value(&"v".repeat(65), salt).is_none());
    // length counts bytes, not characters
    assert!(commit_value(&"é".repeat(32), salt).is_some());
    assert!(commit_value(&"é".repeat(33), salt).is_none());
}

#[test]
fn salt_value_is_the_text_then_the_salt() {
    assert_eq!(salt_value("ab", "XYZ"), b"abXYZ".to_vec());
    assert_eq!(salt_value("", ""), Vec::<u8>::new());
    assert_eq!(salt_value("é", "!"), vec![0xc3, 0xa9, 0x21]);
}

#[test]
fn pad_preimage_fills_with_zeros() {
    let buffer = pad_preimage(b"abc").unwrap();
    assert_eq!(&buffer[..3], b"abc");
    assert!(buffer[3..].iter().all(|b| *b == 0));
    assert_eq!(pad_preimage(&[]).unwrap(), [0u8; 80]);
    assert_eq!(pad_preimage(&[9u8; 80]).unwrap(), [9u8; 80]);
}

#[test]
fn pad_preimage_refuses_more_than_the_capacity() {
    assert!(pad_preimage(&[1u8; 81]).is_none());
    assert!(pad_preimage(&[1u8; 200]).is_none());
}

#[test]
fn buffer_bits_are_least_significant_first() {
    let mut buffer = [0u8; 80];
    buffer[0] = 0b1000_0110;
    buffer[1] = 0xff;
    let bits = buffer_bits(&buffer);
    assert_eq!(bits.len(), 640);
    assert_eq!(&bits[..8], &[false, true, true, false, false, false, false, true]);
    assert!(bits[8..16].iter().all(|b| *b));
    assert!(bits[16..].iter().all(|b| !*b));
}
