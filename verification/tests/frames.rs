use zk4log::bundle::ProofRecord;
use zk4log::error::Error;
use zk4log::frames::{decode_frames, encode_frames};

fn record(index: usize, key: &str, proof: &[u8]) -> ProofRecord {
    ProofRecord { record_index: index, field_key: key.to_string(), proof: proof.to_vec() }
}

#[test]
fn frame_is_index_then_key_and_proof_behind_their_lengths() {
    let bytes = encode_frames(&vec![record(0x0102, "ab", &[9, 8, 7])]).unwrap();
    assert_eq!(
        bytes,
        vec![0, 0, 0, 0, 0, 0, 1, 2, 0, 0, 0, 2, b'a', b'b', 0, 0, 0, 3, 9, 8, 7]
    );
}

#[test]
fn frames_give_any_payload_back() {
    let records = vec![
        record(0, "a::b", b"\x01::7::b::\x02"),
        record(1, "\"quoted\"", &[58, 58, 58]),
        record(usize::MAX, "", &[]),
        record(2, "ключ:", &[58]),
    ];
    let bytes = encode_frames(&records).unwrap();
    assert_eq!(decode_frames(&bytes).unwrap(), records);
}

#[test]
fn empty_bundle_of_frames() {
    assert_eq!(encode_frames(&vec![]).unwrap(), Vec::<u8>::new());
    assert!(decode_frames(&[]).unwrap().is_empty());
}

#[test]
fn truncated_frames_are_a_framing_error() {
    let bytes = encode_frames(&vec![record(5, "key", &[1, 2, 3, 4])]).unwrap();
    for cut in 1..bytes.len() {
        assert_eq!(decode_frames(&bytes[..cut]), Err(Error::BundleFraming));
    }
    let mut longer = bytes.clone();
    longer.push(0);
    assert_eq!(decode_frames(&longer), Err(Error::BundleFraming));
}

#[test]
fn length_beyond_the_bytes_is_a_framing_error() {
    let mut bytes = encode_frames(&vec![record(5, "key", &[1, 2, 3, 4])]).unwrap();
    bytes[8] = 0xff;
    assert_eq!(decode_frames(&bytes), Err(Error::BundleFraming));
}

#[test]
fn key_that_is_not_utf8_is_a_framing_error_in_frames() {
    let bytes = vec![0, 0, 0, 0, 0, 0, 0, 1, 0, 0, 0, 1, 0xff, 0, 0, 0, 0];
    assert_eq!(decode_frames(&bytes), Err(Error::BundleFraming));
}
