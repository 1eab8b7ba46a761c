use zk4log::bundle::{
    can_frame, decode_bundle, encode_bundle, encode_bundle_checked, is_frameable, ProofRecord,
};
use zk4log::error::Error;

fn record(index: usize, key: &str, proof: &[u8]) -> ProofRecord {
    ProofRecord { record_index: index, field_key: key.to_string(), proof: proof.to_vec() }
}

fn same(a: &[ProofRecord], b: &[ProofRecord]) -> bool {
    a.len() == b.len()
        && a.iter().zip(b).all(|(x, y)| {
            x.record_index == y.record_index && x.field_key == y.field_key && x.proof == y.proof
        })
}

#[test]
fn encoding_is_index_key_proof_each_followed_by_the_delimiter() {
    let bytes = encode_bundle(&vec![record(12, "name", &[1, 2, 3])]);
    assert_eq!(bytes, b"12::name::\x01\x02\x03::".to_vec());
}

#[test]
fn encoding_concatenates_records_without_a_header() {
    let bytes = encode_bundle(&vec![record(0, "a", &[7]), record(1, "b", &[8, 9])]);
    assert_eq!(bytes, b"0::a::\x07::1::b::\x08\x09::".to_vec());
}

#[test]
fn empty_bundle_is_empty_bytes() {
    assert_eq!(encode_bundle(&vec![]), Vec::<u8>::new());
    assert!(decode_bundle(&[]).unwrap().is_empty());
}

#[test]
fn round_trip_gives_the_records_back() {
    let records = vec![
        record(0, "a", &[0, 1, 2, 255, 58, 0]),
        record(1, "ключ", &[]),
        record(usize::MAX, "", &[58, 1, 58, 2]),
        record(10, "with \"quotes\" inside", &[34, 34]),
        record(2, ":starts with a colon", &[58, 7]),
    ];
    let bytes = encode_bundle(&records);
    let decoded = decode_bundle(&bytes).unwrap();
    assert!(same(&records, &decoded));
}

#[test]
fn round_trip_of_a_proof_sized_payload() {
    let proof: Vec<u8> = (0..192u32).map(|i| (i * 7 % 251) as u8).collect();
    assert!(is_frameable(&proof));
    let records = vec![record(0, "x", &proof), record(1, "x", &proof)];
    let decoded = decode_bundle(&encode_bundle(&records)).unwrap();
    assert!(same(&records, &decoded));
}

#[test]
fn delimiter_inside_a_proof_breaks_the_round_trip() {
    // The proof bytes hold `::`. The scan takes it for a delimiter, so the
    // proof is cut short and what follows no longer lines up into records.
    let records = vec![record(0, "a", &[1, 58, 58, 2])];
    assert!(!is_frameable(&records[0].proof));
    let bytes = encode_bundle(&records);
    assert_eq!(bytes, b"0::a::\x01::\x02::".to_vec());
    assert!(matches!(decode_bundle(&bytes), Err(Error::BundleFraming)));
}

#[test]
fn delimiter_inside_a_proof_can_forge_a_record() {
    // Here the cut leaves fields that do line up: the bundle decodes, but to
    // other records than were written.
    let records = vec![record(0, "a", b"\x01::7::b::\x02")];
    let bytes = encode_bundle(&records);
    let decoded = decode_bundle(&bytes).unwrap();
    assert_eq!(decoded.len(), 2);
    assert!(!same(&records, &decoded));
    assert_eq!(decoded[0].proof, vec![1]);
    assert_eq!(decoded[1].record_index, 7);
    assert_eq!(decoded[1].field_key, "b");
    assert_eq!(decoded[1].proof, vec![2]);
}

#[test]
fn proof_ending_in_a_colon_breaks_the_round_trip() {
    let records = vec![record(0, "a", &[1, 58])];
    assert!(!is_frameable(&records[0].proof));
    let bytes = encode_bundle(&records);
    assert!(matches!(decode_bundle(&bytes), Err(Error::BundleFraming)));
}

#[test]
fn key_holding_the_delimiter_breaks_the_round_trip() {
    let records = vec![record(0, "a::b", &[1])];
    let bytes = encode_bundle(&records);
    assert!(matches!(decode_bundle(&bytes), Err(Error::BundleFraming)));
}

#[test]
fn quoted_key_is_read_without_its_quotes() {
    let decoded = decode_bundle(b"3::\"name\"::\x05::").unwrap();
    assert_eq!(decoded.len(), 1);
    assert_eq!(decoded[0].record_index, 3);
    assert_eq!(decoded[0].field_key, "name");
    assert_eq!(decoded[0].proof, vec![5]);
}

#[test]
fn key_of_quotes_only_is_read_as_empty() {
    let decoded = decode_bundle(b"3::\"\"\"::\x05::").unwrap();
    assert_eq!(decoded[0].field_key, "");
}

#[test]
fn leading_zeros_in_the_index_are_accepted() {
    let decoded = decode_bundle(b"007::k::p::").unwrap();
    assert_eq!(decoded[0].record_index, 7);
}

#[test]
fn truncated_bundle_is_a_framing_error() {
    assert!(matches!(decode_bundle(b"0::a::\x01\x02"), Err(Error::BundleFraming)));
    assert!(matches!(decode_bundle(b"0::a::"), Err(Error::BundleFraming)));
    assert!(matches!(decode_bundle(b"0::"), Err(Error::BundleFraming)));
    assert!(matches!(decode_bundle(b"0"), Err(Error::BundleFraming)));
    assert!(matches!(decode_bundle(b"0::a::p::1::b::"), Err(Error::BundleFraming)));
    assert!(matches!(decode_bundle(b"0::a::p:::"), Err(Error::BundleFraming)));
}

#[test]
fn malformed_index_is_a_framing_error() {
    assert!(matches!(decode_bundle(b"::a::p::"), Err(Error::BundleFraming)));
    assert!(matches!(decode_bundle(b"x::a::p::"), Err(Error::BundleFraming)));
    assert!(matches!(decode_bundle(b"+1::a::p::"), Err(Error::BundleFraming)));
    assert!(matches!(decode_bundle(b"-1::a::p::"), Err(Error::BundleFraming)));
    assert!(matches!(decode_bundle(b"1 ::a::p::"), Err(Error::BundleFraming)));
}

#[test]
fn index_beyond_the_machine_word_is_a_framing_error() {
    let at_limit = format!("{}::a::p::", usize::MAX);
    assert_eq!(decode_bundle(at_limit.as_bytes()).unwrap()[0].record_index, usize::MAX);
    let beyond = format!("{}0::a::p::", usize::MAX);
    assert!(matches!(decode_bundle(beyond.as_bytes()), Err(Error::BundleFraming)));
    let just_beyond = "18446744073709551616::a::p::";
    if usize::MAX as u128 == u64::MAX as u128 {
        assert!(matches!(decode_bundle(just_beyond.as_bytes()), Err(Error::BundleFraming)));
    }
}

#[test]
fn key_that_is_not_utf8_is_a_framing_error() {
    assert!(matches!(decode_bundle(b"0::\xff\xfe::p::"), Err(Error::BundleFraming)));
}

#[test]
fn frameable_fields() {
    assert!(is_frameable(b""));
    assert!(is_frameable(b"abc"));
    assert!(is_frameable(b":a:b"));
    assert!(!is_frameable(b"a::b"));
    assert!(!is_frameable(b"::"));
    assert!(!is_frameable(b"ab:"));
    assert!(!is_frameable(b":"));
}

#[test]
fn checked_encoding_refuses_what_would_not_come_back() {
    let good = vec![record(0, "a", &[1, 2, 3]), record(1, "b", &[58, 1])];
    assert_eq!(encode_bundle_checked(&good), Ok(encode_bundle(&good)));
    assert_eq!(decode_bundle(&encode_bundle_checked(&good).unwrap()).unwrap(), good);

    for bad in [
        record(0, "a", &[1, 58, 58, 2]),
        record(0, "a", &[1, 58]),
        record(0, "a::b", &[1]),
        record(0, "a:", &[1]),
        record(0, "\"a", &[1]),
        record(0, "a\"", &[1]),
    ] {
        assert!(!can_frame(&bad));
        assert_eq!(encode_bundle_checked(&vec![good[0].clone(), bad]), Err(Error::BundleFraming));
    }
    assert!(can_frame(&record(7, "", &[])));
    assert!(can_frame(&record(7, "a\"b", &[34])));
}
