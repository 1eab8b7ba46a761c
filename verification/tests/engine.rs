use zk4log::bundle::{decode_bundle, encode_bundle, ProofRecord};
use zk4log::commitment::commit;
use zk4log::error::Error;
use zk4log::hexadecimal::decode_hex;
use zk4log::record::{Field, FieldValue, Record};
use zk4log::redaction::{commit_records, prove_tasks, redact};
use zk4log::verification::{all_verified, check_record, verify_bundle, FieldStatus};
use zk4log::zk::ProvingError;

const SALT: &str = "ABCDEFGHabcdefgh";

/// A stand-in prover: the proof of a buffer is the buffer.
fn disclose(buffer: &[u8; 80]) -> Result<Vec<u8>, ProvingError> {
    Ok(buffer.to_vec())
}

/// The verifier that goes with it: the proof must be a buffer that the
/// commitment commits to.
fn recompute(commitment: &[u8], proof: &[u8]) -> bool {
    match <[u8; 80]>::try_from(proof) {
        Ok(buffer) => commit(&buffer) == commitment,
        Err(_) => false,
    }
}

/// A prover that gives up.
fn give_up(_: &[u8; 80]) -> Result<Vec<u8>, ProvingError> {
    Err(ProvingError::Synthesis)
}

fn text(key: &str, value: &str) -> Field {
    Field { key: key.to_string(), value: FieldValue::Text(value.to_string()) }
}

fn other(key: &str, raw: &str) -> Field {
    Field { key: key.to_string(), value: FieldValue::Other(raw.to_string()) }
}

fn keys(names: &[&str]) -> Vec<String> {
    names.iter().map(|s| s.to_string()).collect()
}

fn text_at<'a>(records: &'a [Record], index: usize, field: usize) -> &'a str {
    match &records[index].fields[field].value {
        FieldValue::Text(t) => t,
        FieldValue::Other(_) => panic!("not a text"),
    }
}

fn is_lower_hex(s: &str) -> bool {
    s.chars().all(|c| c.is_ascii_digit() || ('a'..='f').contains(&c))
}

#[test]
fn end_to_end_single_record() {
    let records = vec![Record { fields: vec![text("a", "secret1"), text("b", "visible")] }];
    let done = redact(&records, &keys(&["a"]), SALT, &disclose).unwrap();

    assert_eq!(done.records.len(), 1);
    let fields = &done.records[0].fields;
    assert_eq!(fields.len(), 2);
    assert_eq!(fields[0].key, "a");
    assert_eq!(fields[1].key, "b");
    let commitment = text_at(&done.records, 0, 0);
    assert_eq!(commitment.len(), 64);
    assert!(is_lower_hex(commitment));
    assert_eq!(commitment, "4da1384df14758c38882c5595e4b4ba46db4207481ef8bc4200accdcb1558bc9");
    assert_eq!(text_at(&done.records, 0, 1), "visible");

    let bytes = encode_bundle(&done.bundle);
    let decoded: Vec<ProofRecord> = decode_bundle(&bytes).unwrap();
    assert_eq!(decoded.len(), 1);
    assert_eq!(decoded[0].record_index, 0);
    assert_eq!(decoded[0].field_key, "a");
    assert_eq!(decoded[0].proof, done.bundle[0].proof);

    let results = verify_bundle(&done.records, &bytes, &recompute).unwrap();
    assert_eq!(results.len(), 1);
    assert_eq!(results[0].record_index, 0);
    assert_eq!(results[0].field_key, "a");
    assert!(results[0].ok());
    assert!(results[0].failure().is_none());
    assert!(all_verified(&results));
}

#[test]
fn two_records_get_independent_proofs() {
    let records = vec![
        Record { fields: vec![text("x", "first")] },
        Record { fields: vec![text("x", "second")] },
    ];
    let done = redact(&records, &keys(&["x"]), SALT, &disclose).unwrap();
    assert_eq!(done.bundle.len(), 2);
    assert_eq!((done.bundle[0].record_index, done.bundle[0].field_key.as_str()), (0, "x"));
    assert_eq!((done.bundle[1].record_index, done.bundle[1].field_key.as_str()), (1, "x"));
    assert_ne!(text_at(&done.records, 0, 0), text_at(&done.records, 1, 0));

    let results = verify_bundle(&done.records, &encode_bundle(&done.bundle), &recompute).unwrap();
    assert_eq!(results.len(), 2);
    assert!(results[0].ok() && results[1].ok());

    // corrupt the second proof only
    let mut bundle = done.bundle;
    bundle[1].proof[0] ^= 0x01;
    let results = verify_bundle(&done.records, &encode_bundle(&bundle), &recompute).unwrap();
    assert_eq!(results.len(), 2);
    assert!(results[0].ok());
    assert!(!results[1].ok());
    assert_eq!(results[1].status, FieldStatus::Failed);
    assert!(matches!(
        results[1].failure(),
        Some(Error::VerificationFailed { record_index: 1, field_key }) if field_key == "x"
    ));
    assert!(!all_verified(&results));
}

#[test]
fn proofs_come_in_record_order_then_field_order() {
    let records = vec![
        Record { fields: vec![text("b", "1"), text("a", "2"), text("c", "3")] },
        Record { fields: vec![text("c", "4")] },
        Record { fields: vec![text("a", "5"), text("b", "6")] },
    ];
    let done = redact(&records, &keys(&["a", "b"]), SALT, &disclose).unwrap();
    let addresses: Vec<(usize, &str)> =
        done.bundle.iter().map(|p| (p.record_index, p.field_key.as_str())).collect();
    assert_eq!(addresses, vec![(0, "b"), (0, "a"), (2, "a"), (2, "b")]);
    assert_eq!(text_at(&done.records, 0, 2), "3");
    assert_eq!(text_at(&done.records, 1, 0), "4");
    assert_eq!(done.records[1].fields.len(), 1);
}

#[test]
fn every_proof_is_for_the_buffer_behind_the_commitment() {
    let records = vec![Record { fields: vec![text("a", "hello"), text("b", "world")] }];
    let done = redact(&records, &keys(&["a", "b"]), SALT, &disclose).unwrap();
    for (k, proof) in done.bundle.iter().enumerate() {
        let buffer = <[u8; 80]>::try_from(proof.proof.as_slice()).unwrap();
        let stored = decode_hex(text_at(&done.records, 0, k)).unwrap();
        assert_eq!(commit(&buffer), stored);
    }
    assert_eq!(&done.bundle[0].proof[..21], b"helloABCDEFGHabcdefgh");
    assert!(done.bundle[0].proof[21..].iter().all(|b| *b == 0));
}

#[test]
fn values_that_are_not_text_pass_through() {
    let records = vec![Record {
        fields: vec![other("n", "42"), other("o", "{\"k\":1}"), text("t", "x"), other("z", "null")],
    }];
    let done = redact(&records, &keys(&["n", "o", "t", "z"]), SALT, &disclose).unwrap();
    assert_eq!(done.bundle.len(), 1);
    assert_eq!(done.bundle[0].field_key, "t");
    let fields = &done.records[0].fields;
    assert!(matches!(&fields[0].value, FieldValue::Other(raw) if raw == "42"));
    assert!(matches!(&fields[1].value, FieldValue::Other(raw) if raw == "{\"k\":1}"));
    assert!(matches!(&fields[3].value, FieldValue::Other(raw) if raw == "null"));
    assert_eq!(text_at(&done.records, 0, 2).len(), 64);
}

#[test]
fn nothing_selected_changes_nothing() {
    let records = vec![Record { fields: vec![text("a", "1"), other("b", "2")] }];
    let done = redact(&records, &keys(&[]), SALT, &disclose).unwrap();
    assert!(done.bundle.is_empty());
    assert_eq!(text_at(&done.records, 0, 0), "1");
    let done = redact(&records, &keys(&["missing"]), SALT, &disclose).unwrap();
    assert!(done.bundle.is_empty());
    let done = redact(&vec![], &keys(&["a"]), SALT, &disclose).unwrap();
    assert!(done.records.is_empty() && done.bundle.is_empty());
}

#[test]
fn preimage_too_long_names_the_first_field_that_does_not_fit() {
    let long = "x".repeat(65);
    let records = vec![
        Record { fields: vec![text("a", "short")] },
        Record { fields: vec![text("b", &long), text("a", &long), text("c", &long)] },
        Record { fields: vec![text("a", &long)] },
    ];
    match redact(&records, &keys(&["a", "c"]), SALT, &disclose) {
        Err(Error::PreimageTooLong { record_index, field_key }) => {
            assert_eq!(record_index, 1);
            assert_eq!(field_key, "a");
        }
        _ => panic!("expected PreimageTooLong"),
    }
    assert!(matches!(
        commit_records(&records, &keys(&["a"]), SALT),
        Err(Error::PreimageTooLong { record_index: 1, .. })
    ));
}

#[test]
fn preimage_too_long_wins_over_a_failing_prover() {
    let records = vec![
        Record { fields: vec![text("a", "short")] },
        Record { fields: vec![text("a", &"x".repeat(65))] },
    ];
    assert!(matches!(
        redact(&records, &keys(&["a"]), SALT, &give_up),
        Err(Error::PreimageTooLong { record_index: 1, .. })
    ));
}

#[test]
fn text_that_just_fits_is_committed() {
    let records = vec![Record { fields: vec![text("a", &"x".repeat(64))] }];
    let done = redact(&records, &keys(&["a"]), SALT, &disclose).unwrap();
    assert_eq!(done.bundle.len(), 1);
    assert!(done.bundle[0].proof.iter().all(|b| *b != 0));
}

#[test]
fn failing_prover_is_a_proving_error_for_its_field() {
    let records = vec![Record { fields: vec![text("k", "v"), text("l", "w")] }];
    match redact(&records, &keys(&["l", "k"]), SALT, &give_up) {
        Err(Error::Proving { record_index, field_key }) => {
            assert_eq!(record_index, 0);
            assert_eq!(field_key, "k");
        }
        _ => panic!("expected Proving"),
    }
}

#[test]
fn tasks_hold_the_padded_preimages() {
    let records = vec![Record { fields: vec![text("a", "v")] }];
    let (kept, tasks) = commit_records(&records, &keys(&["a"]), SALT).unwrap();
    assert_eq!(kept.len(), 1);
    assert_eq!(tasks.len(), 1);
    assert_eq!(tasks[0].record_index, 0);
    assert_eq!(tasks[0].field_key, "a");
    assert_eq!(&tasks[0].buffer[..17], b"vABCDEFGHabcdefgh");
    assert!(tasks[0].buffer[17..].iter().all(|b| *b == 0));
    let bundle = prove_tasks(&tasks, &disclose).unwrap();
    assert_eq!(bundle.len(), 1);
    assert_eq!(bundle[0].proof, tasks[0].buffer.to_vec());
}

#[test]
fn proof_without_a_target_is_a_mismatch() {
    let records = vec![Record { fields: vec![text("a", "00")] }];
    let bundle = vec![
        ProofRecord { record_index: 1, field_key: "a".to_string(), proof: vec![1] },
        ProofRecord { record_index: 0, field_key: "b".to_string(), proof: vec![1] },
        ProofRecord { record_index: usize::MAX, field_key: "a".to_string(), proof: vec![1] },
    ];
    let results = verify_bundle(&records, &encode_bundle(&bundle), &recompute).unwrap();
    assert_eq!(results.len(), 3);
    for (result, proof) in results.iter().zip(&bundle) {
        assert_eq!(result.status, FieldStatus::Mismatch);
        assert!(!result.ok());
        assert_eq!(result.record_index, proof.record_index);
        assert_eq!(result.field_key, proof.field_key);
        assert!(matches!(result.failure(), Some(Error::VerificationMismatch { .. })));
    }
}

#[test]
fn target_that_is_no_commitment_is_a_failure() {
    let accept_all = |_: &[u8], _: &[u8]| true;
    let records = vec![Record {
        fields: vec![text("odd", "abc"), text("word", "visible!"), other("n", "42"), text("h", "00ff")],
    }];
    let proof = |key: &str| ProofRecord { record_index: 0, field_key: key.to_string(), proof: vec![1] };
    assert_eq!(check_record(&records, &proof("odd"), &accept_all), FieldStatus::Failed);
    assert_eq!(check_record(&records, &proof("word"), &accept_all), FieldStatus::Failed);
    assert_eq!(check_record(&records, &proof("n"), &accept_all), FieldStatus::Failed);
    assert_eq!(check_record(&records, &proof("h"), &accept_all), FieldStatus::Verified);
    assert_eq!(check_record(&records, &proof("none"), &accept_all), FieldStatus::Mismatch);
}

#[test]
fn verifier_is_asked_about_the_decoded_commitment_and_the_proof() {
    let records = vec![Record { fields: vec![text("h", "00FFa1")] }];
    let proof = ProofRecord { record_index: 0, field_key: "h".to_string(), proof: vec![9, 8] };
    let expect = |commitment: &[u8], proof: &[u8]| commitment == [0x00, 0xff, 0xa1] && proof == [9, 8];
    assert_eq!(check_record(&records, &proof, &expect), FieldStatus::Verified);
    let refuse = |_: &[u8], _: &[u8]| false;
    assert_eq!(check_record(&records, &proof, &refuse), FieldStatus::Failed);
}

#[test]
fn unreadable_bundle_is_a_framing_error() {
    let records = vec![Record { fields: vec![text("a", "00")] }];
    assert!(matches!(
        verify_bundle(&records, b"0::a::\x01", &recompute),
        Err(Error::BundleFraming)
    ));
}

#[test]
fn empty_bundle_verifies_nothing() {
    let results = verify_bundle(&vec![], &[], &recompute).unwrap();
    assert!(results.is_empty());
    assert!(all_verified(&results));
}

#[test]
fn flipping_any_byte_of_a_proof_fails_its_field_without_an_error() {
    let records = vec![Record { fields: vec![text("a", "secret1")] }];
    let done = redact(&records, &keys(&["a"]), SALT, &disclose).unwrap();
    for at in 0..done.bundle[0].proof.len() {
        let mut proof = done.bundle[0].proof.clone();
        proof[at] ^= 0x80;
        let tampered = ProofRecord { record_index: 0, field_key: "a".to_string(), proof };
        assert_eq!(check_record(&done.records, &tampered, &recompute), FieldStatus::Failed);
    }
}

#[test]
fn proving_error_names_the_task_on_which_the_prover_failed() {
    // a prover that fails on the buffer of the text "bad" only
    let picky = |buffer: &[u8; 80]| {
        if buffer.starts_with(b"bad") {
            Err(ProvingError::Synthesis)
        } else {
            Ok(buffer.to_vec())
        }
    };
    let records = vec![
        Record { fields: vec![text("a", "good"), text("b", "fine")] },
        Record { fields: vec![text("b", "bad"), text("a", "bad")] },
    ];
    match redact(&records, &keys(&["a", "b"]), SALT, &picky) {
        Err(Error::Proving { record_index, field_key }) => {
            assert_eq!(record_index, 1);
            assert_eq!(field_key, "b");
        }
        _ => panic!("expected Proving"),
    }
    let done = redact(&records[..1].to_vec(), &keys(&["a", "b"]), SALT, &picky).unwrap();
    assert_eq!(done.bundle.len(), 2);
}

#[test]
fn no_task_needs_no_prover() {
    let records = vec![Record { fields: vec![text("a", "1")] }];
    let done = redact(&records, &keys(&[]), SALT, &give_up).unwrap();
    assert!(done.bundle.is_empty());
    assert_eq!(prove_tasks(&vec![], &give_up), Ok(vec![]));
}
