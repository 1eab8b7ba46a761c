use zk4log::error::Error;
use zk4log::record::{Field, FieldValue, Record};
use zk4log::redaction::commit_records;
use zk4log::zk::{accept_proof, verify, ProvingError, PROOF_LENGTH};
use zk4log::zk4log::{OutputShape, Zk4log};

fn text(key: &str, value: &str) -> Field {
    Field { key: key.to_string(), value: FieldValue::Text(value.to_string()) }
}

fn keys(names: &[&str]) -> Vec<String> {
    names.iter().map(|s| s.to_string()).collect()
}

#[test]
fn hiding_refuses_a_text_that_does_not_fit_before_any_key_is_made() {
    let records = vec![
        Record { fields: vec![text("a", "fits")] },
        Record { fields: vec![text("a", &"x".repeat(65))] },
    ];
    match Zk4log.hide_fields(&records, &keys(&["a"])) {
        Err(Error::PreimageTooLong { record_index, field_key }) => {
            assert_eq!(record_index, 1);
            assert_eq!(field_key, "a");
        }
        _ => panic!("expected PreimageTooLong"),
    }
    assert!(matches!(
        Zk4log.hide_fields_with_salt(&records, &keys(&["a"]), "0123456789abcdef"),
        Err(Error::PreimageTooLong { record_index: 1, .. })
    ));
}

#[test]
fn verification_refuses_a_malformed_key() {
    let records = vec![Record { fields: vec![text("a", "00")] }];
    assert!(matches!(Zk4log.verify(&records, b"0::a::p::", &[]), Err(Error::Serialization)));
    assert!(matches!(Zk4log.verify(&records, b"0::a::p::", &[0u8; 100]), Err(Error::Serialization)));
    assert!(matches!(
        Zk4log.verify(&records, b"0::a::p::", &[0xffu8; 1156]),
        Err(Error::Serialization)
    ));
}

#[test]
fn proof_system_rejects_what_it_cannot_read() {
    let commitment = [0u8; 32];
    assert!(!verify(&[], &commitment, &[0u8; PROOF_LENGTH]));
    assert!(!verify(&[1, 2, 3], &commitment, &[0xffu8; PROOF_LENGTH]));
    assert!(!verify(&[0u8; 1156], &commitment, &[0u8; PROOF_LENGTH]));
    assert!(!verify(&[0u8; 1156], &commitment, &[]));
    assert!(!verify(&[0u8; 1156], &[], &[0u8; PROOF_LENGTH]));
    assert!(!verify(&[0u8; 1156], &[0u8; 33], &[0u8; PROOF_LENGTH]));
    assert!(!verify(&[0u8; 1156], &commitment, &[0u8; PROOF_LENGTH + 1]));
}

#[test]
fn one_record_is_written_as_an_object_and_any_other_number_as_an_array() {
    assert_eq!(Zk4log::output_shape(1), OutputShape::Object);
    assert_eq!(Zk4log::output_shape(0), OutputShape::Array);
    assert_eq!(Zk4log::output_shape(2), OutputShape::Array);
    assert_eq!(Zk4log::output_shape(usize::MAX), OutputShape::Array);
}

#[test]
fn open_command_lists_the_selected_columns() {
    let universe = keys(&["time", "user", "ip"]);
    assert_eq!(
        Zk4log.open("log.json", &universe, &vec![2, 0]),
        "open log.json | select -i ip time"
    );
    assert_eq!(Zk4log.open("log.json", &universe, &vec![1]), "open log.json | select -i user");
    assert_eq!(Zk4log.open("~/x.json", &universe, &vec![]), "open ~/x.json | select -i ");
}

#[test]
fn nothing_made_is_a_failure_of_the_proof_system() {
    assert_eq!(accept_proof(&[0u8; 1156], &[7u8; 80], None), Err(ProvingError::Synthesis));
    assert_eq!(accept_proof(&[], &[0u8; 80], None), Err(ProvingError::Synthesis));
}

#[test]
fn proof_that_does_not_verify_is_not_handed_on() {
    let buffer = [7u8; 80];
    assert_eq!(
        accept_proof(&[0u8; 1156], &buffer, Some(vec![0u8; PROOF_LENGTH])),
        Err(ProvingError::Unverified)
    );
    assert_eq!(
        accept_proof(&[], &buffer, Some(vec![0xffu8; PROOF_LENGTH])),
        Err(ProvingError::Unverified)
    );
    assert_eq!(accept_proof(&[], &buffer, Some(vec![])), Err(ProvingError::Unverified));
}

#[test]
fn failed_key_generation_is_handed_on() {
    let records = vec![Record { fields: vec![text("a", "v")] }];
    let (kept, tasks) = commit_records(&records, &keys(&["a"]), "0123456789abcdef").unwrap();
    assert_eq!(Zk4log.hide_with_keys(kept.clone(), &tasks, Err(Error::Setup)), Err(Error::Setup));
    assert_eq!(
        Zk4log.hide_with_keys(kept, &vec![], Err(Error::Serialization)),
        Err(Error::Serialization)
    );
}
