use zk4log::error::Error;

#[test]
fn every_error_has_its_own_description() {
    let key = || "k".to_string();
    let all = vec![
        Error::PreimageTooLong { record_index: 0, field_key: key() },
        Error::Setup,
        Error::Proving { record_index: 0, field_key: key() },
        Error::Serialization,
        Error::BundleFraming,
        Error::VerificationMismatch { record_index: 0, field_key: key() },
        Error::VerificationFailed { record_index: 0, field_key: key() },
    ];
    let texts: Vec<&str> = all.iter().map(|e| e.describe()).collect();
    for (i, text) in texts.iter().enumerate() {
        assert!(!text.is_empty());
        assert!(texts[..i].iter().all(|earlier| earlier != text));
    }
    assert_eq!(Error::BundleFraming.describe(), "malformed proof bundle");
    assert_eq!(
        Error::PreimageTooLong { record_index: 3, field_key: key() }.describe(),
        "value and salt exceed the preimage capacity"
    );
}
