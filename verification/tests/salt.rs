use zk4log::salt::gen_salt;

const ALPHABET: &str = "ABCDEFGHIJKLMNOPQRSTUVWXYZabcdefghijklmnopqrstuvwxyz0123456789)(*&^%$#@!~";

#[test]
fn salt_has_sixteen_symbols_of_the_alphabet() {
    for _ in 0..200 {
        let salt = gen_salt();
        assert_eq!(salt.len(), 16);
        assert_eq!(salt.chars().count(), 16);
        assert!(salt.chars().all(|c| ALPHABET.contains(c)));
    }
}

#[test]
fn salts_use_the_whole_alphabet() {
    let mut seen = std::collections::BTreeSet::new();
    for _ in 0..2000 {
        seen.extend(gen_salt().chars());
    }
    assert_eq!(seen.len(), ALPHABET.len());
}

#[test]
fn salts_differ_from_call_to_call() {
    assert_ne!(gen_salt(), gen_salt());
}
