use zk4log::record::{collect_keys, find_text, has_text, Field, FieldValue, Record};

fn text(key: &str, value: &str) -> Field {
    Field { key: key.to_string(), value: FieldValue::Text(value.to_string()) }
}

fn record(keys: &[&str]) -> Record {
    Record { fields: keys.iter().map(|k| text(k, "v")).collect() }
}

#[test]
fn key_universe_is_in_first_seen_order_without_repeats() {
    let records = vec![record(&["b", "a"]), record(&["a", "c", "b"]), record(&[]), record(&["d", "a"])];
    assert_eq!(collect_keys(&records), vec!["b", "a", "c", "d"]);
}

#[test]
fn key_universe_of_nothing_is_empty() {
    assert!(collect_keys(&vec![]).is_empty());
    assert!(collect_keys(&vec![record(&[])]).is_empty());
}

#[test]
fn insert_appends_a_new_key_and_replaces_an_old_one_in_place() {
    let mut r = Record::new();
    assert!(r.fields.is_empty());
    r.insert("a".to_string(), FieldValue::Text("1".to_string()));
    r.insert("b".to_string(), FieldValue::Other("2".to_string()));
    r.insert("a".to_string(), FieldValue::Text("3".to_string()));
    assert_eq!(r.fields.len(), 2);
    assert_eq!(r.fields[0].key, "a");
    assert!(matches!(&r.fields[0].value, FieldValue::Text(t) if t == "3"));
    assert_eq!(r.fields[1].key, "b");
    assert!(matches!(&r.fields[1].value, FieldValue::Other(t) if t == "2"));
}

#[test]
fn get_finds_the_value_of_a_key() {
    let r = Record { fields: vec![text("a", "1"), text("b", "2")] };
    assert!(matches!(r.get(&"b".to_string()), Some(FieldValue::Text(t)) if t == "2"));
    assert!(r.get(&"c".to_string()).is_none());
    assert_eq!(r.position(&"a".to_string()), Some(0));
    assert_eq!(r.position(&"b".to_string()), Some(1));
    assert_eq!(r.position(&"".to_string()), None);
}

#[test]
fn find_text_gives_the_first_position() {
    let strings: Vec<String> = ["x", "y", "x"].iter().map(|s| s.to_string()).collect();
    assert_eq!(find_text(&strings, &"x".to_string()), Some(0));
    assert_eq!(find_text(&strings, &"y".to_string()), Some(1));
    assert_eq!(find_text(&strings, &"z".to_string()), None);
    assert!(has_text(&strings, &"y".to_string()));
    assert!(!has_text(&strings, &"Y".to_string()));
}
