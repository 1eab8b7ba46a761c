use zk4log::parser::{find_captures, parse_affine, parse_proof};

const INPUT: &str = "Proof { a: G1Affine { x: 0x0ed5be380302722a, y: 0x04068866d9f17f77, infinity: Choice(0) }, b: G2Affine { x: 0x084e975645c08d32, y: 0x08d1edc621c76727, infinity: Choice(0) }, c: G1Affine { x: 0x160cc95dad7f0cb5, y: 0x052d208e0f4ea5aa, infinity: Choice(0) } }";

#[test]
fn proof_is_read_from_its_debug_text() {
    let proof = parse_proof(INPUT).unwrap();
    assert_eq!(proof.a.x, "0x0ed5be380302722a");
    assert_eq!(proof.a.y, "0x04068866d9f17f77");
    assert_eq!(proof.a.infinity, "Choice(0)");
    assert_eq!(proof.b.x, "0x084e975645c08d32");
    assert_eq!(proof.b.y, "0x08d1edc621c76727");
    assert_eq!(proof.b.infinity, "Choice(0)");
    assert_eq!(proof.c.x, "0x160cc95dad7f0cb5");
    assert_eq!(proof.c.y, "0x052d208e0f4ea5aa");
    assert_eq!(proof.c.infinity, "Choice(0)");
}

#[test]
fn text_without_a_point_is_no_proof() {
    assert!(parse_proof("").is_none());
    assert!(parse_proof("Proof { a: G1Affine { x: 0x1, y: 0x2, infinity: Choice(0) } }").is_none());
}

#[test]
fn point_without_a_coordinate_is_no_proof() {
    let input = INPUT.replace("y: 0x08d1edc621c76727, ", "");
    assert!(parse_proof(&input).is_none());
    let input = INPUT.replace("0x160cc95dad7f0cb5", "zz");
    assert!(parse_proof(&input).is_none());
}

#[test]
fn coordinates_are_found_in_order() {
    let found = parse_affine(" x: 0x0A, y: 0xff, infinity: Choice(1) ");
    assert_eq!(
        found,
        vec![
            vec!["x".to_string(), "0x0A".to_string()],
            vec!["y".to_string(), "0xff".to_string()],
            vec!["infinity".to_string(), "Choice(1)".to_string()],
        ]
    );
    assert!(parse_affine("nothing here").is_empty());
}

#[test]
fn last_value_of_a_coordinate_wins() {
    let input = INPUT.replace("a: G1Affine { x: 0x0ed5be380302722a,", "a: G1Affine { x: 0x01, x: 0x02,");
    assert_eq!(parse_proof(&input).unwrap().a.x, "0x02");
}

#[test]
fn captures_leave_out_the_whole_match_and_give_an_absent_group_as_empty() {
    let found = find_captures("(a+)|(b+)", "aab a").unwrap();
    assert_eq!(
        found,
        vec![
            vec!["aa".to_string(), String::new()],
            vec![String::new(), "b".to_string()],
            vec!["a".to_string(), String::new()],
        ]
    );
    assert_eq!(find_captures("x", "xx").unwrap(), vec![Vec::<String>::new(), Vec::new()]);
    assert!(find_captures("x", "abc").unwrap().is_empty());
}

#[test]
fn invalid_pattern_finds_nothing() {
    assert!(find_captures("foo(bar", "foobar").is_none());
}
