use ababa_config::{AbabaNumber, AbabaParseError, AbabaParser, AbabaValue};

fn text(s: &str) -> Vec<char> {
    s.chars().collect()
}

fn num(s: &str) -> AbabaNumber {
    AbabaNumber::from_text(&text(s)).unwrap()
}

fn is_number(v: &AbabaValue, s: &str) -> bool {
    match v {
        AbabaValue::Number(n) => *n == num(s),
        _ => false,
    }
}

#[test]
fn parses_numbers_exactly() {
    let n = num("-0012.3400");
    assert!(n.negative);
    assert_eq!(n.int_digits, vec![1, 2]);
    assert_eq!(n.frac_digits, vec![3, 4]);
    let n = num("1_000");
    assert_eq!(n.int_digits, vec![1, 0, 0, 0]);
    assert!(n.frac_digits.is_empty());
    let z = num("-0.0");
    assert!(!z.negative);
    assert!(z.int_digits.is_empty() && z.frac_digits.is_empty());
    assert_eq!(num("3."), num("3"));
    assert_eq!(num("-.25").frac_digits, vec![2, 5]);
}

#[test]
fn rejects_malformed_numbers() {
    for bad in ["-", ".", "--1", "1..2", "1.2.3", "1-2", "_"] {
        assert!(AbabaNumber::from_text(&text(bad)).is_none(), "{}", bad);
    }
    assert!(matches!(
        AbabaValue::from_text("[1, --2]"),
        Err(AbabaParseError::MalformedNumber { position: 3 })
    ));
}

#[test]
fn parses_a_list() {
    match AbabaValue::from_text("[1.0, 2, 3,4,5]").unwrap() {
        AbabaValue::List(items) => {
            assert_eq!(items.len(), 5);
            assert!(is_number(&items[0], "1"));
            assert!(is_number(&items[4], "5"));
        }
        _ => panic!("not a list"),
    }
}

#[test]
fn parses_nested_values_with_trailing_commas() {
    let v = AbabaParser::new("Scene { camera: (0, 1.5, -2,), objects: [ { r: 1 }, ], }")
        .parse()
        .unwrap();
    match v {
        AbabaValue::Object { struct_type, fields } => {
            assert_eq!(struct_type, Some(text("Scene")));
            assert_eq!(fields.len(), 2);
            assert_eq!(fields[0].0, text("camera"));
            match &fields[0].1 {
                AbabaValue::Tuple(t) => {
                    assert_eq!(t.len(), 3);
                    assert!(is_number(&t[2], "-2"));
                }
                _ => panic!("not a tuple"),
            }
            match &fields[1].1 {
                AbabaValue::List(l) => assert_eq!(l.len(), 1),
                _ => panic!("not a list"),
            }
        }
        _ => panic!("not an object"),
    }
}

#[test]
fn empty_containers() {
    assert!(matches!(AbabaValue::from_text("[]"), Ok(AbabaValue::List(v)) if v.is_empty()));
    assert!(matches!(AbabaValue::from_text("( )"), Ok(AbabaValue::Tuple(v)) if v.is_empty()));
    assert!(matches!(
        AbabaValue::from_text("{}"),
        Ok(AbabaValue::Object { struct_type: None, fields }) if fields.is_empty()
    ));
}

#[test]
fn a_repeated_key_keeps_the_last_value_in_the_first_place() {
    match AbabaValue::from_text("{ a: 1, b: 2, a: 3 }").unwrap() {
        AbabaValue::Object { fields, .. } => {
            assert_eq!(fields.len(), 2);
            assert_eq!(fields[0].0, text("a"));
            assert!(is_number(&fields[0].1, "3"));
            assert_eq!(fields[1].0, text("b"));
        }
        _ => panic!("not an object"),
    }
}

#[test]
fn unterminated_and_empty_input() {
    assert!(matches!(
        AbabaValue::from_text("[1, 2"),
        Err(AbabaParseError::MissingEndBrace { brace: ']' })
    ));
    assert!(matches!(AbabaValue::from_text(""), Err(AbabaParseError::NoContent)));
    assert!(matches!(AbabaValue::from_text("   "), Err(AbabaParseError::NoContent)));
    assert!(matches!(
        AbabaValue::from_text("(1"),
        Err(AbabaParseError::MissingEndBrace { brace: ')' })
    ));
    assert!(matches!(
        AbabaValue::from_text("{ a: 1"),
        Err(AbabaParseError::MissingEndBrace { brace: '}' })
    ));
    assert!(matches!(AbabaValue::from_text("[1,"), Err(AbabaParseError::MissingEndBrace { brace: ']' })));
    assert!(matches!(AbabaValue::from_text("{ a: "), Err(AbabaParseError::NoContent)));
}

#[test]
fn structural_errors() {
    // an identifier that does not open an object
    assert!(matches!(
        AbabaValue::from_text("abc"),
        Err(AbabaParseError::UnexpectedToken { position: 0 })
    ));
    // a value without its key
    assert!(matches!(
        AbabaValue::from_text("{ : 1 }"),
        Err(AbabaParseError::UnexpectedToken { position: 1 })
    ));
    // a key without its colon
    assert!(matches!(
        AbabaValue::from_text("{ a 1 }"),
        Err(AbabaParseError::UnexpectedToken { position: 2 })
    ));
    // tokens after a complete value
    assert!(matches!(
        AbabaValue::from_text("[1] 2"),
        Err(AbabaParseError::UnexpectedToken { position: 3 })
    ));
    assert!(matches!(
        AbabaValue::from_text("[1 2]"),
        Err(AbabaParseError::UnexpectedToken { position: 2 })
    ));
    assert!(matches!(
        AbabaValue::from_text("[?]"),
        Err(AbabaParseError::UnexpectedToken { position: 1 })
    ));
}

#[test]
fn rendering_and_parsing_again_gives_the_same_value() {
    let source = "P { a: [1, -2.5, (3, 4)], b: { c: 0.001 }, d: () }";
    let v = AbabaValue::from_text(source).unwrap();
    let rendered: String = v.to_text().into_iter().collect();
    assert_eq!(rendered, "P{a:[1,-2.5,(3,4)],b:{c:0.001},d:()}");
    let again = AbabaValue::from_text(&rendered).unwrap();
    let rendered_again: String = again.to_text().into_iter().collect();
    assert_eq!(rendered, rendered_again);
}

#[test]
fn a_clone_is_an_equal_value() {
    let v = AbabaValue::from_text("T { a: [1, (2, -3.5)], b: {} }").unwrap();
    let c = v.clone();
    let a: String = v.to_text().into_iter().collect();
    let b: String = c.to_text().into_iter().collect();
    assert_eq!(a, b);
}
