use ababa_config::record::{field, record_fields, take_field};
use ababa_config::{AbabaNumber, AbabaParseError, AbabaValue, FromAbabaValue, IntType, Shape};

fn text(s: &str) -> Vec<char> {
    s.chars().collect()
}

fn num(s: &str) -> AbabaNumber {
    AbabaNumber::from_text(&text(s)).unwrap()
}

fn value(s: &str) -> AbabaValue {
    AbabaValue::from_text(s).unwrap()
}

fn numbers(xs: &[&str]) -> Vec<AbabaValue> {
    xs.iter().map(|x| AbabaValue::Number(num(x))).collect()
}

#[derive(Debug)]
struct Point {
    x: AbabaNumber,
    y: AbabaNumber,
}

impl Point {
    fn from_value(v: AbabaValue) -> Result<Point, AbabaParseError> {
        let mut fields = record_fields(v, "Point")?;
        Ok(Point {
            x: field(&mut fields, "x")?,
            y: field(&mut fields, "y")?,
        })
    }
}

#[test]
fn integer_bounds() {
    assert!(matches!(
        u8::from_value(AbabaValue::Number(num("256.0"))),
        Err(AbabaParseError::NumberOutOfBounds { target_type: IntType::U8, .. })
    ));
    assert_eq!(u8::from_value(AbabaValue::Number(num("255.0"))).unwrap(), 255);
    assert!(u8::from_value(AbabaValue::Number(num("255.5"))).is_err());
    assert!(u8::from_value(AbabaValue::Number(num("-0.5"))).is_err());
    assert_eq!(i8::from_value(AbabaValue::Number(num("-128"))).unwrap(), -128);
    assert!(i8::from_value(AbabaValue::Number(num("-129"))).is_err());
    assert_eq!(i8::from_value(AbabaValue::Number(num("-0.5"))).unwrap(), 0);
    assert_eq!(i32::from_value(AbabaValue::Number(num("-7.9"))).unwrap(), -7);
    assert_eq!(u64::from_value(AbabaValue::Number(num("18446744073709551615"))).unwrap(), u64::MAX);
    assert!(u64::from_value(AbabaValue::Number(num("18446744073709551616"))).is_err());
    assert_eq!(i64::from_value(AbabaValue::Number(num("-9223372036854775808"))).unwrap(), i64::MIN);
    assert!(i64::from_value(AbabaValue::Number(num("9223372036854775808"))).is_err());
    assert_eq!(usize::from_value(AbabaValue::Number(num("1_000"))).unwrap(), 1000);
    assert_eq!(u16::from_value(AbabaValue::Number(num("65535"))).unwrap(), 65535);
    assert_eq!(i16::from_value(AbabaValue::Number(num("-32768"))).unwrap(), -32768);
    assert_eq!(u32::from_value(AbabaValue::Number(num("4294967295"))).unwrap(), u32::MAX);
    assert_eq!(isize::from_value(AbabaValue::Number(num("-5"))).unwrap(), -5);
}

#[test]
fn shape_mismatch() {
    assert!(matches!(
        u8::from_value(value("[1]")),
        Err(AbabaParseError::ValueTypeDidNotMatch { expected: Shape::Number, got: AbabaValue::List(_) })
    ));
    assert!(matches!(
        AbabaNumber::from_value(value("(1)")),
        Err(AbabaParseError::ValueTypeDidNotMatch { expected: Shape::Number, .. })
    ));
    assert!(matches!(
        Vec::<u8>::from_value(value("(1)")),
        Err(AbabaParseError::ValueTypeDidNotMatch { expected: Shape::List, .. })
    ));
    assert!(matches!(
        <(u8, u8)>::from_value(value("[1, 2]")),
        Err(AbabaParseError::ValueTypeDidNotMatch { expected: Shape::Tuple, .. })
    ));
}

#[test]
fn sequences() {
    assert_eq!(Vec::<u8>::from_value(value("[1, 2, 3]")).unwrap(), vec![1, 2, 3]);
    assert_eq!(Vec::<u8>::from_value(value("[]")).unwrap(), Vec::<u8>::new());
    // the first failing element decides the error
    match Vec::<u8>::from_value(value("[1, 300, -1]")) {
        Err(AbabaParseError::NumberOutOfBounds { x, target_type: IntType::U8 }) => {
            assert_eq!(x, num("300"))
        }
        other => panic!("{:?}", other),
    }
    assert_eq!(
        Vec::<Vec<i8>>::from_value(value("[[1], [], [-2, 3]]")).unwrap(),
        vec![vec![1], vec![], vec![-2, 3]]
    );
}

#[test]
fn tuple_arity() {
    assert!(matches!(
        <(u8, u8, u8)>::from_value(AbabaValue::Tuple(numbers(&["1", "2"]))),
        Err(AbabaParseError::NotEnoughElements { expected: 3, got: 2 })
    ));
    assert_eq!(
        <(u8, u8, u8)>::from_value(AbabaValue::Tuple(numbers(&["1", "2", "3", "4"]))).unwrap(),
        (1, 2, 3)
    );
    assert!(matches!(
        <(u8, u8)>::from_value(AbabaValue::Tuple(numbers(&["1"]))),
        Err(AbabaParseError::NotEnoughElements { expected: 2, got: 1 })
    ));
    assert_eq!(<(i32, i32)>::from_value(value("(-1, 2, 3)")).unwrap(), (-1, 2));
    assert!(matches!(
        <(u8, u8)>::from_value(value("(1, 256)")),
        Err(AbabaParseError::NumberOutOfBounds { .. })
    ));
}

#[test]
fn derived_record() {
    let p = Point::from_value(value("Point { x: 1.0, y: 2.0 }")).unwrap();
    assert_eq!(p.x, num("1"));
    assert_eq!(p.y, num("2"));
    let p = Point::from_value(value("{ y: 2.0, x: 1.0, z: 9 }")).unwrap();
    assert_eq!(p.x, num("1"));
    assert_eq!(p.y, num("2"));
    assert!(matches!(
        Point::from_value(value("{ x: 1.0 }")),
        Err(AbabaParseError::StructFieldNotPresent { field: "y" })
    ));
    match Point::from_value(value("Other { x: 1.0, y: 2.0 }")) {
        Err(AbabaParseError::StructTypeDidNotMatch { expected, got }) => {
            assert_eq!(expected, "Point");
            assert_eq!(got, Some(text("Other")));
        }
        other => panic!("{:?}", other),
    }
    assert!(matches!(
        Point::from_value(value("[1, 2]")),
        Err(AbabaParseError::ValueTypeDidNotMatch { expected: Shape::Object, .. })
    ));
}

#[test]
fn taking_a_field_removes_it() {
    let mut fields = record_fields(value("{ a: 1, b: 2 }"), "Any").unwrap();
    let a = take_field(&mut fields, "a").unwrap();
    assert!(matches!(a, AbabaValue::Number(n) if n == num("1")));
    assert_eq!(fields.len(), 1);
    assert!(matches!(
        take_field(&mut fields, "a"),
        Err(AbabaParseError::StructFieldNotPresent { field: "a" })
    ));
}
