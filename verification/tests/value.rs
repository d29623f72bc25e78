use rlox::{Kind, Number, Obj, ObjValue, Value};

fn n(value: f64) -> Number {
    Number::from_bits(value.to_bits())
}

fn number(value: f64) -> Value {
    Value::Number(n(value))
}

fn samples() -> Vec<f64> {
    vec![
        0.0,
        -0.0,
        1.0,
        -1.0,
        2.0,
        -2.0,
        0.5,
        123.4,
        -123.4,
        f64::MIN_POSITIVE,
        -f64::MIN_POSITIVE,
        5e-324,
        -5e-324,
        f64::MAX,
        f64::MIN,
        f64::INFINITY,
        f64::NEG_INFINITY,
        f64::NAN,
        -f64::NAN,
        f64::from_bits(0x7ff0_0000_0000_0001),
        f64::from_bits(0xffff_ffff_ffff_ffff),
    ]
}

#[test]
fn nil_and_false_are_falsey() {
    assert!(!Value::Nil.is_truthy());
    assert!(Value::Nil.is_falsey());
    assert!(!Value::Boolean(false).is_truthy());
    assert!(Value::Boolean(false).is_falsey());
}

#[test]
fn every_other_value_is_truthy() {
    assert!(number(0.0).is_truthy());
    assert!(number(-0.0).is_truthy());
    assert!(number(f64::NAN).is_truthy());
    assert!(Value::string("").is_truthy());
    assert!(Value::Boolean(true).is_truthy());
    assert!(!number(0.0).is_falsey());
    assert!(!Value::string("").is_falsey());
    assert!(!Value::Boolean(true).is_falsey());
}

#[test]
fn equality_is_type_aware() {
    assert!(number(1.0) != Value::Boolean(true));
    assert!(number(1.0) == number(1.0));
    assert!(number(0.0) != Value::Boolean(false));
    assert!(number(0.0) != Value::Nil);
    assert!(Value::Nil != Value::Boolean(false));
    assert!(Value::string("1") != number(1.0));
    assert!(Value::string("") != Value::Nil);
}

#[test]
fn equality_within_a_type_compares_payloads() {
    assert!(Value::Nil == Value::Nil);
    assert!(Value::Boolean(true) == Value::Boolean(true));
    assert!(Value::Boolean(true) != Value::Boolean(false));
    assert!(number(1.0) != number(2.0));
    assert!(Value::string("ab") == Value::string("ab"));
    assert!(Value::string("ab") != Value::string("abc"));
}

#[test]
fn number_equality_is_numeric() {
    assert!(number(0.0) == number(-0.0));
    assert!(number(f64::NAN) != number(f64::NAN));
    for a in samples() {
        for b in samples() {
            assert_eq!(n(a) == n(b), a == b, "{:?} == {:?}", a, b);
            assert_eq!(number(a) == number(b), a == b, "{:?} == {:?}", a, b);
        }
    }
}

#[test]
fn number_order_is_numeric() {
    assert!(n(1.0).less_than(&n(2.0)));
    assert!(!n(2.0).less_than(&n(1.0)));
    assert!(n(-2.0).less_than(&n(-1.0)));
    assert!(!n(-0.0).less_than(&n(0.0)));
    assert!(n(2.0).greater_than(&n(1.0)));
    for a in samples() {
        for b in samples() {
            assert_eq!(n(a).less_than(&n(b)), a < b, "{:?} < {:?}", a, b);
            assert_eq!(n(a).greater_than(&n(b)), a > b, "{:?} > {:?}", a, b);
        }
    }
}

#[test]
fn negation_flips_the_sign() {
    assert_eq!(n(123.4).negate().to_bits(), (-123.4f64).to_bits());
    assert_eq!(n(0.0).negate().to_bits(), (-0.0f64).to_bits());
    for a in samples() {
        assert_eq!(n(a).negate().to_bits(), (-a).to_bits(), "-{:?}", a);
        assert_eq!(n(a).negate().negate().to_bits(), a.to_bits());
    }
}

#[test]
fn nan_is_recognised() {
    for a in samples() {
        assert_eq!(n(a).nan(), a.is_nan(), "{:?}", a);
    }
}

#[test]
fn bits_round_trip() {
    assert_eq!(Number::from_bits(0x405e_d99999_99999a).to_bits(), 0x405e_d99999_99999a);
    assert_eq!(n(123.4).to_bits(), 0x405e_d999_9999_999a);
}

#[test]
fn values_from_their_payloads() {
    assert_eq!(Value::from(true), Value::Boolean(true));
    assert_eq!(Value::from(n(2.5)), number(2.5));
    assert_eq!(Value::from(String::from("text")), Value::string("text"));
    match Value::string("text") {
        Value::Obj(Obj { value: ObjValue::String(text) }) => assert_eq!(text, "text"),
        other => panic!("not a string: {:?}", other),
    }
}

#[test]
fn clone_is_equal_to_the_original() {
    for value in [
        Value::Nil,
        Value::Boolean(true),
        number(-3.5),
        Value::string("copy"),
    ] {
        assert_eq!(value.clone(), value);
    }
}

#[test]
fn kinds_of_values() {
    assert_eq!(Value::Nil.kind(), Kind::Nil);
    assert_eq!(Value::Boolean(false).kind(), Kind::Boolean);
    assert_eq!(number(1.0).kind(), Kind::Number);
    assert_eq!(Value::string("").kind(), Kind::Text);
}
