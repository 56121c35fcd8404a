use hash_psd8::field::FieldElement;
use hash_psd8::value::{Identifier, Literal, Value, Visibility};

#[test]
fn test_from_decimal_small() {
    let f = FieldElement::from_decimal("1".as_bytes()).unwrap();
    assert_eq!(f, FieldElement::from_u64(1));
    let g = FieldElement::from_decimal("340282366920938463463374607431768211456".as_bytes())
        .unwrap();
    // 2^128 has zero low limbs and a one in the third limb
    assert_eq!(g, FieldElement { l0: 0, l1: 0, l2: 1, l3: 0 });
}

#[test]
fn test_from_decimal_rejects_modulus() {
    // the modulus itself is not a canonical residue
    assert!(FieldElement::from_decimal(
        "8444461749428370424248824938781546531375899335154063827935233455917409239041".as_bytes()
    )
    .is_none());
    // one below it is
    let f = FieldElement::from_decimal(
        "8444461749428370424248824938781546531375899335154063827935233455917409239040".as_bytes(),
    )
    .unwrap();
    assert_eq!(
        f,
        FieldElement {
            l0: 0x0a11800000000000,
            l1: 0x59aa76fed0000001,
            l2: 0x60b44d1e5c37b001,
            l3: 0x12ab655e9a2ca556,
        }
    );
}

#[test]
fn test_from_decimal_rejects_junk() {
    assert!(FieldElement::from_decimal("".as_bytes()).is_none());
    assert!(FieldElement::from_decimal("12a".as_bytes()).is_none());
    assert!(FieldElement::from_decimal("-1".as_bytes()).is_none());
}

#[test]
fn test_value_from_str_modes() {
    match Value::from_str("1field").unwrap() {
        Value::Literal(Literal::Field(f), m) => {
            assert_eq!(f, FieldElement::from_u64(1));
            assert_eq!(m, Visibility::Constant);
        }
        _ => panic!("expected a field literal"),
    }
    match Value::from_str("2field.private").unwrap() {
        Value::Literal(Literal::Field(f), m) => {
            assert_eq!(f, FieldElement::from_u64(2));
            assert_eq!(m, Visibility::Private);
        }
        _ => panic!("expected a field literal"),
    }
    match Value::from_str("3field.public").unwrap() {
        Value::Literal(Literal::Field(f), m) => {
            assert_eq!(f, FieldElement::from_u64(3));
            assert_eq!(m, Visibility::Public);
        }
        _ => panic!("expected a field literal"),
    }
    match Value::from_str("4field.constant").unwrap() {
        Value::Literal(Literal::Field(_), m) => assert_eq!(m, Visibility::Constant),
        _ => panic!("expected a field literal"),
    }
}

#[test]
fn test_value_from_str_rejects_junk() {
    assert!(Value::from_str("field").is_none());
    assert!(Value::from_str("1group").is_none());
    assert!(Value::from_str("1field.secret").is_none());
    assert!(Value::from_str("1field .public").is_none());
    assert!(Value::from_str(
        "8444461749428370424248824938781546531375899335154063827935233455917409239041field"
    )
    .is_none());
}

#[test]
fn test_identifier_from_str() {
    assert_eq!(Identifier::from_str("message").unwrap().name, b"message".to_vec());
    assert!(Identifier::from_str("").is_none());
    assert!(Identifier::from_str("9lives").is_none());
    assert!(Identifier::from_str("with space").is_none());
}
