use hash_psd8::field::FieldElement;
use hash_psd8::poseidon::hash_value;
use hash_psd8::registers::{Halt, Register, Registers};
use hash_psd8::value::{Identifier, Literal, Value, Visibility};
use hash_psd8::instruction::HashPsd8;

fn field_digest(s: &str) -> FieldElement {
    FieldElement::from_decimal(s.as_bytes()).unwrap()
}

#[test]
fn test_hash_field_literal() {
    let v = Value::from_str("1field").unwrap();
    let (digest, vis) = hash_value(&v).unwrap();
    assert_eq!(vis, Visibility::Constant);
    let expected = field_digest(
        "3999071741215241790607111275574824668617854796802626587041088136954841194555",
    );
    assert_eq!(expected, digest);
}

#[test]
fn test_hash_integer_kinds_agree() {
    let (base, _) = hash_value(&Value::from_str("1field").unwrap()).unwrap();
    let ones = vec![
        Literal::I8(1),
        Literal::I16(1),
        Literal::I32(1),
        Literal::I64(1),
        Literal::I128(1),
        Literal::U8(1),
        Literal::U16(1),
        Literal::U32(1),
        Literal::U64(1),
        Literal::U128(1),
        Literal::Scalar(FieldElement::from_u64(1)),
    ];
    for l in ones {
        let (digest, _) = hash_value(&Value::Literal(l, Visibility::Constant)).unwrap();
        assert_eq!(base, digest);
    }
}

#[test]
fn test_hash_string_literal() {
    let v = Value::Literal(
        Literal::Str("aaaaaaaa".as_bytes().to_vec()),
        Visibility::Constant,
    );
    let (digest, vis) = hash_value(&v).unwrap();
    assert_eq!(vis, Visibility::Constant);
    let expected = field_digest(
        "4020837770720319542691472472080405581209506316726251354702740114046129734437",
    );
    assert_eq!(expected, digest);
    // a different string hashes differently
    let other = Value::Literal(Literal::Str("aaaaaaab".as_bytes().to_vec()), Visibility::Constant);
    let (digest3, _) = hash_value(&other).unwrap();
    assert_ne!(digest, digest3);
}

#[test]
fn test_hash_deterministic() {
    let a = Value::Composite(
        Identifier::from_str("pair").unwrap(),
        vec![
            Value::from_str("5field.public").unwrap(),
            Value::Literal(Literal::U32(42), Visibility::Constant),
        ],
    );
    let b = Value::Composite(
        Identifier::from_str("pair").unwrap(),
        vec![
            Value::from_str("5field.public").unwrap(),
            Value::Literal(Literal::U32(42), Visibility::Constant),
        ],
    );
    let (d1, v1) = hash_value(&a).unwrap();
    let (d2, v2) = hash_value(&b).unwrap();
    assert_eq!(d1, d2);
    assert_eq!(v1, v2);
}

#[test]
fn test_digest_differs_from_input() {
    let v = Value::from_str("7field").unwrap();
    let (digest, _) = hash_value(&v).unwrap();
    assert_ne!(digest, FieldElement::from_u64(7));
}

#[test]
fn test_visibility_join_private_taints() {
    let v = Value::Composite(
        Identifier::from_str("message").unwrap(),
        vec![
            Value::from_str("1field.public").unwrap(),
            Value::from_str("2field.private").unwrap(),
            Value::from_str("3field").unwrap(),
        ],
    );
    let (_, vis) = hash_value(&v).unwrap();
    assert_eq!(vis, Visibility::Private);
}

#[test]
fn test_visibility_join_public_without_private() {
    let v = Value::Composite(
        Identifier::from_str("message").unwrap(),
        vec![
            Value::from_str("1field").unwrap(),
            Value::from_str("2field.public").unwrap(),
        ],
    );
    let (_, vis) = hash_value(&v).unwrap();
    assert_eq!(vis, Visibility::Public);
}

#[test]
fn test_visibility_join_all_constant() {
    let v = Value::Composite(
        Identifier::from_str("message").unwrap(),
        vec![Value::from_str("1field").unwrap(), Value::from_str("2field").unwrap()],
    );
    let (_, vis) = hash_value(&v).unwrap();
    assert_eq!(vis, Visibility::Constant);
}

#[test]
fn bool_halts() {
    assert_halts_invalid(Literal::Boolean(true));
}

#[test]
fn address_halts() {
    assert_halts_invalid(Literal::Address(
        "aleo1d5hg2z3ma00382pngntdp68e74zv54jdxy249qhaujhks9c72yrs33ddah"
            .as_bytes()
            .to_vec(),
    ));
}

#[test]
fn group_halts() {
    assert_halts_invalid(Literal::Group(FieldElement::from_u64(2)));
}

fn assert_halts_invalid(l: Literal) {
    let i = HashPsd8::new(Register::new(0), Register::new(1));
    let mut registers = Registers::default();
    registers.define(&Register::new(0)).unwrap();
    registers.define(&Register::new(1)).unwrap();
    registers.assign(&Register::new(0), Value::Literal(l, Visibility::Constant)).unwrap();
    let halt = i.evaluate(&mut registers).unwrap_err();
    assert!(matches!(halt, Halt::InvalidInstruction));
    assert_eq!(halt.message(), "Invalid 'hash.psd8' instruction");
}

#[test]
fn test_nested_composite_flattens_in_order() {
    let inner = Value::Composite(
        Identifier::from_str("inner").unwrap(),
        vec![Value::from_str("2field.private").unwrap()],
    );
    let v = Value::Composite(
        Identifier::from_str("outer").unwrap(),
        vec![Value::from_str("1field").unwrap(), inner],
    );
    let (digest, vis) = hash_value(&v).unwrap();
    assert_eq!(vis, Visibility::Private);
    // flattening concatenates the leaves in declared order, so the nested
    // shape hashes like the flat pair of its leaves
    let flat = Value::Composite(
        Identifier::from_str("pair").unwrap(),
        vec![
            Value::from_str("1field").unwrap(),
            Value::from_str("2field.private").unwrap(),
        ],
    );
    let (d2, _) = hash_value(&flat).unwrap();
    assert_eq!(digest, d2);
}

#[test]
fn test_empty_composite_hashes_constant() {
    let v = Value::Composite(Identifier::from_str("empty").unwrap(), vec![]);
    let (_, vis) = hash_value(&v).unwrap();
    assert_eq!(vis, Visibility::Constant);
}

#[test]
fn test_composite_with_boolean_leaf_rejected() {
    let v = Value::Composite(
        Identifier::from_str("mixed").unwrap(),
        vec![
            Value::from_str("1field").unwrap(),
            Value::Literal(Literal::Boolean(true), Visibility::Constant),
        ],
    );
    assert!(hash_value(&v).is_none());
}
