use hash_psd8::instruction::{DecodeError, HashPsd8, Instruction, ParseError};
use hash_psd8::registers::{Halt, Register, Registers};
use hash_psd8::value::{Identifier, Value};

#[test]
fn test_parse() {
    let (instruction, _) = Instruction::parse("hash.psd8 r0 into r1;").unwrap();
    assert!(matches!(instruction, Instruction::HashPsd8(_)));
}

#[test]
fn test_composite() {
    let first = Value::Composite(
        Identifier::from_str("message").unwrap(),
        vec![
            Value::from_str("1field.public").unwrap(),
            Value::from_str("2field.private").unwrap(),
        ],
    );

    let mut registers = Registers::default();
    registers.define(&Register::from_str("r0").unwrap()).unwrap();
    registers.define(&Register::from_str("r1").unwrap()).unwrap();
    registers.assign(&Register::from_str("r0").unwrap(), first).unwrap();

    let text = format!("hash.psd8 {};", "r0 into r1");
    let (instruction, _) = HashPsd8::parse(&text).unwrap();
    instruction.evaluate(&mut registers).unwrap();

    let value = registers.load(&Register::from_str("r1").unwrap()).unwrap();
    let expected = Value::from_str(
        "2132636093982099992808836832692348220698310395516022520468979890154979376079field.private",
    )
    .unwrap();
    assert_eq!(&expected, value);
}

#[test]
fn test_opcode() {
    assert_eq!(HashPsd8::opcode(), "hash.psd8");
}

#[test]
fn test_parse_consumes_whole_text() {
    let (instruction, n) = HashPsd8::parse("hash.psd8 r3 into r12; rest").unwrap();
    assert_eq!(n, "hash.psd8 r3 into r12;".len());
    assert_eq!(instruction.operation.first.locator, 3);
    assert_eq!(instruction.operation.destination.locator, 12);
}

#[test]
fn test_parse_rejects_malformed() {
    assert!(matches!(HashPsd8::parse("hash.psd2 r0 into r1;"), Err(ParseError::Malformed)));
    assert!(matches!(HashPsd8::parse("hash.psd8 r0 into r1"), Err(ParseError::Malformed)));
    assert!(matches!(HashPsd8::parse("hash.psd8 r into r1;"), Err(ParseError::Malformed)));
    assert!(matches!(HashPsd8::parse("hash.psd8 r0 to r1;"), Err(ParseError::Malformed)));
    assert!(matches!(HashPsd8::parse(""), Err(ParseError::Malformed)));
}

#[test]
fn test_codec_round_trip() {
    let i = HashPsd8::new(Register::new(7), Register::new(300));
    let bytes = i.write_le();
    assert_eq!(bytes.len(), 16);
    let (j, n) = HashPsd8::read_le(&bytes).unwrap();
    assert_eq!(n, 16);
    assert_eq!(i, j);
}

#[test]
fn test_codec_bytes_round_trip() {
    let mut bytes = vec![0u8; 20];
    bytes[0] = 5;
    bytes[8] = 9;
    bytes[17] = 77;
    let (i, n) = HashPsd8::read_le(&bytes).unwrap();
    assert_eq!(n, 16);
    assert_eq!(i.operation.first.locator, 5);
    assert_eq!(i.operation.destination.locator, 9);
    assert_eq!(i.write_le(), bytes[0..16].to_vec());
}

#[test]
fn test_decode_truncated() {
    assert!(matches!(HashPsd8::read_le(&[0u8; 15]), Err(DecodeError::Truncated)));
}

#[test]
fn test_into_instruction() {
    let i = HashPsd8::new(Register::new(0), Register::new(1));
    assert!(matches!(i.into(), Instruction::HashPsd8(_)));
}

#[test]
fn test_register_from_str() {
    assert_eq!(Register::from_str("r0").unwrap().locator, 0);
    assert_eq!(Register::from_str("r18446744073709551615").unwrap().locator, u64::MAX);
    assert!(Register::from_str("r18446744073709551616").is_none());
    assert!(Register::from_str("r").is_none());
    assert!(Register::from_str("x0").is_none());
    assert!(Register::from_str("r0 ").is_none());
}

#[test]
fn test_undefined_operand_halts() {
    let i = HashPsd8::new(Register::new(0), Register::new(1));
    let mut registers = Registers::default();
    registers.define(&Register::new(1)).unwrap();
    assert!(matches!(i.evaluate(&mut registers), Err(Halt::UndefinedRegister(0))));
}

#[test]
fn test_unassigned_operand_halts() {
    let i = HashPsd8::new(Register::new(0), Register::new(1));
    let mut registers = Registers::default();
    registers.define(&Register::new(0)).unwrap();
    registers.define(&Register::new(1)).unwrap();
    assert!(matches!(i.evaluate(&mut registers), Err(Halt::UnassignedRegister(0))));
}

#[test]
fn test_single_assignment_halts() {
    let i = HashPsd8::new(Register::new(0), Register::new(1));
    let mut registers = Registers::default();
    registers.define(&Register::new(0)).unwrap();
    registers.define(&Register::new(1)).unwrap();
    registers.assign(&Register::new(0), Value::from_str("1field").unwrap()).unwrap();
    registers.assign(&Register::new(1), Value::from_str("3field").unwrap()).unwrap();
    assert!(matches!(i.evaluate(&mut registers), Err(Halt::AlreadyAssigned(1))));
}

#[test]
fn test_define_twice_halts() {
    let mut registers = Registers::default();
    registers.define(&Register::new(0)).unwrap();
    assert!(matches!(registers.define(&Register::new(0)), Err(Halt::AlreadyDefined(0))));
}
