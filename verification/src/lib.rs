//! A register-based virtual-machine instruction that hashes a typed value.
//!
//! The instruction reads one typed value from a source register, flattens it
//! into a sequence of field elements, hashes that sequence with a fixed-rate
//! Poseidon permutation, and writes the digest into a destination register.

pub mod field;
pub mod value;
pub mod poseidon;
pub mod registers;
pub mod instruction;

pub use field::FieldElement;
pub use instruction::{DecodeError, HashPsd8, Instruction, ParseError, UnaryOperation};
pub use poseidon::hash_value;
pub use registers::{Halt, Register, Registers};
pub use value::{Identifier, Literal, Value, Visibility};
