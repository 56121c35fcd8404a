//! The hash instruction: opcode identity, byte-level codec, textual parse,
//! and evaluation against a register file.

use vstd::prelude::*;
use vstd::arithmetic::div_mod::{
    lemma_basic_div, lemma_div_denominator, lemma_fundamental_div_mod,
    lemma_fundamental_div_mod_converse,
};

use crate::field::{all_digits, decimal_value, digits_end, is_digit, lemma_digits_end};
use vstd::string::StringSliceAdditionalSpecFns;
use crate::poseidon::{hash_value, poseidon8_digest};
use crate::registers::{Halt, Register, Registers};
use crate::value::{Literal, Value, flatten_value, visibility_of};

verus! {

broadcast use vstd::std_specs::vec::group_vec_axioms;

/// A recoverable error of the textual parser.
#[derive(Clone, Copy, PartialEq, Eq, Structural, Debug)]
pub enum ParseError {
    Malformed,
}

/// A recoverable error of the byte decoder.
#[derive(Clone, Copy, PartialEq, Eq, Structural, Debug)]
pub enum DecodeError {
    Truncated,
}

/// The operand layout shared by every unary instruction: one source register
/// and one destination register.
#[derive(Clone, Copy, PartialEq, Eq, Structural, Debug)]
pub struct UnaryOperation {
    pub first: Register,
    pub destination: Register,
}

/// The hash instruction of rate 8. The hash functor itself is stateless, so
/// the instruction is just its operand layout; the functor is recreated at
/// every evaluation.
#[derive(Clone, Copy, PartialEq, Eq, Structural, Debug)]
pub struct HashPsd8 {
    pub operation: UnaryOperation,
}

/// The instruction set in scope: a closed set of variants, selected by opcode
/// string or dispatch tag.
#[derive(Clone, Copy, PartialEq, Eq, Structural, Debug)]
pub enum Instruction {
    HashPsd8(HashPsd8),
}

/// The eight little-endian bytes of a 64-bit register locator.
pub open spec fn u64_le_bytes(v: u64) -> Seq<u8> {
    seq![
        (v % 256) as u8,
        (v / 0x100 % 256) as u8,
        (v / 0x10000 % 256) as u8,
        (v / 0x1000000 % 256) as u8,
        (v / 0x100000000 % 256) as u8,
        (v / 0x10000000000 % 256) as u8,
        (v / 0x1000000000000 % 256) as u8,
        (v / 0x100000000000000 % 256) as u8,
    ]
}

/// The number read from eight little-endian bytes.
pub open spec fn u64_from_le_bytes(s: Seq<u8>) -> nat {
    (s[0] + s[1] * 0x100 + s[2] * 0x10000 + s[3] * 0x1000000 + s[4] * 0x100000000 + s[5]
        * 0x10000000000 + s[6] * 0x1000000000000 + s[7] * 0x100000000000000) as nat
}

/// The byte encoding of the instruction: source register locator, then
/// destination register locator, both little-endian.
pub open spec fn spec_write_le(i: HashPsd8) -> Seq<u8> {
    u64_le_bytes(i.operation.first.locator) + u64_le_bytes(i.operation.destination.locator)
}

/// What the byte decoder yields on a byte sequence: the instruction read from
/// the first sixteen bytes, or nothing if the sequence is shorter.
pub open spec fn spec_read_le(s: Seq<u8>) -> Option<HashPsd8> {
    if s.len() >= 16 {
        Some(
            HashPsd8 {
                operation: UnaryOperation {
                    first: Register { locator: u64_from_le_bytes(s.subrange(0, 8)) as u64 },
                    destination: Register {
                        locator: u64_from_le_bytes(s.subrange(8, 16)) as u64,
                    },
                },
            },
        )
    } else {
        None
    }
}

/// Reading back the little-endian bytes of a locator yields the locator.
proof fn lemma_u64_le_value(v: u64)
    ensures
        u64_from_le_bytes(u64_le_bytes(v)) == v,
{
    lemma_fundamental_div_mod(v as int, 0x100);
    lemma_fundamental_div_mod(v as int / 0x100, 0x100);
    lemma_fundamental_div_mod(v as int / 0x10000, 0x100);
    lemma_fundamental_div_mod(v as int / 0x1000000, 0x100);
    lemma_fundamental_div_mod(v as int / 0x100000000, 0x100);
    lemma_fundamental_div_mod(v as int / 0x10000000000, 0x100);
    lemma_fundamental_div_mod(v as int / 0x1000000000000, 0x100);
    lemma_fundamental_div_mod(v as int / 0x100000000000000, 0x100);
    lemma_div_denominator(v as int, 0x100, 0x100);
    lemma_div_denominator(v as int, 0x10000, 0x100);
    lemma_div_denominator(v as int, 0x1000000, 0x100);
    lemma_div_denominator(v as int, 0x100000000, 0x100);
    lemma_div_denominator(v as int, 0x10000000000, 0x100);
    lemma_div_denominator(v as int, 0x1000000000000, 0x100);
    lemma_div_denominator(v as int, 0x100000000000000, 0x100);
    lemma_basic_div(v as int, 0x10000000000000000);
}

/// One byte of a base-256 numeral: if `x == c * (b + 256 * k) + lo` with
/// `lo < c` and `b < 256`, then byte `x / c % 256` is `b`.
proof fn lemma_byte_extract(x: int, c: int, b: int, k: int, lo: int)
    requires
        c > 0,
        0 <= lo < c,
        0 <= b < 256,
        0 <= k,
        x == c * (b + 256 * k) + lo,
    ensures
        x / c % 256 == b,
{
    assert(c * (b + 256 * k) == (b + 256 * k) * c) by (nonlinear_arith);
    lemma_fundamental_div_mod_converse(x, c, b + 256 * k, lo);
    lemma_fundamental_div_mod_converse(b + 256 * k, 256, k, b);
}

/// Encoding the number read from eight bytes yields the same bytes.
proof fn lemma_u64_from_le_inverse(s: Seq<u8>)
    requires
        s.len() == 8,
    ensures
        u64_le_bytes(u64_from_le_bytes(s) as u64) == s,
{
    let x = u64_from_le_bytes(s) as int;
    lemma_byte_extract(
        x,
        1,
        s[0] as int,
        (s[1] + s[2] * 0x100 + s[3] * 0x10000 + s[4] * 0x1000000 + s[5] * 0x100000000 + s[6]
            * 0x10000000000 + s[7] * 0x1000000000000) as int,
        0,
    );
    lemma_byte_extract(
        x,
        0x100,
        s[1] as int,
        (s[2] + s[3] * 0x100 + s[4] * 0x10000 + s[5] * 0x1000000 + s[6] * 0x100000000 + s[7]
            * 0x10000000000) as int,
        s[0] as int,
    );
    lemma_byte_extract(
        x,
        0x10000,
        s[2] as int,
        (s[3] + s[4] * 0x100 + s[5] * 0x10000 + s[6] * 0x1000000 + s[7] * 0x100000000) as int,
        (s[0] + s[1] * 0x100) as int,
    );
    lemma_byte_extract(
        x,
        0x1000000,
        s[3] as int,
        (s[4] + s[5] * 0x100 + s[6] * 0x10000 + s[7] * 0x1000000) as int,
        (s[0] + s[1] * 0x100 + s[2] * 0x10000) as int,
    );
    lemma_byte_extract(
        x,
        0x100000000,
        s[4] as int,
        (s[5] + s[6] * 0x100 + s[7] * 0x10000) as int,
        (s[0] + s[1] * 0x100 + s[2] * 0x10000 + s[3] * 0x1000000) as int,
    );
    lemma_byte_extract(
        x,
        0x10000000000,
        s[5] as int,
        (s[6] + s[7] * 0x100) as int,
        (s[0] + s[1] * 0x100 + s[2] * 0x10000 + s[3] * 0x1000000 + s[4] * 0x100000000) as int,
    );
    lemma_byte_extract(
        x,
        0x1000000000000,
        s[6] as int,
        s[7] as int,
        (s[0] + s[1] * 0x100 + s[2] * 0x10000 + s[3] * 0x1000000 + s[4] * 0x100000000 + s[5]
            * 0x10000000000) as int,
    );
    lemma_byte_extract(
        x,
        0x100000000000000,
        s[7] as int,
        0,
        (s[0] + s[1] * 0x100 + s[2] * 0x10000 + s[3] * 0x1000000 + s[4] * 0x100000000 + s[5]
            * 0x10000000000 + s[6] * 0x1000000000000) as int,
    );
    assert(u64_le_bytes(u64_from_le_bytes(s) as u64) =~= s);
}

/// Round-trip law: decoding an encoded instruction reproduces it.
pub proof fn lemma_decode_encode(i: HashPsd8)
    ensures
        spec_read_le(spec_write_le(i)) == Some(i),
{
    lemma_u64_le_value(i.operation.first.locator);
    lemma_u64_le_value(i.operation.destination.locator);
    assert(spec_write_le(i).subrange(0, 8) =~= u64_le_bytes(i.operation.first.locator));
    assert(spec_write_le(i).subrange(8, 16) =~= u64_le_bytes(i.operation.destination.locator));
}

/// Round-trip law: encoding a decoded instruction reproduces the consumed
/// bytes, for any well-formed input.
pub proof fn lemma_encode_decode(s: Seq<u8>)
    requires
        s.len() >= 16,
    ensures
        spec_write_le(spec_read_le(s)->0) == s.subrange(0, 16),
{
    lemma_u64_from_le_inverse(s.subrange(0, 8));
    lemma_u64_from_le_inverse(s.subrange(8, 16));
    assert(spec_write_le(spec_read_le(s)->0) =~= s.subrange(0, 16));
}

/// Appends the eight little-endian bytes of a locator.
fn push_u64_le(out: &mut Vec<u8>, v: u64) -> (r: ())
    ensures
        final(out)@ == old(out)@ + u64_le_bytes(v),
{
    out.push((v % 256) as u8);
    out.push((v / 0x100 % 256) as u8);
    out.push((v / 0x10000 % 256) as u8);
    out.push((v / 0x1000000 % 256) as u8);
    out.push((v / 0x100000000 % 256) as u8);
    out.push((v / 0x10000000000 % 256) as u8);
    out.push((v / 0x1000000000000 % 256) as u8);
    out.push((v / 0x100000000000000 % 256) as u8);
    proof {
        assert(final(out)@ =~= old(out)@ + u64_le_bytes(v));
    }
}

/// Reads a locator from eight little-endian bytes at the given offset.
fn read_u64_le(b: &[u8], off: usize) -> (r: u64)
    requires
        off <= 8,
        b@.len() >= off + 8,
    ensures
        r == u64_from_le_bytes(b@.subrange(off as int, off + 8)),
{
    let r = (b[off] as u64) + (b[off + 1] as u64) * 0x100 + (b[off + 2] as u64) * 0x10000 + (b[off
        + 3] as u64) * 0x1000000 + (b[off + 4] as u64) * 0x100000000 + (b[off + 5] as u64)
        * 0x10000000000 + (b[off + 6] as u64) * 0x1000000000000 + (b[off + 7] as u64)
        * 0x100000000000000;
    proof {
        let s = b@.subrange(off as int, off + 8);
        assert(s[0] == b@[off as int] && s[1] == b@[off + 1] && s[2] == b@[off + 2] && s[3] == b@[
            off + 3] && s[4] == b@[off + 4] && s[5] == b@[off + 5] && s[6] == b@[off + 6] && s[7]
            == b@[off + 7]);
    }
    r
}

/// The bytes of the opcode string `hash.psd8`.
pub open spec fn opcode_bytes() -> Seq<u8> {
    seq![104u8, 97u8, 115u8, 104u8, 46u8, 112u8, 115u8, 100u8, 56u8]
}

/// The bytes of the fixed token ` into `.
pub open spec fn into_bytes() -> Seq<u8> {
    seq![32u8, 105u8, 110u8, 116u8, 111u8, 32u8]
}

/// A register token at position `i`: the letter `r` followed by a nonempty
/// digit run denoting a 64-bit locator. Yields the locator and the position
/// after the token.
pub open spec fn spec_register_at(s: Seq<u8>, i: int) -> Option<(u64, int)> {
    if 0 <= i < s.len() && s[i] == 114 {
        let e = digits_end(s, i + 1);
        if e > i + 1 && decimal_value(s.subrange(i + 1, e)) <= u64::MAX {
            Some((decimal_value(s.subrange(i + 1, e)) as u64, e))
        } else {
            None
        }
    } else {
        None
    }
}

/// The grammar of the instruction's text: the opcode, a space, the source
/// register, the fixed token ` into `, the destination register, and a
/// terminating semicolon. Yields the instruction and the number of bytes
/// consumed.
pub open spec fn spec_parse(s: Seq<u8>) -> Option<(HashPsd8, int)> {
    if s.len() >= 10 && s.subrange(0, 9) == opcode_bytes() && s[9] == 32 {
        match spec_register_at(s, 10) {
            Some((src, e1)) => if e1 + 6 <= s.len() && s.subrange(e1, e1 + 6) == into_bytes() {
                match spec_register_at(s, e1 + 6) {
                    Some((dst, e2)) => if e2 < s.len() && s[e2] == 59 {
                        Some(
                            (
                                HashPsd8 {
                                    operation: UnaryOperation {
                                        first: Register { locator: src },
                                        destination: Register { locator: dst },
                                    },
                                },
                                e2 + 1,
                            ),
                        )
                    } else {
                        None
                    },
                    None => None,
                }
            } else {
                None
            },
            None => None,
        }
    } else {
        None
    }
}

/// Whether the text starts with the opcode and its trailing space.
fn match_header(b: &[u8]) -> (r: bool)
    requires
        b@.len() >= 10,
    ensures
        r <==> (b@.subrange(0, 9) == opcode_bytes() && b@[9] == 32),
{
    let ok = b[0] == 104 && b[1] == 97 && b[2] == 115 && b[3] == 104 && b[4] == 46 && b[5] == 112
        && b[6] == 115 && b[7] == 100 && b[8] == 56 && b[9] == 32;
    proof {
        assert(forall|j: int| 0 <= j < 9 ==> #[trigger] b@.subrange(0, 9)[j] == b@[j]);
        if ok {
            assert(b@.subrange(0, 9) =~= opcode_bytes());
        }
    }
    ok
}

/// Whether the fixed token ` into ` stands at position `at`.
fn match_into(b: &[u8], at: usize) -> (r: bool)
    requires
        at + 6 <= b@.len(),
    ensures
        r <==> b@.subrange(at as int, at + 6) == into_bytes(),
{
    let ok = b[at] == 32 && b[at + 1] == 105 && b[at + 2] == 110 && b[at + 3] == 116 && b[at + 4]
        == 111 && b[at + 5] == 32;
    proof {
        assert(forall|j: int|
            0 <= j < 6 ==> #[trigger] b@.subrange(at as int, at + 6)[j] == b@[at + j]);
        if ok {
            assert(b@.subrange(at as int, at + 6) =~= into_bytes());
        }
    }
    ok
}

/// Parses a register token at position `i`.
fn parse_register_at(b: &[u8], i: usize) -> (r: Result<(u64, usize), ParseError>)
    ensures
        r is Ok <==> spec_register_at(b@, i as int) is Some,
        r is Ok ==> Some(((r->Ok_0).0, (r->Ok_0).1 as int)) == spec_register_at(b@, i as int),
        r is Ok ==> i < (r->Ok_0).1 <= b@.len(),
{
    if i >= b.len() || b[i] != 114 {
        return Err(ParseError::Malformed);
    }
    let mut e: usize = i + 1;
    while e < b.len() && b[e] >= 48 && b[e] <= 57
        invariant
            i + 1 <= e <= b@.len(),
            i < b@.len(),
            digits_end(b@, i + 1) == digits_end(b@, e as int),
        decreases b@.len() - e,
    {
        e = e + 1;
    }
    proof {
        assert(digits_end(b@, e as int) == e);
        lemma_digits_end(b@, i + 1);
        assert forall|k: int| 0 <= k < e - (i + 1) implies is_digit(
            #[trigger] b@.subrange(i + 1, e as int)[k],
        ) by {
            assert(b@.subrange(i + 1, e as int)[k] == b@[i + 1 + k]);
        }
    }
    if e == i + 1 {
        return Err(ParseError::Malformed);
    }
    match crate::field::parse_u64_digits(b, i + 1, e) {
        Some(v) => Ok((v, e)),
        None => Err(ParseError::Malformed),
    }
}

impl Register {
    /// Parses a register reference such as `r0`; the whole string must be
    /// the token.
    pub fn from_str(s: &str) -> (r: Option<Register>)
        ensures
            r is Some <==> (match spec_register_at(s.spec_bytes(), 0) {
                Some((v, e)) => e == s.spec_bytes().len(),
                None => false,
            }),
            r is Some ==> Some((r->0.locator, s.spec_bytes().len() as int)) == spec_register_at(
                s.spec_bytes(),
                0,
            ),
    {
        let b = s.as_bytes();
        match parse_register_at(b, 0) {
            Ok((v, e)) => {
                if e == b.len() {
                    Some(Register { locator: v })
                } else {
                    None
                }
            },
            Err(_) => None,
        }
    }
}

impl HashPsd8 {
    /// The opcode of the instruction.
    pub fn opcode() -> (r: &'static str)
        ensures
            r@ == "hash.psd8"@,
    {
        "hash.psd8"
    }

    /// Builds the instruction from its two register references.
    pub fn new(first: Register, destination: Register) -> (r: Self)
        ensures
            r.operation.first == first,
            r.operation.destination == destination,
    {
        HashPsd8 { operation: UnaryOperation { first, destination } }
    }

    /// Encodes the instruction: the shared unary-operation byte layout.
    pub fn write_le(&self) -> (r: Vec<u8>)
        ensures
            r@ == spec_write_le(*self),
    {
        let mut out: Vec<u8> = Vec::new();
        push_u64_le(&mut out, self.operation.first.locator);
        push_u64_le(&mut out, self.operation.destination.locator);
        proof {
            assert(out@ =~= spec_write_le(*self));
        }
        out
    }

    /// Decodes an instruction from the front of a byte stream, returning it
    /// with the number of bytes consumed; fails exactly when the stream is
    /// truncated.
    pub fn read_le(bytes: &[u8]) -> (r: Result<(HashPsd8, usize), DecodeError>)
        ensures
            r is Ok <==> bytes@.len() >= 16,
            r is Err ==> r == Result::<(HashPsd8, usize), DecodeError>::Err(
                DecodeError::Truncated,
            ),
            r is Ok ==> (r->Ok_0).0 == spec_read_le(bytes@)->0 && (r->Ok_0).1 == 16,
    {
        if bytes.len() < 16 {
            return Err(DecodeError::Truncated);
        }
        let first = Register { locator: read_u64_le(bytes, 0) };
        let destination = Register { locator: read_u64_le(bytes, 8) };
        Ok((HashPsd8 { operation: UnaryOperation { first, destination } }, 16))
    }

    /// Parses the instruction's text, returning the instruction and the
    /// number of bytes consumed; fails exactly when the grammar does not
    /// match.
    pub fn parse(s: &str) -> (r: Result<(HashPsd8, usize), ParseError>)
        ensures
            r is Ok <==> spec_parse(s.spec_bytes()) is Some,
            r is Ok ==> Some(((r->Ok_0).0, (r->Ok_0).1 as int)) == spec_parse(s.spec_bytes()),
    {
        let b = s.as_bytes();
        if b.len() < 10 {
            return Err(ParseError::Malformed);
        }
        if !match_header(b) {
            return Err(ParseError::Malformed);
        }
        let (src, e1) = match parse_register_at(b, 10) {
            Ok(p) => p,
            Err(e) => {
                return Err(e);
            },
        };
        if b.len() - e1 < 6 {
            return Err(ParseError::Malformed);
        }
        if !match_into(b, e1) {
            return Err(ParseError::Malformed);
        }
        let (dst, e2) = match parse_register_at(b, e1 + 6) {
            Ok(p) => p,
            Err(e) => {
                return Err(e);
            },
        };
        if e2 >= b.len() || b[e2] != 59 {
            return Err(ParseError::Malformed);
        }
        Ok(
            (
                HashPsd8 {
                    operation: UnaryOperation {
                        first: Register { locator: src },
                        destination: Register { locator: dst },
                    },
                },
                e2 + 1,
            ),
        )
    }

    /// Converts the operation into an instruction.
    pub fn into(self) -> (r: Instruction)
        ensures
            r == Instruction::HashPsd8(self),
    {
        Instruction::HashPsd8(self)
    }

    /// Whether evaluation succeeds on a register file state: the source is
    /// assigned a hashable value and the destination is defined but not yet
    /// assigned.
    pub open spec fn can_evaluate(self, m: Map<u64, Option<Value>>) -> bool {
        &&& m.contains_key(self.operation.first.locator)
        &&& m[self.operation.first.locator] is Some
        &&& flatten_value(m[self.operation.first.locator]->0) is Some
        &&& m.contains_key(self.operation.destination.locator)
        &&& m[self.operation.destination.locator] is None
    }

    /// The halt evaluation raises when it cannot succeed.
    pub open spec fn evaluate_halt(self, m: Map<u64, Option<Value>>) -> Halt {
        let src = self.operation.first.locator;
        let dst = self.operation.destination.locator;
        if !m.contains_key(src) {
            Halt::UndefinedRegister(src)
        } else if m[src] is None {
            Halt::UnassignedRegister(src)
        } else if flatten_value(m[src]->0) is None {
            Halt::InvalidInstruction
        } else if !m.contains_key(dst) {
            Halt::UndefinedRegister(dst)
        } else {
            Halt::AlreadyAssigned(dst)
        }
    }

    /// Evaluates the instruction: loads the source value, flattens it,
    /// hashes the field sequence, and writes the digest — a field literal
    /// tagged with the joined visibility of the source's leaves — into the
    /// destination register. Halts exactly on an undefined or unassigned
    /// source, an unhashable operand shape, or an undefined or already
    /// assigned destination.
    pub fn evaluate(&self, registers: &mut Registers) -> (res: Result<(), Halt>)
        requires
            old(registers).wf(),
        ensures
            final(registers).wf(),
            !self.can_evaluate(old(registers)@) ==> res == Result::<(), Halt>::Err(
                self.evaluate_halt(old(registers)@),
            ) && final(registers)@ == old(registers)@,
            self.can_evaluate(old(registers)@) ==> res is Ok && {
                let v = old(registers)@[self.operation.first.locator]->0;
                let dst = self.operation.destination.locator;
                &&& final(registers)@ == old(registers)@.insert(dst, final(registers)@[dst])
                &&& match final(registers)@[dst] {
                    Some(Value::Literal(Literal::Field(f), mv)) => f.inv() && f.value()
                        == poseidon8_digest(flatten_value(v)->0) && mv == visibility_of(v),
                    _ => false,
                }
            },
    {
        let hashed = {
            let v = match registers.load(&self.operation.first) {
                Ok(v) => v,
                Err(h) => {
                    return Err(h);
                },
            };
            match hash_value(v) {
                Some(p) => p,
                None => {
                    return Err(Halt::InvalidInstruction);
                },
            }
        };
        let (digest, vis) = hashed;
        let out = Value::Literal(Literal::Field(digest), vis);
        match registers.assign(&self.operation.destination, out) {
            Ok(u) => Ok(u),
            Err(h) => Err(h),
        }
    }
}

impl Instruction {
    /// Parses any instruction of the set from its text, dispatching on the
    /// opcode; the one opcode in scope is `hash.psd8`.
    pub fn parse(s: &str) -> (r: Result<(Instruction, usize), ParseError>)
        ensures
            r is Ok <==> spec_parse(s.spec_bytes()) is Some,
            r is Ok ==> (match spec_parse(s.spec_bytes()) {
                Some((i, n)) => (r->Ok_0).0 == Instruction::HashPsd8(i) && (r->Ok_0).1 == n,
                None => false,
            }),
    {
        match HashPsd8::parse(s) {
            Ok((i, n)) => Ok((Instruction::HashPsd8(i), n)),
            Err(e) => Err(e),
        }
    }
}

} // verus!
