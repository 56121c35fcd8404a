//! The typed value model of the virtual machine, and field-flattening.
//!
//! A `Value` is either a single typed literal carrying a visibility tag, or a
//! named composite of sub-values. Flattening converts a value into the ordered
//! sequence of field elements that the hash permutation consumes, together
//! with the join of the visibilities of its leaves. Literal kinds with no
//! canonical field encoding (booleans, addresses, group elements) do not
//! flatten: the hash instruction must reject them.

use vstd::prelude::*;
use vstd::arithmetic::power2::{pow2, lemma2_to64};
use vstd::string::StringSliceAdditionalSpecFns;

use crate::field::{FieldElement, modulus, radix4};
use vstd::arithmetic::div_mod::lemma_fundamental_div_mod;

verus! {

broadcast use vstd::std_specs::vec::group_vec_axioms;

/// The visibility of a value within the proof system.
#[derive(Clone, Copy, PartialEq, Eq, Structural, Debug)]
pub enum Visibility {
    Constant,
    Public,
    Private,
}

/// The name of a composite value.
#[derive(PartialEq, Eq, Debug)]
pub struct Identifier {
    pub name: Vec<u8>,
}

/// Whether a byte sequence is a well-formed identifier name: a nonempty ASCII
/// word that starts with a lowercase letter and continues with lowercase
/// letters, digits, or underscores.
pub open spec fn valid_identifier(s: Seq<u8>) -> bool {
    &&& s.len() > 0
    &&& 97 <= s[0] <= 122
    &&& forall|i: int|
        0 <= i < s.len() ==> (97 <= #[trigger] s[i] <= 122 || 48 <= s[i] <= 57 || s[i] == 95)
}

impl Identifier {
    /// Builds an identifier from its textual name; rejects malformed names.
    pub fn from_str(s: &str) -> (r: Option<Self>)
        ensures
            r is Some <==> valid_identifier(s.spec_bytes()),
            r is Some ==> r->0.name@ == s.spec_bytes(),
    {
        let bytes = s.as_bytes();
        if bytes.len() == 0 {
            return None;
        }
        let first = bytes[0];
        if !(97 <= first && first <= 122) {
            return None;
        }
        let mut i: usize = 0;
        while i < bytes.len()
            invariant
                0 <= i <= bytes@.len(),
                bytes@ == s.spec_bytes(),
                forall|k: int|
                    0 <= k < i ==> (97 <= #[trigger] bytes@[k] <= 122 || 48 <= bytes@[k] <= 57
                        || bytes@[k] == 95),
            decreases bytes@.len() - i,
        {
            let b = bytes[i];
            if !((97 <= b && b <= 122) || (48 <= b && b <= 57) || b == 95) {
                return None;
            }
            i = i + 1;
        }
        let mut name: Vec<u8> = Vec::new();
        let mut j: usize = 0;
        while j < bytes.len()
            invariant
                0 <= j <= bytes@.len(),
                bytes@ == s.spec_bytes(),
                name@ == bytes@.subrange(0, j as int),
            decreases bytes@.len() - j,
        {
            name.push(bytes[j]);
            proof {
                assert(name@ =~= bytes@.subrange(0, j + 1));
            }
            j = j + 1;
        }
        proof {
            assert(name@ =~= bytes@);
        }
        Some(Identifier { name })
    }
}

/// A single typed scalar of the value model.
///
/// `Scalar` carries the canonical field encoding of a scalar-field element;
/// `Group` carries the x-coordinate of a group element; `Str` carries the
/// UTF-8 bytes of a string literal; `Address` carries its textual form.
#[derive(PartialEq, Eq, Debug)]
pub enum Literal {
    Field(FieldElement),
    I8(i8),
    I16(i16),
    I32(i32),
    I64(i64),
    I128(i128),
    U8(u8),
    U16(u16),
    U32(u32),
    U64(u64),
    U128(u128),
    Scalar(FieldElement),
    Boolean(bool),
    Address(Vec<u8>),
    Group(FieldElement),
    Str(Vec<u8>),
}

/// A typed value: a literal with a visibility tag, or a named composite.
#[derive(PartialEq, Eq, Debug)]
pub enum Value {
    Literal(Literal, Visibility),
    Composite(Identifier, Vec<Value>),
}

/// The unsigned two's-complement reading of a signed integer.
pub open spec fn i8_bits(x: i8) -> nat {
    (if x >= 0 {
        x as int
    } else {
        x + 0x100
    }) as nat
}

pub open spec fn i16_bits(x: i16) -> nat {
    (if x >= 0 {
        x as int
    } else {
        x + 0x10000
    }) as nat
}

pub open spec fn i32_bits(x: i32) -> nat {
    (if x >= 0 {
        x as int
    } else {
        x + 0x100000000
    }) as nat
}

pub open spec fn i64_bits(x: i64) -> nat {
    (if x >= 0 {
        x as int
    } else {
        x + 0x10000000000000000
    }) as nat
}

pub open spec fn i128_bits(x: i128) -> nat {
    (if x >= 0 {
        x as int
    } else {
        x + 0x100000000000000000000000000000000
    }) as nat
}

/// Bit `j` of a byte sequence, reading each byte least-significant bit first.
pub open spec fn bit_at(s: Seq<u8>, j: int) -> bool {
    (s[j / 8] as nat) / pow2((j % 8) as nat) % 2 == 1
}

/// The number denoted by bits `lo..hi` of a byte sequence, least significant first.
pub open spec fn bits_value(s: Seq<u8>, lo: int, hi: int) -> nat
    decreases hi - lo,
{
    if lo >= hi {
        0
    } else {
        ((if bit_at(s, lo) {
            1int
        } else {
            0int
        }) + 2 * bits_value(s, lo + 1, hi)) as nat
    }
}

/// The number of data bits a field element can carry: one less than the bit
/// width of the modulus.
pub open spec fn data_bits() -> int {
    252
}

/// How many field elements the bits of `n` bytes occupy.
pub open spec fn string_chunks(n: int) -> int {
    (8 * n + data_bits() - 1) / data_bits()
}

/// The field encoding of a string literal: its bits, least significant first,
/// split into chunks of `data_bits()` bits, each read as one field element.
pub open spec fn string_field_values(s: Seq<u8>) -> Seq<nat> {
    Seq::new(
        string_chunks(s.len() as int) as nat,
        |c: int|
            bits_value(
                s,
                data_bits() * c,
                if data_bits() * (c + 1) < 8 * s.len() {
                    data_bits() * (c + 1)
                } else {
                    8 * s.len() as int
                },
            ),
    )
}

/// The field encoding of a literal, or `None` for the kinds the hash
/// instruction rejects.
pub open spec fn literal_field_values(l: Literal) -> Option<Seq<nat>> {
    match l {
        Literal::Field(f) => Some(seq![f.value()]),
        Literal::I8(x) => Some(seq![i8_bits(x)]),
        Literal::I16(x) => Some(seq![i16_bits(x)]),
        Literal::I32(x) => Some(seq![i32_bits(x)]),
        Literal::I64(x) => Some(seq![i64_bits(x)]),
        Literal::I128(x) => Some(seq![i128_bits(x)]),
        Literal::U8(x) => Some(seq![x as nat]),
        Literal::U16(x) => Some(seq![x as nat]),
        Literal::U32(x) => Some(seq![x as nat]),
        Literal::U64(x) => Some(seq![x as nat]),
        Literal::U128(x) => Some(seq![x as nat]),
        Literal::Scalar(f) => Some(seq![f.value()]),
        Literal::Boolean(_) => None,
        Literal::Address(_) => None,
        Literal::Group(_) => None,
        Literal::Str(bytes) => Some(string_field_values(bytes@)),
    }
}

/// Well-formedness of a literal: field-valued payloads are canonical residues,
/// and a string is short enough that its bit count fits the machine.
pub open spec fn literal_wf(l: Literal) -> bool {
    match l {
        Literal::Field(f) => f.inv(),
        Literal::Scalar(f) => f.inv(),
        Literal::Group(f) => f.inv(),
        Literal::Str(bytes) => bytes@.len() < 0x10000000,
        _ => true,
    }
}

/// Well-formedness of a value: every literal in it is well formed.
pub open spec fn value_wf(v: Value) -> bool
    decreases v,
{
    match v {
        Value::Literal(l, _) => literal_wf(l),
        Value::Composite(_, vs) => value_list_wf(vs@),
    }
}

pub open spec fn value_list_wf(vs: Seq<Value>) -> bool
    decreases vs,
{
    if vs.len() == 0 {
        true
    } else {
        value_wf(vs[0]) && value_list_wf(vs.subrange(1, vs.len() as int))
    }
}

/// The field encoding of a value: the concatenation of the encodings of its
/// leaves in declared order, or `None` if any leaf has no encoding.
pub open spec fn flatten_value(v: Value) -> Option<Seq<nat>>
    decreases v,
{
    match v {
        Value::Literal(l, _) => literal_field_values(l),
        Value::Composite(_, vs) => flatten_list(vs@),
    }
}

pub open spec fn flatten_list(vs: Seq<Value>) -> Option<Seq<nat>>
    decreases vs,
{
    if vs.len() == 0 {
        Some(Seq::empty())
    } else {
        match (flatten_value(vs[0]), flatten_list(vs.subrange(1, vs.len() as int))) {
            (Some(h), Some(t)) => Some(h + t),
            _ => None,
        }
    }
}

/// Whether some leaf of the value is tagged `Private`.
pub open spec fn has_private(v: Value) -> bool
    decreases v,
{
    match v {
        Value::Literal(_, m) => m == Visibility::Private,
        Value::Composite(_, vs) => list_has_private(vs@),
    }
}

pub open spec fn list_has_private(vs: Seq<Value>) -> bool
    decreases vs,
{
    if vs.len() == 0 {
        false
    } else {
        has_private(vs[0]) || list_has_private(vs.subrange(1, vs.len() as int))
    }
}

/// Whether some leaf of the value is tagged `Public`.
pub open spec fn has_public(v: Value) -> bool
    decreases v,
{
    match v {
        Value::Literal(_, m) => m == Visibility::Public,
        Value::Composite(_, vs) => list_has_public(vs@),
    }
}

pub open spec fn list_has_public(vs: Seq<Value>) -> bool
    decreases vs,
{
    if vs.len() == 0 {
        false
    } else {
        has_public(vs[0]) || list_has_public(vs.subrange(1, vs.len() as int))
    }
}

/// The visibility of a value as a whole: the least-constant-preserving join of
/// the visibilities of its leaves. Any private leaf taints the whole value
/// private; otherwise any public leaf makes it public; otherwise it is
/// constant.
pub open spec fn visibility_of(v: Value) -> Visibility {
    if has_private(v) {
        Visibility::Private
    } else if has_public(v) {
        Visibility::Public
    } else {
        Visibility::Constant
    }
}

/// `pow2` agrees with the limb radix powers.
proof fn lemma_pow2_radix()
    ensures
        pow2(64) == crate::field::radix(),
        pow2(252) < radix4(),
{
    lemma2_to64();
    vstd::arithmetic::power2::lemma_pow2_adds(64, 64);
    vstd::arithmetic::power2::lemma_pow2_adds(128, 64);
    vstd::arithmetic::power2::lemma_pow2_adds(192, 64);
    vstd::arithmetic::power2::lemma_pow2_adds(192, 32);
    vstd::arithmetic::power2::lemma_pow2_adds(224, 28);
    vstd::arithmetic::power2::lemma_pow2_strictly_increases(252, 256);
}

/// A bit range denotes a number below `2^(hi - lo)`.
proof fn lemma_bits_value_bound(s: Seq<u8>, lo: int, hi: int)
    ensures
        bits_value(s, lo, hi) < pow2(if hi >= lo {
            (hi - lo) as nat
        } else {
            0
        }),
    decreases hi - lo,
{
    vstd::arithmetic::power2::lemma_pow2_pos(0);
    if lo < hi {
        lemma_bits_value_bound(s, lo + 1, hi);
        vstd::arithmetic::power2::lemma_pow2_adds(1, (hi - lo - 1) as nat);
        lemma2_to64();
    }
}

/// `2^k` for a bit position within a byte.
fn pow2_small(k: usize) -> (r: u64)
    requires
        k < 8,
    ensures
        r == pow2(k as nat),
{
    proof {
        lemma2_to64();
    }
    if k == 0 {
        1
    } else if k == 1 {
        2
    } else if k == 2 {
        4
    } else if k == 3 {
        8
    } else if k == 4 {
        16
    } else if k == 5 {
        32
    } else if k == 6 {
        64
    } else {
        128
    }
}

/// Flattens the bytes of a string literal into field elements, `data_bits()`
/// bits to an element, least significant bits first.
pub fn string_to_fields(bytes: &[u8]) -> (r: Vec<FieldElement>)
    requires
        bytes@.len() < 0x10000000,
    ensures
        r@.map_values(|f: FieldElement| f.value()) == string_field_values(bytes@),
        forall|i: int| 0 <= i < r@.len() ==> (#[trigger] r@[i]).inv(),
{
    let n = bytes.len();
    let total_bits = 8 * n;
    let nchunks = (total_bits + 251) / 252;
    let mut out: Vec<FieldElement> = Vec::new();
    let mut c: usize = 0;
    proof {
        lemma_fundamental_div_mod(total_bits as int, 252);
    }
    while c < nchunks
        invariant
            n == bytes@.len(),
            n < 0x10000000,
            total_bits == 8 * n,
            nchunks == string_chunks(n as int),
            252 * nchunks >= total_bits,
            0 <= c <= nchunks,
            out@.len() == c,
            forall|i: int|
                0 <= i < c ==> (#[trigger] out@[i]).value() == string_field_values(bytes@)[i]
                    && out@[i].inv(),
        decreases nchunks - c,
    {
        proof {
            lemma_fundamental_div_mod((total_bits + 251) as int, 252);
        }
        let lo = 252 * c;
        let hi = if 252 * c + 252 < total_bits {
            252 * c + 252
        } else {
            total_bits
        };
        let mut acc = FieldElement::zero();
        let mut j: usize = hi;
        proof {
            lemma2_to64();
        }
        while j > lo
            invariant
                n == bytes@.len(),
                n < 0x10000000,
                total_bits == 8 * n,
                lo == 252 * c,
                lo < hi <= total_bits,
                hi - lo <= 252,
                lo <= j <= hi,
                acc.value() == bits_value(bytes@, j as int, hi as int),
                acc.value() < pow2((hi - j) as nat),
            decreases j - lo,
        {
            let jj = j - 1;
            proof {
                lemma_fundamental_div_mod(jj as int, 8);
            }
            let byte = bytes[jj / 8];
            let k = jj % 8;
            let p = pow2_small(k);
            proof {
                lemma2_to64();
                assert(p >= 1);
            }
            let bit: u64 = (byte as u64 / p) % 2;
            proof {
                lemma_bits_value_bound(bytes@, jj as int, hi as int);
                vstd::arithmetic::power2::lemma_pow2_adds(1, (hi - jj - 1) as nat);
                vstd::arithmetic::power2::lemma_pow2_strictly_increases((hi - jj) as nat, 253);
                vstd::arithmetic::power2::lemma_pow2_strictly_increases(252, 253);
                lemma_pow2_radix();
                vstd::arithmetic::power2::lemma_pow2_strictly_increases(253, 256);
                vstd::arithmetic::power2::lemma_pow2_adds(192, 64);
                vstd::arithmetic::power2::lemma_pow2_adds(128, 64);
                vstd::arithmetic::power2::lemma_pow2_adds(64, 64);
            }
            let (acc2, carry) = acc.mul_small_add(2, bit);
            proof {
                assert(bits_value(bytes@, jj as int, hi as int) == bit + 2 * bits_value(
                    bytes@,
                    jj + 1,
                    hi as int,
                ));
                assert(acc2.value() + carry * radix4() < radix4());
                assert(carry == 0);
            }
            acc = acc2;
            j = jj;
        }
        proof {
            assert(acc.value() == string_field_values(bytes@)[c as int]);
            if hi - lo < 252 {
                vstd::arithmetic::power2::lemma_pow2_strictly_increases((hi - lo) as nat, 252);
            }
            assert(acc.value() < pow2(252));
            lemma_pow2_modulus();
        }
        out.push(acc);
        c = c + 1;
    }
    proof {
        let m = out@.map_values(|f: FieldElement| f.value());
        assert(m.len() == string_field_values(bytes@).len());
        assert forall|i: int| 0 <= i < m.len() implies m[i] == string_field_values(bytes@)[i] by {
            assert(out@[i].value() == string_field_values(bytes@)[i]);
        }
        assert(m =~= string_field_values(bytes@));
    }
    out
}

/// The field encoding of one literal, or `None` for a kind the hash
/// instruction rejects.
pub fn literal_to_fields(l: &Literal) -> (r: Option<Vec<FieldElement>>)
    requires
        literal_wf(*l),
    ensures
        r is Some <==> literal_field_values(*l) is Some,
        r is Some ==> r->0@.map_values(|f: FieldElement| f.value()) == literal_field_values(
            *l,
        )->0,
        r is Some ==> forall|i: int| 0 <= i < r->0@.len() ==> (#[trigger] r->0@[i]).inv(),
{
    match l {
        Literal::Field(f) => Some(singleton(*f)),
        Literal::I8(x) => {
            let u: u64 = if *x >= 0 {
                *x as u64
            } else {
                (*x as i64 + 0x100) as u64
            };
            Some(singleton(FieldElement::from_u64(u)))
        },
        Literal::I16(x) => {
            let u: u64 = if *x >= 0 {
                *x as u64
            } else {
                (*x as i64 + 0x10000) as u64
            };
            Some(singleton(FieldElement::from_u64(u)))
        },
        Literal::I32(x) => {
            let u: u64 = if *x >= 0 {
                *x as u64
            } else {
                (*x as i64 + 0x100000000) as u64
            };
            Some(singleton(FieldElement::from_u64(u)))
        },
        Literal::I64(x) => {
            let u: u128 = if *x >= 0 {
                *x as u128
            } else {
                (*x as i128 + 0x10000000000000000) as u128
            };
            Some(singleton(FieldElement::from_u128(u)))
        },
        Literal::I128(x) => {
            let u: u128 = if *x >= 0 {
                *x as u128
            } else {
                let h: i128 = *x + 0x40000000000000000000000000000000;
                let h2: i128 = h + 0x40000000000000000000000000000000;
                (h2 as u128) + 0x80000000000000000000000000000000
            };
            Some(singleton(FieldElement::from_u128(u)))
        },
        Literal::U8(x) => Some(singleton(FieldElement::from_u64(*x as u64))),
        Literal::U16(x) => Some(singleton(FieldElement::from_u64(*x as u64))),
        Literal::U32(x) => Some(singleton(FieldElement::from_u64(*x as u64))),
        Literal::U64(x) => Some(singleton(FieldElement::from_u64(*x))),
        Literal::U128(x) => Some(singleton(FieldElement::from_u128(*x))),
        Literal::Scalar(f) => Some(singleton(*f)),
        Literal::Boolean(_) => None,
        Literal::Address(_) => None,
        Literal::Group(_) => None,
        Literal::Str(bytes) => Some(string_to_fields(bytes.as_slice())),
    }
}

/// A vector holding one field element.
fn singleton(f: FieldElement) -> (r: Vec<FieldElement>)
    ensures
        r@ == seq![f],
        r@.map_values(|g: FieldElement| g.value()) == seq![f.value()],
{
    let mut v: Vec<FieldElement> = Vec::new();
    v.push(f);
    proof {
        assert(v@ =~= seq![f]);
        assert(v@.map_values(|g: FieldElement| g.value()) =~= seq![f.value()]);
    }
    v
}

/// The field encoding of a value together with its leaf-visibility summary:
/// the element sequence, whether some leaf is private, and whether some leaf
/// is public.
fn flatten_inner(v: &Value) -> (r: Option<(Vec<FieldElement>, bool, bool)>)
    requires
        value_wf(*v),
    ensures
        r is Some <==> flatten_value(*v) is Some,
        r is Some ==> (r->0).0@.map_values(|f: FieldElement| f.value()) == flatten_value(*v)->0,
        r is Some ==> forall|i: int| 0 <= i < (r->0).0@.len() ==> (#[trigger] (r->0).0@[i]).inv(),
        r is Some ==> (r->0).1 == has_private(*v) && (r->0).2 == has_public(*v),
    decreases *v,
{
    match v {
        Value::Literal(l, m) => match literal_to_fields(l) {
            Some(fs) => Some(
                (fs, *m == Visibility::Private, *m == Visibility::Public),
            ),
            None => None,
        },
        Value::Composite(_, vs) => {
            proof {
                assert(vs@.subrange(0, vs@.len() as int) =~= vs@);
            }
            flatten_suffix(vs, 0)
        },
    }
}

/// The field encoding and leaf-visibility summary of the sub-values from
/// position `i` on.
fn flatten_suffix(vs: &Vec<Value>, i: usize) -> (r: Option<(Vec<FieldElement>, bool, bool)>)
    requires
        i <= vs@.len(),
        value_list_wf(vs@.subrange(i as int, vs@.len() as int)),
    ensures
        r is Some <==> flatten_list(vs@.subrange(i as int, vs@.len() as int)) is Some,
        r is Some ==> (r->0).0@.map_values(|f: FieldElement| f.value()) == flatten_list(
            vs@.subrange(i as int, vs@.len() as int),
        )->0,
        r is Some ==> forall|i: int| 0 <= i < (r->0).0@.len() ==> (#[trigger] (r->0).0@[i]).inv(),
        r is Some ==> (r->0).1 == list_has_private(vs@.subrange(i as int, vs@.len() as int))
            && (r->0).2 == list_has_public(vs@.subrange(i as int, vs@.len() as int)),
    decreases vs@.subrange(i as int, vs@.len() as int),
{
    let ghost suffix = vs@.subrange(i as int, vs@.len() as int);
    if i == vs.len() {
        proof {
            assert(suffix =~= Seq::<Value>::empty());
            assert(Seq::<FieldElement>::empty().map_values(|f: FieldElement| f.value())
                =~= Seq::<nat>::empty());
        }
        Some((Vec::new(), false, false))
    } else {
        proof {
            assert(suffix[0] == vs@[i as int]);
            assert(suffix.subrange(1, suffix.len() as int) =~= vs@.subrange(
                i + 1,
                vs@.len() as int,
            ));
        }
        match flatten_inner(&vs[i]) {
            None => None,
            Some((mut hf, hpriv, hpub)) => {
                match flatten_suffix(vs, i + 1) {
                    None => None,
                    Some((mut tf, tpriv, tpub)) => {
                        let ghost hm = hf@.map_values(|f: FieldElement| f.value());
                        let ghost tm = tf@.map_values(|f: FieldElement| f.value());
                        hf.append(&mut tf);
                        proof {
                            assert(hf@.map_values(|f: FieldElement| f.value()) =~= hm + tm);
                        }
                        Some((hf, hpriv || tpriv, hpub || tpub))
                    },
                }
            },
        }
    }
}

/// The field encoding of a value and the joined visibility of its leaves, or
/// `None` if some leaf kind has no field encoding.
pub fn flatten(v: &Value) -> (r: Option<(Vec<FieldElement>, Visibility)>)
    requires
        value_wf(*v),
    ensures
        r is Some <==> flatten_value(*v) is Some,
        r is Some ==> (r->0).0@.map_values(|f: FieldElement| f.value()) == flatten_value(*v)->0,
        r is Some ==> forall|i: int| 0 <= i < (r->0).0@.len() ==> (#[trigger] (r->0).0@[i]).inv(),
        r is Some ==> (r->0).1 == visibility_of(*v),
{
    match flatten_inner(v) {
        None => None,
        Some((fs, saw_private, saw_public)) => {
            let vis = if saw_private {
                Visibility::Private
            } else if saw_public {
                Visibility::Public
            } else {
                Visibility::Constant
            };
            Some((fs, vis))
        },
    }
}

/// The bytes of the type suffix `field`.
pub open spec fn field_suffix_bytes() -> Seq<u8> {
    seq![102u8, 105u8, 101u8, 108u8, 100u8]
}

/// The visibility a literal's trailing text denotes: nothing for `Constant`,
/// or a dot followed by the visibility's name.
pub open spec fn visibility_suffix(s: Seq<u8>) -> Option<Visibility> {
    if s.len() == 0 {
        Some(Visibility::Constant)
    } else if s.len() == 9 && s[0] == 46 && s[1] == 99 && s[2] == 111 && s[3] == 110 && s[4] == 115
        && s[5] == 116 && s[6] == 97 && s[7] == 110 && s[8] == 116 {
        Some(Visibility::Constant)
    } else if s.len() == 7 && s[0] == 46 && s[1] == 112 && s[2] == 117 && s[3] == 98 && s[4] == 108
        && s[5] == 105 && s[6] == 99 {
        Some(Visibility::Public)
    } else if s.len() == 8 && s[0] == 46 && s[1] == 112 && s[2] == 114 && s[3] == 105 && s[4] == 118
        && s[5] == 97 && s[6] == 116 && s[7] == 101 {
        Some(Visibility::Private)
    } else {
        None
    }
}

/// The grammar of a field-element literal: a decimal numeral below the
/// modulus, the suffix `field`, and an optional visibility suffix.
pub open spec fn spec_field_literal(s: Seq<u8>) -> Option<(nat, Visibility)> {
    let e = crate::field::digits_end(s, 0);
    if e > 0 && crate::field::decimal_value(s.subrange(0, e)) < modulus() && e + 5 <= s.len()
        && s.subrange(e, e + 5) == field_suffix_bytes() {
        match visibility_suffix(s.subrange(e + 5, s.len() as int)) {
            Some(m) => Some((crate::field::decimal_value(s.subrange(0, e)), m)),
            None => None,
        }
    } else {
        None
    }
}

/// Parses the visibility suffix `b[rs..]` of a literal.
fn parse_visibility_suffix(b: &[u8], rs: usize) -> (r: Option<Visibility>)
    requires
        rs <= b@.len(),
    ensures
        r is Some <==> visibility_suffix(b@.subrange(rs as int, b@.len() as int)) is Some,
        r is Some ==> r->0 == visibility_suffix(b@.subrange(rs as int, b@.len() as int))->0,
{
    let ghost suffix = b@.subrange(rs as int, b@.len() as int);
    proof {
        assert(forall|j: int| 0 <= j < suffix.len() ==> #[trigger] suffix[j] == b@[rs + j]);
    }
    let n = b.len() - rs;
    if n == 0 {
        Some(Visibility::Constant)
    } else if n == 9 && b[rs] == 46 && b[rs + 1] == 99 && b[rs + 2] == 111 && b[rs + 3] == 110
        && b[rs + 4] == 115 && b[rs + 5] == 116 && b[rs + 6] == 97 && b[rs + 7] == 110 && b[rs
        + 8] == 116 {
        Some(Visibility::Constant)
    } else if n == 7 && b[rs] == 46 && b[rs + 1] == 112 && b[rs + 2] == 117 && b[rs + 3] == 98
        && b[rs + 4] == 108 && b[rs + 5] == 105 && b[rs + 6] == 99 {
        Some(Visibility::Public)
    } else if n == 8 && b[rs] == 46 && b[rs + 1] == 112 && b[rs + 2] == 114 && b[rs + 3] == 105
        && b[rs + 4] == 118 && b[rs + 5] == 97 && b[rs + 6] == 116 && b[rs + 7] == 101 {
        Some(Visibility::Private)
    } else {
        None
    }
}

impl Value {
    /// Parses a field-element literal with an optional visibility suffix,
    /// such as `1field` or `2field.private`; without a suffix the literal is
    /// constant. Fails on any other text.
    pub fn from_str(s: &str) -> (r: Option<Value>)
        ensures
            r is Some <==> spec_field_literal(s.spec_bytes()) is Some,
            r is Some ==> (match r->0 {
                Value::Literal(Literal::Field(f), m) => f.inv() && Some(((f.value(), m)))
                    == spec_field_literal(s.spec_bytes()),
                _ => false,
            }),
    {
        let b = s.as_bytes();
        let mut e: usize = 0;
        while e < b.len() && b[e] >= 48 && b[e] <= 57
            invariant
                0 <= e <= b@.len(),
                crate::field::digits_end(b@, 0) == crate::field::digits_end(b@, e as int),
            decreases b@.len() - e,
        {
            e = e + 1;
        }
        proof {
            assert(crate::field::digits_end(b@, e as int) == e);
            crate::field::lemma_digits_end(b@, 0);
            assert forall|k: int| 0 <= k < e implies crate::field::is_digit(
                #[trigger] b@.subrange(0, e as int)[k],
            ) by {
                assert(b@.subrange(0, e as int)[k] == b@[k]);
            }
        }
        if e == 0 {
            return None;
        }
        if b.len() - e < 5 {
            return None;
        }
        if !(b[e] == 102 && b[e + 1] == 105 && b[e + 2] == 101 && b[e + 3] == 108 && b[e + 4]
            == 100) {
            proof {
                assert(forall|j: int|
                    0 <= j < 5 ==> #[trigger] b@.subrange(e as int, e + 5)[j] == b@[e + j]);
            }
            return None;
        }
        proof {
            assert(b@.subrange(e as int, e + 5) =~= field_suffix_bytes());
        }
        let rs = e + 5;
        let vis: Visibility = match parse_visibility_suffix(b, rs) {
            Some(m) => m,
            None => {
                return None;
            },
        };
        let digits = vstd::slice::slice_subrange(b, 0, e);
        match FieldElement::from_decimal(digits) {
            Some(f) => Some(Value::Literal(Literal::Field(f), vis)),
            None => None,
        }
    }
}

/// Every integer-kind literal of numeric value one, and the scalar of value
/// one, flattens to the same single field element as the field literal one —
/// so hashing any of them yields one digest.
pub proof fn lemma_unit_literals_flatten_alike(one: FieldElement)
    requires
        one.value() == 1,
    ensures
        literal_field_values(Literal::Field(one)) == Some(seq![1nat]),
        literal_field_values(Literal::Scalar(one)) == Some(seq![1nat]),
        literal_field_values(Literal::I8(1)) == Some(seq![1nat]),
        literal_field_values(Literal::I16(1)) == Some(seq![1nat]),
        literal_field_values(Literal::I32(1)) == Some(seq![1nat]),
        literal_field_values(Literal::I64(1)) == Some(seq![1nat]),
        literal_field_values(Literal::I128(1)) == Some(seq![1nat]),
        literal_field_values(Literal::U8(1)) == Some(seq![1nat]),
        literal_field_values(Literal::U16(1)) == Some(seq![1nat]),
        literal_field_values(Literal::U32(1)) == Some(seq![1nat]),
        literal_field_values(Literal::U64(1)) == Some(seq![1nat]),
        literal_field_values(Literal::U128(1)) == Some(seq![1nat]),
{
    assert(seq![one.value()] =~= seq![1nat]);
    assert(seq![i8_bits(1)] =~= seq![1nat]);
    assert(seq![i16_bits(1)] =~= seq![1nat]);
    assert(seq![i32_bits(1)] =~= seq![1nat]);
    assert(seq![i64_bits(1)] =~= seq![1nat]);
    assert(seq![i128_bits(1)] =~= seq![1nat]);
    assert(seq![1u8 as nat] =~= seq![1nat]);
    assert(seq![1u16 as nat] =~= seq![1nat]);
    assert(seq![1u32 as nat] =~= seq![1nat]);
    assert(seq![1u64 as nat] =~= seq![1nat]);
    assert(seq![1u128 as nat] =~= seq![1nat]);
}

/// A sub-value list has a private leaf exactly when one of its members does.
pub proof fn lemma_list_has_private_iff(vs: Seq<Value>)
    ensures
        list_has_private(vs) <==> exists|i: int| 0 <= i < vs.len() && has_private(#[trigger] vs[i]),
    decreases vs,
{
    if vs.len() > 0 {
        let rest = vs.subrange(1, vs.len() as int);
        lemma_list_has_private_iff(rest);
        if has_private(vs[0]) {
            assert(has_private(vs[0]));
        } else if list_has_private(rest) {
            let j = choose|j: int| 0 <= j < rest.len() && has_private(#[trigger] rest[j]);
            assert(vs[j + 1] == rest[j]);
        } else {
            assert forall|i: int| 0 <= i < vs.len() implies !has_private(#[trigger] vs[i]) by {
                if i > 0 {
                    assert(rest[i - 1] == vs[i]);
                }
            }
        }
    }
}

/// A sub-value list has a public leaf exactly when one of its members does.
pub proof fn lemma_list_has_public_iff(vs: Seq<Value>)
    ensures
        list_has_public(vs) <==> exists|i: int| 0 <= i < vs.len() && has_public(#[trigger] vs[i]),
    decreases vs,
{
    if vs.len() > 0 {
        let rest = vs.subrange(1, vs.len() as int);
        lemma_list_has_public_iff(rest);
        if has_public(vs[0]) {
            assert(has_public(vs[0]));
        } else if list_has_public(rest) {
            let j = choose|j: int| 0 <= j < rest.len() && has_public(#[trigger] rest[j]);
            assert(vs[j + 1] == rest[j]);
        } else {
            assert forall|i: int| 0 <= i < vs.len() implies !has_public(#[trigger] vs[i]) by {
                if i > 0 {
                    assert(rest[i - 1] == vs[i]);
                }
            }
        }
    }
}

/// Visibility join law: a composite with at least one private sub-value is
/// private as a whole, even if other sub-values are public or constant; one
/// with no private sub-value is never private. A public leaf among
/// non-private leaves makes the whole public; otherwise it is constant.
pub proof fn lemma_visibility_join(v: Value)
    ensures
        visibility_of(v) == Visibility::Private <==> has_private(v),
        !has_private(v) && has_public(v) ==> visibility_of(v) == Visibility::Public,
        !has_private(v) && !has_public(v) ==> visibility_of(v) == Visibility::Constant,
        v matches Value::Composite(_, vs) ==> (visibility_of(v) == Visibility::Private
            <==> exists|i: int| 0 <= i < vs@.len() && has_private(#[trigger] vs@[i])),
        v matches Value::Composite(_, vs) ==> (visibility_of(v) == Visibility::Public
            <==> !list_has_private(vs@) && exists|i: int|
                0 <= i < vs@.len() && has_public(#[trigger] vs@[i])),
{
    match v {
        Value::Composite(_, vs) => {
            lemma_list_has_private_iff(vs@);
            lemma_list_has_public_iff(vs@);
        },
        _ => {},
    }
}

/// `2^252` lies below the modulus, so a data-bit chunk is a canonical residue.
proof fn lemma_pow2_modulus()
    ensures
        pow2(252) < modulus(),
{
    lemma2_to64();
    vstd::arithmetic::power2::lemma_pow2_adds(64, 64);
    vstd::arithmetic::power2::lemma_pow2_adds(128, 64);
    vstd::arithmetic::power2::lemma_pow2_adds(192, 32);
    vstd::arithmetic::power2::lemma_pow2_adds(224, 28);
}

} // verus!
