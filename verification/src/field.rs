//! Field elements of the arithmetic circuit's native prime field.
//!
//! A `FieldElement` holds a canonical residue of the 253-bit prime field that
//! the hash permutation operates over, as four 64-bit little-endian limbs.

use vstd::prelude::*;
use vstd::arithmetic::div_mod::lemma_fundamental_div_mod;

verus! {

/// The prime modulus of the field: a 253-bit prime.
pub open spec fn modulus() -> nat {
    8444461749428370424248824938781546531375899335154063827935233455917409239041nat
}

/// 2^64, the radix of the limb representation.
pub open spec fn radix() -> nat {
    0x10000000000000000
}

/// 2^128.
pub open spec fn radix2() -> nat {
    0x100000000000000000000000000000000nat
}

/// 2^192.
pub open spec fn radix3() -> nat {
    0x1000000000000000000000000000000000000000000000000nat
}

/// 2^256.
pub open spec fn radix4() -> nat {
    0x10000000000000000000000000000000000000000000000000000000000000000nat
}

/// The limbs of the modulus, least significant first.
pub const MODULUS_L0: u64 = 0x0a11800000000001;
pub const MODULUS_L1: u64 = 0x59aa76fed0000001;
pub const MODULUS_L2: u64 = 0x60b44d1e5c37b001;
pub const MODULUS_L3: u64 = 0x12ab655e9a2ca556;

/// A canonical field element, stored as four 64-bit limbs, least significant first.
#[derive(Clone, Copy, PartialEq, Eq, Structural, Debug)]
pub struct FieldElement {
    pub l0: u64,
    pub l1: u64,
    pub l2: u64,
    pub l3: u64,
}

impl FieldElement {
    /// The integer this limb vector denotes.
    pub open spec fn value(self) -> nat {
        (self.l0 + self.l1 * radix() + self.l2 * radix2() + self.l3 * radix3()) as nat
    }

    /// A well-formed field element is a canonical residue: its value lies below the modulus.
    pub open spec fn inv(self) -> bool {
        self.value() < modulus()
    }

    /// The zero element.
    pub fn zero() -> (r: Self)
        ensures
            r.value() == 0,
            r.inv(),
    {
        FieldElement { l0: 0, l1: 0, l2: 0, l3: 0 }
    }

    /// The element with the given 64-bit value.
    pub fn from_u64(v: u64) -> (r: Self)
        ensures
            r.value() == v,
            r.inv(),
    {
        FieldElement { l0: v, l1: 0, l2: 0, l3: 0 }
    }

    /// The element with the given 128-bit value.
    pub fn from_u128(v: u128) -> (r: Self)
        ensures
            r.value() == v,
            r.inv(),
    {
        let lo: u64 = (v % 0x10000000000000000) as u64;
        let hi: u64 = (v / 0x10000000000000000) as u64;
        proof {
            lemma_fundamental_div_mod(v as int, 0x10000000000000000);
        }
        FieldElement { l0: lo, l1: hi, l2: 0, l3: 0 }
    }

    /// Multiplies the element by a small factor and adds a small addend, as an
    /// integer operation on the limbs; the second component is the carry out of
    /// the top limb, so no information is lost.
    pub fn mul_small_add(self, m: u64, d: u64) -> (r: (Self, u64))
        requires
            m <= 0xffffffff,
            d <= 0xffffffff,
        ensures
            r.0.value() + r.1 * radix4() == self.value() * m + d,
    {
        let (r0, c0) = limb_step(self.l0, m, d);
        let (r1, c1) = limb_step(self.l1, m, c0);
        let (r2, c2) = limb_step(self.l2, m, c1);
        let (r3, c3) = limb_step(self.l3, m, c2);
        proof {
            assert((r0 + r1 * radix() + r2 * radix2() + r3 * radix3()) + c3 * radix4()
                == (self.l0 + self.l1 * radix() + self.l2 * radix2() + self.l3 * radix3()) * m
                    + d) by (nonlinear_arith)
                requires
                    r0 + c0 * radix() == self.l0 * m + d,
                    r1 + c1 * radix() == self.l1 * m + c0,
                    r2 + c2 * radix() == self.l2 * m + c1,
                    r3 + c3 * radix() == self.l3 * m + c2,
                    radix2() == radix() * radix(),
                    radix3() == radix2() * radix(),
                    radix4() == radix3() * radix(),
            {
            }
        }
        (FieldElement { l0: r0, l1: r1, l2: r2, l3: r3 }, c3)
    }

    /// Whether the element is a canonical residue, by a limb-wise comparison
    /// against the modulus.
    pub fn is_canonical(&self) -> (r: bool)
        ensures
            r == self.inv(),
    {
        proof {
            lemma_limb_order(*self);
        }
        if self.l3 != MODULUS_L3 {
            self.l3 < MODULUS_L3
        } else if self.l2 != MODULUS_L2 {
            self.l2 < MODULUS_L2
        } else if self.l1 != MODULUS_L1 {
            self.l1 < MODULUS_L1
        } else {
            self.l0 < MODULUS_L0
        }
    }
}

/// Whether a byte is an ASCII decimal digit.
pub open spec fn is_digit(b: u8) -> bool {
    48 <= b <= 57
}

/// Whether every byte of a sequence is an ASCII decimal digit.
pub open spec fn all_digits(s: Seq<u8>) -> bool {
    forall|i: int| 0 <= i < s.len() ==> is_digit(#[trigger] s[i])
}

/// The number an ASCII decimal digit sequence denotes, most significant digit first.
pub open spec fn decimal_value(s: Seq<u8>) -> nat
    decreases s.len(),
{
    if s.len() == 0 {
        0
    } else {
        (decimal_value(s.drop_last()) * 10 + (s.last() - 48)) as nat
    }
}

/// A longer digit sequence never denotes a smaller number than its prefix.
pub proof fn lemma_decimal_prefix_le(s: Seq<u8>, i: int)
    requires
        0 <= i <= s.len(),
        all_digits(s),
    ensures
        decimal_value(s.subrange(0, i)) <= decimal_value(s),
    decreases s.len() - i,
{
    if i < s.len() {
        let t = s.subrange(0, i + 1);
        assert(t.drop_last() =~= s.subrange(0, i));
        assert(decimal_value(s.subrange(0, i)) <= decimal_value(t));
        lemma_decimal_prefix_le(s, i + 1);
        assert(s.subrange(0, s.len() as int) =~= s);
    } else {
        assert(s.subrange(0, i) =~= s);
    }
}

/// The end of the maximal digit run starting at `i`.
pub open spec fn digits_end(s: Seq<u8>, i: int) -> int
    decreases s.len() - i,
{
    if 0 <= i < s.len() && is_digit(s[i]) {
        digits_end(s, i + 1)
    } else {
        i
    }
}

/// The digit run `s[i..digits_end(s, i)]` is all digits and stops at the
/// first non-digit.
pub proof fn lemma_digits_end(s: Seq<u8>, i: int)
    requires
        0 <= i <= s.len(),
    ensures
        i <= digits_end(s, i) <= s.len(),
        forall|k: int| i <= k < digits_end(s, i) ==> is_digit(#[trigger] s[k]),
        digits_end(s, i) == s.len() || !is_digit(s[digits_end(s, i)]),
    decreases s.len() - i,
{
    if i < s.len() && is_digit(s[i]) {
        lemma_digits_end(s, i + 1);
    }
}

/// Parses the digit run `s[start..end]` as a 64-bit number; fails exactly
/// when the denoted number does not fit.
pub fn parse_u64_digits(s: &[u8], start: usize, end: usize) -> (r: Option<u64>)
    requires
        start <= end <= s@.len(),
        all_digits(s@.subrange(start as int, end as int)),
    ensures
        r is Some <==> decimal_value(s@.subrange(start as int, end as int)) <= u64::MAX,
        r is Some ==> r->0 == decimal_value(s@.subrange(start as int, end as int)),
{
    let ghost whole = s@.subrange(start as int, end as int);
    let mut acc: u64 = 0;
    let mut k: usize = start;
    while k < end
        invariant
            start <= k <= end <= s@.len(),
            whole == s@.subrange(start as int, end as int),
            all_digits(whole),
            acc == decimal_value(s@.subrange(start as int, k as int)),
        decreases end - k,
    {
        proof {
            assert(is_digit(whole[k - start]));
            assert(whole[k - start] == s@[k as int]);
            assert(s@.subrange(start as int, k + 1).drop_last() =~= s@.subrange(
                start as int,
                k as int,
            ));
        }
        let d = (s[k] - 48) as u64;
        if acc > 1844674407370955161 || (acc == 1844674407370955161 && d > 5) {
            proof {
                assert(decimal_value(s@.subrange(start as int, k + 1)) > u64::MAX);
                lemma_decimal_prefix_le(whole, k + 1 - start);
                assert(whole.subrange(0, k + 1 - start) =~= s@.subrange(start as int, k + 1));
            }
            return None;
        }
        acc = acc * 10 + d;
        k = k + 1;
    }
    Some(acc)
}

impl FieldElement {
    /// Parses an ASCII decimal numeral as a canonical field element.
    ///
    /// Succeeds exactly on a nonempty all-digit string whose value lies below
    /// the modulus.
    pub fn from_decimal(s: &[u8]) -> (r: Option<Self>)
        ensures
            r is Some <==> (s@.len() > 0 && all_digits(s@) && decimal_value(s@) < modulus()),
            r is Some ==> r->0.value() == decimal_value(s@) && r->0.inv(),
    {
        if s.len() == 0 {
            return None;
        }
        let mut acc = FieldElement::zero();
        let mut i: usize = 0;
        while i < s.len()
            invariant
                0 <= i <= s@.len(),
                acc.value() == decimal_value(s@.subrange(0, i as int)),
                all_digits(s@.subrange(0, i as int)),
            decreases s@.len() - i,
        {
            let b = s[i];
            if b < 48 || b > 57 {
                assert(!is_digit(s@[i as int]));
                return None;
            }
            let (acc2, carry) = acc.mul_small_add(10, (b - 48) as u64);
            proof {
                assert(s@.subrange(0, i + 1).drop_last() =~= s@.subrange(0, i as int));
            }
            if carry != 0 {
                proof {
                    assert(acc2.value() + carry * radix4() >= radix4());
                    if all_digits(s@) {
                        lemma_decimal_prefix_le(s@, i + 1);
                    }
                }
                return None;
            }
            acc = acc2;
            i = i + 1;
        }
        proof {
            assert(s@.subrange(0, s@.len() as int) =~= s@);
        }
        if acc.is_canonical() {
            Some(acc)
        } else {
            None
        }
    }
}

/// One limb of a multiply-and-add: `l * m + a`, split into a low limb and a carry.
fn limb_step(l: u64, m: u64, a: u64) -> (r: (u64, u64))
    requires
        m <= 0xffffffff,
        a <= 0xffffffff,
    ensures
        r.0 + r.1 * radix() == l * m + a,
        r.1 <= 0xffffffff,
{
    proof {
        assert((l as int) * (m as int) + (a as int) < (0x1000000000000000000000000 as int))
            by (nonlinear_arith)
            requires
                l <= (0xffffffffffffffff as u64),
                m <= (0xffffffff as u64),
                a <= (0xffffffff as u64),
        {
        }
    }
    let t: u128 = l as u128 * m as u128 + a as u128;
    let lo: u64 = (t % 0x10000000000000000) as u64;
    let hi: u64 = (t / 0x10000000000000000) as u64;
    proof {
        lemma_fundamental_div_mod(t as int, 0x10000000000000000);
        assert(hi <= 0xffffffff) by (nonlinear_arith)
            requires
                t < (0x1000000000000000000000000 as u128),
                hi == t as int / (0x10000000000000000 as int),
        {
        }
    }
    (lo, hi)
}

/// The limb-wise lexicographic order of a limb vector against the modulus
/// agrees with the order of the denoted values.
proof fn lemma_limb_order(f: FieldElement)
    ensures
        f.l3 < MODULUS_L3 ==> f.value() < modulus(),
        f.l3 > MODULUS_L3 ==> f.value() > modulus(),
        f.l3 == MODULUS_L3 && f.l2 < MODULUS_L2 ==> f.value() < modulus(),
        f.l3 == MODULUS_L3 && f.l2 > MODULUS_L2 ==> f.value() > modulus(),
        f.l3 == MODULUS_L3 && f.l2 == MODULUS_L2 && f.l1 < MODULUS_L1 ==> f.value() < modulus(),
        f.l3 == MODULUS_L3 && f.l2 == MODULUS_L2 && f.l1 > MODULUS_L1 ==> f.value() > modulus(),
        f.l3 == MODULUS_L3 && f.l2 == MODULUS_L2 && f.l1 == MODULUS_L1 ==> (f.value() < modulus()
            <==> f.l0 < MODULUS_L0),
{
    assert(modulus() == MODULUS_L0 + MODULUS_L1 * radix() + MODULUS_L2 * radix2() + MODULUS_L3
        * radix3());
}

} // verus!
