//! Prime-field scalars: reduced residues with add, subtract, multiply and
//! exponentiation, the arithmetic the protocol's polynomials are built on.

use vstd::prelude::*;
use vstd::arithmetic::div_mod::lemma_add_mod_noop;
use vstd::arithmetic::div_mod::lemma_mod_add_multiples_vanish;
use vstd::arithmetic::div_mod::lemma_mul_mod_noop_general;
use vstd::arithmetic::div_mod::lemma_mul_mod_noop_left;
use vstd::arithmetic::div_mod::lemma_small_mod;
use vstd::arithmetic::power::lemma_pow0;
use vstd::arithmetic::power::lemma_pow1;
use vstd::arithmetic::power::lemma_pow_adds;
use vstd::arithmetic::power::pow;

verus! {

/// Moduli the library supports: at least 2, and small enough that the sum and
/// the product of two reduced values fit in a `u64`.
pub open spec fn valid_modulus(m: u64) -> bool {
    2 <= m && m < 0x1_0000_0000u64
}

/// An element of the integers modulo `modulus` — a finite field when the
/// modulus is prime. Values are kept reduced: `value < modulus`.
#[derive(Clone, Copy, Debug, PartialEq, Eq, Structural)]
pub struct FieldElement {
    pub value: u64,
    pub modulus: u64,
}

/// The integer values of a sequence of field elements.
pub open spec fn fe_values(s: Seq<FieldElement>) -> Seq<int> {
    s.map_values(|x: FieldElement| x.value as int)
}

/// Every element of the sequence is reduced and lives modulo `m`.
pub open spec fn all_wf(s: Seq<FieldElement>, m: u64) -> bool {
    forall|i: int| 0 <= i < s.len() ==> (#[trigger] s[i]).wf() && s[i].modulus == m
}

pub(crate) fn add_mod(a: u64, b: u64, m: u64) -> (r: u64)
    requires
        valid_modulus(m),
        a < m,
        b < m,
    ensures
        r < m,
        r as int == (a + b) % (m as int),
{
    (a + b) % m
}

pub(crate) fn mul_mod(a: u64, b: u64, m: u64) -> (r: u64)
    requires
        valid_modulus(m),
        a < m,
        b < m,
    ensures
        r < m,
        r as int == (a as int * b as int) % (m as int),
{
    proof {
        assert(a as int * b as int <= 0xffff_ffffint * 0xffff_ffffint) by (nonlinear_arith)
            requires
                a as int <= 0xffff_ffffint,
                b as int <= 0xffff_ffffint,
                0 <= a as int,
                0 <= b as int,
        ;
    }
    (a * b) % m
}

impl FieldElement {
    /// The element is reduced and its modulus is one the library supports.
    pub open spec fn wf(self) -> bool {
        valid_modulus(self.modulus) && self.value < self.modulus
    }

    /// The additive identity.
    pub fn zero(modulus: u64) -> (r: FieldElement)
        requires
            valid_modulus(modulus),
        ensures
            r.wf(),
            r.modulus == modulus,
            r.value == 0,
    {
        FieldElement { value: 0, modulus }
    }

    /// The multiplicative identity.
    pub fn one(modulus: u64) -> (r: FieldElement)
        requires
            valid_modulus(modulus),
        ensures
            r.wf(),
            r.modulus == modulus,
            r.value == 1,
    {
        FieldElement { value: 1, modulus }
    }

    /// The canonical embedding of a machine integer into the field.
    pub fn from_integer(value: u64, modulus: u64) -> (r: FieldElement)
        requires
            valid_modulus(modulus),
        ensures
            r.wf(),
            r.modulus == modulus,
            r.value as int == value as int % modulus as int,
    {
        FieldElement { value: value % modulus, modulus }
    }

    pub fn add(self, other: FieldElement) -> (r: FieldElement)
        requires
            self.wf(),
            other.wf(),
            other.modulus == self.modulus,
        ensures
            r.wf(),
            r.modulus == self.modulus,
            r.value as int == (self.value + other.value) % (self.modulus as int),
    {
        FieldElement { value: add_mod(self.value, other.value, self.modulus), modulus: self.modulus }
    }

    pub fn sub(self, other: FieldElement) -> (r: FieldElement)
        requires
            self.wf(),
            other.wf(),
            other.modulus == self.modulus,
        ensures
            r.wf(),
            r.modulus == self.modulus,
            r.value as int == (self.value - other.value) % (self.modulus as int),
    {
        let m = self.modulus;
        let negated: u64 = if other.value == 0 { 0 } else { m - other.value };
        proof {
            if other.value != 0 {
                lemma_mod_add_multiples_vanish(self.value - other.value, m as int);
            }
        }
        let v = add_mod(self.value, negated, m);
        FieldElement { value: v, modulus: m }
    }

    pub fn mul(self, other: FieldElement) -> (r: FieldElement)
        requires
            self.wf(),
            other.wf(),
            other.modulus == self.modulus,
        ensures
            r.wf(),
            r.modulus == self.modulus,
            r.value as int == (self.value as int * other.value as int) % (self.modulus as int),
    {
        FieldElement { value: mul_mod(self.value, other.value, self.modulus), modulus: self.modulus }
    }
}

/// Raises a field element to a non-negative integer power by repeated
/// multiplication. The zeroth power is the multiplicative identity for every
/// base, the zero of the field included; negative powers are excluded by the
/// unsigned exponent type.
pub fn raise_to_power(input: FieldElement, power: usize) -> (r: FieldElement)
    requires
        input.wf(),
    ensures
        r.wf(),
        r.modulus == input.modulus,
        r.value as int == pow(input.value as int, power as nat) % (input.modulus as int),
{
    let m = input.modulus;
    let v = input.value;
    let mut output: u64 = 1;
    let mut i: usize = 0;
    proof {
        lemma_pow0(v as int);
        lemma_small_mod(1nat, m as nat);
    }
    while i < power
        invariant
            input.wf(),
            m == input.modulus,
            v == input.value,
            i <= power,
            output < m,
            output as int == pow(v as int, i as nat) % (m as int),
        decreases power - i,
    {
        proof {
            lemma_pow_adds(v as int, i as nat, 1nat);
            lemma_pow1(v as int);
            lemma_mul_mod_noop_left(pow(v as int, i as nat), v as int, m as int);
        }
        output = mul_mod(output, v, m);
        i = i + 1;
    }
    FieldElement { value: output, modulus: m }
}

/// Laws of exponentiation, stated over the specification `raise_to_power`
/// returns its result in: the zeroth power is one for every base, the first
/// power is the base itself, and exponents add — x^(a+b) = x^a * x^b, taken
/// modulo m since the library keeps values reduced.
pub proof fn lemma_raise_to_power_laws(x: int, a: nat, b: nat, m: int)
    requires
        m >= 2,
    ensures
        pow(x, 0) == 1,
        pow(x, 1) == x,
        pow(x, a + b) % m == ((pow(x, a) % m) * (pow(x, b) % m)) % m,
{
    lemma_pow0(x);
    lemma_pow1(x);
    lemma_pow_adds(x, a, b);
    lemma_mul_mod_noop_general(pow(x, a), pow(x, b), m);
}

} // verus!
