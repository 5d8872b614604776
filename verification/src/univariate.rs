//! Univariate polynomials over the integers modulo m, stored as a dense
//! coefficient vector indexed by exponent: the sparse exponent-to-coefficient
//! view of the protocol holds zero at every exponent the vector does not
//! reach. Supports addition, scaling by a field element, evaluation, and
//! degree (the highest exponent with a nonzero coefficient; the zero
//! polynomial has degree zero by convention).

use vstd::prelude::*;
use vstd::arithmetic::div_mod::lemma_add_mod_noop;
use vstd::arithmetic::div_mod::lemma_mod_twice;
use vstd::arithmetic::div_mod::lemma_mul_mod_noop_right;
use vstd::arithmetic::div_mod::lemma_small_mod;
use vstd::arithmetic::mul::lemma_mul_is_distributive_add;
use vstd::arithmetic::power::lemma_pow0;
use vstd::arithmetic::power::pow;
use crate::field::add_mod;
use crate::field::mul_mod;
use crate::field::valid_modulus;
use crate::field::FieldElement;

verus! {

/// The coefficient of x^e in a dense coefficient sequence: zero wherever the
/// sequence does not reach.
pub open spec fn coeff_of(s: Seq<int>, e: int) -> int {
    if 0 <= e < s.len() {
        s[e]
    } else {
        0
    }
}

/// The integer value of a dense coefficient sequence at x, by Horner's rule.
pub open spec fn uni_eval_int(s: Seq<int>, x: int) -> int
    decreases s.len(),
{
    if s.len() == 0 {
        0
    } else {
        s[0] + x * uni_eval_int(s.subrange(1, s.len() as int), x)
    }
}

/// All coefficients past the first, or the empty sequence.
pub open spec fn tail_of(s: Seq<int>) -> Seq<int> {
    if s.len() == 0 {
        s
    } else {
        s.subrange(1, s.len() as int)
    }
}

/// The degree of a dense coefficient sequence: the highest exponent holding a
/// nonzero coefficient, and zero for the zero polynomial.
pub open spec fn uni_degree_spec(s: Seq<int>) -> nat
    decreases s.len(),
{
    if s.len() == 0 {
        0
    } else if s.last() != 0 {
        (s.len() - 1) as nat
    } else {
        uni_degree_spec(s.drop_last())
    }
}

/// The dense coefficient sequence of the single term c * x^pw.
pub open spec fn single_coeffs(pw: nat, c: int) -> Seq<int> {
    Seq::new(pw + 1, |e: int| if e == pw { c } else { 0 })
}

proof fn lemma_tail_coeff(s: Seq<int>, e: int)
    requires
        e >= 0,
    ensures
        coeff_of(tail_of(s), e) == coeff_of(s, e + 1),
{
}

proof fn lemma_eval_unfold(s: Seq<int>, x: int)
    ensures
        uni_eval_int(s, x) == coeff_of(s, 0) + x * uni_eval_int(tail_of(s), x),
{
}

/// Evaluation is linear in the coefficients: a sequence whose coefficients
/// are, modulo m, the sums of two others' evaluates, modulo m, to the sum of
/// their values.
pub proof fn lemma_eval_coeffwise_sum(a: Seq<int>, b: Seq<int>, c: Seq<int>, x: int, m: int)
    requires
        m >= 2,
        forall|e: int| coeff_of(c, e) % m == (coeff_of(a, e) + coeff_of(b, e)) % m,
    ensures
        uni_eval_int(c, x) % m == (uni_eval_int(a, x) + uni_eval_int(b, x)) % m,
    decreases a.len() + b.len() + c.len(),
{
    if a.len() == 0 && b.len() == 0 && c.len() == 0 {
    } else {
        let ta = tail_of(a);
        let tb = tail_of(b);
        let tc = tail_of(c);
        assert forall|e: int| coeff_of(tc, e) % m == (coeff_of(ta, e) + coeff_of(tb, e)) % m by {
            if e >= 0 {
                lemma_tail_coeff(a, e);
                lemma_tail_coeff(b, e);
                lemma_tail_coeff(c, e);
                assert(coeff_of(c, e + 1) % m == (coeff_of(a, e + 1) + coeff_of(b, e + 1)) % m);
            }
        }
        lemma_eval_coeffwise_sum(ta, tb, tc, x, m);
        lemma_eval_unfold(a, x);
        lemma_eval_unfold(b, x);
        lemma_eval_unfold(c, x);
        let a0 = coeff_of(a, 0);
        let b0 = coeff_of(b, 0);
        let c0 = coeff_of(c, 0);
        let ea = uni_eval_int(ta, x);
        let eb = uni_eval_int(tb, x);
        let ec = uni_eval_int(tc, x);
        lemma_mul_mod_noop_right(x, ec, m);
        lemma_mul_mod_noop_right(x, ea + eb, m);
        assert((x * ec) % m == (x * (ea + eb)) % m);
        lemma_add_mod_noop(c0, x * ec, m);
        lemma_add_mod_noop(a0 + b0, x * (ea + eb), m);
        assert(c0 % m == (a0 + b0) % m);
        lemma_mul_is_distributive_add(x, ea, eb);
        assert(uni_eval_int(c, x) % m == (a0 + b0 + x * (ea + eb)) % m);
    }
}

/// The value of the single term c * x^pw.
pub proof fn lemma_eval_single_term(pw: nat, c: int, x: int)
    ensures
        uni_eval_int(single_coeffs(pw, c), x) == c * pow(x, pw),
    decreases pw,
{
    let s = single_coeffs(pw, c);
    if pw == 0 {
        lemma_pow0(x);
        assert(s.len() == 1);
        assert(uni_eval_int(s, x) == s[0] + x * uni_eval_int(s.subrange(1, 1), x));
        assert(uni_eval_int(s.subrange(1, 1), x) == 0);
    } else {
        lemma_eval_single_term((pw - 1) as nat, c, x);
        assert(s.subrange(1, s.len() as int) =~= single_coeffs((pw - 1) as nat, c));
        assert(s[0] == 0);
        reveal(pow);
        assert(pow(x, pw) == x * pow(x, (pw - 1) as nat));
        assert(x * (c * pow(x, (pw - 1) as nat)) == c * (x * pow(x, (pw - 1) as nat)))
            by (nonlinear_arith);
    }
}

/// A univariate polynomial over the integers modulo `modulus`, dense in its
/// coefficients, all kept reduced.
#[derive(Debug, PartialEq, Eq)]
pub struct UnivariatePolynomial {
    pub coeffs: Vec<u64>,
    pub modulus: u64,
}

impl View for UnivariatePolynomial {
    type V = Seq<int>;

    open spec fn view(&self) -> Seq<int> {
        self.coeffs@.map_values(|c: u64| c as int)
    }
}

impl UnivariatePolynomial {
    /// The polynomial's representation invariant: a supported modulus and
    /// reduced coefficients.
    pub open spec fn wf(self) -> bool {
        &&& valid_modulus(self.modulus)
        &&& forall|i: int| 0 <= i < self.coeffs@.len() ==> (#[trigger] self.coeffs@[i]) < self.modulus
    }

    /// The zero polynomial.
    pub fn zero(modulus: u64) -> (r: UnivariatePolynomial)
        requires
            valid_modulus(modulus),
        ensures
            r.wf(),
            r.modulus == modulus,
            r@ == Seq::<int>::empty(),
            r@.len() == 0,
    {
        let r = UnivariatePolynomial { coeffs: Vec::new(), modulus };
        proof {
            assert(r@ =~= Seq::<int>::empty());
        }
        r
    }

    /// The polynomial coeff * x^exponent.
    pub fn from_term(exponent: usize, coeff: FieldElement) -> (r: UnivariatePolynomial)
        requires
            coeff.wf(),
            exponent < usize::MAX,
        ensures
            r.wf(),
            r.modulus == coeff.modulus,
            r@ == single_coeffs(exponent as nat, coeff.value as int),
    {
        let mut coeffs: Vec<u64> = Vec::new();
        let mut i: usize = 0;
        while i < exponent
            invariant
                i <= exponent,
                coeffs@.len() == i,
                forall|j: int| 0 <= j < i ==> coeffs@[j] == 0,
            decreases exponent - i,
        {
            coeffs.push(0);
            i = i + 1;
        }
        coeffs.push(coeff.value);
        let r = UnivariatePolynomial { coeffs, modulus: coeff.modulus };
        proof {
            assert(r@ =~= single_coeffs(exponent as nat, coeff.value as int));
        }
        r
    }

    /// Coefficient-wise sum of two polynomials over the same modulus.
    pub fn add(&self, other: &UnivariatePolynomial) -> (r: UnivariatePolynomial)
        requires
            self.wf(),
            other.wf(),
            other.modulus == self.modulus,
        ensures
            r.wf(),
            r.modulus == self.modulus,
            r@.len() == if self@.len() >= other@.len() {
                self@.len()
            } else {
                other@.len()
            },
            forall|e: int| coeff_of(r@, e) == (coeff_of(self@, e) + coeff_of(other@, e)) % (
            self.modulus as int),
    {
        let m = self.modulus;
        let la = self.coeffs.len();
        let lb = other.coeffs.len();
        let lmax = if la >= lb {
            la
        } else {
            lb
        };
        let mut coeffs: Vec<u64> = Vec::new();
        let mut e: usize = 0;
        while e < lmax
            invariant
                self.wf(),
                other.wf(),
                m == self.modulus,
                m == other.modulus,
                la == self.coeffs@.len(),
                lb == other.coeffs@.len(),
                lmax == if la >= lb {
                    la
                } else {
                    lb
                },
                e <= lmax,
                coeffs@.len() == e,
                forall|j: int|
                    0 <= j < e ==> coeffs@[j] < m && (#[trigger] coeffs@[j]) as int == (coeff_of(
                        self@,
                        j,
                    ) + coeff_of(other@, j)) % (m as int),
            decreases lmax - e,
        {
            let av: u64 = if e < la {
                self.coeffs[e]
            } else {
                0
            };
            let bv: u64 = if e < lb {
                other.coeffs[e]
            } else {
                0
            };
            proof {
                assert(av as int == coeff_of(self@, e as int));
                assert(bv as int == coeff_of(other@, e as int));
            }
            coeffs.push(add_mod(av, bv, m));
            e = e + 1;
        }
        let r = UnivariatePolynomial { coeffs, modulus: m };
        proof {
            assert forall|j: int|
                coeff_of(r@, j) == (coeff_of(self@, j) + coeff_of(other@, j)) % (m as int) by {
                if !(0 <= j < lmax as int) {
                    lemma_small_mod(0nat, m as nat);
                }
            }
        }
        r
    }

    /// The polynomial scaled by a field element, coefficient by coefficient.
    pub fn scale(&self, factor: FieldElement) -> (r: UnivariatePolynomial)
        requires
            self.wf(),
            factor.wf(),
            factor.modulus == self.modulus,
        ensures
            r.wf(),
            r.modulus == self.modulus,
            r@.len() == self@.len(),
            forall|e: int| coeff_of(r@, e) == (factor.value as int * coeff_of(self@, e)) % (
            self.modulus as int),
    {
        let m = self.modulus;
        let l = self.coeffs.len();
        let mut coeffs: Vec<u64> = Vec::new();
        let mut e: usize = 0;
        while e < l
            invariant
                self.wf(),
                m == self.modulus,
                factor.wf(),
                factor.modulus == m,
                l == self.coeffs@.len(),
                e <= l,
                coeffs@.len() == e,
                forall|j: int|
                    0 <= j < e ==> coeffs@[j] < m && (#[trigger] coeffs@[j]) as int == (
                    factor.value as int * coeff_of(self@, j)) % (m as int),
            decreases l - e,
        {
            coeffs.push(mul_mod(factor.value, self.coeffs[e], m));
            e = e + 1;
        }
        let r = UnivariatePolynomial { coeffs, modulus: m };
        proof {
            assert forall|j: int|
                coeff_of(r@, j) == (factor.value as int * coeff_of(self@, j)) % (m as int) by {
                if !(0 <= j < l as int) {
                    lemma_small_mod(0nat, m as nat);
                }
            }
        }
        r
    }

    /// Evaluates the polynomial at a point of the same field.
    pub fn evaluate(&self, point: FieldElement) -> (r: FieldElement)
        requires
            self.wf(),
            point.wf(),
            point.modulus == self.modulus,
        ensures
            r.wf(),
            r.modulus == self.modulus,
            r.value as int == uni_eval_int(self@, point.value as int) % (self.modulus as int),
    {
        let m = self.modulus;
        let x = point.value;
        let l = self.coeffs.len();
        let mut acc: u64 = 0;
        let mut j: usize = l;
        proof {
            lemma_small_mod(0nat, m as nat);
            assert(self@.subrange(l as int, l as int) =~= Seq::<int>::empty());
        }
        while j > 0
            invariant
                self.wf(),
                m == self.modulus,
                x == point.value,
                x < m,
                l == self.coeffs@.len(),
                j <= l,
                acc < m,
                acc as int == uni_eval_int(self@.subrange(j as int, l as int), x as int) % (
                m as int),
            decreases j,
    {
            let c = self.coeffs[j - 1];
            proof {
                let whole = self@.subrange(j - 1, l as int);
                let rest = self@.subrange(j as int, l as int);
                assert(whole.subrange(1, whole.len() as int) =~= rest);
                assert(whole[0] == self@[j - 1]);
                let er = uni_eval_int(rest, x as int);
                lemma_mul_mod_noop_right(x as int, er, m as int);
                lemma_add_mod_noop(c as int, x as int * er, m as int);
                lemma_small_mod(c as nat, m as nat);
            }
            acc = add_mod(c, mul_mod(x, acc, m), m);
            j = j - 1;
        }
        proof {
            assert(self@.subrange(0, l as int) =~= self@);
        }
        FieldElement { value: acc, modulus: m }
    }

    /// The degree: the highest exponent with a nonzero coefficient, and zero
    /// for the zero polynomial.
    pub fn degree(&self) -> (r: usize)
        requires
            self.wf(),
        ensures
            r as nat == uni_degree_spec(self@),
    {
        let l = self.coeffs.len();
        let mut j: usize = l;
        proof {
            assert(self@.take(l as int) =~= self@);
        }
        while j > 0
            invariant
                l == self.coeffs@.len(),
                j <= l,
                uni_degree_spec(self@) == uni_degree_spec(self@.take(j as int)),
            decreases j,
        {
            proof {
                let cur = self@.take(j as int);
                assert(cur.last() == self@[j - 1]);
                assert(cur.drop_last() =~= self@.take(j - 1));
            }
            if self.coeffs[j - 1] != 0 {
                return j - 1;
            }
            j = j - 1;
        }
        proof {
            assert(self@.take(0) =~= Seq::<int>::empty());
        }
        0
    }
}

/// The integer coefficient of x^e described by a sparse list of
/// (exponent, coefficient) pairs: the sum of the values paired with e.
pub open spec fn pairs_coeff_int(pairs: Seq<(usize, FieldElement)>, e: int) -> int
    decreases pairs.len(),
{
    if pairs.len() == 0 {
        0
    } else {
        pairs_coeff_int(pairs.drop_last(), e) + (if pairs.last().0 == e {
            pairs.last().1.value as int
        } else {
            0
        })
    }
}

/// Builds a univariate polynomial from sparse (exponent, coefficient) pairs,
/// combining like exponents by summing their coefficients.
pub fn from_terms(modulus: u64, terms: &Vec<(usize, FieldElement)>) -> (r: UnivariatePolynomial)
    requires
        valid_modulus(modulus),
        forall|i: int|
            0 <= i < terms@.len() ==> (#[trigger] terms@[i]).1.wf() && terms@[i].1.modulus
                == modulus && terms@[i].0 < usize::MAX,
    ensures
        r.wf(),
        r.modulus == modulus,
        forall|e: int| coeff_of(r@, e) == pairs_coeff_int(terms@, e) % (modulus as int),
{
    let m = modulus;
    let ghost mi = m as int;
    let count = terms.len();
    let mut output = UnivariatePolynomial::zero(m);
    let mut i: usize = 0;
    proof {
        lemma_small_mod(0nat, m as nat);
        assert(terms@.take(0) =~= Seq::<(usize, FieldElement)>::empty());
        assert forall|e: int| coeff_of(output@, e) == pairs_coeff_int(terms@.take(0), e) % mi by {
            assert(coeff_of(output@, e) == 0);
        }
    }
    while i < count
        invariant
            valid_modulus(m),
            mi == m as int,
            count == terms@.len(),
            forall|a: int|
                0 <= a < terms@.len() ==> (#[trigger] terms@[a]).1.wf() && terms@[a].1.modulus == m
                    && terms@[a].0 < usize::MAX,
            i <= count,
            output.wf(),
            output.modulus == m,
            forall|e: int|
                coeff_of(output@, e) == pairs_coeff_int(terms@.take(i as int), e) % mi,
        decreases count - i,
    {
        let ghost prefix = terms@.take(i as int);
        let ghost next = terms@.take(i + 1);
        proof {
            assert(next.drop_last() =~= prefix);
            assert(next.last() == terms@[i as int]);
        }
        let (exponent, coefficient) = terms[i];
        let single = UnivariatePolynomial::from_term(exponent, coefficient);
        let new_output = output.add(&single);
        proof {
            assert forall|e: int| coeff_of(new_output@, e) == pairs_coeff_int(next, e) % mi by {
                let p = pairs_coeff_int(prefix, e);
                lemma_mod_twice(p, mi);
                if e == exponent {
                    assert(coeff_of(single@, e) == coefficient.value as int);
                    lemma_small_mod(coefficient.value as nat, m as nat);
                    lemma_add_mod_noop(p, coefficient.value as int, mi);
                } else {
                    assert(coeff_of(single@, e) == 0);
                    lemma_small_mod(0nat, m as nat);
                    lemma_add_mod_noop(p, 0, mi);
                }
            }
        }
        output = new_output;
        i = i + 1;
    }
    proof {
        assert(terms@.take(count as int) =~= terms@);
    }
    output
}

/// The sum of the polynomial's values at zero and at one: what the verifier
/// holds a round polynomial against its target with.
pub fn univariate_hypercube_evaluate(polynomial: &UnivariatePolynomial) -> (r: FieldElement)
    requires
        polynomial.wf(),
    ensures
        r.wf(),
        r.modulus == polynomial.modulus,
        r.value as int == (uni_eval_int(polynomial@, 0) + uni_eval_int(polynomial@, 1)) % (
        polynomial.modulus as int),
{
    let m = polynomial.modulus;
    let at_zero = polynomial.evaluate(FieldElement::zero(m));
    let at_one = polynomial.evaluate(FieldElement::one(m));
    proof {
        lemma_add_mod_noop(uni_eval_int(polynomial@, 0), uni_eval_int(polynomial@, 1), m as int);
    }
    at_zero.add(at_one)
}

} // verus!
