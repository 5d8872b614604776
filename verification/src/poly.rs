//! Sparse multivariate polynomials: a declared variable count and a list of
//! (coefficient, monomial) terms, with evaluation at a point.

use vstd::prelude::*;
use vstd::arithmetic::div_mod::lemma_mul_mod_noop_general;
use vstd::arithmetic::div_mod::lemma_add_mod_noop;
use vstd::arithmetic::div_mod::lemma_small_mod;
use vstd::arithmetic::power::pow;
use crate::field::add_mod;
use crate::field::all_wf;
use crate::field::fe_values;
use crate::field::mul_mod;
use crate::field::raise_to_power;
use crate::field::valid_modulus;
use crate::field::FieldElement;

verus! {

/// A product of variables raised to positive powers: an ordered list of
/// (variable index, exponent) pairs, one per distinct variable.
#[derive(Debug, PartialEq, Eq)]
pub struct Monomial {
    pub entries: Vec<(usize, usize)>,
}

/// Why constructing a polynomial was refused.
#[derive(Clone, Copy, Debug, PartialEq, Eq, Structural)]
pub enum ConstructionError {
    /// A monomial names a variable index at or above the declared variable
    /// count, repeats a variable, or carries an exponent of zero or one too
    /// large to index a coefficient vector.
    InvalidMonomial,
    /// A coefficient is not a reduced value modulo the declared modulus.
    MismatchedModulus,
}

/// A monomial is well formed for `num_vars` variables: every index is in
/// range, every exponent is at least one and leaves room to index a dense
/// coefficient vector, and no variable repeats.
pub open spec fn mono_wf(entries: Seq<(usize, usize)>, num_vars: int) -> bool {
    &&& forall|i: int|
        0 <= i < entries.len() ==> (#[trigger] entries[i]).0 < num_vars && entries[i].1 >= 1
            && entries[i].1 < usize::MAX
    &&& forall|i: int, j: int|
        0 <= i < j < entries.len() ==> (#[trigger] entries[i]).0 != (#[trigger] entries[j]).0
}

/// The integer value of a monomial at a point: the product, over its entries,
/// of the entry's coordinate raised to the entry's exponent.
pub open spec fn mono_eval_int(entries: Seq<(usize, usize)>, point: Seq<int>) -> int
    decreases entries.len(),
{
    if entries.len() == 0 {
        1
    } else {
        mono_eval_int(entries.drop_last(), point) * pow(
            point[entries.last().0 as int],
            entries.last().1 as nat,
        )
    }
}

/// The integer value of a term list at a point: the sum, over its terms, of
/// the coefficient times the monomial's value.
pub open spec fn poly_eval_int(terms: Seq<(FieldElement, Monomial)>, point: Seq<int>) -> int
    decreases terms.len(),
{
    if terms.len() == 0 {
        0
    } else {
        poly_eval_int(terms.drop_last(), point) + (terms.last().0.value as int) * mono_eval_int(
            terms.last().1.entries@,
            point,
        )
    }
}

/// A sparse multivariate polynomial over the integers modulo `modulus`,
/// immutable once constructed.
#[derive(Debug, PartialEq, Eq)]
pub struct MultivariatePolynomial {
    pub num_vars: usize,
    pub terms: Vec<(FieldElement, Monomial)>,
    pub modulus: u64,
}

/// Every term has a reduced coefficient modulo `m` and a monomial that is
/// well formed for `num_vars` variables.
pub open spec fn terms_wf(terms: Seq<(FieldElement, Monomial)>, num_vars: int, m: u64) -> bool {
    forall|i: int|
        0 <= i < terms.len() ==> (#[trigger] terms[i]).0.wf() && terms[i].0.modulus == m
            && mono_wf(terms[i].1.entries@, num_vars)
}

impl Monomial {
    /// Wraps an entry list as a monomial; validation happens when the
    /// monomial is taken into a polynomial.
    pub fn new(entries: Vec<(usize, usize)>) -> (r: Monomial)
        ensures
            r.entries@ == entries@,
    {
        Monomial { entries }
    }
}

/// Checks that one monomial is well formed for `num_vars` variables.
fn check_monomial(mono: &Monomial, num_vars: usize) -> (r: bool)
    ensures
        r == mono_wf(mono.entries@, num_vars as int),
{
    let n = mono.entries.len();
    let mut i: usize = 0;
    while i < n
        invariant
            n == mono.entries.len(),
            i <= n,
            forall|a: int|
                0 <= a < i ==> (#[trigger] mono.entries@[a]).0 < num_vars
                    && mono.entries@[a].1 >= 1 && mono.entries@[a].1 < usize::MAX,
            forall|a: int, b: int|
                0 <= a < b < i ==> (#[trigger] mono.entries@[a]).0 != (#[trigger] mono.entries@[b]).0,
        decreases n - i,
    {
        let (var, exp) = mono.entries[i];
        if var >= num_vars || exp == 0 || exp == usize::MAX {
            return false;
        }
        let mut j: usize = 0;
        while j < i
            invariant
                n == mono.entries.len(),
                i < n,
                j <= i,
                var == mono.entries@[i as int].0,
                forall|a: int| 0 <= a < j ==> (#[trigger] mono.entries@[a]).0 != var,
            decreases i - j,
        {
            if mono.entries[j].0 == var {
                return false;
            }
            j = j + 1;
        }
        i = i + 1;
    }
    true
}

impl MultivariatePolynomial {
    /// The polynomial's representation invariant.
    pub open spec fn wf(self) -> bool {
        &&& valid_modulus(self.modulus)
        &&& terms_wf(self.terms@, self.num_vars as int, self.modulus)
    }

    /// Builds a polynomial, refusing malformed input at the boundary: a
    /// monomial with an out-of-range index, a repeated variable or a zero
    /// exponent is an `InvalidMonomial`; a coefficient that is not reduced
    /// modulo `modulus` is a `MismatchedModulus`.
    pub fn new(modulus: u64, num_vars: usize, terms: Vec<(FieldElement, Monomial)>) -> (r: Result<
        MultivariatePolynomial,
        ConstructionError,
    >)
        requires
            valid_modulus(modulus),
        ensures
            match r {
                Ok(p) => {
                    &&& p.modulus == modulus
                    &&& p.num_vars == num_vars
                    &&& p.terms@ == terms@
                    &&& p.wf()
                },
                Err(e) => {
                    &&& !terms_wf(terms@, num_vars as int, modulus)
                    &&& (e == ConstructionError::InvalidMonomial <==> exists|i: int|
                        0 <= i < terms@.len() && !mono_wf(
                            (#[trigger] terms@[i]).1.entries@,
                            num_vars as int,
                        ))
                },
            },
    {
        let k = terms.len();
        let mut i: usize = 0;
        while i < k
            invariant
                k == terms.len(),
                i <= k,
                forall|a: int|
                    0 <= a < i ==> mono_wf((#[trigger] terms@[a]).1.entries@, num_vars as int),
            decreases k - i,
        {
            if !check_monomial(&terms[i].1, num_vars) {
                return Err(ConstructionError::InvalidMonomial);
            }
            i = i + 1;
        }
        let mut j: usize = 0;
        while j < k
            invariant
                valid_modulus(modulus),
                k == terms.len(),
                j <= k,
                forall|a: int|
                    0 <= a < k ==> mono_wf((#[trigger] terms@[a]).1.entries@, num_vars as int),
                forall|a: int|
                    0 <= a < j ==> (#[trigger] terms@[a]).0.wf() && terms@[a].0.modulus == modulus,
            decreases k - j,
        {
            let c = terms[j].0;
            if c.modulus != modulus || c.value >= modulus {
                return Err(ConstructionError::MismatchedModulus);
            }
            j = j + 1;
        }
        Ok(MultivariatePolynomial { num_vars, terms, modulus })
    }

    /// The number of variables the polynomial is declared over.
    pub fn variable_count(&self) -> (r: usize)
        ensures
            r == self.num_vars,
    {
        self.num_vars
    }

    /// Evaluates the polynomial at a point, one coordinate per variable.
    pub fn evaluate(&self, point: &Vec<FieldElement>) -> (r: FieldElement)
        requires
            self.wf(),
            point@.len() == self.num_vars,
            all_wf(point@, self.modulus),
        ensures
            r.wf(),
            r.modulus == self.modulus,
            r.value as int == poly_eval_int(self.terms@, fe_values(point@)) % (self.modulus as int),
    {
        let m = self.modulus;
        let k = self.terms.len();
        let mut acc: u64 = 0;
        let mut i: usize = 0;
        proof {
            lemma_small_mod(0nat, m as nat);
        }
        while i < k
            invariant
                self.wf(),
                m == self.modulus,
                k == self.terms.len(),
                point@.len() == self.num_vars,
                all_wf(point@, m),
                i <= k,
                acc < m,
                acc as int == poly_eval_int(self.terms@.take(i as int), fe_values(point@)) % (
                m as int),
            decreases k - i,
        {
            let c = self.terms[i].0;
            let mv = monomial_evaluate(&self.terms[i].1, point, m);
            let prod = mul_mod(c.value, mv, m);
            proof {
                let vals = fe_values(point@);
                let pref = self.terms@.take(i as int);
                let next = self.terms@.take(i + 1);
                assert(next.drop_last() =~= pref);
                assert(next.last() == self.terms@[i as int]);
                let cv = c.value as int;
                let me = mono_eval_int(self.terms@[i as int].1.entries@, vals);
                // prod == (c * (me % m)) % m == (c * me) % m
                lemma_mul_mod_noop_general(cv, me, m as int);
                // acc + prod == (E % m + (c*me) % m) % m == (E + c*me) % m
                lemma_add_mod_noop(poly_eval_int(pref, vals), cv * me, m as int);
            }
            acc = add_mod(acc, prod, m);
            i = i + 1;
        }
        proof {
            assert(self.terms@.take(k as int) =~= self.terms@);
        }
        FieldElement { value: acc, modulus: m }
    }
}

/// Evaluates a monomial at a point: the product of each named coordinate
/// raised to its exponent. A monomial carries no coefficient of its own.
pub fn monomial_evaluate(monomial: &Monomial, coordinates: &Vec<FieldElement>, modulus: u64) -> (r:
    u64)
    requires
        valid_modulus(modulus),
        mono_wf(monomial.entries@, coordinates@.len() as int),
        all_wf(coordinates@, modulus),
    ensures
        r < modulus,
        r as int == mono_eval_int(monomial.entries@, fe_values(coordinates@)) % (modulus as int),
{
    let m = modulus;
    let n = monomial.entries.len();
    let mut acc: u64 = 1;
    let mut i: usize = 0;
    proof {
        lemma_small_mod(1nat, m as nat);
    }
    while i < n
        invariant
            valid_modulus(m),
            n == monomial.entries.len(),
            mono_wf(monomial.entries@, coordinates@.len() as int),
            all_wf(coordinates@, m),
            i <= n,
            acc < m,
            acc as int == mono_eval_int(monomial.entries@.take(i as int), fe_values(coordinates@))
                % (m as int),
        decreases n - i,
    {
        let (var, exp) = monomial.entries[i];
        let factor = raise_to_power(coordinates[var], exp);
        proof {
            let vals = fe_values(coordinates@);
            let pref = monomial.entries@.take(i as int);
            let next = monomial.entries@.take(i + 1);
            assert(next.drop_last() =~= pref);
            assert(next.last() == monomial.entries@[i as int]);
            assert(vals[var as int] == coordinates@[var as int].value as int);
            lemma_mul_mod_noop_general(
                mono_eval_int(pref, vals),
                pow(vals[var as int], exp as nat),
                m as int,
            );
        }
        acc = mul_mod(acc, factor.value, m);
        i = i + 1;
    }
    proof {
        assert(monomial.entries@.take(n as int) =~= monomial.entries@);
    }
    acc
}

} // verus!
