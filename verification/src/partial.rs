//! Partial evaluation: reducing a multivariate polynomial to a univariate
//! polynomial in one free variable, every other variable bound to a fixed
//! value, and the degree-bound heuristic built on it.

use vstd::prelude::*;
use vstd::arithmetic::div_mod::lemma_add_mod_noop;
use vstd::arithmetic::div_mod::lemma_mod_twice;
use vstd::arithmetic::div_mod::lemma_mul_mod_noop_general;
use vstd::arithmetic::div_mod::lemma_mul_mod_noop_left;
use vstd::arithmetic::div_mod::lemma_mul_mod_noop_right;
use vstd::arithmetic::div_mod::lemma_small_mod;
use vstd::arithmetic::mul::lemma_mul_is_associative;
use vstd::arithmetic::power::lemma_pow0;
use vstd::arithmetic::power::pow;
use crate::field::all_wf;
use crate::field::fe_values;
use crate::field::mul_mod;
use crate::field::valid_modulus;
use crate::field::FieldElement;
use crate::field::raise_to_power;
use crate::poly::mono_eval_int;
use crate::poly::mono_wf;
use crate::poly::poly_eval_int;
use crate::poly::Monomial;
use crate::poly::MultivariatePolynomial;
use crate::univariate::coeff_of;
use crate::univariate::lemma_eval_coeffwise_sum;
use crate::univariate::lemma_eval_single_term;
use crate::univariate::single_coeffs;
use crate::univariate::uni_degree_spec;
use crate::univariate::uni_eval_int;
use crate::univariate::UnivariatePolynomial;

verus! {

/// The exponent a monomial gives the free variable `k`, zero when the
/// monomial does not name it.
pub open spec fn free_exponent(entries: Seq<(usize, usize)>, k: int) -> nat
    decreases entries.len(),
{
    if entries.len() == 0 {
        0
    } else if entries.last().0 == k {
        entries.last().1 as nat
    } else {
        free_exponent(entries.drop_last(), k)
    }
}

/// The product of a monomial's bound factors: each variable other than the
/// free one, raised to its exponent at its fixed value; variables below the
/// free index read from `pre`, those above it from `suf`.
pub open spec fn fixed_product_int(
    entries: Seq<(usize, usize)>,
    k: int,
    pre: Seq<int>,
    suf: Seq<int>,
) -> int
    decreases entries.len(),
{
    if entries.len() == 0 {
        1
    } else {
        let e = entries.last();
        fixed_product_int(entries.drop_last(), k, pre, suf) * (if e.0 < k {
            pow(pre[e.0 as int], e.1 as nat)
        } else if e.0 == k {
            1
        } else {
            pow(suf[e.0 - k - 1], e.1 as nat)
        })
    }
}

/// One above the largest exponent the free variable takes over the term
/// list: the length of the dense coefficient vector of the partial
/// evaluation.
pub open spec fn partial_len(terms: Seq<(FieldElement, Monomial)>, k: int) -> nat
    decreases terms.len(),
{
    if terms.len() == 0 {
        0
    } else {
        let rest = partial_len(terms.drop_last(), k);
        let this = free_exponent(terms.last().1.entries@, k) + 1;
        if rest >= this {
            rest
        } else {
            this
        }
    }
}

/// The integer coefficient of x^e in the partial evaluation: the sum, over
/// the terms whose monomial gives the free variable the exponent e, of the
/// term's coefficient times its bound factors.
pub open spec fn partial_coeff_int(
    terms: Seq<(FieldElement, Monomial)>,
    k: int,
    pre: Seq<int>,
    suf: Seq<int>,
    e: int,
) -> int
    decreases terms.len(),
{
    if terms.len() == 0 {
        0
    } else {
        partial_coeff_int(terms.drop_last(), k, pre, suf, e) + (if free_exponent(
            terms.last().1.entries@,
            k,
        ) == e {
            (terms.last().0.value as int) * fixed_product_int(terms.last().1.entries@, k, pre, suf)
        } else {
            0
        })
    }
}

/// The dense, reduced coefficient vector of the partial evaluation.
pub open spec fn partial_coeffs_spec(
    terms: Seq<(FieldElement, Monomial)>,
    k: int,
    pre: Seq<int>,
    suf: Seq<int>,
    m: u64,
) -> Seq<int> {
    Seq::new(partial_len(terms, k), |e: int| partial_coeff_int(terms, k, pre, suf, e) % (m as int))
}

/// A sequence of the given length holding the integer one everywhere.
pub open spec fn ones(c: nat) -> Seq<int> {
    Seq::new(c, |i: int| 1)
}

/// What `degree_in_one_variable` returns: the degree of the partial
/// evaluation of the polynomial in variable `k` with every other variable
/// bound to one.
pub open spec fn degree_bound_spec(
    terms: Seq<(FieldElement, Monomial)>,
    k: int,
    num_vars: int,
    m: u64,
) -> nat {
    uni_degree_spec(partial_coeffs_spec(terms, k, ones(k as nat), ones((num_vars - k - 1) as nat), m))
}

/// A monomial naming no entry for variable `k` gives it exponent zero.
proof fn lemma_free_exp_absent(entries: Seq<(usize, usize)>, k: int)
    requires
        forall|i: int| 0 <= i < entries.len() ==> (#[trigger] entries[i]).0 != k,
    ensures
        free_exponent(entries, k) == 0,
    decreases entries.len(),
{
    if entries.len() > 0 {
        assert(entries.last() == entries[entries.len() - 1]);
        lemma_free_exp_absent(entries.drop_last(), k);
    }
}

/// The value of a monomial at a point assembled as prefix, free value, and
/// suffix is its bound factors times the free value raised to its exponent.
proof fn lemma_mono_split(
    entries: Seq<(usize, usize)>,
    k: int,
    pre: Seq<int>,
    suf: Seq<int>,
    t: int,
)
    requires
        0 <= k,
        pre.len() == k,
        mono_wf(entries, pre.len() as int + 1 + suf.len() as int),
    ensures
        mono_eval_int(entries, pre + seq![t] + suf) == fixed_product_int(entries, k, pre, suf)
            * pow(t, free_exponent(entries, k)),
    decreases entries.len(),
{
    let point = pre + seq![t] + suf;
    if entries.len() == 0 {
        lemma_pow0(t);
    } else {
        let rest = entries.drop_last();
        let e = entries.last();
        assert(e == entries[entries.len() - 1]);
        assert(mono_wf(rest, pre.len() as int + 1 + suf.len() as int));
        lemma_mono_split(rest, k, pre, suf, t);
        let fr = free_exponent(rest, k);
        let prodr = fixed_product_int(rest, k, pre, suf);
        if e.0 < k {
            assert(point[e.0 as int] == pre[e.0 as int]);
            let f = pow(pre[e.0 as int], e.1 as nat);
            assert((prodr * pow(t, fr)) * f == (prodr * f) * pow(t, fr)) by (nonlinear_arith);
        } else if e.0 == k {
            assert(point[k] == t);
            assert forall|i: int| 0 <= i < rest.len() implies (#[trigger] rest[i]).0 != k by {
                assert(entries[i].0 != entries[entries.len() - 1].0);
            }
            lemma_free_exp_absent(rest, k);
            lemma_pow0(t);
            assert(mono_eval_int(rest, point) == prodr);
            assert(free_exponent(entries, k) == e.1 as nat);
            assert(fixed_product_int(entries, k, pre, suf) == prodr * 1);
        } else {
            assert(point[e.0 as int] == suf[e.0 - k - 1]);
            let f = pow(suf[e.0 - k - 1], e.1 as nat);
            assert((prodr * pow(t, fr)) * f == (prodr * f) * pow(t, fr)) by (nonlinear_arith);
        }
    }
}

/// Partially evaluates one monomial: every bound variable folds into a
/// scalar, and the free variable keeps its exponent, yielding the univariate
/// polynomial (bound product) * x^(free exponent). The monomial's own
/// coefficient is not part of it and is applied by the caller.
fn monomial_partial_evaluate(
    monomial: &Monomial,
    missing_coordinate: usize,
    coordinates_part_1: &Vec<FieldElement>,
    coordinates_part_2: &Vec<FieldElement>,
    modulus: u64,
) -> (r: UnivariatePolynomial)
    requires
        valid_modulus(modulus),
        coordinates_part_1@.len() == missing_coordinate,
        mono_wf(
            monomial.entries@,
            coordinates_part_1@.len() as int + 1 + coordinates_part_2@.len() as int,
        ),
        all_wf(coordinates_part_1@, modulus),
        all_wf(coordinates_part_2@, modulus),
    ensures
        r.wf(),
        r.modulus == modulus,
        r@ == single_coeffs(
            free_exponent(monomial.entries@, missing_coordinate as int),
            fixed_product_int(
                monomial.entries@,
                missing_coordinate as int,
                fe_values(coordinates_part_1@),
                fe_values(coordinates_part_2@),
            ) % (modulus as int),
        ),
{
    let m = modulus;
    let k = missing_coordinate;
    let ghost pre = fe_values(coordinates_part_1@);
    let ghost suf = fe_values(coordinates_part_2@);
    let n = monomial.entries.len();
    let mut coefficient: u64 = 1;
    let mut power: usize = 0;
    let mut i: usize = 0;
    proof {
        lemma_small_mod(1nat, m as nat);
    }
    while i < n
        invariant
            valid_modulus(m),
            n == monomial.entries@.len(),
            coordinates_part_1@.len() == k,
            mono_wf(monomial.entries@, coordinates_part_1@.len() as int + 1 + coordinates_part_2@.len() as int),
            all_wf(coordinates_part_1@, m),
            all_wf(coordinates_part_2@, m),
            pre == fe_values(coordinates_part_1@),
            suf == fe_values(coordinates_part_2@),
            i <= n,
            coefficient < m,
            coefficient as int == fixed_product_int(
                monomial.entries@.take(i as int),
                k as int,
                pre,
                suf,
            ) % (m as int),
            power < usize::MAX,
            power as nat == free_exponent(monomial.entries@.take(i as int), k as int),
        decreases n - i,
    {
        let (var, exp) = monomial.entries[i];
        proof {
            let prefix = monomial.entries@.take(i as int);
            let next = monomial.entries@.take(i + 1);
            assert(next.drop_last() =~= prefix);
            assert(next.last() == monomial.entries@[i as int]);
        }
        if var < k {
            let factor = raise_to_power(coordinates_part_1[var], exp);
            proof {
                assert(pre[var as int] == coordinates_part_1@[var as int].value as int);
                lemma_mul_mod_noop_general(
                    fixed_product_int(monomial.entries@.take(i as int), k as int, pre, suf),
                    pow(pre[var as int], exp as nat),
                    m as int,
                );
            }
            coefficient = mul_mod(coefficient, factor.value, m);
        } else if var == k {
            proof {
                assert(monomial.entries@[i as int].1 < usize::MAX);
            }
            power = exp;
        } else {
            let factor = raise_to_power(coordinates_part_2[var - k - 1], exp);
            proof {
                assert(suf[var - k - 1] == coordinates_part_2@[var - k - 1].value as int);
                lemma_mul_mod_noop_general(
                    fixed_product_int(monomial.entries@.take(i as int), k as int, pre, suf),
                    pow(suf[var - k - 1], exp as nat),
                    m as int,
                );
            }
            coefficient = mul_mod(coefficient, factor.value, m);
        }
        i = i + 1;
    }
    proof {
        assert(monomial.entries@.take(n as int) =~= monomial.entries@);
    }
    UnivariatePolynomial::from_term(power, FieldElement { value: coefficient, modulus: m })
}

/// Partially evaluates a multivariate polynomial in the variable at
/// `missing_coordinate`: variables below it are bound to
/// `coordinates_part_1`, variables above it to `coordinates_part_2`, and like
/// exponents of the free variable are combined by summing coefficients. The
/// result, read at any value t of the free variable, equals the whole
/// polynomial read at the assembled point.
pub fn polynomial_partial_evaluate(
    polynomial: &MultivariatePolynomial,
    missing_coordinate: usize,
    coordinates_part_1: &Vec<FieldElement>,
    coordinates_part_2: &Vec<FieldElement>,
) -> (r: UnivariatePolynomial)
    requires
        polynomial.wf(),
        missing_coordinate < polynomial.num_vars,
        coordinates_part_1@.len() == missing_coordinate,
        coordinates_part_2@.len() == polynomial.num_vars - missing_coordinate - 1,
        all_wf(coordinates_part_1@, polynomial.modulus),
        all_wf(coordinates_part_2@, polynomial.modulus),
    ensures
        r.wf(),
        r.modulus == polynomial.modulus,
        r@ == partial_coeffs_spec(
            polynomial.terms@,
            missing_coordinate as int,
            fe_values(coordinates_part_1@),
            fe_values(coordinates_part_2@),
            polynomial.modulus,
        ),
        forall|t: int|
            uni_eval_int(r@, t) % (polynomial.modulus as int) == poly_eval_int(
                polynomial.terms@,
                fe_values(coordinates_part_1@) + seq![t] + fe_values(coordinates_part_2@),
            ) % (polynomial.modulus as int),
{
    let m = polynomial.modulus;
    let k = missing_coordinate;
    let ghost pre = fe_values(coordinates_part_1@);
    let ghost suf = fe_values(coordinates_part_2@);
    let count = polynomial.terms.len();
    let mut output = UnivariatePolynomial::zero(m);
    let mut i: usize = 0;
    proof {
        lemma_small_mod(0nat, m as nat);
        assert(0int % (m as int) == 0int);
        assert(polynomial.terms@.take(0) =~= Seq::<(FieldElement, Monomial)>::empty());
        assert forall|e: int| coeff_of(output@, e) == partial_coeff_int(
            polynomial.terms@.take(0),
            k as int,
            pre,
            suf,
            e,
        ) % (m as int) by {
            assert(coeff_of(output@, e) == 0);
        }
    }
    while i < count
        invariant
            polynomial.wf(),
            m == polynomial.modulus,
            k == missing_coordinate,
            k < polynomial.num_vars,
            count == polynomial.terms@.len(),
            coordinates_part_1@.len() == k,
            coordinates_part_2@.len() == polynomial.num_vars - k - 1,
            all_wf(coordinates_part_1@, m),
            all_wf(coordinates_part_2@, m),
            pre == fe_values(coordinates_part_1@),
            suf == fe_values(coordinates_part_2@),
            i <= count,
            output.wf(),
            output.modulus == m,
            output@.len() == partial_len(polynomial.terms@.take(i as int), k as int),
            forall|e: int|
                coeff_of(output@, e) == partial_coeff_int(
                    polynomial.terms@.take(i as int),
                    k as int,
                    pre,
                    suf,
                    e,
                ) % (m as int),
            forall|t: int|
                uni_eval_int(output@, t) % (m as int) == poly_eval_int(
                    polynomial.terms@.take(i as int),
                    pre + seq![t] + suf,
                ) % (m as int),
        decreases count - i,
    {
        let ghost prefix = polynomial.terms@.take(i as int);
        let ghost next = polynomial.terms@.take(i + 1);
        proof {
            assert(next.drop_last() =~= prefix);
            assert(next.last() == polynomial.terms@[i as int]);
        }
        let c = polynomial.terms[i].0;
        let mono_poly = monomial_partial_evaluate(
            &polynomial.terms[i].1,
            k,
            coordinates_part_1,
            coordinates_part_2,
            m,
        );
        let scaled = mono_poly.scale(c);
        let ghost fe = free_exponent(polynomial.terms@[i as int].1.entries@, k as int);
        let ghost fprod = fixed_product_int(
            polynomial.terms@[i as int].1.entries@,
            k as int,
            pre,
            suf,
        );
        let ghost cv = c.value as int;
        proof {
            // The scaled monomial polynomial is the single reduced term
            // ((c * fprod) % m) * x^fe.
            assert(mono_poly@ == single_coeffs(fe, fprod % (m as int)));
            assert forall|e: int| coeff_of(scaled@, e) == coeff_of(
                single_coeffs(fe, (cv * fprod) % (m as int)),
                e,
            ) by {
                let mi = m as int;
                assert(coeff_of(scaled@, e) == (cv * coeff_of(mono_poly@, e)) % mi);
                lemma_mul_mod_noop_right(cv, fprod, mi);
                lemma_small_mod(0nat, m as nat);
                if e == fe {
                    assert(coeff_of(mono_poly@, e) == fprod % mi);
                    assert((cv * (fprod % mi)) % mi == (cv * fprod) % mi);
                } else {
                    assert(coeff_of(mono_poly@, e) == 0);
                    assert(coeff_of(scaled@, e) == 0int % mi);
                }
            }
            assert forall|e: int| 0 <= e < scaled@.len() implies scaled@[e] == single_coeffs(
                fe,
                (cv * fprod) % (m as int),
            )[e] by {
                assert(coeff_of(scaled@, e) == coeff_of(
                    single_coeffs(fe, (cv * fprod) % (m as int)),
                    e,
                ));
            }
            assert(scaled@ =~= single_coeffs(fe, (cv * fprod) % (m as int)));
        }
        let new_output = output.add(&scaled);
        proof {
            let mi = m as int;
            // Coefficient-level invariant.
            assert forall|e: int| coeff_of(new_output@, e) == partial_coeff_int(
                next,
                k as int,
                pre,
                suf,
                e,
            ) % mi by {
                let pc = partial_coeff_int(prefix, k as int, pre, suf, e);
                lemma_mod_twice(pc, mi);
                lemma_mod_twice((cv * fprod) % mi, mi);
                if e == fe {
                    lemma_add_mod_noop(pc, cv * fprod, mi);
                } else {
                    lemma_add_mod_noop(pc, 0, mi);
                    lemma_small_mod(0nat, m as nat);
                }
            }
            // Length invariant.
            assert(new_output@.len() == partial_len(next, k as int));
            // Semantic invariant.
            assert forall|t: int| uni_eval_int(new_output@, t) % mi == poly_eval_int(
                next,
                pre + seq![t] + suf,
            ) % mi by {
                let point = pre + seq![t] + suf;
                assert forall|e: int| coeff_of(new_output@, e) % mi == (coeff_of(output@, e)
                    + coeff_of(scaled@, e)) % mi by {
                    lemma_mod_twice(coeff_of(output@, e) + coeff_of(scaled@, e), mi);
                }
                lemma_eval_coeffwise_sum(output@, scaled@, new_output@, t, mi);
                lemma_eval_single_term(fe, (cv * fprod) % mi, t);
                lemma_mono_split(
                    polynomial.terms@[i as int].1.entries@,
                    k as int,
                    pre,
                    suf,
                    t,
                );
                let pw = pow(t, fe);
                lemma_mul_mod_noop_left(cv * fprod, pw, mi);
                lemma_mul_is_associative(cv, fprod, pw);
                // (eval(output) + eval(scaled)) % m == (E + c * mono) % m
                lemma_add_mod_noop(uni_eval_int(output@, t), uni_eval_int(scaled@, t), mi);
                lemma_add_mod_noop(poly_eval_int(prefix, point), cv * (fprod * pw), mi);
                assert(uni_eval_int(scaled@, t) % mi == (cv * (fprod * pw)) % mi);
                assert(uni_eval_int(output@, t) % mi == poly_eval_int(prefix, point) % mi);
            }
        }
        output = new_output;
        i = i + 1;
    }
    proof {
        assert(polynomial.terms@.take(count as int) =~= polynomial.terms@);
        let goal = partial_coeffs_spec(polynomial.terms@, k as int, pre, suf, m);
        assert forall|e: int| 0 <= e < output@.len() implies output@[e] == goal[e] by {
            assert(coeff_of(output@, e) == partial_coeff_int(polynomial.terms@, k as int, pre, suf, e)
                % (m as int));
        }
        assert(output@ =~= goal);
    }
    output
}

/// Estimates the polynomial's degree in one variable by binding every other
/// variable to one and reading the resulting univariate degree. A heuristic:
/// binding to one can cancel terms and understate the true degree, but the
/// verifier's degree check is defined over exactly this value.
pub fn degree_in_one_variable(polynomial: &MultivariatePolynomial, missing_coordinate: usize) -> (r:
    usize)
    requires
        polynomial.wf(),
        missing_coordinate < polynomial.num_vars,
    ensures
        r as nat == degree_bound_spec(
            polynomial.terms@,
            missing_coordinate as int,
            polynomial.num_vars as int,
            polynomial.modulus,
        ),
{
    let m = polynomial.modulus;
    let mut coordinates_part_1: Vec<FieldElement> = Vec::new();
    let mut i: usize = 0;
    while i < missing_coordinate
        invariant
            valid_modulus(m),
            i <= missing_coordinate,
            coordinates_part_1@.len() == i,
            all_wf(coordinates_part_1@, m),
            forall|a: int| 0 <= a < i ==> (#[trigger] coordinates_part_1@[a]).value == 1,
        decreases missing_coordinate - i,
    {
        coordinates_part_1.push(FieldElement::one(m));
        i = i + 1;
    }
    proof {
        assert forall|a: int| 0 <= a < coordinates_part_1@.len() implies fe_values(
            coordinates_part_1@,
        )[a] == 1 by {
            assert(fe_values(coordinates_part_1@)[a] == coordinates_part_1@[a].value as int);
        }
        assert(fe_values(coordinates_part_1@) =~= ones(missing_coordinate as nat));
    }
    let suffix_len = polynomial.num_vars - missing_coordinate - 1;
    let mut coordinates_part_2: Vec<FieldElement> = Vec::new();
    let mut j: usize = 0;
    while j < suffix_len
        invariant
            valid_modulus(m),
            j <= suffix_len,
            coordinates_part_2@.len() == j,
            all_wf(coordinates_part_2@, m),
            forall|a: int| 0 <= a < j ==> (#[trigger] coordinates_part_2@[a]).value == 1,
        decreases suffix_len - j,
    {
        coordinates_part_2.push(FieldElement::one(m));
        j = j + 1;
    }
    proof {
        assert forall|a: int| 0 <= a < coordinates_part_2@.len() implies fe_values(
            coordinates_part_2@,
        )[a] == 1 by {
            assert(fe_values(coordinates_part_2@)[a] == coordinates_part_2@[a].value as int);
        }
        assert(fe_values(coordinates_part_2@) =~= ones(suffix_len as nat));
    }
    let reduced = polynomial_partial_evaluate(
        polynomial,
        missing_coordinate,
        &coordinates_part_1,
        &coordinates_part_2,
    );
    reduced.degree()
}

} // verus!
