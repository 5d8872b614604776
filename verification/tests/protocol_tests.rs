use sumcheck::field::raise_to_power;
use sumcheck::field::FieldElement;
use sumcheck::hypercube::hypercube;
use sumcheck::hypercube::hypercube_evaluation;
use sumcheck::partial::degree_in_one_variable;
use sumcheck::partial::polynomial_partial_evaluate;
use sumcheck::poly::ConstructionError;
use sumcheck::poly::Monomial;
use sumcheck::poly::MultivariatePolynomial;
use sumcheck::protocol::run_sumcheck_protocol;
use sumcheck::protocol::run_sumcheck_with_claim;
use sumcheck::protocol::CheckFailure;
use sumcheck::protocol::Outcome;
use sumcheck::univariate::from_terms;
use sumcheck::univariate::univariate_hypercube_evaluate;

const P: u64 = 101;

fn fe(value: u64) -> FieldElement {
    FieldElement::from_integer(value, P)
}

fn poly(num_vars: usize, terms: Vec<(u64, Vec<(usize, usize)>)>) -> MultivariatePolynomial {
    let terms = terms
        .into_iter()
        .map(|(c, entries)| (fe(c), Monomial::new(entries)))
        .collect();
    MultivariatePolynomial::new(P, num_vars, terms).expect("well-formed polynomial")
}

/// The four-variable polynomial 2*x0^4 + 3*x1^4 + 5*x2^4 + 7*x3^4 + 17*x1
/// + 11*x0*x1*x2*x3 over the field of size 101.
fn four_variable_poly() -> MultivariatePolynomial {
    poly(
        4,
        vec![
            (2, vec![(0, 4)]),
            (3, vec![(1, 4)]),
            (5, vec![(2, 4)]),
            (7, vec![(3, 4)]),
            (17, vec![(1, 1)]),
            (11, vec![(0, 1), (1, 1), (2, 1), (3, 1)]),
        ],
    )
}

#[test]
fn test_raise_to_power() {
    assert_eq!(raise_to_power(fe(2), 5), fe(32));
}

#[test]
fn test_univariate_hypercube_evaluate() {
    let testpoly = from_terms(P, &vec![(0, fe(5)), (2, fe(1))]);
    assert_eq!(univariate_hypercube_evaluate(&testpoly), fe(11));
}

#[test]
fn test_power_laws() {
    // x^0 is one for every base, the zero of the field included.
    assert_eq!(raise_to_power(fe(7), 0), fe(1));
    assert_eq!(raise_to_power(fe(0), 0), fe(1));
    // x^1 is x.
    assert_eq!(raise_to_power(fe(7), 1), fe(7));
    assert_eq!(raise_to_power(fe(0), 1), fe(0));
    // Exponents add: x^(a+b) = x^a * x^b.
    let lhs = raise_to_power(fe(7), 3 + 4);
    let rhs = raise_to_power(fe(7), 3).mul(raise_to_power(fe(7), 4));
    assert_eq!(lhs, rhs);
}

#[test]
fn test_hypercube_enumeration() {
    // Dimension zero: the single empty assignment.
    let empty = hypercube(0, P);
    assert_eq!(empty.len(), 1);
    assert_eq!(empty[0].len(), 0);

    let one = hypercube(1, P);
    assert_eq!(one.len(), 2);
    assert_eq!(one[0], vec![fe(0)]);
    assert_eq!(one[1], vec![fe(1)]);

    let two = hypercube(2, P);
    assert_eq!(two.len(), 4);
    assert_eq!(two[0], vec![fe(0), fe(0)]);
    assert_eq!(two[1], vec![fe(0), fe(1)]);
    assert_eq!(two[2], vec![fe(1), fe(0)]);
    assert_eq!(two[3], vec![fe(1), fe(1)]);
}

#[test]
fn test_hypercube_sum_matches_brute_force() {
    // P = 3*x0*x1 + 2*x1 over two variables.
    let p = poly(2, vec![(3, vec![(0, 1), (1, 1)]), (2, vec![(1, 1)])]);
    // Brute force: an independent double loop over both coordinates.
    let mut expected: u64 = 0;
    for a in 0..2u64 {
        for b in 0..2u64 {
            expected = (expected + (3 * a * b + 2 * b)) % P;
        }
    }
    assert_eq!(expected, 7);
    assert_eq!(hypercube_evaluation(&p), fe(expected));
}

#[test]
fn test_hypercube_sum_four_variables() {
    // Brute-force sum of the end-to-end polynomial over all 16 points.
    let p = four_variable_poly();
    let mut expected: u64 = 0;
    for point in hypercube(4, P) {
        expected = (expected + p.evaluate(&point).value) % P;
    }
    assert_eq!(expected, 81);
    assert_eq!(hypercube_evaluation(&p), fe(81));
}

#[test]
fn test_partial_evaluate() {
    // P = 2*x0^3 + x0*x2 + x1*x2; free variable x0, with x1 = 1 and x2 = 1:
    // the univariate polynomial 2*X^3 + X + 1.
    let p = poly(
        3,
        vec![
            (2, vec![(0, 3)]),
            (1, vec![(0, 1), (2, 1)]),
            (1, vec![(1, 1), (2, 1)]),
        ],
    );
    let no_prefix: Vec<FieldElement> = vec![];
    let reduced = polynomial_partial_evaluate(&p, 0, &no_prefix, &vec![fe(1), fe(1)]);
    assert_eq!(reduced.degree(), 3);
    assert_eq!(reduced.evaluate(fe(0)), fe(1));
    assert_eq!(reduced.evaluate(fe(1)), fe(4));
    assert_eq!(reduced.evaluate(fe(2)), fe(19));
}

#[test]
fn test_degree_in_one_variable() {
    let p = four_variable_poly();
    assert_eq!(degree_in_one_variable(&p, 0), 4);
    assert_eq!(degree_in_one_variable(&p, 1), 4);
    assert_eq!(degree_in_one_variable(&p, 2), 4);
    assert_eq!(degree_in_one_variable(&p, 3), 4);
}

#[test]
fn test_degree_bound_understates() {
    // Known limitation of the heuristic: binding the other variables to one
    // can cancel terms. For P = x0^2*x1*x2 + 100*x0^2 (100 = -1 mod 101),
    // binding x1 = x2 = 1 gives x0^2 - x0^2 = 0, so the reported bound is 0,
    // though the true degree in x0 is 2 (bind x1 = 1, x2 = 0 to see it).
    let p = poly(3, vec![(1, vec![(0, 2), (1, 1), (2, 1)]), (100, vec![(0, 2)])]);
    assert_eq!(degree_in_one_variable(&p, 0), 0);
    let no_prefix: Vec<FieldElement> = vec![];
    let at_one_zero = polynomial_partial_evaluate(&p, 0, &no_prefix, &vec![fe(1), fe(0)]);
    assert_eq!(at_one_zero.degree(), 2);
    // The honest prover's round polynomial keeps degree 2, so the protocol
    // rejects an honest run of this polynomial at the degree check.
    let result = run_sumcheck_protocol(p, 7);
    assert_eq!(
        result.outcome,
        Outcome::Rejected { round: 0, reason: CheckFailure::DegreeBoundExceeded }
    );
}

#[test]
fn test_end_to_end() {
    for seed in [1u64, 7, 42, 1234, 99999] {
        let p = four_variable_poly();
        let result = run_sumcheck_protocol(p, seed);
        assert_eq!(result.outcome, Outcome::Accepted);
        assert_eq!(result.transcript.claimed_sum, fe(81));
        assert_eq!(result.transcript.round_polynomials.len(), 4);
        assert_eq!(result.transcript.challenges.len(), 4);
    }
}

#[test]
fn test_wrong_claim_rejected() {
    // A claim perturbed by any nonzero field element is rejected; over
    // repeated seeded trials rejection dominates (here: every trial).
    let mut rejections = 0;
    let mut trials = 0;
    for seed in 0..25u64 {
        for delta in [1u64, 2, 50, 100] {
            let p = four_variable_poly();
            let wrong = fe(81 + delta);
            let result = run_sumcheck_with_claim(p, wrong, seed);
            trials += 1;
            if result.outcome
                == (Outcome::Rejected { round: 0, reason: CheckFailure::SumMismatch })
            {
                rejections += 1;
            }
        }
    }
    assert_eq!(rejections, trials);
}

#[test]
fn test_true_claim_accepted() {
    let p = four_variable_poly();
    let claimed = hypercube_evaluation(&p);
    let result = run_sumcheck_with_claim(p, claimed, 3);
    assert_eq!(result.outcome, Outcome::Accepted);
}

#[test]
fn test_same_seed_same_challenges() {
    let first = run_sumcheck_protocol(four_variable_poly(), 11);
    let second = run_sumcheck_protocol(four_variable_poly(), 11);
    assert_eq!(first.transcript.challenges, second.transcript.challenges);
    assert_eq!(first.outcome, second.outcome);
}

#[test]
fn test_invalid_monomial() {
    // Variable index out of range.
    let r = MultivariatePolynomial::new(P, 2, vec![(fe(1), Monomial::new(vec![(5, 1)]))]);
    assert_eq!(r.unwrap_err(), ConstructionError::InvalidMonomial);
    // Zero exponent.
    let r = MultivariatePolynomial::new(P, 2, vec![(fe(1), Monomial::new(vec![(0, 0)]))]);
    assert_eq!(r.unwrap_err(), ConstructionError::InvalidMonomial);
    // Repeated variable.
    let r = MultivariatePolynomial::new(
        P,
        2,
        vec![(fe(1), Monomial::new(vec![(0, 1), (0, 2)]))],
    );
    assert_eq!(r.unwrap_err(), ConstructionError::InvalidMonomial);
}

#[test]
fn test_mismatched_modulus() {
    let alien = FieldElement::from_integer(1, 7);
    let r = MultivariatePolynomial::new(P, 1, vec![(alien, Monomial::new(vec![(0, 1)]))]);
    assert_eq!(r.unwrap_err(), ConstructionError::MismatchedModulus);
}

#[test]
fn test_field_arithmetic() {
    assert_eq!(fe(100).add(fe(2)), fe(1));
    assert_eq!(fe(1).sub(fe(2)), fe(100));
    assert_eq!(fe(50).mul(fe(3)), fe(49));
    assert_eq!(FieldElement::zero(P), fe(0));
    assert_eq!(FieldElement::one(P), fe(1));
    assert_eq!(fe(203), fe(1));
}
