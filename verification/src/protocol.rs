//! The prover, the verifier, and the round-per-variable state machine that
//! drives the sum-check protocol to an Accept or Reject outcome.

use vstd::prelude::*;
use vstd::arithmetic::div_mod::lemma_add_mod_noop;
use vstd::arithmetic::div_mod::lemma_mod_twice;
use vstd::arithmetic::power2::pow2;
use crate::field::all_wf;
use crate::field::fe_values;
use crate::field::valid_modulus;
use crate::field::FieldElement;
use crate::hypercube::cube_point;
use crate::hypercube::cube_sum_int;
use crate::hypercube::hypercube;
use crate::hypercube::hypercube_evaluation;
use crate::hypercube::lemma_cube_sum_split;
use crate::partial::degree_bound_spec;
use crate::partial::polynomial_partial_evaluate;
use crate::partial::degree_in_one_variable;
use crate::poly::poly_eval_int;
use crate::poly::MultivariatePolynomial;
use crate::rng::chacha_from_seed;
use crate::rng::chacha_next_u64;
use crate::univariate::lemma_eval_coeffwise_sum;
use crate::univariate::uni_degree_spec;
use crate::univariate::uni_eval_int;
use crate::univariate::univariate_hypercube_evaluate;
use crate::univariate::UnivariatePolynomial;

verus! {

/// The sum of the polynomial's evaluations over its whole boolean hypercube:
/// the value an honest prover claims.
pub open spec fn true_sum_int(p: MultivariatePolynomial) -> int {
    cube_sum_int(p.terms@, Seq::<int>::empty(), pow2(p.num_vars as nat), p.num_vars as nat)
}

/// The round polynomial `g` is the honest message for round `i` given the
/// challenges drawn so far: read at any value t of the round's variable, it
/// is the sum of the polynomial over the hypercube on the remaining
/// variables, the first i variables bound to the challenges.
pub open spec fn honest_message(
    p: MultivariatePolynomial,
    chals: Seq<int>,
    i: int,
    g: Seq<int>,
) -> bool {
    forall|t: int|
        uni_eval_int(g, t) % (p.modulus as int) == cube_sum_int(
            p.terms@,
            chals.take(i).push(t),
            pow2((p.num_vars - i - 1) as nat),
            (p.num_vars - i - 1) as nat,
        ) % (p.modulus as int)
}

/// The prover: owns the target polynomial and emits one univariate
/// polynomial per round, a pure function of the challenges received so far.
pub struct Prover {
    pub polynomial: MultivariatePolynomial,
}

impl Prover {
    /// The round message: the partial evaluation of the polynomial in the
    /// next unbound variable, the earlier variables bound to the challenges,
    /// summed over every hypercube assignment of the later variables. In the
    /// last round the hypercube has dimension zero — its single empty
    /// assignment makes that round the plain partial evaluation.
    pub fn message(&self, random_challenges: &Vec<FieldElement>) -> (r: UnivariatePolynomial)
        requires
            self.polynomial.wf(),
            self.polynomial.num_vars <= 30,
            random_challenges@.len() < self.polynomial.num_vars,
            all_wf(random_challenges@, self.polynomial.modulus),
        ensures
            r.wf(),
            r.modulus == self.polynomial.modulus,
            forall|t: int|
                uni_eval_int(r@, t) % (self.polynomial.modulus as int) == cube_sum_int(
                    self.polynomial.terms@,
                    fe_values(random_challenges@).push(t),
                    pow2((self.polynomial.num_vars - random_challenges@.len() - 1) as nat),
                    (self.polynomial.num_vars - random_challenges@.len() - 1) as nat,
                ) % (self.polynomial.modulus as int),
    {
        let m = self.polynomial.modulus;
        let rounds_done = random_challenges.len();
        let slen = self.polynomial.num_vars - rounds_done - 1;
        let ghost chals = fe_values(random_challenges@);
        let ghost terms = self.polynomial.terms@;
        let ghost mi = m as int;
        let points = hypercube(slen, m);
        let mut output = UnivariatePolynomial::zero(m);
        let mut i: usize = 0;
        proof {
            vstd::arithmetic::div_mod::lemma_small_mod(0nat, m as nat);
        }
        while i < points.len()
            invariant
                self.polynomial.wf(),
                m == self.polynomial.modulus,
                mi == m as int,
                terms == self.polynomial.terms@,
                chals == fe_values(random_challenges@),
                rounds_done == random_challenges@.len(),
                rounds_done < self.polynomial.num_vars,
                self.polynomial.num_vars <= 30,
                all_wf(random_challenges@, m),
                slen == self.polynomial.num_vars - rounds_done - 1,
                points@.len() == pow2(slen as nat),
                forall|a: int|
                    0 <= a < points@.len() ==> (#[trigger] points@[a])@.len() == slen && all_wf(
                        points@[a]@,
                        m,
                    ) && fe_values(points@[a]@) == cube_point(a, slen as nat),
                i <= points@.len(),
                output.wf(),
                output.modulus == m,
                forall|t: int|
                    uni_eval_int(output@, t) % mi == cube_sum_int(
                        terms,
                        chals.push(t),
                        i as nat,
                        slen as nat,
                    ) % mi,
            decreases points@.len() - i,
        {
            let q = polynomial_partial_evaluate(
                &self.polynomial,
                rounds_done,
                random_challenges,
                &points[i],
            );
            let new_output = output.add(&q);
            proof {
                assert forall|t: int|
                    uni_eval_int(new_output@, t) % mi == cube_sum_int(
                        terms,
                        chals.push(t),
                        (i + 1) as nat,
                        slen as nat,
                    ) % mi by {
                    assert forall|e: int|
                        crate::univariate::coeff_of(new_output@, e) % mi == (
                        crate::univariate::coeff_of(output@, e) + crate::univariate::coeff_of(
                            q@,
                            e,
                        )) % mi by {
                        lemma_mod_twice(
                            crate::univariate::coeff_of(output@, e) + crate::univariate::coeff_of(
                                q@,
                                e,
                            ),
                            mi,
                        );
                    }
                    lemma_eval_coeffwise_sum(output@, q@, new_output@, t, mi);
                    assert(chals + seq![t] + fe_values(points@[i as int]@) =~= chals.push(t)
                        + cube_point(i as int, slen as nat));
                    assert(uni_eval_int(q@, t) % mi == poly_eval_int(
                        terms,
                        chals.push(t) + cube_point(i as int, slen as nat),
                    ) % mi);
                    lemma_add_mod_noop(uni_eval_int(output@, t), uni_eval_int(q@, t), mi);
                    lemma_add_mod_noop(
                        cube_sum_int(terms, chals.push(t), i as nat, slen as nat),
                        poly_eval_int(terms, chals.push(t) + cube_point(i as int, slen as nat)),
                        mi,
                    );
                }
            }
            output = new_output;
            i = i + 1;
        }
        output
    }
}

/// The verifier: owns the seeded challenge source and draws one uniformly
/// reduced field value per round. The final direct-evaluation check reads the
/// same polynomial the prover owns — a deliberate simplification of scope in
/// place of an evaluation oracle or commitment — so this type holds only the
/// randomness and the field's modulus.
pub struct Verifier {
    pub rng: rand_chacha::ChaCha20Rng,
    pub modulus: u64,
}

impl Verifier {
    /// Draws one random challenge, reduced into the field.
    pub fn message(&mut self) -> (r: FieldElement)
        requires
            valid_modulus(old(self).modulus),
        ensures
            final(self).modulus == old(self).modulus,
            r.wf(),
            r.modulus == old(self).modulus,
    {
        let raw = chacha_next_u64(&mut self.rng);
        FieldElement::from_integer(raw, self.modulus)
    }
}

/// Which of the verifier's checks a rejection came from.
#[derive(Clone, Copy, Debug, PartialEq, Eq, Structural)]
pub enum CheckFailure {
    /// The round polynomial's values at zero and one do not sum to the
    /// round's target.
    SumMismatch,
    /// The round polynomial's degree exceeds the degree bound.
    DegreeBoundExceeded,
    /// The last round polynomial, read at the last challenge, differs from
    /// the polynomial evaluated at all the challenges.
    FinalEvaluationMismatch,
}

/// The protocol's verdict. A rejection is a result the state machine can
/// reach, not a software fault: it carries the failing round and which check
/// failed there.
#[derive(Clone, Copy, Debug, PartialEq, Eq, Structural)]
pub enum Outcome {
    Accepted,
    Rejected { round: usize, reason: CheckFailure },
}

/// The record of one run: the claimed sum, every round polynomial the prover
/// sent, and every challenge the verifier answered with.
pub struct Transcript {
    pub claimed_sum: FieldElement,
    pub round_polynomials: Vec<UnivariatePolynomial>,
    pub challenges: Vec<FieldElement>,
}

/// A terminal verdict together with the full transcript that produced it.
pub struct ProtocolResult {
    pub outcome: Outcome,
    pub transcript: Transcript,
}

/// Runs the protocol against an explicit claimed sum, drawing challenges
/// from a generator seeded with `seed`. The prover is honest; only the claim
/// may be wrong.
///
/// Soundness against a wrong claim is exact here, not merely statistical: a
/// claimed sum other than the true hypercube sum is rejected in round zero,
/// whatever challenges would have been drawn. With the true claim, the run
/// accepts exactly when every round polynomial meets the degree bound
/// heuristic; the sum checks and the final evaluation check of an honest
/// prover never fail.
pub fn run_sumcheck_with_claim(
    polynomial: MultivariatePolynomial,
    claimed_sum: FieldElement,
    seed: u64,
) -> (r: ProtocolResult)
    requires
        polynomial.wf(),
        1 <= polynomial.num_vars <= 30,
        claimed_sum.wf(),
        claimed_sum.modulus == polynomial.modulus,
    ensures
        r.transcript.claimed_sum == claimed_sum,
        r.transcript.round_polynomials@.len() <= polynomial.num_vars,
        r.transcript.challenges@.len() <= polynomial.num_vars,
        all_wf(r.transcript.challenges@, polynomial.modulus),
        forall|j: int|
            0 <= j < r.transcript.round_polynomials@.len() ==> (#[trigger] r.transcript.round_polynomials@[j]).wf()
                && r.transcript.round_polynomials@[j].modulus == polynomial.modulus
                && honest_message(
                polynomial,
                fe_values(r.transcript.challenges@),
                j,
                r.transcript.round_polynomials@[j]@,
            ),
        claimed_sum.value as int != true_sum_int(polynomial) % (polynomial.modulus as int)
            ==> r.outcome == (Outcome::Rejected { round: 0, reason: CheckFailure::SumMismatch })
            && r.transcript.round_polynomials@.len() == 1 && r.transcript.challenges@.len() == 0,
        claimed_sum.value as int == true_sum_int(polynomial) % (polynomial.modulus as int)
            ==> match r.outcome {
            Outcome::Accepted => r.transcript.round_polynomials@.len() == polynomial.num_vars
                && r.transcript.challenges@.len() == polynomial.num_vars && forall|j: int|
                0 <= j < polynomial.num_vars ==> uni_degree_spec(
                    (#[trigger] r.transcript.round_polynomials@[j])@,
                ) <= degree_bound_spec(
                    polynomial.terms@,
                    j,
                    polynomial.num_vars as int,
                    polynomial.modulus,
                ),
            Outcome::Rejected { round, reason } => reason == CheckFailure::DegreeBoundExceeded
                && round < polynomial.num_vars && r.transcript.round_polynomials@.len() == round
                + 1 && r.transcript.challenges@.len() == round && uni_degree_spec(
                r.transcript.round_polynomials@[round as int]@,
            ) > degree_bound_spec(
                polynomial.terms@,
                round as int,
                polynomial.num_vars as int,
                polynomial.modulus,
            ) && forall|j: int|
                0 <= j < round ==> uni_degree_spec(
                    (#[trigger] r.transcript.round_polynomials@[j])@,
                ) <= degree_bound_spec(
                    polynomial.terms@,
                    j,
                    polynomial.num_vars as int,
                    polynomial.modulus,
                ),
        },
{
    let m = polynomial.modulus;
    let n = polynomial.num_vars;
    let ghost terms = polynomial.terms@;
    let ghost mi = m as int;
    let prover = Prover { polynomial };
    let mut verifier = Verifier { rng: chacha_from_seed(seed), modulus: m };
    let mut round_polynomials: Vec<UnivariatePolynomial> = Vec::new();
    let mut challenges: Vec<FieldElement> = Vec::new();
    let mut target = claimed_sum;
    let mut i: usize = 0;
    while i < n
        invariant
            prover.polynomial == polynomial,
            polynomial.wf(),
            1 <= n <= 30,
            n == polynomial.num_vars,
            m == polynomial.modulus,
            mi == m as int,
            terms == polynomial.terms@,
            claimed_sum.wf(),
            claimed_sum.modulus == m,
            verifier.modulus == m,
            i <= n,
            round_polynomials@.len() == i,
            challenges@.len() == i,
            all_wf(challenges@, m),
            forall|j: int|
                0 <= j < i ==> (#[trigger] round_polynomials@[j]).wf()
                    && round_polynomials@[j].modulus == m && honest_message(
                    polynomial,
                    fe_values(challenges@),
                    j,
                    round_polynomials@[j]@,
                ),
            forall|j: int|
                0 <= j < i ==> uni_degree_spec((#[trigger] round_polynomials@[j])@)
                    <= degree_bound_spec(terms, j, n as int, m),
            target.wf(),
            target.modulus == m,
            i == 0 ==> target == claimed_sum,
            i > 0 ==> target.value as int == cube_sum_int(
                terms,
                fe_values(challenges@),
                pow2((n - i) as nat),
                (n - i) as nat,
            ) % mi,
            i > 0 ==> claimed_sum.value as int == true_sum_int(polynomial) % mi,
        decreases n - i,
    {
        let ghost chals = fe_values(challenges@);
        let ghost slen = (n - i - 1) as nat;
        let g = prover.message(&challenges);
        let check = univariate_hypercube_evaluate(&g);
        proof {
            let e0 = uni_eval_int(g@, 0);
            let e1 = uni_eval_int(g@, 1);
            let s0 = cube_sum_int(terms, chals.push(0), pow2(slen), slen);
            let s1 = cube_sum_int(terms, chals.push(1), pow2(slen), slen);
            lemma_cube_sum_split(terms, chals, (slen + 1) as nat);
            lemma_add_mod_noop(e0, e1, mi);
            lemma_add_mod_noop(s0, s1, mi);
            assert(e0 % mi == s0 % mi && e1 % mi == s1 % mi);
            assert(check.value as int == cube_sum_int(terms, chals, pow2((n - i) as nat), (n
                - i) as nat) % mi);
            if i == 0 {
                assert(chals =~= Seq::<int>::empty());
                assert(check.value as int == true_sum_int(polynomial) % mi);
            }
        }
        if check.value != target.value {
            proof {
                // For an honest prover the sum check only fails against a
                // wrong claim, in round zero.
                assert(i == 0);
                assert(claimed_sum.value as int != true_sum_int(polynomial) % mi);
                assert(chals.take(0) =~= chals);
            }
            round_polynomials.push(g);
            return ProtocolResult {
                outcome: Outcome::Rejected { round: i, reason: CheckFailure::SumMismatch },
                transcript: Transcript { claimed_sum, round_polynomials, challenges },
            };
        }
        proof {
            assert(claimed_sum.value as int == true_sum_int(polynomial) % mi);
            assert(chals.take(i as int) =~= chals);
        }
        let bound = degree_in_one_variable(&prover.polynomial, i);
        let g_degree = g.degree();
        if g_degree > bound {
            round_polynomials.push(g);
            return ProtocolResult {
                outcome: Outcome::Rejected { round: i, reason: CheckFailure::DegreeBoundExceeded },
                transcript: Transcript { claimed_sum, round_polynomials, challenges },
            };
        }
        let c = verifier.message();
        let new_target = g.evaluate(c);
        round_polynomials.push(g);
        challenges.push(c);
        target = new_target;
        proof {
            assert(fe_values(challenges@) =~= chals.push(c.value as int));
            assert forall|j: int| 0 <= j <= i implies #[trigger] fe_values(challenges@).take(j)
                =~= chals.take(j) by {}
            assert(chals.push(c.value as int).take(i as int) =~= chals);
        }
        i = i + 1;
    }
    // Final check: the last round polynomial at the last challenge against
    // the polynomial evaluated directly at all the challenges. For this
    // honest prover the two always agree.
    let final_value = round_polynomials[n - 1].evaluate(challenges[n - 1]);
    let direct = prover.polynomial.evaluate(&challenges);
    proof {
        vstd::arithmetic::power2::lemma2_to64();
        let chals = fe_values(challenges@);
        let gl = round_polynomials@[n - 1]@;
        let t = chals[n - 1];
        assert(t == challenges@[n - 1].value as int);
        assert(honest_message(polynomial, chals, n - 1, gl));
        assert(uni_eval_int(gl, t) % mi == cube_sum_int(
            terms,
            chals.take(n - 1).push(t),
            pow2(0nat),
            0nat,
        ) % mi);
        assert(chals.take(n - 1).push(t) =~= chals);
        assert(cube_point(0, 0) =~= Seq::<int>::empty());
        assert(chals + cube_point(0, 0) =~= chals);
        assert(cube_sum_int(terms, chals, 0, 0) == 0);
        assert(cube_sum_int(terms, chals, 1, 0) == 0 + poly_eval_int(
            terms,
            chals + cube_point(0, 0),
        ));
        assert(cube_sum_int(terms, chals, 1, 0) == poly_eval_int(terms, chals));
        assert(final_value.value as int == poly_eval_int(terms, chals) % mi);
        assert(final_value.value == direct.value);
    }
    if final_value.value == direct.value {
        ProtocolResult {
            outcome: Outcome::Accepted,
            transcript: Transcript { claimed_sum, round_polynomials, challenges },
        }
    } else {
        ProtocolResult {
            outcome: Outcome::Rejected {
                round: n - 1,
                reason: CheckFailure::FinalEvaluationMismatch,
            },
            transcript: Transcript { claimed_sum, round_polynomials, challenges },
        }
    }
}

/// Runs the full protocol: the prover computes the hypercube sum honestly,
/// claims it, and the rounds proceed with challenges drawn from a generator
/// seeded with `seed`.
///
/// Completeness: whatever challenges are drawn, the honest run is accepted —
/// unless the degree-bound heuristic understates a round polynomial's
/// degree, the one way the outcome can be a rejection, and then the verdict
/// names the round and the degree check.
pub fn run_sumcheck_protocol(polynomial: MultivariatePolynomial, seed: u64) -> (r: ProtocolResult)
    requires
        polynomial.wf(),
        1 <= polynomial.num_vars <= 30,
    ensures
        r.transcript.claimed_sum.value as int == true_sum_int(polynomial) % (
        polynomial.modulus as int),
        r.transcript.round_polynomials@.len() <= polynomial.num_vars,
        r.transcript.challenges@.len() <= polynomial.num_vars,
        all_wf(r.transcript.challenges@, polynomial.modulus),
        forall|j: int|
            0 <= j < r.transcript.round_polynomials@.len() ==> (#[trigger] r.transcript.round_polynomials@[j]).wf()
                && honest_message(
                polynomial,
                fe_values(r.transcript.challenges@),
                j,
                r.transcript.round_polynomials@[j]@,
            ),
        match r.outcome {
            Outcome::Accepted => r.transcript.round_polynomials@.len() == polynomial.num_vars
                && r.transcript.challenges@.len() == polynomial.num_vars && forall|j: int|
                0 <= j < polynomial.num_vars ==> uni_degree_spec(
                    (#[trigger] r.transcript.round_polynomials@[j])@,
                ) <= degree_bound_spec(
                    polynomial.terms@,
                    j,
                    polynomial.num_vars as int,
                    polynomial.modulus,
                ),
            Outcome::Rejected { round, reason } => reason == CheckFailure::DegreeBoundExceeded
                && round < polynomial.num_vars && uni_degree_spec(
                r.transcript.round_polynomials@[round as int]@,
            ) > degree_bound_spec(
                polynomial.terms@,
                round as int,
                polynomial.num_vars as int,
                polynomial.modulus,
            ),
        },
{
    let claimed_sum = hypercube_evaluation(&polynomial);
    run_sumcheck_with_claim(polynomial, claimed_sum, seed)
}

} // verus!
