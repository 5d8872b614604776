//! The boolean hypercube {0,1}^n: enumeration of all 2^n assignments and the
//! sum of a polynomial's evaluations over them.

use vstd::prelude::*;
use vstd::arithmetic::div_mod::lemma_add_mod_noop;
use vstd::arithmetic::div_mod::lemma_basic_div;
use vstd::arithmetic::div_mod::lemma_div_pos_is_pos;
use vstd::arithmetic::div_mod::lemma_fundamental_div_mod;
use vstd::arithmetic::div_mod::lemma_fundamental_div_mod_converse;
use vstd::arithmetic::div_mod::lemma_hoist_over_denominator;
use vstd::arithmetic::div_mod::lemma_mod_bound;
use vstd::arithmetic::div_mod::lemma_mod_multiples_vanish;
use vstd::arithmetic::div_mod::lemma_multiply_divide_lt;
use vstd::arithmetic::div_mod::lemma_small_mod;
use vstd::arithmetic::power2::lemma_pow2_adds;
use vstd::arithmetic::power2::lemma_pow2_pos;
use vstd::arithmetic::power2::lemma_pow2_unfold;
use vstd::arithmetic::power2::lemma2_to64;
use vstd::arithmetic::power2::pow2;
use crate::field::all_wf;
use crate::field::fe_values;
use crate::field::valid_modulus;
use crate::field::FieldElement;
use crate::poly::poly_eval_int;
use crate::poly::Monomial;
use crate::poly::MultivariatePolynomial;

verus! {

/// The i-th point of the hypercube of dimension `len`: coordinate k is bit
/// (len - 1 - k) of i, so the first coordinate is the most significant bit
/// and points with a common prefix sit together.
pub open spec fn cube_point(i: int, len: nat) -> Seq<int> {
    Seq::new(len, |k: int| (i / pow2((len - 1 - k) as nat) as int) % 2)
}

/// The sum of the values of a term list over the first `count` points of the
/// hypercube of dimension `slen`, each appended to `prefix`.
pub open spec fn cube_sum_int(
    terms: Seq<(FieldElement, Monomial)>,
    prefix: Seq<int>,
    count: nat,
    slen: nat,
) -> int
    decreases count,
{
    if count == 0 {
        0
    } else {
        cube_sum_int(terms, prefix, (count - 1) as nat, slen) + poly_eval_int(
            terms,
            prefix + cube_point(count - 1, slen),
        )
    }
}

/// A hypercube point splits into its first coordinate and a point of the
/// next smaller cube.
proof fn lemma_cube_point_split(i: int, len: nat)
    requires
        len >= 1,
        0 <= i < pow2(len),
    ensures
        cube_point(i, len) == seq![i / pow2((len - 1) as nat) as int] + cube_point(
            i % pow2((len - 1) as nat) as int,
            (len - 1) as nat,
        ),
        0 <= (i / pow2((len - 1) as nat) as int) && (i / pow2((len - 1) as nat) as int) < 2,
        0 <= (i % pow2((len - 1) as nat) as int) && (i % pow2((len - 1) as nat) as int) < pow2(
            (len - 1) as nat,
        ),
{
    let h = pow2((len - 1) as nat) as int;
    lemma_pow2_pos((len - 1) as nat);
    lemma_pow2_unfold(len);
    let q = i / h;
    let r = i % h;
    lemma_div_pos_is_pos(i, h);
    lemma_multiply_divide_lt(i, h, 2);
    lemma_mod_bound(i, h);
    lemma_fundamental_div_mod(i, h);
    let lhs = cube_point(i, len);
    let rhs = seq![q] + cube_point(r, (len - 1) as nat);
    assert forall|k: int| 0 <= k < len implies lhs[k] == rhs[k] by {
        if k == 0 {
            lemma_small_mod(q as nat, 2nat);
        } else {
            let s = (len - 1 - k) as nat;
            let d = pow2(s) as int;
            lemma_pow2_pos(s);
            lemma_pow2_adds(s, k as nat);
            lemma_pow2_pos((k - 1) as nat);
            lemma_pow2_unfold(k as nat);
            let pk = pow2(k as nat) as int;
            assert(h == d * pk);
            assert(i == h * q + r);
            assert(i == r + (q * pk) * d) by (nonlinear_arith)
                requires
                    i == h * q + r,
                    h == d * pk,
            ;
            lemma_hoist_over_denominator(r, q * pk, pow2(s));
            assert(r / d + q * pk == (r + (q * pk) * d) / d);
            assert(i / d == r / d + q * pk);
            assert(q * pk == 2 * (q * (pow2((k - 1) as nat) as int))) by (nonlinear_arith)
                requires
                    pk == 2 * pow2((k - 1) as nat),
            ;
            lemma_mod_multiples_vanish(q * (pow2((k - 1) as nat) as int), r / d, 2);
        }
    }
    assert(lhs =~= rhs);
}

/// Summing over the lower half of the hypercube of dimension `slen` is
/// summing over the smaller cube with a leading zero coordinate.
proof fn lemma_cube_sum_lower(
    terms: Seq<(FieldElement, Monomial)>,
    prefix: Seq<int>,
    slen: nat,
    j: nat,
)
    requires
        slen >= 1,
        j <= pow2((slen - 1) as nat),
    ensures
        cube_sum_int(terms, prefix, j, slen) == cube_sum_int(
            terms,
            prefix.push(0),
            j,
            (slen - 1) as nat,
        ),
    decreases j,
{
    let h = pow2((slen - 1) as nat) as int;
    lemma_pow2_pos((slen - 1) as nat);
    if j > 0 {
        lemma_cube_sum_lower(terms, prefix, slen, (j - 1) as nat);
        lemma_pow2_unfold(slen);
        lemma_cube_point_split(j - 1, slen);
        lemma_basic_div(j - 1, h);
        lemma_small_mod((j - 1) as nat, h as nat);
        assert(cube_point(j - 1, slen) == seq![0int] + cube_point(j - 1, (slen - 1) as nat));
        assert(prefix + (seq![0int] + cube_point(j - 1, (slen - 1) as nat)) =~= prefix.push(0)
            + cube_point(j - 1, (slen - 1) as nat));
    }
}

/// Summing over the upper half of the hypercube of dimension `slen` adds the
/// sum over the smaller cube with a leading one coordinate.
proof fn lemma_cube_sum_upper(
    terms: Seq<(FieldElement, Monomial)>,
    prefix: Seq<int>,
    slen: nat,
    j: nat,
)
    requires
        slen >= 1,
        j <= pow2((slen - 1) as nat),
    ensures
        cube_sum_int(terms, prefix, (pow2((slen - 1) as nat) + j) as nat, slen) == cube_sum_int(
            terms,
            prefix,
            pow2((slen - 1) as nat),
            slen,
        ) + cube_sum_int(terms, prefix.push(1), j, (slen - 1) as nat),
    decreases j,
{
    let h = pow2((slen - 1) as nat) as int;
    lemma_pow2_pos((slen - 1) as nat);
    if j > 0 {
        lemma_cube_sum_upper(terms, prefix, slen, (j - 1) as nat);
        lemma_pow2_unfold(slen);
        let i = h + j - 1;
        lemma_fundamental_div_mod_converse(i, h, 1, j - 1);
        lemma_cube_point_split(i, slen);
        assert(cube_point(i, slen) == seq![1int] + cube_point(j - 1, (slen - 1) as nat));
        assert(prefix + (seq![1int] + cube_point(j - 1, (slen - 1) as nat)) =~= prefix.push(1)
            + cube_point(j - 1, (slen - 1) as nat));
    }
}

/// The sum over the full hypercube of dimension `slen` splits on the first
/// coordinate: it is the sum with that coordinate fixed to zero plus the sum
/// with it fixed to one, each over the hypercube one dimension smaller.
pub proof fn lemma_cube_sum_split(
    terms: Seq<(FieldElement, Monomial)>,
    prefix: Seq<int>,
    slen: nat,
)
    requires
        slen >= 1,
    ensures
        cube_sum_int(terms, prefix, pow2(slen), slen) == cube_sum_int(
            terms,
            prefix.push(0),
            pow2((slen - 1) as nat),
            (slen - 1) as nat,
        ) + cube_sum_int(terms, prefix.push(1), pow2((slen - 1) as nat), (slen - 1) as nat),
{
    let h = pow2((slen - 1) as nat);
    lemma_pow2_unfold(slen);
    assert(pow2(slen) == h + h);
    lemma_cube_sum_lower(terms, prefix, slen, h);
    lemma_cube_sum_upper(terms, prefix, slen, h);
    assert(cube_sum_int(terms, prefix, pow2(slen), slen) == cube_sum_int(terms, prefix, h, slen)
        + cube_sum_int(terms, prefix.push(1), h, (slen - 1) as nat));
}

/// 2^e as a machine integer.
pub fn pow2_usize(e: usize) -> (r: usize)
    requires
        e <= 30,
    ensures
        r == pow2(e as nat),
        r >= 1,
{
    proof {
        lemma2_to64();
    }
    let mut r: usize = 1;
    let mut j: usize = 0;
    while j < e
        invariant
            j <= e,
            e <= 30,
            r == pow2(j as nat),
            r <= 0x40000000usize,
        decreases e - j,
    {
        proof {
            lemma_pow2_unfold((j + 1) as nat);
            lemma2_to64();
            assert(pow2(j as nat) < pow2(30nat)) by {
                vstd::arithmetic::power2::lemma_pow2_strictly_increases(j as nat, 30nat);
            }
        }
        r = r * 2;
        j = j + 1;
    }
    r
}

/// Enumerates the boolean hypercube of dimension `size`: all 2^size
/// assignments of zero/one field values, most significant coordinate first.
/// For size zero this is the single empty assignment, so the count is 2^size
/// in every case.
pub fn hypercube(size: usize, modulus: u64) -> (r: Vec<Vec<FieldElement>>)
    requires
        valid_modulus(modulus),
        size <= 30,
    ensures
        r@.len() == pow2(size as nat),
        forall|i: int|
            0 <= i < r@.len() ==> (#[trigger] r@[i])@.len() == size && all_wf(r@[i]@, modulus)
                && fe_values(r@[i]@) == cube_point(i, size as nat),
{
    let count = pow2_usize(size);
    let mut r: Vec<Vec<FieldElement>> = Vec::new();
    let mut i: usize = 0;
    while i < count
        invariant
            valid_modulus(modulus),
            size <= 30,
            count == pow2(size as nat),
            i <= count,
            r@.len() == i,
            forall|a: int|
                0 <= a < i ==> (#[trigger] r@[a])@.len() == size && all_wf(r@[a]@, modulus)
                    && fe_values(r@[a]@) == cube_point(a, size as nat),
        decreases count - i,
    {
        let mut point: Vec<FieldElement> = Vec::new();
        let mut k: usize = 0;
        while k < size
            invariant
                valid_modulus(modulus),
                size <= 30,
                i < count,
                count == pow2(size as nat),
                k <= size,
                point@.len() == k,
                forall|a: int|
                    0 <= a < k ==> (#[trigger] point@[a]).modulus == modulus && point@[a].value <= 1
                        && point@[a].value as int == (i as int / pow2(
                        (size - 1 - a) as nat,
                    ) as int) % 2,
            decreases size - k,
        {
            let d = pow2_usize(size - 1 - k);
            let bit = (i / d) % 2;
            point.push(FieldElement { value: bit as u64, modulus });
            k = k + 1;
        }
        proof {
            assert(fe_values(point@) =~= cube_point(i as int, size as nat));
        }
        r.push(point);
        i = i + 1;
    }
    r
}

/// The sum of the polynomial's evaluations over the whole boolean hypercube:
/// the constant an honest prover opens the protocol with. Its result equals,
/// modulo the field, the point-by-point sum the specification spells out —
/// one evaluation for each of the 2^n assignments in turn.
pub fn hypercube_evaluation(polynomial: &MultivariatePolynomial) -> (r: FieldElement)
    requires
        polynomial.wf(),
        polynomial.num_vars <= 30,
    ensures
        r.wf(),
        r.modulus == polynomial.modulus,
        r.value as int == cube_sum_int(
            polynomial.terms@,
            Seq::<int>::empty(),
            pow2(polynomial.num_vars as nat),
            polynomial.num_vars as nat,
        ) % (polynomial.modulus as int),
{
    let m = polynomial.modulus;
    let n = polynomial.num_vars;
    let points = hypercube(n, m);
    let mut acc = FieldElement::zero(m);
    let mut i: usize = 0;
    proof {
        lemma_small_mod(0nat, m as nat);
    }
    while i < points.len()
        invariant
            polynomial.wf(),
            m == polynomial.modulus,
            n == polynomial.num_vars,
            n <= 30,
            points@.len() == pow2(n as nat),
            forall|a: int|
                0 <= a < points@.len() ==> (#[trigger] points@[a])@.len() == n && all_wf(
                    points@[a]@,
                    m,
                ) && fe_values(points@[a]@) == cube_point(a, n as nat),
            i <= points@.len(),
            acc.wf(),
            acc.modulus == m,
            acc.value as int == cube_sum_int(
                polynomial.terms@,
                Seq::<int>::empty(),
                i as nat,
                n as nat,
            ) % (m as int),
        decreases points@.len() - i,
    {
        let value = polynomial.evaluate(&points[i]);
        proof {
            assert(Seq::<int>::empty() + cube_point(i as int, n as nat) =~= cube_point(
                i as int,
                n as nat,
            ));
            lemma_add_mod_noop(
                cube_sum_int(polynomial.terms@, Seq::<int>::empty(), i as nat, n as nat),
                poly_eval_int(polynomial.terms@, cube_point(i as int, n as nat)),
                m as int,
            );
        }
        acc = acc.add(value);
        i = i + 1;
    }
    acc
}

} // verus!
