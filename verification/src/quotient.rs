//! The quotient computer: the combined residues of the constraint system at
//! every point of the extended domain, divided by the vanishing polynomial
//! of the trace domain.

use crate::commitment::PolynomialBatch;
use crate::constraint_consumer::{
    combine, lemma_combine_is_weighted_sum, lemma_combine_range, weighted_sum, ConstraintConsumer,
};
use crate::error::ProveError;
use crate::extension::ext_power;
use crate::field;
use crate::field::field_mul;
use crate::polynomial::{
    chunk, chunked, chunks, degree_plus_one, evaluation, pad, padded, piece_evaluations,
    reduce_with_powers, trim, trimmed,
};
use crate::stark::{filtered_all, Stark};
use crate::util::{is_rectangular, transpose};
use crate::vars::StarkEvaluationVars;
use crate::zero_poly_coset::ZeroPolyOnCoset;
use vstd::prelude::*;

verus! {

/// The residues that reach the accumulators at the `i`-th point of the
/// extended domain. The successor of a row is the next row of the extended
/// domain, and that of the last row is the first.
pub open spec fn point_residues<S: Stark>(
    stark: &S,
    lde_values: Seq<Vec<u64>>,
    public_inputs: Seq<u64>,
    lagrange_first: u64,
    lagrange_last: u64,
    i: int,
) -> Seq<int> {
    filtered_all(
        stark.constraints(
            lde_values[i]@,
            lde_values[(i + 1) % (lde_values.len() as int)]@,
            public_inputs,
        ),
        lagrange_first,
        lagrange_last,
    )
}

/// The value of the quotient for the challenge `alpha` at the `i`-th point
/// of the extended domain.
pub open spec fn quotient_value<S: Stark>(
    stark: &S,
    lde_values: Seq<Vec<u64>>,
    public_inputs: Seq<u64>,
    alpha: u64,
    lagrange_first: Seq<u64>,
    lagrange_last: Seq<u64>,
    inverses: Seq<u64>,
    i: int,
) -> int {
    field::product(
        combine(
            alpha as int,
            point_residues(
                stark,
                lde_values,
                public_inputs,
                lagrange_first[i],
                lagrange_last[i],
                i,
            ),
        ),
        ZeroPolyOnCoset::inverse_at(inverses, i) as int,
    )
}

/// Whether `quotients` holds, for every challenge, the values of the
/// quotient over the extended domain.
pub open spec fn holds_quotient_values<S: Stark>(
    quotients: Seq<Vec<u64>>,
    stark: &S,
    lde_values: Seq<Vec<u64>>,
    public_inputs: Seq<u64>,
    alphas: Seq<u64>,
    lagrange_first: Seq<u64>,
    lagrange_last: Seq<u64>,
    inverses: Seq<u64>,
) -> bool {
    &&& quotients.len() == alphas.len()
    &&& is_rectangular(quotients, lde_values.len())
    &&& forall|k: int, i: int|
        0 <= k < alphas.len() && 0 <= i < lde_values.len() ==> (#[trigger] quotients[k]@[i]) as int
            == quotient_value(
            stark,
            lde_values,
            public_inputs,
            alphas[k],
            lagrange_first,
            lagrange_last,
            inverses,
            i,
        )
}

/// Scales what a consumer has gathered at one point by the inverse of the
/// vanishing polynomial there.
pub fn scale_accumulators(consumer: ConstraintConsumer, denominator_inv: u64) -> (values: Vec<u64>)
    requires
        consumer.wf(),
    ensures
        values@.len() == consumer.alphas().len(),
        forall|k: int|
            0 <= k < values@.len() ==> (#[trigger] values@[k]) as int == field::product(
                combine(consumer.alphas()[k] as int, consumer.emitted()),
                denominator_inv as int,
            ),
{
    let ghost alphas = consumer.alphas();
    let ghost emitted = consumer.emitted();
    let mut values: Vec<u64> = consumer.accumulators();
    let n: usize = values.len();
    let mut k: usize = 0;
    while k < n
        invariant
            k <= n,
            n == values@.len(),
            n == alphas.len(),
            forall|j: int|
                0 <= j < k ==> (#[trigger] values@[j]) as int == field::product(
                    combine(alphas[j] as int, emitted),
                    denominator_inv as int,
                ),
            forall|j: int|
                k <= j < n ==> (#[trigger] values@[j]) as int == combine(alphas[j] as int, emitted),
        decreases n - k,
    {
        let scaled: u64 = field_mul(values[k], denominator_inv);
        values.set(k, scaled);
        k = k + 1;
    }
    values
}

/// The quotient values at the `i`-th point of the extended domain, one for
/// every challenge.
pub fn eval_at_point<S: Stark>(
    stark: &S,
    trace_commitment: &PolynomialBatch,
    public_inputs: &Vec<u64>,
    alphas: &Vec<u64>,
    lagrange_first: &Vec<u64>,
    lagrange_last: &Vec<u64>,
    z_h_on_coset: &ZeroPolyOnCoset,
    i: usize,
) -> (values: Vec<u64>)
    requires
        i < trace_commitment.lde_values@.len(),
        is_rectangular(trace_commitment.lde_values@, stark.columns_spec()),
        public_inputs@.len() == stark.public_inputs_spec(),
        lagrange_first@.len() == trace_commitment.lde_values@.len(),
        lagrange_last@.len() == trace_commitment.lde_values@.len(),
        z_h_on_coset.inverses@.len() > 0,
    ensures
        values@.len() == alphas@.len(),
        forall|k: int|
            0 <= k < values@.len() ==> (#[trigger] values@[k]) as int == quotient_value(
                stark,
                trace_commitment.lde_values@,
                public_inputs@,
                alphas@[k],
                lagrange_first@,
                lagrange_last@,
                z_h_on_coset.inverses@,
                i as int,
            ),
{
    let domain: usize = trace_commitment.lde_values.len();
    let mut consumer = ConstraintConsumer::new(alphas.clone(), lagrange_first[i], lagrange_last[i]);
    let successor: usize = (i + 1) % domain;
    let vars = StarkEvaluationVars {
        local_values: trace_commitment.get_lde_values(i),
        next_values: trace_commitment.get_lde_values(successor),
        public_inputs,
    };
    stark.eval_packed_base(vars, &mut consumer);
    let denominator_inv: u64 = z_h_on_coset.eval_inverse(i);
    proof {
        assert(consumer.alphas() =~= alphas@);
        assert(consumer.emitted() =~= point_residues(
            stark,
            trace_commitment.lde_values@,
            public_inputs@,
            lagrange_first@[i as int],
            lagrange_last@[i as int],
            i as int,
        ));
    }
    scale_accumulators(consumer, denominator_inv)
}

/// The values of the quotients over the extended domain, one vector for
/// every challenge, ready to be interpolated over the coset.
pub fn compute_quotient_values<S: Stark>(
    stark: &S,
    trace_commitment: &PolynomialBatch,
    public_inputs: &Vec<u64>,
    alphas: &Vec<u64>,
    lagrange_first: &Vec<u64>,
    lagrange_last: &Vec<u64>,
    z_h_on_coset: &ZeroPolyOnCoset,
) -> (quotients: Vec<Vec<u64>>)
    requires
        trace_commitment.lde_values@.len() > 0,
        is_rectangular(trace_commitment.lde_values@, stark.columns_spec()),
        public_inputs@.len() == stark.public_inputs_spec(),
        lagrange_first@.len() == trace_commitment.lde_values@.len(),
        lagrange_last@.len() == trace_commitment.lde_values@.len(),
        z_h_on_coset.inverses@.len() > 0,
    ensures
        holds_quotient_values(
            quotients@,
            stark,
            trace_commitment.lde_values@,
            public_inputs@,
            alphas@,
            lagrange_first@,
            lagrange_last@,
            z_h_on_coset.inverses@,
        ),
{
    let domain: usize = trace_commitment.lde_values.len();
    let mut quotient_values: Vec<Vec<u64>> = Vec::new();
    let mut i: usize = 0;
    while i < domain
        invariant
            i <= domain,
            domain == trace_commitment.lde_values@.len(),
            is_rectangular(trace_commitment.lde_values@, stark.columns_spec()),
            public_inputs@.len() == stark.public_inputs_spec(),
            lagrange_first@.len() == domain,
            lagrange_last@.len() == domain,
            z_h_on_coset.inverses@.len() > 0,
            quotient_values@.len() == i,
            is_rectangular(quotient_values@, alphas@.len()),
            forall|a: int, k: int|
                0 <= a < i && 0 <= k < alphas@.len() ==> (#[trigger] quotient_values@[a]@[k]) as int
                    == quotient_value(
                    stark,
                    trace_commitment.lde_values@,
                    public_inputs@,
                    alphas@[k],
                    lagrange_first@,
                    lagrange_last@,
                    z_h_on_coset.inverses@,
                    a,
                ),
        decreases domain - i,
    {
        let values = eval_at_point(
            stark,
            trace_commitment,
            public_inputs,
            alphas,
            lagrange_first,
            lagrange_last,
            z_h_on_coset,
            i,
        );
        quotient_values.push(values);
        i = i + 1;
    }
    let quotients = transpose(&quotient_values);
    proof {
        assert forall|k: int| 0 <= k < quotients@.len() implies (#[trigger] quotients@[k])@.len()
            == domain by {}
        assert forall|k: int, i: int|
            0 <= k < alphas@.len() && 0 <= i < domain implies (#[trigger] quotients@[k]@[i])
            == quotient_values@[i]@[k] by {
            assert(quotients@[k]@ == crate::util::transposed(
                quotient_values@,
                quotient_values@[0]@.len(),
            )[k]);
        }
    }
    quotients
}

/// Whether no polynomial has more than `bound` coefficients once its
/// trailing zeros are gone.
pub open spec fn fits_degree_bound(polys: Seq<Vec<u64>>, bound: nat) -> bool {
    forall|k: int| 0 <= k < polys.len() ==> degree_plus_one((#[trigger] polys[k])@) <= bound
}

/// The `t`-th polynomial that is committed for the quotients: each
/// quotient is trimmed, padded to `degree * rate` coefficients and cut into
/// `rate` pieces of `degree` coefficients, and the pieces of all quotients
/// follow each other.
pub open spec fn quotient_chunk(quotient_polys: Seq<Vec<u64>>, degree: nat, rate: nat, t: int) -> Seq<
    u64,
> {
    chunk(
        padded(trimmed(quotient_polys[t / (rate as int)]@), degree * rate),
        degree,
        t % (rate as int),
    )
}

/// The `rate` pieces that are committed for the `k`-th quotient.
pub open spec fn quotient_pieces(quotient_polys: Seq<Vec<u64>>, degree: nat, rate: nat, k: int) -> Seq<
    Seq<u64>,
> {
    Seq::new(rate, |j: int| quotient_chunk(quotient_polys, degree, rate, k * rate + j))
}

/// Trims each quotient, pads it to `degree * rate` coefficients and cuts it
/// into pieces of `degree` coefficients; fails if a quotient is too long
/// to be padded.
pub fn split_quotients(quotient_polys: &Vec<Vec<u64>>, degree: usize, rate: usize) -> (result:
    Result<Vec<Vec<u64>>, ProveError>)
    requires
        degree > 0,
        rate > 0,
        degree * rate <= usize::MAX,
    ensures
        result is Ok <==> fits_degree_bound(quotient_polys@, (degree * rate) as nat),
        result matches Ok(all_chunks) ==> {
            &&& all_chunks@.len() == quotient_polys@.len() * rate
            &&& forall|t: int|
                0 <= t < all_chunks@.len() ==> (#[trigger] all_chunks@[t])@ == quotient_chunk(
                    quotient_polys@,
                    degree as nat,
                    rate as nat,
                    t,
                )
        },
        result matches Err(e) ==> e == ProveError::DegreeBound,
{
    let target: usize = degree * rate;
    let mut all_chunks: Vec<Vec<u64>> = Vec::new();
    let mut k: usize = 0;
    assert(0 * rate == 0);
    while k < quotient_polys.len()
        invariant
            k <= quotient_polys@.len(),
            degree > 0,
            rate > 0,
            target == degree * rate,
            all_chunks@.len() == k * rate,
            forall|j: int|
                0 <= j < k ==> degree_plus_one((#[trigger] quotient_polys@[j])@) <= target,
            forall|t: int|
                0 <= t < all_chunks@.len() ==> (#[trigger] all_chunks@[t])@ == quotient_chunk(
                    quotient_polys@,
                    degree as nat,
                    rate as nat,
                    t,
                ),
        decreases quotient_polys@.len() - k,
    {
        let mut quotient_poly: Vec<u64> = quotient_polys[k].clone();
        assert(quotient_poly@ =~= quotient_polys@[k as int]@);
        trim(&mut quotient_poly);
        proof {
            crate::polynomial::lemma_trimmed_len(quotient_polys@[k as int]@);
        }
        match pad(&mut quotient_poly, target) {
            Err(_) => {
                return Err(ProveError::DegreeBound);
            },
            Ok(()) => {},
        }
        let mut pieces = chunks(&quotient_poly, degree);
        proof {
            crate::polynomial::lemma_num_chunks_steps(target as nat, degree as nat, rate as nat);
            assert((rate - 1) * degree < rate * degree) by (nonlinear_arith)
                requires
                    degree > 0,
                    rate > 0,
            ;
            assert(rate * degree == degree * rate) by (nonlinear_arith);
            assert(pieces@.len() == rate);
            assert((k + 1) * rate == k * rate + rate) by (nonlinear_arith);
        }
        let ghost before = all_chunks@;
        let ghost cut = pieces@;
        all_chunks.append(&mut pieces);
        proof {
            assert forall|t: int| 0 <= t < all_chunks@.len() implies (#[trigger] all_chunks@[t])@
                == quotient_chunk(quotient_polys@, degree as nat, rate as nat, t) by {
                if t >= before.len() {
                    let j = t - k * rate;
                    assert(all_chunks@[t] == cut[j]);
                    vstd::arithmetic::div_mod::lemma_fundamental_div_mod_converse(
                        t,
                        rate as int,
                        k as int,
                        j,
                    );
                } else {
                    assert(all_chunks@[t] == before[t]);
                }
            }
        }
        k = k + 1;
    }
    Ok(all_chunks)
}

/// Where the table holds the inverse of the value `vanishing` that the
/// vanishing polynomial takes at the `i`-th point, the quotient value times
/// `vanishing` is the combination of the residues at that point, which is
/// their sum weighted by powers of the challenge: the quotient is the
/// combined residues divided by the vanishing polynomial.
pub proof fn lemma_quotient_times_vanishing<S: Stark>(
    stark: &S,
    lde_values: Seq<Vec<u64>>,
    public_inputs: Seq<u64>,
    alpha: u64,
    lagrange_first: Seq<u64>,
    lagrange_last: Seq<u64>,
    inverses: Seq<u64>,
    i: int,
    vanishing: int,
)
    requires
        field::product(ZeroPolyOnCoset::inverse_at(inverses, i) as int, vanishing) == 1,
    ensures
        field::product(
            quotient_value(
                stark,
                lde_values,
                public_inputs,
                alpha,
                lagrange_first,
                lagrange_last,
                inverses,
                i,
            ),
            vanishing,
        ) == combine(
            alpha as int,
            point_residues(
                stark,
                lde_values,
                public_inputs,
                lagrange_first[i],
                lagrange_last[i],
                i,
            ),
        ),
        field::product(
            quotient_value(
                stark,
                lde_values,
                public_inputs,
                alpha,
                lagrange_first,
                lagrange_last,
                inverses,
                i,
            ),
            vanishing,
        ) == weighted_sum(
            alpha as int,
            point_residues(
                stark,
                lde_values,
                public_inputs,
                lagrange_first[i],
                lagrange_last[i],
                i,
            ),
        ),
{
    lemma_combine_is_weighted_sum(
        alpha as int,
        point_residues(stark, lde_values, public_inputs, lagrange_first[i], lagrange_last[i], i),
    );
    let combined = combine(
        alpha as int,
        point_residues(stark, lde_values, public_inputs, lagrange_first[i], lagrange_last[i], i),
    );
    let inv = ZeroPolyOnCoset::inverse_at(inverses, i) as int;
    field::lemma_product_associative(combined, inv, vanishing);
    lemma_combine_range(
        alpha as int,
        point_residues(stark, lde_values, public_inputs, lagrange_first[i], lagrange_last[i], i),
    );
    assert(combined * 1 == combined);
}

/// The values of the quotients are fixed by what they are computed from:
/// two tables that both hold the quotient values are the same table.
pub proof fn lemma_quotient_values_unique<S: Stark>(
    one: Seq<Vec<u64>>,
    other: Seq<Vec<u64>>,
    stark: &S,
    lde_values: Seq<Vec<u64>>,
    public_inputs: Seq<u64>,
    alphas: Seq<u64>,
    lagrange_first: Seq<u64>,
    lagrange_last: Seq<u64>,
    inverses: Seq<u64>,
)
    requires
        holds_quotient_values(
            one,
            stark,
            lde_values,
            public_inputs,
            alphas,
            lagrange_first,
            lagrange_last,
            inverses,
        ),
        holds_quotient_values(
            other,
            stark,
            lde_values,
            public_inputs,
            alphas,
            lagrange_first,
            lagrange_last,
            inverses,
        ),
    ensures
        one.len() == other.len(),
        forall|k: int| 0 <= k < one.len() ==> (#[trigger] one[k])@ == other[k]@,
{
    assert forall|k: int| 0 <= k < one.len() implies (#[trigger] one[k])@ == other[k]@ by {
        assert forall|i: int| 0 <= i < lde_values.len() implies one[k]@[i] == other[k]@[i] by {
            assert(one[k]@[i] as int == other[k]@[i] as int);
        }
        assert(one[k]@ =~= other[k]@);
    }
}

/// Quotients that come with no more coefficients than the extended domain
/// has points respect the degree bound, so that padding them cannot fail.
pub proof fn lemma_domain_sized_quotients_fit(quotient_polys: Seq<Vec<u64>>, domain: nat)
    requires
        forall|k: int|
            0 <= k < quotient_polys.len() ==> (#[trigger] quotient_polys[k])@.len() <= domain,
    ensures
        fits_degree_bound(quotient_polys, domain),
{
    assert forall|k: int| 0 <= k < quotient_polys.len() implies degree_plus_one(
        (#[trigger] quotient_polys[k])@,
    ) <= domain by {
        crate::polynomial::lemma_trimmed_len(quotient_polys[k]@);
    }
}

/// A polynomial whose coefficients are all zero takes the value zero.
pub proof fn lemma_evaluation_zeros(zeros: Seq<u64>, z: (int, int))
    requires
        forall|i: int| 0 <= i < zeros.len() ==> field::residue((#[trigger] zeros[i]) as int) == 0,
    ensures
        evaluation(zeros, z) == (0int, 0int),
    decreases zeros.len(),
{
    if zeros.len() > 0 {
        lemma_evaluation_zeros(zeros.drop_first(), z);
        assert(0 * z.0 + 7 * (0 * z.1) == 0) by (nonlinear_arith);
        assert(0 * z.1 + 0 * z.0 == 0) by (nonlinear_arith);
        vstd::arithmetic::div_mod::lemma_small_mod(0, field::ORDER as nat);
    }
}

/// What follows the last coefficient that is not zero is zero.
pub proof fn lemma_trailing_zeros(coeffs: Seq<u64>, i: int)
    requires
        degree_plus_one(coeffs) <= i < coeffs.len(),
    ensures
        field::residue(coeffs[i] as int) == 0,
    decreases coeffs.len(),
{
    if i < coeffs.len() - 1 {
        lemma_trailing_zeros(coeffs.drop_last(), i);
    }
}

/// Trimming a polynomial and padding it again leave its values as they were.
pub proof fn lemma_trim_pad_keeps_value(coeffs: Seq<u64>, new_len: nat, z: (int, int))
    ensures
        evaluation(padded(trimmed(coeffs), new_len), z) == evaluation(coeffs, z),
{
    let n = degree_plus_one(coeffs) as int;
    crate::polynomial::lemma_trimmed_len(coeffs);
    let kept = trimmed(coeffs);
    let dropped = coeffs.skip(n);
    let added = Seq::new((new_len - kept.len()) as nat, |i: int| 0u64);
    assert(kept + dropped =~= coeffs);
    assert forall|i: int| 0 <= i < dropped.len() implies field::residue(
        (#[trigger] dropped[i]) as int,
    ) == 0 by {
        lemma_trailing_zeros(coeffs, n + i);
    }
    assert(field::residue(0) == 0) by {
        vstd::arithmetic::div_mod::lemma_small_mod(0, field::ORDER as nat);
    }
    lemma_evaluation_zeros(dropped, z);
    lemma_evaluation_zeros(added, z);
    crate::polynomial::lemma_evaluation_split(kept, dropped, z);
    crate::polynomial::lemma_evaluation_split(kept, added, z);
}

/// The chunk round trip. The pieces that are committed for the `k`-th
/// quotient, joined end to end, are the quotient trimmed and padded; and
/// their values at any point `z`, the `j`-th weighted by the `j`-th power
/// of `z^degree`, add up to the value of the quotient itself at `z`.
pub proof fn lemma_quotient_chunks_recombine(
    quotient_polys: Seq<Vec<u64>>,
    degree: nat,
    rate: nat,
    k: int,
    z: (int, int),
)
    requires
        degree > 0,
        rate > 0,
        0 <= k < quotient_polys.len(),
        degree_plus_one(quotient_polys[k]@) <= degree * rate,
    ensures
        crate::polynomial::joined(quotient_pieces(quotient_polys, degree, rate, k)) == padded(
            trimmed(quotient_polys[k]@),
            degree * rate,
        ),
        reduce_with_powers(
            piece_evaluations(quotient_pieces(quotient_polys, degree, rate, k), z),
            ext_power(z, degree),
        ) == evaluation(quotient_polys[k]@, z),
{
    let whole = padded(trimmed(quotient_polys[k]@), degree * rate);
    crate::polynomial::lemma_trimmed_len(quotient_polys[k]@);
    assert(whole.len() == degree * rate);
    crate::polynomial::lemma_num_chunks_steps(whole.len(), degree, rate);
    assert((rate - 1) * degree < rate * degree) by (nonlinear_arith)
        requires
            degree > 0,
            rate > 0,
    ;
    assert(rate * degree == degree * rate) by (nonlinear_arith);
    assert(quotient_pieces(quotient_polys, degree, rate, k) =~= chunked(whole, degree)) by {
        assert forall|j: int| 0 <= j < rate implies quotient_chunk(
            quotient_polys,
            degree,
            rate,
            k * rate + j,
        ) == chunk(whole, degree, j) by {
            vstd::arithmetic::div_mod::lemma_fundamental_div_mod_converse(
                k * rate + j,
                rate as int,
                k,
                j,
            );
        }
    }
    crate::polynomial::lemma_chunks_join(whole, degree);
    assert(whole.len() % degree == 0) by {
        vstd::arithmetic::div_mod::lemma_mod_multiples_basic(rate as int, degree as int);
    }
    crate::polynomial::lemma_chunk_recombination(whole, degree, z);
    lemma_trim_pad_keeps_value(quotient_polys[k]@, degree * rate, z);
}

/// The committed quotient against the constraints. Take a point `x` of the
/// extended domain, the `i`-th, at which the vanishing polynomial has the
/// value `vanishing`, inverted in the table. Where the `k`-th quotient
/// polynomial takes at `x` the quotient value that was computed there, as
/// an interpolation does, the values at `x` of its committed pieces,
/// recombined with powers of `x^degree` and multiplied by `vanishing`, give
/// the sum of the residues at `x` weighted by powers of the challenge.
pub proof fn lemma_committed_quotient_matches_constraints<S: Stark>(
    stark: &S,
    lde_values: Seq<Vec<u64>>,
    public_inputs: Seq<u64>,
    alphas: Seq<u64>,
    lagrange_first: Seq<u64>,
    lagrange_last: Seq<u64>,
    inverses: Seq<u64>,
    quotient_polys: Seq<Vec<u64>>,
    degree: nat,
    rate: nat,
    k: int,
    i: int,
    x: int,
    vanishing: int,
)
    requires
        degree > 0,
        rate > 0,
        0 <= k < quotient_polys.len(),
        k < alphas.len(),
        degree_plus_one(quotient_polys[k]@) <= degree * rate,
        field::product(ZeroPolyOnCoset::inverse_at(inverses, i) as int, vanishing) == 1,
        evaluation(quotient_polys[k]@, (x, 0)) == (
            quotient_value(
                stark,
                lde_values,
                public_inputs,
                alphas[k],
                lagrange_first,
                lagrange_last,
                inverses,
                i,
            ),
            0int,
        ),
    ensures
        crate::extension::ext_product(
            reduce_with_powers(
                piece_evaluations(quotient_pieces(quotient_polys, degree, rate, k), (x, 0)),
                ext_power((x, 0), degree),
            ),
            (vanishing, 0),
        ) == (
            weighted_sum(
                alphas[k] as int,
                point_residues(
                    stark,
                    lde_values,
                    public_inputs,
                    lagrange_first[i],
                    lagrange_last[i],
                    i,
                ),
            ),
            0int,
        ),
{
    lemma_quotient_chunks_recombine(quotient_polys, degree, rate, k, (x, 0));
    lemma_quotient_times_vanishing(
        stark,
        lde_values,
        public_inputs,
        alphas[k],
        lagrange_first,
        lagrange_last,
        inverses,
        i,
        vanishing,
    );
    let q = quotient_value(
        stark,
        lde_values,
        public_inputs,
        alphas[k],
        lagrange_first,
        lagrange_last,
        inverses,
        i,
    );
    assert(q * vanishing + 7 * (0 * 0) == q * vanishing);
    assert(q * 0 + 0 * vanishing == 0) by (nonlinear_arith);
    vstd::arithmetic::div_mod::lemma_small_mod(0, field::ORDER as nat);
}

} // verus!
