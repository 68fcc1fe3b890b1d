use starky::commitment::PolynomialBatch;
use starky::config::{FriConfig, FriReductionStrategy, StarkConfig};
use starky::error::ProveError;
use starky::extension::QuadraticExtension;
use starky::field::{exp_power_of_2, field_add, field_mul, field_sub, ORDER};
use starky::increment_stark::IncrementStark;
use starky::polynomial::degree_plus_one_of;
use starky::prover::{indicator_values, prove, ChallengeStage, InterpolationStage, ZetaStage};
use starky::quotient::{compute_quotient_values, split_quotients};
use starky::stark_proof::{FriOracleInfo, FriPolynomialInfo, StarkProof};
use starky::zero_poly_coset::ZeroPolyOnCoset;

// A generator of the subgroup of order 2^32, and a generator of the whole
// multiplicative group, which shifts the extended domain off the subgroups.
const POWER_OF_TWO_GENERATOR: u64 = 7277203076849721926;
const COSET_SHIFT: u64 = 14293326489335486720;

fn ext(c0: u64, c1: u64) -> QuadraticExtension {
    QuadraticExtension { c0, c1 }
}

fn pow(base: u64, mut exponent: u64) -> u64 {
    let mut result = 1;
    let mut square = base;
    while exponent > 0 {
        if exponent & 1 == 1 {
            result = field_mul(result, square);
        }
        square = field_mul(square, square);
        exponent >>= 1;
    }
    result
}

fn inverse(x: u64) -> u64 {
    pow(x, ORDER - 2)
}

fn root_of_unity(bits: usize) -> u64 {
    exp_power_of_2(POWER_OF_TWO_GENERATOR, 32 - bits)
}

fn eval(coeffs: &[u64], x: u64) -> u64 {
    coeffs.iter().rev().fold(0, |acc, &c| field_add(field_mul(acc, x), c))
}

fn ifft(values: &[u64], bits: usize) -> Vec<u64> {
    let n = values.len();
    let w_inv = inverse(root_of_unity(bits));
    let n_inv = inverse(n as u64);
    (0..n)
        .map(|j| {
            let step = pow(w_inv, j as u64);
            let mut point = 1;
            let mut sum = 0;
            for &v in values {
                sum = field_add(sum, field_mul(v, point));
                point = field_mul(point, step);
            }
            field_mul(sum, n_inv)
        })
        .collect()
}

fn coset_ifft(values: &[u64], bits: usize) -> Vec<u64> {
    let shift_inv = inverse(COSET_SHIFT);
    ifft(values, bits)
        .iter()
        .enumerate()
        .map(|(j, &c)| field_mul(c, pow(shift_inv, j as u64)))
        .collect()
}

fn domain_point(bits: usize, i: usize) -> u64 {
    field_mul(COSET_SHIFT, pow(root_of_unity(bits), i as u64))
}

fn lde(coeffs: &[u64], bits: usize) -> Vec<u64> {
    (0..1usize << bits).map(|i| eval(coeffs, domain_point(bits, i))).collect()
}

fn vanishing(degree_bits: usize, x: u64) -> u64 {
    field_sub(exp_power_of_2(x, degree_bits), 1)
}

fn zero_poly(degree_bits: usize, rate_bits: usize) -> ZeroPolyOnCoset {
    let inverses = (0..1usize << rate_bits)
        .map(|i| inverse(vanishing(degree_bits, domain_point(degree_bits + rate_bits, i))))
        .collect();
    ZeroPolyOnCoset { inverses }
}

fn cap_of(polynomials: &[Vec<u64>]) -> Vec<[u64; 4]> {
    let sum = polynomials.iter().flatten().fold(0, |acc, &c| field_add(acc, c));
    vec![[sum, polynomials.len() as u64, 3, 4]]
}

fn commit_coeffs(polynomials: Vec<Vec<u64>>, degree_bits: usize, rate_bits: usize) -> PolynomialBatch {
    let bits = degree_bits + rate_bits;
    let columns: Vec<Vec<u64>> = polynomials.iter().map(|p| lde(p, bits)).collect();
    let lde_values = (0..1usize << bits)
        .map(|i| columns.iter().map(|column| column[i]).collect())
        .collect();
    let cap = cap_of(&polynomials);
    PolynomialBatch { polynomials, lde_values, cap }
}

fn commit_values(values: &[Vec<u64>], degree_bits: usize, rate_bits: usize) -> PolynomialBatch {
    let polynomials = values.iter().map(|v| ifft(v, degree_bits)).collect();
    commit_coeffs(polynomials, degree_bits, rate_bits)
}

fn config(rate_bits: usize, num_challenges: usize) -> StarkConfig {
    StarkConfig {
        security_bits: 100,
        num_challenges,
        fri_config: FriConfig {
            rate_bits,
            cap_height: 0,
            proof_of_work_bits: 10,
            reduction_strategy: FriReductionStrategy::ConstantArityBits(4, 5),
            num_query_rounds: 90,
        },
    }
}

fn rows(values: &[u64]) -> Vec<Vec<u64>> {
    values.iter().map(|&v| vec![v]).collect()
}

fn counting_trace() -> Vec<Vec<u64>> {
    rows(&[0, 1, 2, 3, 4, 5, 6, 7])
}

fn to_challenge_stage(trace: Vec<Vec<u64>>, rate_bits: usize) -> ChallengeStage<IncrementStark> {
    let stage = prove(IncrementStark {}, config(rate_bits, 2), trace, vec![]);
    let commitment =
        commit_values(&stage.trace_poly_values, stage.session.degree_bits, rate_bits);
    stage.committed(commitment).unwrap()
}

fn to_interpolation_stage(
    trace: Vec<Vec<u64>>,
    alphas: Vec<u64>,
) -> InterpolationStage<IncrementStark> {
    let stage = to_challenge_stage(trace, 1);
    let bits = stage.session.degree_bits;
    let first = lde(&ifft(&stage.lagrange_first_values(), bits), bits + 1);
    let last = lde(&ifft(&stage.lagrange_last_values(), bits), bits + 1);
    stage.quotient_inputs(alphas, first, last, zero_poly(bits, 1)).unwrap()
}

fn to_zeta_stage(trace: Vec<Vec<u64>>, alphas: Vec<u64>) -> ZetaStage<IncrementStark> {
    let stage = to_interpolation_stage(trace, alphas);
    let bits = stage.session.degree_bits;
    let quotient_polys = stage.quotient_values.iter().map(|v| coset_ifft(v, bits + 1)).collect();
    let stage = stage.interpolated(quotient_polys).unwrap();
    let commitment = commit_coeffs(stage.all_quotient_chunks.clone(), bits, 1);
    stage.committed(commitment).unwrap()
}

fn run(
    trace: Vec<Vec<u64>>,
    alphas: Vec<u64>,
    zeta: QuadraticExtension,
) -> Result<StarkProof<Vec<u64>>, ProveError> {
    let stage = to_zeta_stage(trace, alphas);
    let g = ext(root_of_unity(stage.session.degree_bits), 0);
    let stage = stage.challenged(zeta, g)?;
    let opening_proof = vec![stage.instance.batches.len() as u64, 42];
    Ok(stage.opened(opening_proof))
}

#[test]
fn the_test_domain_is_what_it_claims() {
    assert_eq!(exp_power_of_2(POWER_OF_TWO_GENERATOR, 32), 1);
    assert_eq!(exp_power_of_2(POWER_OF_TWO_GENERATOR, 31), ORDER - 1);
    assert_eq!(root_of_unity(3), 16777216);
    assert_eq!(root_of_unity(4), 4096);
    assert_ne!(pow(COSET_SHIFT, (ORDER - 1) / 2), 1);
    assert_eq!(field_mul(inverse(12345), 12345), 1);
    let values = vec![5, 9, 2, 7, 0, 1, 3, 8];
    let coeffs = ifft(&values, 3);
    for (i, &v) in values.iter().enumerate() {
        assert_eq!(eval(&coeffs, pow(root_of_unity(3), i as u64)), v);
    }
    let shifted = coset_ifft(&values, 3);
    for (i, &v) in values.iter().enumerate() {
        assert_eq!(eval(&shifted, domain_point(3, i)), v);
    }
}

#[test]
fn prove_hands_the_trace_on_by_columns() {
    let trace = vec![vec![1], vec![2], vec![3], vec![4]];
    let stage = prove(IncrementStark {}, config(2, 3), trace, vec![]);
    assert_eq!(stage.trace_poly_values, vec![vec![1, 2, 3, 4]]);
    assert_eq!(stage.session.degree, 4);
    assert_eq!(stage.session.degree_bits, 2);
    assert_eq!(stage.session.rate, 4);
    assert_eq!(stage.session.domain, 16);
    assert_eq!(stage.session.config, config(2, 3));
    assert_eq!(stage.session.public_inputs, Vec::<u64>::new());
}

#[test]
fn prove_takes_the_logarithm_of_the_degree() {
    for bits in 0..10 {
        let trace = rows(&vec![7; 1 << bits]);
        let stage = prove(IncrementStark {}, config(1, 2), trace, vec![]);
        assert_eq!(stage.session.degree, 1 << bits);
        assert_eq!(stage.session.degree_bits, bits);
        assert_eq!(stage.session.domain, 2 << bits);
    }
}

#[test]
fn lagrange_values_single_out_one_row() {
    let stage = to_challenge_stage(counting_trace(), 1);
    assert_eq!(stage.lagrange_first_values(), vec![1, 0, 0, 0, 0, 0, 0, 0]);
    assert_eq!(stage.lagrange_last_values(), vec![0, 0, 0, 0, 0, 0, 0, 1]);
    assert_eq!(indicator_values(4, 2), vec![0, 0, 1, 0]);
    assert_eq!(indicator_values(3, 5), vec![0, 0, 0]);
    assert_eq!(indicator_values(0, 0), Vec::<u64>::new());
}

#[test]
fn quotient_values_of_the_counting_trace() {
    let stage = to_interpolation_stage(counting_trace(), vec![3, 5]);
    assert_eq!(stage.quotient_values.len(), 2);
    assert_eq!(stage.quotient_values[0].len(), 16);
    assert_eq!(
        stage.quotient_values[0][..4],
        [
            11878307099671610377,
            10479056181116437853,
            3768417438194777422,
            8004289674813586676
        ]
    );
    assert_eq!(stage.quotient_values[0][15], 13177946787353424536);
    assert_eq!(stage.quotient_values[1], stage.quotient_values[0]);
}

#[test]
fn quotient_times_vanishing_polynomial_is_the_residue() {
    let stage = to_interpolation_stage(counting_trace(), vec![3, 5]);
    let lde_values = &stage.trace_commitment.lde_values;
    assert_eq!(lde_values[0], vec![4740074102581204077]);
    assert_eq!(lde_values[1], vec![4956970620220028142]);
    for i in 0..16 {
        let next = lde_values[(i + 1) % 16][0];
        let residue = field_sub(field_sub(next, lde_values[i][0]), 1);
        let z_h = vanishing(3, domain_point(4, i));
        for k in 0..2 {
            assert_eq!(field_mul(stage.quotient_values[k][i], z_h), residue);
        }
    }
}

#[test]
fn increment_trace_of_eight_rows_proves() {
    let zeta = ext(12345, 67890);
    let stage = to_interpolation_stage(counting_trace(), vec![3, 5]);
    let quotient_values = stage.quotient_values.clone();
    let quotient_polys: Vec<Vec<u64>> =
        quotient_values.iter().map(|v| coset_ifft(v, 4)).collect();
    assert_eq!(quotient_polys[0][0], 12786293472091836022);
    assert_eq!(quotient_polys[0][15], 7924200331625568832);
    let stage = stage.interpolated(quotient_polys.clone()).unwrap();

    // no padding failure: two pieces of eight coefficients for each quotient
    let chunks = stage.all_quotient_chunks.clone();
    assert_eq!(chunks.len(), 4);
    assert!(chunks.iter().all(|chunk| chunk.len() == 8));
    assert_eq!([&chunks[0][..], &chunks[1][..]].concat(), quotient_polys[0]);
    assert_eq!([&chunks[2][..], &chunks[3][..]].concat(), quotient_polys[1]);

    // the quotient put together again from its pieces, times the vanishing
    // polynomial, is the residue of the constraint all over the extended domain
    let lde_values = stage.trace_commitment.lde_values.clone();
    for i in 0..16 {
        let x = domain_point(4, i);
        let x_to_degree = exp_power_of_2(x, 3);
        let quotient =
            field_add(eval(&chunks[0], x), field_mul(x_to_degree, eval(&chunks[1], x)));
        assert_eq!(quotient, quotient_values[0][i]);
        let residue = field_sub(field_sub(lde_values[(i + 1) % 16][0], lde_values[i][0]), 1);
        assert_eq!(field_mul(quotient, vanishing(3, x)), residue);
    }

    let trace_cap = stage.trace_commitment.cap.clone();
    let stage = stage.committed(commit_coeffs(chunks, 3, 1)).unwrap();
    let g = ext(root_of_unity(3), 0);
    let stage = stage.challenged(zeta, g).unwrap();
    assert_eq!(stage.zeta, zeta);
    assert_eq!(stage.g, g);
    assert_eq!(
        stage.instance.oracles,
        vec![
            FriOracleInfo { num_polys: 1, blinding: false },
            FriOracleInfo { num_polys: 4, blinding: false },
        ]
    );
    assert_eq!(stage.instance.batches[0].point, zeta);
    assert_eq!(stage.instance.batches[0].polynomials.len(), 5);
    assert_eq!(stage.instance.batches[1].point, zeta.ext_mul(&g));
    assert_eq!(
        stage.instance.batches[1].polynomials,
        vec![FriPolynomialInfo { oracle_index: 0, polynomial_index: 0 }]
    );

    let proof = stage.opened(vec![1u8, 2, 3]);
    assert_eq!(proof.trace_cap, trace_cap);
    assert_eq!(proof.opening_proof, vec![1u8, 2, 3]);
    assert_eq!(proof.openings.local_values, vec![ext(8135373292848075737, 6827006653364978587)]);
    assert_eq!(proof.openings.next_values, vec![ext(14427635969417159433, 2724690589407405548)]);
    assert_eq!(
        proof.openings.quotient_polys,
        vec![ext(5916191884688770369, 16470745155072586286); 4]
    );
}

#[test]
fn violated_row_is_not_divisible() {
    let trace = rows(&[0, 1, 2, 50, 4, 5, 6, 7]);
    let commitment = commit_values(&[trace.iter().map(|row| row[0]).collect()], 3, 1);
    let first = lde(&ifft(&indicator_values(8, 0), 3), 4);
    let last = lde(&ifft(&indicator_values(8, 7), 3), 4);
    let quotient_values = compute_quotient_values(
        &IncrementStark {},
        &commitment,
        &vec![],
        &vec![3, 5],
        &first,
        &last,
        &zero_poly(3, 1),
    );
    assert_eq!(
        quotient_values[0][..4],
        [
            9395775040522656509,
            5357010192266486700,
            9063279138173752005,
            11918293378539014781
        ]
    );

    // the combined residues, as a polynomial, leave a remainder when
    // divided by the vanishing polynomial X^8 - 1
    let residues: Vec<u64> = (0..16)
        .map(|i| field_mul(quotient_values[0][i], vanishing(3, domain_point(4, i))))
        .collect();
    let residue_poly = coset_ifft(&residues, 4);
    let remainder: Vec<u64> =
        (0..8).map(|j| field_add(residue_poly[j], residue_poly[j + 8])).collect();
    assert!(remainder.iter().any(|&r| r != 0));
    // the remainder is the residue polynomial on the trace domain, where
    // the successor of a point is its neighbour in the extended domain
    let trace_poly = &commitment.polynomials[0];
    for j in 0..8 {
        let x = pow(root_of_unity(3), j);
        let neighbour = field_mul(x, root_of_unity(4));
        let residue = field_sub(field_sub(eval(trace_poly, neighbour), eval(trace_poly, x)), 1);
        assert_eq!(eval(&remainder, x), residue);
    }

    // and the quotient does not fit the trace degree: it needs more than
    // the eight coefficients of one piece
    let quotient_poly = coset_ifft(&quotient_values[0], 4);
    assert!(degree_plus_one_of(&quotient_poly) > 8);

    // proving goes through all the same: the prover does not check itself
    let proof = run(trace, vec![3, 5], ext(12345, 67890)).unwrap();
    assert_eq!(proof.openings.local_values.len(), 1);
    assert_eq!(proof.openings.next_values.len(), 1);
    assert_eq!(proof.openings.quotient_polys.len(), 4);
}

#[test]
fn proving_twice_gives_the_same_proof() {
    let zeta = ext(0xdead_beef, 0xfeed_f00d);
    let one = run(counting_trace(), vec![3, 5], zeta).unwrap();
    let other = run(counting_trace(), vec![3, 5], zeta).unwrap();
    assert_eq!(one.trace_cap, other.trace_cap);
    assert_eq!(one.openings, other.openings);
    assert_eq!(one.opening_proof, other.opening_proof);
    let different = run(rows(&[1, 2, 3, 4, 5, 6, 7, 8]), vec![3, 5], zeta).unwrap();
    assert_ne!(one.openings, different.openings);
}

#[test]
fn opening_point_in_the_subgroup_is_rejected() {
    let w = root_of_unity(3);
    for k in 0..8 {
        let zeta = ext(pow(w, k), 0);
        let result = run(counting_trace(), vec![3, 5], zeta);
        assert_eq!(result.err(), Some(ProveError::OpeningPointInSubgroup));
    }
    // the same point under another representative
    let result = run(counting_trace(), vec![3, 5], ext(ORDER + 1, ORDER));
    assert_eq!(result.err(), Some(ProveError::OpeningPointInSubgroup));
}

#[test]
fn opening_point_outside_the_subgroup_is_accepted() {
    // a point of the extended domain, but not of the trace domain
    let zeta = ext(root_of_unity(4), 0);
    assert!(!zeta.exp_power_of_2(3).is_one());
    assert!(run(counting_trace(), vec![3, 5], zeta).is_ok());
    assert!(run(counting_trace(), vec![3, 5], ext(0, 1)).is_ok());
    assert!(run(counting_trace(), vec![3, 5], ext(0, 0)).is_ok());
}

#[test]
fn quotient_beyond_the_domain_fails() {
    let stage = to_interpolation_stage(counting_trace(), vec![3, 5]);
    let mut long = vec![0; 17];
    long[16] = 1;
    let result = stage.interpolated(vec![vec![1; 16], long]);
    assert_eq!(result.err(), Some(ProveError::DegreeBound));
    assert_eq!(split_quotients(&vec![vec![1; 17]], 8, 2).err(), Some(ProveError::DegreeBound));
}

#[test]
fn quotient_with_trailing_zeros_is_trimmed_and_padded() {
    let stage = to_interpolation_stage(counting_trace(), vec![3, 5]);
    let mut long = vec![0; 40];
    long[9] = 6;
    let stage = stage.interpolated(vec![vec![1, 2, 3], long]).unwrap();
    assert_eq!(
        stage.all_quotient_chunks,
        vec![
            vec![1, 2, 3, 0, 0, 0, 0, 0],
            vec![0; 8],
            vec![0; 8],
            vec![0, 6, 0, 0, 0, 0, 0, 0],
        ]
    );
    assert_eq!(
        split_quotients(&vec![vec![1, 2, 3, 4, 5]], 2, 4).unwrap(),
        vec![vec![1, 2], vec![3, 4], vec![5, 0], vec![0, 0]]
    );
    assert_eq!(split_quotients(&vec![], 2, 4).unwrap(), Vec::<Vec<u64>>::new());
}

#[test]
fn answers_of_the_wrong_shape_are_refused() {
    let upstream = Some(ProveError::UpstreamFailure);

    // a commitment with a polynomial too many
    let stage = prove(IncrementStark {}, config(1, 2), counting_trace(), vec![]);
    let mut commitment = commit_values(&stage.trace_poly_values, 3, 1);
    commitment.polynomials.push(vec![0; 8]);
    assert_eq!(stage.committed(commitment).err(), upstream);

    // a commitment over the wrong domain
    let stage = prove(IncrementStark {}, config(1, 2), counting_trace(), vec![]);
    let commitment = commit_values(&stage.trace_poly_values, 3, 2);
    assert_eq!(stage.committed(commitment).err(), upstream);

    // a challenge too few
    let stage = to_challenge_stage(counting_trace(), 1);
    let table = vec![1; 16];
    let result = stage.quotient_inputs(vec![3], table.clone(), table.clone(), zero_poly(3, 1));
    assert_eq!(result.err(), upstream);

    // tables of the wrong length
    let stage = to_challenge_stage(counting_trace(), 1);
    let result = stage.quotient_inputs(vec![3, 5], vec![1; 8], table.clone(), zero_poly(3, 1));
    assert_eq!(result.err(), upstream);
    let stage = to_challenge_stage(counting_trace(), 1);
    let result = stage.quotient_inputs(vec![3, 5], table.clone(), vec![1; 17], zero_poly(3, 1));
    assert_eq!(result.err(), upstream);
    let stage = to_challenge_stage(counting_trace(), 1);
    let result = stage.quotient_inputs(vec![3, 5], table.clone(), table.clone(), zero_poly(3, 2));
    assert_eq!(result.err(), upstream);

    // a quotient too many
    let stage = to_interpolation_stage(counting_trace(), vec![3, 5]);
    assert_eq!(stage.interpolated(vec![vec![1]; 3]).err(), upstream);

    // a quotient commitment that holds too few polynomials
    let stage = to_interpolation_stage(counting_trace(), vec![3, 5]);
    let stage = stage.interpolated(vec![vec![1], vec![2]]).unwrap();
    let result = stage.committed(commit_coeffs(vec![vec![0; 8]; 3], 3, 1));
    assert_eq!(result.err(), upstream);
}

#[test]
fn a_trace_of_one_row_proves() {
    let stage = prove(IncrementStark {}, config(1, 1), rows(&[9]), vec![]);
    assert_eq!(stage.session.degree_bits, 0);
    let stage = stage.committed(commit_values(&[vec![9]], 0, 1)).unwrap();
    assert_eq!(stage.lagrange_first_values(), vec![1]);
    assert_eq!(stage.lagrange_last_values(), vec![1]);
    let stage = stage
        .quotient_inputs(vec![3], vec![1, 1], vec![1, 1], zero_poly(0, 1))
        .unwrap();
    // the trace polynomial is constant, so the residue is -1 everywhere
    let minus_one = ORDER - 1;
    let expected: Vec<u64> =
        (0..2).map(|i| field_mul(minus_one, inverse(vanishing(0, domain_point(1, i))))).collect();
    assert_eq!(stage.quotient_values, vec![expected]);
    let quotient_polys = vec![coset_ifft(&stage.quotient_values[0], 1)];
    let stage = stage.interpolated(quotient_polys).unwrap();
    assert_eq!(stage.all_quotient_chunks.len(), 2);
    let chunks = stage.all_quotient_chunks.clone();
    let stage = stage.committed(commit_coeffs(chunks, 0, 1)).unwrap();
    // with one row every point to the power one is itself: only one is refused
    assert!(stage.challenged(ext(5, 0), ext(1, 0)).is_ok());
}

#[test]
fn one_as_opening_point_is_refused_for_a_trace_of_one_row() {
    let stage = prove(IncrementStark {}, config(0, 1), rows(&[9]), vec![]);
    let stage = stage.committed(commit_values(&[vec![9]], 0, 0)).unwrap();
    let stage = stage.quotient_inputs(vec![3], vec![1], vec![1], zero_poly(0, 0)).unwrap();
    let stage = stage.interpolated(vec![vec![4]]).unwrap();
    assert_eq!(stage.all_quotient_chunks, vec![vec![4]]);
    let stage = stage.committed(commit_coeffs(vec![vec![4]], 0, 0)).unwrap();
    let result = stage.challenged(ext(1, 0), ext(1, 0));
    assert_eq!(result.err(), Some(ProveError::OpeningPointInSubgroup));
}
