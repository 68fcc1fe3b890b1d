use starky::commitment::PolynomialBatch;
use starky::config::{FriConfig, FriReductionStrategy, StarkConfig};
use starky::constraint_consumer::ConstraintConsumer;
use starky::extension::QuadraticExtension;
use starky::fibonacci_stark::FibonacciStark;
use starky::field::{exp_power_of_2, field_add, field_mul, field_sub, ORDER};
use starky::prover::prove;
use starky::stark::Stark;
use starky::stark_proof::FriPolynomialInfo;
use starky::vars::StarkEvaluationVars;
use starky::zero_poly_coset::ZeroPolyOnCoset;

const POWER_OF_TWO_GENERATOR: u64 = 7277203076849721926;
const COSET_SHIFT: u64 = 14293326489335486720;

fn ext(c0: u64, c1: u64) -> QuadraticExtension {
    QuadraticExtension { c0, c1 }
}

fn pow(base: u64, mut exponent: u64) -> u64 {
    let mut result = 1;
    let mut square = base;
    while exponent > 0 {
        if exponent & 1 == 1 {
            result = field_mul(result, square);
        }
        square = field_mul(square, square);
        exponent >>= 1;
    }
    result
}

fn inverse(x: u64) -> u64 {
    pow(x, ORDER - 2)
}

fn root_of_unity(bits: usize) -> u64 {
    exp_power_of_2(POWER_OF_TWO_GENERATOR, 32 - bits)
}

fn eval(coeffs: &[u64], x: u64) -> u64 {
    coeffs.iter().rev().fold(0, |acc, &c| field_add(field_mul(acc, x), c))
}

fn ifft(values: &[u64], bits: usize) -> Vec<u64> {
    let w_inv = inverse(root_of_unity(bits));
    let n_inv = inverse(values.len() as u64);
    (0..values.len())
        .map(|j| {
            let step = pow(w_inv, j as u64);
            let mut point = 1;
            let mut sum = 0;
            for &v in values {
                sum = field_add(sum, field_mul(v, point));
                point = field_mul(point, step);
            }
            field_mul(sum, n_inv)
        })
        .collect()
}

fn coset_ifft(values: &[u64], bits: usize) -> Vec<u64> {
    let shift_inv = inverse(COSET_SHIFT);
    ifft(values, bits)
        .iter()
        .enumerate()
        .map(|(j, &c)| field_mul(c, pow(shift_inv, j as u64)))
        .collect()
}

fn domain_point(bits: usize, i: usize) -> u64 {
    field_mul(COSET_SHIFT, pow(root_of_unity(bits), i as u64))
}

fn lde(coeffs: &[u64], bits: usize) -> Vec<u64> {
    (0..1usize << bits).map(|i| eval(coeffs, domain_point(bits, i))).collect()
}

fn zero_poly(degree_bits: usize, rate_bits: usize) -> ZeroPolyOnCoset {
    let inverses = (0..1usize << rate_bits)
        .map(|i| {
            let x = domain_point(degree_bits + rate_bits, i);
            inverse(field_sub(exp_power_of_2(x, degree_bits), 1))
        })
        .collect();
    ZeroPolyOnCoset { inverses }
}

fn commit_coeffs(polynomials: Vec<Vec<u64>>, bits: usize) -> PolynomialBatch {
    let columns: Vec<Vec<u64>> = polynomials.iter().map(|p| lde(p, bits)).collect();
    let lde_values = (0..1usize << bits)
        .map(|i| columns.iter().map(|column| column[i]).collect())
        .collect();
    PolynomialBatch { polynomials, lde_values, cap: vec![[9, 8, 7, 6], [5, 4, 3, 2]] }
}

fn fibonacci_trace(rows: usize) -> Vec<Vec<u64>> {
    let mut trace = vec![vec![0, 1]];
    for i in 1..rows {
        let (x0, x1) = (trace[i - 1][0], trace[i - 1][1]);
        trace.push(vec![x1, field_add(x0, x1)]);
    }
    trace
}

fn config() -> StarkConfig {
    StarkConfig {
        security_bits: 100,
        num_challenges: 2,
        fri_config: FriConfig {
            rate_bits: 1,
            cap_height: 1,
            proof_of_work_bits: 10,
            reduction_strategy: FriReductionStrategy::MinSize(None),
            num_query_rounds: 90,
        },
    }
}

fn accumulated(local: [u64; 2], next: [u64; 2], inputs: [u64; 3], first: u64, last: u64) -> Vec<u64> {
    let (local_values, next_values, public_inputs) =
        (local.to_vec(), next.to_vec(), inputs.to_vec());
    let mut consumer = ConstraintConsumer::new(vec![1, 10], first, last);
    FibonacciStark {}.eval_packed_base(
        StarkEvaluationVars {
            local_values: &local_values,
            next_values: &next_values,
            public_inputs: &public_inputs,
        },
        &mut consumer,
    );
    consumer.accumulators()
}

#[test]
fn fibonacci_stark_has_two_columns_and_three_public_inputs() {
    assert_eq!(FibonacciStark {}.columns(), 2);
    assert_eq!(FibonacciStark {}.public_inputs(), 3);
    assert_eq!(FibonacciStark::PI_INDEX_X0, 0);
    assert_eq!(FibonacciStark::PI_INDEX_X1, 1);
    assert_eq!(FibonacciStark::PI_INDEX_RES, 2);
}

#[test]
fn fibonacci_residues_vanish_on_a_true_step() {
    // an inner row: the boundary residues are switched off
    assert_eq!(accumulated([3, 5], [5, 8], [0, 1, 21], 0, 0), vec![0, 0]);
    // the first row
    assert_eq!(accumulated([0, 1], [1, 1], [0, 1, 21], 1, 0), vec![0, 0]);
    // the last row, but for its successor
    assert_eq!(accumulated([13, 21], [21, 34], [0, 1, 21], 0, 1), vec![0, 0]);
}

#[test]
fn fibonacci_residues_in_their_order() {
    // residues: first row 3 - 1 = 2 and 5 - 2 = 3, last row 5 - 4 = 1,
    // every row 7 - 5 = 2 and 11 - 3 - 5 = 3; the first row counts
    // twice and the last row three times
    let accs = accumulated([3, 5], [7, 11], [1, 2, 4], 2, 3);
    assert_eq!(accs[0], 4 + 6 + 3 + 2 + 3);
    assert_eq!(accs[1], 40000 + 6000 + 300 + 20 + 3);
}

#[test]
fn fibonacci_trace_of_eight_rows_proves() {
    let trace = fibonacci_trace(8);
    assert_eq!(trace[7], vec![13, 21]);
    let stage = prove(FibonacciStark {}, config(), trace, vec![0, 1, 21]);
    assert_eq!(stage.trace_poly_values[0], vec![0, 1, 1, 2, 3, 5, 8, 13]);
    assert_eq!(stage.trace_poly_values[1], vec![1, 1, 2, 3, 5, 8, 13, 21]);

    let polynomials = stage.trace_poly_values.iter().map(|v| ifft(v, 3)).collect();
    let stage = stage.committed(commit_coeffs(polynomials, 4)).unwrap();
    let first = lde(&ifft(&stage.lagrange_first_values(), 3), 4);
    let last = lde(&ifft(&stage.lagrange_last_values(), 3), 4);
    let stage = stage.quotient_inputs(vec![3, 5], first, last, zero_poly(3, 1)).unwrap();
    assert_eq!(
        stage.quotient_values[0][..3],
        [13137474825707709134, 7062194167965737437, 11426552777817814835]
    );
    assert_eq!(stage.quotient_values[0][15], 490483199916657650);
    assert_eq!(
        stage.quotient_values[1][..3],
        [3380597650125422743, 8773712022086323987, 7445181928156085117]
    );
    assert_eq!(stage.quotient_values[1][15], 10964347093618197349);

    let quotient_polys = stage.quotient_values.iter().map(|v| coset_ifft(v, 4)).collect();
    let stage = stage.interpolated(quotient_polys).unwrap();
    let chunks = stage.all_quotient_chunks.clone();
    assert_eq!(chunks.len(), 4);
    let stage = stage.committed(commit_coeffs(chunks, 4)).unwrap();

    let zeta = ext(12345, 67890);
    let stage = stage.challenged(zeta, ext(root_of_unity(3), 0)).unwrap();
    let info = |oracle_index, polynomial_index| FriPolynomialInfo { oracle_index, polynomial_index };
    assert_eq!(
        stage.instance.batches[0].polynomials,
        vec![info(0, 0), info(0, 1), info(1, 0), info(1, 1), info(1, 2), info(1, 3)]
    );
    assert_eq!(stage.instance.batches[1].polynomials, vec![info(0, 0), info(0, 1)]);

    let proof = stage.opened(());
    assert_eq!(proof.trace_cap, vec![[9, 8, 7, 6], [5, 4, 3, 2]]);
    assert_eq!(
        proof.openings.local_values,
        vec![
            ext(2069169206563251535, 12365984324658852050),
            ext(12085628475296135294, 12383260122947274427),
        ]
    );
    assert_eq!(
        proof.openings.next_values,
        vec![
            ext(3238544905844926552, 8532209481089114320),
            ext(5522736092554511469, 5521347675104314651),
        ]
    );
    assert_eq!(
        proof.openings.quotient_polys,
        vec![
            ext(8431811627776344538, 12498371140416967675),
            ext(15882275694909104618, 15743425120855744776),
            ext(3978595875779384224, 531883249594442045),
            ext(2461285386655107965, 5020607255044773091),
        ]
    );
}
