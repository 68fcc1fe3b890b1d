//! Small helpers on matrices and powers of two.

use vstd::arithmetic::power2::{lemma_pow2_pos, lemma_pow2_strictly_increases, lemma_pow2_unfold, pow2};
use vstd::prelude::*;

verus! {

/// Whether every row of `matrix` has `width` entries.
pub open spec fn is_rectangular(matrix: Seq<Vec<u64>>, width: nat) -> bool {
    forall|j: int| 0 <= j < matrix.len() ==> (#[trigger] matrix[j])@.len() == width
}

/// The matrix of `width` rows whose entry `(i, j)` is entry `(j, i)` of `matrix`.
pub open spec fn transposed(matrix: Seq<Vec<u64>>, width: nat) -> Seq<Seq<u64>> {
    Seq::new(width, |i: int| Seq::new(matrix.len(), |j: int| matrix[j]@[i]))
}

/// Whether `n` is a power of two.
pub open spec fn is_power_of_two(n: nat) -> bool {
    exists|k: nat| n == #[trigger] pow2(k)
}

/// Turns the rows of a rectangular matrix into columns.
pub fn transpose(matrix: &Vec<Vec<u64>>) -> (result: Vec<Vec<u64>>)
    requires
        matrix@.len() > 0,
        is_rectangular(matrix@, matrix@[0]@.len()),
    ensures
        result@.len() == matrix@[0]@.len(),
        forall|i: int|
            0 <= i < result@.len() ==> (#[trigger] result@[i])@ == transposed(
                matrix@,
                matrix@[0]@.len(),
            )[i],
{
    let height: usize = matrix.len();
    let width: usize = matrix[0].len();
    let mut result: Vec<Vec<u64>> = Vec::new();
    let mut i: usize = 0;
    while i < width
        invariant
            i <= width,
            height == matrix@.len(),
            width == matrix@[0]@.len(),
            is_rectangular(matrix@, width as nat),
            result@.len() == i,
            forall|a: int|
                0 <= a < i ==> (#[trigger] result@[a])@ == transposed(matrix@, width as nat)[a],
        decreases width - i,
    {
        let mut column: Vec<u64> = Vec::new();
        let mut j: usize = 0;
        while j < height
            invariant
                j <= height,
                i < width,
                height == matrix@.len(),
                is_rectangular(matrix@, width as nat),
                column@.len() == j,
                forall|b: int| 0 <= b < j ==> (#[trigger] column@[b]) == matrix@[b]@[i as int],
            decreases height - j,
        {
            column.push(matrix[j][i]);
            j = j + 1;
        }
        assert(column@ =~= transposed(matrix@, width as nat)[i as int]);
        result.push(column);
        i = i + 1;
    }
    result
}

/// The binary logarithm of a power of two.
///
/// Calls `plonky2_util::log2_strict`, which counts the trailing zero bits of
/// `n` and panics unless shifting them out leaves one. On a power of two it
/// therefore returns the exponent.
#[verifier::external_body]
pub(crate) fn log2_strict(n: usize) -> (bits: usize)
    requires
        is_power_of_two(n as nat),
    ensures
        pow2(bits as nat) == n,
{
    plonky2_util::log2_strict(n)
}

/// Tests whether `n` is a power of two.
pub fn is_power_of_two_usize(n: usize) -> (b: bool)
    ensures
        b == is_power_of_two(n as nat),
{
    let mut p: usize = 1;
    let ghost mut k: nat = 0;
    proof {
        vstd::arithmetic::power2::lemma2_to64();
    }
    while p < n
        invariant
            p >= 1,
            p == pow2(k),
            forall|j: nat| j < k ==> #[trigger] pow2(j) < n,
        decreases usize::MAX - p,
    {
        if p > usize::MAX / 2 {
            proof {
                lemma_pow2_unfold(k + 1);
                assert forall|j: nat| n != #[trigger] pow2(j) by {
                    if j > k + 1 {
                        lemma_pow2_strictly_increases(k + 1, j);
                    }
                }
            }
            return false;
        }
        proof {
            lemma_pow2_unfold(k + 1);
            k = k + 1;
        }
        p = p * 2;
    }
    proof {
        if p != n {
            assert forall|j: nat| n != #[trigger] pow2(j) by {
                if j > k {
                    lemma_pow2_strictly_increases(k, j);
                }
            }
        }
    }
    p == n
}

/// Two to the power `bits`.
pub fn pow2_usize(bits: usize) -> (r: usize)
    requires
        pow2(bits as nat) <= usize::MAX,
    ensures
        r == pow2(bits as nat),
{
    let mut p: usize = 1;
    let mut i: usize = 0;
    proof {
        vstd::arithmetic::power2::lemma2_to64();
    }
    while i < bits
        invariant
            i <= bits,
            p == pow2(i as nat),
            pow2(bits as nat) <= usize::MAX,
        decreases bits - i,
    {
        proof {
            lemma_pow2_unfold((i + 1) as nat);
            if i + 1 < bits {
                lemma_pow2_strictly_increases((i + 1) as nat, bits as nat);
            }
        }
        p = p * 2;
        i = i + 1;
    }
    p
}

/// Two to the power `bits`, where that fits the machine word.
pub fn checked_pow2(bits: usize) -> (r: Option<usize>)
    ensures
        r is Some <==> pow2(bits as nat) <= usize::MAX,
        r is Some ==> r->Some_0 == pow2(bits as nat),
{
    let mut p: usize = 1;
    let mut i: usize = 0;
    proof {
        vstd::arithmetic::power2::lemma2_to64();
    }
    while i < bits
        invariant
            i <= bits,
            p == pow2(i as nat),
        decreases bits - i,
    {
        if p > usize::MAX / 2 {
            proof {
                lemma_pow2_unfold((i + 1) as nat);
                if i + 1 < bits {
                    lemma_pow2_strictly_increases((i + 1) as nat, bits as nat);
                }
            }
            return None;
        }
        proof {
            lemma_pow2_unfold((i + 1) as nat);
        }
        p = p * 2;
        i = i + 1;
    }
    Some(p)
}

/// The size of the extended domain, `degree * 2^rate_bits`, where that
/// fits the machine word.
pub fn domain_size(degree: usize, rate_bits: usize) -> (r: Option<usize>)
    ensures
        r is Some <==> degree * pow2(rate_bits as nat) <= usize::MAX,
        r is Some ==> r->Some_0 == degree * pow2(rate_bits as nat),
{
    proof {
        lemma_pow2_pos(rate_bits as nat);
    }
    if degree == 0 {
        assert(0 * pow2(rate_bits as nat) == 0);
        return Some(0);
    }
    match checked_pow2(rate_bits) {
        None => {
            proof {
                assert(degree * pow2(rate_bits as nat) >= pow2(rate_bits as nat))
                    by (nonlinear_arith)
                    requires
                        degree >= 1,
                        pow2(rate_bits as nat) > 0,
                ;
            }
            None
        },
        Some(rate) => {
            if degree > usize::MAX / rate {
                proof {
                    assert(degree * rate > usize::MAX) by (nonlinear_arith)
                        requires
                            degree > usize::MAX / rate,
                            rate > 0,
                    ;
                }
                None
            } else {
                proof {
                    assert(degree * rate <= usize::MAX) by (nonlinear_arith)
                        requires
                            degree <= usize::MAX / rate,
                            rate > 0,
                    ;
                }
                Some(degree * rate)
            }
        },
    }
}

} // verus!
