//! Polynomials over the Goldilocks field in coefficient form, lowest
//! coefficient first.

use crate::extension::{
    ext_power, ext_product, ext_sum, is_reduced, lemma_ext_neutral, lemma_ext_product_associative,
    lemma_ext_product_commutative, lemma_ext_product_distributes, lemma_ext_reduced,
    lemma_ext_sum_associative, lemma_ext_sum_commutative, QuadraticExtension,
};
use crate::field;
use crate::field::is_zero;
use vstd::prelude::*;

verus! {

/// The number of coefficients up to the last one that is not zero.
pub open spec fn degree_plus_one(coeffs: Seq<u64>) -> nat
    decreases coeffs.len(),
{
    if coeffs.len() == 0 {
        0
    } else if field::residue(coeffs.last() as int) != 0 {
        coeffs.len()
    } else {
        degree_plus_one(coeffs.drop_last())
    }
}

/// The coefficients without their trailing zeros.
pub open spec fn trimmed(coeffs: Seq<u64>) -> Seq<u64> {
    coeffs.take(degree_plus_one(coeffs) as int)
}

/// The coefficients followed by zeros up to the length `new_len`.
pub open spec fn padded(coeffs: Seq<u64>, new_len: nat) -> Seq<u64> {
    coeffs + Seq::new((new_len - coeffs.len()) as nat, |i: int| 0u64)
}

/// The number of pieces of `size` that cover `len` coefficients.
pub open spec fn num_chunks(len: nat, size: nat) -> nat {
    ((len + size - 1) / (size as int)) as nat
}

/// The `j`-th piece of `size` coefficients; the last one may be shorter.
pub open spec fn chunk(coeffs: Seq<u64>, size: nat, j: int) -> Seq<u64> {
    coeffs.subrange(
        j * size,
        if (j + 1) * size <= coeffs.len() {
            (j + 1) * size
        } else {
            coeffs.len() as int
        },
    )
}

/// The pieces of `size` coefficients, in order.
pub open spec fn chunked(coeffs: Seq<u64>, size: nat) -> Seq<Seq<u64>> {
    Seq::new(num_chunks(coeffs.len(), size), |j: int| chunk(coeffs, size, j))
}

/// The value at `z` of the polynomial with the given coefficients.
pub open spec fn evaluation(coeffs: Seq<u64>, z: (int, int)) -> (int, int)
    decreases coeffs.len(),
{
    if coeffs.len() == 0 {
        (0, 0)
    } else {
        ext_sum(
            ext_product(evaluation(coeffs.drop_first(), z), z),
            (field::residue(coeffs[0] as int), 0),
        )
    }
}

/// Trimming leaves as many coefficients as the degree says, and no more
/// than there were.
pub proof fn lemma_trimmed_len(coeffs: Seq<u64>)
    ensures
        degree_plus_one(coeffs) <= coeffs.len(),
        trimmed(coeffs).len() == degree_plus_one(coeffs),
    decreases coeffs.len(),
{
    if coeffs.len() > 0 && field::residue(coeffs.last() as int) == 0 {
        lemma_trimmed_len(coeffs.drop_last());
    }
}

/// A request to pad a polynomial to fewer coefficients than it has.
#[derive(Clone, Copy, Debug, PartialEq, Eq)]
pub struct PadError {
    /// The number of coefficients of the polynomial.
    pub len: usize,
    /// The length asked for.
    pub new_len: usize,
}

/// The number of coefficients up to the last one that is not zero.
pub fn degree_plus_one_of(coeffs: &Vec<u64>) -> (n: usize)
    ensures
        n == degree_plus_one(coeffs@),
        n <= coeffs@.len(),
{
    let mut n: usize = coeffs.len();
    assert(coeffs@.take(n as int) =~= coeffs@);
    while n > 0
        invariant
            n <= coeffs@.len(),
            degree_plus_one(coeffs@) == degree_plus_one(coeffs@.take(n as int)),
        decreases n,
    {
        if !is_zero(coeffs[n - 1]) {
            return n;
        }
        assert(coeffs@.take(n as int).drop_last() == coeffs@.take(n - 1));
        n = n - 1;
    }
    n
}

/// Removes the trailing zero coefficients.
pub fn trim(coeffs: &mut Vec<u64>)
    ensures
        final(coeffs)@ == trimmed(old(coeffs)@),
{
    let n: usize = degree_plus_one_of(coeffs);
    coeffs.truncate(n);
}

/// Adds zero coefficients up to the length `new_len`; refuses a length
/// below the present one and then leaves the coefficients as they were.
pub fn pad(coeffs: &mut Vec<u64>, new_len: usize) -> (result: Result<(), PadError>)
    ensures
        result is Ok <==> new_len >= old(coeffs)@.len(),
        result is Ok ==> final(coeffs)@ == padded(old(coeffs)@, new_len as nat),
        result is Err ==> final(coeffs)@ == old(coeffs)@ && result == Err::<(), PadError>(
            PadError { len: old(coeffs)@.len() as usize, new_len },
        ),
{
    if new_len < coeffs.len() {
        return Err(PadError { len: coeffs.len(), new_len });
    }
    let ghost before = coeffs@;
    while coeffs.len() < new_len
        invariant
            before.len() <= coeffs@.len() <= new_len,
            coeffs@ == padded(before, coeffs@.len()),
        decreases new_len - coeffs@.len(),
    {
        coeffs.push(0);
        assert(coeffs@ =~= padded(before, coeffs@.len()));
    }
    Ok(())
}

/// Splits the coefficients into pieces of `chunk_size`; the last piece may
/// be shorter.
pub fn chunks(coeffs: &Vec<u64>, chunk_size: usize) -> (pieces: Vec<Vec<u64>>)
    requires
        chunk_size > 0,
    ensures
        pieces@.len() == num_chunks(coeffs@.len(), chunk_size as nat),
        forall|j: int|
            0 <= j < pieces@.len() ==> (#[trigger] pieces@[j])@ == chunk(
                coeffs@,
                chunk_size as nat,
                j,
            ),
{
    let len: usize = coeffs.len();
    let mut pieces: Vec<Vec<u64>> = Vec::new();
    let mut start: usize = 0;
    proof {
        lemma_num_chunks_steps(len as nat, chunk_size as nat, 0);
    }
    while start < len
        invariant
            chunk_size > 0,
            len == coeffs@.len(),
            start <= len,
            start < len ==> start == pieces@.len() * chunk_size,
            start == len ==> pieces@.len() == num_chunks(len as nat, chunk_size as nat),
            pieces@.len() <= num_chunks(len as nat, chunk_size as nat),
            forall|j: int|
                0 <= j < pieces@.len() ==> (#[trigger] pieces@[j])@ == chunk(
                    coeffs@,
                    chunk_size as nat,
                    j,
                ),
        decreases len - start,
    {
        let end: usize = if len - start >= chunk_size {
            start + chunk_size
        } else {
            len
        };
        let ghost j = pieces@.len() as int;
        proof {
            assert((j + 1) * chunk_size == start + chunk_size) by (nonlinear_arith)
                requires
                    start == j * chunk_size,
            ;
            lemma_num_chunks_steps(len as nat, chunk_size as nat, j as nat);
            lemma_num_chunks_steps(len as nat, chunk_size as nat, (j + 1) as nat);
        }
        let mut piece: Vec<u64> = Vec::new();
        let mut i: usize = start;
        while i < end
            invariant
                start <= i <= end <= len,
                len == coeffs@.len(),
                piece@ == coeffs@.subrange(start as int, i as int),
            decreases end - i,
        {
            piece.push(coeffs[i]);
            assert(piece@ =~= coeffs@.subrange(start as int, i + 1));
            i = i + 1;
        }
        pieces.push(piece);
        start = end;
    }
    pieces
}

/// While `j` pieces do not reach the end, there are more than `j` pieces;
/// once they do, and the piece before did not, there are exactly `j`.
pub proof fn lemma_num_chunks_steps(len: nat, size: nat, j: nat)
    requires
        size > 0,
    ensures
        j * size < len <==> j < num_chunks(len, size),
        j * size >= len && (j == 0 || (j - 1) * size < len) ==> num_chunks(len, size) == j,
{
    let total = (len + size - 1) as int;
    let n = num_chunks(len, size) as int;
    vstd::arithmetic::div_mod::lemma_fundamental_div_mod(total, size as int);
    vstd::arithmetic::div_mod::lemma_mod_bound(total, size as int);
    vstd::arithmetic::div_mod::lemma_div_pos_is_pos(total, size as int);
    // size * n <= len + size - 1 < size * (n + 1)
    assert(size * n <= total < size * n + size);
    if j * size < len {
        if j >= n {
            assert(j * size >= n * size) by (nonlinear_arith)
                requires
                    j >= n,
                    size > 0,
            ;
            assert(size * n == n * size) by (nonlinear_arith);
        }
    }
    if j < n {
        assert((j + 1) * size <= n * size) by (nonlinear_arith)
            requires
                j + 1 <= n,
                size > 0,
        ;
        assert((j + 1) * size == j * size + size) by (nonlinear_arith);
        assert(size * n == n * size) by (nonlinear_arith);
    }
    if j * size >= len && (j == 0 || (j - 1) * size < len) {
        assert(size * n == n * size) by (nonlinear_arith);
        if n > j {
            assert(n * size >= (j + 1) * size) by (nonlinear_arith)
                requires
                    n >= j + 1,
                    size > 0,
            ;
            assert((j + 1) * size == j * size + size) by (nonlinear_arith);
        }
        if n < j {
            assert((j - 1) * size >= n * size) by (nonlinear_arith)
                requires
                    j - 1 >= n,
                    size > 0,
            ;
        }
    }
}

/// The value of the polynomial at the point `z` of the extension.
pub fn eval_ext(coeffs: &Vec<u64>, z: &QuadraticExtension) -> (value: QuadraticExtension)
    ensures
        value.is_canonical(),
        value@ == evaluation(coeffs@, z@),
{
    let len: usize = coeffs.len();
    let mut acc = QuadraticExtension::zero();
    let mut j: usize = len;
    proof {
        assert(coeffs@.subrange(len as int, len as int) =~= Seq::<u64>::empty());
        assert(field::residue(0) == 0);
    }
    while j > 0
        invariant
            j <= len,
            len == coeffs@.len(),
            acc.is_canonical(),
            acc@ == evaluation(coeffs@.subrange(j as int, len as int), z@),
        decreases j,
    {
        j = j - 1;
        let scaled = acc.ext_mul(z);
        let term = QuadraticExtension::from_base(coeffs[j]);
        proof {
            let tail = coeffs@.subrange(j as int, len as int);
            assert(tail.drop_first() =~= coeffs@.subrange(j + 1, len as int));
            assert(tail[0] == coeffs@[j as int]);
        }
        acc = scaled.ext_add(&term);
    }
    proof {
        assert(coeffs@.subrange(0, len as int) =~= coeffs@);
    }
    acc
}

/// The pieces joined end to end.
pub open spec fn joined(pieces: Seq<Seq<u64>>) -> Seq<u64>
    decreases pieces.len(),
{
    if pieces.len() == 0 {
        Seq::empty()
    } else {
        pieces[0] + joined(pieces.drop_first())
    }
}

/// The values at `z` of the pieces.
pub open spec fn piece_evaluations(pieces: Seq<Seq<u64>>, z: (int, int)) -> Seq<(int, int)> {
    Seq::new(pieces.len(), |j: int| evaluation(pieces[j], z))
}

/// The sum of the `values`, the `j`-th weighted by the `j`-th power of `y`.
pub open spec fn reduce_with_powers(values: Seq<(int, int)>, y: (int, int)) -> (int, int)
    decreases values.len(),
{
    if values.len() == 0 {
        (0, 0)
    } else {
        ext_sum(values[0], ext_product(y, reduce_with_powers(values.drop_first(), y)))
    }
}

/// Every value of a polynomial is a pair of canonical residues.
pub proof fn lemma_evaluation_reduced(coeffs: Seq<u64>, z: (int, int))
    ensures
        is_reduced(evaluation(coeffs, z)),
{
    if coeffs.len() > 0 {
        lemma_ext_reduced(
            ext_product(evaluation(coeffs.drop_first(), z), z),
            (field::residue(coeffs[0] as int), 0),
        );
    }
}

/// The pieces of a polynomial, after the first, are the pieces of what
/// follows the first piece.
pub proof fn lemma_chunked_tail(coeffs: Seq<u64>, size: nat)
    requires
        size > 0,
        coeffs.len() > 0,
    ensures
        chunked(coeffs, size).len() > 0,
        chunked(coeffs, size)[0] == chunk(coeffs, size, 0),
        size <= coeffs.len() ==> chunked(coeffs, size).drop_first() == chunked(
            coeffs.skip(size as int),
            size,
        ),
        size > coeffs.len() ==> chunked(coeffs, size).len() == 1,
{
    let len = coeffs.len();
    assert(0 * size == 0);
    assert(1 * size == size);
    lemma_num_chunks_steps(len, size, 0);
    if size > len {
        lemma_num_chunks_steps(len, size, 1);
    } else {
        let rest = coeffs.skip(size as int);
        let n = num_chunks(len, size);
        let m = num_chunks(rest.len(), size);
        // len + size - 1 = (len - size) + size - 1 + size
        vstd::arithmetic::div_mod::lemma_div_plus_one((len - size) + size - 1, size as int);
        assert(n == m + 1);
        assert forall|j: int| 0 <= j < m implies chunked(coeffs, size).drop_first()[j]
            == chunked(rest, size)[j] by {
            assert((j + 1) * size == j * size + size) by (nonlinear_arith);
            assert((j + 2) * size == (j + 1) * size + size) by (nonlinear_arith);
            assert(j * size >= 0) by (nonlinear_arith)
                requires
                    j >= 0,
                    size > 0,
            ;
            lemma_num_chunks_steps(rest.len(), size, j as nat);
            assert(chunk(coeffs, size, j + 1) =~= chunk(rest, size, j));
        }
        assert(chunked(coeffs, size).drop_first() =~= chunked(rest, size));
    }
}

/// Cutting a polynomial into pieces and joining the pieces gives the
/// polynomial back.
pub proof fn lemma_chunks_join(coeffs: Seq<u64>, size: nat)
    requires
        size > 0,
    ensures
        joined(chunked(coeffs, size)) == coeffs,
    decreases coeffs.len(),
{
    if coeffs.len() == 0 {
        lemma_num_chunks_steps(0, size, 0);
        assert(chunked(coeffs, size) =~= Seq::<Seq<u64>>::empty());
        assert(coeffs =~= Seq::<u64>::empty());
    } else {
        lemma_chunked_tail(coeffs, size);
        assert(1 * size == size);
        assert(0 * size == 0);
        let pieces = chunked(coeffs, size);
        assert(joined(pieces) == pieces[0] + joined(pieces.drop_first()));
        if size <= coeffs.len() {
            lemma_chunks_join(coeffs.skip(size as int), size);
            assert(chunk(coeffs, size, 0) + coeffs.skip(size as int) =~= coeffs);
        } else {
            assert(pieces.drop_first() =~= Seq::<Seq<u64>>::empty());
            assert(joined(pieces.drop_first()) =~= Seq::<u64>::empty());
            assert(chunk(coeffs, size, 0) + Seq::<u64>::empty() =~= coeffs);
        }
    }
}

/// The value of a polynomial whose coefficients are those of `low`
/// followed by those of `high`: `low(z) + z^len(low) * high(z)`.
pub proof fn lemma_evaluation_split(low: Seq<u64>, high: Seq<u64>, z: (int, int))
    ensures
        evaluation(low + high, z) == ext_sum(
            evaluation(low, z),
            ext_product(ext_power(z, low.len()), evaluation(high, z)),
        ),
    decreases low.len(),
{
    lemma_evaluation_reduced(high, z);
    if low.len() == 0 {
        assert(low + high =~= high);
        lemma_ext_neutral(evaluation(high, z));
    } else {
        let rest = low.drop_first();
        let head = (field::residue(low[0] as int), 0int);
        assert((low + high).drop_first() =~= rest + high);
        assert((low + high)[0] == low[0]);
        lemma_evaluation_split(rest, high, z);
        let e_rest = evaluation(rest, z);
        let e_high = evaluation(high, z);
        let shifted = ext_product(ext_power(z, rest.len()), e_high);
        // ((e_rest + shifted) * z) + head
        lemma_ext_product_distributes(e_rest, shifted, z);
        let first = ext_product(e_rest, z);
        let second = ext_product(shifted, z);
        // second = z^(len) * e_high
        lemma_ext_product_commutative(shifted, z);
        lemma_ext_product_associative(z, ext_power(z, rest.len()), e_high);
        assert(ext_product(z, ext_power(z, rest.len())) == ext_power(z, low.len())) by {
            assert(rest.len() == (low.len() - 1) as nat);
        }
        // (first + second) + head = (first + head) + second
        lemma_ext_sum_associative(first, second, head);
        lemma_ext_sum_commutative(second, head);
        lemma_ext_sum_associative(first, head, second);
    }
}

/// The recombination rule: where every piece has `size` coefficients, the
/// value of a polynomial at `z` is the sum of the values of its pieces,
/// the `j`-th weighted by the `j`-th power of `z^size`.
pub proof fn lemma_chunk_recombination(coeffs: Seq<u64>, size: nat, z: (int, int))
    requires
        size > 0,
        coeffs.len() % size == 0,
    ensures
        evaluation(coeffs, z) == reduce_with_powers(
            piece_evaluations(chunked(coeffs, size), z),
            ext_power(z, size),
        ),
    decreases coeffs.len(),
{
    let pieces = chunked(coeffs, size);
    if coeffs.len() == 0 {
        lemma_num_chunks_steps(0, size, 0);
        assert(piece_evaluations(pieces, z) =~= Seq::<(int, int)>::empty());
    } else {
        assert(coeffs.len() >= size) by {
            if coeffs.len() < size {
                vstd::arithmetic::div_mod::lemma_small_mod(coeffs.len(), size);
            }
        }
        let rest = coeffs.skip(size as int);
        lemma_chunked_tail(coeffs, size);
        assert(rest.len() % size == 0) by {
            vstd::arithmetic::div_mod::lemma_mod_sub_multiples_vanish(
                coeffs.len() as int,
                size as int,
            );
        }
        lemma_chunk_recombination(rest, size, z);
        assert(1 * size == size);
        assert(0 * size == 0);
        let first = chunk(coeffs, size, 0);
        assert(first + rest =~= coeffs);
        lemma_evaluation_split(first, rest, z);
        let values = piece_evaluations(pieces, z);
        assert(values.drop_first() =~= piece_evaluations(chunked(rest, size), z)) by {
            assert forall|j: int| 0 <= j < values.len() - 1 implies values.drop_first()[j]
                == piece_evaluations(chunked(rest, size), z)[j] by {
                assert(pieces.drop_first()[j] == pieces[j + 1]);
            }
        }
        assert(values[0] == evaluation(first, z));
    }
}

} // verus!
