//! What the prover reads of a polynomial commitment.

use crate::util::is_rectangular;
use vstd::prelude::*;

verus! {

/// A batch of committed polynomials in plain values: their coefficients,
/// their values over the extended domain, and the cap of the Merkle tree
/// built over those values.
pub struct PolynomialBatch {
    /// The coefficients of each polynomial.
    pub polynomials: Vec<Vec<u64>>,
    /// Row `i` holds the values of all the polynomials at the `i`-th point
    /// of the extended domain.
    pub lde_values: Vec<Vec<u64>>,
    /// The digests of the cap, four field elements each.
    pub cap: Vec<[u64; 4]>,
}

impl PolynomialBatch {
    /// The batch holds `num_polys` polynomials of `degree` coefficients
    /// each, and one row of their values for each of `domain` points.
    pub open spec fn is_shaped(&self, num_polys: nat, degree: nat, domain: nat) -> bool {
        &&& self.polynomials@.len() == num_polys
        &&& is_rectangular(self.polynomials@, degree)
        &&& self.lde_values@.len() == domain
        &&& is_rectangular(self.lde_values@, num_polys)
    }

    /// The batch holds `num_polys` polynomials of `degree` coefficients each.
    pub open spec fn holds_polynomials(&self, num_polys: nat, degree: nat) -> bool {
        &&& self.polynomials@.len() == num_polys
        &&& is_rectangular(self.polynomials@, degree)
    }

    /// Tests the number and the length of the polynomials.
    pub fn has_polynomials(&self, num_polys: usize, degree: usize) -> (ok: bool)
        ensures
            ok == self.holds_polynomials(num_polys as nat, degree as nat),
    {
        self.polynomials.len() == num_polys && all_of_length(&self.polynomials, degree)
    }

    /// The values of the polynomials at the point of the extended domain
    /// with the given index.
    pub fn get_lde_values(&self, index: usize) -> (row: &Vec<u64>)
        requires
            index < self.lde_values@.len(),
        ensures
            *row == self.lde_values@[index as int],
    {
        &self.lde_values[index]
    }

    /// Tests the shape of the batch.
    pub fn has_shape(&self, num_polys: usize, degree: usize, domain: usize) -> (ok: bool)
        ensures
            ok == self.is_shaped(num_polys as nat, degree as nat, domain as nat),
    {
        if self.polynomials.len() != num_polys || self.lde_values.len() != domain {
            return false;
        }
        let rows_ok = all_of_length(&self.lde_values, num_polys);
        let polys_ok = all_of_length(&self.polynomials, degree);
        rows_ok && polys_ok
    }
}

/// Tests that every row of `matrix` has `width` entries.
pub fn all_of_length(matrix: &Vec<Vec<u64>>, width: usize) -> (ok: bool)
    ensures
        ok == is_rectangular(matrix@, width as nat),
{
    let mut j: usize = 0;
    while j < matrix.len()
        invariant
            j <= matrix@.len(),
            forall|b: int| 0 <= b < j ==> (#[trigger] matrix@[b])@.len() == width,
        decreases matrix@.len() - j,
    {
        if matrix[j].len() != width {
            return false;
        }
        j = j + 1;
    }
    true
}

} // verus!
