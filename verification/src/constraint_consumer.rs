//! The accumulator into which a constraint system pours its residues.

use crate::field;
use crate::field::{field_add, field_mul};
use vstd::prelude::*;

verus! {

/// The random linear combination of `residues` under `alpha`, folded from
/// the first residue on: each step multiplies what was gathered by `alpha`
/// and adds the next residue.
pub open spec fn combine(alpha: int, residues: Seq<int>) -> int
    decreases residues.len(),
{
    if residues.len() == 0 {
        0
    } else {
        field::sum(field::product(combine(alpha, residues.drop_last()), alpha), residues.last())
    }
}

/// The sum of the residues, each weighted by a power of `alpha`: the last
/// residue by the power zero, the one before it by the first power, and so
/// on up to the first residue.
pub open spec fn weighted_sum(alpha: int, residues: Seq<int>) -> int
    decreases residues.len(),
{
    if residues.len() == 0 {
        0
    } else {
        field::sum(
            field::product(field::power(alpha, (residues.len() - 1) as nat), residues[0]),
            weighted_sum(alpha, residues.drop_first()),
        )
    }
}

/// Every combination is a canonical residue.
pub proof fn lemma_combine_range(alpha: int, residues: Seq<int>)
    ensures
        0 <= combine(alpha, residues) < field::ORDER,
        field::residue(combine(alpha, residues)) == combine(alpha, residues),
{
    if residues.len() == 0 {
        vstd::arithmetic::div_mod::lemma_small_mod(0, field::ORDER as nat);
    } else {
        field::lemma_residue_range(
            field::product(combine(alpha, residues.drop_last()), alpha) + residues.last(),
        );
    }
}

/// One more residue multiplies the weighted sum by `alpha` and adds the residue.
pub proof fn lemma_weighted_sum_push(alpha: int, residues: Seq<int>, last: int)
    ensures
        weighted_sum(alpha, residues.push(last)) == field::sum(
            field::product(weighted_sum(alpha, residues), alpha),
            last,
        ),
    decreases residues.len(),
{
    let more = residues.push(last);
    if residues.len() == 0 {
        assert(more.drop_first() =~= Seq::<int>::empty());
        reveal_with_fuel(weighted_sum, 2);
        assert(field::power(alpha, 0) == 1);
        assert(1 * last == last);
        assert(0 * alpha == 0);
        field::lemma_sum_residue(1 * last, 0);
        field::lemma_sum_residue(0 * alpha, last);
    } else {
        let rest = residues.drop_first();
        let n = residues.len();
        assert(more.drop_first() =~= rest.push(last));
        assert(more[0] == residues[0]);
        lemma_weighted_sum_push(alpha, rest, last);
        let head = field::product(field::power(alpha, (n - 1) as nat), residues[0]);
        let head_up = field::product(field::power(alpha, n), residues[0]);
        let tail = weighted_sum(alpha, rest);
        // (head + tail) * alpha = head_up + tail * alpha
        field::lemma_product_distributes(head, tail, alpha);
        assert(field::product(head, alpha) == head_up) by {
            field::lemma_product_commutative(head, alpha);
            field::lemma_product_associative(
                alpha,
                field::power(alpha, (n - 1) as nat),
                residues[0],
            );
            field::lemma_product_residue(
                alpha * field::power(alpha, (n - 1) as nat),
                residues[0],
            );
        }
        field::lemma_sum_associative(head_up, field::product(tail, alpha), last);
    }
}

/// The accumulated combination is the sum of the residues weighted by
/// falling powers of the challenge.
pub proof fn lemma_combine_is_weighted_sum(alpha: int, residues: Seq<int>)
    ensures
        combine(alpha, residues) == weighted_sum(alpha, residues),
    decreases residues.len(),
{
    if residues.len() > 0 {
        lemma_combine_is_weighted_sum(alpha, residues.drop_last());
        lemma_weighted_sum_push(alpha, residues.drop_last(), residues.last());
        assert(residues.drop_last().push(residues.last()) =~= residues);
    }
}

/// The combinations of `residues` under each of `alphas`.
pub open spec fn combine_all(alphas: Seq<u64>, residues: Seq<int>) -> Seq<int> {
    Seq::new(alphas.len(), |k: int| combine(alphas[k] as int, residues))
}

/// Gathers the residues of one evaluation point, one running combination
/// for every challenge.
pub struct ConstraintConsumer {
    alphas: Vec<u64>,
    constraint_accs: Vec<u64>,
    lagrange_basis_first: u64,
    lagrange_basis_last: u64,
    emitted: Ghost<Seq<int>>,
}

impl ConstraintConsumer {
    /// The challenges that combine the residues.
    pub closed spec fn alphas(&self) -> Seq<u64> {
        self.alphas@
    }

    /// The value at this point of the polynomial that singles out the first row.
    pub closed spec fn lagrange_first(&self) -> u64 {
        self.lagrange_basis_first
    }

    /// The value at this point of the polynomial that singles out the last row.
    pub closed spec fn lagrange_last(&self) -> u64 {
        self.lagrange_basis_last
    }

    /// The residues taken in so far, in the order of their arrival.
    pub closed spec fn emitted(&self) -> Seq<int> {
        self.emitted@
    }

    /// Every accumulator is the combination of what was taken in.
    pub closed spec fn wf(&self) -> bool {
        &&& self.constraint_accs@.len() == self.alphas@.len()
        &&& forall|k: int|
            0 <= k < self.alphas@.len() ==> (#[trigger] self.constraint_accs@[k]) as int
                == combine(self.alphas@[k] as int, self.emitted@)
    }

    /// A consumer that has taken in nothing.
    pub fn new(alphas: Vec<u64>, lagrange_basis_first: u64, lagrange_basis_last: u64) -> (c: Self)
        ensures
            c.wf(),
            c.alphas() == alphas@,
            c.lagrange_first() == lagrange_basis_first,
            c.lagrange_last() == lagrange_basis_last,
            c.emitted() == Seq::<int>::empty(),
    {
        let mut constraint_accs: Vec<u64> = Vec::new();
        let mut k: usize = 0;
        while k < alphas.len()
            invariant
                k <= alphas.len(),
                constraint_accs@.len() == k,
                forall|j: int| 0 <= j < k ==> (#[trigger] constraint_accs@[j]) == 0,
            decreases alphas.len() - k,
        {
            constraint_accs.push(0);
            k = k + 1;
        }
        ConstraintConsumer {
            alphas,
            constraint_accs,
            lagrange_basis_first,
            lagrange_basis_last,
            emitted: Ghost(Seq::empty()),
        }
    }

    /// The combinations gathered, one for every challenge.
    pub fn accumulators(self) -> (accs: Vec<u64>)
        requires
            self.wf(),
        ensures
            accs@.len() == self.alphas().len(),
            forall|k: int|
                0 <= k < accs@.len() ==> (#[trigger] accs@[k]) as int == combine_all(
                    self.alphas(),
                    self.emitted(),
                )[k],
    {
        self.constraint_accs
    }

    /// Takes in one residue that binds on every row.
    pub fn constraint(&mut self, constraint: u64)
        requires
            old(self).wf(),
        ensures
            final(self).wf(),
            final(self).alphas() == old(self).alphas(),
            final(self).lagrange_first() == old(self).lagrange_first(),
            final(self).lagrange_last() == old(self).lagrange_last(),
            final(self).emitted() == old(self).emitted().push(field::residue(constraint as int)),
    {
        let ghost before = self.emitted@;
        let ghost after = before.push(field::residue(constraint as int));
        let n: usize = self.alphas.len();
        let mut k: usize = 0;
        while k < n
            invariant
                k <= n,
                n == self.alphas@.len(),
                self.constraint_accs@.len() == n,
                self.alphas@ == old(self).alphas@,
                self.lagrange_basis_first == old(self).lagrange_basis_first,
                self.lagrange_basis_last == old(self).lagrange_basis_last,
                self.emitted@ == before,
                after == before.push(field::residue(constraint as int)),
                forall|j: int|
                    0 <= j < k ==> (#[trigger] self.constraint_accs@[j]) as int == combine(
                        self.alphas@[j] as int,
                        after,
                    ),
                forall|j: int|
                    k <= j < n ==> (#[trigger] self.constraint_accs@[j]) as int == combine(
                        self.alphas@[j] as int,
                        before,
                    ),
            decreases n - k,
        {
            let scaled: u64 = field_mul(self.constraint_accs[k], self.alphas[k]);
            let next: u64 = field_add(scaled, constraint);
            proof {
                assert(after.drop_last() == before);
                field::lemma_sum_residue(scaled as int, constraint as int);
            }
            self.constraint_accs.set(k, next);
            k = k + 1;
        }
        self.emitted = Ghost(after);
    }

    /// Takes in one residue that binds on the first row only.
    pub fn constraint_first_row(&mut self, constraint: u64)
        requires
            old(self).wf(),
        ensures
            final(self).wf(),
            final(self).alphas() == old(self).alphas(),
            final(self).lagrange_first() == old(self).lagrange_first(),
            final(self).lagrange_last() == old(self).lagrange_last(),
            final(self).emitted() == old(self).emitted().push(
                field::product(constraint as int, old(self).lagrange_first() as int),
            ),
    {
        let filtered: u64 = field_mul(constraint, self.lagrange_basis_first);
        proof {
            field::lemma_residue_range(constraint as int * self.lagrange_basis_first as int);
        }
        self.constraint(filtered);
    }

    /// Takes in one residue that binds on the last row only.
    pub fn constraint_last_row(&mut self, constraint: u64)
        requires
            old(self).wf(),
        ensures
            final(self).wf(),
            final(self).alphas() == old(self).alphas(),
            final(self).lagrange_first() == old(self).lagrange_first(),
            final(self).lagrange_last() == old(self).lagrange_last(),
            final(self).emitted() == old(self).emitted().push(
                field::product(constraint as int, old(self).lagrange_last() as int),
            ),
    {
        let filtered: u64 = field_mul(constraint, self.lagrange_basis_last);
        proof {
            field::lemma_residue_range(constraint as int * self.lagrange_basis_last as int);
        }
        self.constraint(filtered);
    }
}

} // verus!
