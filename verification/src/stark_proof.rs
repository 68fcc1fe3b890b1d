//! The parts of a proof: the opened values, the description of the
//! openings for the opening protocol, and the proof itself.

use crate::commitment::PolynomialBatch;
use crate::extension::{ext_product, QuadraticExtension};
use crate::polynomial::{eval_ext, evaluation};
use vstd::prelude::*;

verus! {

/// One committed polynomial: the oracle that holds it, and its place there.
#[derive(Clone, Copy, Debug, PartialEq, Eq)]
pub struct FriPolynomialInfo {
    pub oracle_index: usize,
    pub polynomial_index: usize,
}

/// One oracle: the number of its polynomials, and whether it is blinded.
#[derive(Clone, Copy, Debug, PartialEq, Eq)]
pub struct FriOracleInfo {
    pub num_polys: usize,
    pub blinding: bool,
}

/// The polynomials that are opened at one point.
#[derive(Clone, Debug, PartialEq, Eq)]
pub struct FriBatchInfo {
    pub point: QuadraticExtension,
    pub polynomials: Vec<FriPolynomialInfo>,
}

/// What the opening protocol is asked to open.
#[derive(Clone, Debug, PartialEq, Eq)]
pub struct FriInstanceInfo {
    pub oracles: Vec<FriOracleInfo>,
    pub batches: Vec<FriBatchInfo>,
}

/// The first `count` polynomials of the oracle `oracle_index`, then `rest`.
pub open spec fn with_range(oracle_index: usize, count: nat, rest: Seq<FriPolynomialInfo>) -> Seq<
    FriPolynomialInfo,
> {
    Seq::new(
        count,
        |i: int| FriPolynomialInfo { oracle_index, polynomial_index: i as usize },
    ) + rest
}

/// Appends the first `count` polynomials of the oracle `oracle_index`.
pub fn push_range(list: &mut Vec<FriPolynomialInfo>, oracle_index: usize, count: usize)
    ensures
        final(list)@ == old(list)@ + with_range(oracle_index, count as nat, Seq::empty()),
{
    let ghost before = list@;
    let mut i: usize = 0;
    assert(list@ =~= before + with_range(oracle_index, 0, Seq::empty()));
    while i < count
        invariant
            i <= count,
            list@ == before + with_range(oracle_index, i as nat, Seq::empty()),
        decreases count - i,
    {
        list.push(FriPolynomialInfo { oracle_index, polynomial_index: i });
        i = i + 1;
        assert(list@ =~= before + with_range(oracle_index, i as nat, Seq::empty()));
    }
}

impl FriInstanceInfo {
    /// Whether the instance opens `columns` trace polynomials, in the
    /// oracle 0, at `zeta` and at `g * zeta`, and `num_quotient_polys`
    /// quotient polynomials, in the oracle 1, at `zeta`, with neither
    /// oracle blinded.
    pub open spec fn describes(
        &self,
        columns: usize,
        num_quotient_polys: usize,
        zeta: QuadraticExtension,
        g: QuadraticExtension,
    ) -> bool {
        &&& self.oracles@ == seq![
            FriOracleInfo { num_polys: columns, blinding: false },
            FriOracleInfo { num_polys: num_quotient_polys, blinding: false },
        ]
        &&& self.batches@.len() == 2
        &&& self.batches@[0].point == zeta
        &&& self.batches@[0].polynomials@ == with_range(
            0,
            columns as nat,
            with_range(1, num_quotient_polys as nat, Seq::empty()),
        )
        &&& self.batches@[1].point.is_canonical()
        &&& self.batches@[1].point@ == ext_product(zeta@, g@)
        &&& self.batches@[1].polynomials@ == with_range(0, columns as nat, Seq::empty())
    }
}

/// The openings of a proof: the trace polynomials at `zeta` and at
/// `g * zeta`, and the quotient polynomials at `zeta`.
pub fn fri_instance(
    columns: usize,
    num_quotient_polys: usize,
    zeta: QuadraticExtension,
    g: QuadraticExtension,
) -> (instance: FriInstanceInfo)
    ensures
        instance.describes(columns, num_quotient_polys, zeta, g),
{
    let mut oracles: Vec<FriOracleInfo> = Vec::new();
    oracles.push(FriOracleInfo { num_polys: columns, blinding: false });
    oracles.push(FriOracleInfo { num_polys: num_quotient_polys, blinding: false });
    let mut at_zeta: Vec<FriPolynomialInfo> = Vec::new();
    push_range(&mut at_zeta, 0, columns);
    push_range(&mut at_zeta, 1, num_quotient_polys);
    let mut at_next: Vec<FriPolynomialInfo> = Vec::new();
    push_range(&mut at_next, 0, columns);
    let mut batches: Vec<FriBatchInfo> = Vec::new();
    batches.push(FriBatchInfo { point: zeta, polynomials: at_zeta });
    batches.push(FriBatchInfo { point: zeta.ext_mul(&g), polynomials: at_next });
    proof {
        assert(at_zeta@ =~= with_range(
            0,
            columns as nat,
            with_range(1, num_quotient_polys as nat, Seq::empty()),
        ));
        assert(at_next@ =~= with_range(0, columns as nat, Seq::empty()));
        assert(oracles@ =~= seq![
            FriOracleInfo { num_polys: columns, blinding: false },
            FriOracleInfo { num_polys: num_quotient_polys, blinding: false },
        ]);
    }
    FriInstanceInfo { oracles, batches }
}

/// The values at `z` of the polynomials of a batch.
pub open spec fn evaluations(polynomials: Seq<Vec<u64>>, z: (int, int)) -> Seq<(int, int)> {
    Seq::new(polynomials.len(), |i: int| evaluation(polynomials[i]@, z))
}

/// The elements of a list as pairs of residues.
pub open spec fn values_of(list: Seq<QuadraticExtension>) -> Seq<(int, int)> {
    Seq::new(list.len(), |i: int| list[i]@)
}

/// Evaluates every polynomial of a batch at `z`.
pub fn eval_commitment(z: &QuadraticExtension, commitment: &PolynomialBatch) -> (values: Vec<
    QuadraticExtension,
>)
    ensures
        values_of(values@) == evaluations(commitment.polynomials@, z@),
        forall|i: int| 0 <= i < values@.len() ==> (#[trigger] values@[i]).is_canonical(),
{
    let n: usize = commitment.polynomials.len();
    let mut values: Vec<QuadraticExtension> = Vec::new();
    let mut i: usize = 0;
    while i < n
        invariant
            i <= n,
            n == commitment.polynomials@.len(),
            values@.len() == i,
            forall|j: int|
                0 <= j < i ==> (#[trigger] values@[j])@ == evaluation(
                    commitment.polynomials@[j]@,
                    z@,
                ),
            forall|j: int| 0 <= j < i ==> (#[trigger] values@[j]).is_canonical(),
        decreases n - i,
    {
        values.push(eval_ext(&commitment.polynomials[i], z));
        i = i + 1;
    }
    assert(values_of(values@) =~= evaluations(commitment.polynomials@, z@));
    values
}

/// The values of the committed polynomials at the opening point and at its
/// successor.
#[derive(Clone, Debug, PartialEq, Eq)]
pub struct StarkOpeningSet {
    /// The trace polynomials at `zeta`.
    pub local_values: Vec<QuadraticExtension>,
    /// The trace polynomials at `g * zeta`.
    pub next_values: Vec<QuadraticExtension>,
    /// The quotient polynomials at `zeta`.
    pub quotient_polys: Vec<QuadraticExtension>,
}

impl StarkOpeningSet {
    /// Whether the set holds the values of the two batches at `zeta` and at `g * zeta`.
    pub open spec fn opens(
        &self,
        zeta: (int, int),
        g: (int, int),
        trace_polynomials: Seq<Vec<u64>>,
        quotient_polynomials: Seq<Vec<u64>>,
    ) -> bool {
        &&& values_of(self.local_values@) == evaluations(trace_polynomials, zeta)
        &&& values_of(self.next_values@) == evaluations(trace_polynomials, ext_product(zeta, g))
        &&& values_of(self.quotient_polys@) == evaluations(quotient_polynomials, zeta)
    }

    /// Every opened value is a pair of canonical representatives.
    pub open spec fn is_canonical(&self) -> bool {
        &&& forall|i: int|
            0 <= i < self.local_values@.len() ==> (#[trigger] self.local_values@[i]).is_canonical()
        &&& forall|i: int|
            0 <= i < self.next_values@.len() ==> (#[trigger] self.next_values@[i]).is_canonical()
        &&& forall|i: int|
            0 <= i < self.quotient_polys@.len() ==> (
            #[trigger] self.quotient_polys@[i]).is_canonical()
    }

    /// Opens the trace polynomials at `zeta` and at `g * zeta`, and the
    /// quotient polynomials at `zeta`.
    pub fn new(
        zeta: QuadraticExtension,
        g: QuadraticExtension,
        trace_commitment: &PolynomialBatch,
        quotient_commitment: &PolynomialBatch,
    ) -> (openings: Self)
        ensures
            openings.opens(
                zeta@,
                g@,
                trace_commitment.polynomials@,
                quotient_commitment.polynomials@,
            ),
            openings.is_canonical(),
    {
        let next = zeta.ext_mul(&g);
        StarkOpeningSet {
            local_values: eval_commitment(&zeta, trace_commitment),
            next_values: eval_commitment(&next, trace_commitment),
            quotient_polys: eval_commitment(&zeta, quotient_commitment),
        }
    }
}

/// Canonical elements with the same residues are the same elements.
pub proof fn lemma_canonical_values_unique(one: Seq<QuadraticExtension>, other: Seq<QuadraticExtension>)
    requires
        values_of(one) == values_of(other),
        forall|i: int| 0 <= i < one.len() ==> (#[trigger] one[i]).is_canonical(),
        forall|i: int| 0 <= i < other.len() ==> (#[trigger] other[i]).is_canonical(),
    ensures
        one == other,
{
    assert(one.len() == values_of(one).len());
    assert(other.len() == values_of(other).len());
    assert forall|i: int| 0 <= i < one.len() implies one[i] == other[i] by {
        assert(values_of(one)[i] == one[i]@);
        assert(values_of(other)[i] == other[i]@);
        vstd::arithmetic::div_mod::lemma_small_mod(one[i].c0 as nat, crate::field::ORDER as nat);
        vstd::arithmetic::div_mod::lemma_small_mod(one[i].c1 as nat, crate::field::ORDER as nat);
        vstd::arithmetic::div_mod::lemma_small_mod(other[i].c0 as nat, crate::field::ORDER as nat);
        vstd::arithmetic::div_mod::lemma_small_mod(other[i].c1 as nat, crate::field::ORDER as nat);
    }
    assert(one =~= other);
}

/// The opened values are fixed by the opening point, the generator and the
/// committed polynomials: two canonical sets that open the same
/// polynomials at the same point hold the same values.
pub proof fn lemma_openings_unique(
    one: StarkOpeningSet,
    other: StarkOpeningSet,
    zeta: (int, int),
    g: (int, int),
    trace_polynomials: Seq<Vec<u64>>,
    quotient_polynomials: Seq<Vec<u64>>,
)
    requires
        one.opens(zeta, g, trace_polynomials, quotient_polynomials),
        other.opens(zeta, g, trace_polynomials, quotient_polynomials),
        one.is_canonical(),
        other.is_canonical(),
    ensures
        one.local_values@ == other.local_values@,
        one.next_values@ == other.next_values@,
        one.quotient_polys@ == other.quotient_polys@,
{
    lemma_canonical_values_unique(one.local_values@, other.local_values@);
    lemma_canonical_values_unique(one.next_values@, other.next_values@);
    lemma_canonical_values_unique(one.quotient_polys@, other.quotient_polys@);
}

/// A proof: the cap of the trace commitment, the opened values, and the
/// proof of the opening protocol, which this library carries and does not read.
pub struct StarkProof<P> {
    /// The cap of the trace commitment.
    pub trace_cap: Vec<[u64; 4]>,
    /// The opened values.
    pub openings: StarkOpeningSet,
    /// The proof that the opened values are those of the committed polynomials.
    pub opening_proof: P,
}

} // verus!
