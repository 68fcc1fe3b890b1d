//! The prover, stage by stage.
//!
//! Proving alternates between work of this library and work that it asks
//! of its caller: committing to polynomials, feeding and questioning the
//! transcript, and transforms between values and coefficients. Each stage
//! is a value that says what is asked next; the answer takes it to the
//! stage after. The order of the stages is the order of the protocol.

use crate::commitment::PolynomialBatch;
use crate::config::StarkConfig;
use crate::error::ProveError;
use crate::extension::{ext_power, QuadraticExtension};
use crate::quotient::{
    compute_quotient_values, fits_degree_bound, holds_quotient_values, quotient_chunk,
    split_quotients,
};
use crate::stark::Stark;
use crate::stark_proof::{fri_instance, FriInstanceInfo, StarkOpeningSet, StarkProof};
use crate::util::{
    is_power_of_two, is_rectangular, log2_strict, pow2_usize, transpose, transposed,
};
use crate::zero_poly_coset::ZeroPolyOnCoset;
use vstd::arithmetic::power2::pow2;
use vstd::prelude::*;

verus! {

/// What every stage of one proof knows.
pub struct Session<S> {
    /// The constraint system.
    pub stark: S,
    /// The parameters of the proof.
    pub config: StarkConfig,
    /// The public inputs, handed on to the constraint system as they are.
    pub public_inputs: Vec<u64>,
    /// The number of rows of the trace.
    pub degree: usize,
    /// The binary logarithm of `degree`.
    pub degree_bits: usize,
    /// The blow-up factor of the extended domain.
    pub rate: usize,
    /// The number of points of the extended domain.
    pub domain: usize,
}

impl<S: Stark> Session<S> {
    /// The sizes agree with each other and with the constraint system.
    pub open spec fn wf(&self) -> bool {
        &&& self.degree == pow2(self.degree_bits as nat)
        &&& self.rate == pow2(self.config.fri_config.rate_bits as nat)
        &&& self.domain == self.degree * self.rate
        &&& self.public_inputs@.len() == self.stark.public_inputs_spec()
    }
}

/// The first stage: the columns of the trace wait to be committed.
///
/// Asked of the caller: the commitment to the polynomials that take the
/// values `trace_poly_values` on the trace domain, with the blow-up and the
/// cap height of the configuration and without blinding.
pub struct TraceStage<S> {
    pub session: Session<S>,
    /// The trace, column by column.
    pub trace_poly_values: Vec<Vec<u64>>,
}

/// The second stage: the trace is committed.
///
/// Asked of the caller, in this order: to let a fresh transcript observe the
/// cap of the trace commitment, and to draw `num_challenges` challenges
/// from it. Asked as well: the low-degree extensions of
/// [`ChallengeStage::lagrange_first_values`] and of
/// [`ChallengeStage::lagrange_last_values`], and the inverses of the
/// vanishing polynomial of the trace domain over the extended domain.
pub struct ChallengeStage<S> {
    pub session: Session<S>,
    pub trace_commitment: PolynomialBatch,
}

/// The third stage: the quotients are known by their values.
///
/// Asked of the caller: the coefficients of each of `quotient_values`,
/// interpolated over the coset that is the extended domain.
pub struct InterpolationStage<S> {
    pub session: Session<S>,
    pub trace_commitment: PolynomialBatch,
    /// The values of the quotients over the extended domain, one vector for
    /// every challenge.
    pub quotient_values: Vec<Vec<u64>>,
}

/// The fourth stage: the quotients are cut into pieces that wait to be
/// committed.
///
/// Asked of the caller: the commitment to the polynomials with the
/// coefficients `all_quotient_chunks`, with the blow-up and the cap height
/// of the configuration and without blinding.
pub struct QuotientStage<S> {
    pub session: Session<S>,
    pub trace_commitment: PolynomialBatch,
    /// The pieces of all the quotients, those of the first quotient first.
    pub all_quotient_chunks: Vec<Vec<u64>>,
}

/// The fifth stage: the quotients are committed.
///
/// Asked of the caller, in this order: to let the transcript observe the cap
/// of the quotient commitment, and to draw one challenge of the extension
/// field from it, the opening point. Asked as well: the generator of the
/// trace domain.
pub struct ZetaStage<S> {
    pub session: Session<S>,
    pub trace_commitment: PolynomialBatch,
    pub quotient_commitment: PolynomialBatch,
}

/// The last stage: the opening point is accepted and the openings are known.
///
/// Asked of the caller: the proof of the opening protocol for `instance`
/// over the trace commitment and the quotient commitment, in this order,
/// with the same transcript.
pub struct OpeningStage<S> {
    pub session: Session<S>,
    /// The cap of the trace commitment.
    pub trace_cap: Vec<[u64; 4]>,
    /// The opening point.
    pub zeta: QuadraticExtension,
    /// The generator of the trace domain.
    pub g: QuadraticExtension,
    /// The values of the committed polynomials at `zeta` and at `g * zeta`.
    pub openings: StarkOpeningSet,
    /// What the opening protocol is to open.
    pub instance: FriInstanceInfo,
}

/// The values on the trace domain of the polynomial that is one on the row
/// `row` and zero on the others.
pub open spec fn indicator(degree: nat, row: int) -> Seq<u64> {
    Seq::new(
        degree,
        |i: int|
            if i == row {
                1u64
            } else {
                0u64
            },
    )
}

/// The values on a domain of `degree` points that are one at `row` and zero elsewhere.
pub fn indicator_values(degree: usize, row: usize) -> (values: Vec<u64>)
    ensures
        values@ == indicator(degree as nat, row as int),
{
    let mut values: Vec<u64> = Vec::new();
    let mut i: usize = 0;
    while i < degree
        invariant
            i <= degree,
            values@ == indicator(i as nat, row as int),
        decreases degree - i,
    {
        values.push(if i == row { 1 } else { 0 });
        i = i + 1;
        assert(values@ =~= indicator(i as nat, row as int));
    }
    values
}

/// Starts a proof that `trace` satisfies the constraints of `stark`.
///
/// The trace is taken row by row and handed on column by column.
pub fn prove<S: Stark>(
    stark: S,
    config: StarkConfig,
    trace: Vec<Vec<u64>>,
    public_inputs: Vec<u64>,
) -> (stage: TraceStage<S>)
    requires
        is_power_of_two(trace@.len()),
        is_rectangular(trace@, stark.columns_spec()),
        public_inputs@.len() == stark.public_inputs_spec(),
        trace@.len() * pow2(config.fri_config.rate_bits as nat) <= usize::MAX,
    ensures
        stage.wf(),
        stage.session.stark == stark,
        stage.session.config == config,
        stage.session.public_inputs == public_inputs,
        stage.session.degree == trace@.len(),
        stage.trace_poly_values@.len() == stark.columns_spec(),
        forall|c: int|
            0 <= c < stage.trace_poly_values@.len() ==> (#[trigger] stage.trace_poly_values@[c])@
                == transposed(trace@, stark.columns_spec())[c],
{
    let degree: usize = trace.len();
    let degree_bits: usize = log2_strict(degree);
    proof {
        let r = pow2(config.fri_config.rate_bits as nat) as int;
        vstd::arithmetic::power2::lemma_pow2_pos(degree_bits as nat);
        assert(r <= degree * r) by (nonlinear_arith)
            requires
                degree >= 1,
                r >= 0,
        ;
    }
    let rate: usize = pow2_usize(config.fri_config.rate_bits);
    let domain: usize = degree * rate;
    let trace_poly_values = transpose(&trace);
    TraceStage {
        session: Session { stark, config, public_inputs, degree, degree_bits, rate, domain },
        trace_poly_values,
    }
}

impl<S: Stark> TraceStage<S> {
    /// The session is sound, and there is one column of `degree` values for
    /// each column of the constraint system.
    pub open spec fn wf(&self) -> bool {
        &&& self.session.wf()
        &&& self.trace_poly_values@.len() == self.session.stark.columns_spec()
        &&& is_rectangular(self.trace_poly_values@, self.session.degree as nat)
    }

    /// Takes in the commitment to the trace. It must hold one polynomial of
    /// `degree` coefficients for each column, and one row of their values
    /// for each point of the extended domain.
    pub fn committed(self, trace_commitment: PolynomialBatch) -> (result: Result<
        ChallengeStage<S>,
        ProveError,
    >)
        requires
            self.wf(),
        ensures
            result is Ok <==> trace_commitment.is_shaped(
                self.session.stark.columns_spec(),
                self.session.degree as nat,
                self.session.domain as nat,
            ),
            result matches Ok(next) ==> {
                &&& next.wf()
                &&& next.session == self.session
                &&& next.trace_commitment == trace_commitment
            },
            result matches Err(e) ==> e == ProveError::UpstreamFailure,
    {
        let columns: usize = self.session.stark.columns();
        if !trace_commitment.has_shape(columns, self.session.degree, self.session.domain) {
            return Err(ProveError::UpstreamFailure);
        }
        Ok(ChallengeStage { session: self.session, trace_commitment })
    }
}

impl<S: Stark> ChallengeStage<S> {
    /// The session is sound and the trace commitment has the shape that
    /// the session asks for.
    pub open spec fn wf(&self) -> bool {
        &&& self.session.wf()
        &&& self.trace_commitment.is_shaped(
            self.session.stark.columns_spec(),
            self.session.degree as nat,
            self.session.domain as nat,
        )
    }

    /// The values on the trace domain of the polynomial that singles out the first row.
    pub fn lagrange_first_values(&self) -> (values: Vec<u64>)
        ensures
            values@ == indicator(self.session.degree as nat, 0),
    {
        indicator_values(self.session.degree, 0)
    }

    /// The values on the trace domain of the polynomial that singles out the last row.
    pub fn lagrange_last_values(&self) -> (values: Vec<u64>)
        requires
            self.wf(),
        ensures
            values@ == indicator(self.session.degree as nat, self.session.degree - 1),
    {
        proof {
            self.session.lemma_sizes_positive();
        }
        indicator_values(self.session.degree, self.session.degree - 1)
    }

    /// Whether the answers have the sizes that the session asks for.
    pub open spec fn accepts(
        &self,
        alphas: Seq<u64>,
        lagrange_first: Seq<u64>,
        lagrange_last: Seq<u64>,
        inverses: Seq<u64>,
    ) -> bool {
        &&& alphas.len() == self.session.config.num_challenges
        &&& lagrange_first.len() == self.session.domain
        &&& lagrange_last.len() == self.session.domain
        &&& inverses.len() == self.session.rate
    }

    /// Takes in the challenges and the three tables over the extended
    /// domain, and computes the values of the quotients.
    pub fn quotient_inputs(
        self,
        alphas: Vec<u64>,
        lagrange_first: Vec<u64>,
        lagrange_last: Vec<u64>,
        z_h_on_coset: ZeroPolyOnCoset,
    ) -> (result: Result<InterpolationStage<S>, ProveError>)
        requires
            self.wf(),
        ensures
            result is Ok <==> self.accepts(
                alphas@,
                lagrange_first@,
                lagrange_last@,
                z_h_on_coset.inverses@,
            ),
            result matches Ok(next) ==> {
                &&& next.wf()
                &&& next.session == self.session
                &&& next.trace_commitment == self.trace_commitment
                &&& holds_quotient_values(
                    next.quotient_values@,
                    &self.session.stark,
                    self.trace_commitment.lde_values@,
                    self.session.public_inputs@,
                    alphas@,
                    lagrange_first@,
                    lagrange_last@,
                    z_h_on_coset.inverses@,
                )
            },
            result matches Err(e) ==> e == ProveError::UpstreamFailure,
    {
        if alphas.len() != self.session.config.num_challenges || lagrange_first.len()
            != self.session.domain || lagrange_last.len() != self.session.domain
            || z_h_on_coset.inverses.len() != self.session.rate {
            return Err(ProveError::UpstreamFailure);
        }
        proof {
            self.session.lemma_sizes_positive();
        }
        let quotient_values = compute_quotient_values(
            &self.session.stark,
            &self.trace_commitment,
            &self.session.public_inputs,
            &alphas,
            &lagrange_first,
            &lagrange_last,
            &z_h_on_coset,
        );
        Ok(
            InterpolationStage {
                session: self.session,
                trace_commitment: self.trace_commitment,
                quotient_values,
            },
        )
    }
}

impl<S: Stark> Session<S> {
    /// A sound session has a trace of at least one row and a domain of at
    /// least one point.
    pub proof fn lemma_sizes_positive(&self)
        requires
            self.wf(),
        ensures
            self.degree > 0,
            self.rate > 0,
            self.domain > 0,
    {
        vstd::arithmetic::power2::lemma_pow2_pos(self.degree_bits as nat);
        vstd::arithmetic::power2::lemma_pow2_pos(self.config.fri_config.rate_bits as nat);
        assert(self.degree * self.rate > 0) by (nonlinear_arith)
            requires
                self.degree > 0,
                self.rate > 0,
        ;
    }
}

impl<S: Stark> InterpolationStage<S> {
    /// The stage before was sound, and there is one vector of quotient
    /// values over the extended domain for every challenge.
    pub open spec fn wf(&self) -> bool {
        &&& self.session.wf()
        &&& self.trace_commitment.is_shaped(
            self.session.stark.columns_spec(),
            self.session.degree as nat,
            self.session.domain as nat,
        )
        &&& self.quotient_values@.len() == self.session.config.num_challenges
        &&& is_rectangular(self.quotient_values@, self.session.domain as nat)
    }

    /// Takes in the coefficients of the quotients, one polynomial for every
    /// challenge, and cuts each into pieces of `degree` coefficients.
    pub fn interpolated(self, quotient_polys: Vec<Vec<u64>>) -> (result: Result<
        QuotientStage<S>,
        ProveError,
    >)
        requires
            self.wf(),
        ensures
            result is Ok <==> quotient_polys@.len() == self.session.config.num_challenges
                && fits_degree_bound(quotient_polys@, self.session.domain as nat),
            result matches Ok(next) ==> {
                &&& next.wf()
                &&& next.session == self.session
                &&& next.trace_commitment == self.trace_commitment
                &&& forall|t: int|
                    0 <= t < next.all_quotient_chunks@.len() ==> (
                    #[trigger] next.all_quotient_chunks@[t])@ == quotient_chunk(
                        quotient_polys@,
                        self.session.degree as nat,
                        self.session.rate as nat,
                        t,
                    )
            },
            result matches Err(e) ==> e == (if quotient_polys@.len()
                != self.session.config.num_challenges {
                ProveError::UpstreamFailure
            } else {
                ProveError::DegreeBound
            }),
    {
        if quotient_polys.len() != self.session.config.num_challenges {
            return Err(ProveError::UpstreamFailure);
        }
        proof {
            self.session.lemma_sizes_positive();
        }
        match split_quotients(&quotient_polys, self.session.degree, self.session.rate) {
            Err(e) => Err(e),
            Ok(all_quotient_chunks) => Ok(
                QuotientStage {
                    session: self.session,
                    trace_commitment: self.trace_commitment,
                    all_quotient_chunks,
                },
            ),
        }
    }
}

impl<S: Stark> QuotientStage<S> {
    /// The stage before was sound, and every quotient has given as many
    /// pieces as the blow-up factor says.
    pub open spec fn wf(&self) -> bool {
        &&& self.session.wf()
        &&& self.trace_commitment.is_shaped(
            self.session.stark.columns_spec(),
            self.session.degree as nat,
            self.session.domain as nat,
        )
        &&& self.all_quotient_chunks@.len() == self.session.config.num_challenges
            * self.session.rate
    }

    /// Takes in the commitment to the pieces of the quotients. It must hold
    /// as many polynomials as there are pieces, of `degree` coefficients each.
    pub fn committed(self, quotient_commitment: PolynomialBatch) -> (result: Result<
        ZetaStage<S>,
        ProveError,
    >)
        requires
            self.wf(),
        ensures
            result is Ok <==> quotient_commitment.holds_polynomials(
                self.all_quotient_chunks@.len(),
                self.session.degree as nat,
            ),
            result matches Ok(next) ==> {
                &&& next.wf()
                &&& next.session == self.session
                &&& next.trace_commitment == self.trace_commitment
                &&& next.quotient_commitment == quotient_commitment
            },
            result matches Err(e) ==> e == ProveError::UpstreamFailure,
    {
        if !quotient_commitment.has_polynomials(
            self.all_quotient_chunks.len(),
            self.session.degree,
        ) {
            return Err(ProveError::UpstreamFailure);
        }
        Ok(
            ZetaStage {
                session: self.session,
                trace_commitment: self.trace_commitment,
                quotient_commitment,
            },
        )
    }
}

impl<S: Stark> ZetaStage<S> {
    /// The stage before was sound, and the quotient commitment holds as
    /// many polynomials as there were pieces.
    pub open spec fn wf(&self) -> bool {
        &&& self.session.wf()
        &&& self.trace_commitment.is_shaped(
            self.session.stark.columns_spec(),
            self.session.degree as nat,
            self.session.domain as nat,
        )
        &&& self.quotient_commitment.holds_polynomials(
            (self.session.config.num_challenges * self.session.rate) as nat,
            self.session.degree as nat,
        )
    }

    /// Takes in the opening point `zeta` and the generator `g` of the trace
    /// domain. Refuses a point of the trace domain, at which an opening
    /// would give away a row of the trace; else opens the committed
    /// polynomials at `zeta` and at `g * zeta`.
    pub fn challenged(self, zeta: QuadraticExtension, g: QuadraticExtension) -> (result: Result<
        OpeningStage<S>,
        ProveError,
    >)
        requires
            self.wf(),
        ensures
            result is Ok <==> ext_power(zeta@, self.session.degree as nat) != (1int, 0int),
            result matches Ok(next) ==> {
                &&& next.wf()
                &&& next.session == self.session
                &&& next.trace_cap == self.trace_commitment.cap
                &&& next.zeta == zeta
                &&& next.g == g
                &&& next.openings.opens(
                    zeta@,
                    g@,
                    self.trace_commitment.polynomials@,
                    self.quotient_commitment.polynomials@,
                )
                &&& next.openings.is_canonical()
                &&& next.instance.describes(
                    self.trace_commitment.polynomials@.len() as usize,
                    self.quotient_commitment.polynomials@.len() as usize,
                    zeta,
                    g,
                )
            },
            result matches Err(e) ==> e == ProveError::OpeningPointInSubgroup,
    {
        if zeta.exp_power_of_2(self.session.degree_bits).is_one() {
            return Err(ProveError::OpeningPointInSubgroup);
        }
        let openings = StarkOpeningSet::new(
            zeta,
            g,
            &self.trace_commitment,
            &self.quotient_commitment,
        );
        let instance = fri_instance(
            self.trace_commitment.polynomials.len(),
            self.quotient_commitment.polynomials.len(),
            zeta,
            g,
        );
        Ok(
            OpeningStage {
                session: self.session,
                trace_cap: self.trace_commitment.cap,
                zeta,
                g,
                openings,
                instance,
            },
        )
    }
}

impl<S: Stark> OpeningStage<S> {
    /// The session is sound, and the opening point lies outside the trace domain.
    pub open spec fn wf(&self) -> bool {
        &&& self.session.wf()
        &&& ext_power(self.zeta@, self.session.degree as nat) != (1int, 0int)
    }

    /// Takes in the proof of the opening protocol and puts the proof together.
    pub fn opened<P>(self, opening_proof: P) -> (proof_of_trace: StarkProof<P>)
        requires
            self.wf(),
        ensures
            proof_of_trace.trace_cap == self.trace_cap,
            proof_of_trace.openings == self.openings,
            proof_of_trace.opening_proof == opening_proof,
    {
        StarkProof { trace_cap: self.trace_cap, openings: self.openings, opening_proof }
    }
}

} // verus!
