//! The quadratic extension of the Goldilocks field, `F[X] / (X^2 - 7)`.

use crate::field;
use crate::field::{field_add, field_mul, to_canonical};
use vstd::arithmetic::power2::{lemma_pow2_unfold, pow2};
use vstd::prelude::*;

verus! {

/// The non-residue whose square root is adjoined.
pub const W: u64 = 7;

/// An element `c0 + c1 X` of the extension, on `u64` representatives.
#[derive(Clone, Copy, Debug, PartialEq, Eq)]
pub struct QuadraticExtension {
    pub c0: u64,
    pub c1: u64,
}

/// The sum of two elements, given as pairs of residues.
pub open spec fn ext_sum(a: (int, int), b: (int, int)) -> (int, int) {
    (field::residue(a.0 + b.0), field::residue(a.1 + b.1))
}

/// The product of two elements, given as pairs of residues.
pub open spec fn ext_product(a: (int, int), b: (int, int)) -> (int, int) {
    (field::residue(a.0 * b.0 + 7 * (a.1 * b.1)), field::residue(a.0 * b.1 + a.1 * b.0))
}

/// `a` raised to the `n`-th power, as an `n`-fold product.
pub open spec fn ext_power(a: (int, int), n: nat) -> (int, int)
    decreases n,
{
    if n == 0 {
        (1, 0)
    } else {
        ext_product(a, ext_power(a, (n - 1) as nat))
    }
}

/// Whether both components of a pair are canonical residues.
pub open spec fn is_reduced(a: (int, int)) -> bool {
    0 <= a.0 < field::ORDER && 0 <= a.1 < field::ORDER
}

impl View for QuadraticExtension {
    type V = (int, int);

    /// The element as a pair of canonical residues.
    open spec fn view(&self) -> (int, int) {
        (field::residue(self.c0 as int), field::residue(self.c1 as int))
    }
}

impl QuadraticExtension {
    /// Both components are canonical representatives.
    pub open spec fn is_canonical(&self) -> bool {
        self.c0 < field::ORDER && self.c1 < field::ORDER
    }

    /// The element zero.
    pub fn zero() -> (r: Self)
        ensures
            r.is_canonical(),
            r@ == (0int, 0int),
    {
        QuadraticExtension { c0: 0, c1: 0 }
    }

    /// The element one.
    pub fn one() -> (r: Self)
        ensures
            r.is_canonical(),
            r@ == (1int, 0int),
    {
        QuadraticExtension { c0: 1, c1: 0 }
    }

    /// The element of the base field `x`, taken into the extension.
    pub fn from_base(x: u64) -> (r: Self)
        ensures
            r.is_canonical(),
            r@ == (field::residue(x as int), 0int),
    {
        QuadraticExtension { c0: to_canonical(x), c1: 0 }
    }

    /// Whether the element is one.
    pub fn is_one(&self) -> (b: bool)
        ensures
            b == (self@ == (1int, 0int)),
    {
        to_canonical(self.c0) == 1 && to_canonical(self.c1) == 0
    }

    /// Addition in the extension.
    pub fn ext_add(&self, rhs: &Self) -> (r: Self)
        ensures
            r.is_canonical(),
            r@ == ext_sum(self@, rhs@),
    {
        proof {
            field::lemma_sum_residue(self.c0 as int, rhs.c0 as int);
            field::lemma_sum_residue(self.c1 as int, rhs.c1 as int);
            field::lemma_residue_range(self.c0 as int + rhs.c0 as int);
            field::lemma_residue_range(self.c1 as int + rhs.c1 as int);
        }
        QuadraticExtension { c0: field_add(self.c0, rhs.c0), c1: field_add(self.c1, rhs.c1) }
    }

    /// Multiplication in the extension.
    pub fn ext_mul(&self, rhs: &Self) -> (r: Self)
        ensures
            r.is_canonical(),
            r@ == ext_product(self@, rhs@),
    {
        let low: u64 = field_mul(self.c0, rhs.c0);
        let high: u64 = field_mul(self.c1, rhs.c1);
        let twisted: u64 = field_mul(W, high);
        let left: u64 = field_mul(self.c0, rhs.c1);
        let right: u64 = field_mul(self.c1, rhs.c0);
        let c0: u64 = field_add(low, twisted);
        let c1: u64 = field_add(left, right);
        proof {
            let (a0, a1) = (self.c0 as int, self.c1 as int);
            let (b0, b1) = (rhs.c0 as int, rhs.c1 as int);
            lemma_ext_product_residue((a0, a1), (b0, b1));
            field::lemma_product_residue(7, a1 * b1);
            field::lemma_sum_residue(a0 * b0, 7 * (a1 * b1));
            field::lemma_sum_residue(a0 * b1, a1 * b0);
            field::lemma_residue_range(c0 as int);
            field::lemma_residue_range(c1 as int);
        }
        QuadraticExtension { c0, c1 }
    }

    /// The element squared `k` times over, that is raised to the power `2^k`.
    pub fn exp_power_of_2(&self, k: usize) -> (r: Self)
        ensures
            r.is_canonical(),
            r@ == ext_power(self@, pow2(k as nat)),
    {
        let mut r = QuadraticExtension { c0: to_canonical(self.c0), c1: to_canonical(self.c1) };
        let mut i: usize = 0;
        proof {
            field::lemma_residue_range(self.c0 as int);
            field::lemma_residue_range(self.c1 as int);
            lemma_ext_power_one(self@);
            vstd::arithmetic::power2::lemma2_to64();
        }
        while i < k
            invariant
                i <= k,
                r.is_canonical(),
                r@ == ext_power(self@, pow2(i as nat)),
            decreases k - i,
        {
            proof {
                lemma_ext_power_add(self@, pow2(i as nat), pow2(i as nat));
                lemma_pow2_unfold((i + 1) as nat);
            }
            r = r.ext_mul(&r);
            i = i + 1;
        }
        r
    }
}

/// A product does not depend on the representatives of the components.
pub proof fn lemma_ext_product_residue(a: (int, int), b: (int, int))
    ensures
        ext_product((field::residue(a.0), field::residue(a.1)), b) == ext_product(a, b),
        ext_product(a, (field::residue(b.0), field::residue(b.1))) == ext_product(a, b),
        ext_product(
            (field::residue(a.0), field::residue(a.1)),
            (field::residue(b.0), field::residue(b.1)),
        ) == ext_product(a, b),
{
    let ra = (field::residue(a.0), field::residue(a.1));
    let rb = (field::residue(b.0), field::residue(b.1));
    lemma_bilinear_residue(a.0, b.0, a.1, b.1, 7);
    lemma_bilinear_residue(a.0, b.1, a.1, b.0, 1);
    assert(ext_product(ra, rb) == ext_product(a, b)) by {
        assert(1 * (ra.1 * rb.0) == ra.1 * rb.0);
        assert(1 * (a.1 * b.0) == a.1 * b.0);
    }
    lemma_bilinear_residue(a.0, rb.0, a.1, rb.1, 7);
    lemma_bilinear_residue(a.0, rb.1, a.1, rb.0, 1);
    assert(ext_product(ra, rb) == ext_product(a, rb)) by {
        field::lemma_residue_range(b.0);
        field::lemma_residue_range(b.1);
        assert(1 * (ra.1 * rb.0) == ra.1 * rb.0);
        assert(1 * (a.1 * rb.0) == a.1 * rb.0);
    }
    lemma_bilinear_residue(ra.0, b.0, ra.1, b.1, 7);
    lemma_bilinear_residue(ra.0, b.1, ra.1, b.0, 1);
    assert(ext_product(ra, rb) == ext_product(ra, b)) by {
        field::lemma_residue_range(a.0);
        field::lemma_residue_range(a.1);
        assert(1 * (ra.1 * rb.0) == ra.1 * rb.0);
        assert(1 * (ra.1 * b.0) == ra.1 * b.0);
    }
}

/// In `p * q + k * (r * s)` each of `p`, `q`, `r`, `s` may be replaced by its residue.
pub proof fn lemma_bilinear_residue(p: int, q: int, r: int, s: int, k: int)
    ensures
        field::residue(field::residue(p) * field::residue(q) + k * (field::residue(r)
            * field::residue(s))) == field::residue(p * q + k * (r * s)),
{
    let m = field::ORDER as int;
    let (rp, rq, rr, rs) = (field::residue(p), field::residue(q), field::residue(r), field::residue(s));
    field::lemma_product_residue(p, q);
    field::lemma_product_residue(r, s);
    // k * (rr * rs) and k * (r * s) agree modulo the order
    field::lemma_product_residue(k, rr * rs);
    field::lemma_product_residue(k, r * s);
    field::lemma_sum_residue(rp * rq, k * (rr * rs));
    field::lemma_sum_residue(p * q, k * (r * s));
}

/// The first power of an element is the element, reduced.
pub proof fn lemma_ext_power_one(a: (int, int))
    ensures
        ext_power(a, 1) == (field::residue(a.0), field::residue(a.1)),
{
    reveal_with_fuel(ext_power, 2);
    assert(a.0 * 1 + 7 * (a.1 * 0) == a.0) by (nonlinear_arith);
    assert(a.0 * 0 + a.1 * 1 == a.1) by (nonlinear_arith);
}

/// Every power is a pair of canonical residues.
pub proof fn lemma_ext_power_reduced(a: (int, int), n: nat)
    ensures
        is_reduced(ext_power(a, n)),
{
    if n > 0 {
        let rest = ext_power(a, (n - 1) as nat);
        field::lemma_residue_range(a.0 * rest.0 + 7 * (a.1 * rest.1));
        field::lemma_residue_range(a.0 * rest.1 + a.1 * rest.0);
    }
}

/// Multiplication in the extension is associative.
pub proof fn lemma_ext_product_associative(a: (int, int), b: (int, int), c: (int, int))
    ensures
        ext_product(ext_product(a, b), c) == ext_product(a, ext_product(b, c)),
{
    let ab0 = a.0 * b.0 + 7 * (a.1 * b.1);
    let ab1 = a.0 * b.1 + a.1 * b.0;
    let bc0 = b.0 * c.0 + 7 * (b.1 * c.1);
    let bc1 = b.0 * c.1 + b.1 * c.0;
    lemma_ext_product_residue((ab0, ab1), c);
    lemma_ext_product_residue(a, (bc0, bc1));
    lemma_triple_products(a.0, a.1, b.0, b.1, c.0, c.1);
}

/// The two polynomial identities behind the associativity of the product.
proof fn lemma_triple_products(a0: int, a1: int, b0: int, b1: int, c0: int, c1: int)
    ensures
        (a0 * b0 + 7 * (a1 * b1)) * c0 + 7 * ((a0 * b1 + a1 * b0) * c1) == a0 * (b0 * c0 + 7 * (b1
            * c1)) + 7 * (a1 * (b0 * c1 + b1 * c0)),
        (a0 * b0 + 7 * (a1 * b1)) * c1 + (a0 * b1 + a1 * b0) * c0 == a0 * (b0 * c1 + b1 * c0) + a1
            * (b0 * c0 + 7 * (b1 * c1)),
{
    let x000 = a0 * (b0 * c0);
    let x011 = a0 * (b1 * c1);
    let x101 = a1 * (b0 * c1);
    let x110 = a1 * (b1 * c0);
    let x001 = a0 * (b0 * c1);
    let x010 = a0 * (b1 * c0);
    let x100 = a1 * (b0 * c0);
    let x111 = a1 * (b1 * c1);
    assert((a0 * b0) * c0 == x000) by (nonlinear_arith)
        requires x000 == a0 * (b0 * c0);
    assert((a1 * b1) * c0 == x110) by (nonlinear_arith)
        requires x110 == a1 * (b1 * c0);
    assert((a0 * b1) * c1 == x011) by (nonlinear_arith)
        requires x011 == a0 * (b1 * c1);
    assert((a1 * b0) * c1 == x101) by (nonlinear_arith)
        requires x101 == a1 * (b0 * c1);
    assert((a0 * b0) * c1 == x001) by (nonlinear_arith)
        requires x001 == a0 * (b0 * c1);
    assert((a1 * b1) * c1 == x111) by (nonlinear_arith)
        requires x111 == a1 * (b1 * c1);
    assert((a0 * b1) * c0 == x010) by (nonlinear_arith)
        requires x010 == a0 * (b1 * c0);
    assert((a1 * b0) * c0 == x100) by (nonlinear_arith)
        requires x100 == a1 * (b0 * c0);
    let (p, q, r, t) = (a0 * b0, a1 * b1, a0 * b1, a1 * b0);
    assert((p + 7 * q) * c0 == p * c0 + 7 * (q * c0)) by (nonlinear_arith);
    assert((r + t) * c1 == r * c1 + t * c1) by (nonlinear_arith);
    assert((p + 7 * q) * c1 == p * c1 + 7 * (q * c1)) by (nonlinear_arith);
    assert((r + t) * c0 == r * c0 + t * c0) by (nonlinear_arith);
    let (u, v, w, z) = (b0 * c0, b1 * c1, b0 * c1, b1 * c0);
    assert(a0 * (u + 7 * v) == a0 * u + 7 * (a0 * v)) by (nonlinear_arith);
    assert(a1 * (w + z) == a1 * w + a1 * z) by (nonlinear_arith);
    assert(a0 * (w + z) == a0 * w + a0 * z) by (nonlinear_arith);
    assert(a1 * (u + 7 * v) == a1 * u + 7 * (a1 * v)) by (nonlinear_arith);
}

/// Powers add up in the exponent: `a^(m + n) = a^m * a^n`.
pub proof fn lemma_ext_power_add(a: (int, int), m: nat, n: nat)
    ensures
        ext_power(a, m + n) == ext_product(ext_power(a, m), ext_power(a, n)),
    decreases m,
{
    if m == 0 {
        let p = ext_power(a, n);
        lemma_ext_power_reduced(a, n);
        assert(1 * p.0 + 7 * (0 * p.1) == p.0) by (nonlinear_arith);
        assert(1 * p.1 + 0 * p.0 == p.1) by (nonlinear_arith);
        vstd::arithmetic::div_mod::lemma_small_mod(p.0 as nat, field::ORDER as nat);
        vstd::arithmetic::div_mod::lemma_small_mod(p.1 as nat, field::ORDER as nat);
    } else {
        lemma_ext_power_add(a, (m - 1) as nat, n);
        assert((m + n - 1) as nat == (m - 1) as nat + n);
        lemma_ext_product_associative(a, ext_power(a, (m - 1) as nat), ext_power(a, n));
    }
}

/// Addition in the extension is commutative.
pub proof fn lemma_ext_sum_commutative(a: (int, int), b: (int, int))
    ensures
        ext_sum(a, b) == ext_sum(b, a),
{
}

/// Addition in the extension is associative.
pub proof fn lemma_ext_sum_associative(a: (int, int), b: (int, int), c: (int, int))
    ensures
        ext_sum(ext_sum(a, b), c) == ext_sum(a, ext_sum(b, c)),
{
    field::lemma_sum_residue(a.0 + b.0, c.0);
    field::lemma_sum_residue(a.1 + b.1, c.1);
    field::lemma_sum_residue(a.0, b.0 + c.0);
    field::lemma_sum_residue(a.1, b.1 + c.1);
}

/// Multiplication in the extension is commutative.
pub proof fn lemma_ext_product_commutative(a: (int, int), b: (int, int))
    ensures
        ext_product(a, b) == ext_product(b, a),
{
    assert(a.0 * b.0 == b.0 * a.0) by (nonlinear_arith);
    assert(a.1 * b.1 == b.1 * a.1) by (nonlinear_arith);
    assert(a.0 * b.1 == b.1 * a.0) by (nonlinear_arith);
    assert(a.1 * b.0 == b.0 * a.1) by (nonlinear_arith);
}

/// Multiplication distributes over addition.
pub proof fn lemma_ext_product_distributes(a: (int, int), b: (int, int), c: (int, int))
    ensures
        ext_product(ext_sum(a, b), c) == ext_sum(ext_product(a, c), ext_product(b, c)),
{
    let s = (a.0 + b.0, a.1 + b.1);
    lemma_ext_product_residue(s, c);
    let x0 = a.0 * c.0 + 7 * (a.1 * c.1);
    let y0 = b.0 * c.0 + 7 * (b.1 * c.1);
    let x1 = a.0 * c.1 + a.1 * c.0;
    let y1 = b.0 * c.1 + b.1 * c.0;
    field::lemma_sum_residue(x0, y0);
    field::lemma_sum_residue(x1, y1);
    assert((a.0 + b.0) * c.0 == a.0 * c.0 + b.0 * c.0) by (nonlinear_arith);
    assert((a.1 + b.1) * c.1 == a.1 * c.1 + b.1 * c.1) by (nonlinear_arith);
    assert((a.0 + b.0) * c.1 == a.0 * c.1 + b.0 * c.1) by (nonlinear_arith);
    assert((a.1 + b.1) * c.0 == a.1 * c.0 + b.1 * c.0) by (nonlinear_arith);
}

/// Zero is neutral for the addition, and one for the multiplication, of
/// reduced pairs.
pub proof fn lemma_ext_neutral(a: (int, int))
    requires
        is_reduced(a),
    ensures
        ext_sum((0, 0), a) == a,
        ext_sum(a, (0, 0)) == a,
        ext_product((1, 0), a) == a,
        ext_product(a, (1, 0)) == a,
        ext_product((0, 0), a) == (0int, 0int),
{
    vstd::arithmetic::div_mod::lemma_small_mod(a.0 as nat, field::ORDER as nat);
    vstd::arithmetic::div_mod::lemma_small_mod(a.1 as nat, field::ORDER as nat);
    vstd::arithmetic::div_mod::lemma_small_mod(0, field::ORDER as nat);
    assert(1 * a.0 + 7 * (0 * a.1) == a.0) by (nonlinear_arith);
    assert(1 * a.1 + 0 * a.0 == a.1) by (nonlinear_arith);
    assert(a.0 * 1 + 7 * (a.1 * 0) == a.0) by (nonlinear_arith);
    assert(a.0 * 0 + a.1 * 1 == a.1) by (nonlinear_arith);
    assert(0 * a.0 + 7 * (0 * a.1) == 0) by (nonlinear_arith);
    assert(0 * a.1 + 0 * a.0 == 0) by (nonlinear_arith);
}

/// Sums and products are pairs of canonical residues.
pub proof fn lemma_ext_reduced(a: (int, int), b: (int, int))
    ensures
        is_reduced(ext_sum(a, b)),
        is_reduced(ext_product(a, b)),
{
    field::lemma_residue_range(a.0 + b.0);
    field::lemma_residue_range(a.1 + b.1);
    field::lemma_residue_range(a.0 * b.0 + 7 * (a.1 * b.1));
    field::lemma_residue_range(a.0 * b.1 + a.1 * b.0);
}

} // verus!
