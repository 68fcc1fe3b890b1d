//! Arithmetic in the Goldilocks field, on `u64` representatives.
//!
//! Any `u64` stands for its residue modulo [`ORDER`]; the operations return
//! the canonical representative, the one below `ORDER`.

use vstd::arithmetic::div_mod::{
    lemma_add_mod_noop, lemma_mod_bound, lemma_mul_mod_noop_general, lemma_small_mod,
    lemma_sub_mod_noop,
};
use vstd::arithmetic::mul::lemma_mul_upper_bound;
use vstd::arithmetic::power2::{lemma_pow2_unfold, pow2};
use vstd::prelude::*;

verus! {

/// The order of the field, the prime `2^64 - 2^32 + 1`.
pub const ORDER: u64 = 0xFFFF_FFFF_0000_0001;

/// The canonical residue of an integer.
pub open spec fn residue(x: int) -> int {
    x % (ORDER as int)
}

/// The sum of two residues.
pub open spec fn sum(a: int, b: int) -> int {
    residue(a + b)
}

/// The difference of two residues.
pub open spec fn difference(a: int, b: int) -> int {
    residue(a - b)
}

/// The product of two residues.
pub open spec fn product(a: int, b: int) -> int {
    residue(a * b)
}

/// `a` raised to the `n`-th power, as an `n`-fold product.
pub open spec fn power(a: int, n: nat) -> int
    decreases n,
{
    if n == 0 {
        1
    } else {
        product(a, power(a, (n - 1) as nat))
    }
}

/// The canonical representative of `x`.
pub fn to_canonical(x: u64) -> (r: u64)
    ensures
        r < ORDER,
        r as int == residue(x as int),
{
    if x >= ORDER {
        x - ORDER
    } else {
        x
    }
}

/// Whether `x` stands for zero.
pub fn is_zero(x: u64) -> (b: bool)
    ensures
        b == (residue(x as int) == 0),
{
    x == 0 || x == ORDER
}

/// Addition in the field.
pub fn field_add(a: u64, b: u64) -> (r: u64)
    ensures
        r < ORDER,
        r as int == sum(a as int, b as int),
{
    let wide: u128 = (a as u128 + b as u128) % (ORDER as u128);
    wide as u64
}

/// Subtraction in the field.
pub fn field_sub(a: u64, b: u64) -> (r: u64)
    ensures
        r < ORDER,
        r as int == difference(a as int, b as int),
{
    let lhs: u64 = to_canonical(a);
    let rhs: u64 = to_canonical(b);
    proof {
        lemma_sub_mod_noop(a as int, b as int, ORDER as int);
    }
    if lhs >= rhs {
        proof {
            lemma_small_mod((lhs - rhs) as nat, ORDER as nat);
        }
        lhs - rhs
    } else {
        let gap: u64 = rhs - lhs;
        proof {
            assert((lhs as int - rhs as int) % (ORDER as int) == ORDER as int - gap as int) by {
                vstd::arithmetic::div_mod::lemma_mod_add_multiples_vanish(
                    lhs as int - rhs as int,
                    ORDER as int,
                );
                lemma_small_mod((ORDER - gap) as nat, ORDER as nat);
            }
        }
        ORDER - gap
    }
}

/// Multiplication in the field.
pub fn field_mul(a: u64, b: u64) -> (r: u64)
    ensures
        r < ORDER,
        r as int == product(a as int, b as int),
{
    proof {
        lemma_mul_upper_bound(a as int, u64::MAX as int, b as int, u64::MAX as int);
        assert(0xFFFF_FFFF_FFFF_FFFFint * 0xFFFF_FFFF_FFFF_FFFFint < 0xFFFF_FFFF_FFFF_FFFF_FFFF_FFFF_FFFF_FFFFint);
    }
    let wide: u128 = (a as u128 * b as u128) % (ORDER as u128);
    wide as u64
}

/// `x` squared `k` times over, that is `x` to the power `2^k`.
pub fn exp_power_of_2(x: u64, k: usize) -> (r: u64)
    ensures
        r < ORDER,
        r as int == power(x as int, pow2(k as nat)),
{
    let mut r: u64 = to_canonical(x);
    let mut i: usize = 0;
    proof {
        lemma_power_one(x as int);
        vstd::arithmetic::power2::lemma2_to64();
    }
    while i < k
        invariant
            i <= k,
            r < ORDER,
            r as int == power(x as int, pow2(i as nat)),
        decreases k - i,
    {
        proof {
            lemma_power_add(x as int, pow2(i as nat), pow2(i as nat));
            lemma_pow2_unfold((i + 1) as nat);
        }
        r = field_mul(r, r);
        i = i + 1;
    }
    r
}

/// A residue is below the order and not negative.
pub proof fn lemma_residue_range(x: int)
    ensures
        0 <= residue(x) < ORDER,
        residue(residue(x)) == residue(x),
{
    lemma_mod_bound(x, ORDER as int);
    lemma_small_mod(residue(x) as nat, ORDER as nat);
}

/// A product does not depend on the representatives of its factors.
pub proof fn lemma_product_residue(a: int, b: int)
    ensures
        product(residue(a), b) == product(a, b),
        product(a, residue(b)) == product(a, b),
        product(residue(a), residue(b)) == product(a, b),
{
    lemma_mul_mod_noop_general(a, b, ORDER as int);
}

/// A sum does not depend on the representatives of its terms.
pub proof fn lemma_sum_residue(a: int, b: int)
    ensures
        sum(residue(a), b) == sum(a, b),
        sum(a, residue(b)) == sum(a, b),
        sum(residue(a), residue(b)) == sum(a, b),
{
    lemma_add_mod_noop(a, b, ORDER as int);
    lemma_residue_range(a);
    lemma_residue_range(b);
    lemma_add_mod_noop(residue(a), b, ORDER as int);
    lemma_add_mod_noop(a, residue(b), ORDER as int);
}

/// Multiplication in the field is associative.
pub proof fn lemma_product_associative(a: int, b: int, c: int)
    ensures
        product(product(a, b), c) == product(a, product(b, c)),
{
    lemma_product_residue(a * b, c);
    lemma_product_residue(a, b * c);
    assert((a * b) * c == a * (b * c)) by (nonlinear_arith);
}

/// The first power of `a` is its residue.
pub proof fn lemma_power_one(a: int)
    ensures
        power(a, 1) == residue(a),
{
    reveal_with_fuel(power, 2);
    assert(a * 1 == a);
}

/// Every power is a canonical residue.
pub proof fn lemma_power_range(a: int, n: nat)
    ensures
        0 <= power(a, n) < ORDER,
        residue(power(a, n)) == power(a, n),
{
    if n == 0 {
        lemma_small_mod(1, ORDER as nat);
    } else {
        lemma_residue_range(a * power(a, (n - 1) as nat));
    }
}

/// Powers add up in the exponent: `a^(m + n) = a^m * a^n`.
pub proof fn lemma_power_add(a: int, m: nat, n: nat)
    ensures
        power(a, m + n) == product(power(a, m), power(a, n)),
    decreases m,
{
    if m == 0 {
        lemma_power_range(a, n);
        assert(1 * power(a, n) == power(a, n));
    } else {
        lemma_power_add(a, (m - 1) as nat, n);
        assert((m + n - 1) as nat == (m - 1) as nat + n);
        lemma_product_associative(a, power(a, (m - 1) as nat), power(a, n));
    }
}

/// Multiplication in the field is commutative.
pub proof fn lemma_product_commutative(a: int, b: int)
    ensures
        product(a, b) == product(b, a),
{
    assert(a * b == b * a) by (nonlinear_arith);
}

/// Addition in the field is associative.
pub proof fn lemma_sum_associative(a: int, b: int, c: int)
    ensures
        sum(sum(a, b), c) == sum(a, sum(b, c)),
{
    lemma_sum_residue(a + b, c);
    lemma_sum_residue(a, b + c);
}

/// Multiplication distributes over addition.
pub proof fn lemma_product_distributes(a: int, b: int, c: int)
    ensures
        product(sum(a, b), c) == sum(product(a, c), product(b, c)),
{
    lemma_product_residue(a + b, c);
    lemma_sum_residue(a * c, b * c);
    assert((a + b) * c == a * c + b * c) by (nonlinear_arith);
}

} // verus!
