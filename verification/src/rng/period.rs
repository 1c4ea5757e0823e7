//! The generator has full period: from every 48-bit state, iterating the
//! step eventually reaches the state 0. This is what makes the rejection
//! loop of `next_int` terminate.
//!
//! The argument works on the unreduced affine iterate `g(n, x)`, with
//! `g(0, x) = x` and `g(n + 1, x) = a * g(n, x) + c`, where `a` is the
//! multiplier (`a % 4 == 1`) and `c` the odd addend. By induction on `k`,
//! every `x` has an `n` with `2^k | g(n, x)`.

use vstd::prelude::*;
use vstd::arithmetic::power2::*;
use vstd::arithmetic::mul::*;
use vstd::arithmetic::div_mod::*;
use super::{lcg_iter, lcg_step, state_modulus, MULTIPLIER, ADDEND};

verus! {

/// The affine iterate without reduction modulo 2^48.
pub open spec fn affine_iter(x: int, n: nat) -> int
    decreases n,
{
    if n == 0 {
        x
    } else {
        MULTIPLIER * affine_iter(x, (n - 1) as nat) + ADDEND
    }
}

/// `MULTIPLIER` raised to the power `n`.
pub open spec fn mult_pow(n: nat) -> int
    decreases n,
{
    if n == 0 {
        1
    } else {
        MULTIPLIER * mult_pow((n - 1) as nat)
    }
}

/// Iterating `m` more times after `n` steps is iterating `n + m` times.
proof fn lemma_affine_compose(x: int, n: nat, m: nat)
    ensures
        affine_iter(affine_iter(x, n), m) == affine_iter(x, n + m),
    decreases m,
{
    if m > 0 {
        lemma_affine_compose(x, n, (m - 1) as nat);
    }
}

/// `g(n, x) == a^n * x + g(n, 0)`.
proof fn lemma_affine_linear(x: int, n: nat)
    ensures
        affine_iter(x, n) == mult_pow(n) * x + affine_iter(0, n),
    decreases n,
{
    if n > 0 {
        let p = (n - 1) as nat;
        lemma_affine_linear(x, p);
        lemma_mul_is_associative(MULTIPLIER as int, mult_pow(p), x);
        lemma_mul_is_distributive_add(
            MULTIPLIER as int,
            mult_pow(p) * x,
            affine_iter(0, p),
        );
    }
}

/// Every power of the multiplier is 1 modulo 4.
proof fn lemma_mult_pow_mod4(n: nat) -> (q: int)
    ensures
        mult_pow(n) == 4 * q + 1,
    decreases n,
{
    if n == 0 {
        0
    } else {
        let q0 = lemma_mult_pow_mod4((n - 1) as nat);
        assert(MULTIPLIER * (4 * q0 + 1) == 4 * (MULTIPLIER * q0 + 6303725979) + 1)
            by (nonlinear_arith);
        MULTIPLIER * q0 + 6303725979
    }
}

/// `g(2^k, 0)` is `2^k` times an odd number.
proof fn lemma_block(k: nat) -> (w: int)
    ensures
        affine_iter(0, pow2(k)) == pow2(k) * w,
        w % 2 == 1,
    decreases k,
{
    if k == 0 {
        lemma2_to64();
        reveal_with_fuel(affine_iter, 2);
        assert(affine_iter(0, 1) == ADDEND);
        11
    } else {
        let km = (k - 1) as nat;
        let n = pow2(km);
        let w0 = lemma_block(km);
        lemma_pow2_unfold(k);
        let y = affine_iter(0, n);
        lemma_affine_compose(0, n, n);
        lemma_affine_linear(y, n);
        let q = lemma_mult_pow_mod4(n);
        let u = (w0 - 1) / 2;
        assert(w0 == 2 * u + 1);
        let w = w0 * (2 * q + 1);
        assert((4 * q + 1) * (n * w0) + n * w0 == (2 * n) * (w0 * (2 * q + 1)))
            by (nonlinear_arith);
        assert(w0 * (2 * q + 1) == 2 * (2 * u * q + u + q) + 1) by (nonlinear_arith)
            requires
                w0 == 2 * u + 1,
        ;
        w
    }
}

/// From every `x`, some number of steps makes `g` divisible by `2^k`.
proof fn lemma_reach_multiple(k: nat, x: int) -> (r: (nat, int))
    ensures
        affine_iter(x, r.0) == pow2(k) * r.1,
    decreases k,
{
    if k == 0 {
        lemma2_to64();
        assert(pow2(k) * x == x) by (nonlinear_arith)
            requires
                pow2(k) == 1,
        ;
        (0, x)
    } else {
        let km = (k - 1) as nat;
        let (n0, q0) = lemma_reach_multiple(km, x);
        let p = pow2(km);
        lemma_pow2_unfold(k);
        if q0 % 2 == 0 {
            let h = q0 / 2;
            assert(q0 == 2 * h);
            assert(p * q0 == (2 * p) * h) by (nonlinear_arith)
                requires
                    q0 == 2 * h,
            ;
            assert(affine_iter(x, n0) == pow2(k) * h);
            (n0, h)
        } else {
            let y = affine_iter(x, n0);
            lemma_affine_compose(x, n0, p);
            lemma_affine_linear(y, p);
            let w = lemma_block(km);
            let q = lemma_mult_pow_mod4(p);
            let u = (q0 - 1) / 2;
            let v = (w - 1) / 2;
            assert(q0 == 2 * u + 1);
            assert(w == 2 * v + 1);
            let t = 4 * q * u + 2 * q + u + v + 1;
            assert((4 * q + 1) * (p * q0) + p * w == (2 * p) * t) by (nonlinear_arith)
                requires
                    q0 == 2 * u + 1,
                    w == 2 * v + 1,
                    t == 4 * q * u + 2 * q + u + v + 1,
            ;
            assert(affine_iter(y, p) == (4 * q + 1) * (p * q0) + p * w);
            assert(affine_iter(x, n0 + p) == pow2(k) * t);
            (n0 + p, t)
        }
    }
}

/// Reducing the affine iterate modulo 2^48 gives the generator's states.
proof fn lemma_iter_is_reduced_affine(s: int, n: nat)
    requires
        0 <= s < state_modulus(),
    ensures
        lcg_iter(s, n) == affine_iter(s, n) % state_modulus(),
    decreases n,
{
    reveal(lcg_step);
    if n == 0 {
        lemma_small_mod(s as nat, state_modulus() as nat);
    } else {
        let p = (n - 1) as nat;
        lemma_iter_is_reduced_affine(s, p);
        let g = affine_iter(s, p);
        let m = state_modulus();
        lemma_mul_mod_noop_left(g, MULTIPLIER as int, m);
        lemma_add_mod_noop((g % m) * MULTIPLIER, ADDEND as int, m);
        lemma_add_mod_noop(g * MULTIPLIER, ADDEND as int, m);
        lemma_mod_twice((g * MULTIPLIER), m);
        lemma_mod_twice(((g % m) * MULTIPLIER), m);
        lemma_mul_is_commutative(g, MULTIPLIER as int);
    }
}

/// Stepping once and then `n` times is stepping `n + 1` times.
pub proof fn lemma_iter_shift(s: int, n: nat)
    ensures
        lcg_iter(lcg_step(s), n) == lcg_iter(s, n + 1),
    decreases n,
{
    if n > 0 {
        lemma_iter_shift(s, (n - 1) as nat);
        assert(lcg_iter(lcg_step(s), n) == lcg_step(lcg_iter(lcg_step(s), (n - 1) as nat)));
        assert(lcg_iter(s, n + 1) == lcg_step(lcg_iter(s, n)));
    } else {
        assert(lcg_iter(s, 0) == s);
        assert(lcg_iter(s, 1) == lcg_step(lcg_iter(s, 0)));
    }
}

/// Full period: from every 48-bit state some number of steps reaches 0.
pub proof fn lemma_reaches_zero(s: int) -> (n: nat)
    requires
        0 <= s < state_modulus(),
    ensures
        lcg_iter(s, n) == 0,
{
    let (n, q) = lemma_reach_multiple(48, s);
    lemma2_to64_rest();
    lemma_iter_is_reduced_affine(s, n);
    lemma_mod_multiples_basic(q, state_modulus());
    lemma_mul_is_commutative(q, state_modulus());
    n
}

} // verus!
