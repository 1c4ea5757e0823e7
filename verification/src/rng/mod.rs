//! Java-compatible RNG: the 48-bit linear congruential generator of
//! `java.util.Random`, which Minecraft uses for structure placement.
//! Everything else in this crate depends on it producing bit-for-bit the
//! same output as Java.

use vstd::prelude::*;
use vstd::arithmetic::power2::*;
use vstd::bits::*;

pub mod period;

verus! {

/// Multiplier of `java.util.Random`'s generator.
pub const MULTIPLIER: i64 = 0x5DEECE66D;

/// Addend of `java.util.Random`'s generator.
pub const ADDEND: i64 = 0xB;

/// Mask that keeps the low 48 bits of the state.
pub const MASK: i64 = 0xFFFF_FFFF_FFFF;

/// The generator works modulo 2^48.
pub open spec fn state_modulus() -> int {
    0x1_0000_0000_0000
}

/// One step of the generator on a 48-bit state.
#[verifier::opaque]
pub open spec fn lcg_step(s: int) -> int {
    (s * MULTIPLIER + ADDEND) % state_modulus()
}

/// The state after `n` steps from `s`.
pub open spec fn lcg_iter(s: int, n: nat) -> int
    decreases n,
{
    if n == 0 {
        s
    } else {
        lcg_step(lcg_iter(s, (n - 1) as nat))
    }
}

/// The state that `new(seed)` starts from: the low 48 bits of
/// `seed ^ MULTIPLIER`, as in Java's `Random(long)` constructor.
pub open spec fn initial_state(seed: i64) -> int {
    ((seed ^ MULTIPLIER) & MASK) as int
}

/// Java's `(int)` conversion of a value in `[0, 2^32)`.
pub open spec fn to_java_int(v: int) -> int {
    if v < 0x8000_0000 {
        v
    } else {
        v - 0x1_0000_0000
    }
}

/// What `next(bits)` returns once the state has become `s`: the top `bits`
/// of the 48 bits, converted to an `int`.
pub open spec fn top_bits(s: int, bits: nat) -> int {
    to_java_int(s / pow2((48 - bits) as nat) as int)
}

/// The 31-bit draw that `next(31)` returns once the state has become `s`.
pub open spec fn draw31(s: int) -> int {
    s / 0x2_0000
}

/// `nextInt`'s rejection test: a draw `v` is kept unless
/// `v - v % bound + (bound - 1)` overflows a 32-bit `int`.
pub open spec fn draw_accepted(v: int, bound: int) -> bool {
    v - v % bound + (bound - 1) < 0x8000_0000
}

/// The `j`-th draw from state `s` is kept.
pub open spec fn accepted_at(s: int, bound: int, j: nat) -> bool {
    draw_accepted(draw31(lcg_iter(s, j)), bound)
}

/// The `j`-th draw from `s` is the first one kept.
pub open spec fn first_accepted(s: int, bound: int, j: nat) -> bool {
    &&& 1 <= j
    &&& accepted_at(s, bound, j)
    &&& forall|i: nat| 1 <= i < j ==> !#[trigger] accepted_at(s, bound, i)
}

/// How many draws `nextInt(bound)` makes from `s` when `bound` is not a
/// power of two: the index of the first kept draw.
pub open spec fn draws_used(s: int, bound: int) -> nat {
    choose|j: nat| first_accepted(s, bound, j)
}

/// `b` is a power of two.
pub open spec fn is_power_of_two(b: int) -> bool {
    exists|k: nat| pow2(k) == b
}

/// The state after Java's `nextInt(bound)` from state `s`.
pub open spec fn next_int_state(s: int, bound: int) -> int {
    if is_power_of_two(bound) {
        lcg_step(s)
    } else {
        lcg_iter(s, draws_used(s, bound))
    }
}

/// The value of Java's `nextInt(bound)` from state `s`: for a power of two,
/// the top bits of one draw scaled down; otherwise the first kept draw
/// reduced modulo `bound`.
pub open spec fn next_int_value(s: int, bound: int) -> int {
    if is_power_of_two(bound) {
        (bound * draw31(lcg_step(s))) / 0x8000_0000
    } else {
        draw31(next_int_state(s, bound)) % bound
    }
}

/// Java's 48-bit linear congruential generator (`java.util.Random`).
#[derive(Clone, Copy, Debug)]
pub struct JavaLcg {
    seed: i64,
}

impl View for JavaLcg {
    type V = int;

    closed spec fn view(&self) -> int {
        self.seed as int
    }
}

proof fn lemma_mask_range(x: i64)
    by (bit_vector)
    ensures
        0 <= x & 0xFFFF_FFFF_FFFF < 0x1_0000_0000_0000,
{
}

/// Every starting state is a 48-bit state.
pub proof fn lemma_mask_bounds(seed: i64)
    ensures
        0 <= initial_state(seed) < state_modulus(),
{
    lemma_mask_range(seed ^ MULTIPLIER);
}

/// For a positive `b`, `b & -b == b` holds exactly when `b` is a power of two.
proof fn lemma_lowest_bit_test(b: i32)
    requires
        0 < b,
    ensures
        ((b & ((-b) as i32)) == b) == is_pow2(b as int),
    decreases b,
{
    reveal(is_pow2);
    if b == 1 {
        assert((b & ((-b) as i32)) == b) by (bit_vector)
            requires
                b == 1,
        ;
    } else {
        let h = b >> 1i32;
        assert(((b & ((-b) as i32)) == b) == ((b & 1i32) == 0i32 && (h & ((-h) as i32)) == h))
            by (bit_vector)
            requires
                h == b >> 1i32,
                b > 1i32,
        ;
        assert(h == b / 2 && ((b & 1i32) == 0i32) == (b % 2 == 0)) by (bit_vector)
            requires
                h == b >> 1i32,
                b > 1i32,
        ;
        lemma_lowest_bit_test(h);
    }
}

/// Links `is_power_of_two` to vstd's recursive `is_pow2`.
proof fn lemma_power_of_two_equiv(b: int)
    ensures
        is_power_of_two(b) == is_pow2(b),
{
    is_pow2_equiv(b);
    if is_power_of_two(b) {
        let k = choose|k: nat| pow2(k) == b;
        lemma_pow2(k);
        assert(vstd::arithmetic::power::pow(2, k) == b);
    }
    if is_pow2_exists(b) {
        let k = choose|k: nat| vstd::arithmetic::power::pow(2, k) == b;
        lemma_pow2(k);
        assert(pow2(k) == b);
    }
}

/// `next(31)` returns the 31-bit draw of the new state.
proof fn lemma_top31(s: int)
    requires
        0 <= s < state_modulus(),
    ensures
        top_bits(s, 31) == draw31(s),
        0 <= draw31(s) < 0x8000_0000,
{
    lemma2_to64();
    assert(((48 - 31) as nat) == 17);
}

/// Searching upward from draw `i`, some draw up to `last` is the first kept.
proof fn lemma_first_accepted_from(s: int, bound: int, i: nat, last: nat)
    requires
        1 <= i <= last,
        accepted_at(s, bound, last),
        forall|m: nat| 1 <= m < i ==> !#[trigger] accepted_at(s, bound, m),
    ensures
        first_accepted(s, bound, draws_used(s, bound)),
    decreases last - i,
{
    if accepted_at(s, bound, i) {
        assert(first_accepted(s, bound, i));
    } else {
        lemma_first_accepted_from(s, bound, i + 1, last);
    }
}

/// `nextInt` always returns: from every state, some draw is kept, so
/// `draws_used` names the first kept draw. (The draw from state 0 is always
/// kept, and the generator reaches state 0 from every state.)
pub proof fn lemma_some_draw_accepted(s: int, bound: int)
    requires
        0 <= s < state_modulus(),
        0 < bound <= i32::MAX,
    ensures
        first_accepted(s, bound, draws_used(s, bound)),
{
    assert(0 <= lcg_step(s) < state_modulus()) by {
        reveal(lcg_step);
    }
    let n = period::lemma_reaches_zero(lcg_step(s));
    period::lemma_iter_shift(s, n);
    assert(accepted_at(s, bound, n + 1));
    lemma_first_accepted_from(s, bound, 1, n + 1);
}

/// A positive `b` that fails the bit test `b & -b == b` is not a power of two.
pub proof fn lemma_bound_not_power_of_two(b: i32)
    requires
        0 < b,
        (b & ((-b) as i32)) != b,
    ensures
        !is_power_of_two(b as int),
{
    lemma_lowest_bit_test(b);
    lemma_power_of_two_equiv(b as int);
}

/// A first kept draw is unique.
proof fn lemma_first_accepted_unique(s: int, bound: int, j1: nat, j2: nat)
    requires
        first_accepted(s, bound, j1),
        first_accepted(s, bound, j2),
    ensures
        j1 == j2,
{
    if j1 < j2 {
        assert(!accepted_at(s, bound, j1));
    }
    if j2 < j1 {
        assert(!accepted_at(s, bound, j2));
    }
}

/// `nextInt(bound)` for a bound that is not a power of two, unrolled by one
/// draw: the first draw `v` (the top 31 bits of the next state) is used, as
/// `v % bound`, exactly when `v - v % bound + (bound - 1)` does not overflow a
/// 32-bit `int`; a draw from the incomplete last block of size `bound` is
/// discarded, and `nextInt` then gives what it gives from the state after
/// that draw.
pub proof fn lemma_next_int_unrolls(s: int, bound: int)
    requires
        0 <= s < state_modulus(),
        0 < bound <= i32::MAX,
        !is_power_of_two(bound),
    ensures
        ({
            let t = lcg_step(s);
            let v = t / 0x2_0000;
            if v - v % bound + (bound - 1) <= i32::MAX {
                &&& next_int_value(s, bound) == v % bound
                &&& next_int_state(s, bound) == t
            } else {
                &&& next_int_value(s, bound) == next_int_value(t, bound)
                &&& next_int_state(s, bound) == next_int_state(t, bound)
            }
        }),
{
    let t = lcg_step(s);
    assert(0 <= t < state_modulus()) by {
        reveal(lcg_step);
    }
    assert(lcg_iter(s, 0) == s);
    assert(lcg_iter(s, 1) == t);
    lemma_some_draw_accepted(s, bound);
    let d = draws_used(s, bound);
    if accepted_at(s, bound, 1) {
        assert(first_accepted(s, bound, 1));
        lemma_first_accepted_unique(s, bound, 1, d);
    } else {
        assert(d >= 2);
        let e = (d - 1) as nat;
        period::lemma_iter_shift(s, e);
        assert forall|i: nat| 1 <= i < e implies !#[trigger] accepted_at(t, bound, i) by {
            period::lemma_iter_shift(s, i);
            assert(!accepted_at(s, bound, i + 1));
        }
        assert(first_accepted(t, bound, e));
        lemma_some_draw_accepted(t, bound);
        lemma_first_accepted_unique(t, bound, e, draws_used(t, bound));
    }
}

/// `nextInt(bound)` lies in `[0, bound)` from every state.
pub proof fn lemma_next_int_range(s: int, bound: int)
    requires
        0 <= s < state_modulus(),
        0 < bound <= i32::MAX,
    ensures
        0 <= next_int_value(s, bound) < bound,
        0 <= next_int_state(s, bound) < state_modulus(),
{
    let t = lcg_step(s);
    assert(0 <= t < state_modulus()) by {
        reveal(lcg_step);
    }
    if is_power_of_two(bound) {
        let v = draw31(t);
        assert(0 <= v < 0x8000_0000);
        assert(0 <= bound * v / 0x8000_0000 < bound) by (nonlinear_arith)
            requires
                0 <= v < 0x8000_0000,
                0 < bound,
        ;
    } else {
        lemma_some_draw_accepted(s, bound);
        lemma_iter_range(s, draws_used(s, bound));
    }
}

/// For a power-of-two bound `2^k` (`k <= 30`), `nextInt(2^k)` is one step of
/// the generator and returns exactly what `next(k)` would: the top `k` bits
/// of the new state.
pub proof fn lemma_next_int_power_of_two(s: int, k: nat)
    requires
        0 <= s < state_modulus(),
        k <= 30,
    ensures
        next_int_state(s, pow2(k) as int) == lcg_step(s),
        next_int_value(s, pow2(k) as int) == top_bits(lcg_step(s), k),
{
    let b = pow2(k) as int;
    assert(is_power_of_two(b));
    let t = lcg_step(s);
    assert(0 <= t < state_modulus()) by {
        reveal(lcg_step);
    }
    lemma2_to64();
    let a = t / 0x2_0000;
    let m = pow2((31 - k) as nat) as int;
    let w = pow2((48 - k) as nat) as int;
    lemma_pow2_adds(k, (31 - k) as nat);
    lemma_pow2_adds(17, (31 - k) as nat);
    assert(((17 + (31 - k)) as nat) == (48 - k) as nat);
    lemma_pow2_pos(k);
    lemma_pow2_pos((31 - k) as nat);
    assert(b * m == 0x8000_0000);
    assert(0x2_0000 * m == w);
    vstd::arithmetic::div_mod::lemma_div_denominator(b * a, b, m);
    vstd::arithmetic::div_mod::lemma_div_multiples_vanish(a, b);
    vstd::arithmetic::div_mod::lemma_div_denominator(t, 0x2_0000, m);
    assert(0 <= a < 0x8000_0000);
    assert(b * a >= 0) by (nonlinear_arith)
        requires
            b > 0,
            a >= 0,
    ;
    assert(t / w <= a) by {
        vstd::arithmetic::div_mod::lemma_div_is_ordered_by_denominator(a, 1, m);
    }
}

/// Reference values of `java.util.Random`: `new Random(0).nextInt()` is
/// -1155484576, and `new Random(0).nextInt(1073741825)` is 516548029 (its
/// first two draws, 1569741360 and 1785505948, fall in the incomplete last
/// block and are redrawn).
pub proof fn lemma_java_reference_values()
    ensures
        top_bits(lcg_step(initial_state(0)), 32) == -1155484576,
        next_int_value(initial_state(0), 0x4000_0001) == 516548029,
{
    assert(((0i64 ^ 0x5DEECE66Di64) & 0xFFFF_FFFF_FFFFi64) == 0x5DEECE66Di64) by (bit_vector);
    let s0 = 0x5DEECE66Dint;
    assert(lcg_step(s0) == 205749139540596) by {
        reveal(lcg_step);
    }
    assert(lcg_step(205749139540596) == 234029835660143) by {
        reveal(lcg_step);
    }
    assert(lcg_step(234029835660143) == 67704983304270) by {
        reveal(lcg_step);
    }
    lemma2_to64();
    assert((48 - 32) as nat == 16);
    let b: i32 = 0x4000_0001;
    assert((b & ((-b) as i32)) != b) by (bit_vector)
        requires
            b == 0x4000_0001i32,
    ;
    lemma_lowest_bit_test(b);
    lemma_power_of_two_equiv(b as int);
    lemma_next_int_unrolls(s0, 0x4000_0001);
    lemma_next_int_unrolls(205749139540596, 0x4000_0001);
    lemma_next_int_unrolls(234029835660143, 0x4000_0001);
}

/// Every state reached from a 48-bit state is a 48-bit state.
proof fn lemma_iter_range(s: int, n: nat)
    requires
        0 <= s < state_modulus(),
    ensures
        0 <= lcg_iter(s, n) < state_modulus(),
    decreases n,
{
    if n > 0 {
        lemma_iter_range(s, (n - 1) as nat);
        reveal(lcg_step);
    }
}

impl JavaLcg {
    #[verifier::type_invariant]
    spec fn state_fits(self) -> bool {
        0 <= self.seed < state_modulus()
    }

    /// Starts the generator as Java's `Random(seed)` does.
    pub fn new(seed: i64) -> (r: Self)
        ensures
            r@ == initial_state(seed),
            0 <= r@ < state_modulus(),
    {
        let s = (seed ^ MULTIPLIER) & MASK;
        proof {
            lemma_mask_range(seed ^ MULTIPLIER);
        }
        JavaLcg { seed: s }
    }

    /// Advances the state one step and returns its top `bits` bits, as Java's
    /// `Random.next(bits)`.
    pub fn next_bits(&mut self, bits: u32) -> (r: i32)
        requires
            bits <= 32,
        ensures
            final(self)@ == lcg_step(old(self)@),
            0 <= final(self)@ < state_modulus(),
            r == top_bits(final(self)@, bits as nat),
            bits < 32 ==> 0 <= r < pow2(bits as nat),
    {
        proof {
            use_type_invariant(&*self);
            reveal(lcg_step);
        }
        let s = self.seed as u128;
        let next = (s * 0x5DEECE66D + 0xB) % 0x1_0000_0000_0000;
        self.seed = next as i64;
        let shift = 48u64 - bits as u64;
        let v = (next as u64) >> shift;
        proof {
            lemma_u64_shr_is_div(next as u64, shift);
            lemma2_to64();
            lemma_pow2_pos(shift as nat);
            assert(pow2(shift as nat) >= pow2(16)) by {
                if shift > 16 {
                    lemma_pow2_strictly_increases(16, shift as nat);
                }
            }
            assert(v < 0x1_0000_0000) by {
                vstd::arithmetic::div_mod::lemma_div_is_ordered_by_denominator(
                    next as int, pow2(16) as int, pow2(shift as nat) as int);
            }
            if bits < 32 {
                lemma_pow2_adds(bits as nat, shift as nat);
                lemma_pow2_pos(bits as nat);
                lemma2_to64_rest();
                assert(v < pow2(bits as nat)) by {
                    vstd::arithmetic::div_mod::lemma_div_by_multiple_is_strongly_ordered(
                        next as int, (pow2(bits as nat) * pow2(shift as nat)) as int, pow2(bits as nat) as int,
                        pow2(shift as nat) as int);
                    vstd::arithmetic::div_mod::lemma_div_by_multiple(
                        pow2(bits as nat) as int, pow2(shift as nat) as int);
                }
                if bits < 31 {
                    lemma_pow2_strictly_increases(bits as nat, 31);
                }
            }
        }
        if v < 0x8000_0000 {
            v as i32
        } else {
            (v as i64 - 0x1_0000_0000) as i32
        }
    }

    /// Returns a value in `[0, bound)`, as Java's `Random.nextInt(bound)`:
    /// one scaled draw when `bound` is a power of two, otherwise rejection
    /// sampling that discards draws from the incomplete last block of size
    /// `bound`.
    pub fn next_int(&mut self, bound: i32) -> (r: i32)
        requires
            bound > 0,
        ensures
            r == next_int_value(old(self)@, bound as int),
            final(self)@ == next_int_state(old(self)@, bound as int),
            0 <= final(self)@ < state_modulus(),
            0 <= r < bound,
            !is_power_of_two(bound as int) ==> ({
                let t = lcg_step(old(self)@);
                let v = t / 0x2_0000;
                if v - v % (bound as int) + (bound - 1) <= i32::MAX {
                    r == v % (bound as int) && final(self)@ == t
                } else {
                    r == next_int_value(t, bound as int) && final(self)@ == next_int_state(
                        t,
                        bound as int,
                    )
                }
            }),
    {
        proof {
            use_type_invariant(&*self);
            lemma_lowest_bit_test(bound);
            lemma_power_of_two_equiv(bound as int);
            lemma2_to64();
        }
        let ghost s0 = self@;
        if (bound & -bound) == bound {
            let d = self.next_bits(31);
            proof {
                lemma_top31(self@);
                assert((bound as u64) * (d as u64) < 0x4000_0000_0000_0000) by (nonlinear_arith)
                    requires
                        0 < bound < 0x8000_0000,
                        0 <= d < 0x8000_0000,
                ;
            }
            let prod = (bound as u64) * (d as u64);
            let scaled = prod >> 31u64;
            proof {
                lemma_u64_shr_is_div(prod, 31);
                assert(scaled < bound) by (nonlinear_arith)
                    requires
                        scaled == prod / 0x8000_0000,
                        prod == bound * d,
                        0 <= d < 0x8000_0000,
                        bound > 0,
                ;
            }
            return scaled as i32;
        }
        let mut bits = self.next_bits(31);
        proof {
            lemma_top31(self@);
        }
        let mut val = bits % bound;
        let ghost mut drawn: nat = 1;
        let ghost zero_at: nat = 1 + period::lemma_reaches_zero(lcg_step(s0));
        proof {
            period::lemma_iter_shift(s0, (zero_at - 1) as nat);
            assert(lcg_iter(s0, 1) == lcg_step(lcg_iter(s0, 0)));
            assert(accepted_at(s0, bound as int, zero_at));
        }
        while bits.wrapping_sub(val).wrapping_add(bound - 1) < 0
            invariant
                bound > 0,
                !is_power_of_two(bound as int),
                1 <= drawn,
                self@ == lcg_iter(s0, drawn),
                0 <= self@ < state_modulus(),
                bits == draw31(self@),
                val == bits % bound,
                accepted_at(s0, bound as int, zero_at),
                forall|i: nat| 1 <= i < drawn ==> !#[trigger] accepted_at(s0, bound as int, i),
                drawn <= zero_at,
            decreases zero_at - drawn,
        {
            assert(!accepted_at(s0, bound as int, drawn));
            bits = self.next_bits(31);
            proof {
                lemma_top31(self@);
            }
            val = bits % bound;
            proof {
                drawn = drawn + 1;
            }
        }
        proof {
            assert(first_accepted(s0, bound as int, drawn));
            lemma_first_accepted_unique(s0, bound as int, drawn, draws_used(s0, bound as int));
            lemma_next_int_unrolls(s0, bound as int);
        }
        val
    }
}

} // verus!
