//! How long the noise stream runs before it repeats.

use crate::engine::random::next_seed;
use vstd::arithmetic::power2::{lemma2_to64, lemma_pow2_adds, lemma_pow2_pos, pow2};
use vstd::prelude::*;

verus! {

/// The seed after `draws` draws.
pub open spec fn seed_after(seed: int, draws: int) -> int
    decreases draws,
{
    if draws <= 0 {
        seed
    } else {
        next_seed(seed_after(seed, draws - 1))
    }
}

/// The seed after `draws` draws, had it no upper end.
spec fn unbounded(seed: int, draws: int) -> int
    decreases draws,
{
    if draws <= 0 {
        seed
    } else {
        214_013 * unbounded(seed, draws - 1) + 2_531_011
    }
}

proof fn lemma_bounded(seed: int, draws: int)
    requires
        0 <= seed < 0x1_0000_0000,
        0 <= draws,
    ensures
        seed_after(seed, draws) == unbounded(seed, draws) % 0x1_0000_0000,
    decreases draws,
{
    if draws > 0 {
        lemma_bounded(seed, draws - 1);
        let before = unbounded(seed, draws - 1);
        let whole = before / 0x1_0000_0000;
        vstd::arithmetic::div_mod::lemma_fundamental_div_mod(before, 0x1_0000_0000);
        vstd::arithmetic::div_mod::lemma_mod_multiples_vanish(
            214_013 * whole,
            214_013 * (before % 0x1_0000_0000) + 2_531_011,
            0x1_0000_0000,
        );
    }
}

proof fn lemma_in_two_runs(seed: int, first: int, second: int)
    requires
        0 <= first,
        0 <= second,
    ensures
        unbounded(seed, first + second) == unbounded(unbounded(seed, first), second),
    decreases second,
{
    if second > 0 {
        lemma_in_two_runs(seed, first, second - 1);
    }
}

/// With this number, two to the `k` draws multiply the seed by `1 + 4 * pow2(k) * slope(k)`.
spec fn slope(k: nat) -> int
    decreases k,
{
    if k == 0 {
        53_503
    } else {
        let before = slope((k - 1) as nat);
        before + 2 * pow2((k - 1) as nat) * (before * before)
    }
}

/// With this number, two to the `k` draws add `pow2(k) * shift(k)`.
spec fn shift(k: nat) -> int
    decreases k,
{
    if k == 0 {
        2_531_011
    } else {
        let before = (k - 1) as nat;
        shift(before) + 2 * (shift(before) * (pow2(before) * slope(before)))
    }
}

proof fn lemma_shift_is_odd(k: nat)
    ensures
        shift(k) % 2 == 1,
    decreases k,
{
    if k > 0 {
        lemma_shift_is_odd((k - 1) as nat);
    }
}

/// Two runs of the same length, each of which multiplies by `1 + 4 * power * factor` and adds
/// `power * addend`.
proof fn lemma_twice(seed: int, power: int, factor: int, addend: int)
    ensures
        (1 + 4 * power * factor) * ((1 + 4 * power * factor) * seed + power * addend) + power
            * addend == (1 + 4 * (2 * power) * (factor + 2 * power * (factor * factor))) * seed + (2
            * power) * (addend + 2 * (addend * (power * factor))),
{
    let slant = power * factor;
    let sum = power * addend;
    let product = slant * seed;
    assert(4 * power * factor == 4 * slant) by (nonlinear_arith)
        requires
            slant == power * factor,
    ;
    assert((1 + 4 * slant) * seed == seed + 4 * product) by (nonlinear_arith)
        requires
            product == slant * seed,
    ;
    assert((1 + 4 * slant) * (seed + 4 * product + sum) == seed + 4 * product + sum + 4 * (slant
        * seed) + 16 * (slant * product) + 4 * (slant * sum)) by (nonlinear_arith);
    assert(4 * (2 * power) * (factor + 2 * power * (factor * factor)) == 8 * slant + 16 * (slant
        * slant)) by (nonlinear_arith)
        requires
            slant == power * factor,
    ;
    assert((1 + (8 * slant + 16 * (slant * slant))) * seed == seed + 8 * product + 16 * (slant
        * product)) by (nonlinear_arith)
        requires
            product == slant * seed,
    ;
    assert((2 * power) * (addend + 2 * (addend * slant)) == 2 * sum + 4 * (slant * sum))
        by (nonlinear_arith)
        requires
            sum == power * addend,
    ;
}

proof fn lemma_leap(seed: int, k: nat)
    ensures
        unbounded(seed, pow2(k) as int) == (1 + 4 * pow2(k) * slope(k)) * seed + pow2(k) * shift(k),
    decreases k,
{
    if k == 0 {
        lemma2_to64();
        reveal_with_fuel(unbounded, 2);
    } else {
        let before = (k - 1) as nat;
        let power = pow2(before) as int;
        lemma_pow2_pos(before);
        lemma2_to64();
        lemma_pow2_adds(1, before);
        assert(pow2(k) == 2 * power);
        lemma_leap(seed, before);
        let middle = unbounded(seed, power);
        lemma_leap(middle, before);
        lemma_in_two_runs(seed, power, power);
        lemma_twice(seed, power, slope(before), shift(before));
        assert(slope(k) == slope(before) + 2 * power * (slope(before) * slope(before)));
        assert(shift(k) == shift(before) + 2 * (shift(before) * (power * slope(before))));
    }
}

/// After `count` runs of two to the `k` draws the seed has moved by as many times two to the `k`,
/// but for an even number of times.
proof fn lemma_leaps(seed: int, k: nat, count: int) -> (moves: int)
    requires
        0 <= count,
    ensures
        unbounded(seed, count * pow2(k)) == seed + pow2(k) * moves,
        moves % 2 == count % 2,
    decreases count,
{
    let power = pow2(k) as int;
    lemma_pow2_pos(k);
    if count == 0 {
        assert(count * power == 0);
        0
    } else {
        let moves = lemma_leaps(seed, k, count - 1);
        assert(0 <= (count - 1) * power) by (nonlinear_arith)
            requires
                count >= 1,
                power > 0,
        ;
        assert((count - 1) * power + power == count * power) by (nonlinear_arith);
        lemma_in_two_runs(seed, (count - 1) * power, power);
        let middle = unbounded(seed, (count - 1) * power);
        lemma_leap(middle, k);
        lemma_shift_is_odd(k);
        let slant = slope(k) * middle;
        assert((1 + 4 * power * slope(k)) * middle + power * shift(k) == middle + power * (4 * slant
            + shift(k))) by (nonlinear_arith)
            requires
                slant == slope(k) * middle,
        ;
        assert(seed + power * moves + power * (4 * slant + shift(k)) == seed + power * (moves + 4
            * slant + shift(k))) by (nonlinear_arith);
        moves + 4 * slant + shift(k)
    }
}

/// A positive number is a power of two times an odd number.
proof fn lemma_odd_part(number: int) -> (parts: (nat, int))
    requires
        0 < number,
    ensures
        parts.1 % 2 == 1,
        0 < parts.1,
        number == parts.1 * pow2(parts.0),
    decreases number,
{
    if number % 2 == 1 {
        lemma2_to64();
        (0, number)
    } else {
        let parts = lemma_odd_part(number / 2);
        lemma2_to64();
        lemma_pow2_adds(1, parts.0);
        let power = pow2(parts.0) as int;
        assert(2 * (parts.1 * power) == parts.1 * (2 * power)) by (nonlinear_arith);
        (parts.0 + 1, parts.1)
    }
}

proof fn lemma_powers_below(k: nat, odd: int)
    requires
        0 < odd,
        odd * pow2(k) < 0x1_0000_0000,
    ensures
        k < 32,
{
    if k >= 32 {
        lemma2_to64();
        lemma_pow2_adds(32, (k - 32) as nat);
        lemma_pow2_pos((k - 32) as nat);
        let rest = pow2((k - 32) as nat) as int;
        assert(0x1_0000_0000 <= odd * (0x1_0000_0000 * rest)) by (nonlinear_arith)
            requires
                0 < odd,
                0 < rest,
        ;
    }
}

/// The seed does not come back before two to the 32 draws, whatever it is.
pub proof fn seeds_do_not_repeat_early(seed: int, draws: int)
    requires
        0 <= seed < 0x1_0000_0000,
        0 < draws < 0x1_0000_0000,
    ensures
        seed_after(seed, draws) != seed,
{
    let (k, odd) = lemma_odd_part(draws);
    let moves = lemma_leaps(seed, k, odd);
    lemma_powers_below(k, odd);
    lemma_bounded(seed, draws);
    lemma2_to64();
    let power = pow2(k) as int;
    let rest = pow2((31 - k) as nat) as int;
    lemma_pow2_pos(k);
    lemma_pow2_adds(k, (31 - k) as nat);
    assert(power * rest == 0x8000_0000);
    if seed_after(seed, draws) == seed {
        let reached = seed + power * moves;
        let whole = reached / 0x1_0000_0000;
        vstd::arithmetic::div_mod::lemma_fundamental_div_mod(reached, 0x1_0000_0000);
        assert(power * moves == 0x1_0000_0000 * whole);
        assert(power * moves == power * (2 * (rest * whole))) by (nonlinear_arith)
            requires
                power * moves == 0x1_0000_0000 * whole,
                power * rest == 0x8000_0000,
        ;
        assert(moves == 2 * (rest * whole)) by (nonlinear_arith)
            requires
                power * moves == power * (2 * (rest * whole)),
                power > 0,
        ;
    }
}

/// After two to the 32 draws the stream starts again.
pub proof fn seeds_come_back(seed: int)
    requires
        0 <= seed < 0x1_0000_0000,
    ensures
        seed_after(seed, 0x1_0000_0000) == seed,
{
    lemma2_to64();
    assert(pow2(32) == 0x1_0000_0000);
    let moves = lemma_leaps(seed, 32, 1);
    lemma_bounded(seed, 0x1_0000_0000);
    vstd::arithmetic::div_mod::lemma_mod_multiples_vanish(moves, seed, 0x1_0000_0000);
    vstd::arithmetic::div_mod::lemma_small_mod(seed as nat, 0x1_0000_0000);
}

/// From one start, no state of the stream comes up twice within two to the 32 draws.
pub proof fn seeds_are_distinct(seed: int, first: int, second: int)
    requires
        0 <= seed < 0x1_0000_0000,
        0 <= first < second < 0x1_0000_0000,
    ensures
        seed_after(seed, first) != seed_after(seed, second),
{
    lemma_runs(seed, first, second - first);
    lemma_bounded(seed, first);
    seeds_do_not_repeat_early(seed_after(seed, first), second - first);
}

proof fn lemma_runs(seed: int, first: int, second: int)
    requires
        0 <= first,
        0 <= second,
    ensures
        seed_after(seed, first + second) == seed_after(seed_after(seed, first), second),
    decreases second,
{
    if second > 0 {
        lemma_runs(seed, first, second - 1);
    }
}

} // verus!
