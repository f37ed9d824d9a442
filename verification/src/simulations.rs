//! Fee growth accrued inside a tick range.
//!
//! Given the range bounds, the current tick, the global fee-growth
//! accumulators and the two boundary tick snapshots, the computation splits
//! the global accumulator into the growth below the range, above the range,
//! and (by subtraction) inside it, independently for each of the two tokens.
//! All accumulator arithmetic wraps modulo 2^256; the final subtraction is
//! clamped to zero instead of wrapping, a deliberate conservative floor.

use vstd::prelude::*;

verus! {

use vstd::arithmetic::div_mod::lemma_fundamental_div_mod_converse;
use vstd::arithmetic::div_mod::lemma_mod_multiples_basic;
use crate::u256::U256;
use crate::u256::add_wrap;
use crate::u256::sub_wrap;
use crate::u256::pow2_64;
use crate::u256::pow2_256;
use crate::u256::lemma_value_below_modulus;

/// A snapshot of one boundary tick. The fee computation reads only the two
/// `fee_growth_outside` accumulators; the remaining fields are carried
/// through untouched for the caller's benefit.
pub struct Tick {
    pub liquidity_gross: u128,
    pub liquidity_net: i128,
    pub fee_growth_outside_0_x_128: U256,
    pub fee_growth_outside_1_x_128: U256,
    pub tick_cumulative_outside: U256,
    pub seconds_per_liquidity_outside_x_128: U256,
    pub seconds_outside: u32,
    pub initialized: bool,
}

/// Fee growth below the lower bound of the range, for one token: the lower
/// tick's outside accumulator when the current tick is at or above the
/// bound, and its wrapped complement against the global accumulator when
/// the current tick is below it.
pub open spec fn fee_growth_below(
    tick_current: int,
    tick_lower: int,
    global: nat,
    lower_outside: nat,
) -> nat {
    if tick_current >= tick_lower {
        lower_outside
    } else {
        sub_wrap(global, lower_outside)
    }
}

/// Fee growth above the upper bound of the range, for one token: the upper
/// tick's outside accumulator when the current tick is strictly below the
/// bound, and its wrapped complement against the global accumulator
/// otherwise.
pub open spec fn fee_growth_above(
    tick_current: int,
    tick_upper: int,
    global: nat,
    upper_outside: nat,
) -> nat {
    if tick_current < tick_upper {
        upper_outside
    } else {
        sub_wrap(global, upper_outside)
    }
}

/// The inside growth for one token: the global accumulator minus the
/// (wrapped) sum of the below and above parts, clamped to zero whenever
/// that sum reaches the global value instead of wrapping past zero.
pub open spec fn clamped_inside(global: nat, below: nat, above: nat) -> nat {
    if global > add_wrap(below, above) {
        (global - add_wrap(below, above)) as nat
    } else {
        0
    }
}

/// The whole computation for one token, from the range bounds, the current
/// tick, the global accumulator and the two boundary outside accumulators.
pub open spec fn fee_growth_inside(
    tick_lower: int,
    tick_upper: int,
    tick_current: int,
    global: nat,
    lower_outside: nat,
    upper_outside: nat,
) -> nat {
    clamped_inside(
        global,
        fee_growth_below(tick_current, tick_lower, global, lower_outside),
        fee_growth_above(tick_current, tick_upper, global, upper_outside),
    )
}

/// Both tokens at once: the two computations share nothing but the ticks.
pub open spec fn fee_growth_inside_pair(
    tick_lower: int,
    tick_upper: int,
    tick_current: int,
    global_0: nat,
    global_1: nat,
    lower_outside_0: nat,
    lower_outside_1: nat,
    upper_outside_0: nat,
    upper_outside_1: nat,
) -> (nat, nat) {
    (
        fee_growth_inside(tick_lower, tick_upper, tick_current, global_0, lower_outside_0, upper_outside_0),
        fee_growth_inside(tick_lower, tick_upper, tick_current, global_1, lower_outside_1, upper_outside_1),
    )
}

/// When the global accumulator strictly exceeds the wrapped sum of the
/// below and above parts, subtracting the two parts one after the other,
/// each modulo 2^256, lands exactly on global minus that wrapped sum.
proof fn lemma_two_wrapping_subtractions(g: nat, b: nat, a: nat)
    requires
        g < pow2_256(),
        b < pow2_256(),
        a < pow2_256(),
        g > add_wrap(b, a),
    ensures
        sub_wrap(sub_wrap(g, b), a) == g - add_wrap(b, a),
{
    if b + a < pow2_256() {
        assert(add_wrap(b, a) == b + a);
    } else {
        assert(add_wrap(b, a) == b + a - pow2_256());
    }
}

/// Fee growth accrued inside the range `[tick_lower, tick_upper]` since the
/// pool was created, per unit of liquidity, for token 0 and token 1.
///
/// The result for each token is pinned by [`fee_growth_inside`], and never
/// exceeds that token's global accumulator.
pub fn get_fee_growth_inside(
    tick_lower: i32,
    tick_upper: i32,
    tick_current: i32,
    fee_growth_global_0_x_128: U256,
    fee_growth_global_1_x_128: U256,
    lower: &Tick,
    upper: &Tick,
) -> (res: (U256, U256))
    ensures
        (res.0@, res.1@) == fee_growth_inside_pair(
            tick_lower as int,
            tick_upper as int,
            tick_current as int,
            fee_growth_global_0_x_128@,
            fee_growth_global_1_x_128@,
            lower.fee_growth_outside_0_x_128@,
            lower.fee_growth_outside_1_x_128@,
            upper.fee_growth_outside_0_x_128@,
            upper.fee_growth_outside_1_x_128@,
        ),
        res.0@ <= fee_growth_global_0_x_128@,
        res.1@ <= fee_growth_global_1_x_128@,
{
    let (fee_growth_below_0_x_128, fee_growth_below_1_x_128) = if tick_current >= tick_lower {
        (lower.fee_growth_outside_0_x_128, lower.fee_growth_outside_1_x_128)
    } else {
        (
            fee_growth_global_0_x_128.wrapping_sub(&lower.fee_growth_outside_0_x_128),
            fee_growth_global_1_x_128.wrapping_sub(&lower.fee_growth_outside_1_x_128),
        )
    };
    let (fee_growth_above_0_x_128, fee_growth_above_1_x_128) = if tick_current < tick_upper {
        (upper.fee_growth_outside_0_x_128, upper.fee_growth_outside_1_x_128)
    } else {
        (
            fee_growth_global_0_x_128.wrapping_sub(&upper.fee_growth_outside_0_x_128),
            fee_growth_global_1_x_128.wrapping_sub(&upper.fee_growth_outside_1_x_128),
        )
    };

    let sum_0 = fee_growth_below_0_x_128.wrapping_add(&fee_growth_above_0_x_128);
    let fee_growth_inside_0_x_128 = if fee_growth_global_0_x_128.gt(&sum_0) {
        fee_growth_global_0_x_128.wrapping_sub(&fee_growth_below_0_x_128).wrapping_sub(
            &fee_growth_above_0_x_128,
        )
    } else {
        U256::zero()
    };
    proof {
        lemma_value_below_modulus(fee_growth_global_0_x_128);
        lemma_value_below_modulus(fee_growth_below_0_x_128);
        lemma_value_below_modulus(fee_growth_above_0_x_128);
        if fee_growth_global_0_x_128@ > add_wrap(
            fee_growth_below_0_x_128@,
            fee_growth_above_0_x_128@,
        ) {
            lemma_two_wrapping_subtractions(
                fee_growth_global_0_x_128@,
                fee_growth_below_0_x_128@,
                fee_growth_above_0_x_128@,
            );
        }
    }

    let sum_1 = fee_growth_below_1_x_128.wrapping_add(&fee_growth_above_1_x_128);
    let fee_growth_inside_1_x_128 = if fee_growth_global_1_x_128.gt(&sum_1) {
        fee_growth_global_1_x_128.wrapping_sub(&fee_growth_below_1_x_128).wrapping_sub(
            &fee_growth_above_1_x_128,
        )
    } else {
        U256::zero()
    };
    proof {
        lemma_value_below_modulus(fee_growth_global_1_x_128);
        lemma_value_below_modulus(fee_growth_below_1_x_128);
        lemma_value_below_modulus(fee_growth_above_1_x_128);
        if fee_growth_global_1_x_128@ > add_wrap(
            fee_growth_below_1_x_128@,
            fee_growth_above_1_x_128@,
        ) {
            lemma_two_wrapping_subtractions(
                fee_growth_global_1_x_128@,
                fee_growth_below_1_x_128@,
                fee_growth_above_1_x_128@,
            );
        }
    }

    (fee_growth_inside_0_x_128, fee_growth_inside_1_x_128)
}

/// For every input, the inside growth of a token never exceeds that token's
/// global accumulator: the clamp removes every wrapped-past-zero outcome.
pub proof fn lemma_inside_at_most_global(
    tick_lower: int,
    tick_upper: int,
    tick_current: int,
    global: nat,
    lower_outside: nat,
    upper_outside: nat,
)
    ensures
        fee_growth_inside(tick_lower, tick_upper, tick_current, global, lower_outside, upper_outside)
            <= global,
{
}

/// Swapping the roles of token 0 and token 1 everywhere — the global
/// accumulators and both outside accumulators — swaps the two results and
/// changes nothing else.
pub proof fn lemma_token_symmetry(
    tick_lower: int,
    tick_upper: int,
    tick_current: int,
    global_0: nat,
    global_1: nat,
    lower_outside_0: nat,
    lower_outside_1: nat,
    upper_outside_0: nat,
    upper_outside_1: nat,
)
    ensures
        ({
            let straight = fee_growth_inside_pair(
                tick_lower,
                tick_upper,
                tick_current,
                global_0,
                global_1,
                lower_outside_0,
                lower_outside_1,
                upper_outside_0,
                upper_outside_1,
            );
            let swapped = fee_growth_inside_pair(
                tick_lower,
                tick_upper,
                tick_current,
                global_1,
                global_0,
                lower_outside_1,
                lower_outside_0,
                upper_outside_1,
                upper_outside_0,
            );
            swapped.0 == straight.1 && swapped.1 == straight.0
        }),
{
}

/// A current tick exactly on a boundary: on the lower bound the "below"
/// part takes the lower tick's outside accumulator (the comparison is
/// inclusive), while on the upper bound the "above" part already takes the
/// wrapped complement (that comparison is strict).
pub proof fn lemma_boundary_inclusion(
    tick: int,
    global: nat,
    lower_outside: nat,
    upper_outside: nat,
)
    ensures
        fee_growth_below(tick, tick, global, lower_outside) == lower_outside,
        fee_growth_above(tick, tick, global, upper_outside) == sub_wrap(global, upper_outside),
{
}

/// The clamp: whenever the below and above parts sum — without wrapping —
/// to at least the global accumulator, the inside growth is exactly zero.
pub proof fn lemma_clamp_to_zero(global: nat, below: nat, above: nat)
    requires
        below + above < pow2_256(),
        below + above >= global,
    ensures
        clamped_inside(global, below, above) == 0,
{
    assert(add_wrap(below, above) == below + above);
}

/// 10^38, the fixed-point scale of the decimal rendering helper.
pub open spec fn pow10_38() -> nat {
    100000000000000000000000000000000000000nat
}

/// An exact multiple of 10^38 leaves no remainder, so its decimal rendering
/// carries a zero fractional part: with [`to_real_parts`], the remainder
/// piece of such a value is zero, and of the value zero the quotient piece
/// is zero too.
pub proof fn lemma_exact_multiple_renders_integral(value: nat, scale_factor: nat)
    requires
        value == scale_factor * pow10_38(),
    ensures
        (value % pow10_38()) % pow2_64() == 0,
        value == 0 ==> (value / pow10_38()) % pow2_64() == 0,
{
    lemma_mod_multiples_basic(scale_factor as int, pow10_38() as int);
}

/// The pieces from which a decimal rendering of a value scaled by 10^38 is
/// assembled: the low 64 bits of the integer quotient by 10^38, the low 64
/// bits of the remainder, and the low 64 bits of 10^38 itself. Quotients or
/// remainders past 64 bits silently lose their high-order bits: an accepted
/// precision limitation of the helper, kept as it is.
pub fn to_real_parts(num: U256) -> (res: (u64, u64, u64))
    ensures
        res.0 == (num@ / pow10_38()) % pow2_64(),
        res.1 == (num@ % pow10_38()) % pow2_64(),
        res.2 == pow10_38() % pow2_64(),
{
    let (q19, r19) = num.div_rem_u64(10_000_000_000_000_000_000u64);
    let (q38, r19b) = q19.div_rem_u64(10_000_000_000_000_000_000u64);
    let rem: u128 = (r19b as u128) * 10_000_000_000_000_000_000u128 + r19 as u128;
    let q_low: u64 = q38.limb0;
    let r_low: u64 = (rem % 0x1_0000_0000_0000_0000u128) as u64;
    proof {
        assert(num@ == q38@ * pow10_38() + rem);
        lemma_fundamental_div_mod_converse(
            num@ as int,
            pow10_38() as int,
            q38@ as int,
            rem as int,
        );
        assert(q38@ == (q38.limb1 as int + q38.limb2 as int * 0x1_0000_0000_0000_0000 + q38.limb3
            as int * 0x1_0000_0000_0000_0000_0000_0000_0000_0000) * pow2_64() + q38.limb0);
        lemma_fundamental_div_mod_converse(
            q38@ as int,
            pow2_64() as int,
            q38.limb1 as int + q38.limb2 as int * 0x1_0000_0000_0000_0000 + q38.limb3 as int
                * 0x1_0000_0000_0000_0000_0000_0000_0000_0000,
            q38.limb0 as int,
        );
        lemma_fundamental_div_mod_converse(
            rem as int,
            pow2_64() as int,
            (rem / 0x1_0000_0000_0000_0000) as int,
            r_low as int,
        );
        assert(pow10_38() % pow2_64() == 687399551400673280) by {
            lemma_fundamental_div_mod_converse(
                pow10_38() as int,
                pow2_64() as int,
                5421010862427522170,
                687399551400673280,
            );
        }
    }
    (q_low, r_low, 687399551400673280u64)
}

} // verus!
