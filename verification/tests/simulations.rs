use fee_growth::simulations::{get_fee_growth_inside, to_real_parts, Tick};
use fee_growth::u256::U256;

fn lower_tick() -> Tick {
    Tick {
        liquidity_gross: 1000,
        liquidity_net: 500,
        fee_growth_outside_0_x_128: U256::from_u64(1000),
        fee_growth_outside_1_x_128: U256::from_u64(2000),
        tick_cumulative_outside: U256::zero(),
        seconds_per_liquidity_outside_x_128: U256::zero(),
        seconds_outside: 0,
        initialized: true,
    }
}

fn upper_tick() -> Tick {
    Tick {
        liquidity_gross: 2000,
        liquidity_net: 1000,
        fee_growth_outside_0_x_128: U256::from_u64(3000),
        fee_growth_outside_1_x_128: U256::from_u64(4000),
        tick_cumulative_outside: U256::zero(),
        seconds_per_liquidity_outside_x_128: U256::zero(),
        seconds_outside: 0,
        initialized: true,
    }
}

#[test]
fn test_get_fee_growth_inside() {
    let lower = Tick {
        liquidity_gross: 1000,
        liquidity_net: 500,
        fee_growth_outside_0_x_128: U256::from_u64(1000),
        fee_growth_outside_1_x_128: U256::from_u64(2000),
        tick_cumulative_outside: U256::zero(),
        seconds_per_liquidity_outside_x_128: U256::zero(),
        seconds_outside: 0,
        initialized: true,
    };

    let upper = Tick {
        liquidity_gross: 2000,
        liquidity_net: 1000,
        fee_growth_outside_0_x_128: U256::from_u64(3000),
        fee_growth_outside_1_x_128: U256::from_u64(4000),
        tick_cumulative_outside: U256::zero(),
        seconds_per_liquidity_outside_x_128: U256::zero(),
        seconds_outside: 0,
        initialized: true,
    };

    let (fee_growth_inside_0_x_128, fee_growth_inside_1_x_128) = get_fee_growth_inside(
        -10,
        10,
        0,
        U256::from_u64(5000),
        U256::from_u64(6000),
        &lower,
        &upper,
    );

    assert_eq!(fee_growth_inside_0_x_128, U256::from_u64(1000));
    assert_eq!(fee_growth_inside_1_x_128, U256::from_u64(0));
}

#[test]
fn test_current_tick_below_range() {
    // Below the range both "below" parts come from global minus outside:
    // token 0 gets 5000 - 1000 + 3000 = 7000 >= 5000, token 1 gets
    // 6000 - 2000 + 4000 = 8000 >= 6000, so both results clamp to zero.
    let (r0, r1) = get_fee_growth_inside(
        -10,
        10,
        -20,
        U256::from_u64(5000),
        U256::from_u64(6000),
        &lower_tick(),
        &upper_tick(),
    );
    assert_eq!(r0, U256::zero());
    assert_eq!(r1, U256::zero());

    // With a small "above" part the subtraction stays positive:
    // below = 5000 - 1000 = 4000, above = 500, inside = 500.
    let upper_small = Tick {
        fee_growth_outside_0_x_128: U256::from_u64(500),
        fee_growth_outside_1_x_128: U256::from_u64(700),
        ..upper_tick()
    };
    let (r0, r1) = get_fee_growth_inside(
        -10,
        10,
        -20,
        U256::from_u64(5000),
        U256::from_u64(6000),
        &lower_tick(),
        &upper_small,
    );
    assert_eq!(r0, U256::from_u64(500));
    assert_eq!(r1, U256::from_u64(1300));
}

#[test]
fn test_current_tick_above_range() {
    // Above the range: below = lower outside, above = global minus upper
    // outside. Token 0: 5000 - 1000 - (5000 - 3000) = 2000; token 1:
    // 6000 - 2000 - (6000 - 4000) = 2000.
    let (r0, r1) = get_fee_growth_inside(
        -10,
        10,
        20,
        U256::from_u64(5000),
        U256::from_u64(6000),
        &lower_tick(),
        &upper_tick(),
    );
    assert_eq!(r0, U256::from_u64(2000));
    assert_eq!(r1, U256::from_u64(2000));
}

#[test]
fn test_current_tick_on_boundaries() {
    // Exactly on the lower bound: "below" already takes the outside value,
    // so the result matches the in-range scenario.
    let (r0, r1) = get_fee_growth_inside(
        -10,
        10,
        -10,
        U256::from_u64(5000),
        U256::from_u64(6000),
        &lower_tick(),
        &upper_tick(),
    );
    assert_eq!(r0, U256::from_u64(1000));
    assert_eq!(r1, U256::zero());

    // Exactly on the upper bound: the strict comparison already switches
    // "above" to global minus outside, as in the above-range scenario.
    let (r0, r1) = get_fee_growth_inside(
        -10,
        10,
        10,
        U256::from_u64(5000),
        U256::from_u64(6000),
        &lower_tick(),
        &upper_tick(),
    );
    assert_eq!(r0, U256::from_u64(2000));
    assert_eq!(r1, U256::from_u64(2000));
}

#[test]
fn test_clamp_to_zero() {
    // In range, below + above = 60 + 70 = 130 >= 100: clamped to zero.
    let lower = Tick {
        fee_growth_outside_0_x_128: U256::from_u64(60),
        fee_growth_outside_1_x_128: U256::from_u64(60),
        ..lower_tick()
    };
    let upper = Tick {
        fee_growth_outside_0_x_128: U256::from_u64(70),
        fee_growth_outside_1_x_128: U256::from_u64(40),
        ..upper_tick()
    };
    let (r0, r1) = get_fee_growth_inside(
        -10,
        10,
        0,
        U256::from_u64(100),
        U256::from_u64(100),
        &lower,
        &upper,
    );
    assert_eq!(r0, U256::zero());
    assert_eq!(r1, U256::zero());
}

#[test]
fn test_wrapped_below_part() {
    // The lower tick's outside accumulator exceeds the global one, so the
    // "below" part wraps to 2^256 - 10; adding above = 15 wraps the sum
    // back to 5, and 10 - 5 = 5 comes out for each token.
    let lower = Tick {
        fee_growth_outside_0_x_128: U256::from_u64(20),
        fee_growth_outside_1_x_128: U256::from_u64(20),
        ..lower_tick()
    };
    let upper = Tick {
        fee_growth_outside_0_x_128: U256::from_u64(15),
        fee_growth_outside_1_x_128: U256::from_u64(15),
        ..upper_tick()
    };
    let (r0, r1) = get_fee_growth_inside(
        -10,
        10,
        -20,
        U256::from_u64(10),
        U256::from_u64(10),
        &lower,
        &upper,
    );
    assert_eq!(r0, U256::from_u64(5));
    assert_eq!(r1, U256::from_u64(5));
}

#[test]
fn test_idempotence() {
    // Pure function: the same inputs give bit-identical outputs.
    let lower = lower_tick();
    let upper = upper_tick();
    let first = get_fee_growth_inside(
        -10,
        10,
        0,
        U256::from_u64(5000),
        U256::from_u64(6000),
        &lower,
        &upper,
    );
    let second = get_fee_growth_inside(
        -10,
        10,
        0,
        U256::from_u64(5000),
        U256::from_u64(6000),
        &lower,
        &upper,
    );
    assert_eq!(first, second);

    let value = U256::from_u128(100000000000000000000000000000000000123u128);
    assert_eq!(to_real_parts(value), to_real_parts(value));
}

#[test]
fn test_to_real_parts_zero() {
    let (q, r, d) = to_real_parts(U256::zero());
    assert_eq!(q, 0);
    assert_eq!(r, 0);
    assert_eq!(d, 687399551400673280);
    let as_decimal = q as f64 + r as f64 / d as f64;
    assert_eq!(as_decimal, 0.0);
}

#[test]
fn test_to_real_parts_exact_multiple() {
    // An exact multiple of 10^38 renders as an integer-valued decimal with
    // a zero fractional part.
    let value = U256::from_u128(200000000000000000000000000000000000000u128);
    let (q, r, d) = to_real_parts(value);
    assert_eq!(q, 2);
    assert_eq!(r, 0);
    let as_decimal = q as f64 + r as f64 / d as f64;
    assert_eq!(as_decimal, 2.0);
    assert_eq!(as_decimal.fract(), 0.0);
}

#[test]
fn test_to_real_parts_small_remainder() {
    let value = U256::from_u128(100000000000000000000000000000000000123u128);
    let (q, r, d) = to_real_parts(value);
    assert_eq!(q, 1);
    assert_eq!(r, 123);
    assert_eq!(d, 687399551400673280);
}

#[test]
fn test_token_symmetry() {
    // Swapping the two tokens' accumulators everywhere swaps the outputs.
    let lower = lower_tick();
    let upper = upper_tick();
    let (r0, r1) = get_fee_growth_inside(
        -10,
        10,
        20,
        U256::from_u64(5000),
        U256::from_u64(6000),
        &lower,
        &upper,
    );
    let lower_swapped = Tick {
        fee_growth_outside_0_x_128: lower.fee_growth_outside_1_x_128,
        fee_growth_outside_1_x_128: lower.fee_growth_outside_0_x_128,
        ..lower
    };
    let upper_swapped = Tick {
        fee_growth_outside_0_x_128: upper.fee_growth_outside_1_x_128,
        fee_growth_outside_1_x_128: upper.fee_growth_outside_0_x_128,
        ..upper
    };
    let (s0, s1) = get_fee_growth_inside(
        -10,
        10,
        20,
        U256::from_u64(6000),
        U256::from_u64(5000),
        &lower_swapped,
        &upper_swapped,
    );
    assert_eq!(s0, r1);
    assert_eq!(s1, r0);
}
