use calculator::binary64::Binary64;
use calculator::number::CustomNumber;

#[test]
fn zero_widens_to_positive_zero() {
    assert_eq!(Binary64::from_i64(0).to_bits(), 0);
    assert!(Binary64::from_i64(0).is_zero());
}

#[test]
fn small_integers_widen_to_known_patterns() {
    assert_eq!(Binary64::from_i64(1).to_bits(), 0x3ff0_0000_0000_0000);
    assert_eq!(Binary64::from_i64(-1).to_bits(), 0xbff0_0000_0000_0000);
    assert_eq!(Binary64::from_i64(2).to_bits(), 0x4000_0000_0000_0000);
    assert_eq!(Binary64::from_i64(3).to_bits(), 0x4008_0000_0000_0000);
    assert_eq!(Binary64::from_i64(10).to_bits(), 0x4024_0000_0000_0000);
    assert_eq!(Binary64::from_i64(-7).to_bits(), 0xc01c_0000_0000_0000);
}

#[test]
fn integers_of_up_to_53_bits_widen_exactly() {
    let two_53: i64 = 1 << 53;
    for value in [two_53 - 1, two_53, -two_53, 1 << 52, (1 << 52) + 1, 4503599627370497] {
        let widened = f64::from_bits(Binary64::from_i64(value).to_bits());
        assert_eq!(widened as i64, value);
        assert_eq!(widened.to_bits(), (value as f64).to_bits());
    }
}

#[test]
fn a_tie_goes_to_the_even_significand() {
    let two_53: i64 = 1 << 53;
    // 2^53 + 1 lies midway between 2^53 and 2^53 + 2.
    assert_eq!(Binary64::from_i64(two_53 + 1).to_bits(), 0x4340_0000_0000_0000);
    // 2^53 + 3 lies midway between 2^53 + 2 and 2^53 + 4.
    assert_eq!(Binary64::from_i64(two_53 + 3).to_bits(), 0x4340_0000_0000_0002);
    assert_eq!(Binary64::from_i64(two_53 + 2).to_bits(), 0x4340_0000_0000_0001);
    assert_eq!(Binary64::from_i64(-(two_53 + 1)).to_bits(), 0xc340_0000_0000_0000);
    // Above 2^54 the spacing is 4: 2^54 + 2 is a tie, 2^54 + 3 is not.
    assert_eq!(Binary64::from_i64((1 << 54) + 2).to_bits(), 0x4350_0000_0000_0000);
    assert_eq!(Binary64::from_i64((1 << 54) + 3).to_bits(), 0x4350_0000_0000_0001);
    assert_eq!(Binary64::from_i64((1 << 54) + 6).to_bits(), 0x4350_0000_0000_0002);
}

#[test]
fn rounding_may_carry_into_the_exponent() {
    // 2^54 - 1 rounds up to 2^54.
    assert_eq!(Binary64::from_i64((1 << 54) - 1).to_bits(), 0x4350_0000_0000_0000);
    assert_eq!(Binary64::from_i64(i64::MAX).to_bits(), 0x43e0_0000_0000_0000);
    assert_eq!(Binary64::from_i64(i64::MIN).to_bits(), 0xc3e0_0000_0000_0000);
    assert_eq!(Binary64::from_i64(i64::MIN + 1).to_bits(), 0xc3e0_0000_0000_0000);
    assert_eq!(Binary64::from_i64(i64::MAX - 511).to_bits(), 0x43e0_0000_0000_0000);
    assert_eq!(Binary64::from_i64(i64::MAX - 512).to_bits(), 0x43df_ffff_ffff_ffff);
}

#[test]
fn widening_agrees_with_the_hardware_conversion() {
    let mut edges: Vec<i64> = vec![0, 1, -1, i64::MAX, i64::MIN, i64::MIN + 1];
    for shift in 0..63 {
        let power: i64 = 1 << shift;
        for delta in -3..=3 {
            edges.push(power.wrapping_add(delta));
            edges.push(power.wrapping_add(delta).wrapping_neg());
            edges.push(power.wrapping_mul(3).wrapping_add(delta));
        }
        if shift >= 2 {
            edges.push(power + power / 2);
            edges.push(power + power / 2 + 1);
            edges.push(power + power / 2 - 1);
            edges.push(power + power / 4);
            edges.push(2 * (power - 1) + 1);
        }
    }
    for value in edges {
        assert_eq!(
            Binary64::from_i64(value).to_bits(),
            (value as f64).to_bits(),
            "value {}",
            value
        );
    }
    let mut state: u64 = 0x2545_f491_4f6c_dd1d;
    for _ in 0..200_000 {
        state ^= state << 13;
        state ^= state >> 7;
        state ^= state << 17;
        let value = (state as i64) >> (state % 64);
        assert_eq!(
            Binary64::from_i64(value).to_bits(),
            (value as f64).to_bits(),
            "value {}",
            value
        );
    }
}

#[test]
fn only_zero_widens_to_a_zero() {
    for value in [1, -1, 2, i64::MAX, i64::MIN, 1 << 53, -(1 << 60)] {
        assert!(!Binary64::from_i64(value).is_zero(), "value {}", value);
    }
}

#[test]
fn both_zeros_are_zero_and_nothing_else_is() {
    assert!(Binary64::from_bits(0.0f64.to_bits()).is_zero());
    assert!(Binary64::from_bits((-0.0f64).to_bits()).is_zero());
    assert!(!Binary64::from_bits(f64::MIN_POSITIVE.to_bits()).is_zero());
    assert!(!Binary64::from_bits(1).is_zero());
    assert!(!Binary64::from_bits(f64::NAN.to_bits()).is_zero());
    assert!(!Binary64::from_bits(f64::INFINITY.to_bits()).is_zero());
    assert!(!Binary64::from_bits(f64::NEG_INFINITY.to_bits()).is_zero());
    assert!(!Binary64::from_bits(1.0f64.to_bits()).is_zero());
}

#[test]
fn a_float_operand_converts_to_itself() {
    for value in [2.5f64, -0.0, f64::INFINITY, f64::MAX, 1e-320] {
        let bits = Binary64::from_bits(value.to_bits());
        assert_eq!(CustomNumber::Float(bits).to_f64(), bits);
    }
    let nan = Binary64::from_bits(0x7ff8_0000_0000_1234);
    assert_eq!(CustomNumber::Float(nan).to_f64().to_bits(), 0x7ff8_0000_0000_1234);
}

#[test]
fn an_integer_operand_converts_by_widening() {
    assert_eq!(CustomNumber::Integer(2).to_f64().to_bits(), 2.0f64.to_bits());
    assert_eq!(CustomNumber::Integer(-10).to_f64().to_bits(), (-10.0f64).to_bits());
    assert_eq!(
        CustomNumber::Integer(9007199254740993).to_f64().to_bits(),
        9007199254740992.0f64.to_bits()
    );
}
