//! What widening an integer gives, as a value: the integer itself where 53
//! bits hold it, and the nearest binary64 value in every case.

use crate::binary64::{
    floor_log2, lemma_floor_log2_bounds, magnitude_of, round_half_even, significand_of, Binary64,
    HIDDEN_BIT,
};
use vstd::arithmetic::div_mod::{lemma_fundamental_div_mod, lemma_mod_pos_bound};
use vstd::arithmetic::power2::{
    lemma2_to64, lemma2_to64_rest, lemma_pow2_adds, lemma_pow2_pos, lemma_pow2_strictly_increases,
    lemma_pow2_unfold, pow2,
};
use vstd::prelude::*;

verus! {

/// The bounds that hold of the leading-bit position `k` and the significand
/// of a nonzero integer of at most 64 bits, and the pattern made of them.
pub proof fn lemma_nearest_parts(i: int) -> (parts: (nat, nat))
    requires
        i64::MIN <= i <= i64::MAX,
        i != 0,
    ensures
        ({
            let (k, significand) = parts;
            let m = magnitude_of(i);
            &&& k == floor_log2(m)
            &&& significand == significand_of(i)
            &&& k <= 63
            &&& pow2(k) <= m < 2 * pow2(k)
            &&& HIDDEN_BIT <= significand <= 2 * HIDDEN_BIT
            &&& k <= 52 ==> significand == m * pow2((52 - k) as nat)
            &&& k > 52 ==> significand == round_half_even(m, pow2((k - 52) as nat))
            &&& Binary64::nearest(i).magnitude() == (1022 + k) * HIDDEN_BIT + significand
            &&& Binary64::nearest(i).is_negative() == (i < 0)
        }),
{
    let m = magnitude_of(i);
    let k = floor_log2(m);
    lemma2_to64();
    lemma2_to64_rest();
    lemma_floor_log2_bounds(m);
    if k > 63 {
        lemma_pow2_strictly_increases(63, k);
    }
    let significand = if k <= 52 {
        let scale = pow2((52 - k) as nat);
        lemma_pow2_adds(k, (52 - k) as nat);
        lemma_pow2_pos((52 - k) as nat);
        let p = pow2(k);
        assert(HIDDEN_BIT <= m * scale < 2 * HIDDEN_BIT) by (nonlinear_arith)
            requires
                p <= m < 2 * p,
                p * scale == HIDDEN_BIT,
                scale > 0,
        ;
        m * scale
    } else {
        let unit = pow2((k - 52) as nat);
        lemma_pow2_adds(52, (k - 52) as nat);
        lemma_pow2_pos((k - 52) as nat);
        let p = pow2(k);
        assert(HIDDEN_BIT <= m / unit < 2 * HIDDEN_BIT) by (nonlinear_arith)
            requires
                p <= m < 2 * p,
                HIDDEN_BIT * unit == p,
                unit > 0,
        ;
        round_half_even(m, unit)
    };
    (k, significand)
}

/// Widening gives a zero for the integer 0 and for no other: an integer
/// divisor is refused exactly when it is 0.
pub proof fn lemma_nearest_is_zero_only_for_zero(i: int)
    requires
        i64::MIN <= i <= i64::MAX,
    ensures
        Binary64::nearest(i).spec_is_zero() <==> i == 0,
        Binary64::nearest(i).is_finite(),
{
    if i != 0 {
        let (k, significand) = lemma_nearest_parts(i);
    }
}

/// The value that widening gives, in units of `2^-1074`: the significand
/// scaled by `2^(1022+k)`, that is the value `significand * 2^(k-52)`.
pub proof fn lemma_nearest_scaled(i: int) -> (parts: (nat, nat))
    requires
        i64::MIN <= i <= i64::MAX,
        i != 0,
    ensures
        parts == (floor_log2(magnitude_of(i)), significand_of(i)),
        Binary64::nearest(i).scaled_magnitude() == parts.1 * pow2(1022 + parts.0),
{
    let (k, significand) = lemma_nearest_parts(i);
    let r = Binary64::nearest(i);
    if significand < 2 * HIDDEN_BIT {
        assert(r.exponent_field() == 1023 + k);
        assert(r.fraction_field() == significand - HIDDEN_BIT);
    } else {
        assert(r.exponent_field() == 1024 + k);
        assert(r.fraction_field() == 0);
        lemma_pow2_unfold(1023 + k);
        let u = pow2(1022 + k);
        assert(HIDDEN_BIT * (2 * u) == (2 * HIDDEN_BIT) * u) by (nonlinear_arith);
    }
    (k, significand)
}

/// An integer of magnitude at most `2^53` widens to a binary64 value equal to
/// it: nothing is lost.
pub proof fn lemma_nearest_is_exact(i: int)
    requires
        -0x20_0000_0000_0000 <= i <= 0x20_0000_0000_0000,
    ensures
        Binary64::nearest(i).scaled_value() == i * pow2(1074),
        Binary64::nearest(i).distance_to(i) == 0,
{
    lemma2_to64();
    lemma2_to64_rest();
    if i == 0 {
        assert(Binary64::nearest(i).scaled_magnitude() == 0);
    } else {
        let m = magnitude_of(i);
        let (k, significand) = lemma_nearest_parts(i);
        lemma_nearest_scaled(i);
        if k > 53 {
            lemma_pow2_strictly_increases(53, k);
        }
        let high = pow2(1022 + k);
        if k <= 52 {
            let scale = pow2((52 - k) as nat);
            lemma_pow2_adds((52 - k) as nat, 1022 + k);
            assert(scale * high == pow2(1074));
            assert((m * scale) * high == m * (scale * high)) by (nonlinear_arith);
        } else {
            assert(m == 0x20_0000_0000_0000);
            assert(significand == HIDDEN_BIT);
            lemma_pow2_unfold(1075);
            let low = pow2(1074);
            assert(HIDDEN_BIT * (2 * low) == m * low) by (nonlinear_arith)
                requires
                    m == 2 * HIDDEN_BIT,
            ;
        }
        assert(Binary64::nearest(i).scaled_magnitude() == m * pow2(1074));
        if i < 0 {
            assert(m * pow2(1074) == -(i * pow2(1074))) by (nonlinear_arith)
                requires
                    m == -i,
            ;
        }
    }
}

/// Where the finite values lie, seen from exponent field `e`: a value with
/// that exponent field or a greater one is a whole multiple `n` of
/// `2^(e-1)` units, and a value with a smaller one lies below the first
/// value that has exponent field `e`.
pub proof fn lemma_finite_values_on_grid(other: Binary64, e: nat) -> (n: nat)
    requires
        other.is_finite(),
        e >= 1,
    ensures
        other.exponent_field() >= e ==> other.scaled_magnitude() == n * pow2((e - 1) as nat),
        other.exponent_field() < e ==> other.scaled_magnitude() < HIDDEN_BIT * pow2(
            (e - 1) as nat,
        ),
{
    let field = other.exponent_field();
    let whole = HIDDEN_BIT as nat + other.fraction_field();
    let step = pow2((e - 1) as nat);
    lemma_pow2_pos((e - 1) as nat);
    if field >= e {
        let ratio = pow2((field - e) as nat);
        lemma_pow2_adds((field - e) as nat, (e - 1) as nat);
        assert(pow2((field - 1) as nat) == ratio * step);
        assert(whole * (ratio * step) == (whole * ratio) * step) by (nonlinear_arith);
        whole * ratio
    } else if field == 0 {
        assert(HIDDEN_BIT * step >= HIDDEN_BIT) by (nonlinear_arith)
            requires
                step >= 1,
        ;
        0
    } else {
        let below = pow2((field - 1) as nat);
        lemma_pow2_pos((field - 1) as nat);
        lemma_pow2_unfold(field);
        if field < e - 1 {
            lemma_pow2_strictly_increases(field, (e - 1) as nat);
        }
        assert(whole * below < HIDDEN_BIT * step) by (nonlinear_arith)
            requires
                whole < 2 * HIDDEN_BIT,
                2 * below <= step,
                below > 0,
        ;
        0
    }
}

/// Rounding to the nearest multiple, in whole numbers: the multiple of `unit`
/// that `round_half_even` picks is at least as near to `m` as any other, and
/// where another is as near, the one picked is the even multiple.
pub proof fn lemma_round_half_even_is_nearest(m: nat, unit: nat, n: nat)
    requires
        unit > 0,
    ensures
        ({
            let picked = round_half_even(m, unit);
            let error = picked * unit - m;
            let other = n * unit - m;
            let error_size = if error < 0 { -error } else { error };
            let other_size = if other < 0 { -other } else { other };
            &&& 2 * error_size <= unit
            &&& error_size <= other_size
            &&& error_size == other_size && n != picked ==> picked % 2 == 0
        }),
{
    let q = m / unit;
    let rem = m % unit;
    lemma_fundamental_div_mod(m as int, unit as int);
    lemma_mod_pos_bound(m as int, unit as int);
    let picked = round_half_even(m, unit);
    assert(picked * unit == q * unit + (picked - q) * unit) by (nonlinear_arith);
    assert((picked - q) * unit == (if picked == q { 0 } else { unit as int })) by (nonlinear_arith)
        requires
            picked == q || picked == q + 1,
    ;
    assert(unit * q == q * unit) by (nonlinear_arith);
    if n <= q {
        assert(n * unit <= q * unit) by (nonlinear_arith)
            requires
                n <= q,
        ;
        if n < q {
            assert(n * unit + unit <= q * unit) by (nonlinear_arith)
                requires
                    n + 1 <= q,
            ;
        }
    } else {
        assert(n * unit >= q * unit + unit) by (nonlinear_arith)
            requires
                n >= q + 1,
        ;
        if n > q + 1 {
            assert(n * unit >= q * unit + 2 * unit) by (nonlinear_arith)
                requires
                    n >= q + 2,
            ;
        }
    }
}

/// Scaling by a positive number keeps order and differences.
proof fn lemma_scaling_keeps_order(x: int, y: int, s: nat)
    requires
        s > 0,
    ensures
        x <= y ==> x * s <= y * s,
        x < y ==> x * s < y * s,
        (x - y) * s == x * s - y * s,
{
    assert(x <= y ==> x * s <= y * s) by (nonlinear_arith)
        requires
            s > 0,
    ;
    assert(x < y ==> x * s < y * s) by (nonlinear_arith)
        requires
            s > 0,
    ;
    assert((x - y) * s == x * s - y * s) by (nonlinear_arith);
}

/// Widening rounds to nearest, ties to even.
///
/// No finite binary64 value lies nearer to the integer `i` than the value
/// that widening gives. Where another finite value lies exactly as near,
/// widening gives the one of the two whose pattern is even.
pub proof fn lemma_nearest_is_nearest(i: int, other: Binary64)
    requires
        i64::MIN <= i <= i64::MAX,
        other.is_finite(),
    ensures
        Binary64::nearest(i).distance_to(i) <= other.distance_to(i),
        other.distance_to(i) == Binary64::nearest(i).distance_to(i) ==> other.scaled_value()
            == Binary64::nearest(i).scaled_value() || Binary64::nearest(i).bits % 2 == 0,
{
    lemma2_to64();
    lemma2_to64_rest();
    if -0x20_0000_0000_0000 <= i <= 0x20_0000_0000_0000 {
        lemma_nearest_is_exact(i);
    } else {
        let r = Binary64::nearest(i);
        let m = magnitude_of(i);
        let (k, significand) = lemma_nearest_parts(i);
        lemma_nearest_scaled(i);
        if k < 52 {
            lemma_pow2_strictly_increases(k, 52);
        }
        assert(k >= 53);
        let unit = pow2((k - 52) as nat);
        let s = pow2(1074);
        let u = pow2(1022 + k);
        lemma_pow2_adds((k - 52) as nat, 1074);
        lemma_pow2_adds(52, (k - 52) as nat);
        lemma_pow2_pos(1074);
        lemma_pow2_pos((k - 52) as nat);
        assert(u == unit * s);
        assert(pow2(k) == HIDDEN_BIT * unit);
        let target = m * s;
        let whole = significand * unit;
        assert(significand * (unit * s) == whole * s) by (nonlinear_arith)
            requires
                whole == significand * unit,
        ;
        assert(r.scaled_magnitude() == whole * s);
        assert(i * s == (if i < 0 { -(target as int) } else { target as int })) by (nonlinear_arith)
            requires
                target == m * s,
                m == (if i < 0 { -i } else { i }),
        ;
        let error = whole - m;
        let error_size = if error < 0 { -error } else { error };
        lemma_scaling_keeps_order(whole as int, m as int, s);
        lemma_scaling_keeps_order(m as int, whole as int, s);
        lemma_scaling_keeps_order(0, error_size, s);
        assert(r.distance_to(i) == error_size * s);
        assert(r.bits % 2 == significand % 2) by {
            assert(((1022 + k) * HIDDEN_BIT) % 2 == 0) by (nonlinear_arith)
                requires
                    HIDDEN_BIT == 0x10_0000_0000_0000,
            ;
        }
        let first = HIDDEN_BIT as nat;
        lemma_round_half_even_is_nearest(m, unit, first);
        assert(first * unit <= m);
        let edge_gap = m - first * unit;
        assert(error_size <= edge_gap);
        lemma_scaling_keeps_order(error_size, edge_gap, s);
        lemma_scaling_keeps_order(m as int, (first * unit) as int, s);
        if other.is_negative() != (i < 0) {
            assert(error_size < m) by (nonlinear_arith)
                requires
                    error_size <= m - first * unit,
                    first > 0,
                    unit > 0,
            ;
            lemma_scaling_keeps_order(error_size, m as int, s);
            assert(other.distance_to(i) == other.scaled_magnitude() + target);
        } else {
            let n = lemma_finite_values_on_grid(other, 1023 + k);
            assert(other.distance_to(i) == (if other.scaled_magnitude() < target {
                target - other.scaled_magnitude()
            } else {
                other.scaled_magnitude() - target
            }));
            if other.exponent_field() >= 1023 + k {
                lemma_round_half_even_is_nearest(m, unit, n);
                let there = n * unit;
                assert(n * (unit * s) == there * s) by (nonlinear_arith)
                    requires
                        there == n * unit,
                ;
                assert(other.scaled_magnitude() == there * s);
                let gap = there - m;
                let gap_size = if gap < 0 { -gap } else { gap };
                lemma_scaling_keeps_order(there as int, m as int, s);
                lemma_scaling_keeps_order(m as int, there as int, s);
                lemma_scaling_keeps_order(0, gap_size, s);
                assert(other.distance_to(i) == gap_size * s);
                lemma_scaling_keeps_order(error_size, gap_size, s);
                lemma_scaling_keeps_order(gap_size, error_size, s);
                if n == significand {
                    assert(other.scaled_magnitude() == r.scaled_magnitude());
                }
            } else {
                assert(first * (unit * s) == (first * unit) * s) by (nonlinear_arith);
                assert(other.scaled_magnitude() < (first * unit) * s);
                assert(other.distance_to(i) > edge_gap * s);
            }
        }
    }
}

/// Among finite values, a greater pattern without its sign is a greater
/// magnitude: the patterns are in the order of the values they stand for.
pub proof fn lemma_scaled_magnitude_increases(a: Binary64, b: Binary64)
    requires
        a.is_finite(),
        b.is_finite(),
        a.magnitude() < b.magnitude(),
    ensures
        a.scaled_magnitude() < b.scaled_magnitude(),
{
    let field = b.exponent_field();
    if a.exponent_field() == field {
        if field > 0 {
            let step = pow2((field - 1) as nat);
            lemma_pow2_pos((field - 1) as nat);
            lemma_scaling_keeps_order(
                (HIDDEN_BIT + a.fraction_field()) as int,
                (HIDDEN_BIT + b.fraction_field()) as int,
                step,
            );
        }
    } else {
        let step = pow2((field - 1) as nat);
        lemma_pow2_pos((field - 1) as nat);
        lemma_finite_values_on_grid(a, field);
        lemma_scaling_keeps_order(
            HIDDEN_BIT as int,
            (HIDDEN_BIT + b.fraction_field()) as int,
            step,
        );
    }
}

/// Two finite values of one sign and with even patterns that lie equally
/// far from `i` have a finite value between them that lies nearer to `i`.
pub proof fn lemma_between_two_even_patterns(a: Binary64, b: Binary64, i: int) -> (between:
    Binary64)
    requires
        a.is_finite(),
        b.is_finite(),
        a.is_negative() == b.is_negative(),
        a.magnitude() < b.magnitude(),
        a.bits % 2 == 0,
        b.bits % 2 == 0,
        a.distance_to(i) == b.distance_to(i),
    ensures
        between.is_finite(),
        between.distance_to(i) < a.distance_to(i),
{
    let between = Binary64 { bits: (a.bits + 1) as u64 };
    assert(between.magnitude() == a.magnitude() + 1);
    assert(between.is_negative() == a.is_negative());
    lemma_scaled_magnitude_increases(a, between);
    lemma_scaled_magnitude_increases(between, b);
    between
}

/// The rule of rounding to nearest with ties to even names one value: two
/// patterns that both meet it for the same integer are the same pattern.
pub proof fn lemma_nearest_is_unique(a: Binary64, b: Binary64, i: int)
    requires
        a.is_nearest_to(i),
        b.is_nearest_to(i),
    ensures
        a == b,
{
    assert(a.distance_to(i) <= b.distance_to(i));
    assert(b.distance_to(i) <= a.distance_to(i));
    if a.magnitude() < b.magnitude() {
        lemma_scaled_magnitude_increases(a, b);
        let between = lemma_between_two_even_patterns(a, b, i);
        assert(a.distance_to(i) <= between.distance_to(i));
    } else if b.magnitude() < a.magnitude() {
        lemma_scaled_magnitude_increases(b, a);
        let between = lemma_between_two_even_patterns(b, a, i);
        assert(b.distance_to(i) <= between.distance_to(i));
    }
}

/// Widening obeys the rule of rounding to nearest with ties to even, on
/// every integer of at most 64 bits.
pub proof fn lemma_widening_rounds_to_nearest(i: int)
    requires
        i64::MIN <= i <= i64::MAX,
    ensures
        Binary64::nearest(i).is_nearest_to(i),
{
    let r = Binary64::nearest(i);
    lemma_nearest_is_zero_only_for_zero(i);
    if i != 0 {
        lemma_nearest_parts(i);
    }
    assert forall|other: Binary64| other.is_finite() implies r.distance_to(i)
        <= #[trigger] other.distance_to(i) by {
        lemma_nearest_is_nearest(i, other);
    }
    assert forall|other: Binary64|
        other.is_finite() && #[trigger] other.distance_to(i) == r.distance_to(
            i,
        ) implies other.scaled_value() == r.scaled_value() || r.bits % 2 == 0 by {
        lemma_nearest_is_nearest(i, other);
    }
}

} // verus!
