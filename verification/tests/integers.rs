use calculator::token::{format_integer, parse_integer};

#[test]
fn plain_digits_are_read() {
    assert_eq!(parse_integer("5"), Some(5));
    assert_eq!(parse_integer("0"), Some(0));
    assert_eq!(parse_integer("1234567890"), Some(1234567890));
}

#[test]
fn a_sign_may_lead() {
    assert_eq!(parse_integer("+7"), Some(7));
    assert_eq!(parse_integer("-7"), Some(-7));
    assert_eq!(parse_integer("-0"), Some(0));
    assert_eq!(parse_integer("+0"), Some(0));
}

#[test]
fn leading_zeros_do_not_count() {
    assert_eq!(parse_integer("007"), Some(7));
    assert_eq!(parse_integer("-000000000000000000000000000000012"), Some(-12));
    assert_eq!(parse_integer("00000000000000000000000000000000000000000"), Some(0));
}

#[test]
fn a_sign_alone_is_no_integer() {
    assert_eq!(parse_integer(""), None);
    assert_eq!(parse_integer("+"), None);
    assert_eq!(parse_integer("-"), None);
    assert_eq!(parse_integer("+-5"), None);
    assert_eq!(parse_integer("--5"), None);
    assert_eq!(parse_integer("5-"), None);
}

#[test]
fn blanks_and_other_characters_are_refused() {
    assert_eq!(parse_integer(" 5"), None);
    assert_eq!(parse_integer("5 "), None);
    assert_eq!(parse_integer("1 2"), None);
    assert_eq!(parse_integer("1_000"), None);
    assert_eq!(parse_integer("1,000"), None);
    assert_eq!(parse_integer("abc"), None);
    assert_eq!(parse_integer("12a"), None);
    assert_eq!(parse_integer("0x10"), None);
}

#[test]
fn float_forms_are_no_integers() {
    assert_eq!(parse_integer("5.0"), None);
    assert_eq!(parse_integer("5."), None);
    assert_eq!(parse_integer(".5"), None);
    assert_eq!(parse_integer("1e3"), None);
    assert_eq!(parse_integer("inf"), None);
    assert_eq!(parse_integer("NaN"), None);
}

#[test]
fn characters_outside_ascii_are_refused() {
    assert_eq!(parse_integer("\u{ff15}"), None);
    assert_eq!(parse_integer("5\u{e9}"), None);
    assert_eq!(parse_integer("\u{2212}5"), None);
    assert_eq!(parse_integer("12\u{0663}"), None);
}

#[test]
fn the_range_ends_are_read() {
    assert_eq!(parse_integer("9223372036854775807"), Some(i64::MAX));
    assert_eq!(parse_integer("+9223372036854775807"), Some(i64::MAX));
    assert_eq!(parse_integer("-9223372036854775808"), Some(i64::MIN));
    assert_eq!(parse_integer("-9223372036854775807"), Some(i64::MIN + 1));
    assert_eq!(parse_integer("0009223372036854775807"), Some(i64::MAX));
}

#[test]
fn literals_out_of_range_are_refused() {
    assert_eq!(parse_integer("9223372036854775808"), None);
    assert_eq!(parse_integer("-9223372036854775809"), None);
    assert_eq!(parse_integer("9223372036854775810"), None);
    assert_eq!(parse_integer("18446744073709551616"), None);
    assert_eq!(parse_integer("18446744073709551621"), None);
    assert_eq!(parse_integer("99999999999999999999999999999999999999999999"), None);
    assert_eq!(parse_integer("-99999999999999999999999999999999999999999999"), None);
}

#[test]
fn reading_agrees_with_the_standard_parser() {
    let tokens = [
        "", "0", "-0", "+0", "1", "-1", "+1", "42", "-42", "0042", "+", "-", "++1", "+-1", "1+",
        " 1", "1 ", "1.0", "1.", ".1", "1e1", "1E1", "0x1", "1_0", "abc", "9223372036854775807",
        "9223372036854775808", "-9223372036854775808", "-9223372036854775809",
        "92233720368547758070", "00000000000000000000009223372036854775807", "\u{661}", "1\n",
        "\t1", "١٢٣", "1a", "a1", "--", "-+", "1-1", "4611686018427387904", "999999999999999999",
        "1000000000000000000", "9999999999999999999", "-9999999999999999999",
    ];
    for token in tokens.iter() {
        assert_eq!(parse_integer(token), token.parse::<i64>().ok(), "token {:?}", token);
    }
}

#[test]
fn integers_are_written_in_decimal() {
    assert_eq!(format_integer(0), "0");
    assert_eq!(format_integer(7), "7");
    assert_eq!(format_integer(10), "10");
    assert_eq!(format_integer(-1), "-1");
    assert_eq!(format_integer(1234567890), "1234567890");
    assert_eq!(format_integer(-9000), "-9000");
    assert_eq!(format_integer(i64::MAX), "9223372036854775807");
    assert_eq!(format_integer(i64::MIN), "-9223372036854775808");
}

#[test]
fn what_is_written_reads_back() {
    let mut value: i64 = 1;
    let mut step: u64 = 0x9e37_79b9_7f4a_7c15;
    for _ in 0..2000 {
        let text = format_integer(value);
        assert_eq!(text, format!("{}", value));
        assert_eq!(parse_integer(&text), Some(value));
        step = step.wrapping_mul(6364136223846793005).wrapping_add(1442695040888963407);
        value = (step >> (step % 64)) as i64;
        if step % 3 == 0 {
            value = value.wrapping_neg();
        }
    }
    for value in [i64::MIN, i64::MIN + 1, -1, 0, 1, i64::MAX - 1, i64::MAX] {
        assert_eq!(parse_integer(&format_integer(value)), Some(value));
    }
}
