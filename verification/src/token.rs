//! Integer literals: the grammar of a token that denotes a 64-bit signed
//! integer, the parser for it, and the writer that is its inverse.
//!
//! A literal is an optional `+` or `-` followed by one or more decimal digits
//! and nothing else. Leading zeros are allowed; blanks, underscores, a decimal
//! point or an exponent are not.

use vstd::prelude::*;
use vstd::string::*;

verus! {

/// Two to the power 63: the magnitude of the least 64-bit signed integer, one
/// more than the greatest.
pub const SIGNED_LIMIT: u64 = 0x8000_0000_0000_0000;

/// The byte that encodes `-`.
pub const MINUS: u8 = 45;

/// The byte that encodes `+`.
pub const PLUS: u8 = 43;

/// The byte that encodes the digit `0`; the other digits follow it in order.
pub const DIGIT_ZERO: u8 = 48;

/// The byte that encodes the digit `9`.
pub const DIGIT_NINE: u8 = 57;

/// One of the ten decimal digits.
pub open spec fn is_digit(c: char) -> bool {
    '0' <= c <= '9'
}

/// The number a digit stands for; 0 for any other character.
pub open spec fn digit_value(c: char) -> nat {
    if is_digit(c) {
        (c as nat - '0' as nat) as nat
    } else {
        0
    }
}

/// Every character of `s` is a decimal digit.
pub open spec fn all_digits(s: Seq<char>) -> bool {
    forall|i: int| 0 <= i < s.len() ==> is_digit(#[trigger] s[i])
}

/// The number that a run of digits denotes in base ten, most significant
/// digit first. The empty run denotes 0.
pub open spec fn decimal_value(s: Seq<char>) -> nat
    decreases s.len(),
{
    if s.len() == 0 {
        0
    } else {
        10 * decimal_value(s.drop_last()) + digit_value(s.last())
    }
}

/// The token starts with a sign character.
pub open spec fn has_sign(s: Seq<char>) -> bool {
    s.len() > 0 && (s[0] == '+' || s[0] == '-')
}

/// The token starts with a minus sign.
pub open spec fn has_minus(s: Seq<char>) -> bool {
    s.len() > 0 && s[0] == '-'
}

/// The token without its sign character, if it has one.
pub open spec fn digits_of(s: Seq<char>) -> Seq<char> {
    if has_sign(s) {
        s.subrange(1, s.len() as int)
    } else {
        s
    }
}

/// The token is an optional sign followed by at least one digit and nothing
/// else.
pub open spec fn is_integer_literal(s: Seq<char>) -> bool {
    digits_of(s).len() > 0 && all_digits(digits_of(s))
}

/// The integer that a literal denotes, of any size.
pub open spec fn literal_value(s: Seq<char>) -> int {
    if has_minus(s) {
        -(decimal_value(digits_of(s)) as int)
    } else {
        decimal_value(digits_of(s)) as int
    }
}

/// What a token is worth as a 64-bit signed integer: the value of the literal
/// where the token is one and the value fits, nothing otherwise.
pub open spec fn integer_token(s: Seq<char>) -> Option<i64> {
    if is_integer_literal(s) && i64::MIN <= literal_value(s) <= i64::MAX {
        Some(literal_value(s) as i64)
    } else {
        None
    }
}

/// Appending one character to a run multiplies its value by ten and adds the
/// character's digit.
proof fn lemma_decimal_value_step(s: Seq<char>, k: int)
    requires
        0 <= k < s.len(),
    ensures
        decimal_value(s.take(k + 1)) == 10 * decimal_value(s.take(k)) + digit_value(s[k]),
{
    assert(s.take(k + 1).drop_last() =~= s.take(k));
}

/// The value of a run is at least the value of each of its prefixes.
proof fn lemma_decimal_value_prefix(s: Seq<char>, k: int)
    requires
        0 <= k <= s.len(),
    ensures
        decimal_value(s.take(k)) <= decimal_value(s),
    decreases s.len() - k,
{
    if k == s.len() {
        assert(s.take(k) =~= s);
    } else {
        lemma_decimal_value_step(s, k);
        lemma_decimal_value_prefix(s, k + 1);
    }
}

/// An integer literal holds ASCII characters only.
pub proof fn lemma_integer_literal_is_ascii(s: Seq<char>)
    requires
        is_integer_literal(s),
    ensures
        vstd::utf8::is_ascii_chars(s),
{
    let digits = digits_of(s);
    assert forall|i: int| 0 <= i < s.len() implies '\0' <= #[trigger] s[i] <= '\u{7f}' by {
        if has_sign(s) {
            if i >= 1 {
                assert(is_digit(digits[i - 1]));
            }
        } else {
            assert(is_digit(digits[i]));
        }
    }
}

/// Reads a token as a 64-bit signed integer.
///
/// Returns the value exactly when the whole token is an integer literal whose
/// value lies between `i64::MIN` and `i64::MAX`; a token of any other shape,
/// or a literal out of that range, gives `None`.
pub fn parse_integer(token: &str) -> (r: Option<i64>)
    ensures
        r == integer_token(token@),
{
    broadcast use vstd::utf8::is_ascii_chars_nat_bound;

    if !token.is_ascii() {
        proof {
            if is_integer_literal(token@) {
                lemma_integer_literal_is_ascii(token@);
            }
        }
        return None;
    }
    let bytes = token.as_bytes();
    let n = bytes.len();
    proof {
        vstd::utf8::is_ascii_chars_encode_utf8(token@);
    }
    if n == 0 {
        return None;
    }
    let first = bytes[0];
    let negative = first == MINUS;
    let start: usize = if first == MINUS || first == PLUS {
        1
    } else {
        0
    };
    if start == n {
        return None;
    }
    let limit: u64 = if negative {
        SIGNED_LIMIT
    } else {
        SIGNED_LIMIT - 1
    };
    let ghost digits = digits_of(token@);
    assert(negative == has_minus(token@));
    assert(start == 1 <==> has_sign(token@));
    let mut magnitude: u64 = 0;
    let mut i: usize = start;
    while i < n
        invariant
            token.is_ascii(),
            bytes@ == token.spec_bytes(),
            n == token@.len(),
            start <= i <= n,
            start == (if has_sign(token@) { 1usize } else { 0usize }),
            digits == digits_of(token@),
            digits.len() == n - start,
            negative == has_minus(token@),
            limit == (if negative { SIGNED_LIMIT } else { (SIGNED_LIMIT - 1) as u64 }),
            all_digits(digits.take(i - start)),
            magnitude == decimal_value(digits.take(i - start)),
            magnitude <= limit,
        decreases n - i,
    {
        let byte = bytes[i];
        proof {
            vstd::utf8::is_ascii_chars_encode_utf8(token@);
            assert(digits[i - start] == token@[i as int]);
            assert(byte == token@[i as int] as u8);
        }
        if byte < DIGIT_ZERO || byte > DIGIT_NINE {
            assert(!is_digit(digits[i - start]));
            return None;
        }
        let digit: u64 = (byte - DIGIT_ZERO) as u64;
        proof {
            lemma_decimal_value_step(digits, i - start);
            assert(digit == digit_value(digits[i - start]));
        }
        if magnitude > (limit - digit) / 10 {
            proof {
                lemma_decimal_value_prefix(digits, i - start + 1);
            }
            return None;
        }
        magnitude = magnitude * 10 + digit;
        i = i + 1;
    }
    assert(digits.take(n - start) =~= digits);
    if negative {
        if magnitude == SIGNED_LIMIT {
            Some(i64::MIN)
        } else {
            Some(-(magnitude as i64))
        }
    } else {
        Some(magnitude as i64)
    }
}

/// The character that writes a number below ten.
pub open spec fn digit_char(d: nat) -> char {
    if d == 0 {
        '0'
    } else if d == 1 {
        '1'
    } else if d == 2 {
        '2'
    } else if d == 3 {
        '3'
    } else if d == 4 {
        '4'
    } else if d == 5 {
        '5'
    } else if d == 6 {
        '6'
    } else if d == 7 {
        '7'
    } else if d == 8 {
        '8'
    } else {
        '9'
    }
}

/// The shortest run of digits that denotes `n`: no leading zero, and `0` for
/// zero.
pub open spec fn decimal_digits(n: nat) -> Seq<char>
    decreases n,
{
    if n < 10 {
        seq![digit_char(n)]
    } else {
        decimal_digits(n / 10).push(digit_char(n % 10))
    }
}

/// How an integer is written: a minus sign where it is negative, then the
/// digits of its magnitude.
pub open spec fn integer_text(value: int) -> Seq<char> {
    if value < 0 {
        seq!['-'] + decimal_digits((-value) as nat)
    } else {
        decimal_digits(value as nat)
    }
}

/// The digits written for a number are digits, at least one, and denote the
/// number.
pub proof fn lemma_decimal_digits_denote(n: nat)
    ensures
        decimal_digits(n).len() >= 1,
        all_digits(decimal_digits(n)),
        decimal_value(decimal_digits(n)) == n,
    decreases n,
{
    if n < 10 {
        let s = decimal_digits(n);
        assert(s.drop_last() =~= Seq::<char>::empty());
        assert(decimal_value(s.drop_last()) == 0);
        assert(digit_value(s.last()) == n);
    } else {
        lemma_decimal_digits_denote(n / 10);
        let head = decimal_digits(n / 10);
        let s = decimal_digits(n);
        assert(s.drop_last() =~= head);
        assert(digit_value(s.last()) == n % 10);
        assert forall|i: int| 0 <= i < s.len() implies is_digit(#[trigger] s[i]) by {
            if i < head.len() {
                assert(s[i] == head[i]);
            }
        }
    }
}

/// Reading what was written gives the integer back: `parse_integer` undoes
/// `format_integer` on every 64-bit signed integer.
pub proof fn lemma_written_integer_reads_back(value: i64)
    ensures
        is_integer_literal(integer_text(value as int)),
        integer_token(integer_text(value as int)) == Some(value),
{
    let text = integer_text(value as int);
    if value < 0 {
        let digits = decimal_digits((-value) as nat);
        lemma_decimal_digits_denote((-value) as nat);
        assert(text[0] == '-');
        assert(digits_of(text) =~= digits);
    } else {
        lemma_decimal_digits_denote(value as nat);
        assert(is_digit(text[0]));
        assert(digits_of(text) =~= text);
    }
}

/// The one-character text of a number below ten.
fn digit_text(d: u64) -> (r: &'static str)
    requires
        d < 10,
    ensures
        r@ == seq![digit_char(d as nat)],
{
    proof {
        reveal_strlit("0");
        reveal_strlit("1");
        reveal_strlit("2");
        reveal_strlit("3");
        reveal_strlit("4");
        reveal_strlit("5");
        reveal_strlit("6");
        reveal_strlit("7");
        reveal_strlit("8");
        reveal_strlit("9");
    }
    let r = if d == 0 {
        "0"
    } else if d == 1 {
        "1"
    } else if d == 2 {
        "2"
    } else if d == 3 {
        "3"
    } else if d == 4 {
        "4"
    } else if d == 5 {
        "5"
    } else if d == 6 {
        "6"
    } else if d == 7 {
        "7"
    } else if d == 8 {
        "8"
    } else {
        "9"
    };
    assert(r@ =~= seq![digit_char(d as nat)]);
    r
}

/// Writes a 64-bit signed integer in decimal: a minus sign where it is
/// negative, then its digits without leading zeros.
pub fn format_integer(value: i64) -> (r: String)
    ensures
        r@ == integer_text(value as int),
{
    let magnitude: u64 = if value == i64::MIN {
        SIGNED_LIMIT
    } else if value < 0 {
        (-value) as u64
    } else {
        value as u64
    };
    let mut rest: u64 = magnitude / 10;
    let mut digits = digit_text(magnitude % 10).to_owned();
    assert(decimal_digits(magnitude as nat) =~= (if rest > 0 {
        decimal_digits(rest as nat)
    } else {
        Seq::<char>::empty()
    }) + digits@);
    while rest > 0
        invariant
            decimal_digits(magnitude as nat) == (if rest > 0 {
                decimal_digits(rest as nat)
            } else {
                Seq::<char>::empty()
            }) + digits@,
        decreases rest,
    {
        let ghost before = digits@;
        let mut longer = digit_text(rest % 10).to_owned();
        longer.append(digits.as_str());
        digits = longer;
        assert(decimal_digits(rest as nat) + before =~= (if rest / 10 > 0 {
            decimal_digits((rest / 10) as nat)
        } else {
            Seq::<char>::empty()
        }) + digits@);
        rest = rest / 10;
    }
    assert(decimal_digits(magnitude as nat) =~= digits@);
    if value < 0 {
        proof {
            reveal_strlit("-");
        }
        let mut text = "-".to_owned();
        text.append(digits.as_str());
        assert(text@ =~= seq!['-'] + digits@);
        text
    } else {
        digits
    }
}

} // verus!
