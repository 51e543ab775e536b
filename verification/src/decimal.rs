//! Decimal notation: reading a signed 64-bit integer from text, and writing one.
use vstd::prelude::*;

verus! {

/// Whether `c` is one of the ten digits `0` to `9`.
pub open spec fn is_digit(c: char) -> bool {
    '0' <= c && c <= '9'
}

/// The number that the digit `c` stands for.
pub open spec fn digit_value(c: char) -> int {
    c as int - '0' as int
}

/// The digit that stands for `d`, where `0 <= d <= 9`.
pub open spec fn digit_char(d: int) -> char {
    ('0' as int + d) as char
}

/// Whether `digits` is a numeral: one digit or more, and nothing else.
pub open spec fn is_numeral(digits: Seq<char>) -> bool {
    digits.len() > 0 && forall|i: int| 0 <= i < digits.len() ==> is_digit(#[trigger] digits[i])
}

/// The number that a numeral denotes: its last digit counts once, the one before it ten
/// times, and so on.
pub open spec fn decimal_value(digits: Seq<char>) -> int
    decreases digits.len(),
{
    if digits.len() == 0 {
        0
    } else {
        10 * decimal_value(digits.drop_last()) + digit_value(digits.last())
    }
}

/// How many characters of `text` are its sign: one if it starts with `+` or `-`, else none.
pub open spec fn sign_len(text: Seq<char>) -> int {
    if text.len() > 0 && (text[0] == '+' || text[0] == '-') {
        1
    } else {
        0
    }
}

/// The integer that `text` denotes: an optional sign followed by a numeral. Text of any
/// other form denotes nothing.
pub open spec fn integer_value(text: Seq<char>) -> Option<int> {
    let digits = text.skip(sign_len(text));
    if !is_numeral(digits) {
        None
    } else if text[0] == '-' {
        Some(-decimal_value(digits))
    } else {
        Some(decimal_value(digits))
    }
}

/// The signed 64-bit integer that `text` denotes, if it denotes an integer and that
/// integer fits.
pub open spec fn parsed_i64(text: Seq<char>) -> Option<i64> {
    match integer_value(text) {
        Some(v) => if i64::MIN <= v <= i64::MAX {
            Some(v as i64)
        } else {
            None
        },
        None => None,
    }
}

/// The numeral that denotes `n`, with no digit more than needed.
pub open spec fn natural_text(n: nat) -> Seq<char>
    decreases n,
{
    if n < 10 {
        seq![digit_char(n as int)]
    } else {
        natural_text(n / 10).push(digit_char((n % 10) as int))
    }
}

/// The text that denotes `v` in decimal notation: its numeral, behind a `-` if `v` is
/// negative.
pub open spec fn decimal_text(v: int) -> Seq<char> {
    if v < 0 {
        seq!['-'] + natural_text((-v) as nat)
    } else {
        natural_text(v as nat)
    }
}

/// Reads `text` as a signed 64-bit integer in decimal notation: an optional `+` or `-`,
/// then one digit or more. Returns `None` for any other text, and for a number that does
/// not fit.
pub fn parse_i64(text: &str) -> (r: Option<i64>)
    ensures
        r == parsed_i64(text@),
{
    let mut at_start = true;
    let mut negative = false;
    let mut any_digit = false;
    let mut value: i64 = 0;
    let ghost digits = text@.skip(sign_len(text@));
    for c in it: text.chars()
        invariant
            it.seq() == text@,
            digits == text@.skip(sign_len(text@)),
            at_start == (it.index() == 0),
            at_start ==> !negative && !any_digit && value == 0,
            !at_start ==> sign_len(text@) <= it.index() && negative == (text@[0] == '-'),
            any_digit == (it.index() > sign_len(text@)),
            forall|i: int| sign_len(text@) <= i < it.index() ==> is_digit(#[trigger] text@[i]),
            !at_start ==> value == if negative {
                -decimal_value(digits.take(it.index() - sign_len(text@)))
            } else {
                decimal_value(digits.take(it.index() - sign_len(text@)))
            },
    {
        let ghost read = it.index() - sign_len(text@);
        if at_start && (c == '+' || c == '-') {
            negative = c == '-';
        } else if c >= '0' && c <= '9' {
            let digit: i64 = (c as u32 - '0' as u32) as i64;
            proof {
                assert(digits.take(read + 1).drop_last() =~= digits.take(read));
                lemma_value_nonnegative(digits.take(read));
                if is_numeral(digits) {
                    lemma_prefix_value(digits, read + 1);
                }
            }
            let scaled: i64 = match value.checked_mul(10) {
                Some(scaled) => scaled,
                None => {
                    return None;
                },
            };
            let next: Option<i64> = if negative {
                scaled.checked_sub(digit)
            } else {
                scaled.checked_add(digit)
            };
            match next {
                Some(next) => {
                    value = next;
                },
                None => {
                    return None;
                },
            }
            any_digit = true;
        } else {
            proof {
                assert(!is_digit(digits[read]));
            }
            return None;
        }
        at_start = false;
    }
    proof {
        assert(digits.take(digits.len() as int) =~= digits);
    }
    if any_digit {
        Some(value)
    } else {
        None
    }
}

/// Appends the numeral of `n` to `text`.
fn push_natural(text: &mut String, n: u64)
    ensures
        final(text)@ == old(text)@ + natural_text(n as nat),
    decreases n,
{
    if n >= 10 {
        push_natural(text, n / 10);
    }
    let digit: u8 = (n % 10) as u8;
    text.push(('0' as u8 + digit) as char);
    proof {
        assert(text@ =~= old(text)@ + natural_text(n as nat));
    }
}

/// Writes `v` in decimal notation.
pub fn decimal_string(v: i64) -> (r: String)
    ensures
        r@ == decimal_text(v as int),
{
    let mut text = String::new();
    let magnitude: u64 = if v < 0 {
        text.push('-');
        (-(v + 1)) as u64 + 1
    } else {
        v as u64
    };
    push_natural(&mut text, magnitude);
    proof {
        assert(text@ =~= decimal_text(v as int));
    }
    text
}

/// A sequence of digits denotes no negative number.
pub proof fn lemma_value_nonnegative(digits: Seq<char>)
    requires
        forall|i: int| 0 <= i < digits.len() ==> is_digit(#[trigger] digits[i]),
    ensures
        0 <= decimal_value(digits),
    decreases digits.len(),
{
    if digits.len() > 0 {
        lemma_value_nonnegative(digits.drop_last());
        assert(is_digit(digits.last()));
    }
}

/// A sequence of digits is worth at least as much as each of its prefixes.
pub proof fn lemma_prefix_value(digits: Seq<char>, n: int)
    requires
        0 <= n <= digits.len(),
        forall|i: int| 0 <= i < digits.len() ==> is_digit(#[trigger] digits[i]),
    ensures
        0 <= decimal_value(digits.take(n)) <= decimal_value(digits),
    decreases digits.len() - n,
{
    if n == digits.len() {
        assert(digits.take(n) =~= digits);
        lemma_value_nonnegative(digits);
    } else {
        lemma_prefix_value(digits, n + 1);
        assert(digits.take(n + 1).drop_last() =~= digits.take(n));
        assert(is_digit(digits[n]));
        lemma_value_nonnegative(digits.take(n));
    }
}

/// The numeral written for `n` is a numeral, and it denotes `n`.
pub proof fn lemma_natural_text(n: nat)
    ensures
        is_numeral(natural_text(n)),
        decimal_value(natural_text(n)) == n,
    decreases n,
{
    let text = natural_text(n);
    if n < 10 {
        assert(text.drop_last() =~= Seq::<char>::empty());
        assert(decimal_value(text.drop_last()) == 0);
    } else {
        lemma_natural_text(n / 10);
        assert(text.drop_last() =~= natural_text(n / 10));
        assert forall|i: int| 0 <= i < text.len() implies is_digit(#[trigger] text[i]) by {
            if i < text.len() - 1 {
                assert(text[i] == natural_text(n / 10)[i]);
            }
        }
    }
}

/// Reading back what was written gives the number that was written.
pub proof fn lemma_decimal_round_trip(v: int)
    ensures
        integer_value(decimal_text(v)) == Some(v),
{
    let text = decimal_text(v);
    if v < 0 {
        lemma_natural_text((-v) as nat);
        assert(text.skip(1) =~= natural_text((-v) as nat));
    } else {
        lemma_natural_text(v as nat);
        assert(is_digit(text[0]));
        assert(text.skip(0) =~= text);
    }
}

} // verus!
