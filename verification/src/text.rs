//! Decimal text of integers, as std's `Display` writes it and as std's
//! `FromStr` for `i32` reads it.

use vstd::prelude::*;

verus! {

/// The ASCII digit for `d` in `0..10`.
pub open spec fn digit_char(d: int) -> char {
    (48 + d) as char
}

/// Whether `c` is an ASCII decimal digit.
pub open spec fn is_digit(c: char) -> bool {
    '0' <= c && c <= '9'
}

/// The shortest decimal digits of a natural number (no leading zeros).
pub open spec fn digits_text(n: nat) -> Seq<char>
    decreases n,
{
    if n < 10 {
        seq![digit_char(n as int)]
    } else {
        digits_text(n / 10) + seq![digit_char((n % 10) as int)]
    }
}

/// The decimal text of an integer: a `-` for negative values, then the digits.
pub open spec fn decimal_of(v: int) -> Seq<char> {
    if v < 0 {
        seq!['-'] + digits_text((-v) as nat)
    } else {
        digits_text(v as nat)
    }
}

/// The value of a run of decimal digits, most significant first.
pub open spec fn digits_value(s: Seq<char>) -> int
    decreases s.len(),
{
    if s.len() == 0 {
        0
    } else {
        digits_value(s.drop_last()) * 10 + (s.last() as int - 48)
    }
}

/// Whether `s` is a non-empty run of decimal digits.
pub open spec fn all_digits(s: Seq<char>) -> bool {
    s.len() > 0 && forall|i: int| 0 <= i < s.len() ==> #[trigger] is_digit(s[i])
}

/// What reading `s` as an `i32` gives: an optional `+` or `-`, then at least
/// one digit and nothing else, with a value in the range of `i32`.
pub open spec fn parsed_i32(s: Seq<char>) -> Option<i32> {
    let negative = s.len() > 0 && s[0] == '-';
    let body = if s.len() > 0 && (s[0] == '-' || s[0] == '+') {
        s.drop_first()
    } else {
        s
    };
    if !all_digits(body) {
        None
    } else {
        let v = if negative {
            -digits_value(body)
        } else {
            digits_value(body)
        };
        if i32::MIN <= v && v <= i32::MAX {
            Some(v as i32)
        } else {
            None
        }
    }
}

/// `i64::to_string`: the decimal text of `v`.
#[verifier::external_body]
pub(crate) fn decimal_text(v: i64) -> (s: String)
    ensures
        s@ == decimal_of(v as int),
{
    v.to_string()
}

/// `u64::to_string`: the decimal text of `v`.
#[verifier::external_body]
pub(crate) fn decimal_text_u64(v: u64) -> (s: String)
    ensures
        s@ == decimal_of(v as int),
{
    v.to_string()
}

/// `str::parse::<i32>`: the value that `s` denotes, or `None` where std
/// refuses it.
#[verifier::external_body]
pub(crate) fn parse_i32(s: &str) -> (r: Option<i32>)
    ensures
        r == parsed_i32(s@),
{
    s.parse::<i32>().ok()
}

proof fn lemma_digits_text(n: nat)
    ensures
        all_digits(digits_text(n)),
        digits_value(digits_text(n)) == n,
        digits_text(n)[0] != '-',
        digits_text(n)[0] != '+',
    decreases n,
{
    if n >= 10 {
        lemma_digits_text(n / 10);
        let s = digits_text(n);
        let prefix = digits_text(n / 10);
        assert(s.drop_last() =~= prefix);
        let d = (n % 10) as int;
        assert(digit_char(d) as int == 48 + d);
        assert((n / 10) * 10 + d == n);
        assert(s.last() == digit_char(d));
        assert(digits_value(s) == digits_value(prefix) * 10 + (s.last() as int - 48));
        assert forall|i: int| 0 <= i < s.len() implies #[trigger] is_digit(s[i]) by {
            if i < prefix.len() {
                assert(is_digit(prefix[i]));
            }
        }
    } else {
        assert(digits_text(n).drop_last() =~= Seq::<char>::empty());
        assert(digit_char(n as int) as int == 48 + n);
        assert(digits_text(n).last() == digit_char(n as int));
        assert(digits_value(digits_text(n)) == digits_value(Seq::<char>::empty()) * 10 + (digits_text(n).last() as int - 48));
    }
}

/// Reading back the decimal text of an `i32` gives the same `i32`.
pub proof fn lemma_decimal_parse_roundtrip(v: i32)
    ensures
        parsed_i32(decimal_of(v as int)) == Some(v),
{
    if v < 0 {
        let body = digits_text((-v) as nat);
        lemma_digits_text((-v) as nat);
        assert((seq!['-'] + body).drop_first() =~= body);
    } else {
        lemma_digits_text(v as nat);
    }
}

} // verus!
