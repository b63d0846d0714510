//! Decimal text of unsigned integers: what it is, how it is read, how it is written.
use vstd::prelude::*;

verus! {

/// Relies on nothing but the type: `ParseIntError` is carried through, never inspected.
#[verifier::external_type_specification]
#[verifier::external_body]
pub struct ExParseIntError(std::num::ParseIntError);

pub open spec fn is_ascii_digit(c: char) -> bool {
    '0' <= c && c <= '9'
}

pub open spec fn all_digits(s: Seq<char>) -> bool {
    forall|i: int| 0 <= i < s.len() ==> is_ascii_digit(#[trigger] s[i])
}

pub open spec fn digit_value(c: char) -> nat {
    (c as u32 - '0' as u32) as nat
}

pub open spec fn digit_char(d: nat) -> char {
    (d + '0' as u32) as char
}

/// The number that a string of decimal digits denotes, most significant first.
pub open spec fn digits_value(s: Seq<char>) -> nat
    decreases s.len(),
{
    if s.len() == 0 {
        0
    } else {
        digits_value(s.drop_last()) * 10 + digit_value(s.last())
    }
}

/// The shortest decimal text of `n`.
pub open spec fn decimal(n: nat) -> Seq<char>
    decreases n,
{
    if n < 10 {
        seq![digit_char(n)]
    } else {
        decimal(n / 10).push(digit_char(n % 10))
    }
}

/// The decimal text of `n`, with leading zeros up to `width` characters.
pub open spec fn zero_padded(n: nat, width: nat) -> Seq<char> {
    let d = decimal(n);
    if d.len() < width {
        Seq::new((width - d.len()) as nat, |i: int| '0') + d
    } else {
        d
    }
}

/// The digits of an unsigned number as Rust's `from_str` reads them: one leading `+` is allowed.
pub open spec fn unsigned_digits(s: Seq<char>) -> Seq<char> {
    if s.len() > 0 && s[0] == '+' {
        s.drop_first()
    } else {
        s
    }
}

/// `s` is the decimal text of an unsigned number no larger than `max`.
pub open spec fn is_unsigned_text(s: Seq<char>, max: nat) -> bool {
    let d = unsigned_digits(s);
    d.len() > 0 && all_digits(d) && digits_value(d) <= max
}

pub open spec fn unsigned_value(s: Seq<char>) -> nat {
    digits_value(unsigned_digits(s))
}

/// Relies on `<u64 as FromStr>::from_str`: it accepts exactly an optional `+` and one
/// or more decimal digits whose value fits in a `u64`, and returns that value.
#[verifier::external_body]
pub(crate) fn parse_u64(s: &str) -> (r: Result<u64, std::num::ParseIntError>)
    ensures
        r is Ok <==> is_unsigned_text(s@, u64::MAX as nat),
        r is Ok ==> r->Ok_0 == unsigned_value(s@),
{
    s.parse::<u64>()
}

/// Relies on `<u32 as FromStr>::from_str`: it accepts exactly an optional `+` and one
/// or more decimal digits whose value fits in a `u32`, and returns that value.
#[verifier::external_body]
pub(crate) fn parse_u32(s: &str) -> (r: Result<u32, std::num::ParseIntError>)
    ensures
        r is Ok <==> is_unsigned_text(s@, u32::MAX as nat),
        r is Ok ==> r->Ok_0 == unsigned_value(s@),
{
    s.parse::<u32>()
}

/// A digit's character reads back as that digit.
pub proof fn lemma_digit_char(d: nat)
    requires
        d < 10,
    ensures
        is_ascii_digit(digit_char(d)),
        digit_value(digit_char(d)) == d,
{
}

/// The decimal text of `n` is made of digits, is not empty, and reads back as `n`.
pub proof fn lemma_decimal_reads_back(n: nat)
    ensures
        decimal(n).len() > 0,
        all_digits(decimal(n)),
        digits_value(decimal(n)) == n,
    decreases n,
{
    if n < 10 {
        lemma_digit_char(n);
        let d = decimal(n);
        assert(d.drop_last() =~= Seq::<char>::empty());
        assert(digits_value(d.drop_last()) == 0);
        assert(d.last() == digit_char(n));
    } else {
        lemma_decimal_reads_back(n / 10);
        lemma_digit_char(n % 10);
        let d = decimal(n);
        assert(d.drop_last() =~= decimal(n / 10));
        assert(d.last() == digit_char(n % 10));
        assert(digits_value(d) == digits_value(decimal(n / 10)) * 10 + digit_value(d.last()));
        assert((n / 10) * 10 + n % 10 == n) by (nonlinear_arith);
        assert(all_digits(d)) by {
            assert forall|i: int| 0 <= i < d.len() implies is_ascii_digit(#[trigger] d[i]) by {
                if i < d.len() - 1 {
                    assert(d[i] == decimal(n / 10)[i]);
                }
            }
        }
    }
}

} // verus!
