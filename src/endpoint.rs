//! The addresses that the service answers on.
use vstd::prelude::*;
use crate::decimal::{decimal, digit_char, zero_padded};

verus! {

/// The base address of the service.
pub const API_BASE: &'static str = "https://tranco-list.eu/api";

/// The text of a boolean, as Rust displays it.
pub open spec fn bool_text(b: bool) -> Seq<char> {
    if b {
        "true"@
    } else {
        "false"@
    }
}

/// The query that asks for lists with or without subdomains, if that was said.
pub open spec fn subdomains_query(subdomains: Option<bool>) -> Seq<char> {
    match subdomains {
        Some(b) => "?subdomains="@ + bool_text(b),
        None => Seq::empty(),
    }
}

/// The date of a list as the service spells it: YYYYMMDD.
pub open spec fn date_text(year: u16, month: u8, day: u8) -> Seq<char> {
    zero_padded(year as nat, 4) + zero_padded(month as nat, 2) + zero_padded(day as nat, 2)
}

/// The one-character text of a decimal digit.
fn digit_text(d: u64) -> (r: &'static str)
    requires
        d < 10,
    ensures
        r@ == seq![digit_char(d as nat)],
{
    proof {
        reveal_strlit("0");
        reveal_strlit("1");
        reveal_strlit("2");
        reveal_strlit("3");
        reveal_strlit("4");
        reveal_strlit("5");
        reveal_strlit("6");
        reveal_strlit("7");
        reveal_strlit("8");
        reveal_strlit("9");
    }
    match d {
        0 => "0",
        1 => "1",
        2 => "2",
        3 => "3",
        4 => "4",
        5 => "5",
        6 => "6",
        7 => "7",
        8 => "8",
        _ => "9",
    }
}

/// The number of digits of `n`.
fn decimal_len(n: u64) -> (r: u64)
    ensures
        r == decimal(n as nat).len(),
        1 <= r <= n as int + 1,
    decreases n,
{
    if n < 10 {
        1
    } else {
        1 + decimal_len(n / 10)
    }
}

/// Appends the decimal text of `n`.
fn push_decimal(s: &mut String, n: u64)
    ensures
        final(s)@ == old(s)@ + decimal(n as nat),
    decreases n,
{
    if n >= 10 {
        push_decimal(s, n / 10);
    }
    s.append(digit_text(n % 10));
    assert(final(s)@ =~= old(s)@ + decimal(n as nat));
}

/// Appends the decimal text of `n` with leading zeros up to `width` characters.
fn push_zero_padded(s: &mut String, n: u64, width: usize)
    ensures
        final(s)@ == old(s)@ + zero_padded(n as nat, width as nat),
{
    let len = decimal_len(n);
    let target: u64 = if len < width as u64 {
        width as u64
    } else {
        len
    };
    let ghost start = s@;
    let mut i: u64 = len;
    while i < target
        invariant
            len <= i <= target,
            s@ == start + Seq::new((i - len) as nat, |j: int| '0'),
        decreases target - i,
    {
        s.append("0");
        proof {
            reveal_strlit("0");
        }
        i = i + 1;
        assert(s@ =~= start + Seq::new((i - len) as nat, |j: int| '0'));
    }
    push_decimal(s, n);
    assert(s@ =~= start + zero_padded(n as nat, width as nat));
}

/// The address of the rank history of `domain`, which is put in as it is.
pub fn ranks_url(domain: &str) -> (r: String)
    ensures
        r@ == API_BASE@ + "/ranks/domain/"@ + domain@,
{
    let mut url = API_BASE.to_owned();
    url.append("/ranks/domain/");
    url.append(domain);
    url
}

/// The address of the list with identifier `id`, which is put in as it is.
pub fn list_url(id: &str) -> (r: String)
    ensures
        r@ == API_BASE@ + "/lists/id/"@ + id@,
{
    let mut url = API_BASE.to_owned();
    url.append("/lists/id/");
    url.append(id);
    url
}

/// The address of the list of a given day; the date is not checked against the
/// calendar.
pub fn list_date_url(year: u16, month: u8, day: u8, subdomains: Option<bool>) -> (r: String)
    ensures
        r@ == API_BASE@ + "/lists/date/"@ + date_text(year, month, day) + subdomains_query(
            subdomains,
        ),
{
    let mut url = API_BASE.to_owned();
    url.append("/lists/date/");
    push_zero_padded(&mut url, year as u64, 4);
    push_zero_padded(&mut url, month as u64, 2);
    push_zero_padded(&mut url, day as u64, 2);
    match subdomains {
        Some(b) => {
            url.append("?subdomains=");
            if b {
                url.append("true");
            } else {
                url.append("false");
            }
        },
        None => {},
    }
    assert(url@ =~= API_BASE@ + "/lists/date/"@ + date_text(year, month, day) + subdomains_query(
        subdomains,
    ));
    url
}

} // verus!
