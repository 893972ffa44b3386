//! Plain-text rendering of dates and times for the list rows and the
//! selected-date label: `HH:MM` next to a dated todo, `YYYY-MM-DD` for the
//! selection. The result is pinned character by character.

use vstd::prelude::*;

use crate::date_time::{Date, DateTime};

verus! {

/// The decimal digit character for `d` (0..=9).
pub open spec fn spec_digit(d: int) -> char {
    if d == 0 {
        '0'
    } else if d == 1 {
        '1'
    } else if d == 2 {
        '2'
    } else if d == 3 {
        '3'
    } else if d == 4 {
        '4'
    } else if d == 5 {
        '5'
    } else if d == 6 {
        '6'
    } else if d == 7 {
        '7'
    } else if d == 8 {
        '8'
    } else {
        '9'
    }
}

/// `n` (0..=99) zero-padded to two decimal digits.
pub open spec fn spec_two_digits(n: int) -> Seq<char> {
    seq![spec_digit(n / 10), spec_digit(n % 10)]
}

/// `n` (0..=9999) zero-padded to four decimal digits.
pub open spec fn spec_four_digits(n: int) -> Seq<char> {
    spec_two_digits(n / 100) + spec_two_digits(n % 100)
}

/// The time-of-day label of a dated todo row: `HH:MM`.
pub open spec fn spec_hm(t: DateTime) -> Seq<char> {
    spec_two_digits(t.hour as int) + seq![':'] + spec_two_digits(t.minute as int)
}

/// The selected-date label: `YYYY-MM-DD`.
pub open spec fn spec_ymd(d: Date) -> Seq<char> {
    spec_four_digits(d.year as int) + seq!['-'] + spec_two_digits(d.month as int) + seq!['-']
        + spec_two_digits(d.day as int)
}

/// The one-character string for a decimal digit.
fn digit_str(d: u32) -> (r: &'static str)
    requires
        d <= 9,
    ensures
        r@ == seq![spec_digit(d as int)],
{
    let r: &'static str = match d {
        0 => "0",
        1 => "1",
        2 => "2",
        3 => "3",
        4 => "4",
        5 => "5",
        6 => "6",
        7 => "7",
        8 => "8",
        _ => "9",
    };
    proof {
        reveal_strlit("0");
        reveal_strlit("1");
        reveal_strlit("2");
        reveal_strlit("3");
        reveal_strlit("4");
        reveal_strlit("5");
        reveal_strlit("6");
        reveal_strlit("7");
        reveal_strlit("8");
        reveal_strlit("9");
        assert(r@ =~= seq![spec_digit(d as int)]);
    }
    r
}

/// Appends `n` as two zero-padded digits.
fn push_two_digits(s: &mut String, n: u32)
    requires
        n <= 99,
    ensures
        final(s)@ == old(s)@ + spec_two_digits(n as int),
{
    s.append(digit_str(n / 10));
    s.append(digit_str(n % 10));
    proof {
        assert(s@ =~= old(s)@ + spec_two_digits(n as int));
    }
}

/// Renders the time of day of a timestamp as `HH:MM`, both parts
/// zero-padded, as shown beside a dated todo in the day list.
pub fn format_hm(t: &DateTime) -> (r: String)
    requires
        t.wf(),
    ensures
        r@ == spec_hm(*t),
{
    let mut r = String::new();
    push_two_digits(&mut r, t.hour);
    r.append(":");
    push_two_digits(&mut r, t.minute);
    proof {
        reveal_strlit(":");
        assert(r@ =~= spec_hm(*t));
    }
    r
}

/// Renders a date as `YYYY-MM-DD`, zero-padded, as shown in the
/// selected-date label. Years of the calendar widget fit four digits.
pub fn format_ymd(d: &Date) -> (r: String)
    requires
        d.wf(),
        0 <= d.year <= 9999,
    ensures
        r@ == spec_ymd(*d),
{
    let mut r = String::new();
    let year = d.year as u32;
    push_two_digits(&mut r, year / 100);
    push_two_digits(&mut r, year % 100);
    r.append("-");
    push_two_digits(&mut r, d.month);
    r.append("-");
    push_two_digits(&mut r, d.day);
    proof {
        reveal_strlit("-");
        assert(r@ =~= spec_ymd(*d));
    }
    r
}

} // verus!
