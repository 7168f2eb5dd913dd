//! Date stamps: the six-digit `YYMMDD` text used when no usable branch text
//! is available.

use vstd::prelude::*;
use chrono::Datelike;

verus! {

use crate::text::{digit_char, is_digit, chars_to_string};

/// A six-character, all-digit date stamp (`YYMMDD`).
pub open spec fn is_date_stamp(s: Seq<char>) -> bool {
    s.len() == 6 && forall|i: int| 0 <= i < 6 ==> is_digit(#[trigger] s[i])
}

/// The `YYMMDD` stamp of a date: two zero-padded digits each for the year
/// modulo one hundred, the month, and the day.
pub open spec fn stamp_seq(yy: int, m: int, d: int) -> Seq<char> {
    seq![
        digit_char(yy / 10),
        digit_char(yy % 10),
        digit_char(m / 10),
        digit_char(m % 10),
        digit_char(d / 10),
        digit_char(d % 10),
    ]
}

/// Relies on `chrono::Local::now` and `chrono::Datelike`: the year number
/// comes from `year_ce`, `month` is documented to lie in `1..=12`, and
/// `day` in `1..=31`.
#[verifier::external_body]
fn now_local_ymd() -> (r: (u32, u32, u32))
    ensures
        1 <= r.1 <= 12,
        1 <= r.2 <= 31,
{
    let now = chrono::Local::now();
    (now.year_ce().1, now.month(), now.day())
}

/// Formats a date as a `YYMMDD` stamp: two zero-padded digits each for the
/// year modulo one hundred, the month, and the day.
pub fn date_stamp(year: u32, month: u32, day: u32) -> (r: String)
    requires
        1 <= month <= 12,
        1 <= day <= 31,
    ensures
        r@ == stamp_seq((year % 100) as int, month as int, day as int),
        is_date_stamp(r@),
{
    let yy = year % 100;
    let mut v: Vec<char> = Vec::new();
    v.push((48 + (yy / 10) as u8) as char);
    v.push((48 + (yy % 10) as u8) as char);
    v.push((48 + (month / 10) as u8) as char);
    v.push((48 + (month % 10) as u8) as char);
    v.push((48 + (day / 10) as u8) as char);
    v.push((48 + (day % 10) as u8) as char);
    proof {
        assert(v@ =~= stamp_seq((year % 100) as int, month as int, day as int));
    }
    chars_to_string(&v)
}

/// Today's date stamp, from the local clock.
pub fn today_stamp() -> (r: String)
    ensures
        is_date_stamp(r@),
{
    let (y, m, d) = now_local_ymd();
    date_stamp(y, m, d)
}

} // verus!
