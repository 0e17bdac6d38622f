//! Wall-clock reading and the date header's text form: ISO-8601 with a
//! numeric offset, e.g. `2024-01-02T15:04:05Z+0000`.

use vstd::prelude::*;

use crate::text::{digit_char, push_char, spec_digits, write_digits};

verus! {

/// A moment in civil time (UTC).
pub struct DateParts {
    pub year: i32,
    pub month: u8,
    pub day: u8,
    pub hour: u8,
    pub minute: u8,
    pub second: u8,
}

/// The field ranges a calendar reading satisfies.
pub open spec fn date_wf(d: DateParts) -> bool {
    &&& 1 <= d.month <= 12
    &&& 1 <= d.day <= 31
    &&& d.hour <= 23
    &&& d.minute <= 59
    &&& d.second <= 59
}

/// Reads the current UTC time.
///
/// Relies on chrono's `Utc::now` and its `Datelike` and `Timelike`
/// accessors: `month()` is 1-12, `day()` is 1-31, `hour()` is 0-23,
/// `minute()` and `second()` are 0-59.
#[verifier::external_body]
pub fn now_parts() -> (r: DateParts)
    ensures
        date_wf(r),
{
    let n = chrono::Utc::now();
    DateParts {
        year: chrono::Datelike::year(&n),
        month: chrono::Datelike::month(&n) as u8,
        day: chrono::Datelike::day(&n) as u8,
        hour: chrono::Timelike::hour(&n) as u8,
        minute: chrono::Timelike::minute(&n) as u8,
        second: chrono::Timelike::second(&n) as u8,
    }
}

/// A two-digit zero-padded field.
pub open spec fn two_digits(v: int) -> Seq<char> {
    seq![digit_char(v / 10), digit_char(v % 10)]
}

/// The year, zero-padded to four digits; years beyond that range keep
/// all their digits, negative years carry a sign.
pub open spec fn year_chars(y: int) -> Seq<char> {
    if 0 <= y <= 9999 {
        seq![
            digit_char(y / 1000),
            digit_char(y / 100 % 10),
            digit_char(y / 10 % 10),
            digit_char(y % 10),
        ]
    } else if y > 9999 {
        spec_digits(y)
    } else {
        seq!['-'] + spec_digits(-y)
    }
}

/// The date header's text form.
pub open spec fn spec_date_string(d: DateParts) -> Seq<char> {
    year_chars(d.year as int) + seq!['-'] + two_digits(d.month as int) + seq!['-'] + two_digits(
        d.day as int,
    ) + seq!['T'] + two_digits(d.hour as int) + seq![':'] + two_digits(d.minute as int) + seq![':']
        + two_digits(d.second as int) + seq!['Z', '+', '0', '0', '0', '0']
}

/// Appends a two-digit zero-padded field.
fn write_two(out: &mut String, v: u8)
    ensures
        final (out)@ == old(out)@ + two_digits(v as int),
{
    push_char(out, (48 + v / 10) as char);
    push_char(out, (48 + v % 10) as char);
    proof {
        assert(out@ =~= old(out)@ + two_digits(v as int));
    }
}

/// The date header's text form of `d`.
pub fn format_date(d: &DateParts) -> (r: String)
    ensures
        r@ == spec_date_string(*d),
{
    let mut out = String::new();
    let y = d.year;
    if 0 <= y && y <= 9999 {
        let u = y as u32;
        push_char(&mut out, (48 + (u / 1000) as u8) as char);
        push_char(&mut out, (48 + (u / 100 % 10) as u8) as char);
        push_char(&mut out, (48 + (u / 10 % 10) as u8) as char);
        push_char(&mut out, (48 + (u % 10) as u8) as char);
    } else if y > 9999 {
        write_digits(&mut out, y as u64);
    } else {
        push_char(&mut out, '-');
        let m: u64 = (-(y as i64)) as u64;
        write_digits(&mut out, m);
    }
    proof {
        assert(out@ =~= Seq::<char>::empty() + year_chars(d.year as int));
    }
    push_char(&mut out, '-');
    write_two(&mut out, d.month);
    push_char(&mut out, '-');
    write_two(&mut out, d.day);
    push_char(&mut out, 'T');
    write_two(&mut out, d.hour);
    push_char(&mut out, ':');
    write_two(&mut out, d.minute);
    push_char(&mut out, ':');
    write_two(&mut out, d.second);
    push_char(&mut out, 'Z');
    push_char(&mut out, '+');
    push_char(&mut out, '0');
    push_char(&mut out, '0');
    push_char(&mut out, '0');
    push_char(&mut out, '0');
    proof {
        assert(out@ =~= spec_date_string(*d));
    }
    out
}

} // verus!
