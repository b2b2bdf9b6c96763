//! The epoch-to-calendar-date converter of the directory-listing tool:
//! a Unix timestamp becomes a calendar date and wall-clock time, with the
//! given zone offset in hours added to the hour field.

use vstd::prelude::*;

verus! {

pub const SECONDS_IN_MINUTE: u64 = 60;

pub const SECONDS_IN_HOUR: u64 = 3600;

pub const SECONDS_IN_DAY: u64 = 86400;

/// A leap year: divisible by 4 but not by 100, or divisible by 400.
pub open spec fn spec_is_leap_year(year: int) -> bool {
    (year % 4 == 0 && year % 100 != 0) || year % 400 == 0
}

/// Whether a year is a leap year.
pub fn is_leap_year(year: u64) -> (r: bool)
    ensures
        r == spec_is_leap_year(year as int),
{
    (year % 4 == 0 && year % 100 != 0) || (year % 400 == 0)
}

/// Days in one month, February depending on the year.
pub open spec fn spec_days_in_month(month: int, year: int) -> int {
    if month == 2 {
        if spec_is_leap_year(year) {
            29
        } else {
            28
        }
    } else if month == 4 || month == 6 || month == 9 || month == 11 {
        30
    } else {
        31
    }
}

/// Days in one month of one year.
pub fn days_in_month(month: u64, year: u64) -> (r: u64)
    requires
        1 <= month <= 12,
    ensures
        r == spec_days_in_month(month as int, year as int),
{
    if month == 2 {
        if is_leap_year(year) {
            29
        } else {
            28
        }
    } else if month == 4 || month == 6 || month == 9 || month == 11 {
        30
    } else {
        31
    }
}

/// Days in one year.
pub open spec fn spec_days_in_year(year: int) -> int {
    if spec_is_leap_year(year) {
        366
    } else {
        365
    }
}

/// Days from the epoch (1970-01-01) to January 1 of `year`.
pub open spec fn spec_days_before_year(year: int) -> int
    decreases year,
{
    if year <= 1970 {
        0
    } else {
        spec_days_before_year(year - 1) + spec_days_in_year(year - 1)
    }
}

/// Days from January 1 to the first day of `month` in `year`.
pub open spec fn spec_days_before_month(month: int, year: int) -> int
    decreases month,
{
    if month <= 1 {
        0
    } else {
        spec_days_before_month(month - 1, year) + spec_days_in_month(month - 1, year)
    }
}

/// Every year on or after 1970 starts at least one day after the year
/// before it.
proof fn lemma_days_before_year_lower(year: int)
    requires
        year >= 1970,
    ensures
        spec_days_before_year(year) >= year - 1970,
    decreases year,
{
    if year > 1970 {
        lemma_days_before_year_lower(year - 1);
    }
}

/// The twelve months cover the year exactly.
proof fn lemma_months_cover_year(year: int)
    ensures
        spec_days_before_month(13, year) == spec_days_in_year(year),
{
    assert(spec_days_before_month(2, year) == spec_days_before_month(1, year)
        + spec_days_in_month(1, year));
    assert(spec_days_before_month(3, year) == spec_days_before_month(2, year)
        + spec_days_in_month(2, year));
    assert(spec_days_before_month(4, year) == spec_days_before_month(3, year)
        + spec_days_in_month(3, year));
    assert(spec_days_before_month(5, year) == spec_days_before_month(4, year)
        + spec_days_in_month(4, year));
    assert(spec_days_before_month(6, year) == spec_days_before_month(5, year)
        + spec_days_in_month(5, year));
    assert(spec_days_before_month(7, year) == spec_days_before_month(6, year)
        + spec_days_in_month(6, year));
    assert(spec_days_before_month(8, year) == spec_days_before_month(7, year)
        + spec_days_in_month(7, year));
    assert(spec_days_before_month(9, year) == spec_days_before_month(8, year)
        + spec_days_in_month(8, year));
    assert(spec_days_before_month(10, year) == spec_days_before_month(9, year)
        + spec_days_in_month(9, year));
    assert(spec_days_before_month(11, year) == spec_days_before_month(10, year)
        + spec_days_in_month(10, year));
    assert(spec_days_before_month(12, year) == spec_days_before_month(11, year)
        + spec_days_in_month(11, year));
    assert(spec_days_before_month(13, year) == spec_days_before_month(12, year)
        + spec_days_in_month(12, year));
}

/// A calendar date with a wall-clock hour and minute. The hour carries the
/// zone offset the conversion was asked for.
#[derive(PartialEq, Eq, Debug, Clone, Copy)]
pub struct DateTime {
    pub day: u64,
    pub month: u64,
    pub year: u64,
    pub hour: u64,
    pub minute: u64,
}

/// Convert a Unix timestamp to a calendar date and time, adding a zone
/// offset in hours to the hour field. The date fields are pinned down
/// uniquely: the days before the year, before the month and within the
/// month add up to the timestamp's whole days since the epoch.
pub fn convert_epoch_to_datetime(epoch: u64, zone: u64) -> (r: DateTime)
    requires
        zone <= u64::MAX - 23,
    ensures
        r.year >= 1970,
        1 <= r.month <= 12,
        1 <= r.day <= spec_days_in_month(r.month as int, r.year as int),
        spec_days_before_year(r.year as int) + spec_days_before_month(
            r.month as int,
            r.year as int,
        ) + (r.day - 1) == epoch / SECONDS_IN_DAY,
        r.hour == (epoch % SECONDS_IN_DAY) / SECONDS_IN_HOUR + zone,
        r.minute == ((epoch % SECONDS_IN_DAY) % SECONDS_IN_HOUR) / SECONDS_IN_MINUTE,
{
    let mut seconds = epoch;
    let days = seconds / SECONDS_IN_DAY;
    seconds %= SECONDS_IN_DAY;
    let hours = seconds / SECONDS_IN_HOUR;
    seconds %= SECONDS_IN_HOUR;
    let minutes = seconds / SECONDS_IN_MINUTE;

    proof {
        assert(days <= u64::MAX / 86400) by (nonlinear_arith)
            requires
                days == epoch / 86400,
                epoch <= u64::MAX,
        ;
        assert(hours <= 23);
    }

    let mut year: u64 = 1970;
    let mut days_remaining: u64 = days;
    while days_remaining >= 365
        invariant_except_break
            year >= 1970,
            days <= u64::MAX / 86400,
            days_remaining as int == days - spec_days_before_year(year as int),
        ensures
            year >= 1970,
            days_remaining as int == days - spec_days_before_year(year as int),
            days_remaining < spec_days_in_year(year as int),
        decreases days_remaining,
    {
        proof {
            lemma_days_before_year_lower(year as int);
        }
        if is_leap_year(year) {
            if days_remaining >= 366 {
                days_remaining -= 366;
                year += 1;
            } else {
                break ;
            }
        } else {
            days_remaining -= 365;
            year += 1;
        }
    }

    let mut month: u64 = 1;
    let ghost dr0 = days_remaining as int;
    loop
        invariant_except_break
            1 <= month <= 12,
            year >= 1970,
            days_remaining < 366,
            days_remaining as int == dr0 - spec_days_before_month(month as int, year as int),
            dr0 < spec_days_in_year(year as int),
        ensures
            1 <= month <= 12,
            days_remaining as int == dr0 - spec_days_before_month(month as int, year as int),
            days_remaining < spec_days_in_month(month as int, year as int),
        decreases 12 - month,
    {
        let dim = days_in_month(month, year);
        if days_remaining < dim {
            break ;
        }
        proof {
            if month == 12 {
                lemma_months_cover_year(year as int);
            }
        }
        days_remaining -= dim;
        month += 1;
    }

    let day = days_remaining + 1;
    DateTime { day, month, year, hour: hours + zone, minute: minutes }
}

/// The decimal digits of `n`, most significant first; empty for zero.
pub open spec fn spec_digits(n: int) -> Seq<u8>
    decreases n,
{
    if n <= 0 {
        Seq::empty()
    } else {
        spec_digits(n / 10).push((48 + n % 10) as u8)
    }
}

/// The decimal rendering of `n`: its digits, or `0` for zero.
pub open spec fn spec_dec(n: int) -> Seq<u8> {
    if n == 0 {
        seq![48u8]
    } else {
        spec_digits(n)
    }
}

/// A text left-padded with `0` to at least `width` characters.
pub open spec fn spec_zero_pad(s: Seq<u8>, width: int) -> Seq<u8>
    decreases width - s.len(),
{
    if s.len() >= width {
        s
    } else {
        spec_zero_pad(seq![48u8] + s, width)
    }
}

/// Zero-padding prepends exactly the missing zeros.
proof fn lemma_zero_pad(s: Seq<u8>, width: int)
    ensures
        spec_zero_pad(s, width) == if s.len() >= width {
            s
        } else {
            Seq::new((width - s.len()) as nat, |j: int| 48u8) + s
        },
    decreases width - s.len(),
{
    if s.len() < width {
        lemma_zero_pad(seq![48u8] + s, width);
        if (seq![48u8] + s).len() >= width {
            assert(Seq::new((width - s.len()) as nat, |j: int| 48u8) + s =~= seq![48u8] + s);
        } else {
            assert(Seq::new((width - s.len()) as nat, |j: int| 48u8) + s =~= Seq::new(
                (width - (seq![48u8] + s).len()) as nat,
                |j: int| 48u8,
            ) + (seq![48u8] + s));
        }
    }
}

/// Append the decimal digits of `n`, most significant first.
fn push_digits(out: &mut Vec<u8>, n: u64)
    ensures
        final(out)@ == old(out)@ + spec_digits(n as int),
    decreases n,
{
    if n == 0 {
        proof {
            assert(out@ + spec_digits(0) =~= out@);
        }
    } else {
        push_digits(out, n / 10);
        let digit: u8 = 48 + (n % 10) as u8;
        out.push(digit);
        proof {
            assert(out@ =~= old(out)@ + spec_digits(n as int));
        }
    }
}

/// The decimal rendering of `n`, zero-padded to at least `width`
/// characters.
pub fn fmt_padded(n: u64, width: usize) -> (r: Vec<u8>)
    ensures
        r@ == spec_zero_pad(spec_dec(n as int), width as int),
{
    let mut digits: Vec<u8> = Vec::new();
    if n == 0 {
        digits.push(48);
        proof {
            assert(digits@ =~= spec_dec(0));
        }
    } else {
        push_digits(&mut digits, n);
        proof {
            assert(Seq::<u8>::empty() + spec_digits(n as int) =~= spec_digits(n as int));
        }
    }
    let mut out: Vec<u8> = Vec::new();
    let mut pad: usize = 0;
    let need = if digits.len() >= width {
        0
    } else {
        width - digits.len()
    };
    while pad < need
        invariant
            pad <= need,
            out@ =~= Seq::new(pad as nat, |j: int| 48u8),
        decreases need - pad,
    {
        out.push(48);
        pad += 1;
        proof {
            assert(out@ =~= Seq::new(pad as nat, |j: int| 48u8));
        }
    }
    let ghost zeros = out@;
    let ghost ds = digits@;
    out.append(&mut digits);
    proof {
        lemma_zero_pad(spec_dec(n as int), width as int);
        if ds.len() >= width {
            assert(zeros =~= Seq::<u8>::empty());
            assert(out@ =~= ds);
        } else {
            assert(out@ =~= Seq::new((width - ds.len()) as nat, |j: int| 48u8) + ds);
        }
    }
    out
}

/// The rendering of a date and time: day, month, hour and minute
/// zero-padded to two digits, the year to four, as `DD/MM/YYYY HH:MM`.
pub open spec fn spec_render_datetime(dt: DateTime) -> Seq<u8> {
    spec_zero_pad(spec_dec(dt.day as int), 2) + seq![47u8] + spec_zero_pad(
        spec_dec(dt.month as int),
        2,
    ) + seq![47u8] + spec_zero_pad(spec_dec(dt.year as int), 4) + seq![32u8] + spec_zero_pad(
        spec_dec(dt.hour as int),
        2,
    ) + seq![58u8] + spec_zero_pad(spec_dec(dt.minute as int), 2)
}

/// Render a date and time as text.
pub fn render_datetime(dt: &DateTime) -> (r: Vec<u8>)
    ensures
        r@ == spec_render_datetime(*dt),
{
    let mut out = fmt_padded(dt.day, 2);
    let mut part = fmt_padded(dt.month, 2);
    out.push(47);
    out.append(&mut part);
    out.push(47);
    let mut part = fmt_padded(dt.year, 4);
    out.append(&mut part);
    out.push(32);
    let mut part = fmt_padded(dt.hour, 2);
    out.append(&mut part);
    out.push(58);
    let mut part = fmt_padded(dt.minute, 2);
    out.append(&mut part);
    proof {
        assert(out@ =~= spec_render_datetime(*dt));
    }
    out
}

} // verus!
