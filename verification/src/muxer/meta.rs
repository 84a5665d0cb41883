//! File metadata: the `udta`/`meta`/`ilst` boxes and the ISO 8601 rendering
//! of creation times.

use vstd::prelude::*;

use super::fourcc::{APPL, DATA, DAY_ITEM, HDLR, ILST, MDIR, META, NAME_ITEM, UDTA};
use super::headers::zeros;
use crate::api::Metadata;
use crate::wire::{be32, build_box, push_bytes, push_u32, push_zeros, spec_box};

verus! {

/// Gregorian leap year.
pub open spec fn spec_is_leap_year(year: nat) -> bool {
    (year % 4 == 0 && year % 100 != 0) || year % 400 == 0
}

/// Days of a year.
pub open spec fn days_in_year(year: nat) -> nat {
    if spec_is_leap_year(year) {
        366
    } else {
        365
    }
}

/// The year that day `remaining` (counted from January 1 of `year`) falls
/// in, and the day within that year.
pub open spec fn year_and_day(year: nat, remaining: nat) -> (nat, nat)
    decreases remaining,
{
    if remaining < days_in_year(year) {
        (year, remaining)
    } else {
        year_and_day(year + 1, (remaining - days_in_year(year)) as nat)
    }
}

/// Days of a month (1-12) in a leap or common year.
pub open spec fn month_length(leap: bool, month: nat) -> nat {
    if month == 2 {
        if leap {
            29
        } else {
            28
        }
    } else if month == 4 || month == 6 || month == 9 || month == 11 {
        30
    } else {
        31
    }
}

/// The month (from `month` on) and day of month of day `remaining` of a year.
pub open spec fn month_and_day(leap: bool, month: nat, remaining: nat) -> (nat, nat)
    decreases 13 - month,
{
    if month >= 12 || remaining < month_length(leap, month) {
        (month, remaining + 1)
    } else {
        month_and_day(leap, month + 1, (remaining - month_length(leap, month)) as nat)
    }
}

/// The days of a year from the start of `month` to its end.
pub open spec fn days_left(leap: bool, month: nat) -> nat
    decreases 13 - month,
{
    if month > 12 {
        0
    } else {
        month_length(leap, month) + days_left(leap, month + 1)
    }
}

/// Civil date (year, month, day) of the given number of days after
/// 1970-01-01. Days past December stay in month 12.
pub open spec fn spec_days_to_ymd(days: nat) -> (nat, nat, nat) {
    let (y, r) = year_and_day(1970, days);
    let (m, d) = month_and_day(spec_is_leap_year(y), 1, r);
    (y, m, d)
}

/// Whether a year is a Gregorian leap year.
pub fn is_leap_year(year: u32) -> (r: bool)
    ensures
        r == spec_is_leap_year(year as nat),
{
    (year % 4 == 0 && year % 100 != 0) || (year % 400 == 0)
}

proof fn lemma_year_and_day_bounds(year: nat, remaining: nat)
    ensures
        year_and_day(year, remaining).0 >= year,
        year_and_day(year, remaining).1 < days_in_year(year_and_day(year, remaining).0),
    decreases remaining,
{
    if remaining >= days_in_year(year) {
        lemma_year_and_day_bounds(year + 1, (remaining - days_in_year(year)) as nat);
    }
}

/// The calendar day after `(year, month, day)`.
pub open spec fn next_date(date: (nat, nat, nat)) -> (nat, nat, nat) {
    let (y, m, d) = date;
    if d < month_length(spec_is_leap_year(y), m) {
        (y, m, d + 1)
    } else if m < 12 {
        (y, m + 1, 1)
    } else {
        (y + 1, 1, 1)
    }
}

/// Whether `(year, month, day)` names a day of the Gregorian calendar.
pub open spec fn valid_date(date: (nat, nat, nat)) -> bool {
    &&& 1 <= date.1 <= 12
    &&& 1 <= date.2 <= month_length(spec_is_leap_year(date.0), date.1)
}

/// The day after day `remaining` of a year is the next day of that year,
/// or the first day of the next year.
proof fn lemma_year_and_day_next(year: nat, remaining: nat)
    ensures
        ({
            let (y, r) = year_and_day(year, remaining);
            year_and_day(year, remaining + 1) == if r + 1 < days_in_year(y) {
                (y, r + 1)
            } else {
                (y + 1, 0nat)
            }
        }),
    decreases remaining,
{
    lemma_year_and_day_bounds(year, remaining);
    if remaining >= days_in_year(year) {
        lemma_year_and_day_next(year + 1, (remaining - days_in_year(year)) as nat);
        assert((remaining + 1 - days_in_year(year)) as nat == (remaining - days_in_year(year)) as nat + 1);
    } else if remaining + 1 == days_in_year(year) {
        assert(year_and_day(year + 1, 0) == (year + 1, 0nat));
    }
}

/// Within a year, the day after `remaining` (counted from the start of
/// `month`) is the next day of the same month, or the first day of the next
/// month; only the last day of the year has no such successor, and it is
/// December 31.
proof fn lemma_month_and_day_next(leap: bool, month: nat, remaining: nat)
    requires
        1 <= month <= 12,
        remaining < days_left(leap, month),
    ensures
        ({
            let (m, d) = month_and_day(leap, month, remaining);
            &&& month <= m <= 12
            &&& 1 <= d <= month_length(leap, m)
            &&& remaining + 1 == days_left(leap, month) ==> m == 12 && d == month_length(leap, 12)
            &&& remaining + 1 < days_left(leap, month) ==> (d < month_length(leap, m) || m < 12)
                && month_and_day(leap, month, remaining + 1) == if d < month_length(leap, m) {
                (m, d + 1)
            } else {
                (m + 1, 1nat)
            }
        }),
    decreases 13 - month,
{
    reveal_with_fuel(days_left, 2);
    if month >= 12 {
        assert(days_left(leap, 12) == 31);
    } else if remaining < month_length(leap, month) {
        assert(days_left(leap, month + 1) >= month_length(leap, month + 1));
        if remaining + 1 == month_length(leap, month) {
            assert(month_and_day(leap, month + 1, 0) == (month + 1, 1nat));
        }
    } else {
        lemma_month_and_day_next(leap, month + 1, (remaining - month_length(leap, month)) as nat);
        assert((remaining + 1 - month_length(leap, month)) as nat == (remaining - month_length(leap, month))
            as nat + 1);
    }
}

/// A year's months, from January on, hold all its days.
proof fn lemma_days_left_whole_year(year: nat)
    ensures
        days_left(spec_is_leap_year(year), 1) == days_in_year(year),
{
    reveal_with_fuel(days_left, 13);
}

/// Day 0 is 1970-01-01; every day count gives a calendar date, and the next
/// day count gives the next calendar date, with months of their length and
/// February of 29 days in leap years.
pub proof fn lemma_days_to_ymd_calendar(days: nat)
    ensures
        spec_days_to_ymd(0) == (1970nat, 1nat, 1nat),
        valid_date(spec_days_to_ymd(days)),
        spec_days_to_ymd(days + 1) == next_date(spec_days_to_ymd(days)),
{
    let (y, r) = year_and_day(1970, days);
    let leap = spec_is_leap_year(y);
    lemma_year_and_day_bounds(1970, days);
    lemma_year_and_day_next(1970, days);
    lemma_days_left_whole_year(y);
    lemma_days_left_whole_year(y + 1);
    lemma_month_and_day_next(leap, 1, r);
    lemma_month_and_day_next(spec_is_leap_year(y + 1), 1, 0);
    assert(year_and_day(1970, 0) == (1970nat, 0nat));
    assert(month_and_day(spec_is_leap_year(1970), 1, 0) == (1nat, 1nat));
}

/// Splits a day count since 1970-01-01 into year, month and day.
pub fn days_to_ymd(days: u64) -> (r: (u32, u32, u32))
    requires
        spec_days_to_ymd(days as nat).0 <= u32::MAX,
    ensures
        r.0 == spec_days_to_ymd(days as nat).0,
        r.1 == spec_days_to_ymd(days as nat).1,
        r.2 == spec_days_to_ymd(days as nat).2,
{
    let mut remaining_days: u64 = days;
    let mut year: u32 = 1970;
    let ghost target = year_and_day(1970, days as nat);
    proof {
        lemma_year_and_day_bounds(1970, days as nat);
    }
    loop
        invariant
            year_and_day(year as nat, remaining_days as nat) == target,
            target.0 <= u32::MAX,
            year <= target.0,
        ensures
            year_and_day(year as nat, remaining_days as nat) == target,
            remaining_days < days_in_year(year as nat),
        decreases remaining_days,
    {
        let days_in_year: u64 = if is_leap_year(year) {
            366
        } else {
            365
        };
        if remaining_days < days_in_year {
            break ;
        }
        proof {
            lemma_year_and_day_bounds(year as nat + 1, (remaining_days - days_in_year) as nat);
        }
        remaining_days = remaining_days - days_in_year;
        year = year + 1;
    }
    let leap = is_leap_year(year);
    let mut month: u32 = 1;
    let mut rem = remaining_days;
    proof {
        lemma_year_and_day_bounds(1970, days as nat);
        reveal_with_fuel(days_left, 13);
        assert(days_left(leap, 1) == days_in_year(year as nat));
    }
    while month <= 12
        invariant
            1 <= month <= 12,
            rem < days_left(leap, month as nat),
            month_and_day(leap, month as nat, rem as nat) == month_and_day(leap, 1, remaining_days as nat),
        ensures
            1 <= month <= 12,
            rem < month_length(leap, month as nat),
            month_and_day(leap, month as nat, rem as nat) == month_and_day(leap, 1, remaining_days as nat),
        decreases 13 - month,
    {
        assert(days_left(leap, month as nat) == month_length(leap, month as nat) + days_left(leap, month as nat + 1));
        assert(days_left(leap, 13) == 0);
        let len: u64 = if month == 2 {
            if leap {
                29
            } else {
                28
            }
        } else if month == 4 || month == 6 || month == 9 || month == 11 {
            30
        } else {
            31
        };
        if rem < len {
            break ;
        }
        rem = rem - len;
        month = month + 1;
    }
    (year, month, (rem + 1) as u32)
}

/// Decimal digits of `n`, most significant first, in ASCII.
pub open spec fn decimal(n: nat) -> Seq<u8>
    decreases n,
{
    if n < 10 {
        seq![(48 + n) as u8]
    } else {
        decimal(n / 10).push((48 + n % 10) as u8)
    }
}

/// `n` in decimal, left-padded with `0` to at least `width` digits.
pub open spec fn padded(n: nat, width: nat) -> Seq<u8> {
    let d = decimal(n);
    if d.len() >= width {
        d
    } else {
        Seq::new((width - d.len()) as nat, |_i: int| 48u8) + d
    }
}

/// Every year has at least 365 days, so the year advances by at most one per
/// 365 days.
proof fn lemma_year_advance(year: nat, remaining: nat)
    ensures
        (year_and_day(year, remaining).0 - year) * 365 <= remaining,
    decreases remaining,
{
    lemma_year_and_day_bounds(year, remaining);
    if remaining >= days_in_year(year) {
        lemma_year_advance(year + 1, (remaining - days_in_year(year)) as nat);
    }
}

/// Whether a creation time is early enough to be rendered for certain: no
/// later than day 365 * (2^32 - 1 - 1970) after the epoch, which keeps its
/// year within 32 bits.
pub fn creation_time_renderable(unix_secs: u64) -> (r: bool)
    ensures
        r == (unix_secs / 86400 <= 365 * (u32::MAX - 1970)),
        r ==> timestamp_renderable(unix_secs as nat),
{
    let r = unix_secs / 86400 <= 365 * (u32::MAX as u64 - 1970);
    proof {
        lemma_year_advance(1970, unix_secs as nat / 86400);
    }
    r
}

/// `YYYY-MM-DDTHH:MM:SSZ` (UTC) for a time in seconds since the Unix epoch.
pub open spec fn spec_format_unix_timestamp(secs: nat) -> Seq<u8> {
    let (y, mo, d) = spec_days_to_ymd(secs / 86400);
    let rem = secs % 86400;
    padded(y, 4) + seq![45u8] + padded(mo, 2) + seq![45u8] + padded(d, 2) + seq![84u8] + padded(
        rem / 3600,
        2,
    ) + seq![58u8] + padded((rem % 3600) / 60, 2) + seq![58u8] + padded(rem % 60, 2) + seq![90u8]
}

/// The value of a run of ASCII decimal digits, most significant first.
pub open spec fn read_decimal(s: Seq<u8>) -> int
    decreases s.len(),
{
    if s.len() == 0 {
        0
    } else {
        read_decimal(s.drop_last()) * 10 + (s.last() - 48)
    }
}

/// Whether every byte is an ASCII decimal digit.
pub open spec fn all_digits(s: Seq<u8>) -> bool {
    forall|i: int| 0 <= i < s.len() ==> 48 <= #[trigger] s[i] <= 57
}

proof fn lemma_read_decimal(n: nat)
    ensures
        read_decimal(decimal(n)) == n,
        all_digits(decimal(n)),
    decreases n,
{
    if n >= 10 {
        lemma_read_decimal(n / 10);
        let d = decimal(n);
        assert(d.drop_last() =~= decimal(n / 10));
        assert(d.last() == (48 + n % 10) as u8);
        assert(((48 + n % 10) as u8) as int == 48 + n % 10);
        assert((n / 10) * 10 + n % 10 == n);
        assert(read_decimal(d) == read_decimal(d.drop_last()) * 10 + (d.last() - 48));
        assert forall|i: int| 0 <= i < d.len() implies 48 <= #[trigger] d[i] <= 57 by {
            if i < d.len() - 1 {
                assert(d[i] == decimal(n / 10)[i]);
            }
        }
    } else {
        let d = decimal(n);
        assert(d.drop_last() =~= Seq::<u8>::empty());
        assert(((48 + n) as u8) as int == 48 + n);
        assert(read_decimal(d) == read_decimal(d.drop_last()) * 10 + (d.last() - 48));
    }
}

proof fn lemma_read_decimal_zeros(k: nat, d: Seq<u8>)
    ensures
        read_decimal(Seq::new(k, |_i: int| 48u8) + d) == read_decimal(d),
    decreases d.len(), k,
{
    let z = Seq::new(k, |_i: int| 48u8);
    if d.len() == 0 {
        assert(z + d =~= z);
        if k > 0 {
            assert(z.drop_last() =~= Seq::new((k - 1) as nat, |_i: int| 48u8));
            lemma_read_decimal_zeros((k - 1) as nat, d);
            assert(Seq::new((k - 1) as nat, |_i: int| 48u8) + d =~= Seq::new((k - 1) as nat, |_i: int| 48u8));
        }
    } else {
        assert((z + d).drop_last() =~= z + d.drop_last());
        lemma_read_decimal_zeros(k, d.drop_last());
    }
}

/// `n` padded to `width` digits reads back as `n`, in exactly `width`
/// digits, when it has no more digits than that.
pub proof fn lemma_read_padded(n: nat, width: nat)
    requires
        width >= 1,
        n < pow10(width),
    ensures
        padded(n, width).len() == width,
        all_digits(padded(n, width)),
        read_decimal(padded(n, width)) == n,
{
    lemma_decimal_len_le(n, width);
    lemma_read_decimal(n);
    let d = decimal(n);
    if d.len() < width {
        let z = Seq::new((width - d.len()) as nat, |_i: int| 48u8);
        lemma_read_decimal_zeros((width - d.len()) as nat, d);
        let p = z + d;
        assert forall|i: int| 0 <= i < p.len() implies 48 <= #[trigger] p[i] <= 57 by {
            if i >= z.len() {
                assert(p[i] == d[i - z.len()]);
            }
        }
    }
}

/// The creation time string reads back as the date that the day count
/// falls on and the time of day: `YYYY-MM-DDTHH:MM:SSZ` with each field in
/// decimal, hours below 24 and minutes and seconds below 60, for years of
/// four digits.
pub proof fn lemma_timestamp_reads_back(secs: nat)
    requires
        spec_days_to_ymd(secs / 86400).0 < 10000,
    ensures
        ({
            let t = spec_format_unix_timestamp(secs);
            let (y, mo, d) = spec_days_to_ymd(secs / 86400);
            let h = read_decimal(t.subrange(11, 13));
            let mi = read_decimal(t.subrange(14, 16));
            let s = read_decimal(t.subrange(17, 19));
            &&& t.len() == 20
            &&& t[4] == 45 && t[7] == 45 && t[10] == 84 && t[13] == 58 && t[16] == 58 && t[19] == 90
            &&& all_digits(t.subrange(0, 4)) && all_digits(t.subrange(5, 7)) && all_digits(t.subrange(8, 10))
            &&& all_digits(t.subrange(11, 13)) && all_digits(t.subrange(14, 16)) && all_digits(
                t.subrange(17, 19),
            )
            &&& read_decimal(t.subrange(0, 4)) == y
            &&& read_decimal(t.subrange(5, 7)) == mo
            &&& read_decimal(t.subrange(8, 10)) == d
            &&& h < 24 && mi < 60 && s < 60
            &&& h * 3600 + mi * 60 + s == secs % 86400
        }),
{
    let days = secs / 86400;
    let (y, mo, d) = spec_days_to_ymd(days);
    let rem = secs % 86400;
    lemma_days_to_ymd_calendar(days);
    assert(month_length(spec_is_leap_year(y), mo) <= 31);
    reveal_with_fuel(pow10, 5);
    lemma_read_padded(y, 4);
    lemma_read_padded(mo, 2);
    lemma_read_padded(d, 2);
    lemma_read_padded(rem / 3600, 2);
    lemma_read_padded((rem % 3600) / 60, 2);
    lemma_read_padded(rem % 60, 2);
    let a = padded(y, 4);
    let b = padded(mo, 2);
    let c = padded(d, 2);
    let e = padded(rem / 3600, 2);
    let f = padded((rem % 3600) / 60, 2);
    let g = padded(rem % 60, 2);
    let t = a + seq![45u8] + b + seq![45u8] + c + seq![84u8] + e + seq![58u8] + f + seq![58u8] + g + seq![
        90u8,
    ];
    assert(t == spec_format_unix_timestamp(secs));
    assert(t.subrange(0, 4) =~= a);
    assert(t.subrange(5, 7) =~= b);
    assert(t.subrange(8, 10) =~= c);
    assert(t.subrange(11, 13) =~= e);
    assert(t.subrange(14, 16) =~= f);
    assert(t.subrange(17, 19) =~= g);
    assert(rem / 3600 * 3600 + (rem % 3600) / 60 * 60 + rem % 60 == rem);
}

/// Whether the creation time can be rendered: its year fits 32 bits.
pub open spec fn timestamp_renderable(secs: nat) -> bool {
    spec_days_to_ymd(secs / 86400).0 <= u32::MAX
}

fn digit_count(n: u64) -> (r: usize)
    ensures
        r == decimal(n as nat).len(),
        1 <= r <= 20,
    decreases n,
{
    if n < 10 {
        1
    } else {
        let c = digit_count(n / 10);
        proof {
            lemma_decimal_len_bound(n as nat);
        }
        c + 1
    }
}

proof fn lemma_decimal_len_bound(n: nat)
    requires
        n <= u64::MAX,
    ensures
        1 <= decimal(n).len() <= 20,
{
    reveal_with_fuel(pow10, 21);
    assert(pow10(20) == 100000000000000000000nat);
    lemma_decimal_len_le(n, 20);
    if n >= 10 {
    }
}

/// Fewer than 10^k means at most k digits.
proof fn lemma_decimal_len_le(n: nat, k: nat)
    requires
        k >= 1,
        n < pow10(k),
    ensures
        decimal(n).len() <= k,
    decreases n,
{
    if n >= 10 {
        assert(k >= 2) by {
            if k == 1 {
                assert(pow10(1) == 10 * pow10(0));
            }
        }
        assert(pow10(k) == 10 * pow10((k - 1) as nat));
        assert(n / 10 < pow10((k - 1) as nat));
        lemma_decimal_len_le(n / 10, (k - 1) as nat);
    }
}

/// Ten to the `k`.
pub open spec fn pow10(k: nat) -> nat
    decreases k,
{
    if k == 0 {
        1
    } else {
        10 * pow10((k - 1) as nat)
    }
}

fn push_decimal(out: &mut Vec<u8>, n: u64)
    ensures
        final(out)@ == old(out)@ + decimal(n as nat),
    decreases n,
{
    if n < 10 {
        out.push((48 + n) as u8);
        assert(out@ =~= old(out)@ + decimal(n as nat));
    } else {
        push_decimal(out, n / 10);
        out.push((48 + n % 10) as u8);
        assert(out@ =~= old(out)@ + decimal(n as nat));
    }
}

fn push_padded(out: &mut Vec<u8>, n: u64, width: usize)
    ensures
        final(out)@ == old(out)@ + padded(n as nat, width as nat),
{
    let count = digit_count(n);
    if count < width {
        let mut i: usize = count;
        while i < width
            invariant
                count <= i <= width,
                out@ == old(out)@ + Seq::new((i - count) as nat, |_i: int| 48u8),
            decreases width - i,
        {
            out.push(48u8);
            i = i + 1;
            assert(out@ =~= old(out)@ + Seq::new((i - count) as nat, |_i: int| 48u8));
        }
    }
    let ghost mid = out@;
    push_decimal(out, n);
    assert(out@ =~= old(out)@ + padded(n as nat, width as nat));
}

/// Renders a creation time as `YYYY-MM-DDTHH:MM:SSZ` (ASCII).
pub fn format_unix_timestamp(unix_secs: u64) -> (r: Vec<u8>)
    requires
        timestamp_renderable(unix_secs as nat),
    ensures
        r@ == spec_format_unix_timestamp(unix_secs as nat),
{
    let days_since_epoch = unix_secs / 86400;
    let remaining_secs = unix_secs % 86400;
    let hours = remaining_secs / 3600;
    let minutes = (remaining_secs % 3600) / 60;
    let seconds = remaining_secs % 60;
    let (year, month, day) = days_to_ymd(days_since_epoch);
    let mut out: Vec<u8> = Vec::new();
    push_padded(&mut out, year as u64, 4);
    out.push(45u8);
    push_padded(&mut out, month as u64, 2);
    out.push(45u8);
    push_padded(&mut out, day as u64, 2);
    out.push(84u8);
    push_padded(&mut out, hours, 2);
    out.push(58u8);
    push_padded(&mut out, minutes, 2);
    out.push(58u8);
    push_padded(&mut out, seconds, 2);
    out.push(90u8);
    assert(out@ =~= spec_format_unix_timestamp(unix_secs as nat));
    out
}

/// The UTF-8 bytes of the title, when there is one.
pub open spec fn title_bytes(m: Metadata) -> Option<Seq<u8>> {
    match m.title {
        Some(t) => Some(vstd::utf8::encode_utf8(t@)),
        None => None,
    }
}

/// An `ilst` item: a box of the item's type holding a `data` box with type
/// indicator 1 (UTF-8), locale 0 and the value.
pub open spec fn spec_ilst_item(atom: u32, value: Seq<u8>) -> Seq<u8> {
    spec_box(atom, spec_box(DATA, seq![0u8, 0u8, 0u8, 1u8] + seq![0u8, 0u8, 0u8, 0u8] + value))
}

/// Writes an `ilst` item holding a UTF-8 `data` box with the value.
pub fn build_ilst_string_item(atom: u32, value: &[u8]) -> (r: Vec<u8>)
    ensures
        r@ == spec_ilst_item(atom, value@),
{
    let mut p: Vec<u8> = Vec::new();
    p.push(0);
    p.push(0);
    p.push(0);
    p.push(1);
    p.push(0);
    p.push(0);
    p.push(0);
    p.push(0);
    push_bytes(&mut p, value);
    assert(p@ =~= seq![0u8, 0u8, 0u8, 1u8] + seq![0u8, 0u8, 0u8, 0u8] + value@);
    let data_box = build_box(DATA, p.as_slice());
    build_box(atom, data_box.as_slice())
}

/// The `hdlr` of a `meta` box: handler `mdir`, manufacturer `appl`, empty
/// name.
pub open spec fn spec_meta_hdlr() -> Seq<u8> {
    spec_box(
        HDLR,
        zeros(4) + seq![0u8, 0u8, 0u8, 0u8] + be32(MDIR) + be32(APPL) + seq![0u8, 0u8, 0u8, 0u8]
            + seq![0u8, 0u8, 0u8, 0u8] + seq![0u8],
    )
}

/// Writes the `mdir` handler box of the `meta` box.
pub fn build_meta_hdlr_box() -> (r: Vec<u8>)
    ensures
        r@ == spec_meta_hdlr(),
{
    let mut p: Vec<u8> = Vec::new();
    push_zeros(&mut p, 4);
    p.push(0);
    p.push(0);
    p.push(0);
    p.push(0);
    push_u32(&mut p, MDIR);
    push_u32(&mut p, APPL);
    p.push(0);
    p.push(0);
    p.push(0);
    p.push(0);
    p.push(0);
    p.push(0);
    p.push(0);
    p.push(0);
    p.push(0);
    assert(p@ =~= zeros(4) + seq![0u8, 0u8, 0u8, 0u8] + be32(MDIR) + be32(APPL) + seq![
        0u8,
        0u8,
        0u8,
        0u8,
    ] + seq![0u8, 0u8, 0u8, 0u8] + seq![0u8]);
    build_box(HDLR, p.as_slice())
}

/// The `ilst` payload: a title item, then a creation-date item.
pub open spec fn spec_ilst_payload(m: Metadata) -> Seq<u8> {
    (match title_bytes(m) {
        Some(t) => spec_ilst_item(NAME_ITEM, t),
        None => Seq::empty(),
    }) + (match m.creation_time {
        Some(ct) => spec_ilst_item(DAY_ITEM, spec_format_unix_timestamp(ct as nat)),
        None => Seq::empty(),
    })
}

/// Whether the metadata can be rendered (its creation year fits 32 bits).
pub open spec fn metadata_renderable(m: Metadata) -> bool {
    m.creation_time matches Some(ct) ==> timestamp_renderable(ct as nat)
}

/// `udta` holding a `meta` (full box) with its `hdlr` and the `ilst`; empty
/// when there is neither title nor creation time.
pub open spec fn spec_udta(m: Metadata) -> Seq<u8> {
    let ilst = spec_ilst_payload(m);
    if ilst.len() == 0 {
        Seq::empty()
    } else {
        spec_box(UDTA, spec_box(META, zeros(4) + spec_meta_hdlr() + spec_box(ILST, ilst)))
    }
}

/// Writes the `udta` box of the metadata (empty when there is nothing to
/// write).
pub fn build_udta_box(metadata: &Metadata) -> (r: Vec<u8>)
    requires
        metadata_renderable(*metadata),
    ensures
        r@ == spec_udta(*metadata),
{
    let mut ilst_payload: Vec<u8> = Vec::new();
    match &metadata.title {
        Some(title) => {
            let bytes = title.as_str().as_bytes();
            let mut item = build_ilst_string_item(NAME_ITEM, bytes);
            ilst_payload.append(&mut item);
        },
        None => {},
    }
    let ghost after_title = ilst_payload@;
    match metadata.creation_time {
        Some(creation_time) => {
            let date = format_unix_timestamp(creation_time);
            let mut item = build_ilst_string_item(DAY_ITEM, date.as_slice());
            ilst_payload.append(&mut item);
        },
        None => {},
    }
    assert(ilst_payload@ =~= spec_ilst_payload(*metadata));
    if ilst_payload.len() == 0 {
        return Vec::new();
    }
    let ilst_box = build_box(ILST, ilst_payload.as_slice());
    let mut hdlr_box = build_meta_hdlr_box();
    let mut meta_payload: Vec<u8> = Vec::new();
    push_zeros(&mut meta_payload, 4);
    meta_payload.append(&mut hdlr_box);
    push_bytes(&mut meta_payload, ilst_box.as_slice());
    let meta_box = build_box(META, meta_payload.as_slice());
    build_box(UDTA, meta_box.as_slice())
}

} // verus!
