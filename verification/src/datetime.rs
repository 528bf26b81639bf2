//! Calendar arithmetic and the two date-time texts the protocol uses.
//!
//! A submission is stamped with Japan Standard Time, a fixed nine-hour
//! offset. The calendar parts are computed here from the epoch millisecond
//! count, and the formats are the slash-separated stamp that posts carry and
//! the dash-separated date that feeds the author id.
use vstd::prelude::*;

use crate::strutil::{append_u64_padded, chars_to_string, dec_rep, str_eq, zero_pad};

verus! {

/// The fixed offset of Japan Standard Time, in milliseconds.
pub open spec fn jst_offset_millis() -> int {
    32400000
}

/// Milliseconds per day.
pub open spec fn millis_per_day() -> int {
    86400000
}

/// The JST clock value for an epoch millisecond count.
pub open spec fn jst_millis(epoch_millis: int) -> int {
    epoch_millis + jst_offset_millis()
}

/// The JST calendar day number (days since the epoch day) of an instant.
pub open spec fn jst_day_number(epoch_millis: int) -> int {
    jst_millis(epoch_millis) / millis_per_day()
}

/// A leap year of the Gregorian calendar.
pub open spec fn is_leap_year(y: int) -> bool {
    y % 4 == 0 && (y % 100 != 0 || y % 400 == 0)
}

/// Days in a year.
pub open spec fn days_in_year(y: int) -> int {
    if is_leap_year(y) {
        366
    } else {
        365
    }
}

/// Days in a month, `m` counted from one.
pub open spec fn days_in_month(y: int, m: int) -> int {
    if m == 2 {
        if is_leap_year(y) {
            29
        } else {
            28
        }
    } else if m == 4 || m == 6 || m == 9 || m == 11 {
        30
    } else {
        31
    }
}

/// Peel whole years off a day count, starting at year `y`: the year the
/// count falls in and the days left within it.
pub open spec fn civil_year(y: int, rem: int) -> (int, int)
    decreases rem,
{
    if rem < days_in_year(y) || rem < 0 {
        (y, rem)
    } else {
        civil_year(y + 1, rem - days_in_year(y))
    }
}

/// Peel whole months off the days left within year `y`, starting at month
/// `m`: the month the count falls in and the days left within it.
pub open spec fn civil_month(y: int, m: int, rem: int) -> (int, int)
    decreases 12 - m,
{
    if m >= 12 || rem < days_in_month(y, m) {
        (m, rem)
    } else {
        civil_month(y, m + 1, rem - days_in_month(y, m))
    }
}

/// The calendar date (year, month, day) of an epoch day number.
pub open spec fn civil_of_day(days: int) -> (int, int, int) {
    let (y, rem) = civil_year(1970, days);
    let (m, rem2) = civil_month(y, 1, rem);
    (y, m, rem2 + 1)
}

/// The weekday index of an epoch day number; zero is Sunday, and day zero of
/// the epoch was a Thursday.
pub open spec fn weekday_index(days: int) -> int {
    (days + 4) % 7
}

/// The three-letter English weekday name for an index.
pub open spec fn weekday_name(i: int) -> Seq<char> {
    if i == 0 {
        seq!['S', 'u', 'n']
    } else if i == 1 {
        seq!['M', 'o', 'n']
    } else if i == 2 {
        seq!['T', 'u', 'e']
    } else if i == 3 {
        seq!['W', 'e', 'd']
    } else if i == 4 {
        seq!['T', 'h', 'u']
    } else if i == 5 {
        seq!['F', 'r', 'i']
    } else {
        seq!['S', 'a', 't']
    }
}

/// The Japanese weekday character for an index, in the same order.
pub open spec fn weekday_ja(i: int) -> Seq<char> {
    if i == 0 {
        seq!['\u{65e5}']
    } else if i == 1 {
        seq!['\u{6708}']
    } else if i == 2 {
        seq!['\u{706b}']
    } else if i == 3 {
        seq!['\u{6c34}']
    } else if i == 4 {
        seq!['\u{6728}']
    } else if i == 5 {
        seq!['\u{91d1}']
    } else {
        seq!['\u{571f}']
    }
}

fn days_in_year_exec(y: u64) -> (r: u64)
    ensures
        r == days_in_year(y as int),
{
    if y % 4 == 0 && (y % 100 != 0 || y % 400 == 0) {
        366
    } else {
        365
    }
}

fn days_in_month_exec(y: u64, m: u64) -> (r: u64)
    ensures
        r == days_in_month(y as int, m as int),
{
    if m == 2 {
        if y % 4 == 0 && (y % 100 != 0 || y % 400 == 0) {
            29
        } else {
            28
        }
    } else if m == 4 || m == 6 || m == 9 || m == 11 {
        30
    } else {
        31
    }
}

/// The calendar date of an epoch day number.
pub fn civil_from_day_number(days: u64) -> (r: (u64, u64, u64))
    requires
        days <= 0xFFFF_FFFF_FFFF,
    ensures
        (r.0 as int, r.1 as int, r.2 as int) == civil_of_day(days as int),
{
    let mut y: u64 = 1970;
    let mut rem: u64 = days;
    while rem >= days_in_year_exec(y)
        invariant
            days <= 0xFFFF_FFFF_FFFF,
            civil_year(1970, days as int) == civil_year(y as int, rem as int),
            rem <= days,
            y <= 1970 + (days - rem),
        decreases rem,
    {
        let diy = days_in_year_exec(y);
        rem = rem - diy;
        y = y + 1;
    }
    let mut m: u64 = 1;
    while m < 12 && rem >= days_in_month_exec(y, m)
        invariant
            1 <= m <= 12,
            rem <= days,
            civil_month(y as int, 1, civil_year(1970, days as int).1) == civil_month(
                y as int,
                m as int,
                rem as int,
            ),
        decreases 12 - m,
    {
        let dim = days_in_month_exec(y, m);
        rem = rem - dim;
        m = m + 1;
    }
    (y, m, rem + 1)
}

/// The dash-separated calendar date of an epoch day number.
pub open spec fn date_string_of_day(days: int) -> Seq<char> {
    let (y, m, d) = civil_of_day(days);
    zero_pad(dec_rep(y), 4) + seq!['-'] + zero_pad(dec_rep(m), 2) + seq!['-'] + zero_pad(
        dec_rep(d),
        2,
    )
}

/// The JST calendar date of an instant, as `YYYY-MM-DD`.
pub fn jst_date_string(epoch_millis: u64) -> (r: String)
    requires
        epoch_millis + 32400000 <= u64::MAX,
    ensures
        r@ == date_string_of_day(jst_day_number(epoch_millis as int)),
{
    let jst = epoch_millis + 32400000;
    let days = jst / 86400000;
    let (y, m, d) = civil_from_day_number(days);
    let mut out: Vec<char> = Vec::new();
    append_u64_padded(&mut out, y, 4);
    out.push('-');
    append_u64_padded(&mut out, m, 2);
    out.push('-');
    append_u64_padded(&mut out, d, 2);
    proof {
        assert(out@ =~= date_string_of_day(jst_day_number(epoch_millis as int)));
    }
    chars_to_string(&out)
}

/// The slash-separated date-time stamp of an instant, with the weekday in
/// English or Japanese.
pub open spec fn date_time_string(epoch_millis: int, ja: bool) -> Seq<char> {
    let days = jst_day_number(epoch_millis);
    let (y, m, d) = civil_of_day(days);
    let ms_day = jst_millis(epoch_millis) % millis_per_day();
    let wd = if ja {
        weekday_ja(weekday_index(days))
    } else {
        weekday_name(weekday_index(days))
    };
    zero_pad(dec_rep(y), 4) + seq!['/'] + zero_pad(dec_rep(m), 2) + seq!['/'] + zero_pad(
        dec_rep(d),
        2,
    ) + seq!['('] + wd + seq![')', ' '] + zero_pad(dec_rep(ms_day / 3600000), 2) + seq![':']
        + zero_pad(dec_rep((ms_day / 60000) % 60), 2) + seq![':'] + zero_pad(
        dec_rep((ms_day / 1000) % 60),
        2,
    ) + seq!['.'] + zero_pad(dec_rep(ms_day % 1000), 3)
}

fn push_weekday(out: &mut Vec<char>, idx: u64, ja: bool)
    requires
        idx < 7,
    ensures
        final(out)@ == old(out)@ + (if ja {
            weekday_ja(idx as int)
        } else {
            weekday_name(idx as int)
        }),
{
    let ghost out0 = out@;
    if ja {
        if idx == 0 {
            out.push('\u{65e5}');
        } else if idx == 1 {
            out.push('\u{6708}');
        } else if idx == 2 {
            out.push('\u{706b}');
        } else if idx == 3 {
            out.push('\u{6c34}');
        } else if idx == 4 {
            out.push('\u{6728}');
        } else if idx == 5 {
            out.push('\u{91d1}');
        } else {
            out.push('\u{571f}');
        }
        proof {
            assert(out@ =~= out0 + weekday_ja(idx as int));
        }
    } else {
        if idx == 0 {
            out.push('S');
            out.push('u');
            out.push('n');
        } else if idx == 1 {
            out.push('M');
            out.push('o');
            out.push('n');
        } else if idx == 2 {
            out.push('T');
            out.push('u');
            out.push('e');
        } else if idx == 3 {
            out.push('W');
            out.push('e');
            out.push('d');
        } else if idx == 4 {
            out.push('T');
            out.push('h');
            out.push('u');
        } else if idx == 5 {
            out.push('F');
            out.push('r');
            out.push('i');
        } else {
            out.push('S');
            out.push('a');
            out.push('t');
        }
        proof {
            assert(out@ =~= out0 + weekday_name(idx as int));
        }
    }
}

/// The date-time stamp that posts carry, for the instant given in epoch
/// milliseconds; the weekday is written in Japanese when `is_ja` holds.
pub fn get_current_date_time_string(epoch_millis: u64, is_ja: bool) -> (r: String)
    requires
        epoch_millis + 32400000 <= u64::MAX,
    ensures
        r@ == date_time_string(epoch_millis as int, is_ja),
{
    let jst = epoch_millis + 32400000;
    let days = jst / 86400000;
    let ms_day = jst % 86400000;
    let (y, m, d) = civil_from_day_number(days);
    let wd_idx = (days + 4) % 7;
    let mut out: Vec<char> = Vec::new();
    append_u64_padded(&mut out, y, 4);
    out.push('/');
    append_u64_padded(&mut out, m, 2);
    out.push('/');
    append_u64_padded(&mut out, d, 2);
    out.push('(');
    push_weekday(&mut out, wd_idx, is_ja);
    out.push(')');
    out.push(' ');
    append_u64_padded(&mut out, ms_day / 3600000, 2);
    out.push(':');
    append_u64_padded(&mut out, (ms_day / 60000) % 60, 2);
    out.push(':');
    append_u64_padded(&mut out, (ms_day / 1000) % 60, 2);
    out.push('.');
    append_u64_padded(&mut out, ms_day % 1000, 3);
    proof {
        assert(out@ =~= date_time_string(epoch_millis as int, is_ja));
    }
    chars_to_string(&out)
}

/// What the weekday conversion yields: the Japanese character for each of
/// the seven English names, anything else unchanged.
pub open spec fn weekday_to_ja_spec(s: Seq<char>) -> Seq<char> {
    if s == seq!['M', 'o', 'n'] {
        seq!['\u{6708}']
    } else if s == seq!['T', 'u', 'e'] {
        seq!['\u{706b}']
    } else if s == seq!['W', 'e', 'd'] {
        seq!['\u{6c34}']
    } else if s == seq!['T', 'h', 'u'] {
        seq!['\u{6728}']
    } else if s == seq!['F', 'r', 'i'] {
        seq!['\u{91d1}']
    } else if s == seq!['S', 'a', 't'] {
        seq!['\u{571f}']
    } else if s == seq!['S', 'u', 'n'] {
        seq!['\u{65e5}']
    } else {
        s
    }
}

/// Translate a three-letter English weekday name to its Japanese character;
/// any other text passes through unchanged.
pub fn convert_weekday_to_ja(weekday: &str) -> (r: &str)
    ensures
        r@ == weekday_to_ja_spec(weekday@),
{
    proof {
        reveal_strlit("Mon");
        reveal_strlit("Tue");
        reveal_strlit("Wed");
        reveal_strlit("Thu");
        reveal_strlit("Fri");
        reveal_strlit("Sat");
        reveal_strlit("Sun");
        reveal_strlit("\u{6708}");
        reveal_strlit("\u{706b}");
        reveal_strlit("\u{6c34}");
        reveal_strlit("\u{6728}");
        reveal_strlit("\u{91d1}");
        reveal_strlit("\u{571f}");
        reveal_strlit("\u{65e5}");
        assert(("Mon")@ =~= seq!['M', 'o', 'n']);
        assert(("Tue")@ =~= seq!['T', 'u', 'e']);
        assert(("Wed")@ =~= seq!['W', 'e', 'd']);
        assert(("Thu")@ =~= seq!['T', 'h', 'u']);
        assert(("Fri")@ =~= seq!['F', 'r', 'i']);
        assert(("Sat")@ =~= seq!['S', 'a', 't']);
        assert(("Sun")@ =~= seq!['S', 'u', 'n']);
        assert(("\u{6708}")@ =~= seq!['\u{6708}']);
        assert(("\u{706b}")@ =~= seq!['\u{706b}']);
        assert(("\u{6c34}")@ =~= seq!['\u{6c34}']);
        assert(("\u{6728}")@ =~= seq!['\u{6728}']);
        assert(("\u{91d1}")@ =~= seq!['\u{91d1}']);
        assert(("\u{571f}")@ =~= seq!['\u{571f}']);
    }
    if str_eq(weekday, "Mon") {
        "\u{6708}"
    } else if str_eq(weekday, "Tue") {
        "\u{706b}"
    } else if str_eq(weekday, "Wed") {
        "\u{6c34}"
    } else if str_eq(weekday, "Thu") {
        "\u{6728}"
    } else if str_eq(weekday, "Fri") {
        "\u{91d1}"
    } else if str_eq(weekday, "Sat") {
        "\u{571f}"
    } else if str_eq(weekday, "Sun") {
        "\u{65e5}"
    } else {
        weekday
    }
}

} // verus!
