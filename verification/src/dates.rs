//! Calendar dates. Instants are milliseconds since the Unix epoch; a date
//! string names midnight UTC of its day. Accepted forms are `YYYY-MM-DD`,
//! `YYYY/MM/DD` and `MM/DD/YYYY`, each optionally followed by a space and
//! `HH:MM:SS`.

use vstd::prelude::*;
use crate::errors::VaultError;

verus! {

pub open spec fn is_digit(c: char) -> bool {
    '0' <= c && c <= '9'
}

pub open spec fn digit_val(c: char) -> int {
    c as int - '0' as int
}

pub open spec fn all_digits(s: Seq<char>) -> bool {
    forall|i: int| 0 <= i < s.len() ==> is_digit(s[i])
}

/// The value of a digit string, most significant digit first.
pub open spec fn num_of(s: Seq<char>) -> int
    decreases s.len(),
{
    if s.len() == 0 {
        0
    } else {
        num_of(s.drop_last()) * 10 + digit_val(s.last())
    }
}

pub open spec fn is_leap(y: int) -> bool {
    y % 4 == 0 && (y % 100 != 0 || y % 400 == 0)
}

pub open spec fn days_in_year(y: int) -> int {
    if is_leap(y) {
        366
    } else {
        365
    }
}

pub open spec fn days_in_month(y: int, m: int) -> int {
    if m == 1 { 31 } else if m == 2 {
        if is_leap(y) { 29 } else { 28 }
    } else if m == 3 { 31 } else if m == 4 { 30 } else if m == 5 { 31 } else if m == 6 { 30 }
    else if m == 7 { 31 } else if m == 8 { 31 } else if m == 9 { 30 } else if m == 10 { 31 }
    else if m == 11 { 30 } else { 31 }
}

pub open spec fn valid_ymd(y: int, m: int, d: int) -> bool {
    0 <= y <= 9999 && 1 <= m <= 12 && 1 <= d <= days_in_month(y, m)
}

/// Days from the epoch to the start of year `y`: zero for 1970, negative
/// before it.
pub open spec fn days_before_year(y: int) -> int
    decreases (if y >= 1970 { y - 1970 } else { 1970 - y }),
{
    if y == 1970 {
        0
    } else if y > 1970 {
        days_before_year(y - 1) + days_in_year(y - 1)
    } else {
        days_before_year(y + 1) - days_in_year(y)
    }
}

/// Days from the start of the year to the start of month `m`.
pub open spec fn days_before_month(y: int, m: int) -> int
    decreases m,
{
    if m <= 1 {
        0
    } else {
        days_before_month(y, m - 1) + days_in_month(y, m - 1)
    }
}

/// Days from the epoch to the given calendar day.
pub open spec fn epoch_days(y: int, m: int, d: int) -> int {
    days_before_year(y) + days_before_month(y, m) + d - 1
}

/// Milliseconds from the epoch to the given moment.
pub open spec fn epoch_millis(y: int, m: int, d: int, hh: int, mm: int, ss: int) -> int {
    epoch_days(y, m, d) * 86400000 + hh * 3600000 + mm * 60000 + ss * 1000
}

pub open spec fn valid_hms(hh: int, mm: int, ss: int) -> bool {
    0 <= hh < 24 && 0 <= mm < 60 && 0 <= ss < 60
}

/// A four-digit, two-digit, two-digit date with the given separator.
pub open spec fn ymd_of(s: Seq<char>, sep: char) -> Option<(int, int, int)> {
    if s.len() == 10 && s[4] == sep && s[7] == sep && all_digits(s.subrange(0, 4)) && all_digits(
        s.subrange(5, 7),
    ) && all_digits(s.subrange(8, 10)) {
        Some((num_of(s.subrange(0, 4)), num_of(s.subrange(5, 7)), num_of(s.subrange(8, 10))))
    } else {
        None
    }
}

/// A two-digit, two-digit, four-digit date with the given separator.
pub open spec fn mdy_of(s: Seq<char>, sep: char) -> Option<(int, int, int)> {
    if s.len() == 10 && s[2] == sep && s[5] == sep && all_digits(s.subrange(0, 2)) && all_digits(
        s.subrange(3, 5),
    ) && all_digits(s.subrange(6, 10)) {
        Some((num_of(s.subrange(6, 10)), num_of(s.subrange(0, 2)), num_of(s.subrange(3, 5))))
    } else {
        None
    }
}

/// An `HH:MM:SS` clock reading.
pub open spec fn hms_of(s: Seq<char>) -> Option<(int, int, int)> {
    if s.len() == 8 && s[2] == ':' && s[5] == ':' && all_digits(s.subrange(0, 2)) && all_digits(
        s.subrange(3, 5),
    ) && all_digits(s.subrange(6, 8)) {
        Some((num_of(s.subrange(0, 2)), num_of(s.subrange(3, 5)), num_of(s.subrange(6, 8))))
    } else {
        None
    }
}

/// The calendar day named by the date part of `s`, under any accepted
/// format: year first with `-` or `/`, or month first with `/`.
pub open spec fn date_part_of(s: Seq<char>) -> Option<(int, int, int)> {
    if ymd_of(s, '-') is Some {
        ymd_of(s, '-')
    } else if ymd_of(s, '/') is Some {
        ymd_of(s, '/')
    } else {
        mdy_of(s, '/')
    }
}

/// The instant a full date string names: a date alone names midnight, a
/// date, a space and a clock reading name that moment. The calendar day
/// and the clock reading must both be valid.
pub open spec fn instant_of(s: Seq<char>) -> Option<int> {
    if s.len() == 10 {
        match date_part_of(s) {
            Some((y, m, d)) => if valid_ymd(y, m, d) {
                Some(epoch_millis(y, m, d, 0, 0, 0))
            } else {
                None
            },
            None => None,
        }
    } else if s.len() == 19 && s[10] == ' ' {
        match date_part_of(s.subrange(0, 10)) {
            Some((y, m, d)) => match hms_of(s.subrange(11, 19)) {
                Some((hh, mm, ss)) => if valid_ymd(y, m, d) && valid_hms(hh, mm, ss) {
                    Some(epoch_millis(y, m, d, hh, mm, ss))
                } else {
                    None
                },
                None => None,
            },
            None => None,
        }
    } else {
        None
    }
}

/// Ten to the `k`.
pub open spec fn p10(k: int) -> int
    decreases k,
{
    if k <= 0 {
        1
    } else {
        10 * p10(k - 1)
    }
}

proof fn lemma_p10_pos(k: int)
    ensures
        p10(k) >= 1,
    decreases k,
{
    if k > 0 {
        lemma_p10_pos(k - 1);
    }
}

proof fn lemma_p10_mono(a: int, b: int)
    requires
        a <= b,
    ensures
        p10(a) <= p10(b),
        p10(a) >= 1,
    decreases b,
{
    lemma_p10_pos(a);
    if a < b && b > 0 {
        lemma_p10_mono(a, b - 1);
        lemma_p10_pos(b - 1);
    }
}

/// A digit string of length `n` names a value below ten to the `n`.
proof fn lemma_num_of_bound(s: Seq<char>)
    requires
        all_digits(s),
    ensures
        0 <= num_of(s) < p10(s.len() as int),
    decreases s.len(),
{
    if s.len() > 0 {
        assert(all_digits(s.drop_last()));
        lemma_num_of_bound(s.drop_last());
    }
}

/// Read the fixed-width digit run `s[from..to]` as a number.
fn read_num(s: &str, from: usize, to: usize) -> (r: Option<u32>)
    requires
        from <= to <= s@.len(),
        to - from <= 6,
    ensures
        match r {
            Some(v) => all_digits(s@.subrange(from as int, to as int)) && v as int == num_of(
                s@.subrange(from as int, to as int),
            ) && (v as int) < p10(to - from),
            None => !all_digits(s@.subrange(from as int, to as int)),
        },
{
    let mut i = from;
    let mut acc: u32 = 0;
    while i < to
        invariant
            from <= i <= to <= s@.len(),
            to - from <= 6,
            all_digits(s@.subrange(from as int, i as int)),
            acc as int == num_of(s@.subrange(from as int, i as int)),
            (acc as int) < p10(i - from),
            acc < 1000000,
        decreases to - i,
    {
        let c = s.get_char(i);
        let cv = c as u32;
        proof {
            assert(p10(6) == 1000000) by {
                reveal_with_fuel(p10, 8);
            }
        }
        if cv < 48 || cv > 57 {
            proof {
                assert(s@.subrange(from as int, to as int)[i - from] == s@[i as int]);
            }
            return None;
        }
        proof {
            lemma_p10_mono(i + 1 - from, 6);
        }
        acc = acc * 10 + (cv - 48);
        proof {
            assert(s@.subrange(from as int, i + 1).drop_last() =~= s@.subrange(
                from as int,
                i as int,
            ));
            assert(s@.subrange(from as int, i + 1).last() == s@[i as int]);
        }
        i = i + 1;
    }
    proof {
        assert(s@.subrange(from as int, i as int) =~= s@.subrange(from as int, to as int));
    }
    Some(acc)
}

/// How many days the month has.
fn month_len(y: i64, m: i64) -> (r: i64)
    requires
        1 <= m <= 12,
    ensures
        r == days_in_month(y as int, m as int),
{
    if m == 1 { 31 } else if m == 2 {
        if (y % 4 == 0 && (y % 100 != 0 || y % 400 == 0)) { 29 } else { 28 }
    } else if m == 3 { 31 } else if m == 4 { 30 } else if m == 5 { 31 } else if m == 6 { 30 }
    else if m == 7 { 31 } else if m == 8 { 31 } else if m == 9 { 30 } else if m == 10 { 31 }
    else if m == 11 { 30 } else { 31 }
}

/// Days from the epoch to the start of year `y`, by summing the years.
fn days_to_year(y: i64) -> (r: i64)
    requires
        0 <= y <= 9999,
    ensures
        r == days_before_year(y as int),
        -730000 <= r <= 2940000,
{
    proof {
        lemma_days_before_year_bounds(y as int);
    }
    if y >= 1970 {
        let mut acc: i64 = 0;
        let mut yy: i64 = 1970;
        while yy < y
            invariant
                1970 <= yy <= y <= 9999,
                acc == days_before_year(yy as int),
                0 <= acc <= 2940000,
            decreases y - yy,
        {
            proof {
                lemma_days_before_year_bounds(yy + 1);
            }
            let leap: i64 = if (yy % 4 == 0 && (yy % 100 != 0 || yy % 400 == 0)) {
                366
            } else {
                365
            };
            acc = acc + leap;
            yy = yy + 1;
        }
        acc
    } else {
        let mut acc: i64 = 0;
        let mut yy: i64 = 1970;
        while yy > y
            invariant
                0 <= y <= yy <= 1970,
                acc == days_before_year(yy as int),
                -730000 <= acc <= 0,
            decreases yy,
        {
            proof {
                lemma_days_before_year_bounds(yy - 1);
            }
            let leap: i64 = if ((yy - 1) % 4 == 0 && ((yy - 1) % 100 != 0 || (yy - 1) % 400
                == 0)) {
                366
            } else {
                365
            };
            acc = acc - leap;
            yy = yy - 1;
        }
        acc
    }
}

/// The yearly day count stays within fixed bounds over the supported
/// range.
proof fn lemma_days_before_year_bounds(y: int)
    requires
        0 <= y <= 10000,
    ensures
        y >= 1970 ==> 0 <= days_before_year(y) <= (y - 1970) * 366,
        y < 1970 ==> (y - 1970) * 366 <= days_before_year(y) <= 0,
        -730000 <= days_before_year(y) <= 2940000,
    decreases (if y >= 1970 { y - 1970 } else { 1970 - y }),
{
    if y > 1970 {
        lemma_days_before_year_bounds(y - 1);
    } else if y < 1970 {
        lemma_days_before_year_bounds(y + 1);
    }
}

proof fn lemma_dbm_nonneg(y: int, m: int)
    requires
        1 <= m,
    ensures
        0 <= days_before_month(y, m),
    decreases m,
{
    if m > 1 {
        lemma_dbm_nonneg(y, m - 1);
    }
}

/// The month day-count grows with the month.
proof fn lemma_dbm_mono(y: int, m1: int, m2: int)
    requires
        1 <= m1 <= m2 <= 13,
    ensures
        0 <= days_before_month(y, m1) <= days_before_month(y, m2),
    decreases m2,
{
    lemma_dbm_nonneg(y, m1);
    if m1 < m2 {
        lemma_dbm_mono(y, m1, m2 - 1);
    }
}

/// Month day-counts within a year stay below a year's length.
proof fn lemma_days_before_month_bound(y: int, m: int)
    requires
        1 <= m <= 13,
    ensures
        0 <= days_before_month(y, m) <= 366,
{
    lemma_dbm_mono(y, m, 13);
    assert(days_before_month(y, 13) <= 366) by {
        reveal_with_fuel(days_before_month, 14);
    }
}

/// Days from the start of the year to the start of month `m`.
fn days_to_month(y: i64, m: i64) -> (r: i64)
    requires
        1 <= m <= 12,
    ensures
        r == days_before_month(y as int, m as int),
        0 <= r <= 366,
{
    let mut acc: i64 = 0;
    let mut mm: i64 = 1;
    while mm < m
        invariant
            1 <= mm <= m <= 12,
            acc == days_before_month(y as int, mm as int),
            0 <= acc <= 366,
        decreases m - mm,
    {
        proof {
            lemma_days_before_month_bound(y as int, mm + 1);
        }
        acc = acc + month_len(y, mm);
        mm = mm + 1;
    }
    acc
}

/// Parse a date string into milliseconds since the epoch. Exactly the
/// strings that `instant_of` accepts are parsed, to exactly that instant;
/// everything else is a validation error.
pub fn parse_date(date_str: &str) -> (r: Result<i64, VaultError>)
    ensures
        match r {
            Ok(t) => instant_of(date_str@) == Some(t as int),
            Err(e) => instant_of(date_str@) is None && e is Validation,
        },
{
    let n = date_str.unicode_len();
    if n != 10 && n != 19 {
        return Err(bad_date());
    }
    if n == 19 && date_str.get_char(10) != ' ' {
        return Err(bad_date());
    }
    let ghost dpart = if n == 10 { date_str@ } else { date_str@.subrange(0, 10) };
    proof {
        if n == 10 {
            assert(date_str@.subrange(0, 10) =~= date_str@);
        }
    }
    let c4 = date_str.get_char(4);
    let c7 = date_str.get_char(7);
    let c2 = date_str.get_char(2);
    let c5 = date_str.get_char(5);
    let ymd: (i64, i64, i64);
    if c4 == '-' && c7 == '-' {
        let y = read_num(date_str, 0, 4);
        let m = read_num(date_str, 5, 7);
        let d = read_num(date_str, 8, 10);
        match (y, m, d) {
            (Some(y), Some(m), Some(d)) => {
                ymd = (y as i64, m as i64, d as i64);
                proof {
                    assert(dpart.subrange(0, 4) =~= date_str@.subrange(0, 4));
                    assert(dpart.subrange(5, 7) =~= date_str@.subrange(5, 7));
                    assert(dpart.subrange(8, 10) =~= date_str@.subrange(8, 10));
                    assert(ymd_of(dpart, '-') == Some(
                        (ymd.0 as int, ymd.1 as int, ymd.2 as int),
                    ));
                }
            },
            _ => {
                proof {
                    assert(dpart.subrange(0, 4) =~= date_str@.subrange(0, 4));
                    assert(dpart.subrange(5, 7) =~= date_str@.subrange(5, 7));
                    assert(dpart.subrange(8, 10) =~= date_str@.subrange(8, 10));
                }
                return Err(bad_date());
            },
        }
    } else if c4 == '/' && c7 == '/' && c2 != '/' {
        let y = read_num(date_str, 0, 4);
        let m = read_num(date_str, 5, 7);
        let d = read_num(date_str, 8, 10);
        match (y, m, d) {
            (Some(y), Some(m), Some(d)) => {
                ymd = (y as i64, m as i64, d as i64);
                proof {
                    assert(dpart.subrange(0, 4) =~= date_str@.subrange(0, 4));
                    assert(dpart.subrange(5, 7) =~= date_str@.subrange(5, 7));
                    assert(dpart.subrange(8, 10) =~= date_str@.subrange(8, 10));
                    assert(ymd_of(dpart, '/') == Some(
                        (ymd.0 as int, ymd.1 as int, ymd.2 as int),
                    ));
                }
            },
            _ => {
                proof {
                    assert(dpart.subrange(0, 4) =~= date_str@.subrange(0, 4));
                    assert(dpart.subrange(5, 7) =~= date_str@.subrange(5, 7));
                    assert(dpart.subrange(8, 10) =~= date_str@.subrange(8, 10));
                }
                return Err(bad_date());
            },
        }
    } else if c2 == '/' && c5 == '/' {
        let m = read_num(date_str, 0, 2);
        let d = read_num(date_str, 3, 5);
        let y = read_num(date_str, 6, 10);
        match (y, m, d) {
            (Some(y), Some(m), Some(d)) => {
                ymd = (y as i64, m as i64, d as i64);
                proof {
                    assert(dpart.subrange(0, 2) =~= date_str@.subrange(0, 2));
                    assert(dpart.subrange(3, 5) =~= date_str@.subrange(3, 5));
                    assert(dpart.subrange(6, 10) =~= date_str@.subrange(6, 10));
                    assert(mdy_of(dpart, '/') == Some(
                        (ymd.0 as int, ymd.1 as int, ymd.2 as int),
                    ));
                    assert(ymd_of(dpart, '-') is None);
                    assert(ymd_of(dpart, '/') is None);
                }
            },
            _ => {
                proof {
                    assert(dpart.subrange(0, 2) =~= date_str@.subrange(0, 2));
                    assert(dpart.subrange(3, 5) =~= date_str@.subrange(3, 5));
                    assert(dpart.subrange(6, 10) =~= date_str@.subrange(6, 10));
                    assert(dpart.subrange(0, 4)[2] == dpart[2]);
                    assert(!all_digits(dpart.subrange(0, 4)));
                }
                return Err(bad_date());
            },
        }
        proof {
            assert(dpart.subrange(0, 4)[2] == dpart[2]);
            assert(!all_digits(dpart.subrange(0, 4)));
        }
    } else {
        proof {
            if dpart[4] == '/' && dpart[7] == '/' {
                assert(dpart.subrange(0, 4)[2] == dpart[2]);
                assert(!all_digits(dpart.subrange(0, 4)));
            }
        }
        return Err(bad_date());
    }
    let (y, m, d) = ymd;
    proof {
        assert(p10(4) == 10000 && p10(2) == 100) by {
            reveal_with_fuel(p10, 6);
        }
    }
    if !(m >= 1 && m <= 12) {
        return Err(bad_date());
    }
    if !(d >= 1 && d <= month_len(y, m)) {
        return Err(bad_date());
    }

    let mut hms: (i64, i64, i64) = (0, 0, 0);
    if n == 19 {
        let c13 = date_str.get_char(13);
        let c16 = date_str.get_char(16);
        if c13 != ':' || c16 != ':' {
            proof {
                assert(date_str@.subrange(11, 19)[2] == date_str@[13]);
                assert(date_str@.subrange(11, 19)[5] == date_str@[16]);
            }
            return Err(bad_date());
        }
        let hh = read_num(date_str, 11, 13);
        let mi = read_num(date_str, 14, 16);
        let ss = read_num(date_str, 17, 19);
        match (hh, mi, ss) {
            (Some(hh), Some(mi), Some(ss)) => {
                if hh >= 24 || mi >= 60 || ss >= 60 {
                    proof {
                        lemma_hms_view(date_str@);
                    }
                    return Err(bad_date());
                }
                hms = (hh as i64, mi as i64, ss as i64);
                proof {
                    lemma_hms_view(date_str@);
                }
            },
            _ => {
                proof {
                    lemma_hms_view(date_str@);
                }
                return Err(bad_date());
            },
        }
    }

    let days = days_to_year(y) + days_to_month(y, m) + d - 1;
    let t: i64 = days * 86400000 + hms.0 * 3600000 + hms.1 * 60000 + hms.2 * 1000;
    Ok(t)
}

/// The clock part of a nineteen-character date string sits at offsets 11
/// to 19.
proof fn lemma_hms_view(s: Seq<char>)
    requires
        s.len() == 19,
    ensures
        s.subrange(11, 19).subrange(0, 2) =~= s.subrange(11, 13),
        s.subrange(11, 19).subrange(3, 5) =~= s.subrange(14, 16),
        s.subrange(11, 19).subrange(6, 8) =~= s.subrange(17, 19),
        s.subrange(11, 19)[2] == s[13],
        s.subrange(11, 19)[5] == s[16],
{
}

/// The two fixed-width decimal digit groups of a date string.
pub open spec fn dec_fixed(v: int, n: nat) -> Seq<char>
    decreases n,
{
    if n == 0 {
        Seq::empty()
    } else {
        dec_fixed(v / 10, (n - 1) as nat).push(crate::ids::hex_digit(v % 10))
    }
}

/// Append the `n` lowest decimal digits of `v`, most significant first.
fn push_dec_fixed(out: &mut String, v: u64, n: usize)
    ensures
        final(out)@ == old(out)@ + dec_fixed(v as int, n as nat),
    decreases n,
{
    if n == 0 {
        proof {
            assert(out@ =~= old(out)@ + dec_fixed(v as int, 0));
        }
        return;
    }
    push_dec_fixed(out, v / 10, n - 1);
    let d = v % 10;
    let c: char = match d {
        0 => '0', 1 => '1', 2 => '2', 3 => '3', 4 => '4',
        5 => '5', 6 => '6', 7 => '7', 8 => '8', _ => '9',
    };
    proof {
        assert(c == crate::ids::hex_digit(v as int % 10));
    }
    crate::text::string_push(out, c);
    proof {
        assert(out@ =~= old(out)@ + dec_fixed(v as int, n as nat));
    }
}

/// The `YYYY-MM-DD` text of a calendar day.
pub open spec fn ymd_text(y: int, m: int, d: int) -> Seq<char> {
    dec_fixed(y, 4) + seq!['-'] + dec_fixed(m, 2) + seq!['-'] + dec_fixed(d, 2)
}

/// Render the day of an instant as `YYYY-MM-DD`. The instant must fall on
/// a representable day, between the years 0 and 9999.
pub fn format_date(ms: i64) -> (r: String)
    requires
        days_before_year(0) <= ms / 86400000 < days_before_year(10000),
    ensures
        exists|y: int, m: int, d: int|
            {
                &&& valid_ymd(y, m, d)
                &&& epoch_days(y, m, d) == ms / 86400000
                &&& r@ == ymd_text(y, m, d)
            },
{
    proof {
        lemma_days_before_year_bounds(0);
        lemma_days_before_year_bounds(10000);
    }
    let day: i64 = if ms >= 0 {
        ms / 86400000
    } else if ms % 86400000 == 0 {
        ms / 86400000
    } else {
        ms / 86400000 - 1
    };
    proof {
        assert(day == ms as int / 86400000) by {
            let q = ms as int / 86400000;
            let rr = ms as int % 86400000;
            vstd::arithmetic::div_mod::lemma_fundamental_div_mod(ms as int, 86400000);
            if ms >= 0 {
                vstd::arithmetic::div_mod::lemma_fundamental_div_mod_converse(
                    ms as int,
                    86400000,
                    q,
                    rr,
                );
            }
        }
    }
    let mut yy: i64 = 0;
    let mut acc: i64 = days_to_year(0);
    loop
        invariant
            0 <= yy <= 9999,
            acc == days_before_year(yy as int),
            -730000 <= acc <= 2940000,
            acc <= day,
            days_before_year(0) <= day < days_before_year(10000),
        ensures
            0 <= yy <= 9999,
            acc == days_before_year(yy as int),
            acc <= day,
            day < days_before_year(yy as int) + days_in_year(yy as int),
        decreases 9999 - yy,
    {
        let step: i64 = if (yy % 4 == 0 && (yy % 100 != 0 || yy % 400 == 0)) {
            366
        } else {
            365
        };
        proof {
            lemma_days_before_year_bounds(yy as int + 1);
        }
        if yy >= 9999 {
            proof {
                assert(days_before_year(10000) == days_before_year(9999) + days_in_year(9999));
            }
            break;
        }
        if acc + step > day {
            break;
        }
        acc = acc + step;
        yy = yy + 1;
    }
    let mut rem: i64 = day - acc;
    let mut mm: i64 = 1;
    proof {
        lemma_dbm_is_year(yy as int);
    }
    while rem >= month_len(yy, mm) && mm < 12
        invariant
            1 <= mm <= 12,
            rem == day - days_before_year(yy as int) - days_before_month(yy as int, mm as int),
            0 <= rem,
            day < days_before_year(yy as int) + days_in_year(yy as int),
            days_before_month(yy as int, 13) == days_in_year(yy as int),
            -730000 <= days_before_year(yy as int) <= 2940000,
            0 <= yy <= 9999,
        decreases 12 - mm,
    {
        proof {
            lemma_days_before_month_bound(yy as int, mm as int + 1);
        }
        rem = rem - month_len(yy, mm);
        mm = mm + 1;
    }
    proof {
        if mm == 12 && rem >= days_in_month(yy as int, 12) {
            lemma_dbm_is_year(yy as int);
            assert(day >= days_before_year(yy as int) + days_before_month(yy as int, 13));
            assert(false);
        }
        lemma_days_before_month_bound(yy as int, mm as int);
    }
    let dd: i64 = rem + 1;
    let mut out = String::new();
    push_dec_fixed(&mut out, yy as u64, 4);
    crate::text::string_push(&mut out, '-');
    push_dec_fixed(&mut out, mm as u64, 2);
    crate::text::string_push(&mut out, '-');
    push_dec_fixed(&mut out, dd as u64, 2);
    proof {
        assert(out@ =~= ymd_text(yy as int, mm as int, dd as int));
        assert(valid_ymd(yy as int, mm as int, dd as int));
        assert(epoch_days(yy as int, mm as int, dd as int) == day);
    }
    out
}

/// The twelve months sum to the year's length.
proof fn lemma_dbm_is_year(y: int)
    ensures
        days_before_month(y, 13) == days_in_year(y),
{
    assert(days_before_month(y, 13) == days_in_year(y)) by {
        reveal_with_fuel(days_before_month, 14);
    }
}

/// The instant a plain `YYYY-MM-DD` string names: midnight of that day.
/// Unlike `instant_of`, no alternate separators and no time of day are
/// accepted; this is the stricter grammar task due dates use.
pub open spec fn ymd_instant_of(s: Seq<char>) -> Option<int> {
    match ymd_of(s, '-') {
        Some((y, m, d)) => if valid_ymd(y, m, d) {
            Some(epoch_millis(y, m, d, 0, 0, 0))
        } else {
            None
        },
        None => None,
    }
}

/// Parse a `YYYY-MM-DD` date into milliseconds since the epoch. Exactly
/// the strings that `ymd_instant_of` accepts are parsed, to exactly that
/// instant; everything else is a validation error.
pub fn parse_ymd(date_str: &str) -> (r: Result<i64, VaultError>)
    ensures
        match r {
            Ok(t) => ymd_instant_of(date_str@) == Some(t as int),
            Err(e) => ymd_instant_of(date_str@) is None && e is Validation,
        },
{
    let n = date_str.unicode_len();
    if n != 10 {
        return Err(bad_ymd());
    }
    if date_str.get_char(4) != '-' || date_str.get_char(7) != '-' {
        return Err(bad_ymd());
    }
    let y = read_num(date_str, 0, 4);
    let m = read_num(date_str, 5, 7);
    let d = read_num(date_str, 8, 10);
    let (y, m, d): (i64, i64, i64) = match (y, m, d) {
        (Some(y), Some(m), Some(d)) => (y as i64, m as i64, d as i64),
        _ => {
            return Err(bad_ymd());
        },
    };
    proof {
        assert(p10(4) == 10000 && p10(2) == 100) by {
            reveal_with_fuel(p10, 6);
        }
    }
    if !(m >= 1 && m <= 12) {
        return Err(bad_ymd());
    }
    if !(d >= 1 && d <= month_len(y, m)) {
        return Err(bad_ymd());
    }
    let days = days_to_year(y) + days_to_month(y, m) + d - 1;
    Ok(days * 86400000)
}

fn bad_ymd() -> (e: VaultError)
    ensures
        e is Validation,
{
    VaultError::Validation { message: String::from_str("Invalid date format. Use YYYY-MM-DD") }
}

fn bad_date() -> (e: VaultError)
    ensures
        e is Validation,
{
    VaultError::Validation {
        message: String::from_str(
            "Unable to parse date. Expected formats: YYYY-MM-DD, YYYY/MM/DD, MM/DD/YYYY",
        ),
    }
}

} // verus!
