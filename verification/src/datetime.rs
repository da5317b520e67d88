//! Civil date-times, normalized to UTC.
//!
//! The store reports the two colliding time windows of an overlap violation
//! as text in the format `YYYY-MM-DD HH:MM:SS±HH` (a signed two-digit hour
//! offset, no colon). This module holds the date-time value itself, its
//! ordering, and the parsing and formatting of that format, including the
//! normalization of an offset time to UTC.
use vstd::arithmetic::div_mod::lemma_div_denominator;
use vstd::prelude::*;

verus! {

/// A civil date-time, already normalized to UTC.
///
/// Validity (`is_valid`) bounds the year to four decimal digits — the width
/// the store's diagnostic format carries — and requires a real calendar
/// date and a real time of day.
#[derive(Clone, Copy, Debug, PartialEq, Eq, Structural)]
pub struct DateTimeUtc {
    pub year: u32,
    pub month: u32,
    pub day: u32,
    pub hour: u32,
    pub minute: u32,
    pub second: u32,
}

/// A year has a 29-day February exactly in the Gregorian leap years.
pub open spec fn spec_is_leap_year(y: int) -> bool {
    y % 4 == 0 && (y % 100 != 0 || y % 400 == 0)
}

/// Number of days of month `m` of year `y` (months counted from 1).
pub open spec fn spec_days_in_month(y: int, m: int) -> int {
    if m == 2 {
        if spec_is_leap_year(y) {
            29
        } else {
            28
        }
    } else if m == 4 || m == 6 || m == 9 || m == 11 {
        30
    } else {
        31
    }
}

/// Executable month length.
pub fn days_in_month(y: u32, m: u32) -> (r: u32)
    ensures
        r == spec_days_in_month(y as int, m as int),
{
    if m == 2 {
        if y % 4 == 0 && (y % 100 != 0 || y % 400 == 0) {
            29
        } else {
            28
        }
    } else if m == 4 || m == 6 || m == 9 || m == 11 {
        30
    } else {
        31
    }
}

impl DateTimeUtc {
    /// A real calendar date and time of day, with a four-digit year.
    pub open spec fn is_valid(self) -> bool {
        &&& self.year <= 9999
        &&& 1 <= self.month <= 12
        &&& 1 <= self.day <= spec_days_in_month(self.year as int, self.month as int)
        &&& self.hour < 24
        &&& self.minute < 60
        &&& self.second < 60
    }

    /// Executable validity test.
    pub fn valid(&self) -> (r: bool)
        ensures
            r == self.is_valid(),
    {
        self.year <= 9999 && 1 <= self.month && self.month <= 12 && 1 <= self.day && self.day
            <= days_in_month(self.year, self.month) && self.hour < 24 && self.minute < 60
            && self.second < 60
    }

    /// The mixed-radix key that orders date-times chronologically: on valid
    /// values it is injective and its order is the lexicographic order of
    /// the fields.
    pub open spec fn key(self) -> int {
        ((((self.year * 13 + self.month) * 32 + self.day) * 24 + self.hour) * 60 + self.minute)
            * 60 + self.second
    }

    /// Executable strict comparison: `self` is earlier than `other`.
    pub fn lt(&self, other: &DateTimeUtc) -> (r: bool)
        ensures
            r == (self.key() < other.key()),
    {
        let a: u64 = self.key_u64();
        let b: u64 = other.key_u64();
        a < b
    }

    /// Executable order key (fits in `u64` for every field value).
    pub fn key_u64(&self) -> (r: u64)
        ensures
            r == self.key(),
    {
        ((((self.year as u64 * 13 + self.month as u64) * 32 + self.day as u64) * 24
            + self.hour as u64) * 60 + self.minute as u64) * 60 + self.second as u64
    }
}

// ---------------------------------------------------------------------------
// Decimal digits
// ---------------------------------------------------------------------------
/// A decimal digit character.
pub open spec fn is_digit(c: char) -> bool {
    '0' as u32 <= c as u32 && c as u32 <= '9' as u32
}

/// Numeric value of a decimal digit character.
pub open spec fn digit_val(c: char) -> int {
    c as u32 - '0' as u32
}

/// The character of a decimal digit value.
pub open spec fn digit_char(v: int) -> char {
    if v == 0 {
        '0'
    } else if v == 1 {
        '1'
    } else if v == 2 {
        '2'
    } else if v == 3 {
        '3'
    } else if v == 4 {
        '4'
    } else if v == 5 {
        '5'
    } else if v == 6 {
        '6'
    } else if v == 7 {
        '7'
    } else if v == 8 {
        '8'
    } else {
        '9'
    }
}

/// `digit_char` produces a digit and `digit_val` inverts it.
pub proof fn lemma_digit_char(v: int)
    requires
        0 <= v <= 9,
    ensures
        is_digit(digit_char(v)),
        digit_val(digit_char(v)) == v,
{
}

/// Executable digit test.
pub fn check_digit(c: char) -> (r: bool)
    ensures
        r == is_digit(c),
{
    let lo: u32 = '0' as u32;
    let hi: u32 = '9' as u32;
    let u: u32 = c as u32;
    lo <= u && u <= hi
}

/// Executable digit value.
pub fn digit_value(c: char) -> (r: u32)
    requires
        is_digit(c),
    ensures
        r == digit_val(c),
{
    c as u32 - '0' as u32
}

/// The two zero-padded decimal digits of `n`.
pub open spec fn digits2(n: int) -> Seq<char> {
    seq![digit_char(n / 10), digit_char(n % 10)]
}

/// The four zero-padded decimal digits of `n`.
pub open spec fn digits4(n: int) -> Seq<char> {
    seq![
        digit_char(n / 1000),
        digit_char((n / 100) % 10),
        digit_char((n / 10) % 10),
        digit_char(n % 10),
    ]
}

/// The decimal digit character for values below ten.
pub fn digit_str(v: u32) -> (r: &'static str)
    requires
        v < 10,
    ensures
        r@ == seq![digit_char(v as int)],
{
    proof {
        reveal_strlit("0");
        reveal_strlit("1");
        reveal_strlit("2");
        reveal_strlit("3");
        reveal_strlit("4");
        reveal_strlit("5");
        reveal_strlit("6");
        reveal_strlit("7");
        reveal_strlit("8");
        reveal_strlit("9");
    }
    let r = if v == 0 {
        "0"
    } else if v == 1 {
        "1"
    } else if v == 2 {
        "2"
    } else if v == 3 {
        "3"
    } else if v == 4 {
        "4"
    } else if v == 5 {
        "5"
    } else if v == 6 {
        "6"
    } else if v == 7 {
        "7"
    } else if v == 8 {
        "8"
    } else {
        "9"
    };
    proof {
        assert(r@ =~= seq![digit_char(v as int)]);
    }
    r
}

/// Appends the two zero-padded decimal digits of `n` to `out`.
pub fn push_digits2(out: &mut String, n: u32)
    requires
        n < 100,
    ensures
        final(out)@ == old(out)@ + digits2(n as int),
{
    out.append(digit_str(n / 10));
    out.append(digit_str(n % 10));
    proof {
        assert(final(out)@ =~= old(out)@ + digits2(n as int));
    }
}

/// Appends the four zero-padded decimal digits of `n` to `out`.
pub fn push_digits4(out: &mut String, n: u32)
    requires
        n < 10000,
    ensures
        final(out)@ == old(out)@ + digits4(n as int),
{
    out.append(digit_str(n / 1000));
    out.append(digit_str((n / 100) % 10));
    out.append(digit_str((n / 10) % 10));
    out.append(digit_str(n % 10));
    proof {
        assert(final(out)@ =~= old(out)@ + digits4(n as int));
    }
}

/// The decimal digits of a non-negative number, most significant first,
/// without leading zeros (a single `0` for zero).
pub open spec fn spec_dec_digits(n: int) -> Seq<char>
    decreases n,
{
    if n < 10 {
        seq![digit_char(n)]
    } else {
        spec_dec_digits(n / 10).push(digit_char(n % 10))
    }
}

/// The decimal rendering of a signed number.
pub open spec fn spec_i64_str(v: int) -> Seq<char> {
    if v < 0 {
        seq!['-'] + spec_dec_digits(-v)
    } else {
        spec_dec_digits(v)
    }
}

/// Appends the decimal digits of `n` to `out`.
pub fn push_dec_u64(out: &mut String, n: u64)
    ensures
        final(out)@ == old(out)@ + spec_dec_digits(n as int),
    decreases n,
{
    if n < 10 {
        out.append(digit_str(n as u32));
    } else {
        push_dec_u64(out, n / 10);
        out.append(digit_str((n % 10) as u32));
        proof {
            assert(final(out)@ =~= old(out)@ + spec_dec_digits(n as int));
        }
    }
}

/// Renders a signed number in decimal.
pub fn format_i64(v: i64) -> (r: String)
    ensures
        r@ == spec_i64_str(v as int),
{
    let mut out = String::new();
    if v < 0 {
        proof {
            reveal_strlit("-");
        }
        out.append("-");
        let m1: i64 = -(v + 1);
        let mag: u64 = (m1 as u64) + 1;
        proof {
            assert(mag == -(v as int));
        }
        push_dec_u64(&mut out, mag);
        proof {
            assert(out@ =~= spec_i64_str(v as int));
        }
    } else {
        push_dec_u64(&mut out, v as u64);
        proof {
            assert(out@ =~= spec_i64_str(v as int));
        }
    }
    out
}

// ---------------------------------------------------------------------------
// Formatting
// ---------------------------------------------------------------------------
/// The nineteen characters `YYYY-MM-DD HH:MM:SS` of a date-time.
pub open spec fn spec_format_civil(d: DateTimeUtc) -> Seq<char> {
    digits4(d.year as int) + seq!['-'] + digits2(d.month as int) + seq!['-'] + digits2(
        d.day as int,
    ) + seq![' '] + digits2(d.hour as int) + seq![':'] + digits2(d.minute as int) + seq![':']
        + digits2(d.second as int)
}

/// A UTC date-time in the store's diagnostic format: the civil part followed
/// by the zero offset `+00`.
pub open spec fn spec_format_datetime(d: DateTimeUtc) -> Seq<char> {
    spec_format_civil(d) + seq!['+', '0', '0']
}

/// A UTC date-time in display form: the civil part followed by ` UTC`.
pub open spec fn spec_display_utc(d: DateTimeUtc) -> Seq<char> {
    spec_format_civil(d) + seq![' ', 'U', 'T', 'C']
}

/// Appends `YYYY-MM-DD HH:MM:SS` to `out`.
fn push_civil(out: &mut String, d: &DateTimeUtc)
    requires
        d.is_valid(),
    ensures
        final(out)@ == old(out)@ + spec_format_civil(*d),
{
    proof {
        reveal_strlit("-");
        reveal_strlit(" ");
        reveal_strlit(":");
    }
    push_digits4(out, d.year);
    out.append("-");
    push_digits2(out, d.month);
    out.append("-");
    push_digits2(out, d.day);
    out.append(" ");
    push_digits2(out, d.hour);
    out.append(":");
    push_digits2(out, d.minute);
    out.append(":");
    push_digits2(out, d.second);
    proof {
        assert(final(out)@ =~= old(out)@ + spec_format_civil(*d));
    }
}

impl DateTimeUtc {
    /// Renders this date-time in the store's diagnostic format
    /// `YYYY-MM-DD HH:MM:SS+00`.
    pub fn format(&self) -> (r: String)
        requires
            self.is_valid(),
        ensures
            r@ == spec_format_datetime(*self),
    {
        proof {
            reveal_strlit("+00");
        }
        let mut out = String::new();
        push_civil(&mut out, self);
        out.append("+00");
        proof {
            assert(out@ =~= spec_format_datetime(*self));
        }
        out
    }

    /// Renders this date-time in display form `YYYY-MM-DD HH:MM:SS UTC`.
    pub fn to_text(&self) -> (r: String)
        requires
            self.is_valid(),
        ensures
            r@ == spec_display_utc(*self),
    {
        proof {
            reveal_strlit(" UTC");
        }
        let mut out = String::new();
        push_civil(&mut out, self);
        out.append(" UTC");
        proof {
            assert(out@ =~= spec_display_utc(*self));
        }
        out
    }
}

// ---------------------------------------------------------------------------
// Offset normalization
// ---------------------------------------------------------------------------
/// The calendar date before `(y, m, day)`, or `None` below year zero.
pub open spec fn spec_prev_date(y: int, m: int, day: int) -> Option<(int, int, int)> {
    if day > 1 {
        Some((y, m, day - 1))
    } else if m > 1 {
        Some((y, m - 1, spec_days_in_month(y, m - 1)))
    } else if y > 0 {
        Some((y - 1, 12, 31))
    } else {
        None
    }
}

/// The calendar date after `(y, m, day)`, or `None` past year 9999.
pub open spec fn spec_next_date(y: int, m: int, day: int) -> Option<(int, int, int)> {
    if day < spec_days_in_month(y, m) {
        Some((y, m, day + 1))
    } else if m < 12 {
        Some((y, m + 1, 1))
    } else if y < 9999 {
        Some((y + 1, 1, 1))
    } else {
        None
    }
}

/// Normalizes a civil time read with a `±hh` hour offset to UTC. A negative
/// offset means the civil time lies behind UTC, so the hours are added; a
/// positive offset means they are subtracted. `None` when the result would
/// leave the representable years.
pub open spec fn spec_apply_offset(d: DateTimeUtc, negative: bool, hh: int) -> Option<
    DateTimeUtc,
> {
    if negative {
        let h = d.hour + hh;
        if h < 24 {
            Some(
                DateTimeUtc {
                    year: d.year,
                    month: d.month,
                    day: d.day,
                    hour: h as u32,
                    minute: d.minute,
                    second: d.second,
                },
            )
        } else {
            match spec_next_date(d.year as int, d.month as int, d.day as int) {
                Some((y, m, day)) => Some(
                    DateTimeUtc {
                        year: y as u32,
                        month: m as u32,
                        day: day as u32,
                        hour: (h - 24) as u32,
                        minute: d.minute,
                        second: d.second,
                    },
                ),
                None => None,
            }
        }
    } else {
        let h = d.hour - hh;
        if h >= 0 {
            Some(
                DateTimeUtc {
                    year: d.year,
                    month: d.month,
                    day: d.day,
                    hour: h as u32,
                    minute: d.minute,
                    second: d.second,
                },
            )
        } else {
            match spec_prev_date(d.year as int, d.month as int, d.day as int) {
                Some((y, m, day)) => Some(
                    DateTimeUtc {
                        year: y as u32,
                        month: m as u32,
                        day: day as u32,
                        hour: (h + 24) as u32,
                        minute: d.minute,
                        second: d.second,
                    },
                ),
                None => None,
            }
        }
    }
}

/// Offset normalization keeps the result a real calendar date and time.
pub proof fn lemma_apply_offset_valid(d: DateTimeUtc, negative: bool, hh: int)
    requires
        d.is_valid(),
        0 <= hh <= 23,
    ensures
        spec_apply_offset(d, negative, hh) matches Some(r) ==> r.is_valid(),
{
}

/// Executable offset normalization.
pub fn apply_offset(d: &DateTimeUtc, negative: bool, hh: u32) -> (r: Option<DateTimeUtc>)
    requires
        d.is_valid(),
        hh <= 23,
    ensures
        r == spec_apply_offset(*d, negative, hh as int),
{
    if negative {
        let h = d.hour + hh;
        if h < 24 {
            Some(DateTimeUtc { hour: h, ..*d })
        } else {
            let dim = days_in_month(d.year, d.month);
            if d.day < dim {
                Some(DateTimeUtc { day: d.day + 1, hour: h - 24, ..*d })
            } else if d.month < 12 {
                Some(DateTimeUtc { month: d.month + 1, day: 1, hour: h - 24, ..*d })
            } else if d.year < 9999 {
                Some(DateTimeUtc { year: d.year + 1, month: 1, day: 1, hour: h - 24, ..*d })
            } else {
                None
            }
        }
    } else {
        if d.hour >= hh {
            Some(DateTimeUtc { hour: d.hour - hh, ..*d })
        } else {
            let h = d.hour + 24 - hh;
            if d.day > 1 {
                Some(DateTimeUtc { day: d.day - 1, hour: h, ..*d })
            } else if d.month > 1 {
                Some(
                    DateTimeUtc {
                        month: d.month - 1,
                        day: days_in_month(d.year, d.month - 1),
                        hour: h,
                        ..*d
                    },
                )
            } else if d.year > 0 {
                Some(DateTimeUtc { year: d.year - 1, month: 12, day: 31, hour: h, ..*d })
            } else {
                None
            }
        }
    }
}

// ---------------------------------------------------------------------------
// Parsing
// ---------------------------------------------------------------------------
/// Parses the store's diagnostic timestamp format
/// `YYYY-MM-DD HH:MM:SS±HH` — four-digit year, two digits elsewhere, a
/// twenty-four-hour clock, and a signed two-digit hour offset without a
/// colon — into a UTC date-time. `None` when the text has another shape,
/// names no real calendar date or time, or carries an offset above 23.
pub open spec fn spec_parse_datetime(s: Seq<char>) -> Option<DateTimeUtc> {
    if s.len() == 22 && is_digit(s[0]) && is_digit(s[1]) && is_digit(s[2]) && is_digit(s[3]) && s[4]
        == '-' && is_digit(s[5]) && is_digit(s[6]) && s[7] == '-' && is_digit(s[8]) && is_digit(
        s[9],
    ) && s[10] == ' ' && is_digit(s[11]) && is_digit(s[12]) && s[13] == ':' && is_digit(s[14])
        && is_digit(s[15]) && s[16] == ':' && is_digit(s[17]) && is_digit(s[18]) && (s[19] == '+'
        || s[19] == '-') && is_digit(s[20]) && is_digit(s[21]) {
        let civil = DateTimeUtc {
            year: (digit_val(s[0]) * 1000 + digit_val(s[1]) * 100 + digit_val(s[2]) * 10
                + digit_val(s[3])) as u32,
            month: (digit_val(s[5]) * 10 + digit_val(s[6])) as u32,
            day: (digit_val(s[8]) * 10 + digit_val(s[9])) as u32,
            hour: (digit_val(s[11]) * 10 + digit_val(s[12])) as u32,
            minute: (digit_val(s[14]) * 10 + digit_val(s[15])) as u32,
            second: (digit_val(s[17]) * 10 + digit_val(s[18])) as u32,
        };
        let hh = digit_val(s[20]) * 10 + digit_val(s[21]);
        if civil.is_valid() && hh <= 23 {
            spec_apply_offset(civil, s[19] == '-', hh)
        } else {
            None
        }
    } else {
        None
    }
}

/// A parsed date-time is always a real calendar date and time.
pub proof fn lemma_parse_datetime_valid(s: Seq<char>)
    ensures
        spec_parse_datetime(s) matches Some(r) ==> r.is_valid(),
{
    if spec_parse_datetime(s) is Some {
        let civil = DateTimeUtc {
            year: (digit_val(s[0]) * 1000 + digit_val(s[1]) * 100 + digit_val(s[2]) * 10
                + digit_val(s[3])) as u32,
            month: (digit_val(s[5]) * 10 + digit_val(s[6])) as u32,
            day: (digit_val(s[8]) * 10 + digit_val(s[9])) as u32,
            hour: (digit_val(s[11]) * 10 + digit_val(s[12])) as u32,
            minute: (digit_val(s[14]) * 10 + digit_val(s[15])) as u32,
            second: (digit_val(s[17]) * 10 + digit_val(s[18])) as u32,
        };
        let hh = digit_val(s[20]) * 10 + digit_val(s[21]);
        lemma_apply_offset_valid(civil, s[19] == '-', hh);
    }
}

/// Reads a two-digit number at position `i` of `cv`.
fn read_two_digits(cv: &Vec<char>, i: usize) -> (r: Option<u32>)
    requires
        i + 2 <= cv@.len(),
    ensures
        match r {
            Some(v) => is_digit(cv@[i as int]) && is_digit(cv@[i + 1]) && v == digit_val(
                cv@[i as int],
            ) * 10 + digit_val(cv@[i + 1]) && v < 100,
            None => !(is_digit(cv@[i as int]) && is_digit(cv@[i + 1])),
        },
{
    let _n = cv.len();
    let c0 = cv[i];
    let c1 = cv[i + 1];
    if check_digit(c0) && check_digit(c1) {
        Some(digit_value(c0) * 10 + digit_value(c1))
    } else {
        None
    }
}

/// Executable parser for the range `[from, to)` of a character vector,
/// against the diagnostic timestamp format.
pub fn parse_datetime_range(cv: &Vec<char>, from: usize, to: usize) -> (r: Option<DateTimeUtc>)
    requires
        from <= to <= cv@.len(),
    ensures
        r == spec_parse_datetime(cv@.subrange(from as int, to as int)),
        r matches Some(d) ==> d.is_valid(),
{
    proof {
        lemma_parse_datetime_valid(cv@.subrange(from as int, to as int));
    }
    let ghost sub = cv@.subrange(from as int, to as int);
    if to - from != 22 {
        return None;
    }
    proof {
        assert forall|k: int| 0 <= k < 22 implies sub[k] == cv@[from + k] by {}
    }
    if cv[from + 4] != '-' || cv[from + 7] != '-' || cv[from + 10] != ' ' || cv[from + 13] != ':'
        || cv[from + 16] != ':' {
        return None;
    }
    let sign = cv[from + 19];
    if sign != '+' && sign != '-' {
        return None;
    }
    let y_hi = match read_two_digits(cv, from) {
        Some(v) => v,
        None => { return None; },
    };
    let y_lo = match read_two_digits(cv, from + 2) {
        Some(v) => v,
        None => { return None; },
    };
    let month = match read_two_digits(cv, from + 5) {
        Some(v) => v,
        None => { return None; },
    };
    let day = match read_two_digits(cv, from + 8) {
        Some(v) => v,
        None => { return None; },
    };
    let hour = match read_two_digits(cv, from + 11) {
        Some(v) => v,
        None => { return None; },
    };
    let minute = match read_two_digits(cv, from + 14) {
        Some(v) => v,
        None => { return None; },
    };
    let second = match read_two_digits(cv, from + 17) {
        Some(v) => v,
        None => { return None; },
    };
    let hh = match read_two_digits(cv, from + 20) {
        Some(v) => v,
        None => { return None; },
    };
    let civil = DateTimeUtc { year: y_hi * 100 + y_lo, month, day, hour, minute, second };
    proof {
        assert(civil.year == digit_val(sub[0]) * 1000 + digit_val(sub[1]) * 100 + digit_val(sub[2])
            * 10 + digit_val(sub[3]));
    }
    if !civil.valid() || hh > 23 {
        return None;
    }
    apply_offset(&civil, sign == '-', hh)
}

/// Executable parser for the store's diagnostic timestamp format.
pub fn parse_datetime(s: &str) -> (r: Option<DateTimeUtc>)
    ensures
        r == spec_parse_datetime(s@),
        r matches Some(d) ==> d.is_valid(),
{
    let cv = crate::str_chars(s);
    let r = parse_datetime_range(&cv, 0, cv.len());
    proof {
        assert(cv@.subrange(0, cv@.len() as int) =~= s@);
    }
    r
}

/// Character inventory of the diagnostic timestamp format: every character
/// is a decimal digit or one of the four separators. In particular none is
/// a quote, comma, bracket or parenthesis, which the conflict grammar
/// around the timestamps relies on.
pub proof fn lemma_format_datetime_chars(d: DateTimeUtc)
    requires
        d.is_valid(),
    ensures
        spec_format_datetime(d).len() == 22,
        forall|i: int|
            0 <= i < spec_format_datetime(d).len() ==> (is_digit(#[trigger] spec_format_datetime(
                d,
            )[i]) || spec_format_datetime(d)[i] == '-' || spec_format_datetime(d)[i] == ' '
                || spec_format_datetime(d)[i] == ':' || spec_format_datetime(d)[i] == '+'),
{
    let s = spec_format_datetime(d);
    let y = d.year as int;
    let mo = d.month as int;
    let da = d.day as int;
    let ho = d.hour as int;
    let mi = d.minute as int;
    let se = d.second as int;
    assert(s =~= seq![
        digit_char(y / 1000),
        digit_char((y / 100) % 10),
        digit_char((y / 10) % 10),
        digit_char(y % 10),
        '-',
        digit_char(mo / 10),
        digit_char(mo % 10),
        '-',
        digit_char(da / 10),
        digit_char(da % 10),
        ' ',
        digit_char(ho / 10),
        digit_char(ho % 10),
        ':',
        digit_char(mi / 10),
        digit_char(mi % 10),
        ':',
        digit_char(se / 10),
        digit_char(se % 10),
        '+',
        '0',
        '0',
    ]);
    assert forall|v: int| 0 <= v <= 9 implies is_digit(#[trigger] digit_char(v)) by {
        lemma_digit_char(v);
    }
    assert(0 <= y / 1000 <= 9) by {
        assert(y <= 9999);
    }
}

/// Parsing inverts formatting: a valid UTC date-time rendered in the
/// diagnostic format parses back to itself.
pub proof fn lemma_datetime_round_trip(d: DateTimeUtc)
    requires
        d.is_valid(),
    ensures
        spec_parse_datetime(spec_format_datetime(d)) == Some(d),
{
    let s = spec_format_datetime(d);
    let y = d.year as int;
    let mo = d.month as int;
    let da = d.day as int;
    let ho = d.hour as int;
    let mi = d.minute as int;
    let se = d.second as int;
    assert(s =~= seq![
        digit_char(y / 1000),
        digit_char((y / 100) % 10),
        digit_char((y / 10) % 10),
        digit_char(y % 10),
        '-',
        digit_char(mo / 10),
        digit_char(mo % 10),
        '-',
        digit_char(da / 10),
        digit_char(da % 10),
        ' ',
        digit_char(ho / 10),
        digit_char(ho % 10),
        ':',
        digit_char(mi / 10),
        digit_char(mi % 10),
        ':',
        digit_char(se / 10),
        digit_char(se % 10),
        '+',
        '0',
        '0',
    ]);
    lemma_div_denominator(y, 10, 10);
    lemma_div_denominator(y, 100, 10);
    assert(y == y / 10 * 10 + y % 10);
    assert(y / 10 == (y / 10) / 10 * 10 + (y / 10) % 10);
    assert(y / 100 == (y / 100) / 10 * 10 + (y / 100) % 10);
    lemma_digit_char(y / 1000);
    lemma_digit_char((y / 100) % 10);
    lemma_digit_char((y / 10) % 10);
    lemma_digit_char(y % 10);
    lemma_digit_char(mo / 10);
    lemma_digit_char(mo % 10);
    lemma_digit_char(da / 10);
    lemma_digit_char(da % 10);
    lemma_digit_char(ho / 10);
    lemma_digit_char(ho % 10);
    lemma_digit_char(mi / 10);
    lemma_digit_char(mi % 10);
    lemma_digit_char(se / 10);
    lemma_digit_char(se % 10);
    lemma_digit_char(0);
    assert(digit_val(s[0]) * 1000 + digit_val(s[1]) * 100 + digit_val(s[2]) * 10 + digit_val(s[3])
        == y);
    assert(digit_val(s[5]) * 10 + digit_val(s[6]) == mo);
    assert(digit_val(s[8]) * 10 + digit_val(s[9]) == da);
    assert(digit_val(s[11]) * 10 + digit_val(s[12]) == ho);
    assert(digit_val(s[14]) * 10 + digit_val(s[15]) == mi);
    assert(digit_val(s[17]) * 10 + digit_val(s[18]) == se);
    assert(digit_val(s[20]) * 10 + digit_val(s[21]) == 0);
    let civil = DateTimeUtc {
        year: (digit_val(s[0]) * 1000 + digit_val(s[1]) * 100 + digit_val(s[2]) * 10 + digit_val(
            s[3],
        )) as u32,
        month: (digit_val(s[5]) * 10 + digit_val(s[6])) as u32,
        day: (digit_val(s[8]) * 10 + digit_val(s[9])) as u32,
        hour: (digit_val(s[11]) * 10 + digit_val(s[12])) as u32,
        minute: (digit_val(s[14]) * 10 + digit_val(s[15])) as u32,
        second: (digit_val(s[17]) * 10 + digit_val(s[18])) as u32,
    };
    assert(civil == d);
    assert(spec_apply_offset(d, false, 0) == Some(d));
}

} // verus!

