//! Timecodes: parsing and formatting the SBV (`H:MM:SS.mmm`) and SRT
//! (`HH:MM:SS,mmm`) clock notations, splitting a time range, and the
//! hours/minutes/seconds/milliseconds editing view of a duration.

use vstd::prelude::*;
use crate::duration::{Duration, max_duration_nanos};
use crate::text::{
    all_ascii_digits, chars_of, decimal_spec, is_ascii_digit_spec, lemma_decimal_digits, lemma_parse_padded_decimal,
    lemma_split_once_at_char, parse_u64, parse_u64_spec, push_decimal, split_once,
    split_once_spec, string_from_chars, trim_chars, trim_spec, zero_pad,
};

verus! {

/// The time span of one subtitle line.
#[derive(Clone, Copy, Debug, PartialEq, Eq, Structural)]
pub struct TimecodeRange {
    pub start: Duration,
    pub end: Duration,
}

/// A duration split into clock fields, as the timecode editor shows it.
#[derive(Clone, Copy, Debug, PartialEq, Eq, Structural)]
pub struct TimecodeParts {
    pub hours: i64,
    pub minutes: i64,
    pub seconds: i64,
    pub millis: i64,
}

impl Default for TimecodeParts {
    fn default() -> (p: TimecodeParts)
        ensures
            p.hours == 0 && p.minutes == 0 && p.seconds == 0 && p.millis == 0,
    {
        TimecodeParts { hours: 0, minutes: 0, seconds: 0, millis: 0 }
    }
}

/// `u64::MAX` as a natural number.
pub open spec fn u64_max() -> nat {
    18446744073709551615nat
}

/// The milliseconds of the clock fields, saturated at `u64::MAX`
/// (the result of `saturating_mul` / `saturating_add` on `u64`).
pub open spec fn saturated_millis(h: nat, m: nat, s: nat, ms: nat) -> nat {
    let t = h * 3_600_000 + m * 60_000 + s * 1000 + ms;
    if t > u64_max() {
        u64_max()
    } else {
        t
    }
}

/// The milliseconds denoted by `raw` in the notation `H:M:S<frac>F`, where
/// each field is read as `u64::from_str` reads it, minutes and seconds are at
/// most 59 and the fraction at most 999; `None` for anything else.
pub open spec fn parse_clock_spec(raw: Seq<char>, frac: char) -> Option<nat> {
    match split_once_spec(raw, seq![':']) {
        None => None,
        Some((h, rest)) => match split_once_spec(rest, seq![':']) {
            None => None,
            Some((m, rest2)) => match split_once_spec(rest2, seq![frac]) {
                None => None,
                Some((s, f)) => match (
                    parse_u64_spec(h),
                    parse_u64_spec(m),
                    parse_u64_spec(s),
                    parse_u64_spec(f),
                ) {
                    (Some(hh), Some(mm), Some(ss), Some(ff)) => {
                        if mm > 59 || ss > 59 || ff > 999 {
                            None
                        } else {
                            Some(saturated_millis(hh as nat, mm as nat, ss as nat, ff as nat))
                        }
                    },
                    _ => None,
                },
            },
        },
    }
}

/// Whether `r` is the duration that `parse_clock_spec` gives, in milliseconds.
pub open spec fn parsed_as(r: Option<Duration>, millis: Option<nat>) -> bool {
    match millis {
        Some(ms) => r is Some && r->0@ == ms * 1_000_000,
        None => r is None,
    }
}

fn saturating_millis_exec(h: u64, m: u64, s: u64, ms: u64) -> (r: u64)
    requires
        m <= 59,
        s <= 59,
        ms <= 999,
    ensures
        r == saturated_millis(h as nat, m as nat, s as nat, ms as nat),
{
    let hm: u64 = match h.checked_mul(3_600_000) {
        Some(x) => x,
        None => u64::MAX,
    };
    hm.saturating_add(m * 60_000).saturating_add(s * 1_000).saturating_add(ms)
}

fn parse_clock(raw: &Vec<char>, frac: char) -> (r: Option<Duration>)
    ensures
        parsed_as(r, parse_clock_spec(raw@, frac)),
{
    let colon = vec![':'];
    let sep = vec![frac];
    proof {
        assert(colon@ =~= seq![':']);
        assert(sep@ =~= seq![frac]);
    }
    let (h, rest) = match split_once(raw, &colon) {
        Some(p) => p,
        None => return None,
    };
    let (m, rest2) = match split_once(&rest, &colon) {
        Some(p) => p,
        None => return None,
    };
    let (s, f) = match split_once(&rest2, &sep) {
        Some(p) => p,
        None => return None,
    };
    let hours = match parse_u64(&h) {
        Some(x) => x,
        None => return None,
    };
    let minutes = match parse_u64(&m) {
        Some(x) => x,
        None => return None,
    };
    let seconds = match parse_u64(&s) {
        Some(x) => x,
        None => return None,
    };
    let millis = match parse_u64(&f) {
        Some(x) => x,
        None => return None,
    };
    if minutes > 59 || seconds > 59 || millis > 999 {
        return None;
    }
    let total = saturating_millis_exec(hours, minutes, seconds, millis);
    Some(Duration::from_millis(total))
}

/// Reads an SBV timecode `H:MM:SS.mmm`.
pub fn parse_sbv_timecode(raw: &str) -> (r: Option<Duration>)
    ensures
        parsed_as(r, parse_clock_spec(raw@, '.')),
{
    parse_clock(&chars_of(raw), '.')
}

/// Reads an SRT timecode `HH:MM:SS,mmm`.
pub fn parse_srt_timecode(raw: &str) -> (r: Option<Duration>)
    ensures
        parsed_as(r, parse_clock_spec(raw@, ',')),
{
    parse_clock(&chars_of(raw), ',')
}

/// The whole milliseconds of `nanos`, reduced modulo 2^64 (the effect of
/// `as_millis() as u64`).
pub open spec fn wrapped_millis(nanos: nat) -> nat {
    (nanos / 1_000_000) % 0x1_0000_0000_0000_0000
}

/// The clock notation of `t` milliseconds: hours padded to `hour_width`
/// digits, two-digit minutes and seconds, then `frac` and three-digit
/// milliseconds.
pub open spec fn clock_text(t: nat, hour_width: nat, frac: char) -> Seq<char> {
    let hours = t / 3_600_000;
    let rem_h = t % 3_600_000;
    let minutes = rem_h / 60_000;
    let rem_m = rem_h % 60_000;
    let seconds = rem_m / 1_000;
    let millis = rem_m % 1_000;
    zero_pad(decimal_spec(hours), hour_width) + seq![':'] + zero_pad(decimal_spec(minutes), 2)
        + seq![':'] + zero_pad(decimal_spec(seconds), 2) + seq![frac] + zero_pad(
        decimal_spec(millis),
        3,
    )
}

fn wrapped_millis_exec(d: &Duration) -> (r: u64)
    ensures
        r == wrapped_millis(d@),
{
    let m = d.as_millis();
    (m % 0x1_0000_0000_0000_0000u128) as u64
}

fn clock_chars(t: u64, hour_width: usize, frac: char) -> (r: Vec<char>)
    ensures
        r@ == clock_text(t as nat, hour_width as nat, frac),
{
    let hours = t / 3_600_000;
    let rem_h = t % 3_600_000;
    let minutes = rem_h / 60_000;
    let rem_m = rem_h % 60_000;
    let seconds = rem_m / 1_000;
    let millis = rem_m % 1_000;
    let mut out: Vec<char> = Vec::new();
    push_decimal(&mut out, hours, hour_width);
    out.push(':');
    push_decimal(&mut out, minutes, 2);
    out.push(':');
    push_decimal(&mut out, seconds, 2);
    out.push(frac);
    push_decimal(&mut out, millis, 3);
    proof {
        assert(out@ =~= clock_text(t as nat, hour_width as nat, frac));
    }
    out
}

/// The SBV text of a duration, `H:MM:SS.mmm` (hours unpadded).
pub open spec fn sbv_timecode_text(d: nat) -> Seq<char> {
    clock_text(wrapped_millis(d), 0, '.')
}

/// The SRT text of a duration, `HH:MM:SS,mmm`.
pub open spec fn srt_timecode_text(d: nat) -> Seq<char> {
    clock_text(wrapped_millis(d), 2, ',')
}

/// Writes a duration as an SBV timecode.
pub fn format_sbv_timecode(duration: Duration) -> (r: String)
    ensures
        r@ == sbv_timecode_text(duration@),
{
    let t = wrapped_millis_exec(&duration);
    string_from_chars(&clock_chars(t, 0, '.'))
}

/// Writes a duration as an SRT timecode.
pub fn format_srt_timecode(duration: Duration) -> (r: String)
    ensures
        r@ == srt_timecode_text(duration@),
{
    let t = wrapped_millis_exec(&duration);
    string_from_chars(&clock_chars(t, 2, ','))
}

/// The range `start<sep>end` where both sides, trimmed, are clock timecodes
/// with fraction separator `frac`.
pub open spec fn parse_range_spec(line: Seq<char>, sep: Seq<char>, frac: char) -> Option<(nat, nat)> {
    match split_once_spec(line, sep) {
        None => None,
        Some((a, b)) => match (
            parse_clock_spec(trim_spec(a), frac),
            parse_clock_spec(trim_spec(b), frac),
        ) {
            (Some(s), Some(e)) => Some((s, e)),
            _ => None,
        },
    }
}

/// Whether `r` is the range that `parse_range_spec` gives, in milliseconds.
pub open spec fn range_parsed_as(r: Option<TimecodeRange>, millis: Option<(nat, nat)>) -> bool {
    match millis {
        Some((s, e)) => r is Some && r->0.start@ == s * 1_000_000 && r->0.end@ == e * 1_000_000,
        None => r is None,
    }
}

fn parse_range(line: &Vec<char>, sep: &Vec<char>, frac: char) -> (r: Option<TimecodeRange>)
    requires
        sep.len() > 0,
    ensures
        range_parsed_as(r, parse_range_spec(line@, sep@, frac)),
{
    let (a, b) = match split_once(line, sep) {
        Some(p) => p,
        None => return None,
    };
    let start = match parse_clock(&trim_chars(&a), frac) {
        Some(d) => d,
        None => return None,
    };
    let end = match parse_clock(&trim_chars(&b), frac) {
        Some(d) => d,
        None => return None,
    };
    Some(TimecodeRange { start, end })
}

/// Reads an SBV time range line `start,end`.
pub fn parse_sbv_time_range(line: &str) -> (r: Option<TimecodeRange>)
    ensures
        range_parsed_as(r, parse_range_spec(line@, seq![','], '.')),
{
    let sep = vec![','];
    proof {
        assert(sep@ =~= seq![',']);
    }
    parse_range(&chars_of(line), &sep, '.')
}

/// Reads an SRT time range line `start --> end`.
pub fn parse_srt_time_range(line: &str) -> (r: Option<TimecodeRange>)
    ensures
        range_parsed_as(r, parse_range_spec(line@, seq!['-', '-', '>'], ',')),
{
    let sep = vec!['-', '-', '>'];
    proof {
        assert(sep@ =~= seq!['-', '-', '>']);
    }
    parse_range(&chars_of(line), &sep, ',')
}


/// The clock fields of a duration: whole hours (unbounded), minutes,
/// seconds and milliseconds of its wrapped millisecond count.
pub open spec fn parts_of_millis(t: nat) -> (int, int, int, int) {
    (
        (t / 3_600_000) as int,
        ((t % 3_600_000) / 60_000) as int,
        ((t % 3_600_000) % 60_000 / 1_000) as int,
        ((t % 3_600_000) % 60_000 % 1_000) as int,
    )
}

/// Splits a duration into clock fields for editing.
pub fn duration_to_parts(duration: Duration) -> (p: TimecodeParts)
    ensures
        (p.hours as int, p.minutes as int, p.seconds as int, p.millis as int) == parts_of_millis(
            wrapped_millis(duration@),
        ),
{
    let total = wrapped_millis_exec(&duration);
    let hours = (total / 3_600_000) as i64;
    let rem_after_hours = total % 3_600_000;
    let minutes = (rem_after_hours / 60_000) as i64;
    let rem_after_minutes = rem_after_hours % 60_000;
    let seconds = (rem_after_minutes / 1_000) as i64;
    let millis = (rem_after_minutes % 1_000) as i64;
    TimecodeParts { hours, minutes, seconds, millis }
}

/// `x` limited to `lo..=hi`.
pub open spec fn clamp_spec(x: int, lo: int, hi: int) -> int {
    if x < lo {
        lo
    } else if x > hi {
        hi
    } else {
        x
    }
}

/// The milliseconds that edited clock fields denote: negative hours count as
/// zero, minutes and seconds are clamped to `0..=59`, milliseconds to
/// `0..=999`, and the sum saturates at `u64::MAX`.
pub open spec fn parts_millis(p: TimecodeParts) -> nat {
    saturated_millis(
        clamp_spec(p.hours as int, 0, p.hours as int) as nat,
        clamp_spec(p.minutes as int, 0, 59) as nat,
        clamp_spec(p.seconds as int, 0, 59) as nat,
        clamp_spec(p.millis as int, 0, 999) as nat,
    )
}

fn clamp_i64(x: i64, lo: i64, hi: i64) -> (r: u64)
    requires
        0 <= lo <= hi,
    ensures
        r == clamp_spec(x as int, lo as int, hi as int),
{
    if x < lo {
        lo as u64
    } else if x > hi {
        hi as u64
    } else {
        x as u64
    }
}

/// Joins edited clock fields back into a duration.
pub fn parts_to_duration(parts: TimecodeParts) -> (d: Duration)
    ensures
        d@ == parts_millis(parts) * 1_000_000,
{
    let hours: u64 = if parts.hours < 0 {
        0
    } else {
        parts.hours as u64
    };
    let minutes = clamp_i64(parts.minutes, 0, 59);
    let seconds = clamp_i64(parts.seconds, 0, 59);
    let millis = clamp_i64(parts.millis, 0, 999);
    let total = saturating_millis_exec(hours, minutes, seconds, millis);
    Duration::from_millis(total)
}

/// The duration of `nanos` nanoseconds with the seconds capped at
/// `u64::MAX`, as built by `Duration::new(min(nanos / 10^9, u64::MAX), nanos % 10^9)`.
pub open spec fn capped_nanos(nanos: nat) -> nat {
    let secs = nanos / 1_000_000_000;
    let capped = if secs > u64_max() {
        u64_max()
    } else {
        secs
    };
    capped * 1_000_000_000 + nanos % 1_000_000_000
}

/// The duration of `nanos` nanoseconds, with the seconds capped at `u64::MAX`.
pub fn duration_from_nanos(nanos: u128) -> (d: Duration)
    ensures
        d@ == capped_nanos(nanos as nat),
{
    let secs_u128 = nanos / 1_000_000_000;
    let sub_nanos = (nanos % 1_000_000_000) as u32;
    let secs: u64 = if secs_u128 > u64::MAX as u128 {
        u64::MAX
    } else {
        secs_u128 as u64
    };
    Duration::new(secs, sub_nanos)
}

/// Where `split_timecode_range` cuts the range `start..end` (nanoseconds)
/// for texts of `left_len` and `right_len` characters: the share
/// `left_len / (left_len + right_len)` of the length (half of it when both
/// are zero; the product saturating at `u128::MAX`), added to `start`, and
/// limited to `end`.
pub open spec fn split_point_spec(start: nat, end: nat, left_len: nat, right_len: nat) -> nat {
    let total: nat = if end > start {
        (end - start) as nat
    } else {
        0
    };
    let units = left_len + right_len;
    let product = total * left_len;
    let saturated: nat = if product > u128::MAX {
        u128::MAX as nat
    } else {
        product
    };
    let left_nanos: nat = if units == 0 {
        total / 2
    } else {
        saturated / units
    };
    let left = capped_nanos(left_nanos);
    let sum = start + left;
    let point = if sum <= max_duration_nanos() {
        sum
    } else {
        end
    };
    if point > end {
        end
    } else {
        point
    }
}

/// The cut that `split_timecode_range` makes lies within the range.
pub proof fn lemma_split_point_within(start: nat, end: nat, left_len: nat, right_len: nat)
    requires
        start <= end <= max_duration_nanos(),
    ensures
        start <= split_point_spec(start, end, left_len, right_len) <= end,
{
    let t = (end - start) as nat;
    let u = left_len + right_len;
    let l = left_len;
    let prod = t * l;
    let sat: nat = if prod > u128::MAX {
        u128::MAX as nat
    } else {
        prod
    };
    let left_nanos: nat = if u == 0 {
        t / 2
    } else {
        sat / u
    };
    assert(left_nanos <= t) by {
        if u != 0 {
            assert(sat <= t * u) by (nonlinear_arith)
                requires
                    l <= u,
                    sat <= t * l,
            ;
            assert(sat / u <= t) by (nonlinear_arith)
                requires
                    sat <= t * u,
                    u > 0,
            ;
        }
    }
    assert(left_nanos / 1_000_000_000 <= u64_max()) by (nonlinear_arith)
        requires
            left_nanos <= t,
            t <= max_duration_nanos(),
    ;
    assert(capped_nanos(left_nanos) == left_nanos) by (nonlinear_arith)
        requires
            left_nanos / 1_000_000_000 <= u64_max(),
    ;
}

/// A split shares the range out in proportion to the two lengths: for a
/// range that does not end before it starts, the left part lasts
/// `(end - start) * left_len / (left_len + right_len)` nanoseconds (rounded
/// down), as long as that product fits in 128 bits.
pub proof fn law_split_point_proportional(start: nat, end: nat, left_len: nat, right_len: nat)
    requires
        start <= end <= max_duration_nanos(),
        left_len + right_len > 0,
        (end - start) * left_len <= u128::MAX,
    ensures
        split_point_spec(start, end, left_len, right_len) == start + ((end - start) * left_len) / ((
        left_len + right_len) as int),
        (split_point_spec(start, end, left_len, right_len) - start) * (left_len + right_len) <= (end
            - start) * left_len,
        (end - start) * left_len < (split_point_spec(start, end, left_len, right_len) - start + 1) * (
        left_len + right_len),
{
    let t = (end - start) as nat;
    let u = left_len + right_len;
    let l = left_len;
    let q = (t * l) / u;
    assert(q <= t) by (nonlinear_arith)
        requires
            l <= u,
            u > 0,
            q == (t * l) / u,
    ;
    assert(q / 1_000_000_000 <= u64_max()) by (nonlinear_arith)
        requires
            q <= t,
            t <= max_duration_nanos(),
    ;
    assert(capped_nanos(q) == q) by (nonlinear_arith)
        requires
            q / 1_000_000_000 <= u64_max(),
    ;
    assert(q * u <= t * l && t * l < (q + 1) * u) by (nonlinear_arith)
        requires
            u > 0,
            q == (t * l) / u,
    ;
}

/// Splits a time range in two, in proportion to the lengths of the two
/// halves of a split text.
pub fn split_timecode_range(range: &TimecodeRange, left_len: usize, right_len: usize) -> (r: (
    TimecodeRange,
    TimecodeRange,
))
    ensures
        r.0.start == range.start,
        r.1.end == range.end,
        r.0.end == r.1.start,
        r.0.end@ == split_point_spec(range.start@, range.end@, left_len as nat, right_len as nat),
        range.start@ <= range.end@ ==> range.start@ <= r.0.end@ <= range.end@,
{
    let total = if range.start.lt(&range.end) {
        range.end.sub(&range.start)
    } else {
        Duration::from_millis(0)
    };
    let left_units = left_len as u128;
    let right_units = right_len as u128;
    let total_units = left_units + right_units;
    let total_nanos = total.as_nanos();
    let left_nanos = if total_units == 0 {
        total_nanos / 2
    } else {
        let product = match total_nanos.checked_mul(left_units) {
            Some(p) => p,
            None => u128::MAX,
        };
        product / total_units
    };
    let left_duration = duration_from_nanos(left_nanos);
    let mut split_point = match range.start.checked_add(&left_duration) {
        Some(p) => p,
        None => range.end,
    };
    if range.end.lt(&split_point) {
        split_point = range.end;
    }
    let _end_nanos = range.end.as_nanos();
    proof {
        if range.start@ <= range.end@ {
            lemma_split_point_within(range.start@, range.end@, left_len as nat, right_len as nat);
        }
    }
    (
        TimecodeRange { start: range.start, end: split_point },
        TimecodeRange { start: split_point, end: range.end },
    )
}


proof fn lemma_no_separator(s: Seq<char>, c: char)
    requires
        all_ascii_digits(s),
        !is_ascii_digit_spec(c),
    ensures
        forall|i: int| 0 <= i < s.len() ==> s[i] != c,
{
    assert forall|i: int| 0 <= i < s.len() implies s[i] != c by {
        assert(is_ascii_digit_spec(s[i]));
    }
}

/// Reading back the clock text of `t` milliseconds gives `t` again.
pub proof fn lemma_clock_text_roundtrip(t: nat, hour_width: nat, frac: char)
    requires
        t <= u64_max(),
        frac == '.' || frac == ',',
    ensures
        parse_clock_spec(clock_text(t, hour_width, frac), frac) == Some(t),
{
    let hours = t / 3_600_000;
    let rem_h = t % 3_600_000;
    let minutes = rem_h / 60_000;
    let rem_m = rem_h % 60_000;
    let seconds = rem_m / 1_000;
    let millis = rem_m % 1_000;
    let h = zero_pad(decimal_spec(hours), hour_width);
    let m = zero_pad(decimal_spec(minutes), 2);
    let sec = zero_pad(decimal_spec(seconds), 2);
    let f = zero_pad(decimal_spec(millis), 3);
    lemma_parse_padded_decimal(hours, hour_width);
    lemma_parse_padded_decimal(minutes, 2);
    lemma_parse_padded_decimal(seconds, 2);
    lemma_parse_padded_decimal(millis, 3);
    lemma_no_separator(h, ':');
    lemma_no_separator(m, ':');
    lemma_no_separator(sec, frac);
    let rest2 = sec + seq![frac] + f;
    let rest1 = m + seq![':'] + rest2;
    assert(clock_text(t, hour_width, frac) =~= h + seq![':'] + rest1);
    lemma_split_once_at_char(h, ':', rest1);
    lemma_split_once_at_char(m, ':', rest2);
    lemma_split_once_at_char(sec, frac, f);
    assert(hours * 3_600_000 + minutes * 60_000 + seconds * 1000 + millis == t);
}

/// Clock text is digits separated by `':'` and `frac`, and starts and ends
/// with a digit.
pub proof fn lemma_clock_text_shape(t: nat, hour_width: nat, frac: char)
    ensures
        clock_text(t, hour_width, frac).len() > 0,
        is_ascii_digit_spec(clock_text(t, hour_width, frac)[0]),
        is_ascii_digit_spec(clock_text(t, hour_width, frac).last()),
        forall|i: int|
            0 <= i < clock_text(t, hour_width, frac).len() ==> is_ascii_digit_spec(
                #[trigger] clock_text(t, hour_width, frac)[i],
            ) || clock_text(t, hour_width, frac)[i] == ':' || clock_text(t, hour_width, frac)[i]
                == frac,
{
    let hours = t / 3_600_000;
    let rem_h = t % 3_600_000;
    let minutes = rem_h / 60_000;
    let rem_m = rem_h % 60_000;
    let seconds = rem_m / 1_000;
    let millis = rem_m % 1_000;
    let h = zero_pad(decimal_spec(hours), hour_width);
    let m = zero_pad(decimal_spec(minutes), 2);
    let sec = zero_pad(decimal_spec(seconds), 2);
    let f = zero_pad(decimal_spec(millis), 3);
    lemma_padded_digits(hours, hour_width);
    lemma_padded_digits(minutes, 2);
    lemma_padded_digits(seconds, 2);
    lemma_padded_digits(millis, 3);
    let s = clock_text(t, hour_width, frac);
    assert(s =~= h + seq![':'] + m + seq![':'] + sec + seq![frac] + f);
    assert(s[0] == h[0]);
    assert(s.last() == f.last());
    assert forall|i: int| 0 <= i < s.len() implies is_ascii_digit_spec(#[trigger] s[i]) || s[i] == ':' || s[i] == frac by {
        let a = h.len() as int;
        let b = a + 1 + m.len();
        let c = b + 1 + sec.len();
        if i < a {
            assert(s[i] == h[i]);
        } else if a < i < b {
            assert(s[i] == m[i - a - 1]);
        } else if b < i < c {
            assert(s[i] == sec[i - b - 1]);
        } else if i > c {
            assert(s[i] == f[i - c - 1]);
        }
    }
}

proof fn lemma_padded_digits(n: nat, width: nat)
    ensures
        all_ascii_digits(zero_pad(decimal_spec(n), width)),
        zero_pad(decimal_spec(n), width).len() >= 1,
{
    lemma_decimal_digits(n);
    let d = decimal_spec(n);
    let p = zero_pad(d, width);
    if d.len() < width {
        let z = (width - d.len()) as nat;
        assert forall|i: int| 0 <= i < p.len() implies is_ascii_digit_spec(#[trigger] p[i]) by {
            if i >= z {
                assert(p[i] == d[i - z]);
            }
        }
    }
}

proof fn lemma_whole_millis(d: nat)
    ensures
        d % 1_000_000 == 0 && d / 1_000_000 <= u64_max() ==> wrapped_millis(d) * 1_000_000 == d,
{
    if d % 1_000_000 == 0 && d / 1_000_000 <= u64_max() {
        let q = d / 1_000_000;
        assert(q % 0x1_0000_0000_0000_0000 == q);
        assert(q * 1_000_000 == d) by (nonlinear_arith)
            requires
                d % 1_000_000 == 0,
                q == d / 1_000_000,
        ;
    }
}

/// An SBV timecode written by `format_sbv_timecode` reads back, with
/// `parse_sbv_timecode`, as the same whole number of milliseconds; a duration
/// of whole milliseconds below 2^64 ms reads back unchanged.
pub proof fn law_sbv_timecode_roundtrip(d: nat)
    ensures
        parse_clock_spec(sbv_timecode_text(d), '.') == Some(wrapped_millis(d)),
        d % 1_000_000 == 0 && d / 1_000_000 <= u64_max() ==> wrapped_millis(d) * 1_000_000 == d,
{
    lemma_clock_text_roundtrip(wrapped_millis(d), 0, '.');
    lemma_whole_millis(d);
}

/// An SRT timecode written by `format_srt_timecode` reads back, with
/// `parse_srt_timecode`, as the same whole number of milliseconds; a duration
/// of whole milliseconds below 2^64 ms reads back unchanged.
pub proof fn law_srt_timecode_roundtrip(d: nat)
    ensures
        parse_clock_spec(srt_timecode_text(d), ',') == Some(wrapped_millis(d)),
        d % 1_000_000 == 0 && d / 1_000_000 <= u64_max() ==> wrapped_millis(d) * 1_000_000 == d,
{
    lemma_clock_text_roundtrip(wrapped_millis(d), 2, ',');
    lemma_whole_millis(d);
}

/// Editing fields and joining them back loses nothing but sub-millisecond
/// precision: `parts_to_duration(duration_to_parts(d))` has the wrapped
/// milliseconds of `d`.
pub proof fn law_parts_roundtrip(d: nat, p: TimecodeParts)
    requires
        (p.hours as int, p.minutes as int, p.seconds as int, p.millis as int) == parts_of_millis(
            wrapped_millis(d),
        ),
    ensures
        parts_millis(p) == wrapped_millis(d),
{
    let t = wrapped_millis(d);
    assert((t / 3_600_000) * 3_600_000 + ((t % 3_600_000) / 60_000) * 60_000 + ((t % 3_600_000)
        % 60_000 / 1_000) * 1000 + (t % 3_600_000) % 60_000 % 1_000 == t);
}

} // verus!
