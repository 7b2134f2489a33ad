use subtitle_editor::duration::Duration;
use subtitle_editor::timecode::{
    duration_from_nanos, duration_to_parts, format_sbv_timecode, format_srt_timecode,
    parse_sbv_time_range, parse_sbv_timecode, parse_srt_time_range, parse_srt_timecode,
    parts_to_duration, split_timecode_range, TimecodeParts, TimecodeRange,
};

fn ms(n: u64) -> Duration {
    Duration::from_millis(n)
}

#[test]
fn parses_sbv_timecode() {
    assert_eq!(parse_sbv_timecode("0:00:01.500"), Some(ms(1_500)));
    assert_eq!(parse_sbv_timecode("1:02:03.004"), Some(ms(3_723_004)));
    assert_eq!(parse_sbv_timecode("12:00:00.000"), Some(ms(43_200_000)));
    assert_eq!(parse_sbv_timecode("+1:02:03.004"), Some(ms(3_723_004)));
}

#[test]
fn rejects_bad_sbv_timecodes() {
    assert_eq!(parse_sbv_timecode("0:60:00.000"), None);
    assert_eq!(parse_sbv_timecode("0:00:60.000"), None);
    assert_eq!(parse_sbv_timecode("0:00:00.1000"), None);
    assert_eq!(parse_sbv_timecode("0:00:00,500"), None);
    assert_eq!(parse_sbv_timecode("0:00.500"), None);
    assert_eq!(parse_sbv_timecode(" 0:00:01.500"), None);
    assert_eq!(parse_sbv_timecode("a:00:01.500"), None);
    assert_eq!(parse_sbv_timecode("-1:00:01.500"), None);
    assert_eq!(parse_sbv_timecode(""), None);
}

#[test]
fn parses_srt_timecode() {
    assert_eq!(parse_srt_timecode("00:00:01,500"), Some(ms(1_500)));
    assert_eq!(parse_srt_timecode("01:02:03,004"), Some(ms(3_723_004)));
    assert_eq!(parse_srt_timecode("01:02:03.004"), None);
}

#[test]
fn saturates_huge_hours() {
    assert_eq!(
        parse_sbv_timecode("18446744073709551615:00:00.000"),
        Some(ms(u64::MAX))
    );
    assert_eq!(parse_sbv_timecode("18446744073709551616:00:00.000"), None);
}

#[test]
fn formats_timecodes() {
    assert_eq!(format_sbv_timecode(ms(3_723_004)), "1:02:03.004");
    assert_eq!(format_srt_timecode(ms(3_723_004)), "01:02:03,004");
    assert_eq!(format_sbv_timecode(ms(0)), "0:00:00.000");
    assert_eq!(format_srt_timecode(ms(0)), "00:00:00,000");
    assert_eq!(format_srt_timecode(ms(360_000_000)), "100:00:00,000");
    assert_eq!(format_sbv_timecode(Duration::from_nanos_u128(1_999_999)), "0:00:00.001");
}

#[test]
fn timecode_round_trip() {
    for n in [0u64, 1, 999, 1_000, 59_999, 3_599_999, 3_600_000, 86_399_999, 123_456_789] {
        let d = ms(n);
        assert_eq!(parse_sbv_timecode(&format_sbv_timecode(d)), Some(d));
        assert_eq!(parse_srt_timecode(&format_srt_timecode(d)), Some(d));
    }
}

#[test]
fn parses_time_ranges() {
    let r = parse_sbv_time_range("0:00:01.000,0:00:02.500").unwrap();
    assert_eq!(r, TimecodeRange { start: ms(1_000), end: ms(2_500) });
    let r = parse_sbv_time_range(" 0:00:01.000 , 0:00:02.500 ").unwrap();
    assert_eq!(r.end, ms(2_500));
    let r = parse_srt_time_range("00:00:01,000 --> 00:00:02,500").unwrap();
    assert_eq!(r, TimecodeRange { start: ms(1_000), end: ms(2_500) });
    assert_eq!(parse_srt_time_range("00:00:01,000 -> 00:00:02,500"), None);
    assert_eq!(parse_sbv_time_range("0:00:01.000"), None);
}

#[test]
fn parts_split_and_join() {
    let p = duration_to_parts(ms(3_723_004));
    assert_eq!(p, TimecodeParts { hours: 1, minutes: 2, seconds: 3, millis: 4 });
    assert_eq!(parts_to_duration(p), ms(3_723_004));
    let clamped = parts_to_duration(TimecodeParts { hours: -5, minutes: 75, seconds: -3, millis: 5_000 });
    assert_eq!(clamped, ms(59 * 60_000 + 999));
    assert_eq!(TimecodeParts::default(), TimecodeParts { hours: 0, minutes: 0, seconds: 0, millis: 0 });
}

#[test]
fn parts_drop_sub_millisecond_precision() {
    let d = Duration::from_nanos_u128(3_723_004_999_999);
    assert_eq!(parts_to_duration(duration_to_parts(d)), ms(3_723_004));
}

#[test]
fn splits_range_by_text_length() {
    let range = TimecodeRange { start: ms(1_000), end: ms(5_000) };
    let (l, r) = split_timecode_range(&range, 1, 3);
    assert_eq!(l, TimecodeRange { start: ms(1_000), end: ms(2_000) });
    assert_eq!(r, TimecodeRange { start: ms(2_000), end: ms(5_000) });
    let (l, r) = split_timecode_range(&range, 0, 0);
    assert_eq!(l.end, ms(3_000));
    assert_eq!(r.start, ms(3_000));
}

#[test]
fn splits_reversed_range_at_start() {
    let range = TimecodeRange { start: ms(5_000), end: ms(1_000) };
    let (l, r) = split_timecode_range(&range, 2, 2);
    assert_eq!(l.start, ms(5_000));
    assert_eq!(l.end, ms(1_000));
    assert_eq!(r.start, ms(1_000));
    assert_eq!(r.end, ms(1_000));
}

#[test]
fn splits_with_sub_millisecond_cut() {
    let range = TimecodeRange { start: ms(0), end: ms(1) };
    let (l, _) = split_timecode_range(&range, 1, 2);
    assert_eq!(l.end.as_nanos(), 333_333);
}

#[test]
fn nanos_to_duration_caps_seconds() {
    assert_eq!(duration_from_nanos(1_500_000_000).as_nanos(), 1_500_000_000);
    let capped = duration_from_nanos(u128::MAX);
    assert_eq!(capped.as_secs(), u64::MAX);
    assert_eq!(capped.subsec_nanos() as u128, u128::MAX % 1_000_000_000);
}

#[test]
fn duration_arithmetic() {
    let a = ms(1_500);
    assert_eq!(a.as_millis(), 1_500);
    assert_eq!(a.as_secs(), 1);
    assert_eq!(a.subsec_nanos(), 500_000_000);
    assert_eq!(Duration::new(2, 5).as_nanos(), 2_000_000_005);
    assert_eq!(a.checked_add(&ms(500)), Some(ms(2_000)));
    let max = Duration::new(u64::MAX, 999_999_999);
    assert_eq!(max.checked_add(&Duration::new(0, 1)), None);
    assert!(a.lt(&ms(1_501)));
    assert!(a.le(&ms(1_500)));
    assert_eq!(ms(2_000).sub(&a), ms(500));
}
