use routefinder::reverse_rng::data_point::{DataPoint, Decimal};
use routefinder::reverse_rng::input::{parse_decimal, parse_input, parse_line, parse_u64, ParseError, ParseErrorKind};

fn dec(m: i64, s: u32) -> Decimal {
    Decimal::new(m, s)
}

#[test]
fn test_data_point_valid_range() {
    let (min_u32, max_u32) = DataPoint::calculate_observed_u32_range(dec(0, 0), dec(1, 0), dec(50, 2));
    let _dp = DataPoint { offset: 0, name: "test".to_string(), min_u32, max_u32 };
    assert!(min_u32 < max_u32);
    assert!(min_u32 < u32::MAX / 2);
    assert!(max_u32 > u32::MAX / 2);
}

#[test]
fn test_consistency_check() {
    let (min_u32, max_u32) = DataPoint::calculate_observed_u32_range(dec(0, 0), dec(10, 0), dec(500, 2));
    let dp = DataPoint { offset: 0, name: "test".to_string(), min_u32, max_u32 };
    let middle_value = u32::MAX / 2;
    assert!(dp.is_consistent_with(middle_value));
}

fn assert_adjacent(range_min: Decimal, range_max: Decimal, first: i64, last: i64) {
    for k in first..last {
        let (_, curr_max) = DataPoint::calculate_observed_u32_range(range_min, range_max, dec(k, 2));
        let (next_min, _) = DataPoint::calculate_observed_u32_range(range_min, range_max, dec(k + 1, 2));
        assert_eq!(curr_max as u64 + 1, next_min as u64, "hundredths {} and {}", k, k + 1);
    }
}

#[test]
fn test_complete_coverage_without_overlap() {
    assert_adjacent(dec(13, 1), dec(15, 1), 130, 150);
}

#[test]
fn test_real_ursa_data_coverage() {
    assert_adjacent(dec(13, 1), dec(15, 1), 130, 150);
    assert_adjacent(dec(16, 1), dec(18, 1), 160, 180);
    assert_adjacent(dec(11, 2), dec(2, 1), 11, 20);
    assert_adjacent(dec(14, 1), dec(16, 1), 140, 160);
    assert_adjacent(dec(13, 1), dec(14, 1), 130, 140);
    assert_adjacent(dec(15, 1), dec(18, 1), 150, 180);
}

#[test]
fn coverage_spans_the_whole_scale() {
    let (lo, _) = DataPoint::calculate_observed_u32_range(dec(13, 1), dec(15, 1), dec(130, 2));
    let (_, hi) = DataPoint::calculate_observed_u32_range(dec(13, 1), dec(15, 1), dec(150, 2));
    assert_eq!(lo, 0);
    assert_eq!(hi, u32::MAX);
}

#[test]
fn test_range_data_point_valid_range() {
    let (min_u32, max_u32) = DataPoint::calculate_range_u32_range(dec(100, 0), dec(25, 0), dec(75, 0));
    let _dp = DataPoint { offset: 0, name: "test_range".to_string(), min_u32, max_u32 };
    assert!(min_u32 < max_u32);
    assert!(min_u32 >= (u32::MAX as f64 * 0.25) as u32);
    assert!(max_u32 <= (u32::MAX as f64 * 0.75) as u32);
    assert_eq!((min_u32, max_u32), (1073741824, 3221225471));
}

#[test]
fn test_range_data_point_consistency() {
    let (min_u32, max_u32) = DataPoint::calculate_range_u32_range(dec(1, 0), dec(4, 1), dec(6, 1));
    let dp = DataPoint { offset: 0, name: "test_range".to_string(), min_u32, max_u32 };
    let middle_value = u32::MAX / 2;
    assert!(dp.is_consistent_with(middle_value));
    assert!(!dp.is_consistent_with(0));
    assert!(!dp.is_consistent_with(u32::MAX));
}

#[test]
fn exact_bounds_clamp_and_collapse() {
    // bounds past the ends of the range clamp to the ends
    assert_eq!(DataPoint::calculate_range_u32_range(dec(10, 0), dec(-5, 0), dec(20, 0)), (0, u32::MAX));
    // a window narrower than one raw unit collapses to the integer nearest its midpoint
    let total = dec(1_000_000_000_000_000_000, 0);
    let r = DataPoint::calculate_range_u32_range(total, dec(1, 0), dec(2, 0));
    assert_eq!(r, (0, 0));
    // midpoint about 0.687 raw units up: nearest is 1
    let r = DataPoint::calculate_range_u32_range(dec(1_000_000_000, 0), dec(16, 2), dec(160_000_001, 9));
    assert_eq!(r, (1, 1));
    // observed 0.12 on [0, 10^9]: midpoint about 0.515 raw units up
    let r = DataPoint::calculate_observed_u32_range(dec(0, 0), dec(1_000_000_000, 0), dec(12, 2));
    assert_eq!(r, (1, 1));
}

#[test]
fn observed_range_exact_values() {
    // 50.00 on [0, 100]: [ceil(U * 0.49995), floor(U * 0.50005)]
    let (lo, hi) = DataPoint::calculate_observed_u32_range(dec(0, 0), dec(100, 0), dec(5000, 2));
    assert_eq!(lo, 2147268900);
    assert_eq!(hi, 2147698395);
    // 0.00 on [0, 100] starts at raw 0
    let (lo, _) = DataPoint::calculate_observed_u32_range(dec(0, 0), dec(100, 0), dec(0, 0));
    assert_eq!(lo, 0);
}

#[test]
fn test_parse_range_format() {
    let text = "# Test file with range format\n/range test_chamber 0 100.0 25.0 75.0\nchamber2,5,0.0,1.0,0.5\n";
    let data_points = parse_input(text.as_bytes()).unwrap();
    assert_eq!(data_points.len(), 2);
    assert_eq!(data_points[0].name, "test_chamber");
    assert_eq!(data_points[0].offset, 0);
    assert_eq!(data_points[1].name, "chamber2");
    assert_eq!(data_points[1].offset, 5);
    assert_eq!(
        (data_points[0].min_u32, data_points[0].max_u32),
        DataPoint::calculate_range_u32_range(dec(100, 0), dec(25, 0), dec(75, 0))
    );
    assert_eq!(
        (data_points[1].min_u32, data_points[1].max_u32),
        DataPoint::calculate_observed_u32_range(dec(0, 0), dec(1, 0), dec(5, 1))
    );
}

#[test]
fn test_accessor_methods() {
    let (obs_min_u32, obs_max_u32) = DataPoint::calculate_observed_u32_range(dec(0, 0), dec(1, 0), dec(5, 1));
    let observed_dp = DataPoint { offset: 10, name: "observed_test".to_string(), min_u32: obs_min_u32, max_u32: obs_max_u32 };
    let (range_min_u32, range_max_u32) = DataPoint::calculate_range_u32_range(dec(100, 0), dec(25, 0), dec(75, 0));
    let range_dp = DataPoint { offset: 20, name: "range_test".to_string(), min_u32: range_min_u32, max_u32: range_max_u32 };
    assert_eq!(observed_dp.offset, 10);
    assert_eq!(observed_dp.name, "observed_test");
    assert_eq!(range_dp.offset, 20);
    assert_eq!(range_dp.name, "range_test");
}

fn err(text: &str) -> ParseError {
    parse_input(text.as_bytes()).unwrap_err()
}

#[test]
fn parse_errors_name_line_and_kind() {
    assert_eq!(err("a,1,0,1\n"), ParseError { line: 1, kind: ParseErrorKind::FieldCount });
    assert_eq!(err("# c\n/range a 1 2 3\n"), ParseError { line: 2, kind: ParseErrorKind::RangeFieldCount });
    assert_eq!(err("a,x,0,1,0.5"), ParseError { line: 1, kind: ParseErrorKind::InvalidOffset });
    assert_eq!(err("a,-1,0,1,0.5"), ParseError { line: 1, kind: ParseErrorKind::InvalidOffset });
    assert_eq!(err("a,1,z,1,0.5"), ParseError { line: 1, kind: ParseErrorKind::InvalidRangeMin });
    assert_eq!(err("a,1,0,1.2.3,0.5"), ParseError { line: 1, kind: ParseErrorKind::InvalidRangeMax });
    assert_eq!(err("a,1,0,1,"), ParseError { line: 1, kind: ParseErrorKind::InvalidObserved });
    assert_eq!(err("a,1,1,1,1"), ParseError { line: 1, kind: ParseErrorKind::RangeOrder });
    assert_eq!(err("a,1,0,1,1.5"), ParseError { line: 1, kind: ParseErrorKind::ObservedOutOfRange });
    assert_eq!(err("/range a 1 x 1 2"), ParseError { line: 1, kind: ParseErrorKind::InvalidRange });
    assert_eq!(err("/range a 1 10 x 2"), ParseError { line: 1, kind: ParseErrorKind::InvalidLowerBound });
    assert_eq!(err("/range a 1 10 1 y"), ParseError { line: 1, kind: ParseErrorKind::InvalidUpperBound });
    assert_eq!(err("/range a 1 10 2 2"), ParseError { line: 1, kind: ParseErrorKind::BoundsOrder });
    assert_eq!(err("/range a 1 0 1 2"), ParseError { line: 1, kind: ParseErrorKind::NonPositiveRange });
    assert_eq!(err("/range a 1 10 1 11"), ParseError { line: 1, kind: ParseErrorKind::UpperAboveRange });
    assert_eq!(err("/range a 1 10 -1 2"), ParseError { line: 1, kind: ParseErrorKind::NegativeLowerBound });
    assert_eq!(err("# only a comment\n\n   \n"), ParseError { line: 0, kind: ParseErrorKind::NoDataPoints });
    assert_eq!(err(""), ParseError { line: 0, kind: ParseErrorKind::NoDataPoints });
}

#[test]
fn first_bad_line_refuses_whole_input() {
    let text = "ok,1,0,100,50\nbad,1,0,100\nok2,2,0,100,40\n";
    assert_eq!(err(text), ParseError { line: 2, kind: ParseErrorKind::FieldCount });
}

#[test]
fn lines_are_trimmed_and_comments_skipped() {
    let text = "  # comment\r\n\t first , \r\nx,3,0,100,12.34\r\n   /range  y   4  10 1  2  \n";
    assert_eq!(err(text), ParseError { line: 2, kind: ParseErrorKind::FieldCount });
    let text = "  # comment\r\nx,3,0,100,12.34\r\n   /range  y   4  10 1  2  \n";
    let points = parse_input(text.as_bytes()).unwrap();
    assert_eq!(points.len(), 2);
    assert_eq!(points[0].name, "x");
    assert_eq!(points[0].offset, 3);
    assert_eq!(points[1].name, "y");
    assert_eq!(points[1].offset, 4);
    assert_eq!(parse_line(b"   ").unwrap().is_none(), true);
}

#[test]
fn numbers_parse_exactly() {
    assert_eq!(parse_u64(b"+17"), Some(17));
    assert_eq!(parse_u64(b"18446744073709551615"), Some(u64::MAX));
    assert_eq!(parse_u64(b"18446744073709551616"), None);
    assert_eq!(parse_u64(b""), None);
    assert_eq!(parse_u64(b"+"), None);
    assert_eq!(parse_decimal(b"-12.50"), Some(dec(-1250, 2)));
    assert_eq!(parse_decimal(b".5"), Some(dec(5, 1)));
    assert_eq!(parse_decimal(b"3."), Some(dec(3, 0)));
    assert_eq!(parse_decimal(b"+0.000000001"), Some(dec(1, 9)));
    assert_eq!(parse_decimal(b"0.0000000001"), Some(dec(0, 9)));
    assert_eq!(parse_decimal(b"0.5000000000"), Some(dec(500_000_000, 9)));
    assert_eq!(parse_decimal(b"0.1234567891"), Some(dec(123_456_789, 9)));
    assert_eq!(parse_decimal(b"-0.12345678951"), Some(dec(-123_456_790, 9)));
    assert_eq!(parse_decimal(b"1e-10"), Some(dec(0, 9)));
    assert_eq!(parse_decimal(b"6e-10"), Some(dec(1, 9)));
    assert_eq!(parse_decimal(b"1e-1000"), Some(dec(0, 9)));
    assert_eq!(parse_decimal(b"0e5000"), Some(dec(0, 0)));
    assert_eq!(parse_decimal(b"1.5e200"), None);
    assert_eq!(parse_decimal(b"1234567890.1234567891"), None);
    assert_eq!(parse_decimal(b"0.000000000000000000000000000000001234"), Some(dec(0, 9)));
    assert_eq!(parse_decimal(b"."), None);
    assert_eq!(parse_decimal(b"1e3"), Some(dec(1000, 0)));
    assert_eq!(parse_decimal(b"3e1"), Some(dec(30, 0)));
    assert_eq!(parse_decimal(b"-1.5E-3"), Some(dec(-15, 4)));
    assert_eq!(parse_decimal(b"1.2345678901e3"), Some(dec(12345678901, 7)));
    assert_eq!(parse_decimal(b"2.5e-9"), Some(dec(3, 9)));
    assert_eq!(parse_decimal(b"1e19"), None);
    assert_eq!(parse_decimal(b"1e"), None);
    assert_eq!(parse_decimal(b"1e2e3"), None);
    assert_eq!(parse_decimal(b"inf"), None);
}

#[test]
fn exponent_records_parse() {
    let points = parse_input(b"a,1,0,1e2,5e1\n/range b 2 1E2 2.5e1 7.5e1\n").unwrap();
    assert_eq!(
        (points[0].min_u32, points[0].max_u32),
        DataPoint::calculate_observed_u32_range(dec(0, 0), dec(100, 0), dec(50, 0))
    );
    assert_eq!((points[1].min_u32, points[1].max_u32), (1073741824, 3221225471));
}

#[test]
fn long_fractions_parse() {
    let points = parse_input(b"a,1,0,1,0.5000000000\nb,2,0,100,50.0000000001\n").unwrap();
    assert_eq!(points.len(), 2);
    assert_eq!(
        (points[0].min_u32, points[0].max_u32),
        DataPoint::calculate_observed_u32_range(dec(0, 0), dec(1, 0), dec(5, 1))
    );
    assert_eq!(
        (points[1].min_u32, points[1].max_u32),
        DataPoint::calculate_observed_u32_range(dec(0, 0), dec(100, 0), dec(50, 0))
    );
}

#[test]
fn names_keep_their_text() {
    let points = parse_input("Åsa,1,0,1,0.25".as_bytes()).unwrap();
    assert_eq!(points[0].name, "Åsa");
}
