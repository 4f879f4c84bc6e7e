use sweepy::error::SweepyError;
use sweepy::scanner::{cutoff_fits_at, get_older_than_unix, older_than_cutoff_at, parse_older_than};

const DAY: i64 = 86_400;

#[test]
fn parses_days_months_and_years() {
    assert_eq!(parse_older_than("90d").unwrap(), (90, 'd'));
    assert_eq!(parse_older_than("6m").unwrap(), (6, 'm'));
    assert_eq!(parse_older_than("2y").unwrap(), (2, 'y'));
    assert_eq!(parse_older_than("180d").unwrap(), (180, 'd'));
}

#[test]
fn parses_signed_counts_as_i64_parsing_does() {
    assert_eq!(parse_older_than("+5d").unwrap(), (5, 'd'));
    assert_eq!(parse_older_than("-3d").unwrap(), (-3, 'd'));
    assert_eq!(parse_older_than("007y").unwrap(), (7, 'y'));
    assert_eq!(
        parse_older_than("-9223372036854775808d").unwrap(),
        (i64::MIN, 'd')
    );
    assert_eq!(
        parse_older_than("9223372036854775807m").unwrap(),
        (i64::MAX, 'm')
    );
}

#[test]
fn refuses_an_empty_value() {
    let e = parse_older_than("").unwrap_err();
    assert!(matches!(e, SweepyError::EmptyOlderThan));
    assert_eq!(e.message(), "older_than value is empty");
}

#[test]
fn refuses_a_value_without_unit() {
    let e = parse_older_than("90").unwrap_err();
    assert!(matches!(&e, SweepyError::MissingTimeUnit { value } if value == "90"));
    assert_eq!(
        e.message(),
        "No time unit provided in '90': expected d, m or y"
    );
}

#[test]
fn refuses_an_unknown_unit() {
    let e = parse_older_than("90w").unwrap_err();
    assert!(matches!(&e, SweepyError::UnexpectedTimeUnit { unit: 'w', value } if value == "90w"));
    assert_eq!(
        e.message(),
        "Unexpected time unit 'w' in '90w': expected d, m or y"
    );
    let e = parse_older_than("90é").unwrap_err();
    assert!(matches!(e, SweepyError::UnexpectedTimeUnit { unit: 'é', .. }));
}

#[test]
fn refuses_a_bad_number() {
    for v in ["d", "xd", "1.5d", "+d", "-m", " 9d", "9 d", "9223372036854775808d", "-9223372036854775809y"] {
        let e = parse_older_than(v).unwrap_err();
        assert!(matches!(&e, SweepyError::InvalidNumber { value } if value == v), "{v}");
        assert_eq!(
            e.message(),
            format!("Invalid number in '{v}': expected format like 180d, 6m, 2y")
        );
    }
}

#[test]
fn cutoff_subtracts_the_span_from_now() {
    let now = 1_700_000_000;
    assert_eq!(older_than_cutoff_at("90d", now).unwrap(), now - 90 * DAY);
    assert_eq!(older_than_cutoff_at("6m", now).unwrap(), now - 6 * 30 * DAY);
    assert_eq!(older_than_cutoff_at("2y", now).unwrap(), now - 2 * 365 * DAY);
    assert_eq!(older_than_cutoff_at("0d", now).unwrap(), now);
    assert_eq!(older_than_cutoff_at("-1d", now).unwrap(), now + DAY);
}

#[test]
fn months_are_thirty_days_and_years_three_hundred_sixty_five() {
    let now = 1_700_000_000;
    assert_eq!(
        older_than_cutoff_at("1m", now).unwrap(),
        older_than_cutoff_at("30d", now).unwrap()
    );
    assert_eq!(
        older_than_cutoff_at("3y", now).unwrap(),
        older_than_cutoff_at("1095d", now).unwrap()
    );
}

#[test]
fn cutoff_reports_the_parse_error() {
    assert!(matches!(
        older_than_cutoff_at("12", 0).unwrap_err(),
        SweepyError::MissingTimeUnit { .. }
    ));
}

#[test]
fn cutoff_from_the_clock_lies_the_span_before_now() {
    let before = std::time::SystemTime::now()
        .duration_since(std::time::UNIX_EPOCH)
        .unwrap()
        .as_secs() as i64;
    let cutoff = get_older_than_unix(&"180d".to_string()).unwrap();
    let after = std::time::SystemTime::now()
        .duration_since(std::time::UNIX_EPOCH)
        .unwrap()
        .as_secs() as i64;
    assert!(before - 180 * DAY <= cutoff && cutoff <= after - 180 * DAY);
    assert!(matches!(
        get_older_than_unix(&"".to_string()).unwrap_err(),
        SweepyError::EmptyOlderThan
    ));
}

#[test]
fn the_default_spans_180_days() {
    assert_eq!(sweepy::cli::DEFAULT_OLDER_THAN, "180d");
    let now = 1_700_000_000;
    assert_eq!(
        older_than_cutoff_at(sweepy::cli::DEFAULT_OLDER_THAN, now).unwrap(),
        now - 180 * DAY
    );
}

#[test]
fn tells_when_the_cutoff_fits() {
    let now = 1_700_000_000;
    assert!(cutoff_fits_at("90d", now));
    assert!(cutoff_fits_at("-3d", now));
    assert!(cutoff_fits_at("", now));
    assert!(cutoff_fits_at("12", now));
    assert!(!cutoff_fits_at("9223372036854775807d", now));
    assert!(!cutoff_fits_at("-106751991167300d", i64::MAX));
    assert!(cutoff_fits_at("106751991167300d", now));
    assert!(!cutoff_fits_at("106751991167301d", now));
    assert!(!cutoff_fits_at("-1d", i64::MAX));
    assert!(cutoff_fits_at("1d", i64::MIN + 86_400));
    assert!(!cutoff_fits_at("1d", i64::MIN + 86_399));
}
