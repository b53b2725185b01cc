use cikit::duration::{duration_from_secs_str, Duration};

#[test]
fn decodes_plain_decimal_seconds() {
    assert_eq!(
        duration_from_secs_str("2.137"),
        Some(Duration::from_nanos(2_137_000_000))
    );
    assert_eq!(
        duration_from_secs_str("0.079"),
        Some(Duration::from_nanos(79_000_000))
    );
    assert_eq!(duration_from_secs_str("0"), Some(Duration::from_nanos(0)));
    assert_eq!(
        duration_from_secs_str("12"),
        Some(Duration::from_nanos(12_000_000_000))
    );
}

#[test]
fn folds_negative_values_to_their_absolute_value() {
    assert_eq!(
        duration_from_secs_str("-3.5"),
        Some(Duration::from_nanos(3_500_000_000))
    );
    assert_eq!(
        duration_from_secs_str("+1"),
        Some(Duration::from_nanos(1_000_000_000))
    );
    assert_eq!(duration_from_secs_str("-0"), Some(Duration::from_nanos(0)));
}

#[test]
fn accepts_bare_dot_forms_with_digits() {
    assert_eq!(
        duration_from_secs_str(".5"),
        Some(Duration::from_nanos(500_000_000))
    );
    assert_eq!(
        duration_from_secs_str("5."),
        Some(Duration::from_nanos(5_000_000_000))
    );
}

#[test]
fn keeps_only_nine_fractional_digits() {
    assert_eq!(
        duration_from_secs_str("0.1234567899"),
        Some(Duration::from_nanos(123_456_789))
    );
}

#[test]
fn accepts_exponent_notation() {
    assert_eq!(
        duration_from_secs_str("1e3"),
        Some(Duration::from_nanos(1_000_000_000_000))
    );
    assert_eq!(
        duration_from_secs_str("1e-3"),
        Some(Duration::from_nanos(1_000_000))
    );
    assert_eq!(
        duration_from_secs_str("1.0E-4"),
        Some(Duration::from_nanos(100_000))
    );
    assert_eq!(
        duration_from_secs_str("2.5e-1"),
        Some(Duration::from_nanos(250_000_000))
    );
    assert_eq!(
        duration_from_secs_str("-1.5E2"),
        Some(Duration::from_nanos(150_000_000_000))
    );
    assert_eq!(
        duration_from_secs_str("1e+2"),
        Some(Duration::from_nanos(100_000_000_000))
    );
}

#[test]
fn extreme_exponents_saturate_or_vanish() {
    assert_eq!(
        duration_from_secs_str("1e50"),
        Some(Duration::from_nanos(u64::MAX))
    );
    assert_eq!(duration_from_secs_str("1e-50"), Some(Duration::from_nanos(0)));
    assert_eq!(duration_from_secs_str("0e999"), Some(Duration::from_nanos(0)));
    assert_eq!(
        duration_from_secs_str("1e-999999999999999999999999"),
        Some(Duration::from_nanos(0))
    );
}

#[test]
fn rejects_malformed_fields() {
    assert_eq!(duration_from_secs_str(""), None);
    assert_eq!(duration_from_secs_str("abc"), None);
    assert_eq!(duration_from_secs_str("1.2.3"), None);
    assert_eq!(duration_from_secs_str("."), None);
    assert_eq!(duration_from_secs_str("-"), None);
    assert_eq!(duration_from_secs_str("1e"), None);
    assert_eq!(duration_from_secs_str("e3"), None);
    assert_eq!(duration_from_secs_str("1e3.5"), None);
    assert_eq!(duration_from_secs_str("1e--3"), None);
    assert_eq!(duration_from_secs_str("1 2"), None);
}

#[test]
fn saturates_out_of_range_values() {
    assert_eq!(
        duration_from_secs_str("99999999999999999999999"),
        Some(Duration::from_nanos(u64::MAX))
    );
}

#[test]
fn milliseconds_truncate_the_remainder() {
    assert_eq!(Duration::from_nanos(1_999_999).num_milliseconds(), 1);
    assert_eq!(Duration::from_nanos(2_137_000_000).num_milliseconds(), 2137);
    assert_eq!(Duration::from_nanos(999_999).num_milliseconds(), 0);
    assert_eq!(Duration::from_millis(250).num_milliseconds(), 250);
}

#[test]
fn addition_saturates() {
    let a = Duration::from_nanos(u64::MAX - 5);
    let b = Duration::from_nanos(10);
    assert_eq!(a.saturating_add(b), Duration::from_nanos(u64::MAX));
    let c = Duration::from_nanos(5);
    assert_eq!(c.saturating_add(b), Duration::from_nanos(15));
}
