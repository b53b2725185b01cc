use cikit::duration::Duration;
use cikit::junit::display::duration;

#[test]
fn duration_is_rendered_as_a_string() {
    let d = Duration::from_nanos(1_001_000_000);
    assert_eq!(duration(d), "1s 1ms");
}

#[test]
fn duration_is_rendered_with_millisecond_resolution1() {
    let d = Duration::from_nanos(1_100_000);
    assert_eq!(duration(d), "1ms");
}

#[test]
fn duration_is_rendered_with_millisecond_resolution2() {
    let d = Duration::from_nanos((86400 + 3600) * 1_000_000_000 + 1_500_000);
    assert_eq!(duration(d), "1day 1h 1ms");
}

// The formatter pluralizes whole days, and a plural unit is not on the
// accepted list: the rendering cuts at the first such word.
#[test]
fn plural_units_cut_the_rendering_short() {
    let d = Duration::from_nanos(2 * 86400 * 1_000_000_000);
    assert_eq!(duration(d), "");
}

#[test]
fn a_zero_duration_renders_as_zero_milliseconds() {
    assert_eq!(duration(Duration::from_nanos(0)), "0s");
}
