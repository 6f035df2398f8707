use tcc::duration::{dec_string, format_minutes, format_ratio, format_root};
use tcc::numbers::{ceil_cents, div_trunc, isqrt_u128, root_floor, Ratio, RootRatio};
use tcc::opt::Format;

#[test]
fn zero_renders_as_the_placeholder() {
    assert_eq!(format_minutes(0), "-");
}

#[test]
fn ninety_minutes_cascade() {
    assert_eq!(format_minutes(90), "1h30m (1.50h) = 90m");
}

#[test]
fn one_minute_is_a_single_clause() {
    assert_eq!(format_minutes(1), "1m");
}

#[test]
fn exact_hour_rounds_to_even_decimals() {
    assert_eq!(format_minutes(60), "1h0m (1.00h) = 60m");
}

#[test]
fn a_day_populates_three_units() {
    assert_eq!(format_minutes(1440), "1d0h (1.00d) = 24h0m (24.00h) = 1440m");
}

#[test]
fn a_week_populates_every_unit() {
    assert_eq!(
        format_minutes(10080),
        "1w0d (1.00w) = 7d0h (7.00d) = 168h0m (168.00h) = 10080m"
    );
    assert_eq!(
        format_minutes(10080 + 1440 + 90),
        "1w1d (1.15w) = 8d1h (8.05d) = 193h30m (193.50h) = 11610m"
    );
}

#[test]
fn rounding_is_a_ceiling_not_nearest() {
    // 61 minutes is 1.0166... hours: up at two decimals gives 1.02
    assert_eq!(format_minutes(61), "1h1m (1.02h) = 61m");
    assert_eq!(ceil_cents(61, 60), 102);
    assert_eq!(ceil_cents(90, 60), 150);
    assert_eq!(ceil_cents(0, 7), 0);
}

#[test]
fn negative_minutes_render_empty() {
    assert_eq!(format_minutes(-5), "");
}

#[test]
fn non_finite_quotients_render_as_the_placeholder() {
    assert_eq!(format_ratio(Ratio { num: 90, den: 0 }), "-");
    assert_eq!(format_ratio(Ratio { num: 0, den: 0 }), "-");
    // a quotient under one minute truncates to zero: placeholder again
    assert_eq!(format_ratio(Ratio { num: 1, den: 2 }), "-");
}

#[test]
fn finite_quotients_truncate_to_minutes() {
    assert_eq!(format_ratio(Ratio { num: 90, den: 2 }), "45m");
    assert_eq!(format_ratio(Ratio { num: 90, den: 60 }), "1m");
}

#[test]
fn deviations_render_their_root() {
    assert_eq!(format_root(RootRatio { num: 900, den: 1 }), "30m");
    assert_eq!(format_root(RootRatio { num: 1800, den: 8 }), "15m");
    assert_eq!(format_root(RootRatio { num: 0, den: 0 }), "-");
    // a root that truncates to zero minutes is the placeholder
    assert_eq!(format_root(RootRatio { num: 3, den: 4 }), "-");
}

#[test]
fn decimal_numerals() {
    assert_eq!(dec_string(0), "0");
    assert_eq!(dec_string(7), "7");
    assert_eq!(dec_string(10), "10");
    assert_eq!(dec_string(1234567890), "1234567890");
}

#[test]
fn truncating_division_rounds_toward_zero() {
    assert_eq!(div_trunc(7, 2), 3);
    assert_eq!(div_trunc(-7, 2), -3);
    assert_eq!(div_trunc(7, -2), -3);
    assert_eq!(div_trunc(-7, -2), 3);
}

#[test]
fn integer_square_roots() {
    assert_eq!(isqrt_u128(0), 0);
    assert_eq!(isqrt_u128(1), 1);
    assert_eq!(isqrt_u128(3), 1);
    assert_eq!(isqrt_u128(4), 2);
    assert_eq!(isqrt_u128(10), 3);
    assert_eq!(isqrt_u128(225), 15);
    assert_eq!(root_floor(1800, 8), 15);
    assert_eq!(root_floor(224, 1), 14);
}

#[test]
fn format_names_parse_and_print() {
    assert_eq!(Format::from_str("markdown"), Ok(Format::Markdown));
    assert_eq!(Format::from_str("md"), Ok(Format::Markdown));
    assert_eq!(Format::from_str("json"), Ok(Format::JSON));
    assert_eq!(Format::from_str("yaml"), Err("invalid format"));
    assert_eq!(Format::Markdown.as_str(), "markdown");
    assert_eq!(Format::JSON.as_str(), "json");
}
