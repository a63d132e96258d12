use xscreen::number::NumberError;
use xscreen::playback::{
    checked_upnp_time, format_time, normalize_play_speed, parse_time, parse_upnp_time, SpeedError,
    TimeError,
};

#[test]
fn parses_seek_times() {
    assert_eq!(parse_time("65").unwrap(), "00:01:05");
    assert_eq!(parse_time("1:02:03").unwrap(), "01:02:03");
    assert!(parse_time("1:99:00").is_err());
}

#[test]
fn normalizes_playback_speed_as_a_rational_number() {
    assert_eq!(normalize_play_speed("2").unwrap(), "2");
    assert_eq!(normalize_play_speed("1.5").unwrap(), "3/2");
    assert_eq!(normalize_play_speed("0.5").unwrap(), "1/2");
    assert_eq!(normalize_play_speed("6/4").unwrap(), "3/2");
    assert!(normalize_play_speed("0").is_err());
    assert!(normalize_play_speed("fast").is_err());
}

#[test]
fn parses_upnp_time_with_optional_fraction() {
    assert_eq!(parse_upnp_time("01:02:03"), 3_723);
    assert_eq!(parse_upnp_time("00:01:02.750"), 62);
    assert_eq!(parse_upnp_time("NOT_IMPLEMENTED"), 0);
}

#[test]
fn times_that_are_none() {
    for text in ["", "1:2", "1:2:3:4", "1:2:60", "1:60:3", "a:b:c", "-1", "1.5", " 1"] {
        assert_eq!(parse_time(text), Err(TimeError::Invalid), "{text}");
    }
    assert_eq!(TimeError::Invalid.message(), "invalid time; use seconds or HH:MM:SS");
    for text in ["", "1:2", "1:2:3:4", "x:2:3", "1::3", "1:2:.5"] {
        assert_eq!(parse_upnp_time(text), 0, "{text}");
    }
}

#[test]
fn times_at_the_edges() {
    assert_eq!(parse_time("+90").unwrap(), "00:01:30");
    assert_eq!(parse_time("123:00:59").unwrap(), "123:00:59");
    assert_eq!(format_time(0), "00:00:00");
    assert_eq!(format_time(359_999), "99:59:59");
    assert_eq!(format_time(360_000), "100:00:00");
    assert_eq!(checked_upnp_time("0:99:99"), Some(6_039));
    assert_eq!(checked_upnp_time("18446744073709551615:0:0"), None);
    assert_eq!(checked_upnp_time("0:0:18446744073709551615"), Some(u64::MAX));
    assert_eq!(checked_upnp_time("0:0:18446744073709551616"), Some(0));
}

#[test]
fn a_written_time_is_read_back() {
    for seconds in [0, 1, 59, 60, 3_599, 3_600, 86_399, 1_000_000, u64::MAX] {
        assert_eq!(parse_upnp_time(&format_time(seconds)), seconds);
        assert_eq!(parse_time(&seconds.to_string()).unwrap(), format_time(seconds));
        assert_eq!(parse_time(&format_time(seconds)).unwrap(), format_time(seconds));
    }
}

#[test]
fn speeds_in_lowest_terms_are_left_alone() {
    for (given, speed) in [
        (" 10/5 ", "2/1"),
        ("4/6", "2/3"),
        ("1.250000", "5/4"),
        ("00.50", "1/2"),
        ("3.", "3"),
        ("18446744073709551615", "18446744073709551615"),
        ("0.000001", "1/1000000"),
        ("+6/+4", "3/2"),
    ] {
        assert_eq!(normalize_play_speed(given).unwrap(), speed, "{given}");
        assert_eq!(normalize_play_speed(speed).unwrap(), speed, "{speed}");
    }
}

#[test]
fn speeds_that_are_none() {
    let message = |text: &str| normalize_play_speed(text).unwrap_err().message();
    for text in ["", ".5", "-1", "1.0000001", "1.5x", "1 5", "+1"] {
        assert_eq!(normalize_play_speed(text), Err(SpeedError::Malformed), "{text}");
    }
    assert_eq!(message("x"), "invalid playback speed; use a positive number such as 1.5 or 2");
    for text in ["0", "0.0", "0/1", "1/0"] {
        assert_eq!(normalize_play_speed(text), Err(SpeedError::NotPositive), "{text}");
    }
    assert_eq!(message("0"), "playback speed must be greater than zero");
    assert_eq!(normalize_play_speed("18446744073709551615.5"), Err(SpeedError::TooLarge));
    assert_eq!(message("18446744073709551615.5"), "playback speed is too large");
    assert_eq!(
        normalize_play_speed("18446744073709551616"),
        Err(SpeedError::Number(NumberError::TooLarge))
    );
    assert_eq!(
        message("99999999999999999999"),
        "invalid playback speed: number too large to fit in target type"
    );
    assert_eq!(message("1/"), "invalid playback speed: cannot parse integer from empty string");
    assert_eq!(message("a/2"), "invalid playback speed: invalid digit found in string");
    assert_eq!(message("1/2/3"), "invalid playback speed: invalid digit found in string");
}
