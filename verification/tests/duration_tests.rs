use sound_themer::duration::{choose_duration, playback_duration_to_duration, PlaybackDuration};
use sound_themer::error::ThemerError;
use sound_themer::mapping::PlaybackSpec;

#[test]
fn parse_fifty_percent() {
    assert_eq!(
        PlaybackDuration::from_str("50%").unwrap(),
        PlaybackDuration::Percent(500_000)
    );
}

#[test]
fn parse_hundred_percent() {
    assert_eq!(
        PlaybackDuration::from_str("100%").unwrap(),
        PlaybackDuration::Percent(1_000_000)
    );
}

#[test]
fn parse_zero_percent() {
    assert_eq!(
        PlaybackDuration::from_str("0%").unwrap(),
        PlaybackDuration::Percent(0)
    );
}

#[test]
fn parse_percent_above_hundred_rejected() {
    let e = PlaybackDuration::from_str("101%").unwrap_err();
    match e {
        ThemerError::PlaybackFromStrError { from, e } => {
            assert_eq!(from, "101%");
            assert_eq!(e, "Percentage must be between 0.0 and 100.0");
        }
        other => panic!("unexpected error: {other:?}"),
    }
}

#[test]
fn parse_negative_percent_rejected() {
    let e = PlaybackDuration::from_str("-1%").unwrap_err();
    match e {
        ThemerError::PlaybackFromStrError { from, e } => {
            assert_eq!(from, "-1%");
            assert_eq!(e, "Percentage must be a numerical value followed by '%'");
        }
        other => panic!("unexpected error: {other:?}"),
    }
}

#[test]
fn parse_hundred_point_zero_percent() {
    assert_eq!(
        PlaybackDuration::from_str("100.000%").unwrap(),
        PlaybackDuration::Percent(1_000_000)
    );
}

#[test]
fn parse_slightly_over_hundred_percent_rejected() {
    assert!(matches!(
        PlaybackDuration::from_str("100.0001%"),
        Err(ThemerError::PlaybackFromStrError { .. })
    ));
}

#[test]
fn parse_fractional_percent_truncates() {
    // 99.99999 % -> 999999.9 ppm, truncated toward zero.
    assert_eq!(
        PlaybackDuration::from_str("99.99999%").unwrap(),
        PlaybackDuration::Percent(999_999)
    );
}

#[test]
fn parse_milliseconds() {
    assert_eq!(
        PlaybackDuration::from_str("250ms").unwrap(),
        PlaybackDuration::Time(250_000)
    );
}

#[test]
fn parse_seconds_with_suffix() {
    assert_eq!(
        PlaybackDuration::from_str("2s").unwrap(),
        PlaybackDuration::Time(2_000_000)
    );
}

#[test]
fn parse_seconds_without_suffix() {
    assert_eq!(
        PlaybackDuration::from_str("2").unwrap(),
        PlaybackDuration::Time(2_000_000)
    );
}

#[test]
fn parse_seconds_suffix_equivalent_to_bare() {
    assert_eq!(
        PlaybackDuration::from_str("2s").unwrap(),
        PlaybackDuration::from_str("2").unwrap()
    );
}

#[test]
fn parse_garbage_seconds_rejected() {
    let e = PlaybackDuration::from_str("abcs").unwrap_err();
    match e {
        ThemerError::PlaybackFromStrError { from, e } => {
            assert_eq!(from, "abcs");
            assert_eq!(
                e,
                "Seconds value must be a numerical value (optionally followed by 's')"
            );
        }
        other => panic!("unexpected error: {other:?}"),
    }
}

#[test]
fn parse_garbage_milliseconds_rejected() {
    let e = PlaybackDuration::from_str("xms").unwrap_err();
    match e {
        ThemerError::PlaybackFromStrError { from, e } => {
            assert_eq!(from, "xms");
            assert_eq!(e, "Milliseconds value must be a numerical value followed by 'ms'");
        }
        other => panic!("unexpected error: {other:?}"),
    }
}

#[test]
fn parse_trims_and_lowercases() {
    assert_eq!(
        PlaybackDuration::from_str("  2S \n").unwrap(),
        PlaybackDuration::Time(2_000_000)
    );
    assert_eq!(
        PlaybackDuration::from_str("\t250MS").unwrap(),
        PlaybackDuration::Time(250_000)
    );
}

#[test]
fn parse_error_names_normalized_expression() {
    let e = PlaybackDuration::from_str(" ABCs\u{A0}").unwrap_err();
    match e {
        ThemerError::PlaybackFromStrError { from, .. } => assert_eq!(from, "abcs"),
        other => panic!("unexpected error: {other:?}"),
    }
}

#[test]
fn parse_results_agree_after_normalization() {
    // Inputs equal after trimming and lower-casing parse identically,
    // errors included.
    assert_eq!(
        PlaybackDuration::from_str(" a "),
        PlaybackDuration::from_str("a")
    );
    assert_eq!(
        PlaybackDuration::from_str("\t50% "),
        PlaybackDuration::from_str("50%")
    );
}

#[test]
fn parse_unicode_whitespace_trimmed() {
    assert_eq!(
        PlaybackDuration::from_str("\u{0C}2s").unwrap(),
        PlaybackDuration::Time(2_000_000)
    );
    assert_eq!(
        PlaybackDuration::from_str("\u{A0}2s\u{2028}").unwrap(),
        PlaybackDuration::Time(2_000_000)
    );
}

#[test]
fn parse_leading_plus_sign() {
    assert_eq!(
        PlaybackDuration::from_str("+50%").unwrap(),
        PlaybackDuration::Percent(500_000)
    );
    assert_eq!(
        PlaybackDuration::from_str("+2s").unwrap(),
        PlaybackDuration::Time(2_000_000)
    );
    assert_eq!(
        PlaybackDuration::from_str("+.5").unwrap(),
        PlaybackDuration::Time(500_000)
    );
    assert_eq!(
        PlaybackDuration::from_str("+250ms").unwrap(),
        PlaybackDuration::Time(250_000)
    );
}

#[test]
fn parse_stray_plus_signs_rejected() {
    assert!(PlaybackDuration::from_str("++2").is_err());
    assert!(PlaybackDuration::from_str("+").is_err());
    assert!(PlaybackDuration::from_str("+s").is_err());
    assert!(PlaybackDuration::from_str("2+").is_err());
}

#[test]
fn parse_decimal_seconds() {
    assert_eq!(
        PlaybackDuration::from_str("1.5s").unwrap(),
        PlaybackDuration::Time(1_500_000)
    );
    assert_eq!(
        PlaybackDuration::from_str(".5").unwrap(),
        PlaybackDuration::Time(500_000)
    );
    assert_eq!(
        PlaybackDuration::from_str("3.").unwrap(),
        PlaybackDuration::Time(3_000_000)
    );
}

#[test]
fn parse_truncates_beyond_microseconds() {
    assert_eq!(
        PlaybackDuration::from_str("12.3456789s").unwrap(),
        PlaybackDuration::Time(12_345_678)
    );
}

#[test]
fn parse_empty_and_lone_dot_rejected() {
    assert!(PlaybackDuration::from_str("").is_err());
    assert!(PlaybackDuration::from_str(".").is_err());
    assert!(PlaybackDuration::from_str(" s ").is_err());
}

#[test]
fn parse_two_dots_rejected() {
    assert!(PlaybackDuration::from_str("1.2.3s").is_err());
}

#[test]
fn parse_huge_seconds_rejected() {
    assert!(PlaybackDuration::from_str("99999999999999999999999s").is_err());
}

#[test]
fn half_of_ten_seconds_is_five() {
    let natural = 10_000_000u64;
    assert_eq!(
        playback_duration_to_duration(&PlaybackDuration::Percent(500_000), natural).unwrap(),
        5_000_000
    );
}

#[test]
fn absolute_equal_to_natural_is_accepted() {
    let natural = 10_000_000u64;
    assert_eq!(
        playback_duration_to_duration(&PlaybackDuration::Time(10_000_000), natural).unwrap(),
        10_000_000
    );
}

#[test]
fn absolute_above_natural_is_rejected() {
    let natural = 10_000_000u64;
    let e = playback_duration_to_duration(&PlaybackDuration::Time(10_000_100), natural)
        .unwrap_err();
    assert_eq!(e, ThemerError::DurationTooLongError(10_000_000, 10_000_100));
}

#[test]
fn zero_percent_resolves_to_zero() {
    assert_eq!(
        playback_duration_to_duration(&PlaybackDuration::Percent(0), 10_000_000).unwrap(),
        0
    );
}

#[test]
fn full_percent_resolves_to_natural() {
    assert_eq!(
        playback_duration_to_duration(&PlaybackDuration::Percent(1_000_000), 10_000_000)
            .unwrap(),
        10_000_000
    );
}

#[test]
fn choose_duration_prefers_override() {
    let entry = PlaybackSpec::WithDuration {
        filename: String::from("complete"),
        duration: String::from("50%"),
    };
    let r = choose_duration(Some(PlaybackDuration::Time(7)), &entry).unwrap();
    assert_eq!(r, Some(PlaybackDuration::Time(7)));
}

#[test]
fn choose_duration_uses_mapping_entry() {
    let entry = PlaybackSpec::WithDuration {
        filename: String::from("complete"),
        duration: String::from("50%"),
    };
    let r = choose_duration(None, &entry).unwrap();
    assert_eq!(r, Some(PlaybackDuration::Percent(500_000)));
}

#[test]
fn choose_duration_none_without_policy() {
    let entry = PlaybackSpec::Simple(String::from("complete"));
    assert_eq!(choose_duration(None, &entry).unwrap(), None);
}

#[test]
fn choose_duration_reports_bad_mapping_expression() {
    let entry = PlaybackSpec::WithDuration {
        filename: String::from("complete"),
        duration: String::from("nonsense"),
    };
    assert!(matches!(
        choose_duration(None, &entry),
        Err(ThemerError::PlaybackFromStrError { .. })
    ));
}
