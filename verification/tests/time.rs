use band_songbook::time::{split_time, TimeParts};

fn parts(negative: bool, minutes: &str, seconds: &str) -> TimeParts {
    TimeParts { negative, minutes: minutes.to_string(), seconds: seconds.to_string() }
}

/// Seconds of a time, with the numbers read the way the application reads them.
fn seconds_of(s: &str) -> Result<f64, String> {
    let p = split_time(s)?;
    let minutes: f64 = p.minutes.parse().map_err(|e| format!("invalid minutes in {s}: {e}"))?;
    let seconds: f64 = p.seconds.parse().map_err(|e| format!("invalid seconds in {s}: {e}"))?;
    if minutes < 0.0 || seconds < 0.0 {
        return Err(format!("negative component in {s}"));
    }
    let sign = if p.negative { -1.0 } else { 1.0 };
    Ok(sign * (minutes * 60.0 + seconds))
}

#[test]
fn test_parse_time_negative_applies_to_whole_value() {
    assert_eq!(seconds_of("-00:02.00"), Ok(-2.0));
    assert_eq!(seconds_of("-01:30.5"), Ok(-90.5));
    assert_eq!(seconds_of("00:02.00"), Ok(2.0));
    assert_eq!(seconds_of("1:30.5"), Ok(90.5));
    assert_eq!(seconds_of(" 0:0.0 "), Ok(0.0));
}

#[test]
fn test_parse_time_rejects_inner_sign() {
    assert!(seconds_of("00:-02.00").is_err());
    assert!(seconds_of("nope").is_err());
}

#[test]
fn split_time_takes_the_sign_before_the_minutes() {
    assert_eq!(split_time("-00:02.00"), Ok(parts(true, "00", "02.00")));
    assert_eq!(split_time("1:30.5"), Ok(parts(false, "1", "30.5")));
}

#[test]
fn split_time_trims_white_space() {
    assert_eq!(split_time(" \t0:0.0 \n"), Ok(parts(false, "0", "0.0")));
}

#[test]
fn split_time_splits_at_the_first_colon() {
    assert_eq!(split_time("1:2:3"), Ok(parts(false, "1", "2:3")));
    assert_eq!(split_time("00:-02.00"), Ok(parts(false, "00", "-02.00")));
}

#[test]
fn split_time_without_colon_fails() {
    assert_eq!(split_time("nope"), Err("expected mm:ss.ms format, got nope".to_string()));
    assert_eq!(split_time(""), Err("expected mm:ss.ms format, got ".to_string()));
}
