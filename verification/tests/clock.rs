use harmony::clock::{decimal_text, duration_to_string, padded_text};

#[test]
fn clock_text_of_short_lengths() {
    assert_eq!(duration_to_string(0), "00:00");
    assert_eq!(duration_to_string(7), "00:07");
    assert_eq!(duration_to_string(59), "00:59");
    assert_eq!(duration_to_string(60), "01:00");
    assert_eq!(duration_to_string(61), "01:01");
    assert_eq!(duration_to_string(605), "10:05");
    assert_eq!(duration_to_string(3599), "59:59");
}

#[test]
fn clock_text_minutes_grow_past_two_digits() {
    assert_eq!(duration_to_string(3600), "60:00");
    assert_eq!(duration_to_string(6000), "100:00");
    assert_eq!(duration_to_string(6011), "100:11");
}

#[test]
fn clock_text_of_largest_length() {
    let secs = u64::MAX;
    let expected = format!("{}:{:02}", secs / 60, secs % 60);
    assert_eq!(duration_to_string(secs), expected);
}

#[test]
fn clock_text_matches_std_formatting() {
    for secs in (0u64..20000).step_by(7) {
        let minutes = secs / 60;
        let seconds = secs % 60;
        let m = if minutes < 10 { format!("0{}", minutes) } else { format!("{}", minutes) };
        let s = if seconds < 10 { format!("0{}", seconds) } else { format!("{}", seconds) };
        assert_eq!(duration_to_string(secs), format!("{}:{}", m, s));
    }
}

#[test]
fn clock_text_reads_back_as_the_length() {
    for secs in [0u64, 9, 10, 59, 60, 600, 3661, 987654] {
        let text = duration_to_string(secs);
        let (minutes, seconds) = text.split_at(text.len() - 3);
        let seconds = &seconds[1..];
        let m: u64 = minutes.parse().unwrap();
        let s: u64 = seconds.parse().unwrap();
        assert!(s < 60);
        assert_eq!(m * 60 + s, secs);
    }
}

#[test]
fn decimal_text_matches_display() {
    for n in [0u64, 1, 9, 10, 11, 99, 100, 12345, 4294967296, u64::MAX] {
        assert_eq!(decimal_text(n), n.to_string());
    }
}

#[test]
fn padded_text_adds_one_zero_to_single_digits() {
    assert_eq!(padded_text(0), "00");
    assert_eq!(padded_text(5), "05");
    assert_eq!(padded_text(10), "10");
    assert_eq!(padded_text(123), "123");
}
