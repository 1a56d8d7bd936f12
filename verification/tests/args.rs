use plmidi::args::{validate, Integer};
use plmidi::display::{announcement, format_duration, header, sleep_micros, whole_seconds};

const MSG: &str = "the value must be between -64 and 64.";

fn ok(text: &str, kind: Integer) -> bool {
    match validate(text, kind, MSG) {
        Ok(()) => true,
        Err(message) => {
            assert_eq!(message, MSG);
            false
        }
    }
}

#[test]
fn validate_takes_what_fits_eight_bits() {
    for text in ["0", "7", "-7", "+7", "127", "-128", "+127", "-0", "+0", "007", "-0128", "0000000000000000000000001"] {
        assert!(ok(text, Integer::I8), "{}", text);
        assert_eq!(text.parse::<i8>().is_ok(), true, "{}", text);
    }
}

#[test]
fn validate_refuses_what_does_not_fit_eight_bits() {
    for text in [
        "", "+", "-", "128", "-129", "1000", "99999999999999999999999999999999999999999", "1.0",
        "1e1", " 1", "1 ", "--1", "+-1", "-+1", "0x10", "a", "1a", "١", "१२", "1_0", "−1",
    ] {
        assert!(!ok(text, Integer::I8), "{}", text);
        assert_eq!(text.parse::<i8>().is_ok(), false, "{}", text);
    }
}

#[test]
fn validate_takes_sizes() {
    let most = usize::MAX.to_string();
    for text in ["0", "1", "+1", "42", "000", most.as_str()] {
        assert!(ok(text, Integer::Usize), "{}", text);
        assert!(text.parse::<usize>().is_ok());
    }
    let beyond = (usize::MAX as u128 + 1).to_string();
    for text in ["", "+", "-", "-0", "-1", "1.5", "abc", beyond.as_str(), "340282366920938463463374607431768211456"] {
        assert!(!ok(text, Integer::Usize), "{}", text);
        assert!(text.parse::<usize>().is_err());
    }
}

#[test]
fn validate_agrees_with_the_parser_of_std() {
    let signs = ["", "+", "-"];
    let bodies = ["", "0", "5", "64", "127", "128", "129", "255", "256", "5x", "x5", " 5"];
    for sign in signs {
        for body in bodies {
            let text = format!("{}{}", sign, body);
            assert_eq!(ok(&text, Integer::I8), text.parse::<i8>().is_ok(), "{}", text);
            assert_eq!(ok(&text, Integer::Usize), text.parse::<usize>().is_ok(), "{}", text);
        }
    }
}

#[test]
fn durations_read_as_minutes_and_seconds() {
    assert_eq!(format_duration(0), "0s");
    assert_eq!(format_duration(9), "9s");
    assert_eq!(format_duration(59), "59s");
    assert_eq!(format_duration(60), "1m0s");
    assert_eq!(format_duration(187), "3m7s");
    assert_eq!(format_duration(3600), "60m0s");
    assert_eq!(format_duration(u64::MAX), "307445734561825860m15s");
}

#[test]
fn microseconds_become_whole_seconds() {
    assert_eq!(whole_seconds(0), 0);
    assert_eq!(whole_seconds(999_999), 0);
    assert_eq!(whole_seconds(1_000_000), 1);
    assert_eq!(whole_seconds(187_654_321), 187);
    assert_eq!(whole_seconds(u128::MAX), u64::MAX);
    assert_eq!(sleep_micros(0), 0);
    assert_eq!(sleep_micros(1_234), 1_234);
    assert_eq!(sleep_micros(u64::MAX as u128), u64::MAX);
    assert_eq!(sleep_micros(u64::MAX as u128 + 1), u64::MAX);
}

#[test]
fn header_counts_tracks_and_time() {
    assert_eq!(
        header(1, 59),
        "Playing 1 track
Total duration: 59s
Press the spacebar to play/pause, ctrl-left/right to play previous/next track
Press the esc key or ctrl-c to exit"
    );
    assert_eq!(
        header(12, 3725),
        "Playing 12 tracks
Total duration: 62m5s
Press the spacebar to play/pause, ctrl-left/right to play previous/next track
Press the esc key or ctrl-c to exit"
    );
    assert!(header(0, 0).starts_with("Playing 0 tracks\nTotal duration: 0s\n"));
}

#[test]
fn announcement_names_the_track() {
    assert_eq!(announcement("fugue", 2, 10, 187), "Current: fugue [2/10]\nDuration = 3m7s");
    assert_eq!(announcement("", 1, 1, 0), "Current:  [1/1]\nDuration = 0s");
}
