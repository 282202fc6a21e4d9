use miawk::accounts::{is_device_code, mask_secret, strip_ansi, usage_window_reset_at, window_minutes};
use miawk::swarm::{excerpt, summarize_prompt};
use miawk::tokens::format_token_count;

fn float_rendering(value: u64) -> String {
    if value >= 1_000_000 {
        let amount = value as f64 / 1_000_000.0;
        let text = format!("{amount:.1}");
        format!("{}M", text.trim_end_matches('0').trim_end_matches('.'))
    } else if value >= 1_000 {
        let amount = value as f64 / 1_000.0;
        let text = format!("{amount:.1}");
        format!("{}K", text.trim_end_matches('0').trim_end_matches('.'))
    } else {
        value.to_string()
    }
}

#[test]
fn token_counts_match_float_rendering_on_round_values() {
    for value in [0u64, 1, 999, 1_000, 1_500, 12_000, 258_400, 999_999, 1_000_000, 1_250_000, 950_000] {
        assert_eq!(format_token_count(value), float_rendering(value), "value {value}");
    }
}

#[test]
fn token_counts_match_float_rendering_on_ties() {
    for value in [1_050u64, 1_150, 1_250, 2_350, 10_050, 10_150, 1_050_000, 1_150_000, 2_450_000, 999_950] {
        assert_eq!(format_token_count(value), float_rendering(value), "value {value}");
    }
}

#[test]
fn token_counts_match_float_rendering_across_ranges() {
    let mut value: u64 = 1;
    while value < u64::MAX / 3 {
        for probe in [value, value + 49, value + 50, value + 51, value * 3 / 2] {
            assert_eq!(format_token_count(probe), float_rendering(probe), "value {probe}");
        }
        value = value * 3 + 7;
    }
    for probe in [u64::MAX, u64::MAX - 1, 9_007_199_254_740_993, 123_456_789_012] {
        assert_eq!(format_token_count(probe), float_rendering(probe), "value {probe}");
    }
}

#[test]
fn token_count_examples() {
    assert_eq!(format_token_count(999), "999");
    assert_eq!(format_token_count(1_000), "1K");
    assert_eq!(format_token_count(1_500), "1.5K");
    assert_eq!(format_token_count(246_400), "246.4K");
    assert_eq!(format_token_count(2_000_000), "2M");
}

#[test]
fn secrets_are_masked() {
    assert_eq!(mask_secret("short".to_string()), "*****");
    assert_eq!(mask_secret("12345678".to_string()), "********");
    assert_eq!(mask_secret("sk-test-key".to_string()), "sk-****-key");
    assert_eq!(mask_secret("123456789".to_string()), "123****6789");
    assert_eq!(mask_secret("sk-abcdefghijklmnop".to_string()), "sk-************mnop");
    assert_eq!(mask_secret(String::new()), "");
}

#[test]
fn ansi_sequences_are_stripped() {
    assert_eq!(strip_ansi("\u{1b}[1mhello\u{1b}[0m world"), "hello world");
    assert_eq!(strip_ansi("plain text"), "plain text");
    assert_eq!(strip_ansi("a\u{1b}b"), "a\u{1b}b");
    assert_eq!(strip_ansi("cut\u{1b}[12;3"), "cut");
    assert_eq!(strip_ansi("\u{1b}[94mhttps://auth.openai.com/codex/device\u{1b}[0m"), "https://auth.openai.com/codex/device");
}

#[test]
fn device_codes_are_recognised() {
    assert!(is_device_code("ABCD-12345"));
    assert!(is_device_code("a1b2-C3D4E"));
    assert!(!is_device_code("ABCD-1234"));
    assert!(!is_device_code("ABCDE-1234"));
    assert!(!is_device_code("AB-D-12345"));
    assert!(!is_device_code("ABCD-12345-X"));
    assert!(!is_device_code("ÄBCD-12345"));
    assert!(!is_device_code("ABCD_12345"));
}

#[test]
fn usage_windows_in_minutes() {
    assert_eq!(window_minutes(None), None);
    assert_eq!(window_minutes(Some(18_000)), Some(300));
    assert_eq!(window_minutes(Some(59)), Some(1));
    assert_eq!(window_minutes(Some(0)), Some(1));
    assert_eq!(window_minutes(Some(-120)), Some(1));
    assert_eq!(window_minutes(Some(119)), Some(1));
    assert_eq!(window_minutes(Some(120)), Some(2));
}

#[test]
fn usage_window_resets() {
    assert_eq!(usage_window_reset_at(Some(5), Some(100), 1_000), Some(5));
    assert_eq!(usage_window_reset_at(None, Some(100), 1_000), Some(1_100));
    assert_eq!(usage_window_reset_at(None, Some(-100), 1_000), Some(1_000));
    assert_eq!(usage_window_reset_at(None, Some(i64::MAX), 1_000), Some(i64::MAX));
    assert_eq!(usage_window_reset_at(None, None, 1_000), None);
}

#[test]
fn excerpts_and_prompt_summaries() {
    assert_eq!(excerpt("  hello   world  ", 20), "hello world");
    assert_eq!(excerpt("abcdefghij", 4), "abcd\u{2026}");
    assert_eq!(summarize_prompt("", 2), "2 attachments");
}
