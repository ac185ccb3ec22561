use guild_player::command::{
    parse_i64, play_options, playlist_summary, progress_text, split_commas, ListOption,
    OptionValue, PlayOptions,
};

fn opt(name: &str, value: OptionValue) -> (String, OptionValue) {
    (name.to_string(), value)
}

#[test]
fn play_options_read_positive_seconds_and_keyword() {
    let opts = vec![
        opt("start", OptionValue::Integer(30)),
        opt("duration", OptionValue::Integer(-5)),
        opt("skip", OptionValue::Text("go".to_string())),
        opt("other", OptionValue::Integer(1)),
    ];
    assert_eq!(
        play_options(&opts),
        PlayOptions { start: 30, duration: 0, skip: Some("go".to_string()) }
    );
}

#[test]
fn play_options_later_one_wins() {
    let opts = vec![
        opt("start", OptionValue::Integer(30)),
        opt("start", OptionValue::Other),
        opt("duration", OptionValue::Integer(12)),
        opt("skip", OptionValue::Text("a".to_string())),
        opt("skip", OptionValue::Integer(3)),
    ];
    assert_eq!(play_options(&opts), PlayOptions { start: 0, duration: 12, skip: None });
    assert_eq!(play_options(&[]), PlayOptions { start: 0, duration: 0, skip: None });
}

#[test]
fn playlist_summary_lists_ignored_lines() {
    assert_eq!(
        playlist_summary(&[2, 15], 3),
        "총 2개의 행이 무시되었습니다.\n무시된 행: 2, 15\n총 3개의 곡이 추가되었습니다."
    );
    assert_eq!(playlist_summary(&[], 0), "총 0개의 곡이 추가되었습니다.");
}

#[test]
fn progress_line_in_minutes_and_seconds() {
    assert_eq!(progress_text(125, 3600), "2:5 / 60:0");
    assert_eq!(progress_text(0, 59), "0:0 / 0:59");
}

#[test]
fn numbers_parse_like_std() {
    for text in ["42", "-7", "+3", "0", "007", "9223372036854775807", "-9223372036854775808"] {
        assert_eq!(parse_i64(text), text.parse::<i64>().ok(), "{}", text);
    }
    for text in ["", "-", "+", "1a", " 1", "9223372036854775808", "-9223372036854775809", "--1"] {
        assert_eq!(parse_i64(text), None, "{}", text);
    }
}

#[test]
fn commas_split_like_std() {
    for text in ["a,,b", "", ",", "url,1,2,k,extra", "스킵,1"] {
        let expected: Vec<String> = text.split(',').map(|p| p.to_string()).collect();
        assert_eq!(split_commas(text), expected, "{}", text);
    }
}

#[test]
fn list_line_with_every_field() {
    assert_eq!(
        ListOption::parse("abc,10,20,스킵"),
        ListOption {
            url: "abc".to_string(),
            start: 10,
            duration: 20,
            skip: Some("스킵".to_string())
        }
    );
}

#[test]
fn list_line_with_missing_or_bad_fields() {
    assert_eq!(
        ListOption::parse("abc"),
        ListOption { url: "abc".to_string(), start: 0, duration: 0, skip: None }
    );
    assert_eq!(
        ListOption::parse("abc,x,5"),
        ListOption { url: "abc".to_string(), start: 0, duration: 5, skip: None }
    );
    assert_eq!(
        ListOption::parse("abc,1,2,k,extra"),
        ListOption { url: "abc".to_string(), start: 1, duration: 2, skip: Some("k".to_string()) }
    );
}
