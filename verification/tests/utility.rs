use llm_web::utility::{
    decimal, format_duration, format_with_commas, is_white_space, justify_string, LINE_WIDTH,
};

fn text(n: i64) -> String {
    decimal(n).into_iter().collect()
}

#[test]
fn decimal_writes_every_number_as_the_standard_library_does() {
    for n in [0, 1, 9, 10, 11, 99, 100, 101, 1_000, 65_535, 1_000_000_007, i64::MAX, i64::MAX - 1] {
        assert_eq!(text(n), n.to_string());
        assert_eq!(text(-n), (-n).to_string());
    }
    assert_eq!(text(i64::MIN), "-9223372036854775808");
    assert_eq!(text(-7), "-7");
    assert_eq!(text(1_203), "1203");
}

#[test]
fn commas_part_the_digits_in_threes() {
    assert_eq!(format_with_commas(0), "0");
    assert_eq!(format_with_commas(7), "7");
    assert_eq!(format_with_commas(42), "42");
    assert_eq!(format_with_commas(999), "999");
    assert_eq!(format_with_commas(1_000), "1,000");
    assert_eq!(format_with_commas(12_345), "12,345");
    assert_eq!(format_with_commas(123_456), "123,456");
    assert_eq!(format_with_commas(1_234_567), "1,234,567");
    assert_eq!(format_with_commas(1_000_000_000), "1,000,000,000");
    assert_eq!(format_with_commas(i64::MAX), "9,223,372,036,854,775,807");
}

#[test]
fn the_sign_counts_as_a_character() {
    assert_eq!(format_with_commas(-1), "-1");
    assert_eq!(format_with_commas(-12), "-12");
    assert_eq!(format_with_commas(-123), "-,123");
    assert_eq!(format_with_commas(-1_234), "-1,234");
    assert_eq!(format_with_commas(-12_345), "-12,345");
    assert_eq!(format_with_commas(-123_456), "-,123,456");
    assert_eq!(format_with_commas(i64::MIN), "-9,223,372,036,854,775,808");
}

#[test]
fn durations_below_a_minute_are_shown_in_seconds() {
    assert_eq!(format_duration(0), "0s");
    assert_eq!(format_duration(1), "1s");
    assert_eq!(format_duration(59), "59s");
    assert_eq!(format_duration(-5), "-5s");
    assert_eq!(format_duration(-7_200), "-7200s");
}

#[test]
fn durations_below_an_hour_are_shown_in_minutes() {
    assert_eq!(format_duration(60), "1m");
    assert_eq!(format_duration(119), "1m");
    assert_eq!(format_duration(120), "2m");
    assert_eq!(format_duration(3_599), "59m");
}

#[test]
fn durations_below_three_hours_are_shown_in_hours_and_minutes() {
    assert_eq!(format_duration(3_600), "1h 0m");
    assert_eq!(format_duration(3_659), "1h 0m");
    assert_eq!(format_duration(5_400), "1h 30m");
    assert_eq!(format_duration(7_200), "2h 0m");
    assert_eq!(format_duration(10_799), "2h 59m");
}

#[test]
fn longer_durations_are_shown_in_hours_rounded() {
    assert_eq!(format_duration(10_800), "3h");
    assert_eq!(format_duration(12_599), "3h");
    assert_eq!(format_duration(12_600), "4h");
    assert_eq!(format_duration(86_400), "24h");
    assert_eq!(format_duration(i64::MAX), "2562047788015216h");
}

/// The same text set with the standard library's splitting, to hold the
/// library's against.
fn set_by_the_standard_library(s: &str) -> String {
    let mut result = String::new();
    let mut line_length = 0;
    for word in s.split_whitespace() {
        let word_length = word.len();
        if line_length + word_length + 1 > 80 {
            result.push('\n');
            line_length = 0;
        } else if line_length > 0 {
            result.push(' ');
            line_length += 1;
        }
        result.push_str(word);
        line_length += word_length;
    }
    result
}

#[test]
fn white_space_is_what_the_standard_library_takes_for_it() {
    for u in 0..=0x11_0000u32 {
        if let Some(c) = char::from_u32(u) {
            assert_eq!(is_white_space(c), c.is_whitespace(), "{u:#x}");
        }
    }
}

#[test]
fn words_are_joined_by_one_space() {
    assert_eq!(justify_string(""), "");
    assert_eq!(justify_string("   \n\t "), "");
    assert_eq!(justify_string("a"), "a");
    assert_eq!(justify_string("a b"), "a b");
    assert_eq!(justify_string("  a \n\n b\t\tc  "), "a b c");
    assert_eq!(justify_string("one\u{a0}two\u{3000}three"), "one two three");
}

#[test]
fn a_line_is_broken_before_the_word_that_makes_it_too_long() {
    let word = "abcdefghi";
    let input = [word; 9].join(" ");
    assert_eq!(input.len(), 89);
    let expected = format!("{}\n{}", [word; 8].join(" "), word);
    assert_eq!(justify_string(&input), expected);
    assert_eq!(expected.lines().next().unwrap().len(), 79);

    let seventy_nine = "x".repeat(79);
    assert_eq!(justify_string(&format!("{seventy_nine} y")), format!("{seventy_nine}\ny"));
    let seventy_seven = "x".repeat(77);
    assert_eq!(justify_string(&format!("{seventy_seven} y z")), format!("{seventy_seven} y\nz"));
}

#[test]
fn a_word_as_long_as_a_line_goes_on_a_line_of_its_own() {
    let long = "w".repeat(LINE_WIDTH);
    assert_eq!(justify_string(&long), format!("\n{long}"));
    assert_eq!(justify_string(&format!("a {long} b")), format!("a\n{long}\nb"));
    let longer = "w".repeat(200);
    assert_eq!(justify_string(&format!("{longer} {longer}")), format!("\n{longer}\n{longer}"));
}

#[test]
fn width_is_counted_in_bytes() {
    let word = "é".repeat(20);
    assert_eq!(word.len(), 40);
    assert_eq!(justify_string(&format!("{word} {word}")), format!("{word}\n{word}"));
    let word = "é".repeat(19);
    assert_eq!(justify_string(&format!("{word} {word}")), format!("{word} {word}"));
}

#[test]
fn justification_agrees_with_the_standard_library_on_running_text() {
    let mut text = String::new();
    for i in 0..2_000u32 {
        text.push_str(&"ab".repeat((i % 17) as usize));
        text.push(if i % 5 == 0 { '\n' } else { ' ' });
        if i % 7 == 0 {
            text.push_str("  \t");
        }
        if i % 301 == 0 {
            text.push_str(&"long".repeat(30));
        }
    }
    assert_eq!(justify_string(&text), set_by_the_standard_library(&text));
    for line in justify_string(&text).lines() {
        assert!(line.len() <= 80 || !line.contains(' '));
    }
}
