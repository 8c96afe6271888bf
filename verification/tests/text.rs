use waylock_rs::session::{format_clock, format_duration};
use waylock_rs::text::{
    characters, control_code, find, push_decimal, push_two_digits, same_text, split_words, to_text,
    trim, white,
};

#[test]
fn character_classes_are_those_of_unicode() {
    for code in 0..=0x10FFFFu32 {
        if let Some(c) = char::from_u32(code) {
            assert_eq!(white(c), c.is_whitespace(), "{:x}", code);
            assert_eq!(control_code(c), c.is_control(), "{:x}", code);
        }
    }
}

#[test]
fn trimming_and_splitting() {
    let texts = [
        "", " ", "a", " a", "a ", " a b ", "\t\na\u{a0}\u{2003}b\r\n", "\u{200b}a", "ab  cd e",
        "\u{3000}\u{e4}\u{f6} \u{1f512}\u{85}",
    ];
    for text in texts {
        let chars = characters(text);
        assert_eq!(to_text(trim(&chars)), text.trim());
        let words: Vec<String> = text.split_whitespace().map(String::from).collect();
        assert_eq!(split_words(&chars), words);
    }
}

#[test]
fn texts_are_taken_apart_and_put_together() {
    let text = "a\u{e4}\u{1f512}\n";
    let chars = characters(text);
    assert_eq!(chars, vec!['a', '\u{e4}', '\u{1f512}', '\n']);
    assert_eq!(to_text(&chars), text);
    assert_eq!(find(&chars, '\n'), 3);
    assert_eq!(find(&chars, 'a'), 0);
    assert_eq!(find(&chars, 'b'), 4);
    assert!(same_text(text, "a\u{e4}\u{1f512}\n"));
    assert!(!same_text(text, "a\u{e4}\u{1f512}"));
    assert!(!same_text("abc", "abd"));
    assert!(same_text("", ""));
}

#[test]
fn numbers_are_appended() {
    for n in [0u64, 5, 9, 10, 99, 100, 1234567890, u64::MAX] {
        let mut text = String::from("n=");
        push_decimal(&mut text, n as u128);
        assert_eq!(text, format!("n={}", n));
        let mut text = String::new();
        push_two_digits(&mut text, n);
        assert_eq!(text, format!("{:02}", n));
    }
}

#[test]
fn durations() {
    assert_eq!(format_duration(0), "00:00");
    assert_eq!(format_duration(59), "00:59");
    assert_eq!(format_duration(60), "01:00");
    assert_eq!(format_duration(600), "10:00");
    assert_eq!(format_duration(6000), "100:00");
    for seconds in [1u64, 61, 3599, 3600, 86399, u64::MAX] {
        assert_eq!(
            format_duration(seconds),
            format!("{:02}:{:02}", seconds / 60, seconds % 60)
        );
    }
}

#[test]
fn clocks() {
    assert_eq!(format_clock(0, 0, 0), "00:00:00");
    assert_eq!(format_clock(23, 59, 60), "23:59:60");
    for (h, m, s) in [(7, 8, 9), (-1, -10, -123), (i32::MIN, i32::MAX, 100)] {
        assert_eq!(format_clock(h, m, s), format!("{:02}:{:02}:{:02}", h, m, s));
    }
}
