use waylock_rs::config::{
    apply_config_file, apply_config_value, parse_color, unquote, Config, ConfigError, Problem,
};
use waylock_rs::number::{parse_number, NumberError};

fn strings(list: &[&str]) -> Vec<String> {
    list.iter().map(|s| String::from(*s)).collect()
}

#[test]
fn config_values_are_applied() {
    let mut config = Config::default();
    apply_config_value(&mut config, "color", "123456", "test").unwrap();
    apply_config_value(&mut config, "off-after", "42", "test").unwrap();
    apply_config_value(
        &mut config,
        "power-off-command",
        "niri msg action power-off-monitors",
        "test",
    )
    .unwrap();
    apply_config_value(&mut config, "pam-service", "login", "test").unwrap();

    assert_eq!(config.color, 0x123456);
    assert_eq!(config.off_after, 42);
    assert_eq!(
        config.power_off_command,
        Some(vec![
            String::from("niri"),
            String::from("msg"),
            String::from("action"),
            String::from("power-off-monitors"),
        ])
    );
    assert_eq!(config.pam_service, "login");
}

#[test]
fn empty_power_off_command_disables_action() {
    let mut config = Config::default();
    apply_config_value(&mut config, "power-off-command", "", "test").unwrap();
    assert!(config.power_off_command.is_none());
}

#[test]
fn whitespace_power_off_command_disables_action() {
    let mut config = Config::default();
    apply_config_value(&mut config, "power-off-command", "   ", "test").unwrap();
    assert!(config.power_off_command.is_none());
}

#[test]
fn defaults() {
    let config = Config::default();
    assert_eq!(config.color, 0x4B3F72);
    assert_eq!(config.off_after, 600);
    assert!(config.power_off_command.is_none());
    assert_eq!(config.pam_service, "swaylock");
}

#[test]
fn keys_may_be_written_with_underscores() {
    let mut config = Config::default();
    apply_config_value(&mut config, "off_after", "7", "test").unwrap();
    apply_config_value(&mut config, "power_off_command", "\u{2003}a\tb ", "test").unwrap();
    apply_config_value(&mut config, "pam_service", "su", "test").unwrap();
    assert_eq!(config.off_after, 7);
    assert_eq!(config.power_off_command, Some(strings(&["a", "b"])));
    assert_eq!(config.pam_service, "su");
}

#[test]
fn failed_values_leave_the_settings() {
    let mut config = Config::default();
    let error = apply_config_value(&mut config, "off-after", "ten", "file:3").unwrap_err();
    assert_eq!(error.message(), "file:3: invalid off-after");
    let error = apply_config_value(&mut config, "colour", "123456", "file:4").unwrap_err();
    assert_eq!(error.message(), "file:4: unknown key colour");
    let error = apply_config_value(&mut config, "color", "12345", "file:5").unwrap_err();
    assert_eq!(error.message(), "color must be exactly six hexadecimal digits");
    let error = apply_config_value(&mut config, "color", "12345g", "file:6").unwrap_err();
    assert_eq!(error.message(), "invalid digit found in string");
    assert_eq!(config.color, 0x4B3F72);
    assert_eq!(config.off_after, 600);
}

#[test]
fn quotation_marks_come_off_in_pairs() {
    assert_eq!(unquote("\"a b\""), "a b");
    assert_eq!(unquote("'a b'"), "a b");
    assert_eq!(unquote("\"\""), "");
    assert_eq!(unquote("\""), "\"");
    assert_eq!(unquote("'"), "'");
    assert_eq!(unquote("\"a'"), "\"a'");
    assert_eq!(unquote("'\"a\"'"), "\"a\"");
    assert_eq!(unquote("a\""), "a\"");
    assert_eq!(unquote(""), "");
    assert_eq!(unquote("\"\u{e4}\u{1f512}\""), "\u{e4}\u{1f512}");
}

#[test]
fn colors() {
    assert_eq!(parse_color("4B3F72").unwrap(), 0x4B3F72);
    assert_eq!(parse_color("#4b3f72").unwrap(), 0x4B3F72);
    assert_eq!(parse_color("ffFFff").unwrap(), 0xFFFFFF);
    assert_eq!(parse_color("000000").unwrap(), 0);
    assert!(matches!(parse_color(""), Err(Problem::ColorLength)));
    assert!(matches!(parse_color("#"), Err(Problem::ColorLength)));
    assert!(matches!(parse_color("1234567"), Err(Problem::ColorLength)));
    assert!(matches!(parse_color("#12345"), Err(Problem::ColorLength)));
    assert!(matches!(
        parse_color("##12345"),
        Err(Problem::Number(NumberError::InvalidDigit))
    ));
    assert!(matches!(
        parse_color("+12345"),
        Err(Problem::Number(NumberError::InvalidDigit))
    ));
    assert!(matches!(
        parse_color("#+12345"),
        Err(Problem::Number(NumberError::InvalidDigit))
    ));
    assert!(matches!(
        parse_color("-12345"),
        Err(Problem::Number(NumberError::InvalidDigit))
    ));
    // Six characters of more than six bytes, and five characters of six bytes.
    assert!(matches!(parse_color("12345\u{e9}"), Err(Problem::ColorLength)));
    assert!(matches!(
        parse_color("1234\u{e9}"),
        Err(Problem::Number(NumberError::InvalidDigit))
    ));
}

#[test]
fn every_color_reads_back() {
    for color in (0u32..0x1000000).step_by(4099) {
        assert_eq!(parse_color(&format!("{:06X}", color)).unwrap(), color);
        assert_eq!(parse_color(&format!("#{:06x}", color)).unwrap(), color);
    }
}

#[test]
fn numbers_are_read_as_the_standard_library_reads_them() {
    let texts = [
        "", "+", "-", "0", "00", "+0", "-0", "+-1", "++1", "42", " 42", "42 ", "4_2", "0x10",
        "18446744073709551615", "18446744073709551616", "+18446744073709551615",
        "184467440737095516150", "99999999999999999999x", "x99999999999999999999", "1844674407370955161x",
        "000000000000000000000000000001", "\u{661}", "12\u{e9}", "ff", "FFFFFFFF", "100000000", "fg",
    ];
    for text in texts {
        let ours = parse_number(text, 10, u64::MAX);
        let theirs = text.parse::<u64>();
        assert_eq!(ours.ok(), theirs.clone().ok(), "{}", text);
        if let (Err(error), Err(expected)) = (ours, theirs) {
            assert_eq!(error.message(), expected.to_string(), "{}", text);
        }
        let ours = parse_number(text, 16, u32::MAX as u64);
        let theirs = u32::from_str_radix(text, 16);
        assert_eq!(ours.ok(), theirs.clone().ok().map(|n| n as u64), "{}", text);
        if let (Err(error), Err(expected)) = (ours, theirs) {
            assert_eq!(error.message(), expected.to_string(), "{}", text);
        }
    }
    assert_eq!(parse_number("", 10, 5), Err(NumberError::Empty));
    assert_eq!(parse_number("x", 10, 5), Err(NumberError::InvalidDigit));
    assert_eq!(parse_number("6", 10, 5), Err(NumberError::TooLarge));
    assert_eq!(parse_number("5", 10, 5), Ok(5));
}

#[test]
fn a_file_is_read_line_by_line() {
    let mut config = Config::default();
    let contents = "# settings\n\n  color = \"102030\"  # a comment\r\noff-after=9\n\
                    power-off-command = 'wlopm --off *'\npam-service = login\noff_after = 12";
    apply_config_file(&mut config, "/etc/c", contents).unwrap();
    assert_eq!(config.color, 0x102030);
    assert_eq!(config.off_after, 12);
    assert_eq!(
        config.power_off_command,
        Some(strings(&["wlopm", "--off", "*"]))
    );
    assert_eq!(config.pam_service, "login");
}

#[test]
fn a_value_may_hold_equals_signs() {
    let mut config = Config::default();
    apply_config_file(&mut config, "c", "pam-service = a=b = c\n").unwrap();
    assert_eq!(config.pam_service, "a=b = c");
}

fn file_error(contents: &str) -> (Config, ConfigError) {
    let mut config = Config::default();
    let error = apply_config_file(&mut config, "dir/config", contents).unwrap_err();
    (config, error)
}

#[test]
fn a_file_is_read_up_to_its_first_mistake() {
    let (config, error) = file_error("off-after = 5\n\ncolor\noff-after = 6");
    assert_eq!(error.message(), "dir/config:3: expected key = value");
    assert_eq!(config.off_after, 5);

    let (_, error) = file_error("off-after = soon");
    assert_eq!(error.message(), "dir/config:1: invalid off-after");

    let contents = format!("{}size = 3\n", "\n".repeat(11));
    let (_, error) = file_error(&contents);
    assert_eq!(error.message(), "dir/config:12: unknown key size");

    let (_, error) = file_error("=");
    assert_eq!(error.message(), "dir/config:1: unknown key ");

    // A hash sign begins a comment wherever it stands.
    let (_, error) = file_error("color = #102030");
    assert_eq!(error.message(), "color must be exactly six hexadecimal digits");
}

#[test]
fn comments_and_blank_lines_change_nothing() {
    let mut config = Config::default();
    apply_config_file(&mut config, "c", "").unwrap();
    apply_config_file(&mut config, "c", "\n\n").unwrap();
    apply_config_file(&mut config, "c", "  \t\r\n# off-after = 1\n   #\n\u{3000}").unwrap();
    assert_eq!(config.off_after, 600);
}

#[test]
fn a_file_in_two_parts_is_read_in_order() {
    let first = "off-after = 1\npam-service = a";
    let second = "off-after = 2\ncolor = 000001";
    let mut whole = Config::default();
    apply_config_file(&mut whole, "c", &format!("{}\n{}", first, second)).unwrap();
    let mut parts = Config::default();
    apply_config_file(&mut parts, "c", first).unwrap();
    apply_config_file(&mut parts, "c", second).unwrap();
    assert_eq!(whole.off_after, 2);
    assert_eq!(whole.off_after, parts.off_after);
    assert_eq!(whole.color, parts.color);
    assert_eq!(whole.pam_service, parts.pam_service);
}
