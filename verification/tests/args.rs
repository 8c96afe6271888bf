use waylock_rs::args::{
    apply_args, config_source, default_config_path, file_to_read, parse_args, ConfigFile,
    ConfigSource, Place, Request,
};
use waylock_rs::config::{Config, Problem};

fn strings(list: &[&str]) -> Vec<String> {
    list.iter().map(|s| String::from(*s)).collect()
}

fn message(list: &[&str]) -> String {
    let mut config = Config::default();
    apply_args(&mut config, &strings(list)).unwrap_err().message()
}

#[test]
fn options_set_values() {
    let mut config = Config::default();
    let args = strings(&[
        "--color", "#0000ff", "--no-config", "--off-after", "30", "--config", "x", "--pam-service", "login",
    ]);
    assert_eq!(apply_args(&mut config, &args).unwrap(), Request::Lock);
    assert_eq!(config.color, 0x0000FF);
    assert_eq!(config.off_after, 30);
    assert_eq!(config.pam_service, "login");
    assert!(config.power_off_command.is_none());
}

#[test]
fn the_power_off_command_takes_all_that_follows() {
    let mut config = Config::default();
    let args = strings(&[
        "--off-after", "600", "--power-off-command", "niri", "msg", "--help", "--color",
    ]);
    assert_eq!(apply_args(&mut config, &args).unwrap(), Request::Lock);
    assert_eq!(
        config.power_off_command,
        Some(strings(&["niri", "msg", "--help", "--color"]))
    );
    assert_eq!(config.color, 0x4B3F72);
}

#[test]
fn help_and_version_end_the_reading() {
    let mut config = Config::default();
    for (list, request) in [
        (vec!["-h"], Request::Help),
        (vec!["--no-config", "--help", "--bogus"], Request::Help),
        (vec!["-V", "--help"], Request::Version),
        (vec!["--off-after", "1", "--version", "--color"], Request::Version),
        (vec![], Request::Lock),
    ] {
        assert_eq!(apply_args(&mut config, &strings(&list)).unwrap(), request);
    }
}

#[test]
fn mistakes_on_the_command_line() {
    assert_eq!(message(&["--color"]), "--color requires RRGGBB");
    assert_eq!(message(&["--off-after"]), "--off-after requires seconds");
    assert_eq!(
        message(&["--power-off-command"]),
        "--power-off-command requires a program"
    );
    assert_eq!(message(&["--pam-service"]), "--pam-service requires a name");
    assert_eq!(message(&["--config"]), "--config requires a path");
    assert_eq!(message(&["-x"]), "unknown argument: -x");
    assert_eq!(message(&["--pam-service", "a", "b"]), "unknown argument: b");
    assert_eq!(
        message(&["--color", "red"]),
        "color must be exactly six hexadecimal digits"
    );
    assert_eq!(message(&["--color", "reddd!"]), "invalid digit found in string");
    assert_eq!(message(&["--off-after", ""]), "cannot parse integer from empty string");
    assert_eq!(message(&["--off-after", "-1"]), "invalid digit found in string");
    assert_eq!(
        message(&["--off-after", "18446744073709551616"]),
        "number too large to fit in target type"
    );
}

#[test]
fn a_later_option_prevails() {
    let mut config = Config::default();
    let args = strings(&["--off-after", "1", "--color", "000001", "--off-after", "2"]);
    apply_args(&mut config, &args).unwrap();
    assert_eq!(config.off_after, 2);
    assert_eq!(config.color, 1);
}

#[test]
fn the_settings_file_is_looked_up_among_the_options() {
    let source = config_source(&strings(&[])).unwrap();
    assert!(source.path.is_none() && source.load);

    let source = config_source(&strings(&["--config", "a", "--color", "x", "--config", "b"])).unwrap();
    assert_eq!(source.path, Some(String::from("b")));
    assert!(source.load);

    let source = config_source(&strings(&["--config", "--no-config"])).unwrap();
    assert_eq!(source.path, Some(String::from("--no-config")));
    assert!(source.load);

    let source = config_source(&strings(&["--no-config", "--config", "a"])).unwrap();
    assert_eq!(source.path, Some(String::from("a")));
    assert!(!source.load);

    // Values of other options, and arguments of the command, do not count.
    for list in [
        vec!["--pam-service", "--no-config"],
        vec!["--color", "--config", "--off-after", "--no-config"],
        vec!["--power-off-command", "p", "--config", "q"],
        vec!["--power-off-command", "p", "--no-config", "--config"],
        vec!["--power-off-command"],
        vec!["--off-after"],
    ] {
        let source = config_source(&strings(&list)).unwrap();
        assert!(source.path.is_none() && source.load);
    }

    assert!(matches!(
        config_source(&strings(&["--help", "--config"])),
        Err(Problem::MissingPath)
    ));
}

#[test]
fn the_default_path() {
    assert_eq!(
        default_config_path(Some("/x"), Some("/home/u")),
        Some(("/x", "waylock-rs/config"))
    );
    assert_eq!(
        default_config_path(None, Some("/home/u")),
        Some(("/home/u", ".config/waylock-rs/config"))
    );
    assert_eq!(default_config_path::<&str>(None, None), None);
}

#[test]
fn options_override_the_settings_file() {
    let file = Some(ConfigFile {
        path: String::from("c"),
        contents: String::from("color = 111111\noff-after = 5\npower-off-command = a b"),
    });
    let args = strings(&["--off-after", "6"]);
    let (config, request) = parse_args(&args, &file).ok().unwrap();
    assert_eq!(request, Request::Lock);
    assert_eq!(config.color, 0x111111);
    assert_eq!(config.off_after, 6);
    assert_eq!(config.power_off_command, Some(strings(&["a", "b"])));
    assert_eq!(config.pam_service, "swaylock");

    let (config, _) = parse_args(&strings(&["--color", "4B3F72"]), &None).ok().unwrap();
    assert_eq!(config.off_after, 600);
}

#[test]
fn a_mistake_in_the_file_comes_before_one_in_the_options() {
    let file = Some(ConfigFile {
        path: String::from("c"),
        contents: String::from("colour = 111111"),
    });
    let error = parse_args(&strings(&["--help"]), &file).err().unwrap();
    assert_eq!(error.message(), "c:1: unknown key colour");
    let error = parse_args(&strings(&["--bogus"]), &None).err().unwrap();
    assert_eq!(error.message(), "unknown argument: --bogus");
}

#[test]
fn usual_command_lines() {
    let args = strings(&["--color", "4B3F72", "--off-after", "600"]);
    let (config, request) = parse_args(&args, &None).ok().unwrap();
    assert_eq!(request, Request::Lock);
    assert_eq!((config.color, config.off_after), (0x4B3F72, 600));
    assert!(config.power_off_command.is_none());

    let args = strings(&[
        "--color", "4B3F72", "--off-after", "600", "--power-off-command", "niri", "msg", "action",
        "power-off-monitors",
    ]);
    let (config, _) = parse_args(&args, &None).ok().unwrap();
    assert_eq!(
        config.power_off_command,
        Some(strings(&["niri", "msg", "action", "power-off-monitors"]))
    );
}

#[test]
fn the_command_keeps_its_own_arguments() {
    let args = strings(&["--no-config", "--power-off-command", "prog", "--config"]);
    let source = config_source(&args).unwrap();
    assert!(source.path.is_none() && !source.load);
    let (config, request) = parse_args(&args, &None).ok().unwrap();
    assert_eq!(request, Request::Lock);
    assert_eq!(config.power_off_command, Some(strings(&["prog", "--config"])));
    assert_eq!((config.color, config.off_after), (0x4B3F72, 600));
    assert_eq!(config.pam_service, "swaylock");
}

#[test]
fn no_file_matters_where_reading_it_is_forbidden() {
    for contents in ["x", "off-after = 5", ""] {
        for list in [
            vec!["--no-config"],
            vec!["--config", "c", "--no-config", "--pam-service", "a"],
            vec!["--no-config", "--config", "c"],
        ] {
            let file = Some(ConfigFile {
                path: String::from("c"),
                contents: String::from(contents),
            });
            let (config, request) = parse_args(&strings(&list), &file).ok().unwrap();
            assert_eq!(request, Request::Lock);
            assert_eq!(config.off_after, 600);
        }
    }
    // As the value of another option it forbids nothing.
    let file = Some(ConfigFile { path: String::from("c"), contents: String::from("off-after = 5") });
    let (config, _) = parse_args(&strings(&["--pam-service", "--no-config"]), &file).ok().unwrap();
    assert_eq!(config.off_after, 5);
    assert_eq!(config.pam_service, "--no-config");

    let error = parse_args(&strings(&["--help", "--config"]), &file).err().unwrap();
    assert_eq!(error.message(), "--config requires a path");
}

fn source(path: Option<&str>, load: bool) -> ConfigSource {
    ConfigSource { path: path.map(String::from), load }
}

#[test]
fn the_file_to_read() {
    assert!(matches!(
        file_to_read(source(Some("a"), false), Some("/x"), Some("/h")),
        Place::Nothing
    ));
    assert!(matches!(
        file_to_read(source(Some("a"), true), Some("/x"), Some("/h")),
        Place::Named(path) if path == "a"
    ));
    assert!(matches!(
        file_to_read(source(None, true), Some("/x"), Some("/h")),
        Place::InFolder("/x", "waylock-rs/config")
    ));
    assert!(matches!(
        file_to_read(source(None, true), None, Some("/h")),
        Place::InFolder("/h", ".config/waylock-rs/config")
    ));
    assert!(matches!(
        file_to_read::<&str>(source(None, true), None, None),
        Place::Nothing
    ));
}
