use waylock_rs::config::Config;
use waylock_rs::render::ButtonRect;
use waylock_rs::session::{
    auth_result, login_name, AuthOutcome, AuthResult, ConfigureOutcome, KeyOutcome, Locker,
    PointerInput, BUTTON_LEFT, KEY_BACK_SPACE, KEY_DELETE, KEY_ESCAPE, KEY_KP_ENTER, KEY_RETURN,
    SECOND,
};

use xkeysym::Keysym;

const KEY_A: u32 = 0x61;

fn locker(off_after: u64, command: Option<Vec<String>>) -> Locker {
    let mut config = Config::default();
    config.off_after = off_after;
    config.power_off_command = command;
    Locker::new(config, 2, 1000 * SECOND)
}

fn command() -> Option<Vec<String>> {
    Some(vec![String::from("niri"), String::from("msg"), String::from("off")])
}

fn type_text(locker: &mut Locker, text: &str) {
    assert!(matches!(
        locker.handle_key(KEY_A, Some(text), 1000 * SECOND),
        KeyOutcome::Redraw
    ));
}

#[test]
fn key_codes() {
    assert_eq!(KEY_RETURN, Keysym::Return.raw());
    assert_eq!(KEY_KP_ENTER, Keysym::KP_Enter.raw());
    assert_eq!(KEY_BACK_SPACE, Keysym::BackSpace.raw());
    assert_eq!(KEY_DELETE, Keysym::Delete.raw());
    assert_eq!(KEY_ESCAPE, Keysym::Escape.raw());
}

#[test]
fn a_password_is_typed_and_submitted() {
    let mut l = locker(600, None);
    type_text(&mut l, "a");
    type_text(&mut l, "b\u{7}\u{e4}\r\u{9f}");
    assert_eq!(l.password, "ab\u{e4}");
    assert_eq!(l.surface_content("", "").password_len, 3);
    match l.handle_key(KEY_RETURN, Some("\r"), 1001 * SECOND) {
        KeyOutcome::Authenticate(request) => {
            assert_eq!(request.password, "ab\u{e4}");
            assert_eq!(request.pam_service, "swaylock");
        }
        _ => panic!("nothing submitted"),
    }
    assert!(l.auth_in_flight);
    assert_eq!(l.password, "");
    assert_eq!(l.last_activity, 1001 * SECOND);
}

#[test]
fn nothing_is_submitted_without_a_password_or_twice() {
    let mut l = locker(600, None);
    assert!(matches!(l.handle_key(KEY_KP_ENTER, None, 0), KeyOutcome::Nothing));
    assert!(!l.auth_in_flight);
    type_text(&mut l, "x");
    assert!(matches!(
        l.handle_key(KEY_KP_ENTER, None, 0),
        KeyOutcome::Authenticate(_)
    ));
    // What is typed meanwhile is dropped.
    assert!(matches!(l.handle_key(KEY_A, Some("y"), 0), KeyOutcome::Nothing));
    assert_eq!(l.password, "");
    assert!(matches!(l.handle_key(KEY_RETURN, None, 0), KeyOutcome::Nothing));
    assert_eq!(l.auth_finished(AuthResult::Failure, 0), AuthOutcome::Redraw);
    type_text(&mut l, "z");
    assert!(matches!(
        l.handle_key(KEY_RETURN, None, 0),
        KeyOutcome::Authenticate(_)
    ));
}

#[test]
fn the_password_is_edited() {
    let mut l = locker(600, None);
    type_text(&mut l, "ab\u{1f512}");
    assert!(matches!(l.handle_key(KEY_BACK_SPACE, Some("\u{8}"), 0), KeyOutcome::Redraw));
    assert_eq!(l.password, "ab");
    assert!(matches!(l.handle_key(KEY_DELETE, None, 0), KeyOutcome::Redraw));
    assert_eq!(l.password, "a");
    type_text(&mut l, "cd");
    assert!(matches!(l.handle_key(KEY_ESCAPE, None, 0), KeyOutcome::Redraw));
    assert_eq!(l.password, "");
    assert!(matches!(l.handle_key(KEY_BACK_SPACE, None, 0), KeyOutcome::Redraw));
    assert_eq!(l.password, "");
    assert!(matches!(l.handle_key(KEY_A, None, 0), KeyOutcome::Nothing));
}

#[test]
fn success_unlocks_once() {
    let mut l = locker(600, None);
    assert!(l.locked && !l.exit);
    assert_eq!(l.auth_finished(AuthResult::Success, 0), AuthOutcome::Unlock);
    assert!(!l.locked && l.exit);
    assert_eq!(l.auth_finished(AuthResult::Success, 0), AuthOutcome::Leave);

    let mut l = locker(600, None);
    l.finished();
    assert!(l.locked && l.exit);
}

#[test]
fn failure_shows_a_message_for_two_seconds() {
    let mut l = locker(600, None);
    type_text(&mut l, "x");
    let now = 1000 * SECOND;
    assert_eq!(l.auth_finished(AuthResult::Failure, now), AuthOutcome::Redraw);
    assert!(l.locked && !l.exit && !l.auth_in_flight);
    assert_eq!(l.password, "");
    assert!(l.surface_content("", "").show_error);
    l.tick(now + 2 * SECOND - 1);
    assert!(l.surface_content("", "").show_error);
    l.tick(now + 2 * SECOND);
    assert!(!l.surface_content("", "").show_error);
}

#[test]
fn the_countdown() {
    let mut l = locker(600, command());
    let start = 1000 * SECOND;
    assert_eq!(l.first_timer_text(), "OFF IN 10:00");
    assert_eq!(l.timer_text(start), "OFF IN 10:00");
    assert_eq!(l.timer_text(start - 5), "OFF IN 10:00");
    assert_eq!(l.timer_text(start + SECOND - 1), "OFF IN 10:00");
    assert_eq!(l.timer_text(start + SECOND), "OFF IN 09:59");
    assert_eq!(l.timer_text(start + 600 * SECOND), "OFF IN 00:00");
    assert_eq!(l.timer_text(start + 6000 * SECOND), "OFF IN 00:00");
    assert!(l.tick(start + 600 * SECOND - 1).is_none());
    let launch = l.tick(start + 600 * SECOND).unwrap();
    assert_eq!(launch.program, "niri");
    assert_eq!(launch.args, vec![String::from("msg"), String::from("off")]);
    assert!(l.monitors_off);
    assert!(l.tick(start + 601 * SECOND).is_none());
    l.note_activity(start + 700 * SECOND);
    assert!(!l.monitors_off);
    assert_eq!(l.timer_text(start + 700 * SECOND), "OFF IN 10:00");
    assert!(l.tick(start + 1299 * SECOND).is_none());
    assert!(l.tick(start + 1300 * SECOND).is_some());
}

#[test]
fn the_countdown_is_visual_by_default() {
    let mut l = locker(1, None);
    assert!(l.tick(2000 * SECOND).is_none());
    assert!(l.monitors_off);
    assert!(!l.surface_content("", "").button_enabled);

    let mut l = locker(1, Some(Vec::new()));
    assert!(l.power_off_monitors().is_none());
    assert!(l.surface_content("", "").button_enabled);
}

#[test]
fn surfaces_are_configured() {
    let mut l = locker(600, command());
    assert!(!l.screens[0].is_configured());
    assert_eq!(l.configure(None, 640, 480, None), ConfigureOutcome::Ignore);
    assert_eq!(l.configure(Some(0), 0, 480, None), ConfigureOutcome::Ignore);
    assert_eq!(l.configure(Some(0), 640, 0, None), ConfigureOutcome::Ignore);
    assert_eq!(l.screens[0].width, 0);
    assert_eq!(
        l.configure(Some(0), 640, 480, None),
        ConfigureOutcome::DrawInNewPool(640 * 480 * 4)
    );
    assert_eq!(
        l.configure(Some(0), 800, 600, Some(640 * 480 * 4)),
        ConfigureOutcome::DrawInNewPool(800 * 600 * 4)
    );
    assert_eq!(
        l.configure(Some(0), 800, 600, Some(800 * 600 * 4)),
        ConfigureOutcome::Draw
    );
    assert!(l.screens[0].is_configured());
    assert!(!l.screens[1].is_configured());
    assert_eq!(l.screens[0].button, ButtonRect::place(800, 600, true));
    let content = l.first_surface_content("clock", "timer");
    assert_eq!(content.password_len, 0);
    assert!(!content.show_error && content.button_enabled);
    assert_eq!((content.clock, content.timer), ("clock", "timer"));
    assert_eq!(content.background, 0x4B3F72);
}

fn press(surface: Option<usize>, button: Option<u32>, x: i64, y: i64) -> PointerInput {
    PointerInput { surface, pressed: button, x, y }
}

#[test]
fn a_click_on_the_button_turns_the_screen_off() {
    let mut l = locker(600, command());
    l.configure(Some(1), 1920, 1080, None);
    let button = l.screens[1].button;
    let (x, y) = (button.x as i64, button.y as i64);
    let (right, bottom) = (x + button.width as i64, y + button.height as i64);
    let now = 1100 * SECOND;

    for input in [
        press(Some(1), None, x, y),
        press(Some(1), Some(BUTTON_LEFT + 1), x, y),
        press(Some(0), Some(BUTTON_LEFT), x, y),
        press(None, Some(BUTTON_LEFT), x, y),
        press(Some(7), Some(BUTTON_LEFT), x, y),
        press(Some(1), Some(BUTTON_LEFT), x - 1, y),
        press(Some(1), Some(BUTTON_LEFT), x, y - 1),
        press(Some(1), Some(BUTTON_LEFT), right, y),
        press(Some(1), Some(BUTTON_LEFT), x, bottom),
    ] {
        assert!(l.pointer_frame(&vec![input], now).is_none());
        assert!(!l.monitors_off);
        assert_eq!(l.last_activity, now);
    }

    let inputs = vec![
        press(Some(1), None, 0, 0),
        press(Some(1), Some(BUTTON_LEFT), right - 1, bottom - 1),
        press(Some(1), None, 0, 0),
    ];
    let launch = l.pointer_frame(&inputs, now + 1).unwrap();
    assert_eq!(launch.program, "niri");
    assert!(l.monitors_off);
    assert_eq!(l.last_activity, now + 1);

    assert!(l.pointer_frame(&Vec::new(), now + 2).is_none());
    assert!(l.monitors_off);
    assert_eq!(l.last_activity, now + 1);
}

#[test]
fn results_and_names() {
    assert_eq!(auth_result::<(), ()>(&Ok(())), AuthResult::Success);
    assert_eq!(auth_result::<(), ()>(&Err(())), AuthResult::Failure);
    assert_eq!(login_name(Some(String::from("me"))), "me");
    assert_eq!(login_name(None), "root");
}
