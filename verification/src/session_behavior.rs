//! What a lock session does at each event: with keys, with the pointer, when the clock
//! ticks and when an authentication is over.
use vstd::prelude::*;

#[allow(unused_imports)]
use crate::config::Settings;
#[allow(unused_imports)]
use crate::render::ButtonRect;
#[allow(unused_imports)]
use crate::session::{
    printable, starts, AuthResult, Launch, Locker, PointerInput, Screen, State,
};
#[allow(unused_imports)]
use crate::text::texts;

verus! {

/// A session begins locked, with nothing typed and nothing being checked, with the whole
/// countdown ahead, and with surfaces on which nothing can be clicked.
pub proof fn law_session_begins_locked(
    settings: Settings,
    screens: nat,
    now: int,
    inputs: Seq<PointerInput>,
)
    ensures
        ({
            let state = State::initial(settings, screens, now);
            &&& state.settings == settings
            &&& state.locked && !state.exit
            &&& state.password.len() == 0 && !state.auth_in_flight
            &&& state.auth_error_until is None
            &&& !state.monitors_off
            &&& state.last_activity == now
            &&& state.remaining(now) == settings.off_after
            &&& state.screens.len() == screens
            &&& forall|i: int|
                0 <= i < screens ==> (#[trigger] state.screens[i]).width == 0
                    && state.screens[i].height == 0 && !state.screens[i].button.visible
            &&& state.pointer_launch(inputs) is None
        }),
{
}

/// Whether a key types: whether it is none of `Return`, `KP_Enter`, `BackSpace`, `Delete`
/// and `Escape`.
pub open spec fn types(keysym: u32) -> bool {
    keysym != 0xFF0D && keysym != 0xFF8D && keysym != 0xFF08 && keysym != 0xFFFF && keysym
        != 0xFF1B
}

/// What a text leaves in the password is the text without its control codes, in order.
proof fn lemma_printable_is_filtered(text: Seq<char>)
    ensures
        printable(text) == text.filter(
            |c: char| !((c as u32) < 0x20 || 0x7F <= (c as u32) < 0xA0),
        ),
    decreases text.len(),
{
    reveal(Seq::filter);
    if text.len() > 0 {
        lemma_printable_is_filtered(text.drop_last());
    }
}

/// What is left of a text without control codes is the text.
proof fn lemma_printable_keeps(text: Seq<char>)
    requires
        forall|i: int|
            0 <= i < text.len() ==> !((#[trigger] text[i] as u32) < 0x20 || 0x7F <= (
            text[i] as u32) < 0xA0),
    ensures
        printable(text) == text,
    decreases text.len(),
{
    if text.len() > 0 {
        let before = text.drop_last();
        assert forall|i: int| 0 <= i < before.len() implies !((#[trigger] before[i] as u32) < 0x20
            || 0x7F <= (before[i] as u32) < 0xA0) by {
            assert(before[i] == text[i]);
        }
        lemma_printable_keeps(before);
        assert(text[text.len() - 1] == text.last());
        assert(before.push(text.last()) =~= text);
    } else {
        assert(printable(text) =~= text);
    }
}

/// A key that stands for a text without control codes appends exactly that text to the
/// password, and changes nothing else but to count as activity.
pub proof fn law_typing_appends_the_text(state: State, keysym: u32, typed: Seq<char>, now: int)
    requires
        !state.auth_in_flight,
        types(keysym),
        forall|i: int|
            0 <= i < typed.len() ==> !((#[trigger] typed[i] as u32) < 0x20 || 0x7F <= (
            typed[i] as u32) < 0xA0),
    ensures
        state.pressed(keysym, Some(typed), now) == (State {
            password: state.password + typed,
            last_activity: now,
            monitors_off: false,
            ..state
        }),
        state.edits(keysym, true),
        state.key_request(keysym) is None,
{
    lemma_printable_keeps(typed);
}

/// Of any other text exactly the control codes are left out.
pub proof fn law_typing_leaves_out_control_codes(
    state: State,
    keysym: u32,
    typed: Seq<char>,
    now: int,
)
    requires
        !state.auth_in_flight,
        types(keysym),
    ensures
        state.pressed(keysym, Some(typed), now).password == state.password + typed.filter(
            |c: char| !((c as u32) < 0x20 || 0x7F <= (c as u32) < 0xA0),
        ),
{
    lemma_printable_is_filtered(typed);
}

/// A key that stands for no text, or is pressed while a password is checked, only counts
/// as activity.
pub proof fn law_other_keys_are_activity_only(
    state: State,
    keysym: u32,
    text: Option<Seq<char>>,
    now: int,
)
    requires
        types(keysym),
        state.auth_in_flight || text is None,
    ensures
        state.pressed(keysym, text, now) == (State {
            last_activity: now,
            monitors_off: false,
            ..state
        }),
        !state.edits(keysym, text is Some),
        state.key_request(keysym) is None,
{
}

/// `Return` and `KP_Enter` submit the whole password and empty it, once: nothing happens
/// if it is empty or while one is checked. Whatever text the key stands for is no part
/// of the password.
pub proof fn law_enter_submits_the_password(
    state: State,
    keysym: u32,
    text: Option<Seq<char>>,
    now: int,
)
    requires
        keysym == 0xFF0D || keysym == 0xFF8D,
    ensures
        !state.auth_in_flight && state.password.len() > 0 ==> {
            &&& state.key_request(keysym) == Some(state.password)
            &&& state.pressed(keysym, text, now) == (State {
                password: Seq::empty(),
                auth_in_flight: true,
                last_activity: now,
                monitors_off: false,
                ..state
            })
        },
        state.auth_in_flight || state.password.len() == 0 ==> {
            &&& state.key_request(keysym) is None
            &&& state.pressed(keysym, text, now) == (State {
                last_activity: now,
                monitors_off: false,
                ..state
            })
        },
        !state.edits(keysym, text is Some),
{
}

/// The password that is submitted is what was typed, key by key.
pub proof fn law_typed_text_is_submitted(
    state: State,
    first: u32,
    typed: Seq<char>,
    second: u32,
    added: Seq<char>,
    enter: u32,
    now: int,
)
    requires
        !state.auth_in_flight,
        types(first),
        types(second),
        enter == 0xFF0D || enter == 0xFF8D,
        typed.len() > 0,
        forall|i: int|
            0 <= i < typed.len() ==> !((#[trigger] typed[i] as u32) < 0x20 || 0x7F <= (
            typed[i] as u32) < 0xA0),
        forall|i: int|
            0 <= i < added.len() ==> !((#[trigger] added[i] as u32) < 0x20 || 0x7F <= (
            added[i] as u32) < 0xA0),
    ensures
        state.pressed(first, Some(typed), now).pressed(second, Some(added), now).key_request(enter)
            == Some(state.password + typed + added),
{
    lemma_printable_keeps(typed);
    lemma_printable_keeps(added);
}

/// `BackSpace` and `Delete` take the last character from the password, if it has one,
/// also while another password is checked.
pub proof fn law_erase_takes_the_last_character(
    state: State,
    keysym: u32,
    text: Option<Seq<char>>,
    now: int,
)
    requires
        keysym == 0xFF08 || keysym == 0xFFFF,
    ensures
        ({
            let next = state.pressed(keysym, text, now);
            let count = state.password.len();
            &&& next == (State {
                password: next.password,
                last_activity: now,
                monitors_off: false,
                ..state
            })
            &&& count == 0 ==> next.password.len() == 0
            &&& count > 0 ==> next.password == state.password.take(count - 1)
            &&& count > 0 ==> next.password + seq![state.password[count - 1]] == state.password
        }),
        state.edits(keysym, text is Some),
        state.key_request(keysym) is None,
{
    if state.password.len() > 0 {
        let next = state.pressed(keysym, text, now);
        assert(next.password =~= state.password.take(state.password.len() - 1));
        assert(next.password + seq![state.password[state.password.len() - 1]] =~= state.password);
    }
}

/// `Escape` empties the password.
pub proof fn law_escape_empties_the_password(
    state: State,
    text: Option<Seq<char>>,
    now: int,
)
    ensures
        state.pressed(0xFF1B, text, now) == (State {
            password: Seq::empty(),
            last_activity: now,
            monitors_off: false,
            ..state
        }),
        state.edits(0xFF1B, text is Some),
        state.key_request(0xFF1B) is None,
{
}

/// Activity only restarts the countdown.
pub proof fn law_activity_changes_nothing_else(state: State, now: int)
    ensures
        state.active(now) == (State { last_activity: now, monitors_off: false, ..state }),
{
}

/// A success ends the check, unlocks the session and leaves it; the rest stays.
pub proof fn law_success_ends_the_session(state: State, now: int)
    ensures
        state.authenticated(AuthResult::Success, now) == (State {
            auth_in_flight: false,
            locked: false,
            exit: true,
            ..state
        }),
{
}

/// A failure ends the check, forgets what is typed and shows the message for two seconds;
/// the rest stays, so the session is as locked as it was.
pub proof fn law_failure_shows_the_message(state: State, now: int, later: int)
    ensures
        ({
            let next = state.authenticated(AuthResult::Failure, now);
            &&& next == (State {
                auth_in_flight: false,
                password: Seq::empty(),
                auth_error_until: Some(now + 2_000_000_000),
                ..state
            })
            &&& next.ticked(later).auth_error_until is Some <==> later < now + 2_000_000_000
        }),
{
}

/// The end of the session by the compositor leaves it, and unlocks nothing.
pub proof fn law_end_changes_nothing_else(state: State)
    ensures
        state.finished() == (State { exit: true, ..state }),
{
}

/// Seconds are counted in whole thousand millions of nanoseconds.
proof fn lemma_idle(state: State, now: int)
    requires
        state.last_activity <= now,
    ensures
        1_000_000_000 * state.idle_seconds(now) <= now - state.last_activity,
        now - state.last_activity < 1_000_000_000 * (state.idle_seconds(now) + 1),
        state.idle_seconds(now) >= 0,
{
}

/// When the time without activity has reached that of the settings, a tick turns the
/// screen off, unless it is off: it starts the very command of the settings, be it a
/// program alone or one with arguments. Before, and once the screen is off, a tick starts
/// nothing. Apart from that it only takes the message away when its time is over.
pub proof fn law_tick_starts_the_command_in_time(state: State, now: int)
    requires
        state.settings.power_off_command matches Some(command) ==> command.len() >= 1,
    ensures
        ({
            let idle = if now > state.last_activity {
                now - state.last_activity
            } else {
                0
            };
            let over = idle >= state.settings.off_after * 1_000_000_000;
            &&& over && !state.monitors_off ==> state.tick_launch(now)
                == state.settings.power_off_command
            &&& !over || state.monitors_off ==> state.tick_launch(now) is None
            &&& state.ticked(now) == (State {
                monitors_off: state.monitors_off || over,
                auth_error_until: state.ticked(now).auth_error_until,
                ..state
            })
        }),
        state.auth_error_until matches Some(until) ==> state.ticked(now).auth_error_until == if now
            < until {
            Some(until)
        } else {
            None
        },
        state.auth_error_until is None ==> state.ticked(now).auth_error_until is None,
{
    if state.last_activity <= now {
        lemma_idle(state, now);
    }
}

/// The command is started as it stands in the settings, however long it is.
pub proof fn law_command_is_started_as_it_stands(
    state: State,
    program: Seq<char>,
    args: Seq<Seq<char>>,
)
    requires
        state.settings.power_off_command == Some(seq![program] + args),
    ensures
        state.power_off_command() == Some(seq![program] + args),
        state.powered_off() == (State { monitors_off: true, ..state }),
        state.button_enabled(),
{
}

/// Without a command, or with one that names no program, there is nothing to start; the
/// surfaces have a button if and only if there is a command.
pub proof fn law_without_command_nothing_is_started(
    state: State,
    now: int,
    inputs: Seq<PointerInput>,
)
    requires
        state.settings.power_off_command matches Some(command) ==> command.len() == 0,
    ensures
        state.power_off_command() is None,
        state.tick_launch(now) is None,
        state.pointer_launch(inputs) is None,
        state.button_enabled() <==> state.settings.power_off_command is Some,
{
}

/// The countdown shows whole seconds: it is at the time of the settings at the beginning,
/// goes down by one with each second, and stays at zero.
pub proof fn law_countdown_goes_down_by_seconds(state: State, now: int)
    requires
        state.last_activity <= now,
    ensures
        state.remaining(state.last_activity) == state.settings.off_after,
        state.remaining(now) > 0 ==> state.remaining(now + 1_000_000_000) == state.remaining(now)
            - 1,
        state.remaining(now) == 0 ==> state.remaining(now + 1_000_000_000) == 0,
        now < state.last_activity + 1_000_000_000 ==> state.remaining(now)
            == state.settings.off_after,
        state.remaining(now) == 0 <==> now - state.last_activity >= state.settings.off_after
            * 1_000_000_000,
        0 <= state.remaining(now) <= state.settings.off_after,
{
    lemma_idle(state, now);
    lemma_idle(state, now + 1_000_000_000);
}

/// A clock that goes back shows the whole countdown.
pub proof fn law_countdown_is_whole_before_activity(state: State, now: int)
    requires
        now <= state.last_activity,
    ensures
        state.remaining(now) == state.settings.off_after,
        state.settings.off_after > 0 ==> state.tick_launch(now) is None && state.ticked(
            now,
        ).monitors_off == state.monitors_off,
{
}

/// A surface that is given a size takes it, and has its button where that size puts it,
/// if there is a command; the other surfaces, and all else, stay as they are.
pub proof fn law_size_is_taken(state: State, number: usize, width: u32, height: u32)
    requires
        number < state.screens.len(),
        width > 0,
        height > 0,
    ensures
        state.takes_size(Some(number), width, height),
        ({
            let next = state.configured(Some(number), width, height);
            &&& next == (State { screens: next.screens, ..state })
            &&& next.screens.len() == state.screens.len()
            &&& next.screens[number as int] == (Screen {
                width,
                height,
                button: ButtonRect::placed(
                    width,
                    height,
                    state.settings.power_off_command is Some,
                ),
            })
            &&& forall|i: int|
                0 <= i < state.screens.len() && i != number ==> #[trigger] next.screens[i]
                    == state.screens[i]
        }),
{
}

/// An unknown surface, or a size without extent, changes nothing.
pub proof fn law_no_size_is_not_taken(
    state: State,
    surface: Option<usize>,
    width: u32,
    height: u32,
)
    requires
        surface is None || width == 0 || height == 0,
    ensures
        !state.takes_size(surface, width, height),
        state.configured(surface, width, height) == state,
{
}

/// A press of the left button on the button of any surface, whatever else happens with
/// the pointer, starts the command of the settings and turns the screen off.
pub proof fn law_press_on_the_button_turns_the_screen_off(
    state: State,
    number: usize,
    width: u32,
    height: u32,
    inputs: Seq<PointerInput>,
    i: int,
    now: int,
)
    requires
        number < state.screens.len(),
        width > 0,
        height > 0,
        state.settings.power_off_command matches Some(command) && command.len() >= 1,
        0 <= i < inputs.len(),
        inputs[i].surface == Some(number),
        inputs[i].pressed == Some(0x110u32),
        ({
            let button = ButtonRect::placed(width, height, true);
            &&& button.x <= inputs[i].x < button.x + button.width
            &&& button.y <= inputs[i].y < button.y + button.height
        }),
    ensures
        ({
            let shown = state.configured(Some(number), width, height);
            &&& shown.pointer_launch(inputs) == state.settings.power_off_command
            &&& shown.pointed(inputs, now) == (State {
                monitors_off: true,
                last_activity: now,
                ..shown
            })
        }),
{
    let shown = state.configured(Some(number), width, height);
    assert(shown.is_click(inputs[i]));
}

/// Whatever surfaces there are, a press of the left button on one of their buttons is a
/// click.
pub proof fn law_press_inside_is_a_click(state: State, inputs: Seq<PointerInput>, i: int, now: int)
    requires
        0 <= i < inputs.len(),
        inputs[i].pressed == Some(0x110u32),
        inputs[i].surface matches Some(number) && number < state.screens.len() && {
            let button = state.screens[number as int].button;
            &&& button.visible
            &&& button.x <= inputs[i].x < button.x + button.width
            &&& button.y <= inputs[i].y < button.y + button.height
        },
        state.settings.power_off_command matches Some(command) ==> command.len() >= 1,
    ensures
        state.pointer_launch(inputs) == state.settings.power_off_command,
        state.pointed(inputs, now) == (State { monitors_off: true, last_activity: now, ..state }),
{
    assert(state.is_click(inputs[i]));
}

/// Nothing else that happens with the pointer is a click: not another button, nor a point
/// beside the button, nor a surface that is not there. It is activity and no more.
pub proof fn law_nothing_else_is_a_click(state: State, inputs: Seq<PointerInput>, now: int)
    requires
        forall|i: int|
            0 <= i < inputs.len() ==> {
                let input = #[trigger] inputs[i];
                ||| input.pressed != Some(0x110u32)
                ||| input.surface is None
                ||| input.surface->0 >= state.screens.len()
                ||| {
                    let button = state.screens[input.surface->0 as int].button;
                    ||| !button.visible
                    ||| input.x < button.x
                    ||| input.x >= button.x + button.width
                    ||| input.y < button.y
                    ||| input.y >= button.y + button.height
                }
            },
    ensures
        state.pointer_launch(inputs) is None,
        inputs.len() == 0 ==> state.pointed(inputs, now) == state,
        inputs.len() > 0 ==> state.pointed(inputs, now) == (State {
            last_activity: now,
            monitors_off: false,
            ..state
        }),
{
    assert forall|i: int| 0 <= i < inputs.len() implies !#[trigger] state.is_click(inputs[i]) by {
        let _ = inputs[i];
    }
}

/// A program that is started is the first word of the command, and its arguments are the
/// others, in order.
pub proof fn law_program_and_arguments_are_the_command(launch: Launch, command: Seq<String>)
    requires
        starts(launch, command),
    ensures
        command.len() == launch.args@.len() + 1,
        launch.program@ == command[0]@,
        forall|i: int| 1 <= i < command.len() ==> (#[trigger] command[i])@ == launch.args@[i - 1]@,
        launch@ == texts(command),
{
    assert forall|i: int| 1 <= i < command.len() implies (#[trigger] command[i])@
        == launch.args@[i - 1]@ by {
        let _ = launch.args@[i - 1];
    }
    assert(launch@ =~= texts(command));
}

/// What is said of a session is what it holds.
pub proof fn law_state_is_what_the_session_holds(locker: Locker)
    ensures
        locker@.settings == locker.config@,
        locker@.screens == locker.screens@,
        locker@.last_activity == locker.last_activity,
        locker@.password == locker.password@,
        locker@.auth_in_flight == locker.auth_in_flight,
        locker@.auth_error_until is Some <==> locker.auth_error_until is Some,
        locker.auth_error_until matches Some(until) ==> locker@.auth_error_until == Some(
            until as int,
        ),
        locker@.monitors_off == locker.monitors_off,
        locker@.locked == locker.locked,
        locker@.exit == locker.exit,
        locker@.settings.color == locker.config.color,
        locker@.settings.off_after == locker.config.off_after,
        locker@.settings.pam_service == locker.config.pam_service@,
        locker@.settings.power_off_command is Some <==> locker.config.power_off_command is Some,
        locker.config.power_off_command matches Some(command)
            ==> locker@.settings.power_off_command == Some(texts(command@)),
{
}

} // verus!
