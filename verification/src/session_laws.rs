//! What holds of every lock session, whatever happens in it.
use vstd::prelude::*;

#[allow(unused_imports)]
use crate::config::Settings;
#[allow(unused_imports)]
use crate::font::glyph_rows;
#[allow(unused_imports)]
use crate::session::{
    clock_text, countdown_text, is_enter, is_erase, printable, AuthResult, PointerInput, State,
    KEY_ESCAPE, SECOND,
};
#[allow(unused_imports)]
use crate::text::{decimal, decimal_digit, is_control_code, two_digits};

verus! {

/// Something that happens in a session.
pub enum Event {
    /// The clock ticks.
    Tick { now: int },
    /// A key is pressed.
    Key { keysym: u32, text: Option<Seq<char>>, now: int },
    /// Things happen with the pointer.
    Pointer { inputs: Seq<PointerInput>, now: int },
    /// An authentication is over.
    Authenticated { result: AuthResult, now: int },
    /// A surface is given a size.
    Configured { surface: Option<usize>, width: u32, height: u32 },
    /// The compositor ends the session.
    Finished,
}

impl State {
    /// After an event.
    pub open spec fn after(self, event: Event) -> State {
        match event {
            Event::Tick { now } => self.ticked(now),
            Event::Key { keysym, text, now } => self.pressed(keysym, text, now),
            Event::Pointer { inputs, now } => self.pointed(inputs, now),
            Event::Authenticated { result, now } => self.authenticated(result, now),
            Event::Configured { surface, width, height } => self.configured(surface, width, height),
            Event::Finished => self.finished(),
        }
    }

    /// After events, one after the other.
    pub open spec fn after_all(self, events: Seq<Event>) -> State
        decreases events.len(),
    {
        if events.len() == 0 {
            self
        } else {
            self.after_all(events.drop_last()).after(events.last())
        }
    }

    /// The password that is submitted because of an event, if one is.
    pub open spec fn request(self, event: Event) -> Option<Seq<char>> {
        match event {
            Event::Key { keysym, text, now } => self.key_request(keysym),
            _ => None,
        }
    }

    /// The program that is started because of an event, if one is.
    pub open spec fn launch(self, event: Event) -> Option<Seq<Seq<char>>> {
        match event {
            Event::Tick { now } => self.tick_launch(now),
            Event::Pointer { inputs, now } => self.pointer_launch(inputs),
            _ => None,
        }
    }

    /// Whether no control code is in the password.
    pub open spec fn password_is_printable(self) -> bool {
        forall|i: int|
            0 <= i < self.password.len() ==> !is_control_code(#[trigger] self.password[i])
    }

    /// Whether every surface is not configured, or has its button where it belongs.
    pub open spec fn screens_are_consistent(self) -> bool {
        forall|i: int|
            0 <= i < self.screens.len() ==> (#[trigger] self.screens[i]).consistent(
                self.button_enabled(),
            )
    }
}

/// Whether an event is a successful authentication.
pub open spec fn is_success(event: Event) -> bool {
    event matches Event::Authenticated { result, now } && result == AuthResult::Success
}

/// A session is unlocked only by a successful authentication, and is left only after one
/// or when the compositor ends the session.
pub proof fn law_only_success_unlocks(
    settings: Settings,
    screens: nat,
    start: int,
    events: Seq<Event>,
)
    ensures
        ({
            let state = State::initial(settings, screens, start).after_all(events);
            &&& !state.locked ==> exists|i: int|
                0 <= i < events.len() && is_success(#[trigger] events[i])
            &&& state.exit ==> exists|i: int|
                0 <= i < events.len() && (is_success(#[trigger] events[i]) || events[i]
                    is Finished)
        }),
    decreases events.len(),
{
    if events.len() > 0 {
        let before = events.drop_last();
        let last = events.last();
        law_only_success_unlocks(settings, screens, start, before);
        let earlier = State::initial(settings, screens, start).after_all(before);
        assert(events[events.len() - 1] == last);
        if !earlier.locked {
            let i = choose|i: int| 0 <= i < before.len() && is_success(#[trigger] before[i]);
            assert(events[i] == before[i]);
        }
        if earlier.exit {
            let i = choose|i: int|
                0 <= i < before.len() && (is_success(#[trigger] before[i]) || before[i]
                    is Finished);
            assert(events[i] == before[i]);
        }
    }
}

/// A successful authentication unlocks the session, and the session is left.
pub proof fn law_success_unlocks(state: State, now: int)
    ensures
        ({
            let next = state.after(
                Event::Authenticated { result: AuthResult::Success, now },
            );
            !next.locked && next.exit
        }),
{
}

/// After a wrong password the session stays locked, the password is forgotten, and
/// another one can be typed and submitted.
pub proof fn law_failure_keeps_locked(state: State, typed: Seq<char>, now: int, key: u32, later: int)
    requires
        printable(typed).len() > 0,
        !is_enter(key),
        !is_erase(key),
        key != KEY_ESCAPE,
    ensures
        ({
            let next = state.after(Event::Authenticated { result: AuthResult::Failure, now });
            let retyped = next.after(Event::Key { keysym: key, text: Some(typed), now: later });
            &&& next.locked == state.locked
            &&& next.exit == state.exit
            &&& next.password.len() == 0
            &&& retyped.password == printable(typed)
            &&& retyped.submits()
        }),
{
    let next = state.after(Event::Authenticated { result: AuthResult::Failure, now });
    assert(next.password + printable(typed) =~= printable(typed));
}

/// The message after a wrong password stays for two seconds, and goes with the first
/// tick after that.
pub proof fn law_error_stays_two_seconds(state: State, now: int, later: int)
    ensures
        ({
            let next = state.after(Event::Authenticated { result: AuthResult::Failure, now });
            &&& next.auth_error_until is Some
            &&& next.after(Event::Tick { now: later }).auth_error_until is Some <==> later < now + 2
                * SECOND
        }),
{
}

/// What is left of a text has no control codes.
proof fn lemma_printable(text: Seq<char>)
    ensures
        forall|i: int|
            0 <= i < printable(text).len() ==> !is_control_code(#[trigger] printable(text)[i]),
    decreases text.len(),
{
    if text.len() > 0 {
        let shorter = printable(text.drop_last());
        lemma_printable(text.drop_last());
        assert forall|i: int| 0 <= i < printable(text).len() implies !is_control_code(
            #[trigger] printable(text)[i],
        ) by {
            if i < shorter.len() {
                assert(printable(text)[i] == shorter[i]);
            }
        }
    }
}

/// No event brings a control code into the password.
pub proof fn law_password_stays_printable(state: State, event: Event)
    requires
        state.password_is_printable(),
    ensures
        state.after(event).password_is_printable(),
{
    if let Event::Key { keysym, text, now } = event {
        if let Some(typed) = text {
            lemma_printable(typed);
        }
    }
}

/// The password of every submission is free of control codes, from the beginning of a
/// session on.
pub proof fn law_submitted_password_is_printable(
    settings: Settings,
    screens: nat,
    start: int,
    events: Seq<Event>,
)
    ensures
        State::initial(settings, screens, start).after_all(events).password_is_printable(),
    decreases events.len(),
{
    if events.len() > 0 {
        law_submitted_password_is_printable(settings, screens, start, events.drop_last());
        law_password_stays_printable(
            State::initial(settings, screens, start).after_all(events.drop_last()),
            events.last(),
        );
    }
}

/// While a password is checked no other one is submitted: between two submissions an
/// authentication is over.
pub proof fn law_one_check_at_a_time(state: State, events: Seq<Event>)
    requires
        state.auth_in_flight,
        forall|i: int| 0 <= i < events.len() ==> !(#[trigger] events[i] is Authenticated),
    ensures
        state.after_all(events).auth_in_flight,
        forall|k: int|
            0 <= k < events.len() ==> state.after_all(events.take(k)).request(#[trigger] events[k])
                is None,
    decreases events.len(),
{
    if events.len() > 0 {
        let before = events.drop_last();
        assert forall|i: int| 0 <= i < before.len() implies !(#[trigger] before[i]
            is Authenticated) by {
            assert(before[i] == events[i]);
        }
        law_one_check_at_a_time(state, before);
        assert(!(events[events.len() - 1] is Authenticated));
        assert forall|k: int| 0 <= k < events.len() implies state.after_all(
            events.take(k),
        ).request(#[trigger] events[k]) is None by {
            if k < before.len() {
                assert(before.take(k) =~= events.take(k));
                assert(before[k] == events[k]);
            } else {
                assert(events.take(k) =~= before);
            }
        }
    }
}

/// A submission starts a check and empties the password.
pub proof fn law_submission_starts_check(state: State, event: Event)
    requires
        state.request(event) is Some,
    ensures
        state.after(event).auth_in_flight,
        state.after(event).password.len() == 0,
        state.request(event) == Some(state.password),
{
}

/// What is typed while a password is checked is dropped.
pub proof fn law_typing_is_dropped_while_checking(
    state: State,
    keysym: u32,
    text: Option<Seq<char>>,
    now: int,
)
    requires
        state.auth_in_flight,
        !is_erase(keysym),
        keysym != KEY_ESCAPE,
    ensures
        state.after(Event::Key { keysym, text, now }).password == state.password,
{
}

/// Backspace undoes the typing of a character.
pub proof fn law_erase_undoes_typing(
    state: State,
    keysym: u32,
    character: char,
    erase: u32,
    now: int,
    later: int,
)
    requires
        !state.auth_in_flight,
        !is_control_code(character),
        !is_enter(keysym),
        !is_erase(keysym),
        keysym != KEY_ESCAPE,
        is_erase(erase),
    ensures
        state.after(Event::Key { keysym, text: Some(seq![character]), now }).after(
            Event::Key { keysym: erase, text: None, now: later },
        ).password == state.password,
{
    let typed = seq![character];
    assert(typed.drop_last() =~= Seq::<char>::empty());
    assert(printable(typed.drop_last()) =~= Seq::<char>::empty());
    assert(printable(typed) =~= typed);
    assert((state.password + typed).drop_last() =~= state.password);
}

/// The screen is turned off when the countdown is at zero, unless it is off.
pub proof fn law_countdown_ends_with_power_off(state: State, now: int)
    ensures
        state.due(now) <==> !state.monitors_off && state.remaining(now) == 0,
        state.launch(Event::Tick { now }) is Some <==> !state.monitors_off && state.remaining(now)
            == 0 && state.power_off_command() is Some,
{
}

/// Once the screen is off, ticks do not turn it off again.
pub proof fn law_screen_goes_off_once(state: State, events: Seq<Event>)
    requires
        state.monitors_off,
        forall|i: int| 0 <= i < events.len() ==> #[trigger] events[i] is Tick,
    ensures
        state.after_all(events).monitors_off,
        forall|k: int|
            0 <= k < events.len() ==> state.after_all(events.take(k)).launch(#[trigger] events[k])
                is None,
    decreases events.len(),
{
    if events.len() > 0 {
        let before = events.drop_last();
        assert forall|i: int| 0 <= i < before.len() implies #[trigger] before[i] is Tick by {
            assert(before[i] == events[i]);
        }
        law_screen_goes_off_once(state, before);
        assert(events[events.len() - 1] is Tick);
        assert forall|k: int| 0 <= k < events.len() implies state.after_all(
            events.take(k),
        ).launch(#[trigger] events[k]) is None by {
            if k < before.len() {
                assert(before.take(k) =~= events.take(k));
                assert(before[k] == events[k]);
            } else {
                assert(events.take(k) =~= before);
            }
        }
    }
}

/// Activity turns the countdown back to its beginning, and from then on it only goes down.
pub proof fn law_activity_restarts_countdown(state: State, now: int, sooner: int, later: int)
    requires
        sooner <= later,
    ensures
        state.active(now).remaining(now) == state.settings.off_after,
        !state.active(now).monitors_off,
        state.remaining(later) <= state.remaining(sooner) <= state.settings.off_after,
{
    if sooner > state.last_activity {
        vstd::arithmetic::div_mod::lemma_div_is_ordered(
            sooner - state.last_activity,
            later - state.last_activity,
            SECOND as int,
        );
    }
}

/// Every key and everything that happens with the pointer is activity.
pub proof fn law_input_is_activity(
    state: State,
    keysym: u32,
    text: Option<Seq<char>>,
    inputs: Seq<PointerInput>,
    now: int,
)
    requires
        inputs.len() > 0,
    ensures
        state.after(Event::Key { keysym, text, now }).last_activity == now,
        state.after(Event::Pointer { inputs, now }).last_activity == now,
{
}

/// No event changes the settings.
pub proof fn law_settings_stay(state: State, events: Seq<Event>)
    ensures
        state.after_all(events).settings == state.settings,
    decreases events.len(),
{
    if events.len() > 0 {
        law_settings_stay(state, events.drop_last());
    }
}

/// Without a command the countdown is only shown: no event starts a program.
pub proof fn law_countdown_is_visual_by_default(state: State, events: Seq<Event>, event: Event)
    requires
        state.settings.power_off_command is None,
    ensures
        state.after_all(events).launch(event) is None,
{
    law_settings_stay(state, events);
}

/// A program that is started is the one that the settings name, with its arguments.
pub proof fn law_only_the_command_is_started(state: State, events: Seq<Event>, event: Event)
    ensures
        state.after_all(events).launch(event) matches Some(command) ==> Some(command)
            == state.settings.power_off_command,
{
    law_settings_stay(state, events);
}

/// Whether surfaces are configured only that there are.
pub open spec fn surfaces_exist(events: Seq<Event>, screens: nat) -> bool {
    forall|i: int|
        0 <= i < events.len() ==> ((#[trigger] events[i]) matches Event::Configured {
            surface: Some(number),
            ..
        } ==> number < screens)
}

/// The button of every configured surface is where its size puts it, at all times.
pub proof fn law_buttons_are_in_place(
    settings: Settings,
    screens: nat,
    start: int,
    events: Seq<Event>,
)
    requires
        surfaces_exist(events, screens),
    ensures
        State::initial(settings, screens, start).after_all(events).screens.len() == screens,
        State::initial(settings, screens, start).after_all(events).screens_are_consistent(),
    decreases events.len(),
{
    if events.len() > 0 {
        let before = events.drop_last();
        assert(surfaces_exist(before, screens)) by {
            assert forall|i: int| 0 <= i < before.len() implies ((#[trigger] before[i]) matches
                Event::Configured { surface: Some(number), .. } ==> number < screens) by {
                assert(before[i] == events[i]);
            }
        }
        law_buttons_are_in_place(settings, screens, start, before);
        law_settings_stay(State::initial(settings, screens, start), before);
        law_settings_stay(State::initial(settings, screens, start), events);
        assert(events[events.len() - 1] == events.last());
    }
}

/// A number is written in characters that the font has.
proof fn lemma_decimal_has_glyphs(n: nat)
    ensures
        forall|i: int| 0 <= i < decimal(n).len() ==> glyph_rows(#[trigger] decimal(n)[i]) is Some,
    decreases n,
{
    assert forall|d: int| 0 <= d < 10 implies glyph_rows(#[trigger] decimal_digit(d)) is Some by {
        assert(d == 0 || d == 1 || d == 2 || d == 3 || d == 4 || d == 5 || d == 6 || d == 7 || d
            == 8 || d == 9);
    }
    if n >= 10 {
        lemma_decimal_has_glyphs(n / 10);
    }
}

/// The countdown is written in characters that the font has.
pub proof fn law_countdown_is_legible(seconds: nat, i: int)
    requires
        0 <= i < countdown_text(seconds).len(),
    ensures
        glyph_rows(countdown_text(seconds)[i]) is Some,
{
    reveal_strlit("OFF IN ");
    reveal_strlit(":");
    let minutes = two_digits(seconds / 60);
    let rest = two_digits(seconds % 60);
    lemma_two_digits_have_glyphs(seconds / 60);
    lemma_two_digits_have_glyphs(seconds % 60);
    let text = countdown_text(seconds);
    if 7 <= i < 7 + minutes.len() {
        assert(text[i] == minutes[i - 7]);
    } else if i > 7 + minutes.len() {
        assert(text[i] == rest[i - 7 - minutes.len() - 1]);
    }
}

/// A number with a leading zero is written in characters that the font has.
proof fn lemma_two_digits_have_glyphs(n: nat)
    ensures
        forall|i: int| 0 <= i < two_digits(n).len() ==> glyph_rows(#[trigger] two_digits(n)[i]) is Some,
{
    lemma_decimal_has_glyphs(n);
    if n < 10 {
        assert(decimal(n)[0] == decimal_digit(n as int));
    }
}

/// The clock is written in characters that the font has, at every time of day.
pub proof fn law_clock_is_legible(hour: nat, minute: nat, second: nat, i: int)
    requires
        0 <= i < clock_text(hour as int, minute as int, second as int).len(),
    ensures
        glyph_rows(clock_text(hour as int, minute as int, second as int)[i]) is Some,
{
    reveal_strlit(":");
    lemma_two_digits_have_glyphs(hour);
    lemma_two_digits_have_glyphs(minute);
    lemma_two_digits_have_glyphs(second);
    let h = two_digits(hour);
    let m = two_digits(minute);
    let s = two_digits(second);
    let text = clock_text(hour as int, minute as int, second as int);
    if i < h.len() {
        assert(text[i] == h[i]);
    } else if h.len() < i < h.len() + 1 + m.len() {
        assert(text[i] == m[i - h.len() - 1]);
    } else if i > h.len() + 1 + m.len() {
        assert(text[i] == s[i - h.len() - m.len() - 2]);
    }
}

/// The error message and the label of the button are written in characters that the
/// font has.
pub proof fn law_labels_are_legible()
    ensures
        forall|i: int|
            0 <= i < "WRONG PASSWORD"@.len() ==> glyph_rows(#[trigger] "WRONG PASSWORD"@[i]) is Some,
        forall|i: int|
            0 <= i < "SCREEN OFF"@.len() ==> glyph_rows(#[trigger] "SCREEN OFF"@[i]) is Some,
{
    reveal_strlit("WRONG PASSWORD");
    reveal_strlit("SCREEN OFF");
}

} // verus!
