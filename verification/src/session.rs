//! A lock session: what it remembers and how it reacts to what happens.
//!
//! Times are nanoseconds since some moment before the session began.
use vstd::prelude::*;

use crate::args::rest_of;
use crate::config::Config;
#[allow(unused_imports)]
use crate::config::Settings;
use crate::render::{ButtonRect, SurfaceContent};
use crate::text::{control_code, push_decimal, push_two_digits};
#[allow(unused_imports)]
use crate::text::{decimal, is_control_code, texts, two_digits};

verus! {

/// Nanoseconds in a second.
pub const SECOND: u128 = 1_000_000_000;

/// For how long the message after a wrong password stays.
pub const ERROR_TIME: u128 = 2_000_000_000;

/// The keysym `Return` of the X keyboard protocol.
pub const KEY_RETURN: u32 = 0xFF0D;

/// The keysym `KP_Enter`.
pub const KEY_KP_ENTER: u32 = 0xFF8D;

/// The keysym `BackSpace`.
pub const KEY_BACK_SPACE: u32 = 0xFF08;

/// The keysym `Delete`.
pub const KEY_DELETE: u32 = 0xFFFF;

/// The keysym `Escape`.
pub const KEY_ESCAPE: u32 = 0xFF1B;

/// The code of the left button of a pointer, `BTN_LEFT` of the Linux input subsystem.
pub const BUTTON_LEFT: u32 = 0x110;

/// `String::pop` of the standard library: removes the last character, if there is one,
/// and returns it.
pub assume_specification[ String::pop ](s: &mut String) -> (last: Option<char>)
    ensures
        old(s)@.len() == 0 ==> last is None && final(s)@ == old(s)@,
        old(s)@.len() > 0 ==> last == Some(old(s)@.last()) && final(s)@ == old(s)@.drop_last(),
;

/// The result of an authentication.
#[derive(Clone, Copy, PartialEq, Eq, Debug, Structural)]
pub enum AuthResult {
    Success,
    Failure,
}

/// The result of an authentication that was tried: a success if nothing went wrong.
pub fn auth_result<T, E>(attempt: &Result<T, E>) -> (result: AuthResult)
    ensures
        result == if attempt is Ok {
            AuthResult::Success
        } else {
            AuthResult::Failure
        },
{
    match attempt {
        Ok(_) => AuthResult::Success,
        Err(_) => AuthResult::Failure,
    }
}

/// The name of the user to authenticate, given the one that the environment says.
pub fn login_name(user: Option<String>) -> (name: String)
    ensures
        name@ == match user {
            Some(named) => named@,
            None => "root"@,
        },
{
    match user {
        Some(named) => named,
        None => "root".to_owned(),
    }
}

/// What is known of the surface on one output. It has no size until it is configured.
#[derive(Clone, Copy, PartialEq, Eq, Debug, Structural)]
pub struct Screen {
    pub width: u32,
    pub height: u32,
    pub button: ButtonRect,
}

impl Screen {
    /// A surface that is not configured.
    pub open spec fn blank() -> Screen {
        Screen {
            width: 0,
            height: 0,
            button: ButtonRect { x: 0, y: 0, width: 0, height: 0, visible: false },
        }
    }

    /// Whether the surface is not configured, or its button is where it belongs.
    pub open spec fn consistent(self, button_enabled: bool) -> bool {
        self == Screen::blank() || (self.width > 0 && self.height > 0 && self.button
            == ButtonRect::placed(self.width, self.height, button_enabled))
    }

    /// Whether the surface has a size, and so can show something.
    pub fn is_configured(&self) -> (configured: bool)
        ensures
            configured == (self.width != 0 && self.height != 0),
    {
        self.width != 0 && self.height != 0
    }
}

/// What happened with the pointer: on which surface and which pixel it is, and which
/// button was pressed, if one was.
#[derive(Clone, Copy)]
pub struct PointerInput {
    pub surface: Option<usize>,
    pub pressed: Option<u32>,
    pub x: i64,
    pub y: i64,
}

/// A program to start.
pub struct Launch {
    pub program: String,
    pub args: Vec<String>,
}

impl View for Launch {
    type V = Seq<Seq<char>>;

    /// The program, followed by its arguments.
    open spec fn view(&self) -> Seq<Seq<char>> {
        seq![self.program@] + texts(self.args@)
    }
}

/// The program to start, if there is one.
pub open spec fn launched(launch: Option<Launch>) -> Option<Seq<Seq<char>>> {
    match launch {
        Some(command) => Some(command@),
        None => None,
    }
}

/// Whether a program to start is the one that a command names first, with the rest of
/// the command as its arguments, one for one.
pub open spec fn starts(launch: Launch, command: Seq<String>) -> bool {
    &&& command.len() == launch.args@.len() + 1
    &&& launch.program@ == command[0]@
    &&& forall|i: int|
        0 <= i < launch.args@.len() ==> (#[trigger] launch.args@[i])@ == command[i + 1]@
}

/// A password to check.
pub struct AuthRequest {
    pub password: String,
    pub pam_service: String,
}

/// What to do after a key.
pub enum KeyOutcome {
    /// To check the password.
    Authenticate(AuthRequest),
    /// To redraw the surfaces.
    Redraw,
    /// Nothing.
    Nothing,
}

/// What to do after an authentication.
#[derive(Clone, Copy, PartialEq, Eq, Debug, Structural)]
pub enum AuthOutcome {
    /// To unlock the session, and to leave.
    Unlock,
    /// To leave.
    Leave,
    /// To redraw the surfaces.
    Redraw,
}

/// What to do when a surface is configured.
#[derive(Clone, Copy, PartialEq, Eq, Debug, Structural)]
pub enum ConfigureOutcome {
    /// Nothing.
    Ignore,
    /// To draw the surface, in the memory that it has.
    Draw,
    /// To draw the surface, in new memory of this many bytes.
    DrawInNewPool(usize),
}

/// A lock session.
pub struct Locker {
    pub config: Config,
    pub screens: Vec<Screen>,
    pub last_activity: u128,
    pub password: String,
    pub auth_in_flight: bool,
    pub auth_error_until: Option<u128>,
    pub monitors_off: bool,
    pub locked: bool,
    pub exit: bool,
}

/// The state of a lock session.
#[verifier::ext_equal]
pub struct State {
    pub settings: Settings,
    pub screens: Seq<Screen>,
    pub last_activity: int,
    pub password: Seq<char>,
    pub auth_in_flight: bool,
    pub auth_error_until: Option<int>,
    pub monitors_off: bool,
    pub locked: bool,
    pub exit: bool,
}

impl View for Locker {
    type V = State;

    open spec fn view(&self) -> State {
        State {
            settings: self.config@,
            screens: self.screens@,
            last_activity: self.last_activity as int,
            password: self.password@,
            auth_in_flight: self.auth_in_flight,
            auth_error_until: match self.auth_error_until {
                Some(until) => Some(until as int),
                None => None,
            },
            monitors_off: self.monitors_off,
            locked: self.locked,
            exit: self.exit,
        }
    }
}

/// The characters of a text that are no control codes.
pub open spec fn printable(text: Seq<char>) -> Seq<char>
    decreases text.len(),
{
    if text.len() == 0 {
        Seq::empty()
    } else if is_control_code(text.last()) {
        printable(text.drop_last())
    } else {
        printable(text.drop_last()).push(text.last())
    }
}

/// Whether a key submits the password.
pub open spec fn is_enter(keysym: u32) -> bool {
    keysym == KEY_RETURN || keysym == KEY_KP_ENTER
}

/// Whether a key takes the last character from the password.
pub open spec fn is_erase(keysym: u32) -> bool {
    keysym == KEY_BACK_SPACE || keysym == KEY_DELETE
}

impl State {
    /// The state at the beginning.
    pub open spec fn initial(settings: Settings, screens: nat, now: int) -> State {
        State {
            settings,
            screens: Seq::new(screens, |i: int| Screen::blank()),
            last_activity: now,
            password: Seq::empty(),
            auth_in_flight: false,
            auth_error_until: None,
            monitors_off: false,
            locked: true,
            exit: false,
        }
    }

    /// Whether the surfaces show a button.
    pub open spec fn button_enabled(self) -> bool {
        self.settings.power_off_command is Some
    }

    /// Whole seconds since the last activity.
    pub open spec fn idle_seconds(self, now: int) -> int {
        if now > self.last_activity {
            (now - self.last_activity) / SECOND as int
        } else {
            0
        }
    }

    /// Seconds until the screen goes off.
    pub open spec fn remaining(self, now: int) -> int {
        if self.settings.off_after > self.idle_seconds(now) {
            self.settings.off_after - self.idle_seconds(now)
        } else {
            0
        }
    }

    /// After activity.
    pub open spec fn active(self, now: int) -> State {
        State { last_activity: now, monitors_off: false, ..self }
    }

    /// After the screen was turned off.
    pub open spec fn powered_off(self) -> State {
        State { monitors_off: true, ..self }
    }

    /// The command that turns the screen off, if there is one.
    pub open spec fn power_off_command(self) -> Option<Seq<Seq<char>>> {
        match self.settings.power_off_command {
            Some(command) => if command.len() > 0 {
                Some(command)
            } else {
                None
            },
            None => None,
        }
    }

    /// Whether it is time to turn the screen off.
    pub open spec fn due(self, now: int) -> bool {
        !self.monitors_off && self.idle_seconds(now) >= self.settings.off_after
    }

    /// The program that a tick of the clock starts, if it starts one.
    pub open spec fn tick_launch(self, now: int) -> Option<Seq<Seq<char>>> {
        if self.due(now) {
            self.power_off_command()
        } else {
            None
        }
    }

    /// After a tick of the clock.
    pub open spec fn ticked(self, now: int) -> State {
        let until = match self.auth_error_until {
            Some(until) => if now >= until {
                None
            } else {
                Some(until)
            },
            None => None,
        };
        State { auth_error_until: until, monitors_off: self.monitors_off || self.due(now), ..self }
    }

    /// Whether there is a password to submit, and none being checked.
    pub open spec fn submits(self) -> bool {
        !self.auth_in_flight && self.password.len() > 0
    }

    /// After the password was submitted, if it can be.
    pub open spec fn submitted(self) -> State {
        if self.submits() {
            State { auth_in_flight: true, password: Seq::empty(), ..self }
        } else {
            self
        }
    }

    /// The password that a key submits, if it submits one.
    pub open spec fn key_request(self, keysym: u32) -> Option<Seq<char>> {
        if is_enter(keysym) && self.submits() {
            Some(self.password)
        } else {
            None
        }
    }

    /// Whether a key, with a text or not, edits the password.
    pub open spec fn edits(self, keysym: u32, has_text: bool) -> bool {
        !is_enter(keysym) && (is_erase(keysym) || keysym == KEY_ESCAPE || (!self.auth_in_flight
            && has_text))
    }

    /// After a key was pressed.
    pub open spec fn pressed(self, keysym: u32, text: Option<Seq<char>>, now: int) -> State {
        let next = self.active(now);
        if is_enter(keysym) {
            next.submitted()
        } else if is_erase(keysym) {
            State {
                password: if next.password.len() > 0 {
                    next.password.drop_last()
                } else {
                    next.password
                },
                ..next
            }
        } else if keysym == KEY_ESCAPE {
            State { password: Seq::empty(), ..next }
        } else if next.auth_in_flight {
            next
        } else {
            match text {
                Some(typed) => State { password: next.password + printable(typed), ..next },
                None => next,
            }
        }
    }

    /// After an authentication.
    pub open spec fn authenticated(self, result: AuthResult, now: int) -> State {
        match result {
            AuthResult::Success => State {
                auth_in_flight: false,
                locked: false,
                exit: true,
                ..self
            },
            AuthResult::Failure => State {
                auth_in_flight: false,
                password: Seq::empty(),
                auth_error_until: Some(now + ERROR_TIME),
                ..self
            },
        }
    }

    /// Whether something that happened with the pointer is a click on a button.
    pub open spec fn is_click(self, input: PointerInput) -> bool {
        &&& input.pressed == Some(BUTTON_LEFT)
        &&& input.surface matches Some(surface) && surface < self.screens.len()
            && self.screens[surface as int].button.holds(input.x as int, input.y as int)
    }

    /// Whether one of the things that happened with the pointer is a click on a button.
    pub open spec fn clicked(self, inputs: Seq<PointerInput>) -> bool {
        exists|i: int| 0 <= i < inputs.len() && #[trigger] self.is_click(inputs[i])
    }

    /// The program that is started by what happened with the pointer, if one is.
    pub open spec fn pointer_launch(self, inputs: Seq<PointerInput>) -> Option<Seq<Seq<char>>> {
        if self.clicked(inputs) {
            self.power_off_command()
        } else {
            None
        }
    }

    /// After things happened with the pointer.
    pub open spec fn pointed(self, inputs: Seq<PointerInput>, now: int) -> State {
        let next = if inputs.len() > 0 {
            self.active(now)
        } else {
            self
        };
        if self.clicked(inputs) {
            next.powered_off()
        } else {
            next
        }
    }

    /// Whether a surface takes the size that it is given.
    pub open spec fn takes_size(self, surface: Option<usize>, width: u32, height: u32) -> bool {
        surface is Some && width != 0 && height != 0
    }

    /// After a surface was configured.
    pub open spec fn configured(self, surface: Option<usize>, width: u32, height: u32) -> State {
        if self.takes_size(surface, width, height) {
            State {
                screens: self.screens.update(
                    surface->0 as int,
                    Screen {
                        width,
                        height,
                        button: ButtonRect::placed(width, height, self.button_enabled()),
                    },
                ),
                ..self
            }
        } else {
            self
        }
    }

    /// After the compositor ended the session.
    pub open spec fn finished(self) -> State {
        State { exit: true, ..self }
    }
}

/// A length of time as minutes and seconds.
pub open spec fn duration_text(seconds: nat) -> Seq<char> {
    two_digits(seconds / 60) + ":"@ + two_digits(seconds % 60)
}

/// Writes a length of time as minutes and seconds.
pub fn format_duration(seconds: u64) -> (text: String)
    ensures
        text@ == duration_text(seconds as nat),
{
    let mut text = String::new();
    push_two_digits(&mut text, seconds / 60);
    let mut text = text.concat(":");
    push_two_digits(&mut text, seconds % 60);
    assert(text@ =~= duration_text(seconds as nat));
    text
}

/// The countdown.
pub open spec fn countdown_text(seconds: nat) -> Seq<char> {
    "OFF IN "@ + duration_text(seconds)
}

/// Writes the countdown.
fn format_countdown(seconds: u64) -> (text: String)
    ensures
        text@ == countdown_text(seconds as nat),
{
    "OFF IN ".to_owned().concat(format_duration(seconds).as_str())
}

/// A number of at least two characters.
pub open spec fn two_places(n: int) -> Seq<char> {
    if n < 0 {
        "-"@ + decimal((-n) as nat)
    } else {
        two_digits(n as nat)
    }
}

/// Appends a number of at least two characters.
fn push_two_places(text: &mut String, n: i32)
    ensures
        final(text)@ == old(text)@ + two_places(n as int),
{
    if n < 0 {
        text.push('-');
        push_decimal(text, (-(n as i64)) as u128);
        proof {
            reveal_strlit("-");
        }
        assert(final(text)@ =~= old(text)@ + two_places(n as int));
    } else {
        push_two_digits(text, n as u64);
    }
}

/// A time of day.
pub open spec fn clock_text(hour: int, minute: int, second: int) -> Seq<char> {
    two_places(hour) + ":"@ + two_places(minute) + ":"@ + two_places(second)
}

/// Writes the time of day.
pub fn format_clock(hour: i32, minute: i32, second: i32) -> (text: String)
    ensures
        text@ == clock_text(hour as int, minute as int, second as int),
{
    let mut text = String::new();
    push_two_places(&mut text, hour);
    let mut text = text.concat(":");
    push_two_places(&mut text, minute);
    let mut text = text.concat(":");
    push_two_places(&mut text, second);
    assert(text@ =~= clock_text(hour as int, minute as int, second as int));
    text
}

impl Locker {
    /// A session that begins now, with so many surfaces.
    pub fn new(config: Config, screens: usize, now: u128) -> (locker: Locker)
        ensures
            locker@ == State::initial(config@, screens as nat, now as int),
    {
        let mut list: Vec<Screen> = Vec::new();
        while list.len() < screens
            invariant
                list@.len() <= screens,
                forall|i: int| 0 <= i < list@.len() ==> list@[i] == Screen::blank(),
            decreases screens - list@.len(),
        {
            list.push(Screen { width: 0, height: 0, button: ButtonRect::default() });
        }
        let locker = Locker {
            config,
            screens: list,
            last_activity: now,
            password: String::new(),
            auth_in_flight: false,
            auth_error_until: None,
            monitors_off: false,
            locked: true,
            exit: false,
        };
        assert(locker@ =~= State::initial(config@, screens as nat, now as int));
        locker
    }

    /// Whole seconds since the last activity.
    fn idle_seconds(&self, now: u128) -> (seconds: u128)
        ensures
            seconds == self@.idle_seconds(now as int),
    {
        if now > self.last_activity {
            (now - self.last_activity) / SECOND
        } else {
            0
        }
    }

    /// Takes note of activity: the countdown starts anew.
    pub fn note_activity(&mut self, now: u128)
        ensures
            final(self)@ == old(self)@.active(now as int),
            final(self).config == old(self).config,
    {
        self.last_activity = now;
        self.monitors_off = false;
    }

    /// Takes note that the screen is turned off, and returns the program that does so.
    pub fn power_off_monitors(&mut self) -> (launch: Option<Launch>)
        ensures
            final(self)@ == old(self)@.powered_off(),
            launched(launch) == old(self)@.power_off_command(),
            launch matches Some(found) ==> old(self).config.power_off_command matches Some(command)
                && starts(found, command@),
            launch is None ==> (old(self).config.power_off_command matches Some(command)
                ==> command@.len() == 0),
    {
        self.monitors_off = true;
        match &self.config.power_off_command {
            Some(command) => {
                if command.len() == 0 {
                    None
                } else {
                    let launch = Launch { program: command[0].clone(), args: rest_of(command, 1) };
                    assert(launch@ =~= texts(command@));
                    proof {
                        let words = texts(command@).skip(1);
                        assert(texts(launch.args@) == words);
                        assert(texts(launch.args@).len() == words.len());
                        assert forall|i: int| 0 <= i < launch.args@.len() implies (
                        #[trigger] launch.args@[i])@ == command@[i + 1]@ by {
                            assert(texts(launch.args@)[i] == words[i]);
                        }
                    }
                    Some(launch)
                }
            },
            None => None,
        }
    }

    /// A tick of the clock. Returns the program to start, if it is time to turn the
    /// screen off; the surfaces are to be redrawn in any case.
    pub fn tick(&mut self, now: u128) -> (launch: Option<Launch>)
        ensures
            final(self)@ == old(self)@.ticked(now as int),
            launched(launch) == old(self)@.tick_launch(now as int),
            launch matches Some(found) ==> old(self).config.power_off_command matches Some(command)
                && starts(found, command@),
    {
        if let Some(until) = self.auth_error_until {
            if now >= until {
                self.auth_error_until = None;
            }
        }
        if !self.monitors_off && self.idle_seconds(now) >= self.config.off_after as u128 {
            self.power_off_monitors()
        } else {
            None
        }
    }

    /// Submits the password, unless there is none or one is being checked.
    pub fn submit_password(&mut self) -> (request: Option<AuthRequest>)
        ensures
            final(self)@ == old(self)@.submitted(),
            match request {
                Some(check) => old(self)@.submits() && check.password@ == old(self)@.password
                    && check.pam_service@ == old(self)@.settings.pam_service,
                None => !old(self)@.submits(),
            },
            request is Some <==> !old(self).auth_in_flight && old(self).password@.len() > 0,
            request matches Some(check) ==> check.password@ == old(self).password@
                && check.pam_service@ == old(self).config.pam_service@,
    {
        if self.auth_in_flight || self.password.as_str().is_empty() {
            return None;
        }
        self.auth_in_flight = true;
        let mut password = String::new();
        std::mem::swap(&mut password, &mut self.password);
        Some(AuthRequest { password, pam_service: self.config.pam_service.clone() })
    }

    /// A key was pressed, and stands for a text or not.
    pub fn handle_key(&mut self, keysym: u32, text: Option<&str>, now: u128) -> (outcome:
        KeyOutcome)
        ensures
            final(self)@ == old(self)@.pressed(
                keysym,
                match text {
                    Some(typed) => Some(typed@),
                    None => None,
                },
                now as int,
            ),
            match outcome {
                KeyOutcome::Authenticate(check) => old(self)@.key_request(keysym) == Some(
                    check.password@,
                ) && check.pam_service@ == old(self)@.settings.pam_service,
                KeyOutcome::Redraw => old(self)@.edits(keysym, text is Some),
                KeyOutcome::Nothing => old(self)@.key_request(keysym) is None && !old(self)@.edits(
                    keysym,
                    text is Some,
                ),
            },
            outcome matches KeyOutcome::Authenticate(check) ==> check.password@
                == old(self).password@ && check.pam_service@ == old(self).config.pam_service@,
    {
        self.note_activity(now);
        if keysym == KEY_RETURN || keysym == KEY_KP_ENTER {
            return match self.submit_password() {
                Some(check) => KeyOutcome::Authenticate(check),
                None => KeyOutcome::Nothing,
            };
        }
        if keysym == KEY_BACK_SPACE || keysym == KEY_DELETE {
            let _ = self.password.pop();
            return KeyOutcome::Redraw;
        }
        if keysym == KEY_ESCAPE {
            self.password = String::new();
            return KeyOutcome::Redraw;
        }
        if self.auth_in_flight {
            return KeyOutcome::Nothing;
        }
        match text {
            Some(typed) => {
                push_printable(&mut self.password, typed);
                KeyOutcome::Redraw
            },
            None => KeyOutcome::Nothing,
        }
    }

    /// An authentication is over.
    pub fn auth_finished(&mut self, result: AuthResult, now: u128) -> (outcome: AuthOutcome)
        requires
            result == AuthResult::Failure ==> now + ERROR_TIME <= u128::MAX,
        ensures
            final(self)@ == old(self)@.authenticated(result, now as int),
            outcome == match result {
                AuthResult::Success => if old(self)@.locked {
                    AuthOutcome::Unlock
                } else {
                    AuthOutcome::Leave
                },
                AuthResult::Failure => AuthOutcome::Redraw,
            },
    {
        self.auth_in_flight = false;
        match result {
            AuthResult::Success => {
                let locked = self.locked;
                self.locked = false;
                self.exit = true;
                if locked {
                    AuthOutcome::Unlock
                } else {
                    AuthOutcome::Leave
                }
            },
            AuthResult::Failure => {
                self.password = String::new();
                self.auth_error_until = Some(now + ERROR_TIME);
                AuthOutcome::Redraw
            },
        }
    }

    /// Things happened with the pointer. Returns the program to start, if one of them is
    /// a click on a button.
    pub fn pointer_frame(&mut self, inputs: &Vec<PointerInput>, now: u128) -> (launch: Option<
        Launch,
    >)
        ensures
            final(self)@ == old(self)@.pointed(inputs@, now as int),
            launched(launch) == old(self)@.pointer_launch(inputs@),
            launch matches Some(found) ==> old(self).config.power_off_command matches Some(command)
                && starts(found, command@),
    {
        if inputs.len() > 0 {
            self.note_activity(now);
        }
        let mut clicked = false;
        let mut i: usize = 0;
        let ghost before = old(self)@;
        while i < inputs.len()
            invariant
                i <= inputs@.len(),
                before == old(self)@,
                before.screens == self.screens@,
                self.config == old(self).config,
                self@ == if inputs@.len() > 0 {
                    before.active(now as int)
                } else {
                    before
                },
                clicked == exists|j: int| 0 <= j < i && #[trigger] before.is_click(inputs@[j]),
            decreases inputs@.len() - i,
        {
            let input: PointerInput = inputs[i];
            let hit = self.hits_button(&input);
            assert(hit == before.is_click(inputs@[i as int]));
            if hit {
                clicked = true;
            }
            i = i + 1;
        }
        if clicked {
            self.power_off_monitors()
        } else {
            None
        }
    }

    /// Whether something that happened with the pointer is a click on a button.
    fn hits_button(&self, input: &PointerInput) -> (hit: bool)
        ensures
            hit == self@.is_click(*input),
    {
        match (input.pressed, input.surface) {
            (Some(button), Some(surface)) => button == BUTTON_LEFT && surface < self.screens.len()
                && self.screens[surface].button.contains(input.x, input.y),
            _ => false,
        }
    }

    /// A surface was given a size; it has memory of so many bytes, or none.
    pub fn configure(
        &mut self,
        surface: Option<usize>,
        width: u32,
        height: u32,
        pool: Option<usize>,
    ) -> (outcome: ConfigureOutcome)
        requires
            surface matches Some(number) ==> number < old(self)@.screens.len(),
            old(self)@.takes_size(surface, width, height) ==> width * height * 4 <= usize::MAX,
        ensures
            final(self)@ == old(self)@.configured(surface, width, height),
            outcome == if !old(self)@.takes_size(surface, width, height) {
                ConfigureOutcome::Ignore
            } else if pool matches Some(bytes) && bytes >= width * height * 4 {
                ConfigureOutcome::Draw
            } else {
                ConfigureOutcome::DrawInNewPool((width * height * 4) as usize)
            },
    {
        let number: usize = match surface {
            Some(number) => number,
            None => {
                return ConfigureOutcome::Ignore;
            },
        };
        if width == 0 || height == 0 {
            return ConfigureOutcome::Ignore;
        }
        proof {
            assert(0 <= width * height) by (nonlinear_arith);
        }
        let size: usize = width as usize * height as usize * 4;
        let screen = Screen {
            width,
            height,
            button: ButtonRect::place(width, height, self.config.power_off_command.is_some()),
        };
        self.screens.set(number, screen);
        match pool {
            Some(bytes) => {
                if bytes < size {
                    ConfigureOutcome::DrawInNewPool(size)
                } else {
                    ConfigureOutcome::Draw
                }
            },
            None => ConfigureOutcome::DrawInNewPool(size),
        }
    }

    /// The compositor ended the session.
    pub fn finished(&mut self)
        ensures
            final(self)@ == old(self)@.finished(),
    {
        self.exit = true;
    }

    /// The countdown that the surfaces show now.
    pub fn timer_text(&self, now: u128) -> (text: String)
        ensures
            text@ == countdown_text(self@.remaining(now as int) as nat),
    {
        let idle: u128 = self.idle_seconds(now);
        let remaining: u64 = if self.config.off_after as u128 > idle {
            (self.config.off_after as u128 - idle) as u64
        } else {
            0
        };
        format_countdown(remaining)
    }

    /// The countdown that a surface shows when it is configured.
    pub fn first_timer_text(&self) -> (text: String)
        ensures
            text@ == countdown_text(self@.settings.off_after as nat),
    {
        format_countdown(self.config.off_after)
    }

    /// What the surfaces show.
    pub fn surface_content<'a>(&self, clock: &'a str, timer: &'a str) -> (content: SurfaceContent<
        'a,
    >)
        ensures
            content.background == self@.settings.color,
            content.background == self.config.color,
            content.clock@ == clock@,
            content.timer@ == timer@,
            content.password_len == self@.password.len(),
            content.password_len == self.password@.len(),
            content.show_error == self@.auth_error_until is Some,
            content.button_enabled == self@.button_enabled(),
            content.button_enabled == self.config.power_off_command is Some,
    {
        SurfaceContent {
            background: self.config.color,
            clock,
            timer,
            password_len: self.password.as_str().unicode_len(),
            show_error: self.auth_error_until.is_some(),
            button_enabled: self.config.power_off_command.is_some(),
        }
    }

    /// What a surface shows when it is configured.
    pub fn first_surface_content<'a>(&self, clock: &'a str, timer: &'a str) -> (content:
        SurfaceContent<'a>)
        ensures
            content.background == self@.settings.color,
            content.background == self.config.color,
            content.clock@ == clock@,
            content.timer@ == timer@,
            content.password_len == 0,
            content.show_error == false,
            content.button_enabled == self@.button_enabled(),
            content.button_enabled == self.config.power_off_command is Some,
    {
        SurfaceContent {
            background: self.config.color,
            clock,
            timer,
            password_len: 0,
            show_error: false,
            button_enabled: self.config.power_off_command.is_some(),
        }
    }
}

/// Appends the characters of a text that are no control codes.
fn push_printable(password: &mut String, text: &str)
    ensures
        final(password)@ == old(password)@ + printable(text@),
{
    let ghost before = password@;
    assert(before + printable(text@.take(0)) =~= before);
    for character in it: text.chars()
        invariant
            it.seq() == text@,
            before == old(password)@,
            password@ == before + printable(text@.take(it.index())),
    {
        let ghost k = it.index();
        proof {
            assert(text@.take(k + 1).drop_last() =~= text@.take(k));
            assert(text@.take(k + 1).last() == character);
        }
        if !control_code(character) {
            password.push(character);
            assert(password@ =~= before + printable(text@.take(k)).push(character));
        }
    }
    assert(text@.take(text@.len() as int) =~= text@);
}

} // verus!
