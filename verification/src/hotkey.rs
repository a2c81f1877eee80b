//! Global hotkeys: modifier tracking, matching key combos such as
//! `Alt+Shift+R`, and what each hotkey command does.

use vstd::prelude::*;
use crate::recorder::RecordingState;
use crate::settings::AppSettings;
use crate::text::{
    chars_eq_ignore_ascii_case, chars_of, decimal, str_eq, decimal_string, eq_ignore_ascii_case,
    lemma_split_on_nonempty, push_char, split_chars, split_on, upper_text,
    string_from_chars, to_uppercase, trim, trim_chars,
};

verus! {

/// The modifier bit of Alt.
pub const MOD_ALT: u8 = 1;

/// The modifier bit of Ctrl.
pub const MOD_CTRL: u8 = 2;

/// The modifier bit of Shift.
pub const MOD_SHIFT: u8 = 4;

/// The modifier bit of Super.
pub const MOD_SUPER: u8 = 8;

/// The modifier bit of a key, named as evdev names it, if it is a modifier.
pub open spec fn modifier_bit_spec(key: Seq<char>) -> Option<u8> {
    if key == "KEY_LEFTALT"@ || key == "KEY_RIGHTALT"@ {
        Some(MOD_ALT)
    } else if key == "KEY_LEFTCTRL"@ || key == "KEY_RIGHTCTRL"@ {
        Some(MOD_CTRL)
    } else if key == "KEY_LEFTSHIFT"@ || key == "KEY_RIGHTSHIFT"@ {
        Some(MOD_SHIFT)
    } else if key == "KEY_LEFTMETA"@ || key == "KEY_RIGHTMETA"@ {
        Some(MOD_SUPER)
    } else {
        None
    }
}

/// The modifier bit of a key, if it is a modifier.
pub fn modifier_bit(key: &str) -> (r: Option<u8>)
    ensures
        r == modifier_bit_spec(key@),
{
    if str_eq(key, "KEY_LEFTALT") || str_eq(key, "KEY_RIGHTALT") {
        Some(MOD_ALT)
    } else if str_eq(key, "KEY_LEFTCTRL") || str_eq(key, "KEY_RIGHTCTRL") {
        Some(MOD_CTRL)
    } else if str_eq(key, "KEY_LEFTSHIFT") || str_eq(key, "KEY_RIGHTSHIFT") {
        Some(MOD_SHIFT)
    } else if str_eq(key, "KEY_LEFTMETA") || str_eq(key, "KEY_RIGHTMETA") {
        Some(MOD_SUPER)
    } else {
        None
    }
}

/// The held modifiers after `key` went down or up: a modifier's bit is set
/// while it is held and cleared when it is released; other keys change nothing.
pub open spec fn update_modifiers_spec(mods: u8, key: Seq<char>, down: bool) -> u8 {
    match modifier_bit_spec(key) {
        Some(bit) => if down {
            mods | bit
        } else {
            mods & !bit
        },
        None => mods,
    }
}

/// Tracks the held modifiers across a key event.
pub fn update_modifiers(mods: u8, key: &str, down: bool) -> (r: u8)
    ensures
        r == update_modifiers_spec(mods, key@, down),
{
    match modifier_bit(key) {
        Some(bit) => if down {
            mods | bit
        } else {
            mods & !bit
        },
        None => mods,
    }
}

/// The left and the right key of each modifier set the same bit: Alt 1,
/// Ctrl 2, Shift 4 and Super (evdev's Meta) 8, and no other key is a
/// modifier. So pressing either one marks its modifier as held.
pub proof fn lemma_modifier_keys(key: Seq<char>, mods: u8)
    ensures
        modifier_bit_spec(key) == Some(1u8) <==> (key == "KEY_LEFTALT"@ || key == "KEY_RIGHTALT"@),
        modifier_bit_spec(key) == Some(2u8) <==> (key == "KEY_LEFTCTRL"@ || key
            == "KEY_RIGHTCTRL"@),
        modifier_bit_spec(key) == Some(4u8) <==> (key == "KEY_LEFTSHIFT"@ || key
            == "KEY_RIGHTSHIFT"@),
        modifier_bit_spec(key) == Some(8u8) <==> (key == "KEY_LEFTMETA"@ || key
            == "KEY_RIGHTMETA"@),
        modifier_bit_spec(key) is Some ==> modifier_bit_spec(key) == Some(1u8) || modifier_bit_spec(
            key,
        ) == Some(2u8) || modifier_bit_spec(key) == Some(4u8) || modifier_bit_spec(key) == Some(
            8u8,
        ),
        modifier_bit_spec(key) matches Some(b) ==> update_modifiers_spec(mods, key, true) & b != 0,
{
    reveal_strlit("KEY_LEFTALT");
    reveal_strlit("KEY_RIGHTALT");
    reveal_strlit("KEY_LEFTCTRL");
    reveal_strlit("KEY_RIGHTCTRL");
    reveal_strlit("KEY_LEFTSHIFT");
    reveal_strlit("KEY_RIGHTSHIFT");
    reveal_strlit("KEY_LEFTMETA");
    reveal_strlit("KEY_RIGHTMETA");
    assert("KEY_LEFTALT"@.len() == 11 && "KEY_RIGHTALT"@.len() == 12 && "KEY_LEFTCTRL"@.len()
        == 12 && "KEY_RIGHTCTRL"@.len() == 13 && "KEY_LEFTSHIFT"@.len() == 13
        && "KEY_RIGHTSHIFT"@.len() == 14 && "KEY_LEFTMETA"@.len() == 12 && "KEY_RIGHTMETA"@.len()
        == 13);
    assert("KEY_RIGHTALT"@[4] != "KEY_LEFTCTRL"@[4]);
    assert("KEY_RIGHTALT"@[4] != "KEY_LEFTMETA"@[4]);
    assert("KEY_LEFTCTRL"@[8] != "KEY_LEFTMETA"@[8]);
    assert("KEY_RIGHTCTRL"@[4] != "KEY_LEFTSHIFT"@[4]);
    assert("KEY_RIGHTCTRL"@[9] != "KEY_RIGHTMETA"@[9]);
    assert("KEY_LEFTSHIFT"@[4] != "KEY_RIGHTMETA"@[4]);
    if modifier_bit_spec(key) is Some {
        lemma_modifier_press_release(mods, key);
    }
}

/// Pressing a modifier and releasing it again leaves the other modifiers as
/// they were and the released one clear.
pub proof fn lemma_modifier_press_release(mods: u8, key: Seq<char>)
    requires
        modifier_bit_spec(key) is Some,
    ensures
        update_modifiers_spec(update_modifiers_spec(mods, key, true), key, false) == mods & !(
        modifier_bit_spec(key)->Some_0),
        update_modifiers_spec(mods, key, true) & modifier_bit_spec(key)->Some_0 != 0,
{
    let bit = modifier_bit_spec(key)->Some_0;
    assert(bit == 1 || bit == 2 || bit == 4 || bit == 8);
    assert((mods | bit) & !bit == mods & !bit) by (bit_vector);
    assert(bit == 1 || bit == 2 || bit == 4 || bit == 8 ==> (mods | bit) & bit != 0) by (
    bit_vector);
}

/// The trimmed `+`-separated parts of a hotkey such as `"Alt + Shift + R"`.
pub open spec fn hotkey_parts(hotkey: Seq<char>) -> Seq<Seq<char>> {
    split_on(hotkey, '+').map_values(|p: Seq<char>| trim(p))
}

/// Whether some part of a hotkey names `word`, ignoring ASCII case.
pub open spec fn names_modifier(parts: Seq<Seq<char>>, word: Seq<char>) -> bool {
    exists|i: int| 0 <= i < parts.len() && eq_ignore_ascii_case(#[trigger] parts[i], word)
}

/// Whether pressing the key named `pressed` with the modifiers `mods` held
/// fires `hotkey`: the last part, upper-cased, names the key (`KEY_` and
/// the name, as evdev spells it), and Alt, Ctrl, Shift and Super (or Meta)
/// are held exactly when the hotkey names them.
pub open spec fn hotkey_matches_spec(hotkey: Seq<char>, pressed: Seq<char>, mods: u8) -> bool {
    hotkey_matches_key_spec(hotkey, upper_text(hotkey_parts(hotkey).last()), pressed, mods)
}

/// Whether pressing the key named `pressed` with `mods` held fires
/// `hotkey`, given its last part upper-cased as `main_key`: `pressed` is
/// `KEY_` and `main_key`, and Alt, Ctrl, Shift and Super (or Meta) are held
/// exactly when the hotkey names them.
pub open spec fn hotkey_matches_key_spec(
    hotkey: Seq<char>,
    main_key: Seq<char>,
    pressed: Seq<char>,
    mods: u8,
) -> bool {
    let parts = hotkey_parts(hotkey);
    &&& pressed == "KEY_"@ + main_key
    &&& names_modifier(parts, "alt"@) == (mods & MOD_ALT != 0)
    &&& names_modifier(parts, "ctrl"@) == (mods & MOD_CTRL != 0)
    &&& names_modifier(parts, "shift"@) == (mods & MOD_SHIFT != 0)
    &&& (names_modifier(parts, "super"@) || names_modifier(parts, "meta"@)) == (mods & MOD_SUPER
        != 0)
}

/// Whether one of `parts` names `word`, ignoring ASCII case.
fn any_part_is(parts: &Vec<Vec<char>>, word: &str) -> (r: bool)
    ensures
        r == names_modifier(parts@.map_values(|p: Vec<char>| p@), word@),
{
    let w = chars_of(word);
    let ghost ps = parts@.map_values(|p: Vec<char>| p@);
    let mut i: usize = 0;
    while i < parts.len()
        invariant
            i <= parts@.len(),
            ps == parts@.map_values(|p: Vec<char>| p@),
            w@ == word@,
            forall|j: int| 0 <= j < i ==> !eq_ignore_ascii_case(#[trigger] ps[j], word@),
        decreases parts@.len() - i,
    {
        if chars_eq_ignore_ascii_case(parts[i].as_slice(), w.as_slice()) {
            assert(eq_ignore_ascii_case(ps[i as int], word@));
            return true;
        }
        i = i + 1;
    }
    false
}

fn hotkey_part_list(hotkey: &str) -> (parts: Vec<Vec<char>>)
    ensures
        parts@.map_values(|p: Vec<char>| p@) == hotkey_parts(hotkey@),
        parts@.len() >= 1,
{
    let hs = chars_of(hotkey);
    let pieces = split_chars(hs.as_slice(), '+');
    proof {
        lemma_split_on_nonempty(hs@, '+');
    }
    let mut parts: Vec<Vec<char>> = Vec::new();
    let mut i: usize = 0;
    while i < pieces.len()
        invariant
            i <= pieces@.len() == split_on(hs@, '+').len(),
            forall|j: int| 0 <= j < pieces@.len() ==> #[trigger] pieces@[j]@ == split_on(hs@, '+')[j],
            parts@.len() == i,
            forall|j: int| 0 <= j < i ==> #[trigger] parts@[j]@ == trim(split_on(hs@, '+')[j]),
        decreases pieces@.len() - i,
    {
        let t = trim_chars(pieces[i].as_slice());
        parts.push(t);
        i = i + 1;
    }
    let ghost ps = parts@.map_values(|p: Vec<char>| p@);
    assert(ps =~= hotkey_parts(hotkey@));
    parts
}

/// Whether a key press fires `hotkey`, given the hotkey's last part already
/// upper-cased as `main_key`, the key's evdev name and the modifiers held.
pub fn hotkey_matches_key(hotkey: &str, main_key: &str, pressed: &str, mods: u8) -> (r: bool)
    ensures
        r == hotkey_matches_key_spec(hotkey@, main_key@, pressed@, mods),
{
    let parts = hotkey_part_list(hotkey);
    let mut key_name = "KEY_".to_string();
    key_name.append(main_key);
    if !str_eq(pressed, key_name.as_str()) {
        return false;
    }
    let need_alt = any_part_is(&parts, "alt");
    let need_ctrl = any_part_is(&parts, "ctrl");
    let need_shift = any_part_is(&parts, "shift");
    let need_super = any_part_is(&parts, "super") || any_part_is(&parts, "meta");
    (need_alt == (mods & MOD_ALT != 0)) && (need_ctrl == (mods & MOD_CTRL != 0)) && (need_shift
        == (mods & MOD_SHIFT != 0)) && (need_super == (mods & MOD_SUPER != 0))
}

/// Whether a key press fires the hotkey `hotkey`, given the key's evdev
/// name and the modifiers held.
pub fn hotkey_matches(hotkey: &str, pressed: &str, mods: u8) -> (r: bool)
    ensures
        r == hotkey_matches_spec(hotkey@, pressed@, mods),
{
    let parts = hotkey_part_list(hotkey);
    let main_key = string_from_chars(parts[parts.len() - 1].as_slice());
    let upper = to_uppercase(main_key.as_str());
    hotkey_matches_key(hotkey, upper.as_str(), pressed, mods)
}

/// What a hotkey, or a command sent to the app's socket, asks for.
#[derive(Clone, Copy, Debug, PartialEq, Eq, Structural)]
pub enum HotkeyCommand {
    SaveReplay,
    ToggleRecording,
    ToggleBuffer,
}

/// The name of a command on the app's socket and command line.
pub open spec fn command_name(c: HotkeyCommand) -> Seq<char> {
    match c {
        HotkeyCommand::SaveReplay => "save-replay"@,
        HotkeyCommand::ToggleRecording => "toggle-recording"@,
        HotkeyCommand::ToggleBuffer => "toggle-buffer"@,
    }
}

/// The command a name stands for; any other text is ignored.
pub open spec fn parse_command_spec(name: Seq<char>) -> Option<HotkeyCommand> {
    if name == "save-replay"@ {
        Some(HotkeyCommand::SaveReplay)
    } else if name == "toggle-buffer"@ {
        Some(HotkeyCommand::ToggleBuffer)
    } else if name == "toggle-recording"@ {
        Some(HotkeyCommand::ToggleRecording)
    } else {
        None
    }
}

/// The command named by `name`.
pub fn parse_command(name: &str) -> (r: Option<HotkeyCommand>)
    ensures
        r == parse_command_spec(name@),
{
    if str_eq(name, "save-replay") {
        Some(HotkeyCommand::SaveReplay)
    } else if str_eq(name, "toggle-buffer") {
        Some(HotkeyCommand::ToggleBuffer)
    } else if str_eq(name, "toggle-recording") {
        Some(HotkeyCommand::ToggleRecording)
    } else {
        None
    }
}

/// A command's name parses back to the command.
pub proof fn lemma_command_name_round_trip(c: HotkeyCommand)
    ensures
        parse_command_spec(command_name(c)) == Some(c),
{
    reveal_strlit("save-replay");
    reveal_strlit("toggle-buffer");
    reveal_strlit("toggle-recording");
    assert("save-replay"@.len() == 11);
    assert("toggle-buffer"@.len() == 13);
    assert("toggle-recording"@.len() == 16);
}

/// How long, in nanoseconds, the save-replay hotkey stays quiet after firing.
pub const SAVE_REPLAY_DEBOUNCE_NS: u64 = 1_500_000_000;

/// The command a key press fires: the save-replay hotkey (only when more
/// than 1.5 s passed since it last fired), else the recording hotkey, else
/// the buffer hotkey, else none.
pub open spec fn key_command_spec(
    s: AppSettings,
    pressed: Seq<char>,
    mods: u8,
    since_last_clip_ns: u64,
) -> Option<HotkeyCommand> {
    if hotkey_matches_spec(s.hotkey_save_replay@, pressed, mods) {
        if since_last_clip_ns > SAVE_REPLAY_DEBOUNCE_NS {
            Some(HotkeyCommand::SaveReplay)
        } else {
            None
        }
    } else if hotkey_matches_spec(s.hotkey_start_stop_recording@, pressed, mods) {
        Some(HotkeyCommand::ToggleRecording)
    } else if hotkey_matches_spec(s.hotkey_start_stop_buffer@, pressed, mods) {
        Some(HotkeyCommand::ToggleBuffer)
    } else {
        None
    }
}

/// The command fired by pressing the key named `pressed` with `mods` held,
/// `since_last_clip_ns` after the save-replay hotkey last fired.
pub fn key_command(s: &AppSettings, pressed: &str, mods: u8, since_last_clip_ns: u64) -> (r:
    Option<HotkeyCommand>)
    ensures
        r == key_command_spec(*s, pressed@, mods, since_last_clip_ns),
{
    if hotkey_matches(s.hotkey_save_replay.as_str(), pressed, mods) {
        if since_last_clip_ns > SAVE_REPLAY_DEBOUNCE_NS {
            Some(HotkeyCommand::SaveReplay)
        } else {
            None
        }
    } else if hotkey_matches(s.hotkey_start_stop_recording.as_str(), pressed, mods) {
        Some(HotkeyCommand::ToggleRecording)
    } else if hotkey_matches(s.hotkey_start_stop_buffer.as_str(), pressed, mods) {
        Some(HotkeyCommand::ToggleBuffer)
    } else {
        None
    }
}

/// What the app does for a command, given what is running.
#[derive(Clone, Copy, Debug, PartialEq, Eq, Structural)]
pub enum HotkeyAction {
    SaveReplay,
    StopBuffer,
    StartBuffer,
    StopRecording,
    StartRecording,
}

/// Saving always saves; the toggles stop what runs and start what does not.
pub open spec fn hotkey_action_spec(cmd: HotkeyCommand, st: RecordingState) -> HotkeyAction {
    match cmd {
        HotkeyCommand::SaveReplay => HotkeyAction::SaveReplay,
        HotkeyCommand::ToggleBuffer => if st.replay_buffer_active {
            HotkeyAction::StopBuffer
        } else {
            HotkeyAction::StartBuffer
        },
        HotkeyCommand::ToggleRecording => if st.recording_active {
            HotkeyAction::StopRecording
        } else {
            HotkeyAction::StartRecording
        },
    }
}

/// The action a command calls for.
pub fn hotkey_action(cmd: HotkeyCommand, st: RecordingState) -> (r: HotkeyAction)
    ensures
        r == hotkey_action_spec(cmd, st),
{
    match cmd {
        HotkeyCommand::SaveReplay => HotkeyAction::SaveReplay,
        HotkeyCommand::ToggleBuffer => if st.replay_buffer_active {
            HotkeyAction::StopBuffer
        } else {
            HotkeyAction::StartBuffer
        },
        HotkeyCommand::ToggleRecording => if st.recording_active {
            HotkeyAction::StopRecording
        } else {
            HotkeyAction::StartRecording
        },
    }
}

/// The name a saved replay is given: the window's app name and the date.
pub open spec fn pending_clip_name_spec(app: Seq<char>, date: Seq<char>) -> Seq<char> {
    app + seq!['_'] + date
}

/// The name for the replay being saved, `<app>_<date>`.
pub fn pending_clip_name(app: &str, date: &str) -> (r: String)
    ensures
        r@ == pending_clip_name_spec(app@, date@),
{
    let mut r = app.to_string();
    push_char(&mut r, '_');
    r.append(date);
    r
}

/// The notice for a saved replay: `Klyppd the last <secs>s of <app>`.
pub open spec fn saved_replay_message_spec(secs: u32, app: Seq<char>) -> Seq<char> {
    "Klyppd the last "@ + decimal(secs as nat) + "s of "@ + app
}

/// The notice shown after a replay was saved.
pub fn saved_replay_message(secs: u32, app: &str) -> (r: String)
    ensures
        r@ == saved_replay_message_spec(secs, app@),
{
    let mut r = "Klyppd the last ".to_string();
    r.append(decimal_string(secs as u64).as_str());
    r.append("s of ");
    r.append(app);
    r
}

/// The notice for a started buffer: `Buffering last <secs>s`.
pub open spec fn buffering_message_spec(secs: u32) -> Seq<char> {
    "Buffering last "@ + decimal(secs as nat) + "s"@
}

/// The notice shown after the replay buffer started.
pub fn buffering_message(secs: u32) -> (r: String)
    ensures
        r@ == buffering_message_spec(secs),
{
    let mut r = "Buffering last ".to_string();
    r.append(decimal_string(secs as u64).as_str());
    r.append("s");
    r
}

/// The held modifiers after a key event and the command it fires: the
/// modifiers follow every press (value 1), repeat (2) and release (0), but
/// only a press can fire a command.
pub open spec fn key_event_spec(
    s: AppSettings,
    mods: u8,
    key: Seq<char>,
    value: i32,
    since_last_clip_ns: u64,
) -> (u8, Option<HotkeyCommand>) {
    let m = update_modifiers_spec(mods, key, value != 0);
    if value != 1 {
        (m, None)
    } else {
        (m, key_command_spec(s, key, m, since_last_clip_ns))
    }
}

/// Handles one key event from a keyboard: updates the held modifiers and
/// says which command, if any, it fires.
pub fn key_event(s: &AppSettings, mods: u8, key: &str, value: i32, since_last_clip_ns: u64) -> (r: (
    u8,
    Option<HotkeyCommand>,
))
    ensures
        r == key_event_spec(*s, mods, key@, value, since_last_clip_ns),
{
    let m = update_modifiers(mods, key, value != 0);
    if value != 1 {
        (m, None)
    } else {
        (m, key_command(s, key, m, since_last_clip_ns))
    }
}

/// How long ago, in nanoseconds, the save-replay hotkey last fired, seen at
/// `now`: as good as forever when it never fired, and 0 if `now` were
/// before that time.
pub open spec fn since_last_clip(last_clip_ns: Option<u64>, now: u64) -> u64 {
    match last_clip_ns {
        Some(t) => if now >= t {
            (now - t) as u64
        } else {
            0
        },
        None => u64::MAX,
    }
}

/// The hotkey thread's state: the modifiers held and when (in nanoseconds
/// on a steady clock) the save-replay hotkey last fired.
pub struct HotkeyState {
    pub mods: u8,
    pub last_clip_ns: Option<u64>,
}

impl HotkeyState {
    /// No modifier held, and the save-replay hotkey never fired.
    pub fn new() -> (r: Self)
        ensures
            r.mods == 0,
            r.last_clip_ns is None,
    {
        HotkeyState { mods: 0, last_clip_ns: None }
    }

    /// Handles one key event at `now` from any keyboard: the modifiers
    /// follow the event, the command it fires is returned, and the time of
    /// a save-replay is remembered for the debounce.
    pub fn on_key(&mut self, s: &AppSettings, key: &str, value: i32, now: u64) -> (r: Option<
        HotkeyCommand,
    >)
        ensures
            (final(self).mods, r) == key_event_spec(
                *s,
                old(self).mods,
                key@,
                value,
                since_last_clip(old(self).last_clip_ns, now),
            ),
            final(self).last_clip_ns == (if r == Some(HotkeyCommand::SaveReplay) {
                Some(now)
            } else {
                old(self).last_clip_ns
            }),
    {
        let since = match self.last_clip_ns {
            Some(t) => if now >= t {
                now - t
            } else {
                0
            },
            None => u64::MAX,
        };
        let (m, cmd) = key_event(s, self.mods, key, value, since);
        self.mods = m;
        if let Some(HotkeyCommand::SaveReplay) = cmd {
            self.last_clip_ns = Some(now);
        }
        cmd
    }
}

/// The save-replay hotkey never fires twice within 1.5 s: when it last
/// fired at `t` and a key event fires it again at `now`, more than 1.5 s
/// have passed. A repeat or a release never fires any command.
pub proof fn lemma_save_replay_debounced(
    s: AppSettings,
    mods: u8,
    key: Seq<char>,
    value: i32,
    t: u64,
    now: u64,
)
    ensures
        key_event_spec(s, mods, key, value, since_last_clip(Some(t), now)).1 == Some(
            HotkeyCommand::SaveReplay,
        ) ==> now >= t && now - t > SAVE_REPLAY_DEBOUNCE_NS,
        value != 1 ==> key_event_spec(s, mods, key, value, since_last_clip(Some(t), now)).1 is None,
{
}

} // verus!
