use klyppd::hotkey::{
    buffering_message, hotkey_action, hotkey_matches, hotkey_matches_key, key_command, modifier_bit, parse_command,
    pending_clip_name, saved_replay_message, update_modifiers, HotkeyAction, HotkeyCommand,
    MOD_ALT, MOD_CTRL, MOD_SHIFT, MOD_SUPER,
};
use klyppd::recorder::RecordingState;
use klyppd::settings::AppSettings;

#[test]
fn modifiers() {
    assert_eq!(modifier_bit("KEY_LEFTALT"), Some(MOD_ALT));
    assert_eq!(modifier_bit("KEY_RIGHTCTRL"), Some(MOD_CTRL));
    assert_eq!(modifier_bit("KEY_LEFTSHIFT"), Some(MOD_SHIFT));
    assert_eq!(modifier_bit("KEY_RIGHTMETA"), Some(MOD_SUPER));
    assert_eq!(modifier_bit("KEY_R"), None);
    let m = update_modifiers(0, "KEY_LEFTALT", true);
    assert_eq!(m, MOD_ALT);
    let m = update_modifiers(m, "KEY_LEFTSHIFT", true);
    assert_eq!(m, MOD_ALT | MOD_SHIFT);
    assert_eq!(update_modifiers(m, "KEY_R", true), m);
    assert_eq!(update_modifiers(m, "KEY_RIGHTALT", false), MOD_SHIFT);
}

#[test]
fn matching_combos() {
    assert!(hotkey_matches("Alt+R", "KEY_R", MOD_ALT));
    assert!(!hotkey_matches("Alt+R", "KEY_R", MOD_ALT | MOD_SHIFT));
    assert!(!hotkey_matches("Alt+R", "KEY_R", 0));
    assert!(hotkey_matches("Alt+Shift+R", "KEY_R", MOD_ALT | MOD_SHIFT));
    assert!(hotkey_matches("alt + f8", "KEY_F8", MOD_ALT));
    assert!(hotkey_matches("F9", "KEY_F9", 0));
    assert!(hotkey_matches("Ctrl+Shift+F9", "KEY_F9", MOD_CTRL | MOD_SHIFT));
    assert!(hotkey_matches("Super+C", "KEY_C", MOD_SUPER));
    assert!(hotkey_matches("META+c", "KEY_C", MOD_SUPER));
    assert!(!hotkey_matches("Alt+R", "KEY_T", MOD_ALT));
    assert!(!hotkey_matches("", "KEY_", 1));
    assert!(hotkey_matches("", "KEY_", 0));
}

#[test]
fn key_commands_and_debounce() {
    let s = AppSettings::with_clips_directory("/c");
    assert_eq!(key_command(&s, "KEY_R", MOD_ALT, 2_000_000_000), Some(HotkeyCommand::SaveReplay));
    assert_eq!(key_command(&s, "KEY_R", MOD_ALT, 1_500_000_000), None);
    assert_eq!(key_command(&s, "KEY_R", MOD_ALT | MOD_SHIFT, 0), Some(HotkeyCommand::ToggleRecording));
    assert_eq!(key_command(&s, "KEY_F8", MOD_ALT, 0), Some(HotkeyCommand::ToggleBuffer));
    assert_eq!(key_command(&s, "KEY_F8", 0, 0), None);
}

#[test]
fn commands_and_actions() {
    assert_eq!(parse_command("save-replay"), Some(HotkeyCommand::SaveReplay));
    assert_eq!(parse_command("toggle-buffer"), Some(HotkeyCommand::ToggleBuffer));
    assert_eq!(parse_command("toggle-recording"), Some(HotkeyCommand::ToggleRecording));
    assert_eq!(parse_command("quit"), None);
    let idle = RecordingState { replay_buffer_active: false, recording_active: false };
    let busy = RecordingState { replay_buffer_active: true, recording_active: true };
    assert_eq!(hotkey_action(HotkeyCommand::ToggleBuffer, idle), HotkeyAction::StartBuffer);
    assert_eq!(hotkey_action(HotkeyCommand::ToggleBuffer, busy), HotkeyAction::StopBuffer);
    assert_eq!(hotkey_action(HotkeyCommand::ToggleRecording, idle), HotkeyAction::StartRecording);
    assert_eq!(hotkey_action(HotkeyCommand::ToggleRecording, busy), HotkeyAction::StopRecording);
    assert_eq!(hotkey_action(HotkeyCommand::SaveReplay, idle), HotkeyAction::SaveReplay);
}

#[test]
fn messages() {
    assert_eq!(pending_clip_name("Sober", "2026-05-22"), "Sober_2026-05-22");
    assert_eq!(saved_replay_message(120, "Sober"), "Klyppd the last 120s of Sober");
    assert_eq!(buffering_message(30), "Buffering last 30s");
}

#[test]
fn matching_with_upper_cased_key() {
    assert!(hotkey_matches_key("Alt+r", "R", "KEY_R", MOD_ALT));
    assert!(!hotkey_matches_key("Alt+r", "r", "KEY_R", MOD_ALT));
    assert!(hotkey_matches_key("ctrl+ß", "SS", "KEY_SS", MOD_CTRL));
    assert_eq!(hotkey_matches("ctrl+ß", "KEY_SS", MOD_CTRL), hotkey_matches_key("ctrl+ß", &"ß".to_uppercase(), "KEY_SS", MOD_CTRL));
}
