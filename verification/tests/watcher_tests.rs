use klyppd::hotkey::{key_event, HotkeyCommand, HotkeyState, MOD_ALT};
use klyppd::settings::AppSettings;
use klyppd::watcher::Debouncer;

const S: u64 = 1_000_000_000;

#[test]
fn clip_announced_once_per_minute() {
    let mut d = Debouncer::new();
    assert!(d.should_announce("/v/a.mkv", 10 * S));
    assert!(!d.should_announce("/v/a.mkv", 10 * S + 1));
    assert!(!d.should_announce("/v/a.mkv", 69 * S));
    assert!(d.should_announce("/v/b.mkv", 11 * S));
    assert!(d.should_announce("/v/a.mkv", 70 * S));
    assert!(!d.should_announce("/v/a.mkv", 100 * S));
}

#[test]
fn old_announcements_forgotten() {
    let mut d = Debouncer::new();
    assert!(d.should_announce("/v/a.mkv", 0));
    assert!(d.should_announce("/v/b.mkv", 400 * S));
    assert!(d.should_announce("/v/a.mkv", 401 * S));
}

#[test]
fn key_events() {
    let s = AppSettings::with_clips_directory("/c");
    let (m, c) = key_event(&s, 0, "KEY_LEFTALT", 1, 0);
    assert_eq!((m, c), (MOD_ALT, None));
    let (m2, c2) = key_event(&s, m, "KEY_R", 1, 5 * S);
    assert_eq!((m2, c2), (MOD_ALT, Some(HotkeyCommand::SaveReplay)));
    assert_eq!(key_event(&s, m, "KEY_R", 2, 5 * S), (MOD_ALT, None));
    assert_eq!(key_event(&s, m, "KEY_LEFTALT", 0, 0), (0, None));
}

#[test]
fn renamed_clip_announced_once() {
    let mut d = Debouncer::new();
    assert!(d.should_announce("/c/Replay.mkv", 0));
    d.record_announced("/c/Sober_2026-05-22.mkv", 1_200_000_000);
    assert!(!d.should_announce("/c/Sober_2026-05-22.mkv", 1_300_000_000));
    assert!(!d.should_announce("/c/Replay.mkv", 2_000_000_000));
    assert!(d.should_announce("/c/Sober_2026-05-22.mkv", 62_000_000_000));
}

#[test]
fn save_replay_hotkey_debounced_across_events() {
    let s = AppSettings::with_clips_directory("/c");
    let mut k = HotkeyState::new();
    assert_eq!(k.on_key(&s, "KEY_LEFTALT", 1, 0), None);
    assert_eq!(k.mods, MOD_ALT);
    assert_eq!(k.on_key(&s, "KEY_R", 1, S), Some(HotkeyCommand::SaveReplay));
    assert_eq!(k.last_clip_ns, Some(S));
    assert_eq!(k.on_key(&s, "KEY_R", 2, 2 * S), None);
    assert_eq!(k.on_key(&s, "KEY_R", 1, 2 * S), None);
    assert_eq!(k.last_clip_ns, Some(S));
    assert_eq!(k.on_key(&s, "KEY_R", 1, S + 1_500_000_000), None);
    assert_eq!(k.on_key(&s, "KEY_R", 1, S + 1_500_000_001), Some(HotkeyCommand::SaveReplay));
    assert_eq!(k.last_clip_ns, Some(S + 1_500_000_001));
}
