use klyppd::settings::{config_dir, default_clips_directory, settings_path, theme_css_path, AppSettings};

#[test]
fn defaults() {
    let s = AppSettings::with_clips_directory("/v/Klyppd");
    assert_eq!(s.clips_directory, "/v/Klyppd");
    assert_eq!(s.buffer_seconds, 120);
    assert_eq!(s.fps, 60);
    assert_eq!(s.codec, "h264");
    assert_eq!(s.container, "mp4");
    assert_eq!(s.audio_codec, "aac");
    assert_eq!(s.audio_source, "default_output");
    assert_eq!(s.hotkey_save_replay, "Alt+R");
    assert_eq!(s.hotkey_start_stop_recording, "Alt+Shift+R");
    assert_eq!(s.hotkey_start_stop_buffer, "Alt+F8");
    assert!(s.r2_endpoint.is_empty() && s.r2_bucket.is_empty() && s.r2_access_key.is_empty());
    assert!(s.r2_secret_key.is_empty() && s.r2_custom_domain.is_empty() && s.theme_path.is_empty());
    assert_eq!(s.expiry_days, 14);
}

#[test]
fn clips_directory_fallbacks() {
    assert_eq!(default_clips_directory(Some("/home/u/Videos"), Some("/home/u")), "/home/u/Videos/Klyppd");
    assert_eq!(default_clips_directory(None, Some("/home/u")), "/home/u/Videos/Klyppd");
    assert_eq!(default_clips_directory(None, Some("/home/u/")), "/home/u/Videos/Klyppd");
    assert_eq!(default_clips_directory(None, None), "Klyppd");
}

#[test]
fn config_files() {
    assert_eq!(config_dir(Some("/home/u/.config")), "/home/u/.config/klyppd");
    assert_eq!(settings_path(Some("/home/u/.config")), "/home/u/.config/klyppd/settings.json");
    assert_eq!(settings_path(None), "klyppd/settings.json");
    assert_eq!(theme_css_path(Some("/c/")), "/c/klyppd/theme.css");
}
