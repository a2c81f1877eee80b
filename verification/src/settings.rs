//! The user's settings and where they live.

use vstd::prelude::*;
use crate::paths::{join_spec, path_join};

verus! {

/// Everything the user can configure.
#[derive(Clone)]
pub struct AppSettings {
    pub clips_directory: String,
    pub buffer_seconds: u32,
    pub fps: u32,
    pub codec: String,
    pub container: String,
    pub audio_codec: String,
    pub audio_source: String,
    pub hotkey_save_replay: String,
    pub hotkey_start_stop_recording: String,
    pub hotkey_start_stop_buffer: String,
    pub r2_endpoint: String,
    pub r2_bucket: String,
    pub r2_access_key: String,
    pub r2_secret_key: String,
    pub r2_custom_domain: String,
    pub expiry_days: u32,
    pub theme_path: String,
}

/// Whether `s` holds the defaults, with clips kept in `clips_directory`.
pub open spec fn is_default_settings(s: AppSettings, clips_directory: Seq<char>) -> bool {
    &&& s.clips_directory@ == clips_directory
    &&& s.buffer_seconds == 120
    &&& s.fps == 60
    &&& s.codec@ == "h264"@
    &&& s.container@ == "mp4"@
    &&& s.audio_codec@ == "aac"@
    &&& s.audio_source@ == "default_output"@
    &&& s.hotkey_save_replay@ == "Alt+R"@
    &&& s.hotkey_start_stop_recording@ == "Alt+Shift+R"@
    &&& s.hotkey_start_stop_buffer@ == "Alt+F8"@
    &&& s.r2_endpoint@.len() == 0
    &&& s.r2_bucket@.len() == 0
    &&& s.r2_access_key@.len() == 0
    &&& s.r2_secret_key@.len() == 0
    &&& s.r2_custom_domain@.len() == 0
    &&& s.expiry_days == 14
    &&& s.theme_path@.len() == 0
}

impl AppSettings {
    /// The default settings, with clips kept in `clips_directory`: a two-minute
    /// replay buffer at 60 fps, h264 in mp4 with AAC audio from the default
    /// output, Alt+R / Alt+Shift+R / Alt+F8 hotkeys, no R2 account, 14-day links.
    pub fn with_clips_directory(clips_directory: &str) -> (s: Self)
        ensures
            is_default_settings(s, clips_directory@),
    {
        AppSettings {
            clips_directory: clips_directory.to_string(),
            buffer_seconds: 120,
            fps: 60,
            codec: "h264".to_string(),
            container: "mp4".to_string(),
            audio_codec: "aac".to_string(),
            audio_source: "default_output".to_string(),
            hotkey_save_replay: "Alt+R".to_string(),
            hotkey_start_stop_recording: "Alt+Shift+R".to_string(),
            hotkey_start_stop_buffer: "Alt+F8".to_string(),
            r2_endpoint: String::new(),
            r2_bucket: String::new(),
            r2_access_key: String::new(),
            r2_secret_key: String::new(),
            r2_custom_domain: String::new(),
            expiry_days: 14,
            theme_path: String::new(),
        }
    }
}

/// The default clips folder: `Klyppd` inside the user's videos folder, else
/// inside `~/Videos`, else a relative `Klyppd`.
pub open spec fn default_clips_directory_spec(
    video_dir: Option<Seq<char>>,
    home_dir: Option<Seq<char>>,
) -> Seq<char> {
    let base = match video_dir {
        Some(v) => v,
        None => match home_dir {
            Some(h) => join_spec(h, "Videos"@),
            None => Seq::empty(),
        },
    };
    join_spec(base, "Klyppd"@)
}

/// Where clips go by default, given the user's videos and home folders.
pub fn default_clips_directory(video_dir: Option<&str>, home_dir: Option<&str>) -> (r: String)
    ensures
        r@ == default_clips_directory_spec(
            match video_dir {
                Some(v) => Some(v@),
                None => None,
            },
            match home_dir {
                Some(h) => Some(h@),
                None => None,
            },
        ),
{
    let base = match video_dir {
        Some(v) => v.to_string(),
        None => match home_dir {
            Some(h) => path_join(h, "Videos"),
            None => String::new(),
        },
    };
    path_join(base.as_str(), "Klyppd")
}

/// The app's configuration folder: `klyppd` inside the user's config folder
/// (inside nothing when there is none).
pub open spec fn config_dir_spec(config_base: Option<Seq<char>>) -> Seq<char> {
    join_spec(
        match config_base {
            Some(c) => c,
            None => Seq::empty(),
        },
        "klyppd"@,
    )
}

/// The app's configuration folder, given the user's config folder.
pub fn config_dir(config_base: Option<&str>) -> (r: String)
    ensures
        r@ == config_dir_spec(
            match config_base {
                Some(c) => Some(c@),
                None => None,
            },
        ),
{
    match config_base {
        Some(c) => path_join(c, "klyppd"),
        None => {
            let empty = String::new();
            path_join(empty.as_str(), "klyppd")
        },
    }
}

/// The settings file, `settings.json` in the app's configuration folder.
pub fn settings_path(config_base: Option<&str>) -> (r: String)
    ensures
        r@ == join_spec(
            config_dir_spec(
                match config_base {
                    Some(c) => Some(c@),
                    None => None,
                },
            ),
            "settings.json"@,
        ),
{
    let dir = config_dir(config_base);
    path_join(dir.as_str(), "settings.json")
}

/// The theme file, `theme.css` in the app's configuration folder.
pub fn theme_css_path(config_base: Option<&str>) -> (r: String)
    ensures
        r@ == join_spec(
            config_dir_spec(
                match config_base {
                    Some(c) => Some(c@),
                    None => None,
                },
            ),
            "theme.css"@,
        ),
{
    let dir = config_dir(config_base);
    path_join(dir.as_str(), "theme.css")
}

} // verus!
