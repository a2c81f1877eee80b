use klyppd::editor::{crop_args, crop_filter, duration_probe_args, thumbnail_args};
use klyppd::library::{
    audio_codec_probe_args, dependencies, err, is_aac_report, is_clip_file, is_mp4_name, is_new_clip,
    missing_dependencies, pending_name_path, pending_target, preview_output_path,
    preview_transcode_args, renamed_filename, renamed_path, runtime_dir, socket_path,
    pending_search_step, thumbnail_data_url, thumbnail_file, thumbs_dir,
};

#[test]
fn runtime_paths() {
    assert_eq!(runtime_dir(None), "/tmp");
    assert_eq!(socket_path(Some("/run/user/1000")), "/run/user/1000/klyppd.sock");
    assert_eq!(socket_path(None), "/tmp/klyppd.sock");
    assert_eq!(pending_name_path(Some("/run/user/1000/")), "/run/user/1000/klyppd-pending-name");
}

#[test]
fn renaming() {
    assert_eq!(renamed_filename("Best clip", "/v/Sober_2026-05-22.mkv"), "Best clip.mkv");
    assert_eq!(renamed_filename("Best clip.mkv", "/v/a.mkv"), "Best clip.mkv");
    assert_eq!(renamed_filename("x.mp4", "/v/noext"), "x.mp4");
    assert_eq!(renamed_filename("x", "/v/noext"), "x.mp4");
    assert_eq!(renamed_path("/v/a.mkv", "b.mkv"), "/v/b.mkv");
    assert_eq!(renamed_path("a.mkv", "b.mkv"), "b.mkv");
    assert_eq!(renamed_path("/", "b.mkv"), "./b.mkv");
}

#[test]
fn previews() {
    assert!(is_mp4_name("/v/a.mp4"));
    assert!(!is_mp4_name("/v/a.mkv"));
    assert!(is_aac_report("aac\n"));
    assert!(!is_aac_report("opus\n"));
    assert_eq!(preview_output_path("/tmp", "/v/Sober_2026.mkv"), "/tmp/klyppd-preview/Sober_2026.mp4");
    assert_eq!(preview_output_path("/tmp/", "/"), "/tmp/klyppd-preview/.mp4");
    assert_eq!(
        preview_transcode_args("in.mkv", "out.mp4"),
        vec!["-y", "-i", "in.mkv", "-c:v", "copy", "-c:a", "aac", "-b:a", "160k", "-movflags", "+faststart", "out.mp4"]
    );
    assert_eq!(
        audio_codec_probe_args("a.mkv"),
        vec!["-v", "quiet", "-select_streams", "a:0", "-show_entries", "stream=codec_name", "-of", "csv=p=0", "a.mkv"]
    );
}

#[test]
fn scanning() {
    assert!(is_clip_file("/v/a.mkv"));
    assert!(is_clip_file("/v/a.webm"));
    assert!(!is_clip_file("/v/a.txt"));
    assert!(!is_clip_file("/v/.mp4"));
    assert_eq!(thumbs_dir("/v"), "/v/.thumbs");
    assert_eq!(thumbnail_file("/v/.thumbs", "1234"), "/v/.thumbs/1234.jpg");
}

#[test]
fn pending_targets() {
    assert_eq!(pending_target("/v", "Sober_2026-05-22", "mkv", 0), "/v/Sober_2026-05-22.mkv");
    assert_eq!(pending_target("/v", "Sober_2026-05-22", "mkv", 2), "/v/Sober_2026-05-22_2.mkv");
}

#[test]
fn dependency_check() {
    let deps = dependencies();
    assert_eq!(deps, vec!["gpu-screen-recorder", "ffmpeg", "ffprobe"]);
    assert_eq!(missing_dependencies(&deps, &[true, false, false]), vec!["ffmpeg", "ffprobe"]);
    assert!(missing_dependencies(&deps, &[true, true, true]).is_empty());
}

#[test]
fn thumbnails_inline() {
    assert_eq!(thumbnail_data_url(b""), "data:image/jpeg;base64,");
    assert_eq!(thumbnail_data_url(b"\xFF\xEC\x20\x55\0"), "data:image/jpeg;base64,/+wgVQA=");
    assert_eq!(thumbnail_data_url(b"Ma"), "data:image/jpeg;base64,TWE=");
    assert_eq!(thumbnail_data_url(b"Man"), "data:image/jpeg;base64,TWFu");
}

#[test]
fn error_text() {
    assert_eq!(err("boom"), "boom");
    assert_eq!(err(42), "42");
}

#[test]
fn editor_arguments() {
    assert_eq!(crop_filter(10, 20, 640, 480), "crop=640:480:10:20");
    assert_eq!(
        crop_args("in.mp4", "out.mp4", 0, 0, 1920, 1080),
        vec!["-y", "-i", "in.mp4", "-vf", "crop=1920:1080:0:0", "-c:v", "libx264", "-c:a", "copy", "out.mp4"]
    );
    assert_eq!(
        thumbnail_args("in.mp4", "t.jpg"),
        vec!["-y", "-ss", "1", "-i", "in.mp4", "-vframes", "1", "-vf", "scale=320:-1", "t.jpg"]
    );
    assert_eq!(
        duration_probe_args("in.mp4"),
        vec!["-v", "quiet", "-show_entries", "format=duration", "-of", "csv=p=0", "in.mp4"]
    );
}

#[test]
fn new_clip_is_unknown_video_file() {
    let known = vec!["/c/a.mkv".to_string(), "/c/b.mp4".to_string()];
    assert!(is_new_clip("/c/c.webm", &known));
    assert!(!is_new_clip("/c/a.mkv", &known));
    assert!(!is_new_clip("/c/notes.txt", &known));
    assert!(is_new_clip("/c/b.mkv", &known));
    assert!(is_new_clip("/c/a.mkv", &Vec::new()));
}

#[test]
fn pending_name_search() {
    assert_eq!(pending_search_step("/c", "Sober", "mkv", 0, false), Ok("/c/Sober.mkv".to_string()));
    assert_eq!(pending_search_step("/c", "Sober", "mkv", 0, true), Err(1));
    assert_eq!(pending_search_step("/c", "Sober", "mkv", 2, false), Ok("/c/Sober_2.mkv".to_string()));
    assert_eq!(pending_search_step("/c", "Sober", "mkv", 2, true), Err(3));
}
