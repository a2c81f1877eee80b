use klyppd::window::{
    application_dirs, capture_window_class, desktop_entry_name, extract_focused_app_id,
    extract_json_string, gnome_class, hyprland_class, is_desktop_file, kde_window_object, lines,
    nonempty_trimmed, pretty_app_name, sanitize,
};

#[test]
fn json_string_values() {
    let j = r#"{"address":"0x1","class":"org.vinegarhq.Sober","title":"Sober"}"#;
    assert_eq!(extract_json_string(j, "class"), Some("org.vinegarhq.Sober".to_string()));
    assert_eq!(extract_json_string(j, "missing"), None);
    assert_eq!(extract_json_string(r#"{"class": "x"}"#, "class"), Some("x".to_string()));
    assert_eq!(extract_json_string(r#"{"class":"unterminated"#, "class"), None);
    assert_eq!(hyprland_class(r#"{"class":""}"#), None);
    assert_eq!(hyprland_class(r#"{"class":"firefox"}"#), Some("firefox".to_string()));
}

#[test]
fn sway_focused_app() {
    let tree = r#"{"nodes":[{"app_id":"foot","focused":false},{"app_id":"org.mozilla.firefox","name":"x","focused":true}]}"#;
    assert_eq!(extract_focused_app_id(tree), Some("org.mozilla.firefox".to_string()));
    let x11 = r#"{"app_id":null,"window_properties":{"class":"Steam"},"focused":true}"#;
    assert_eq!(extract_focused_app_id(x11), Some("Steam".to_string()));
    assert_eq!(extract_focused_app_id(r#"{"app_id":"a"}"#), None);
    assert_eq!(extract_focused_app_id(r#"{"app_id":"","focused":true}"#), None);
}

#[test]
fn gnome_kde_xdotool_replies() {
    assert_eq!(gnome_class("(true, ' Firefox ')"), Some("Firefox".to_string()));
    assert_eq!(gnome_class("(true, '')"), None);
    assert_eq!(gnome_class("(false, )"), None);
    assert_eq!(nonempty_trimmed("  steam\n"), Some("steam".to_string()));
    assert_eq!(nonempty_trimmed(" \n"), None);
    assert_eq!(kde_window_object("{abc}"), "/Windows/{abc}");
}

#[test]
fn sanitizing_names() {
    assert_eq!(sanitize("sober"), "Sober");
    assert_eq!(sanitize("Visual Studio Code!"), "VisualStudioCode");
    assert_eq!(sanitize("!!!"), "Clip");
    assert_eq!(sanitize(""), "Clip");
    assert_eq!(sanitize("a_b-c"), "A_b-c");
    assert_eq!(sanitize("abcdefghijklmnopqrstuvwxyz0123456789"), "Abcdefghijklmnopqrstuvwxyz012345");
    assert_eq!(sanitize("ßtraße"), "SStraße");
    assert_eq!(sanitize("émile"), "Émile");
}

#[test]
fn pretty_names_doc_examples() {
    assert_eq!(pretty_app_name("org.vinegarhq.Sober", None), "Sober");
    assert_eq!(pretty_app_name("com.spotify.Client", None), "Spotify");
    assert_eq!(pretty_app_name("firefox", None), "Firefox");
    assert_eq!(pretty_app_name("app.desktop", None), "Appdesktop");
    assert_eq!(pretty_app_name("anything", Some("Visual Studio Code")), "VisualStudioCode");
    assert_eq!(capture_window_class(None, None), "Clip");
    assert_eq!(capture_window_class(Some("com.spotify.Client"), None), "Spotify");
}

#[test]
fn desktop_entries() {
    let text = "[Desktop Entry]\r\nName= Sober \r\nStartupWMClass=org.vinegarhq.Sober\nExec=sober\n";
    assert!(is_desktop_file("/usr/share/applications/org.vinegarhq.Sober.desktop"));
    assert!(!is_desktop_file("/usr/share/applications/readme.txt"));
    assert_eq!(
        desktop_entry_name("/usr/share/applications/sober.desktop", text, "ORG.VINEGARHQ.SOBER"),
        Some("Sober".to_string())
    );
    assert_eq!(
        desktop_entry_name("/x/org.vinegarhq.sober.desktop", "Name=Roblox\n", "org.vinegarhq.Sober"),
        Some("Roblox".to_string())
    );
    assert_eq!(desktop_entry_name("/x/other.desktop", text, "firefox"), None);
    assert_eq!(desktop_entry_name("/x/firefox.desktop", "Exec=ff\n", "firefox"), None);
    assert_eq!(desktop_entry_name("/x/firefox.txt", "Name=F\n", "firefox"), None);
}

#[test]
fn lines_like_str_lines() {
    for t in ["", "a", "a\n", "a\r\nb", "a\r", "\n\n", "x\r\r\ny\n", "\r\n"] {
        let got: Vec<String> = lines(t).into_iter().map(|l| l.into_iter().collect()).collect();
        let want: Vec<String> = t.lines().map(String::from).collect();
        assert_eq!(got, want, "text {t:?}");
    }
}

#[test]
fn application_folders() {
    let dirs = application_dirs(
        Some("/home/u/.local/share"),
        Some("/usr/share:/usr/local/share/:/opt/share"),
        Some("/home/u"),
    );
    assert_eq!(
        dirs,
        vec![
            "/usr/share/applications",
            "/usr/local/share/applications",
            "/home/u/.local/share/applications",
            "/opt/share/applications",
            "/home/u/.local/share/flatpak/exports/share/applications",
            "/var/lib/snapd/desktop/applications",
        ]
    );
    assert_eq!(application_dirs(None, None, None).len(), 3);
}

#[test]
fn sanitize_gives_safe_stable_names() {
    for s in ["org.vinegarhq.Sober", "a/b.c d", "...", "", "x", "steam_app_12345-linux", "über spiel", "  ", "A-B_C"] {
        let r = sanitize(s);
        assert!(!r.is_empty());
        assert!(!r.contains('/') && !r.contains('.'));
        assert!(r.chars().all(|c| !c.is_whitespace() && !c.is_control()));
        if s.is_ascii() {
            assert!(r.len() <= 32);
            assert!(r.chars().all(|c| c.is_ascii_alphanumeric() || c == '_' || c == '-'));
            assert_eq!(sanitize(&r), r);
        }
    }
    assert_eq!(sanitize("/.. ./"), "Clip");
    assert_eq!(sanitize("über"), "Über");
    assert_eq!(sanitize(&"a".repeat(40)).len(), 32);
    assert!(!pretty_app_name("...", None).is_empty());
    assert!(!capture_window_class(None, None).is_empty());
}
