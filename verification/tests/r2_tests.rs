use klyppd::hotkey::pending_clip_name;
use klyppd::r2::{
    build_embed, can_pretty_date, can_split_filename, delete_keys, fmt_bytes, is_iso_date, next_page,
    pretty_date, short_id, REPOSITORY_URL,
    split_filename, strip_video_ext, upload_plan, share_page, add_sizes, storage_prefix,
};

fn expected_embed(video: &str, thumb: &str, title: &str, date: &str, size: &str, w: u32, h: u32) -> String {
    let repo = REPOSITORY_URL;
    let site = format!("Clipped with Klyppd · {size}");
    let shown = if date.is_empty() { title.to_string() } else { format!("{title} ({date})") };
    let desc = if date.is_empty() {
        "Clipped with Klyppd".into()
    } else {
        format!("Clipped with Klyppd · {date}")
    };

    format!(r##"<!doctype html>
<html lang="en"><head>
<meta charset="utf-8">
<title>{title} — klyppd</title>
<meta property="og:type" content="video.other">
<meta property="og:title" content="{shown}">
<meta property="og:description" content="{desc}">
<meta property="og:site_name" content="{site}">
<meta property="og:image" content="{thumb}">
<meta property="og:image:width" content="{w}">
<meta property="og:image:height" content="{h}">
<meta property="og:video" content="{video}">
<meta property="og:video:secure_url" content="{video}">
<meta property="og:video:type" content="video/mp4">
<meta property="og:video:width" content="{w}">
<meta property="og:video:height" content="{h}">
<meta name="twitter:card" content="player">
<meta name="twitter:title" content="{shown}">
<meta name="twitter:description" content="{desc}">
<meta name="twitter:image" content="{thumb}">
<meta name="twitter:player" content="{video}">
<meta name="twitter:player:stream" content="{video}">
<meta name="twitter:player:stream:content_type" content="video/mp4">
<meta name="twitter:player:width" content="{w}">
<meta name="twitter:player:height" content="{h}">
<meta name="theme-color" content="#9accfa">
<style>
*{{box-sizing:border-box;margin:0;padding:0}}
body{{background:#0b0f12;color:#e0e2e8;font-family:-apple-system,'Inter','Segoe UI',sans-serif;display:flex;flex-direction:column;align-items:center;justify-content:center;min-height:100vh;padding:24px;font-size:14px}}
.head{{display:flex;align-items:baseline;gap:8px;margin-bottom:14px;font-size:12px;color:#8c9198}}
.brand{{color:#9accfa;font-weight:600}}
.size{{color:#42474e}}
.wrap{{max-width:1100px;width:100%}}
video{{width:100%;border-radius:8px;background:#000;display:block;box-shadow:0 8px 30px rgba(0,0,0,.5)}}
.title{{margin-top:16px;font-size:22px;font-weight:600;letter-spacing:-.01em}}
.sub{{margin-top:6px;font-size:13px;color:#8c9198}}
.foot{{margin-top:18px;padding-top:14px;border-top:1px solid #1c2024;font-size:11px;color:#42474e;display:flex;justify-content:space-between}}
.foot a{{color:#9accfa;text-decoration:none}}
</style></head>
<body>
<div class="wrap">
<div class="head"><span class="brand">klyppd</span><span class="size">{size}</span></div>
<video src="{video}" controls autoplay playsinline poster="{thumb}"></video>
<div class="title">{title}</div>
<div class="sub">{desc}</div>
<div class="foot"><span>{date}</span><span>Clipped with <a href="{repo}">Klyppd</a></span></div>
</div>
</body></html>"##)
}


fn float_fmt_bytes(b: u64) -> String {
    match b {
        0..=1023 => format!("{b} B"),
        1024..=1_048_575 => format!("{} KB", b / 1024),
        1_048_576..=1_073_741_823 => format!("{:.1} MB", b as f64 / 1_048_576.0),
        _ => format!("{:.2} GB", b as f64 / 1_073_741_824.0),
    }
}

#[test]
fn fmt_bytes_units() {
    assert_eq!(fmt_bytes(0), "0 B");
    assert_eq!(fmt_bytes(1023), "1023 B");
    assert_eq!(fmt_bytes(1024), "1 KB");
    assert_eq!(fmt_bytes(1_048_575), "1023 KB");
    assert_eq!(fmt_bytes(1_048_576), "1.0 MB");
    assert_eq!(fmt_bytes(11_953_766), "11.4 MB");
    assert_eq!(fmt_bytes(1_073_741_824), "1.00 GB");
}

#[test]
fn fmt_bytes_matches_float_formatting() {
    let mut samples: Vec<u64> = vec![
        0, 1, 999, 1023, 1024, 1536, 1_048_575, 1_048_576, 1_310_720, 1_101_004, 1_153_434,
        5 * 262_144, 7 * 262_144, 9 * 262_144, 11 * 262_144, 1_073_741_823, 1_073_741_824,
        1_078_984_704, 1_084_227_584, 1_089_470_464, 5_368_709_120, 1_234_567_890_123,
        (1u64 << 53) - 1, 1u64 << 53, (1u64 << 53) + 1, (1u64 << 54) + 3, u64::MAX, u64::MAX - 1,
        u64::MAX / 3, 0x1fff_ffff_ffff_ffff,
    ];
    let mut x: u64 = 0x9e37_79b9_7f4a_7c15;
    for _ in 0..2000 {
        x = x.wrapping_mul(6364136223846793005).wrapping_add(1442695040888963407);
        samples.push(x >> (x % 64));
        samples.push((x % 1_073_741_824) | 1_048_576);
    }
    for k in 0..4096u64 {
        samples.push(1_048_576 + k * 131_072 / 4);
        samples.push(1_073_741_824 + k * 5_368_709);
    }
    for b in samples {
        assert_eq!(fmt_bytes(b), float_fmt_bytes(b), "size {b}");
    }
}

#[test]
fn short_id_shape() {
    let id = short_id(123_456_789);
    assert_eq!(id.len(), 6);
    assert!(id.chars().all(|c| c.is_ascii_lowercase() || c.is_ascii_digit()));
    assert_eq!(short_id(0), direct_short_id(0));
    assert_eq!(short_id(u64::MAX), direct_short_id(u64::MAX));
    assert_eq!(short_id(1_747_000_000_123_456_789), direct_short_id(1_747_000_000_123_456_789));
}

fn direct_short_id(mut n: u64) -> String {
    const ID_CHARSET: &[u8] = b"abcdefghijklmnopqrstuvwxyz0123456789";
    let mut id = String::new();
    for _ in 0..6 {
        id.push(ID_CHARSET[(n % ID_CHARSET.len() as u64) as usize] as char);
        n = n.wrapping_mul(6364136223846793005).wrapping_add(1442695040888963407);
    }
    id
}

#[test]
fn split_filename_doc_example() {
    assert_eq!(
        split_filename("Sober_2026-05-22.mp4"),
        ("Sober".to_string(), "2026-05-22".to_string())
    );
}

#[test]
fn split_filename_cases() {
    assert_eq!(split_filename("Replay.mkv"), ("Replay".to_string(), String::new()));
    assert_eq!(split_filename("noext"), ("noext".to_string(), String::new()));
    assert_eq!(
        split_filename("My_Game_2026-01-02_3.webm"),
        ("My_Game".to_string(), "2026-01-02".to_string())
    );
    assert_eq!(split_filename("a.b.c"), ("a.b".to_string(), String::new()));
    assert_eq!(split_filename("x_2026-13-99"), ("x".to_string(), "2026-13-99".to_string()));
    assert_eq!(split_filename("x_2026-1-99.mp4"), ("x_2026-1-99".to_string(), String::new()));
    assert_eq!(split_filename("_2020-02-02"), (String::new(), "2020-02-02".to_string()));
    assert_eq!(split_filename("Café_2026-05-22.mp4"), ("Café".to_string(), "2026-05-22".to_string()));
}

#[test]
fn iso_dates() {
    assert!(is_iso_date("2026-05-22"));
    assert!(!is_iso_date("2026-05-2x"));
    assert!(!is_iso_date("2026/05/22"));
    assert!(!is_iso_date("2026-05-222"));
    assert!(!is_iso_date(""));
}

#[test]
fn pretty_dates() {
    assert_eq!(pretty_date("2026-05-22"), "May 22, 2026");
    assert_eq!(pretty_date("2026-01-05"), "Jan 5, 2026");
    assert_eq!(pretty_date("2026-12-31"), "Dec 31, 2026");
    assert_eq!(pretty_date(""), "");
    assert_eq!(pretty_date("short"), "short");
    assert_eq!(pretty_date("2026-13-01"), "2026-13-01");
    assert_eq!(pretty_date("2026-00-01"), "2026-00-01");
    assert_eq!(pretty_date("2026-xx-07"), "Jan 7, 2026");
    assert_eq!(pretty_date("2026-03-yy"), "Mar 1, 2026");
    assert_eq!(pretty_date("2026-+3-+4"), "Mar 4, 2026");
}

#[test]
fn embed_matches_template() {
    let cases = [
        ("https://cdn.example.com/t/abc123.mp4", "https://cdn.example.com/t/abc123.jpg", "Sober", "May 22, 2026", "11.4 MB", 1280u32, 720u32),
        ("v", "", "", "", "0 B", 0, 4_000_000_000),
    ];
    for (v, t, title, date, size, w, h) in cases {
        assert_eq!(build_embed(v, t, title, date, size, w, h), expected_embed(v, t, title, date, size, w, h));
    }
}

#[test]
fn embed_shows_documented_title_site_and_link() {
    let page = build_embed("https://cdn.example.com/t/abc123.mp4", "", "Sober", "May 22, 2026", "11.4 MB", 1280, 720);
    assert!(page.contains(r#"<meta property="og:title" content="Sober (May 22, 2026)">"#));
    assert!(page.contains(r#"<meta property="og:site_name" content="Clipped with Klyppd · 11.4 MB">"#));
    assert!(page.contains(r#"<div class="foot"><span>May 22, 2026</span><span>Clipped with <a href="https://github.com/"#));
    assert!(REPOSITORY_URL.starts_with("https://github.com/"));
    let undated = build_embed("v", "", "Clip", "", "1 B", 1, 1);
    assert!(undated.contains(r#"<meta property="og:title" content="Clip">"#));
}

#[test]
fn strip_and_delete_keys() {
    assert_eq!(strip_video_ext("t/abc123.mp4"), "t/abc123");
    assert_eq!(strip_video_ext("t/abc123.html"), "t/abc123");
    assert_eq!(strip_video_ext("t/abc123"), "t/abc123");
    assert_eq!(strip_video_ext("a.webm.mp4"), "a.webm");
    assert_eq!(
        delete_keys("p/xyz789"),
        vec!["p/xyz789", "p/xyz789.mp4", "p/xyz789.mkv", "p/xyz789.webm", "p/xyz789.jpg"]
    );
    assert_eq!(delete_keys("p/xyz789.jpg")[0], "p/xyz789");
}

#[test]
fn upload_keys_and_urls() {
    let plan = upload_plan("https://cdn.example.com//", "/home/u/Videos/Klyppd/Sober_2026-05-22.mkv", false, "abc123");
    assert_eq!(plan.video_key, "t/abc123.mkv");
    assert_eq!(plan.thumb_key, "t/abc123.jpg");
    assert_eq!(plan.html_key, "t/abc123");
    assert_eq!(plan.video_content_type, "video/mkv");
    assert_eq!(plan.video_url, "https://cdn.example.com/t/abc123.mkv");
    assert_eq!(plan.thumb_url, "https://cdn.example.com/t/abc123.jpg");
    assert_eq!(plan.page_url, "https://cdn.example.com/t/abc123");
    let p = upload_plan("", "clip", true, "zz");
    assert_eq!(p.video_key, "p/zz.mp4");
    assert_eq!(p.page_url, "/p/zz");
}

#[test]
fn upload_then_delete_law() {
    let plan = upload_plan("https://x.dev", "/v/a.webm", true, &short_id(42));
    let keys = delete_keys(&plan.html_key);
    assert!(keys.contains(&plan.video_key));
    assert!(keys.contains(&plan.thumb_key));
    assert!(keys.contains(&plan.html_key));
    assert_eq!(strip_video_ext(&plan.video_key), plan.html_key);
}

#[test]
fn share_page_uses_title_and_date() {
    let plan = upload_plan("https://cdn.example.com", "/c/Sober_2026-05-22.mp4", false, "abc123");
    let page = share_page(&plan, true, "Sober_2026-05-22.mp4", 11_953_766);
    assert_eq!(
        page,
        expected_embed(&plan.video_url, &plan.thumb_url, "Sober", "May 22, 2026", "11.4 MB", 1280, 720)
    );
    assert!(page.contains(r#"<meta property="og:title" content="Sober (May 22, 2026)">"#));
    assert!(page.contains(r#"<meta property="og:site_name" content="Clipped with Klyppd · 11.4 MB">"#));
    let no_thumb = share_page(&plan, false, "Clip.mp4", 10);
    assert_eq!(no_thumb, expected_embed(&plan.video_url, "", "Clip", "", "10 B", 1280, 720));
}

#[test]
fn storage_listing() {
    assert_eq!(storage_prefix(true), "p/");
    assert_eq!(storage_prefix(false), "t/");
    assert_eq!(next_page(Some(true), Some("tok")), Some("tok".to_string()));
    assert_eq!(next_page(Some(false), Some("tok")), None);
    assert_eq!(next_page(None, Some("tok")), None);
    assert_eq!(next_page(Some(true), None), None);
    assert_eq!(add_sizes(10, &[Some(5), None, Some(7)]), 22);
    assert_eq!(add_sizes(0, &[Some(-1)]), u64::MAX);
}

#[test]
fn saved_replay_name_splits_back() {
    let name = format!("{}.mkv", pending_clip_name("Sober", "2026-05-22"));
    assert_eq!(split_filename(&name), ("Sober".to_string(), "2026-05-22".to_string()));
    let name = format!("{}.mp4", pending_clip_name("My_Game-2", "2025-12-31"));
    assert_eq!(split_filename(&name), ("My_Game-2".to_string(), "2025-12-31".to_string()));
}

#[test]
fn split_filename_boundaries() {
    assert!(can_split_filename("Sober_2026-05-22.mp4"));
    assert!(can_split_filename("no date here.mkv"));
    assert!(can_split_filename("_€.mp4"));
    assert!(!can_split_filename("_€€€€€.mp4"));
    assert!(can_split_filename("A_2026-01-01_€€€€€.mp4"));
    assert!(can_split_filename("_éééééé.mp4"));
    assert_eq!(split_filename("_éééééé.mp4"), ("_éééééé".to_string(), String::new()));
}

#[test]
fn pretty_date_boundaries() {
    assert!(can_pretty_date("2026-05-22"));
    assert!(can_pretty_date(""));
    assert!(can_pretty_date("€€€"));
    assert!(!can_pretty_date("€€€€"));
}

#[test]
fn strip_takes_one_extension_off_any_base() {
    for base in ["p/abc123", "a.mp4", "t/x.y", ""] {
        for e in [".html", ".mp4", ".mkv", ".webm", ".jpg"] {
            assert_eq!(strip_video_ext(&format!("{base}{e}")), base);
        }
    }
    assert_eq!(strip_video_ext("a.mp4.jpg"), "a.mp4");
    let plan = upload_plan("https://x.dev", "/v/a.mkv", true, "abc123");
    assert_eq!(strip_video_ext(&plan.thumb_key), plan.html_key);
    assert_eq!(delete_keys(&plan.thumb_key), delete_keys(&plan.html_key));
}

#[test]
fn ascii_saved_names_split() {
    let name = format!("{}.webm", pending_clip_name("Cool_Game 2", "2024-02-29"));
    assert!(can_split_filename(&name));
    assert_eq!(split_filename(&name), ("Cool_Game 2".to_string(), "2024-02-29".to_string()));
}
