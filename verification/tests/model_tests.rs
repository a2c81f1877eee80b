use klyppd::r2::{is_iso_date, pretty_date, split_filename, strip_video_ext};
use klyppd::text::{is_whitespace, trim_str};
use klyppd::window::{extract_focused_app_id, extract_json_string, pretty_app_name, sanitize};

fn model_split_filename(filename: &str) -> (String, String) {
    let stem = filename.rsplit_once('.').map(|(s, _)| s).unwrap_or(filename);
    let bytes = stem.as_bytes();
    for (i, &b) in bytes.iter().enumerate() {
        if b != b'_' || i + 11 > bytes.len() { continue; }
        let candidate = &stem[i + 1..i + 11];
        if model_is_iso_date(candidate) {
            return (stem[..i].into(), candidate.into());
        }
    }
    (stem.into(), String::new())
}

fn splits_without_panic(filename: &str) -> bool {
    let stem = filename.rsplit_once('.').map(|(s, _)| s).unwrap_or(filename);
    let bytes = stem.as_bytes();
    for (i, &b) in bytes.iter().enumerate() {
        if b != b'_' || i + 11 > bytes.len() { continue; }
        if !stem.is_char_boundary(i + 11) { return false; }
        if model_is_iso_date(&stem[i + 1..i + 11]) { return true; }
    }
    true
}

fn model_is_iso_date(s: &str) -> bool {
    let b = s.as_bytes();
    s.len() == 10
        && b[4] == b'-' && b[7] == b'-'
        && b[..4].iter().all(u8::is_ascii_digit)
        && b[5..7].iter().all(u8::is_ascii_digit)
        && b[8..10].iter().all(u8::is_ascii_digit)
}

fn model_pretty_date(date: &str) -> String {
    if date.len() < 10 { return date.into(); }
    const MONTHS: [&str; 12] = ["Jan","Feb","Mar","Apr","May","Jun","Jul","Aug","Sep","Oct","Nov","Dec"];
    let month: usize = date[5..7].parse().unwrap_or(1);
    let day: usize = date[8..10].parse().unwrap_or(1);
    let year = &date[..4];
    if (1..=12).contains(&month) {
        format!("{} {}, {}", MONTHS[month - 1], day, year)
    } else {
        date.into()
    }
}

fn model_strip_video_ext(key: &str) -> &str {
    for ext in [".html", ".mp4", ".mkv", ".webm", ".jpg"] {
        if let Some(s) = key.strip_suffix(ext) { return s; }
    }
    key
}

fn model_extract_json_string(s: &str, key: &str) -> Option<String> {
    let needle = format!("\"{key}\":");
    let start = s.find(&needle)? + needle.len();
    let rest = &s[start..];
    let open = rest.find('"')? + 1;
    let close = rest[open..].find('"')?;
    Some(rest[open..open + close].into())
}

fn model_extract_focused_app_id(json: &str) -> Option<String> {
    let idx = json.find("\"focused\":true")?;
    let before = &json[..idx];
    let app_id = before.rfind("\"app_id\":\"")
        .map(|i| {
            let start = i + "\"app_id\":\"".len();
            let end = json[start..].find('"').unwrap_or(0);
            json[start..start + end].to_string()
        })
        .filter(|s| !s.is_empty() && s != "null");
    if app_id.is_some() { return app_id; }
    before.rfind("\"class\":\"")
        .map(|i| {
            let start = i + "\"class\":\"".len();
            let end = json[start..].find('"').unwrap_or(0);
            json[start..start + end].to_string()
        })
        .filter(|s| !s.is_empty() && s != "null")
}

fn model_sanitize(s: &str) -> String {
    let cleaned: String = s.chars()
        .filter(|c| c.is_alphanumeric() || matches!(*c, '_' | '-'))
        .take(32)
        .collect();
    if cleaned.is_empty() { return "Clip".into(); }
    let mut iter = cleaned.chars();
    iter.next().unwrap().to_uppercase().chain(iter).collect()
}

fn model_pretty_app_name(class: &str) -> String {
    let segments: Vec<&str> = class.rsplit('.').collect();
    for seg in &segments {
        let lower = seg.to_lowercase();
        if !matches!(lower.as_str(), "client" | "app" | "desktop" | "main") {
            return model_sanitize(seg);
        }
    }
    model_sanitize(class)
}

/// A deterministic stream of test strings over an alphabet with separators,
/// digits, ASCII and non-ASCII letters.
fn samples(alphabet: &[&str], count: usize, max_len: usize) -> Vec<String> {
    let mut out = Vec::new();
    let mut x: u64 = 0x243f_6a88_85a3_08d3;
    for _ in 0..count {
        x = x.wrapping_mul(6364136223846793005).wrapping_add(1442695040888963407);
        let len = (x >> 33) as usize % (max_len + 1);
        let mut s = String::new();
        for _ in 0..len {
            x = x.wrapping_mul(6364136223846793005).wrapping_add(1442695040888963407);
            s.push_str(alphabet[(x >> 33) as usize % alphabet.len()]);
        }
        out.push(s);
    }
    out
}

#[test]
fn whitespace_matches_std() {
    for v in 0u32..0x3100 {
        if let Some(c) = char::from_u32(v) {
            assert_eq!(is_whitespace(c), c.is_whitespace(), "U+{v:04X}");
        }
    }
    for s in ["  a b \u{3000}", "\u{85}x\u{a0}", "\u{feff}y\u{180e}", "", " \t\n "] {
        assert_eq!(trim_str(s), s.trim());
    }
}

#[test]
fn filename_functions_match() {
    let alphabet = ["_", "-", ".", "2", "0", "1", "9", "a", "Z", "é", "ü", "2026-05-22", "_2026-05-22", "x"];
    for s in samples(&alphabet, 3000, 8) {
        assert_eq!(is_iso_date(&s), model_is_iso_date(&s), "{s:?}");
        assert_eq!(strip_video_ext(&s), model_strip_video_ext(&s), "{s:?}");
        if splits_without_panic(&s) {
            assert_eq!(split_filename(&s), model_split_filename(&s), "{s:?}");
        }
    }
    let dates = ["2026-05-22", "2026-12-01", "1999-00-10", "2026-+5-+9", "abcd-ef-gh", "2026-05-2", "2026-05-221", "12345678901234", ""];
    for d in dates {
        assert_eq!(pretty_date(d), model_pretty_date(d), "{d:?}");
    }
    for d in samples(&["1", "0", "-", "+", "a", "3", "9"], 2000, 12) {
        assert_eq!(pretty_date(&d), model_pretty_date(&d), "{d:?}");
    }
}

#[test]
fn extraction_matches() {
    let alphabet = ["\"", ":", "class", "app_id", "focused", "true", "null", "x", "é", ",", "{", "}", "\"class\":\"", "\"app_id\":\"", "\"focused\":true"];
    for s in samples(&alphabet, 3000, 10) {
        assert_eq!(extract_json_string(&s, "class"), model_extract_json_string(&s, "class"), "{s:?}");
        assert_eq!(extract_json_string(&s, "app_id"), model_extract_json_string(&s, "app_id"), "{s:?}");
        assert_eq!(extract_focused_app_id(&s), model_extract_focused_app_id(&s), "{s:?}");
    }
}

#[test]
fn names_match() {
    let alphabet = [".", "a", "B", "client", "App", "DESKTOP", "main", "ß", "é", " ", "!", "_", "-", "9", "ǆ", "ﬁ"];
    for s in samples(&alphabet, 3000, 8) {
        assert_eq!(sanitize(&s), model_sanitize(&s), "{s:?}");
        assert_eq!(pretty_app_name(&s, None), model_pretty_app_name(&s), "{s:?}");
    }
}
