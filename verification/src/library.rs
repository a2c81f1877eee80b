//! The clip library's file logic: renaming clips, preview transcodes,
//! scanning for new clips, naming saved replays, and the app's fixed paths.

use vstd::prelude::*;
use crate::paths::{
    extension, extension_spec, file_name_spec, file_stem, file_stem_spec, join_spec, parent, path_join,
    parent_spec,
};
use crate::text::{
    chars_eq, chars_of, decimal, lemma_last_index_after, decimal_string, push_arg, str_eq, push_char, trim, trim_str,
};

verus! {

// ---------------------------------------------------------------------------
// Fixed locations
// ---------------------------------------------------------------------------

/// The folder for the app's socket and pending-name file: `XDG_RUNTIME_DIR`,
/// or `/tmp` when unset.
pub open spec fn runtime_dir_spec(xdg_runtime_dir: Option<Seq<char>>) -> Seq<char> {
    match xdg_runtime_dir {
        Some(d) => d,
        None => "/tmp"@,
    }
}

/// The runtime folder, given `XDG_RUNTIME_DIR`.
pub fn runtime_dir(xdg_runtime_dir: Option<&str>) -> (r: String)
    ensures
        r@ == runtime_dir_spec(
            match xdg_runtime_dir {
                Some(d) => Some(d@),
                None => None,
            },
        ),
{
    match xdg_runtime_dir {
        Some(d) => d.to_string(),
        None => "/tmp".to_string(),
    }
}

/// The Unix socket that hotkey commands are sent to.
pub fn socket_path(xdg_runtime_dir: Option<&str>) -> (r: String)
    ensures
        r@ == join_spec(
            runtime_dir_spec(
                match xdg_runtime_dir {
                    Some(d) => Some(d@),
                    None => None,
                },
            ),
            "klyppd.sock"@,
        ),
{
    let d = runtime_dir(xdg_runtime_dir);
    path_join(d.as_str(), "klyppd.sock")
}

/// The file holding the name for the replay being saved.
pub fn pending_name_path(xdg_runtime_dir: Option<&str>) -> (r: String)
    ensures
        r@ == join_spec(
            runtime_dir_spec(
                match xdg_runtime_dir {
                    Some(d) => Some(d@),
                    None => None,
                },
            ),
            "klyppd-pending-name"@,
        ),
{
    let d = runtime_dir(xdg_runtime_dir);
    path_join(d.as_str(), "klyppd-pending-name")
}

// ---------------------------------------------------------------------------
// Renaming
// ---------------------------------------------------------------------------

/// The extension a clip keeps when renamed: its file's, or `mp4`.
pub open spec fn clip_extension(path: Seq<char>) -> Seq<char> {
    match extension_spec(path) {
        Some(e) => e,
        None => "mp4"@,
    }
}

/// Whether `s` ends with `suffix`.
pub open spec fn has_suffix(s: Seq<char>, suffix: Seq<char>) -> bool {
    suffix.len() <= s.len() && s.skip(s.len() - suffix.len()) == suffix
}

/// The new file name for a clip renamed to `new_name`: the name as given
/// when it already ends in the clip's extension, else with it appended.
pub open spec fn renamed_filename_spec(new_name: Seq<char>, old_path: Seq<char>) -> Seq<char> {
    let suffix = seq!['.'] + clip_extension(old_path);
    if has_suffix(new_name, suffix) {
        new_name
    } else {
        new_name + suffix
    }
}

fn ends_with_chars(s: &Vec<char>, suffix: &Vec<char>) -> (r: bool)
    ensures
        r == has_suffix(s@, suffix@),
{
    if suffix.len() > s.len() {
        return false;
    }
    let off = s.len() - suffix.len();
    let mut k: usize = 0;
    while k < suffix.len()
        invariant
            k <= suffix@.len(),
            off + suffix.len() == s.len(),
            forall|j: int| 0 <= j < k ==> s@[off + j] == suffix@[j],
        decreases suffix@.len() - k,
    {
        if s[off + k] != suffix[k] {
            assert(s@.skip(off as int)[k as int] != suffix@[k as int]);
            return false;
        }
        k = k + 1;
    }
    assert(s@.skip(off as int) =~= suffix@);
    true
}

/// The file name a clip gets when renamed.
pub fn renamed_filename(new_name: &str, old_path: &str) -> (r: String)
    ensures
        r@ == renamed_filename_spec(new_name@, old_path@),
{
    let ext = match extension(old_path) {
        Some(e) => e,
        None => "mp4".to_string(),
    };
    let mut suffix = ".".to_string();
    suffix.append(ext.as_str());
    proof {
        reveal_strlit(".");
    }
    assert(suffix@ =~= seq!['.'] + clip_extension(old_path@));
    if ends_with_chars(&chars_of(new_name), &chars_of(suffix.as_str())) {
        new_name.to_string()
    } else {
        let mut r = new_name.to_string();
        r.append(suffix.as_str());
        r
    }
}

/// Where a renamed clip goes: its old folder (`.` when it has none) joined
/// with the new file name.
pub open spec fn renamed_path_spec(old_path: Seq<char>, new_filename: Seq<char>) -> Seq<char> {
    let dir = match parent_spec(old_path) {
        Some(p) => p,
        None => "."@,
    };
    join_spec(dir, new_filename)
}

/// The path a renamed clip moves to.
pub fn renamed_path(old_path: &str, new_filename: &str) -> (r: String)
    ensures
        r@ == renamed_path_spec(old_path@, new_filename@),
{
    let dir = match parent(old_path) {
        Some(p) => p,
        None => ".".to_string(),
    };
    path_join(dir.as_str(), new_filename)
}

// ---------------------------------------------------------------------------
// Preview transcodes
// ---------------------------------------------------------------------------

/// Whether a clip's name ends in `.mp4`, so that it may play as it is.
pub fn is_mp4_name(input: &str) -> (r: bool)
    ensures
        r == has_suffix(input@, ".mp4"@),
{
    ends_with_chars(&chars_of(input), &chars_of(".mp4"))
}

/// Whether ffprobe's report of the first audio stream's codec says AAC.
pub fn is_aac_report(report: &str) -> (r: bool)
    ensures
        r == (trim(report@) == "aac"@),
{
    let t = trim_str(report);
    let a = chars_of(t.as_str());
    let b = chars_of("aac");
    if a.len() != b.len() {
        return false;
    }
    let mut i: usize = 0;
    while i < a.len()
        invariant
            i <= a@.len() == b@.len(),
            a@ == t@,
            t@ == trim(report@),
            b@ == "aac"@,
            forall|j: int| 0 <= j < i ==> a@[j] == b@[j],
        decreases a@.len() - i,
    {
        if a[i] != b[i] {
            assert(a@[i as int] != b@[i as int]);
            return false;
        }
        i = i + 1;
    }
    assert(a@ =~= b@);
    true
}

/// The ffprobe arguments that print the codec of a clip's first audio stream.
pub open spec fn audio_codec_probe_args_spec(path: Seq<char>) -> Seq<Seq<char>> {
    seq![
        "-v"@,
        "quiet"@,
        "-select_streams"@,
        "a:0"@,
        "-show_entries"@,
        "stream=codec_name"@,
        "-of"@,
        "csv=p=0"@,
        path,
    ]
}

/// The ffprobe arguments for a clip's audio codec.
pub fn audio_codec_probe_args(path: &str) -> (r: Vec<String>)
    ensures
        r.deep_view() == audio_codec_probe_args_spec(path@),
{
    let mut r: Vec<String> = Vec::new();
    push_arg(&mut r, "-v");
    push_arg(&mut r, "quiet");
    push_arg(&mut r, "-select_streams");
    push_arg(&mut r, "a:0");
    push_arg(&mut r, "-show_entries");
    push_arg(&mut r, "stream=codec_name");
    push_arg(&mut r, "-of");
    push_arg(&mut r, "csv=p=0");
    push_arg(&mut r, path);
    assert(r.deep_view() =~= audio_codec_probe_args_spec(path@));
    r
}

/// Where the playable copy of a clip goes: `<stem>.mp4` in the
/// `klyppd-preview` folder of the temporary folder.
pub open spec fn preview_output_path_spec(temp_dir: Seq<char>, input: Seq<char>) -> Seq<char> {
    let stem = match file_stem_spec(input) {
        Some(s) => s,
        None => Seq::empty(),
    };
    join_spec(join_spec(temp_dir, "klyppd-preview"@), stem + ".mp4"@)
}

/// The preview cache folder.
pub fn preview_dir(temp_dir: &str) -> (r: String)
    ensures
        r@ == join_spec(temp_dir@, "klyppd-preview"@),
{
    path_join(temp_dir, "klyppd-preview")
}

/// The path of a clip's playable copy.
pub fn preview_output_path(temp_dir: &str, input: &str) -> (r: String)
    ensures
        r@ == preview_output_path_spec(temp_dir@, input@),
{
    let dir = preview_dir(temp_dir);
    let mut name = match file_stem(input) {
        Some(s) => s,
        None => String::new(),
    };
    name.append(".mp4");
    path_join(dir.as_str(), name.as_str())
}

/// The ffmpeg arguments that copy a clip's video, re-encode its audio to
/// AAC at 160 kb/s and move the index to the front, into `output`.
pub open spec fn preview_transcode_args_spec(input: Seq<char>, output: Seq<char>) -> Seq<
    Seq<char>,
> {
    seq![
        "-y"@,
        "-i"@,
        input,
        "-c:v"@,
        "copy"@,
        "-c:a"@,
        "aac"@,
        "-b:a"@,
        "160k"@,
        "-movflags"@,
        "+faststart"@,
        output,
    ]
}

/// The ffmpeg arguments for a playable copy of a clip.
pub fn preview_transcode_args(input: &str, output: &str) -> (r: Vec<String>)
    ensures
        r.deep_view() == preview_transcode_args_spec(input@, output@),
{
    let mut r: Vec<String> = Vec::new();
    push_arg(&mut r, "-y");
    push_arg(&mut r, "-i");
    push_arg(&mut r, input);
    push_arg(&mut r, "-c:v");
    push_arg(&mut r, "copy");
    push_arg(&mut r, "-c:a");
    push_arg(&mut r, "aac");
    push_arg(&mut r, "-b:a");
    push_arg(&mut r, "160k");
    push_arg(&mut r, "-movflags");
    push_arg(&mut r, "+faststart");
    push_arg(&mut r, output);
    assert(r.deep_view() =~= preview_transcode_args_spec(input@, output@));
    r
}

// ---------------------------------------------------------------------------
// Scanning the clips folder
// ---------------------------------------------------------------------------

/// Whether a file is a clip: its extension is `mkv`, `mp4` or `webm`.
pub open spec fn is_clip_file_spec(path: Seq<char>) -> bool {
    let e = match extension_spec(path) {
        Some(e) => e,
        None => Seq::empty(),
    };
    e == "mkv"@ || e == "mp4"@ || e == "webm"@
}

/// Whether the file at `path` is a clip, by its extension.
pub fn is_clip_file(path: &str) -> (r: bool)
    ensures
        r == is_clip_file_spec(path@),
{
    let e = match extension(path) {
        Some(e) => chars_of(e.as_str()),
        None => Vec::new(),
    };
    chars_eq(&e, &chars_of("mkv")) || chars_eq(&e, &chars_of("mp4")) || chars_eq(
        &e,
        &chars_of("webm"),
    )
}

/// A file `<dir>/<base>.<ext>` (a non-empty base name and an extension,
/// neither holding a separator, the extension no dot) is a clip exactly
/// when the extension is `mkv`, `mp4` or `webm`, in any folder.
pub proof fn lemma_clip_file_extensions(dir: Seq<char>, base: Seq<char>, ext: Seq<char>)
    requires
        base.len() > 0,
        ext.len() > 0,
        forall|i: int| 0 <= i < base.len() ==> base[i] != '/',
        forall|i: int| 0 <= i < ext.len() ==> ext[i] != '/' && ext[i] != '.',
    ensures
        is_clip_file_spec(dir + seq!['/'] + (base + seq!['.'] + ext)) <==> (ext == "mkv"@ || ext
            == "mp4"@ || ext == "webm"@),
{
    let name = base + seq!['.'] + ext;
    let p = dir + seq!['/'] + name;
    assert forall|i: int| 0 <= i < name.len() implies name[i] != '/' by {
        if i < base.len() {
            assert(name[i] == base[i]);
        } else if i > base.len() {
            assert(name[i] == ext[i - base.len() - 1]);
        }
    }
    assert forall|i: int| 0 <= i < ext.len() implies ext[i] != '.' by {}
    lemma_last_index_after(dir, '/', name);
    lemma_last_index_after(base, '.', ext);
    assert(p.last() == ext.last());
    assert(p.subrange(dir.len() + 1int, p.len() as int) =~= name);
    assert(name.len() >= 3);
    assert(name != seq!['.']);
    assert(name != seq!['.', '.']);
    assert(file_name_spec(p) == Some(name));
    assert(name.subrange(base.len() + 1int, name.len() as int) =~= ext);
    assert(extension_spec(p) == Some(ext));
}

/// Whether a file found in the clips folder is a clip the library does not
/// know yet: a video file whose path is not among the known paths.
pub open spec fn is_new_clip_spec(path: Seq<char>, known: Seq<Seq<char>>) -> bool {
    is_clip_file_spec(path) && !known.contains(path)
}

/// Whether `path` is a clip to add to the library on a scan of the folder.
pub fn is_new_clip(path: &str, known: &Vec<String>) -> (r: bool)
    ensures
        r == is_new_clip_spec(path@, known.deep_view()),
{
    if !is_clip_file(path) {
        return false;
    }
    let ghost dv = known.deep_view();
    let mut i: usize = 0;
    while i < known.len()
        invariant
            i <= known.len(),
            dv == known.deep_view(),
            dv.len() == known.len(),
            forall|j: int| 0 <= j < i ==> dv[j] != path@,
        decreases known.len() - i,
    {
        if str_eq(known[i].as_str(), path) {
            assert(dv[i as int] == path@);
            return false;
        }
        i = i + 1;
    }
    assert(!dv.contains(path@));
    true
}

/// The folder of the clips' thumbnails, `.thumbs` in the clips folder.
pub fn thumbs_dir(clips_dir: &str) -> (r: String)
    ensures
        r@ == join_spec(clips_dir@, ".thumbs"@),
{
    path_join(clips_dir, ".thumbs")
}

/// The thumbnail file for a new clip, `<id>.jpg` in the thumbnails folder.
pub fn thumbnail_file(thumbs: &str, id: &str) -> (r: String)
    ensures
        r@ == join_spec(thumbs@, id@ + ".jpg"@),
{
    let mut name = id.to_string();
    name.append(".jpg");
    path_join(thumbs, name.as_str())
}

// ---------------------------------------------------------------------------
// Naming saved replays
// ---------------------------------------------------------------------------

/// The `n`-th candidate name for a saved replay: `<pending>.<ext>`, then
/// `<pending>_1.<ext>`, `<pending>_2.<ext>` and so on, in the clip's folder.
pub open spec fn pending_target_spec(dir: Seq<char>, pending: Seq<char>, ext: Seq<char>, n: u32) -> Seq<
    char,
> {
    if n == 0 {
        join_spec(dir, pending + seq!['.'] + ext)
    } else {
        join_spec(dir, pending + seq!['_'] + decimal(n as nat) + seq!['.'] + ext)
    }
}

/// A candidate path for a saved replay given its pending name.
pub fn pending_target(dir: &str, pending: &str, ext: &str, n: u32) -> (r: String)
    ensures
        r@ == pending_target_spec(dir@, pending@, ext@, n),
{
    let mut name = pending.to_string();
    if n > 0 {
        push_char(&mut name, '_');
        name.append(decimal_string(n as u64).as_str());
    }
    push_char(&mut name, '.');
    name.append(ext);
    path_join(dir, name.as_str())
}

/// One step of the search for a free name for a saved replay: when
/// candidate `n` is free it is the target (`Ok`), otherwise candidate
/// `n + 1` is tried next (`Err`). Starting at 0, the target is the first
/// free candidate.
pub fn pending_search_step(dir: &str, pending: &str, ext: &str, n: u32, taken: bool) -> (r: Result<
    String,
    u32,
>)
    requires
        taken ==> n < u32::MAX,
    ensures
        !taken ==> (r matches Ok(t) && t@ == pending_target_spec(dir@, pending@, ext@, n)),
        taken ==> r == Err::<String, u32>((n + 1) as u32),
{
    if taken {
        Err(n + 1)
    } else {
        Ok(pending_target(dir, pending, ext, n))
    }
}

// ---------------------------------------------------------------------------
// Dependencies
// ---------------------------------------------------------------------------

/// The programs the app runs.
pub open spec fn dependencies_spec() -> Seq<Seq<char>> {
    seq!["gpu-screen-recorder"@, "ffmpeg"@, "ffprobe"@]
}

/// The programs the app needs on the `PATH`.
pub fn dependencies() -> (r: Vec<String>)
    ensures
        r.deep_view() == dependencies_spec(),
{
    let mut r: Vec<String> = Vec::new();
    push_arg(&mut r, "gpu-screen-recorder");
    push_arg(&mut r, "ffmpeg");
    push_arg(&mut r, "ffprobe");
    assert(r.deep_view() =~= dependencies_spec());
    r
}

/// The names of the programs not found, in order.
pub open spec fn missing_spec(names: Seq<Seq<char>>, found: Seq<bool>) -> Seq<Seq<char>>
    decreases names.len(),
{
    if names.len() == 0 || found.len() != names.len() {
        Seq::empty()
    } else {
        let rest = missing_spec(names.drop_last(), found.drop_last());
        if found.last() {
            rest
        } else {
            rest.push(names.last())
        }
    }
}

/// Which of the programs `names` were not found, given which were.
pub fn missing_dependencies(names: &Vec<String>, found: &[bool]) -> (r: Vec<String>)
    requires
        names@.len() == found@.len(),
    ensures
        r.deep_view() == missing_spec(names.deep_view(), found@),
{
    let mut r: Vec<String> = Vec::new();
    let mut i: usize = 0;
    assert(names.deep_view().take(0) =~= Seq::<Seq<char>>::empty());
    while i < names.len()
        invariant
            i <= names@.len() == found@.len(),
            r.deep_view() == missing_spec(names.deep_view().take(i as int), found@.take(i as int)),
        decreases names@.len() - i,
    {
        assert(names.deep_view().take(i + 1).drop_last() =~= names.deep_view().take(i as int));
        assert(found@.take(i + 1).drop_last() =~= found@.take(i as int));
        if !found[i] {
            push_arg(&mut r, names[i].as_str());
        }
        i = i + 1;
    }
    assert(names.deep_view().take(i as int) =~= names.deep_view());
    assert(found@.take(i as int) =~= found@);
    r
}

// ---------------------------------------------------------------------------
// Errors and thumbnails
// ---------------------------------------------------------------------------

/// The message of an error, as the user sees it (`to_string`).
pub fn err<E: std::fmt::Display>(e: E) -> (r: String)
    ensures
        vstd::string::to_string_from_display_ensures::<E>(&e, r),
{
    e.to_string()
}

/// The character for a 6-bit value in the standard base64 alphabet
/// (RFC 4648): `A`-`Z`, `a`-`z`, `0`-`9`, `+`, `/`.
pub open spec fn base64_char(v: nat) -> char {
    if v < 26 {
        ((65 + v) as u8) as char
    } else if v < 52 {
        ((71 + v) as u8) as char
    } else if v < 62 {
        ((v - 4) as u8) as char
    } else if v == 62 {
        '+'
    } else {
        '/'
    }
}

/// Standard base64 with `=` padding (RFC 4648, section 4): each group of
/// three bytes becomes four characters; a last group of one or two bytes
/// becomes two or three characters and padding.
pub open spec fn base64_spec(b: Seq<u8>) -> Seq<char>
    decreases b.len(),
{
    if b.len() == 0 {
        Seq::empty()
    } else if b.len() == 1 {
        seq![base64_char(b[0] as nat / 4), base64_char((b[0] as nat % 4) * 16), '=', '=']
    } else if b.len() == 2 {
        seq![
            base64_char(b[0] as nat / 4),
            base64_char((b[0] as nat % 4) * 16 + b[1] as nat / 16),
            base64_char((b[1] as nat % 16) * 4),
            '=',
        ]
    } else {
        seq![
            base64_char(b[0] as nat / 4),
            base64_char((b[0] as nat % 4) * 16 + b[1] as nat / 16),
            base64_char((b[1] as nat % 16) * 4 + b[2] as nat / 64),
            base64_char(b[2] as nat % 64),
        ] + base64_spec(b.skip(3))
    }
}

/// The length of the padded encoding of `n` bytes.
pub open spec fn base64_len(n: nat) -> nat {
    (n / 3) * 4 + if n % 3 > 0 {
        4nat
    } else {
        0nat
    }
}

/// `base64::engine::general_purpose::STANDARD.encode`.
/// Trusted: the crate documents this engine as the standard RFC 4648
/// alphabet with padding; the contract states that encoding. It panics when
/// the encoded length overflows `usize`, which `requires` rules out.
#[verifier::external_body]
fn encode_base64(bytes: &[u8]) -> (r: String)
    requires
        base64_len(bytes@.len()) <= usize::MAX,
    ensures
        r@ == base64_spec(bytes@),
{
    base64::Engine::encode(&base64::engine::general_purpose::STANDARD, bytes)
}

/// A `data:` URL that shows a JPEG thumbnail inline.
pub open spec fn thumbnail_data_url_spec(bytes: Seq<u8>) -> Seq<char> {
    "data:image/jpeg;base64,"@ + base64_spec(bytes)
}

/// The thumbnail's bytes as a `data:` URL the web view can show.
pub fn thumbnail_data_url(bytes: &[u8]) -> (r: String)
    requires
        base64_len(bytes@.len()) <= usize::MAX,
    ensures
        r@ == thumbnail_data_url_spec(bytes@),
{
    let mut r = "data:image/jpeg;base64,".to_string();
    r.append(encode_base64(bytes).as_str());
    r
}

} // verus!
