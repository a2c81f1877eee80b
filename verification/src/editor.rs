//! The ffmpeg command lines of the clip editor.

use vstd::prelude::*;
use crate::text::{decimal, decimal_string, push_arg, push_char};

verus! {

/// The ffmpeg crop filter `crop=W:H:X:Y`.
pub open spec fn crop_filter_spec(x: u32, y: u32, w: u32, h: u32) -> Seq<char> {
    "crop="@ + decimal(w as nat) + seq![':'] + decimal(h as nat) + seq![':'] + decimal(x as nat)
        + seq![':'] + decimal(y as nat)
}

/// The ffmpeg arguments that crop `input` to the `w`x`h` rectangle at
/// (`x`, `y`), re-encoding video with libx264 and copying audio, into `output`.
pub open spec fn crop_args_spec(
    input: Seq<char>,
    output: Seq<char>,
    x: u32,
    y: u32,
    w: u32,
    h: u32,
) -> Seq<Seq<char>> {
    seq![
        "-y"@,
        "-i"@,
        input,
        "-vf"@,
        crop_filter_spec(x, y, w, h),
        "-c:v"@,
        "libx264"@,
        "-c:a"@,
        "copy"@,
        output,
    ]
}

/// The crop filter for ffmpeg.
pub fn crop_filter(x: u32, y: u32, w: u32, h: u32) -> (r: String)
    ensures
        r@ == crop_filter_spec(x, y, w, h),
{
    let mut r = "crop=".to_string();
    r.append(decimal_string(w as u64).as_str());
    push_char(&mut r, ':');
    r.append(decimal_string(h as u64).as_str());
    push_char(&mut r, ':');
    r.append(decimal_string(x as u64).as_str());
    push_char(&mut r, ':');
    r.append(decimal_string(y as u64).as_str());
    assert(r@ =~= crop_filter_spec(x, y, w, h));
    r
}

/// The ffmpeg arguments for cropping a clip.
pub fn crop_args(input: &str, output: &str, x: u32, y: u32, w: u32, h: u32) -> (r: Vec<String>)
    ensures
        r.deep_view() == crop_args_spec(input@, output@, x, y, w, h),
{
    let filter = crop_filter(x, y, w, h);
    let mut r: Vec<String> = Vec::new();
    push_arg(&mut r, "-y");
    push_arg(&mut r, "-i");
    push_arg(&mut r, input);
    push_arg(&mut r, "-vf");
    push_arg(&mut r, filter.as_str());
    push_arg(&mut r, "-c:v");
    push_arg(&mut r, "libx264");
    push_arg(&mut r, "-c:a");
    push_arg(&mut r, "copy");
    push_arg(&mut r, output);
    assert(r.deep_view() =~= crop_args_spec(input@, output@, x, y, w, h));
    r
}

/// The ffmpeg arguments that write a 320-pixel-wide thumbnail of the frame
/// one second into `input` to `output`.
pub open spec fn thumbnail_args_spec(input: Seq<char>, output: Seq<char>) -> Seq<Seq<char>> {
    seq![
        "-y"@,
        "-ss"@,
        "1"@,
        "-i"@,
        input,
        "-vframes"@,
        "1"@,
        "-vf"@,
        "scale=320:-1"@,
        output,
    ]
}

/// The ffmpeg arguments for a clip's thumbnail.
pub fn thumbnail_args(input: &str, output: &str) -> (r: Vec<String>)
    ensures
        r.deep_view() == thumbnail_args_spec(input@, output@),
{
    let mut r: Vec<String> = Vec::new();
    push_arg(&mut r, "-y");
    push_arg(&mut r, "-ss");
    push_arg(&mut r, "1");
    push_arg(&mut r, "-i");
    push_arg(&mut r, input);
    push_arg(&mut r, "-vframes");
    push_arg(&mut r, "1");
    push_arg(&mut r, "-vf");
    push_arg(&mut r, "scale=320:-1");
    push_arg(&mut r, output);
    assert(r.deep_view() =~= thumbnail_args_spec(input@, output@));
    r
}

/// The ffprobe arguments that print a clip's duration in seconds.
pub open spec fn duration_probe_args_spec(input: Seq<char>) -> Seq<Seq<char>> {
    seq!["-v"@, "quiet"@, "-show_entries"@, "format=duration"@, "-of"@, "csv=p=0"@, input]
}

/// The ffprobe arguments for a clip's duration.
pub fn duration_probe_args(input: &str) -> (r: Vec<String>)
    ensures
        r.deep_view() == duration_probe_args_spec(input@),
{
    let mut r: Vec<String> = Vec::new();
    push_arg(&mut r, "-v");
    push_arg(&mut r, "quiet");
    push_arg(&mut r, "-show_entries");
    push_arg(&mut r, "format=duration");
    push_arg(&mut r, "-of");
    push_arg(&mut r, "csv=p=0");
    push_arg(&mut r, input);
    assert(r.deep_view() =~= duration_probe_args_spec(input@));
    r
}

} // verus!
