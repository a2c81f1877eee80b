//! The local video server's HTTP range handling.

use vstd::prelude::*;
use crate::text::{decimal, decimal_string, parse_usize, parse_usize_bytes};
use vstd::utf8::encode_utf8;

verus! {

/// Whether `s` begins with `p`.
pub open spec fn has_prefix(s: Seq<u8>, p: Seq<u8>) -> bool {
    p.len() <= s.len() && s.take(p.len() as int) == p
}

/// `Range:`, the header name the server looks for.
pub open spec fn range_header_name() -> Seq<u8> {
    seq![82u8, 97u8, 110u8, 103u8, 101u8, 58u8]
}

/// `Range: bytes=`, the prefix stripped from the header line.
pub open spec fn range_bytes_prefix() -> Seq<u8> {
    range_header_name() + seq![32u8, 98u8, 121u8, 116u8, 101u8, 115u8, 61u8]
}

/// The line starting at `i`: up to the next newline, without a carriage
/// return that stands just before that newline (as `str::lines` gives it).
pub open spec fn line_at(b: Seq<u8>, i: int) -> Seq<u8> {
    let e = next_byte(b, i, 10);
    let raw = b.subrange(i, e);
    if e < b.len() && raw.len() > 0 && raw.last() == 13 {
        raw.drop_last()
    } else {
        raw
    }
}

/// The first line, from the one starting at `i` on, that starts with `Range:`.
pub open spec fn find_range_line(b: Seq<u8>, i: int) -> Option<Seq<u8>>
    decreases b.len() - i,
{
    if i < 0 || i >= b.len() {
        None
    } else if has_prefix(line_at(b, i), range_header_name()) {
        Some(line_at(b, i))
    } else {
        proof {
            lemma_next_byte_bounds(b, i, 10);
        }
        if next_byte(b, i, 10) >= b.len() {
            None
        } else {
            find_range_line(b, next_byte(b, i, 10) + 1)
        }
    }
}

/// `s` with every leading copy of `p` removed (`str::trim_start_matches`).
pub open spec fn strip_prefixes(s: Seq<u8>, p: Seq<u8>) -> Seq<u8>
    decreases s.len(),
{
    if p.len() > 0 && has_prefix(s, p) {
        strip_prefixes(s.skip(p.len() as int), p)
    } else {
        s
    }
}

/// The index of the first `-` in `s`, or its length.
pub open spec fn first_dash(s: Seq<u8>) -> int {
    next_byte(s, 0, 45)
}

/// The index of the first byte `c` at or after `i`, or the length.
pub open spec fn next_byte(b: Seq<u8>, i: int, c: u8) -> int
    decreases b.len() - i,
{
    if i < 0 || i >= b.len() {
        b.len() as int
    } else if b[i] == c {
        i
    } else {
        next_byte(b, i + 1, c)
    }
}

/// The byte range `(start, end)` a request asks for, given the file's length:
/// from the first `Range:` line, the number before the first `-` (0 if it
/// does not parse) and the one after it up to any next `-` (the last byte if
/// absent, empty or unparsable, and never past the last byte); the whole
/// file when there is no such line.
pub open spec fn requested_range_spec(req: Seq<u8>, file_len: usize) -> (usize, usize) {
    let last = (file_len - 1) as usize;
    match find_range_line(req, 0) {
        None => (0usize, last),
        Some(line) => {
            let range = strip_prefixes(line, range_bytes_prefix());
            let d = first_dash(range);
            let start = match parse_usize(range.take(d)) {
                Some(v) => v,
                None => 0usize,
            };
            let end = if d >= range.len() {
                last
            } else {
                let second = range.subrange(d + 1, next_byte(range, d + 1, 45));
                if second.len() == 0 {
                    last
                } else {
                    match parse_usize(second) {
                        Some(v) => v,
                        None => last,
                    }
                }
            };
            (start, if end < last { end } else { last })
        },
    }
}

pub proof fn lemma_next_byte_bounds(b: Seq<u8>, i: int, c: u8)
    requires
        0 <= i <= b.len(),
    ensures
        i <= next_byte(b, i, c) <= b.len(),
    decreases b.len() - i,
{
    if i < b.len() && b[i] != c {
        lemma_next_byte_bounds(b, i + 1, c);
    }
}

fn next_byte_exec(b: &[u8], i: usize, c: u8) -> (r: usize)
    requires
        i <= b@.len(),
    ensures
        r == next_byte(b@, i as int, c),
        i <= r <= b@.len(),
{
    let mut k = i;
    proof {
        lemma_next_byte_bounds(b@, i as int, c);
    }
    while k < b.len() && b[k] != c
        invariant
            i <= k <= b@.len(),
            next_byte(b@, i as int, c) == next_byte(b@, k as int, c),
        decreases b@.len() - k,
    {
        k = k + 1;
    }
    k
}

fn copy_range(b: &[u8], lo: usize, hi: usize) -> (r: Vec<u8>)
    requires
        lo <= hi <= b@.len(),
    ensures
        r@ == b@.subrange(lo as int, hi as int),
{
    let mut r: Vec<u8> = Vec::new();
    let mut k = lo;
    while k < hi
        invariant
            lo <= k <= hi <= b@.len(),
            r@ == b@.subrange(lo as int, k as int),
        decreases hi - k,
    {
        r.push(b[k]);
        assert(b@.subrange(lo as int, k as int).push(b@[k as int]) =~= b@.subrange(
            lo as int,
            k + 1,
        ));
        k = k + 1;
    }
    r
}

fn starts_with_at(b: &[u8], lo: usize, hi: usize, p: &[u8]) -> (r: bool)
    requires
        lo <= hi <= b@.len(),
    ensures
        r == has_prefix(b@.subrange(lo as int, hi as int), p@),
{
    let ghost s = b@.subrange(lo as int, hi as int);
    if p.len() > hi - lo {
        return false;
    }
    let mut k: usize = 0;
    while k < p.len()
        invariant
            k <= p@.len() <= hi - lo,
            lo <= hi <= b@.len(),
            s == b@.subrange(lo as int, hi as int),
            forall|j: int| 0 <= j < k ==> s[j] == p@[j],
        decreases p@.len() - k,
    {
        if b[lo + k] != p[k] {
            assert(s.take(p@.len() as int)[k as int] != p@[k as int]);
            return false;
        }
        k = k + 1;
    }
    assert(s.take(p@.len() as int) =~= p@);
    true
}

/// The bytes of `range` after every leading `Range: bytes=`.
fn strip_range_prefixes(line: &[u8]) -> (r: Vec<u8>)
    ensures
        r@ == strip_prefixes(line@, range_bytes_prefix()),
{
    let prefix: Vec<u8> = vec![82, 97, 110, 103, 101, 58, 32, 98, 121, 116, 101, 115, 61];
    assert(prefix@ =~= range_bytes_prefix());
    let n = line.len();
    let mut j: usize = 0;
    assert(line@.skip(0) =~= line@);
    while starts_with_at(line, j, n, prefix.as_slice())
        invariant
            j <= n == line@.len(),
            prefix@ == range_bytes_prefix(),
            strip_prefixes(line@, range_bytes_prefix()) == strip_prefixes(
                line@.skip(j as int),
                range_bytes_prefix(),
            ),
        decreases n - j,
    {
        assert(line@.subrange(j as int, n as int) =~= line@.skip(j as int));
        assert(line@.skip(j as int).skip(13) =~= line@.skip(j + 13));
        j = j + 13;
    }
    assert(line@.subrange(j as int, n as int) =~= line@.skip(j as int));
    copy_range(line, j, n)
}

/// The byte range `(start, end)` asked for by a `Range:` line's value.
fn range_of_line(line: &[u8], file_len: usize) -> (r: (usize, usize))
    requires
        file_len >= 1,
    ensures
        r == ({
            let last = (file_len - 1) as usize;
            let range = strip_prefixes(line@, range_bytes_prefix());
            let d = first_dash(range);
            let start = match parse_usize(range.take(d)) {
                Some(v) => v,
                None => 0usize,
            };
            let end = if d >= range.len() {
                last
            } else {
                let second = range.subrange(d + 1, next_byte(range, d + 1, 45));
                if second.len() == 0 {
                    last
                } else {
                    match parse_usize(second) {
                        Some(v) => v,
                        None => last,
                    }
                }
            };
            (start, if end < last { end } else { last })
        }),
{
    let last = file_len - 1;
    let range = strip_range_prefixes(line);
    let d = next_byte_exec(range.as_slice(), 0, 45);
    let head = copy_range(range.as_slice(), 0, d);
    assert(head@ =~= range@.take(d as int));
    let start = match parse_usize_bytes(head.as_slice()) {
        Some(v) => v,
        None => 0,
    };
    let end = if d >= range.len() {
        last
    } else {
        let e2 = next_byte_exec(range.as_slice(), d + 1, 45);
        if e2 == d + 1 {
            last
        } else {
            let second = copy_range(range.as_slice(), d + 1, e2);
            match parse_usize_bytes(second.as_slice()) {
                Some(v) => v,
                None => last,
            }
        }
    };
    (start, if end < last { end } else { last })
}

/// The byte range a browser's request asks for, given the file's length.
pub fn requested_range(req: &str, file_len: usize) -> (r: (usize, usize))
    requires
        file_len >= 1,
    ensures
        r == requested_range_spec(encode_utf8(req@), file_len),
{
    let b = req.as_bytes();
    let name: Vec<u8> = vec![82, 97, 110, 103, 101, 58];
    assert(name@ =~= range_header_name());
    let mut i: usize = 0;
    loop
        invariant
            i <= b@.len(),
            file_len >= 1,
            name@ == range_header_name(),
            b@ == encode_utf8(req@),
            find_range_line(b@, 0) == find_range_line(b@, i as int),
        decreases b@.len() - i,
    {
        if i >= b.len() {
            return (0, file_len - 1);
        }
        let e = next_byte_exec(b, i, 10);
        let le = if e < b.len() && e > i && b[e - 1] == 13u8 {
            e - 1
        } else {
            e
        };
        assert(line_at(b@, i as int) =~= b@.subrange(i as int, le as int));
        if starts_with_at(b, i, le, name.as_slice()) {
            let line = copy_range(b, i, le);
            return range_of_line(line.as_slice(), file_len);
        }
        if e >= b.len() {
            return (0, file_len - 1);
        }
        i = e + 1;
    }
}

/// The response header for bytes `start..=end` of a file of `file_len`
/// bytes: `200 OK` with the whole length when that is the whole file,
/// `206 Partial Content` with the range and its length otherwise.
pub open spec fn response_header_spec(start: usize, end: usize, file_len: usize) -> Seq<char> {
    if start == 0 && end == file_len - 1 {
        "HTTP/1.1 200 OK\r\nContent-Type: video/mp4\r\nContent-Length: "@ + decimal(
            file_len as nat,
        ) + "\r\nAccess-Control-Allow-Origin: *\r\nAccept-Ranges: bytes\r\n\r\n"@
    } else {
        "HTTP/1.1 206 Partial Content\r\nContent-Type: video/mp4\r\nContent-Range: bytes "@
            + decimal(start as nat) + "-"@ + decimal(end as nat) + "/"@ + decimal(file_len as nat)
            + "\r\nContent-Length: "@ + decimal((end - start + 1) as nat)
            + "\r\nAccess-Control-Allow-Origin: *\r\nAccept-Ranges: bytes\r\n\r\n"@
    }
}

/// The number of bytes the response body carries.
pub fn chunk_len(start: usize, end: usize) -> (r: usize)
    requires
        start <= end < usize::MAX,
    ensures
        r == end - start + 1,
{
    end - start + 1
}

/// The HTTP response header for a byte range of the video.
pub fn response_header(start: usize, end: usize, file_len: usize) -> (r: String)
    requires
        file_len >= 1,
        start <= end < usize::MAX,
    ensures
        r@ == response_header_spec(start, end, file_len),
{
    if start == 0 && end == file_len - 1 {
        let mut r = "HTTP/1.1 200 OK\r\nContent-Type: video/mp4\r\nContent-Length: ".to_string();
        r.append(decimal_string(file_len as u64).as_str());
        r.append("\r\nAccess-Control-Allow-Origin: *\r\nAccept-Ranges: bytes\r\n\r\n");
        r
    } else {
        let chunk = chunk_len(start, end);
        let mut r =
            "HTTP/1.1 206 Partial Content\r\nContent-Type: video/mp4\r\nContent-Range: bytes "
                .to_string();
        r.append(decimal_string(start as u64).as_str());
        r.append("-");
        r.append(decimal_string(end as u64).as_str());
        r.append("/");
        r.append(decimal_string(file_len as u64).as_str());
        r.append("\r\nContent-Length: ");
        r.append(decimal_string(chunk as u64).as_str());
        r.append("\r\nAccess-Control-Allow-Origin: *\r\nAccept-Ranges: bytes\r\n\r\n");
        r
    }
}

/// The address the local server offers the video at.
pub open spec fn video_url_spec(port: u16) -> Seq<char> {
    "http://127.0.0.1:"@ + decimal(port as nat) + "/video.mp4"@
}

/// The URL of the video served on `port` of the loopback interface.
pub fn video_url(port: u16) -> (r: String)
    ensures
        r@ == video_url_spec(port),
{
    let mut r = "http://127.0.0.1:".to_string();
    r.append(decimal_string(port as u64).as_str());
    r.append("/video.mp4");
    r
}

} // verus!
