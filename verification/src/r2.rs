//! Naming, formatting and key logic of the R2 share uploads.

use vstd::prelude::*;
use crate::paths::{extension, extension_spec};
use crate::hotkey::pending_clip_name_spec;
use crate::text::{
    all_ascii, chars_of, copy_chars, decimal, decimal_string, digit_char, find_last, is_ascii_digit, last_index_of,
    lemma_last_index_after, lemma_last_index_of_bounds, parse_usize, parse_usize_bytes, push_char, substring,
};
use vstd::utf8::{
    char_is_scalar, decode_utf8, encode_scalar, encode_utf8, encode_utf8_valid_utf8, is_char_boundary,
    is_char_boundary_iff_is_leading_byte, is_char_boundary_start_end_of_seq,
};

verus! {

// ---------------------------------------------------------------------------
// Human-readable sizes
// ---------------------------------------------------------------------------

/// The integer nearest to `num / den`; a tie goes to the even neighbour.
pub open spec fn round_half_even(num: nat, den: nat) -> nat
    recommends
        den > 0,
{
    let q = num / den;
    let r = num % den;
    if 2 * r > den || (2 * r == den && q % 2 == 1) {
        q + 1
    } else {
        q
    }
}

/// The spacing of the 64-bit floats around `b`: the power of two by which
/// `b` must be divided to fit in the 53-bit significand.
pub open spec fn f64_unit(b: nat) -> nat
    decreases b,
{
    if b < 0x20_0000_0000_0000 {
        1
    } else {
        2 * f64_unit(b / 2)
    }
}

/// The value of `b as f64`: `b` rounded to the nearest float, ties to even.
pub open spec fn as_f64_value(b: nat) -> nat {
    round_half_even(b, f64_unit(b)) * f64_unit(b)
}

/// `q / 10` shown with one decimal place.
pub open spec fn one_place(q: nat) -> Seq<char> {
    decimal(q / 10) + seq!['.', digit_char(q % 10)]
}

/// `q / 100` shown with two decimal places.
pub open spec fn two_places(q: nat) -> Seq<char> {
    decimal(q / 100) + seq!['.', digit_char((q / 10) % 10), digit_char(q % 10)]
}

/// A byte count in B, whole KB, MB to one place or GB to two places,
/// each rounded as `{:.N}` rounds the quotient of the floats.
pub open spec fn fmt_bytes_spec(b: u64) -> Seq<char> {
    if b <= 1023 {
        decimal(b as nat) + seq![' ', 'B']
    } else if b <= 1_048_575 {
        decimal(b as nat / 1024) + seq![' ', 'K', 'B']
    } else if b <= 1_073_741_823 {
        one_place(round_half_even(b as nat * 10, 1_048_576)) + seq![' ', 'M', 'B']
    } else {
        two_places(round_half_even(as_f64_value(b as nat) * 100, 1_073_741_824)) + seq![
            ' ',
            'G',
            'B',
        ]
    }
}

fn round_half_even_u128(num: u128, den: u128) -> (r: u128)
    requires
        den > 0,
        num / den < u128::MAX,
    ensures
        r == round_half_even(num as nat, den as nat),
{
    let q = num / den;
    let rem = num % den;
    if rem > den - rem || (rem == den - rem && q % 2 == 1) {
        q + 1
    } else {
        q
    }
}

/// Formats a byte count for the embed page, e.g. `11.4 MB`.
pub fn fmt_bytes(b: u64) -> (r: String)
    ensures
        r@ == fmt_bytes_spec(b),
{
    if b <= 1023 {
        let mut r = decimal_string(b);
        push_char(&mut r, ' ');
        push_char(&mut r, 'B');
        assert(r@ =~= fmt_bytes_spec(b));
        r
    } else if b <= 1_048_575 {
        let mut r = decimal_string(b / 1024);
        push_char(&mut r, ' ');
        push_char(&mut r, 'K');
        push_char(&mut r, 'B');
        assert(r@ =~= fmt_bytes_spec(b));
        r
    } else if b <= 1_073_741_823 {
        let q = round_half_even_u128(b as u128 * 10, 1_048_576) as u64;
        let mut r = decimal_string(q / 10);
        push_char(&mut r, '.');
        push_char(&mut r, digit_of_u64(q % 10));
        push_char(&mut r, ' ');
        push_char(&mut r, 'M');
        push_char(&mut r, 'B');
        assert(r@ =~= fmt_bytes_spec(b));
        r
    } else {
        let f = f64_value(b);
        let q = round_half_even_u128(f * 100, 1_073_741_824);
        assert(q <= 0xffff_ffff_ffff) by {
            assert(f * 100 <= 0x2_0000_0000_0000_0000 * 100);
        }
        let q = q as u64;
        let mut r = decimal_string(q / 100);
        push_char(&mut r, '.');
        push_char(&mut r, digit_of_u64((q / 10) % 10));
        push_char(&mut r, digit_of_u64(q % 10));
        push_char(&mut r, ' ');
        push_char(&mut r, 'G');
        push_char(&mut r, 'B');
        assert(r@ =~= fmt_bytes_spec(b));
        r
    }
}

fn digit_of_u64(d: u64) -> (c: char)
    requires
        d < 10,
    ensures
        c == digit_char(d as nat),
{
    ((d + 48) as u8) as char
}

/// The value of `b as f64`, held exactly in a `u128`.
fn f64_value(b: u64) -> (f: u128)
    requires
        b > 0,
    ensures
        f == as_f64_value(b as nat),
        f <= 0x2_0000_0000_0000_0000,
{
    let mut unit: u128 = 1;
    while (b as u128) / unit >= 0x20_0000_0000_0000
        invariant
            1 <= unit <= 4096,
            f64_unit(b as nat) == unit * f64_unit((b as nat) / (unit as nat)),
        decreases 4096 - unit,
    {
        proof {
            let x = (b as nat) / (unit as nat);
            vstd::arithmetic::div_mod::lemma_div_denominator(b as int, unit as int, 2);
            assert(f64_unit(x) == 2 * f64_unit(x / 2));
            assert(x / 2 == (b as nat) / ((unit * 2) as nat));
            assert(unit * f64_unit(x) == (unit * 2) * f64_unit(x / 2)) by (nonlinear_arith)
                requires
                    f64_unit(x) == 2 * f64_unit(x / 2),
            ;
            assert(unit * 2 <= 4096) by (nonlinear_arith)
                requires
                    (b as int) / (unit as int) >= 0x20_0000_0000_0000,
                    unit >= 1,
                    b <= 0xffff_ffff_ffff_ffff,
            ;
        }
        unit = unit * 2;
    }
    proof {
        let x = f64_unit((b as nat) / (unit as nat));
        assert(x == 1);
        assert(f64_unit(b as nat) == unit) by (nonlinear_arith)
            requires
                f64_unit(b as nat) == unit * x,
                x == 1,
        ;
    }
    let m = round_half_even_u128(b as u128, unit);
    proof {
        assert(m <= b as u128 / unit + 1);
        assert(m * unit <= 0x2_0000_0000_0000_0000) by (nonlinear_arith)
            requires
                m <= b as u128 / unit + 1,
                (b as u128) / unit < 0x20_0000_0000_0000,
                unit <= 4096,
        ;
    }
    m * unit
}

// ---------------------------------------------------------------------------
// Short share ids
// ---------------------------------------------------------------------------

/// The length of a share id.
pub const ID_LEN: usize = 6;

/// The `i`-th character of the id alphabet `a`..`z`, `0`..`9`.
pub open spec fn id_char(i: nat) -> char {
    if i < 26 {
        ((97 + i) as u8) as char
    } else {
        ((22 + i) as u8) as char
    }
}

/// One step of the 64-bit linear congruential generator that scrambles the seed.
pub open spec fn lcg_step(n: u64) -> u64 {
    (((n as nat * 6364136223846793005nat) % 0x1_0000_0000_0000_0000nat + 1442695040888963407nat)
        % 0x1_0000_0000_0000_0000nat) as u64
}

/// The first `k` id characters drawn from seed `n`.
pub open spec fn id_from_seed(n: u64, k: nat) -> Seq<char>
    decreases k,
{
    if k == 0 {
        seq![]
    } else {
        seq![id_char((n % 36) as nat)] + id_from_seed(lcg_step(n), (k - 1) as nat)
    }
}

fn id_char_of(i: u64) -> (c: char)
    requires
        i < 36,
    ensures
        c == id_char(i as nat),
{
    if i < 26 {
        ((97 + i) as u8) as char
    } else {
        ((22 + i) as u8) as char
    }
}

/// A six-character share id drawn from a seed (the clock in nanoseconds).
pub fn short_id(seed: u64) -> (id: String)
    ensures
        id@ == id_from_seed(seed, ID_LEN as nat),
{
    let mut n = seed;
    let mut id = String::new();
    let mut k: usize = 0;
    while k < ID_LEN
        invariant
            k <= ID_LEN,
            id@ + id_from_seed(n, (ID_LEN - k) as nat) == id_from_seed(seed, ID_LEN as nat),
        decreases ID_LEN - k,
    {
        let c = id_char_of(n % 36);
        proof {
            assert(id_from_seed(n, (ID_LEN - k) as nat) == seq![c] + id_from_seed(
                lcg_step(n),
                (ID_LEN - k - 1) as nat,
            ));
            assert(id@.push(c) + id_from_seed(lcg_step(n), (ID_LEN - k - 1) as nat) =~= id@ + (
            seq![c] + id_from_seed(lcg_step(n), (ID_LEN - k - 1) as nat)));
        }
        push_char(&mut id, c);
        n = n.wrapping_mul(6364136223846793005).wrapping_add(1442695040888963407);
        k = k + 1;
    }
    assert(id_from_seed(n, 0) =~= Seq::<char>::empty());
    assert(id@ + Seq::<char>::empty() =~= id@);
    id
}

// ---------------------------------------------------------------------------
// Clip titles and dates
// ---------------------------------------------------------------------------

/// Whether `s` has the shape of an ISO date, `dddd-dd-dd`.
pub open spec fn iso_date(s: Seq<char>) -> bool {
    &&& s.len() == 10
    &&& s[4] == '-' && s[7] == '-'
    &&& forall|i: int| 0 <= i < 10 && i != 4 && i != 7 ==> is_ascii_digit(#[trigger] s[i])
}

fn iso_date_at(cs: &[char], lo: usize) -> (b: bool)
    requires
        lo + 10 <= cs.len(),
    ensures
        b == iso_date(cs@.subrange(lo as int, lo + 10)),
{
    let ghost s = cs@.subrange(lo as int, lo + 10);
    if cs[lo + 4] != '-' || cs[lo + 7] != '-' {
        assert(s[4] == cs@[lo + 4] && s[7] == cs@[lo + 7]);
        return false;
    }
    let mut i: usize = 0;
    while i < 10
        invariant
            i <= 10,
            lo + 10 <= cs.len(),
            s == cs@.subrange(lo as int, lo + 10),
            forall|j: int| 0 <= j < i && j != 4 && j != 7 ==> is_ascii_digit(#[trigger] s[j]),
        decreases 10 - i,
    {
        if i != 4 && i != 7 {
            let c = cs[lo + i];
            if c < '0' || c > '9' {
                assert(s[i as int] == c);
                return false;
            }
        }
        i = i + 1;
    }
    true
}

/// Whether `s` is an ISO date `dddd-dd-dd` (ten ASCII characters).
pub fn is_iso_date(s: &str) -> (b: bool)
    ensures
        b == iso_date(s@),
{
    let cs = chars_of(s);
    if cs.len() != 10 {
        return false;
    }
    assert(cs@.subrange(0, 10) =~= cs@);
    iso_date_at(cs.as_slice(), 0)
}

/// A file name without its last extension (what `rsplit_once('.')` keeps).
pub open spec fn file_stem_text(f: Seq<char>) -> Seq<char> {
    if last_index_of(f, '.') >= 0 {
        f.take(last_index_of(f, '.'))
    } else {
        f
    }
}

/// Whether an underscore at `p` is followed by an ISO date.
pub open spec fn date_at(stem: Seq<char>, p: int) -> bool {
    &&& 0 <= p
    &&& p + 11 <= stem.len()
    &&& stem[p] == '_'
    &&& iso_date(stem.subrange(p + 1, p + 11))
}

/// The first position at or after `i` where an underscore-date starts.
pub open spec fn first_date_from(stem: Seq<char>, i: int) -> Option<int>
    decreases stem.len() - i,
{
    if i < 0 || i >= stem.len() {
        None
    } else if date_at(stem, i) {
        Some(i)
    } else {
        first_date_from(stem, i + 1)
    }
}

/// The byte offset of the character at `p` in the UTF-8 encoding of `s`.
pub open spec fn byte_offset(s: Seq<char>, p: int) -> int {
    encode_utf8(s.take(p)).len() as int
}

/// The inputs on which splitting a file name does not slice a string inside a
/// character: every underscore examined before the date is found is followed,
/// eleven bytes on, by the end of the stem or by a character boundary.
pub open spec fn split_filename_defined(f: Seq<char>) -> bool {
    let stem = file_stem_text(f);
    let bytes = encode_utf8(stem);
    let stop = match first_date_from(stem, 0) {
        Some(p) => p,
        None => stem.len() as int,
    };
    forall|p: int|
        0 <= p < stop && #[trigger] stem[p] == '_' ==> byte_offset(stem, p) + 11 > bytes.len()
            || is_char_boundary(bytes, byte_offset(stem, p) + 11)
}

/// The title and ISO date a clip's file name carries: the text before the
/// first `_dddd-dd-dd` of the stem and that date, or the whole stem and "".
pub open spec fn split_filename_spec(f: Seq<char>) -> (Seq<char>, Seq<char>) {
    let stem = file_stem_text(f);
    match first_date_from(stem, 0) {
        Some(p) => (stem.take(p), stem.subrange(p + 1, p + 11)),
        None => (stem, Seq::empty()),
    }
}

/// Splits a clip file name into its title and date:
/// `"Sober_2026-05-22.mp4"` gives `("Sober", "2026-05-22")`.
pub fn split_filename(filename: &str) -> (r: (String, String))
    requires
        split_filename_defined(filename@),
    ensures
        (r.0@, r.1@) == split_filename_spec(filename@),
{
    let cs = chars_of(filename);
    proof {
        lemma_last_index_of_bounds(cs@, '.');
    }
    let stem_len = match find_last(cs.as_slice(), '.') {
        Some(i) => i,
        None => cs.len(),
    };
    let ghost stem = file_stem_text(filename@);
    assert(stem =~= cs@.take(stem_len as int));
    let mut i: usize = 0;
    while i < stem_len
        invariant
            i <= stem_len <= cs@.len(),
            stem == cs@.take(stem_len as int),
            stem == file_stem_text(filename@),
            first_date_from(stem, 0) == first_date_from(stem, i as int),
        decreases stem_len - i,
    {
        if cs[i] == '_' && stem_len - i >= 11 {
            let found = iso_date_at(cs.as_slice(), i + 1);
            assert(cs@.subrange(i + 1, i + 11) =~= stem.subrange(i + 1, i + 11));
            if found {
                let title = substring(cs.as_slice(), 0, i);
                let date = substring(cs.as_slice(), i + 1, i + 11);
                assert(title@ =~= stem.take(i as int));
                assert(date@ =~= stem.subrange(i + 1, i + 11));
                assert(date_at(stem, i as int));
                assert(first_date_from(stem, i as int) == Some(i as int));
                assert(first_date_from(stem, 0) == Some(i as int));
                assert(split_filename_spec(filename@) == (stem.take(i as int), stem.subrange(
                    i + 1,
                    i + 11,
                )));
                return (title, date);
            }
        }
        i = i + 1;
    }
    let title = substring(cs.as_slice(), 0, stem_len);
    assert(title@ =~= stem);
    (title, String::new())
}

/// The UTF-8 encoding of `a + b` is that of `a` followed by that of `b`.
proof fn lemma_encode_utf8_concat(a: Seq<char>, b: Seq<char>)
    ensures
        encode_utf8(a + b) == encode_utf8(a) + encode_utf8(b),
    decreases a.len(),
{
    if a.len() == 0 {
        assert(a + b =~= b);
        assert(encode_utf8(a) + encode_utf8(b) =~= encode_utf8(b));
    } else {
        lemma_encode_utf8_concat(a.drop_first(), b);
        assert((a + b).drop_first() =~= a.drop_first() + b);
        assert((a + b)[0] == a[0]);
        let head = encode_scalar(a[0] as u32);
        assert(head + (encode_utf8(a.drop_first()) + encode_utf8(b)) =~= (head + encode_utf8(
            a.drop_first(),
        )) + encode_utf8(b));
    }
}

/// Moving one character on adds that character's encoded length to the byte
/// offset, and no offset passes the length of the whole encoding.
proof fn lemma_byte_offset_step(s: Seq<char>, i: int)
    requires
        0 <= i < s.len(),
    ensures
        byte_offset(s, i + 1) == byte_offset(s, i) + encode_scalar(s[i] as u32).len(),
        byte_offset(s, i + 1) <= encode_utf8(s).len(),
{
    let c = seq![s[i]];
    assert(s.take(i + 1) =~= s.take(i) + c);
    lemma_encode_utf8_concat(s.take(i), c);
    assert(c.drop_first() =~= Seq::<char>::empty());
    assert(encode_utf8(c.drop_first()) =~= Seq::<u8>::empty());
    assert(encode_utf8(c) =~= encode_scalar(s[i] as u32));
    assert(s =~= s.take(i + 1) + s.skip(i + 1));
    lemma_encode_utf8_concat(s.take(i + 1), s.skip(i + 1));
}

/// The number of bytes of the UTF-8 encoding of `c`.
fn utf8_len(c: char) -> (n: usize)
    ensures
        n == encode_scalar(c as u32).len(),
{
    proof {
        char_is_scalar(c);
    }
    let v = c as u32;
    if v <= 0x7f {
        1
    } else if v <= 0x7ff {
        2
    } else if v <= 0xffff {
        3
    } else {
        4
    }
}

/// Whether `split_filename` may be called on `filename`: its scan for the
/// date never slices the stem inside a character.
pub fn can_split_filename(filename: &str) -> (r: bool)
    ensures
        r == split_filename_defined(filename@),
{
    let cs = chars_of(filename);
    proof {
        lemma_last_index_of_bounds(cs@, '.');
    }
    let stem_len = match find_last(cs.as_slice(), '.') {
        Some(i) => i,
        None => cs.len(),
    };
    let ghost stem = file_stem_text(filename@);
    assert(stem =~= cs@.take(stem_len as int));
    let stem_str = substring(cs.as_slice(), 0, stem_len);
    assert(stem_str@ =~= stem);
    let nbytes = stem_str.as_str().as_bytes().len();
    let ghost bytes = encode_utf8(stem);
    let mut off: usize = 0;
    let mut i: usize = 0;
    assert(stem.take(0) =~= Seq::<char>::empty());
    while i < stem_len
        invariant
            i <= stem_len <= cs@.len(),
            stem == cs@.take(stem_len as int),
            stem == file_stem_text(filename@),
            stem_str@ == stem,
            bytes == encode_utf8(stem),
            nbytes == bytes.len(),
            off == byte_offset(stem, i as int),
            first_date_from(stem, 0) == first_date_from(stem, i as int),
            forall|p: int|
                0 <= p < i && #[trigger] stem[p] == '_' ==> byte_offset(stem, p) + 11 > bytes.len()
                    || is_char_boundary(bytes, byte_offset(stem, p) + 11),
        decreases stem_len - i,
    {
        if cs[i] == '_' {
            let mut dated = false;
            if stem_len - i >= 11 {
                dated = iso_date_at(cs.as_slice(), i + 1);
                assert(cs@.subrange(i + 1, i + 11) =~= stem.subrange(i + 1, i + 11));
            }
            if dated {
                assert(date_at(stem, i as int));
                assert(first_date_from(stem, i as int) == Some(i as int));
                return true;
            }
            assert(!date_at(stem, i as int));
            proof {
                lemma_first_date_from_found(stem, i + 1);
            }
            if nbytes >= 11 && off <= nbytes - 11 {
                if !stem_str.as_str().is_char_boundary(off + 11) {
                    assert(stem[i as int] == '_');
                    assert(first_date_from(stem, i as int) == first_date_from(stem, i + 1));
                    assert(!(byte_offset(stem, i as int) + 11 > bytes.len() || is_char_boundary(
                        bytes,
                        byte_offset(stem, i as int) + 11,
                    )));
                    return false;
                }
            }
        } else {
            assert(!date_at(stem, i as int));
        }
        proof {
            lemma_byte_offset_step(stem, i as int);
        }
        off = off + utf8_len(cs[i]);
        i = i + 1;
    }
    true
}

/// The three-letter English name of month `m` (1 to 12).
pub open spec fn month_abbrev(m: nat) -> Seq<char> {
    if m == 1 {
        seq!['J', 'a', 'n']
    } else if m == 2 {
        seq!['F', 'e', 'b']
    } else if m == 3 {
        seq!['M', 'a', 'r']
    } else if m == 4 {
        seq!['A', 'p', 'r']
    } else if m == 5 {
        seq!['M', 'a', 'y']
    } else if m == 6 {
        seq!['J', 'u', 'n']
    } else if m == 7 {
        seq!['J', 'u', 'l']
    } else if m == 8 {
        seq!['A', 'u', 'g']
    } else if m == 9 {
        seq!['S', 'e', 'p']
    } else if m == 10 {
        seq!['O', 'c', 't']
    } else if m == 11 {
        seq!['N', 'o', 'v']
    } else {
        seq!['D', 'e', 'c']
    }
}

fn month_abbrev_chars(m: usize) -> (r: Vec<char>)
    requires
        1 <= m <= 12,
    ensures
        r@ == month_abbrev(m as nat),
{
    let r = if m == 1 {
        vec!['J', 'a', 'n']
    } else if m == 2 {
        vec!['F', 'e', 'b']
    } else if m == 3 {
        vec!['M', 'a', 'r']
    } else if m == 4 {
        vec!['A', 'p', 'r']
    } else if m == 5 {
        vec!['M', 'a', 'y']
    } else if m == 6 {
        vec!['J', 'u', 'n']
    } else if m == 7 {
        vec!['J', 'u', 'l']
    } else if m == 8 {
        vec!['A', 'u', 'g']
    } else if m == 9 {
        vec!['S', 'e', 'p']
    } else if m == 10 {
        vec!['O', 'c', 't']
    } else if m == 11 {
        vec!['N', 'o', 'v']
    } else {
        vec!['D', 'e', 'c']
    };
    assert(r@ =~= month_abbrev(m as nat));
    r
}

/// The inputs on which `pretty_date` slices only at character boundaries.
pub open spec fn pretty_date_defined(date: Seq<char>) -> bool {
    let b = encode_utf8(date);
    b.len() >= 10 ==> {
        &&& is_char_boundary(b, 4)
        &&& is_char_boundary(b, 5)
        &&& is_char_boundary(b, 7)
        &&& is_char_boundary(b, 8)
        &&& is_char_boundary(b, 10)
    }
}

/// Whether `pretty_date` may be called on `date`: every place it slices
/// the date is a character boundary.
pub fn can_pretty_date(date: &str) -> (r: bool)
    ensures
        r == pretty_date_defined(date@),
{
    let n = date.as_bytes().len();
    n < 10 || (date.is_char_boundary(4) && date.is_char_boundary(5) && date.is_char_boundary(7)
        && date.is_char_boundary(8) && date.is_char_boundary(10))
}

/// A date as the embed page shows it: with bytes 5..7 read as a month from
/// 1 to 12 (a field that does not parse counts as 1, as does the day in
/// bytes 8..10), `"Mon D, YYYY"`; otherwise the date unchanged.
pub open spec fn pretty_date_spec(date: Seq<char>) -> Seq<char> {
    let b = encode_utf8(date);
    if b.len() < 10 {
        date
    } else {
        let month = match parse_usize(b.subrange(5, 7)) {
            Some(m) => m as nat,
            None => 1,
        };
        let day = match parse_usize(b.subrange(8, 10)) {
            Some(d) => d as nat,
            None => 1,
        };
        if 1 <= month <= 12 {
            month_abbrev(month) + seq![' '] + decimal(day) + seq![',', ' '] + decode_utf8(
                b.subrange(0, 4),
            )
        } else {
            date
        }
    }
}

fn parse_field(b: &[u8], lo: usize) -> (r: usize)
    requires
        lo + 2 <= b@.len(),
    ensures
        r == match parse_usize(b@.subrange(lo as int, lo + 2)) {
            Some(v) => v,
            None => 1,
        },
{
    let field = vec![b[lo], b[lo + 1]];
    assert(field@ =~= b@.subrange(lo as int, lo + 2));
    match parse_usize_bytes(field.as_slice()) {
        Some(v) => v,
        None => 1,
    }
}

/// Formats an ISO date for people: `"2026-05-22"` gives `"May 22, 2026"`.
pub fn pretty_date(date: &str) -> (r: String)
    requires
        pretty_date_defined(date@),
    ensures
        r@ == pretty_date_spec(date@),
{
    let b = date.as_bytes();
    if b.len() < 10 {
        return date.to_string();
    }
    let month = parse_field(b, 5);
    let day = parse_field(b, 8);
    let (year, _) = date.split_at(4);
    if 1 <= month && month <= 12 {
        let mon = month_abbrev_chars(month);
        let mut r = string_from_chars_vec(&mon);
        push_char(&mut r, ' ');
        let d = decimal_string(day as u64);
        r.append(d.as_str());
        push_char(&mut r, ',');
        push_char(&mut r, ' ');
        r.append(year);
        proof {
            vstd::utf8::encode_utf8_decode_utf8(year@);
            assert(year@ == decode_utf8(encode_utf8(date@).subrange(0, 4)));
        }
        assert(r@ =~= pretty_date_spec(date@));
        r
    } else {
        date.to_string()
    }
}

fn string_from_chars_vec(v: &Vec<char>) -> (r: String)
    ensures
        r@ == v@,
{
    crate::text::string_from_chars(v.as_slice())
}

// ---------------------------------------------------------------------------
// The embed page
// ---------------------------------------------------------------------------

/// The "Clipped with Klyppd" line of the embed page, with the date when there is one.
pub open spec fn embed_description(date: Seq<char>) -> Seq<char> {
    if date.len() == 0 {
        "Clipped with Klyppd"@
    } else {
        "Clipped with Klyppd · "@ + date
    }
}

/// The site name shown in link previews: "Clipped with Klyppd" and the
/// clip's size.
pub open spec fn embed_site_name(size: Seq<char>) -> Seq<char> {
    "Clipped with Klyppd · "@ + size
}

/// The title shown in link previews: the clip's title, then its date in
/// brackets when there is one, as in `Sober (May 22, 2026)`.
pub open spec fn embed_title(title: Seq<char>, date: Seq<char>) -> Seq<char> {
    if date.len() == 0 {
        title
    } else {
        title + " ("@ + date + ")"@
    }
}

/// The address of the project's GitHub repository, which the footer of
/// every share page links to. It is the one place that names it.
pub const REPOSITORY_URL: &'static str = "https://github.com/klyppd/klyppd";

/// The project's repository, linked from the page footer.
pub open spec fn repository_url() -> Seq<char> {
    REPOSITORY_URL@
}

/// The HTML page that link previews and browsers see for a shared clip.
pub open spec fn embed_page(
    video: Seq<char>,
    thumb: Seq<char>,
    title: Seq<char>,
    date: Seq<char>,
    size: Seq<char>,
    w: u32,
    h: u32,
) -> Seq<char> {
    "<!doctype html>\n<html lang=\"en\"><head>\n<meta charset=\"utf-8\">\n<title>"@
        + title
        + " — klyppd</title>\n<meta property=\"og:type\" content=\"video.other\">\n<meta property=\"og:title\" content=\""@
        + embed_title(title, date)
        + "\">\n<meta property=\"og:description\" content=\""@
        + embed_description(date)
        + "\">\n<meta property=\"og:site_name\" content=\""@
        + embed_site_name(size)
        + "\">\n<meta property=\"og:image\" content=\""@
        + thumb
        + "\">\n<meta property=\"og:image:width\" content=\""@
        + decimal(w as nat)
        + "\">\n<meta property=\"og:image:height\" content=\""@
        + decimal(h as nat)
        + "\">\n<meta property=\"og:video\" content=\""@
        + video
        + "\">\n<meta property=\"og:video:secure_url\" content=\""@
        + video
        + "\">\n<meta property=\"og:video:type\" content=\"video/mp4\">\n<meta property=\"og:video:width\" content=\""@
        + decimal(w as nat)
        + "\">\n<meta property=\"og:video:height\" content=\""@
        + decimal(h as nat)
        + "\">\n<meta name=\"twitter:card\" content=\"player\">\n<meta name=\"twitter:title\" content=\""@
        + embed_title(title, date)
        + "\">\n<meta name=\"twitter:description\" content=\""@
        + embed_description(date)
        + "\">\n<meta name=\"twitter:image\" content=\""@
        + thumb
        + "\">\n<meta name=\"twitter:player\" content=\""@
        + video
        + "\">\n<meta name=\"twitter:player:stream\" content=\""@
        + video
        + "\">\n<meta name=\"twitter:player:stream:content_type\" content=\"video/mp4\">\n<meta name=\"twitter:player:width\" content=\""@
        + decimal(w as nat)
        + "\">\n<meta name=\"twitter:player:height\" content=\""@
        + decimal(h as nat)
        + "\">\n<meta name=\"theme-color\" content=\"#9accfa\">\n<style>\n*{box-sizing:border-box;margin:0;padding:0}\nbody{background:#0b0f12;color:#e0e2e8;font-family:-apple-system,'Inter','Segoe UI',sans-serif;display:flex;flex-direction:column;align-items:center;justify-content:center;min-height:100vh;padding:24px;font-size:14px}\n.head{display:flex;align-items:baseline;gap:8px;margin-bottom:14px;font-size:12px;color:#8c9198}\n.brand{color:#9accfa;font-weight:600}\n.size{color:#42474e}\n.wrap{max-width:1100px;width:100%}\nvideo{width:100%;border-radius:8px;background:#000;display:block;box-shadow:0 8px 30px rgba(0,0,0,.5)}\n.title{margin-top:16px;font-size:22px;font-weight:600;letter-spacing:-.01em}\n.sub{margin-top:6px;font-size:13px;color:#8c9198}\n.foot{margin-top:18px;padding-top:14px;border-top:1px solid #1c2024;font-size:11px;color:#42474e;display:flex;justify-content:space-between}\n.foot a{color:#9accfa;text-decoration:none}\n</style></head>\n<body>\n<div class=\"wrap\">\n<div class=\"head\"><span class=\"brand\">klyppd</span><span class=\"size\">"@
        + size
        + "</span></div>\n<video src=\""@
        + video
        + "\" controls autoplay playsinline poster=\""@
        + thumb
        + "\"></video>\n<div class=\"title\">"@
        + title
        + "</div>\n<div class=\"sub\">"@
        + embed_description(date)
        + "</div>\n<div class=\"foot\"><span>"@
        + date
        + "</span><span>Clipped with <a href=\""@
        + repository_url()
        + "\">Klyppd</a></span></div>\n</div>\n</body></html>"@
}

/// Builds the embed page of a shared clip: Open Graph and Twitter player
/// metadata around the video, its poster image, title, date and size.
pub fn build_embed(
    video: &str,
    thumb: &str,
    title: &str,
    date: &str,
    size: &str,
    w: u32,
    h: u32,
) -> (r: String)
    ensures
        r@ == embed_page(video@, thumb@, title@, date@, size@, w, h),
{
    let mut site = "Clipped with Klyppd · ".to_string();
    site.append(size);
    let mut shown_title = title.to_string();
    if !date.is_empty() {
        shown_title.append(" (");
        shown_title.append(date);
        shown_title.append(")");
    }
    let desc = if date.is_empty() {
        "Clipped with Klyppd".to_string()
    } else {
        let mut d = "Clipped with Klyppd · ".to_string();
        d.append(date);
        d
    };
    let ws = decimal_string(w as u64);
    let hs = decimal_string(h as u64);
    let mut r = "<!doctype html>\n<html lang=\"en\"><head>\n<meta charset=\"utf-8\">\n<title>".to_string();
    r.append(title);
    r.append(" — klyppd</title>\n<meta property=\"og:type\" content=\"video.other\">\n<meta property=\"og:title\" content=\"");
    r.append(shown_title.as_str());
    r.append("\">\n<meta property=\"og:description\" content=\"");
    r.append(desc.as_str());
    r.append("\">\n<meta property=\"og:site_name\" content=\"");
    r.append(site.as_str());
    r.append("\">\n<meta property=\"og:image\" content=\"");
    r.append(thumb);
    r.append("\">\n<meta property=\"og:image:width\" content=\"");
    r.append(ws.as_str());
    r.append("\">\n<meta property=\"og:image:height\" content=\"");
    r.append(hs.as_str());
    r.append("\">\n<meta property=\"og:video\" content=\"");
    r.append(video);
    r.append("\">\n<meta property=\"og:video:secure_url\" content=\"");
    r.append(video);
    r.append("\">\n<meta property=\"og:video:type\" content=\"video/mp4\">\n<meta property=\"og:video:width\" content=\"");
    r.append(ws.as_str());
    r.append("\">\n<meta property=\"og:video:height\" content=\"");
    r.append(hs.as_str());
    r.append("\">\n<meta name=\"twitter:card\" content=\"player\">\n<meta name=\"twitter:title\" content=\"");
    r.append(shown_title.as_str());
    r.append("\">\n<meta name=\"twitter:description\" content=\"");
    r.append(desc.as_str());
    r.append("\">\n<meta name=\"twitter:image\" content=\"");
    r.append(thumb);
    r.append("\">\n<meta name=\"twitter:player\" content=\"");
    r.append(video);
    r.append("\">\n<meta name=\"twitter:player:stream\" content=\"");
    r.append(video);
    r.append("\">\n<meta name=\"twitter:player:stream:content_type\" content=\"video/mp4\">\n<meta name=\"twitter:player:width\" content=\"");
    r.append(ws.as_str());
    r.append("\">\n<meta name=\"twitter:player:height\" content=\"");
    r.append(hs.as_str());
    r.append("\">\n<meta name=\"theme-color\" content=\"#9accfa\">\n<style>\n*{box-sizing:border-box;margin:0;padding:0}\nbody{background:#0b0f12;color:#e0e2e8;font-family:-apple-system,'Inter','Segoe UI',sans-serif;display:flex;flex-direction:column;align-items:center;justify-content:center;min-height:100vh;padding:24px;font-size:14px}\n.head{display:flex;align-items:baseline;gap:8px;margin-bottom:14px;font-size:12px;color:#8c9198}\n.brand{color:#9accfa;font-weight:600}\n.size{color:#42474e}\n.wrap{max-width:1100px;width:100%}\nvideo{width:100%;border-radius:8px;background:#000;display:block;box-shadow:0 8px 30px rgba(0,0,0,.5)}\n.title{margin-top:16px;font-size:22px;font-weight:600;letter-spacing:-.01em}\n.sub{margin-top:6px;font-size:13px;color:#8c9198}\n.foot{margin-top:18px;padding-top:14px;border-top:1px solid #1c2024;font-size:11px;color:#42474e;display:flex;justify-content:space-between}\n.foot a{color:#9accfa;text-decoration:none}\n</style></head>\n<body>\n<div class=\"wrap\">\n<div class=\"head\"><span class=\"brand\">klyppd</span><span class=\"size\">");
    r.append(size);
    r.append("</span></div>\n<video src=\"");
    r.append(video);
    r.append("\" controls autoplay playsinline poster=\"");
    r.append(thumb);
    r.append("\"></video>\n<div class=\"title\">");
    r.append(title);
    r.append("</div>\n<div class=\"sub\">");
    r.append(desc.as_str());
    r.append("</div>\n<div class=\"foot\"><span>");
    r.append(date);
    r.append("</span><span>Clipped with <a href=\"");
    r.append(REPOSITORY_URL);
    r.append("\">Klyppd</a></span></div>\n</div>\n</body></html>");
    r
}

// ---------------------------------------------------------------------------
// Object keys and URLs
// ---------------------------------------------------------------------------

/// `s` without `suffix`, when it ends with it.
pub open spec fn strip_suffix_spec(s: Seq<char>, suffix: Seq<char>) -> Option<Seq<char>> {
    if suffix.len() <= s.len() && s.skip(s.len() - suffix.len()) == suffix {
        Some(s.take(s.len() - suffix.len()))
    } else {
        None
    }
}

/// The file extensions a share's objects may carry, in the order they are tried.
pub open spec fn object_extensions() -> Seq<Seq<char>> {
    seq![".html"@, ".mp4"@, ".mkv"@, ".webm"@, ".jpg"@]
}

/// `key` without the first of `exts` (from index `i` on) that ends it.
pub open spec fn strip_first_suffix(key: Seq<char>, exts: Seq<Seq<char>>, i: int) -> Seq<char>
    decreases exts.len() - i,
{
    if i < 0 || i >= exts.len() {
        key
    } else {
        match strip_suffix_spec(key, exts[i]) {
            Some(base) => base,
            None => strip_first_suffix(key, exts, i + 1),
        }
    }
}

/// The base key of a share: `key` without a `.html`, `.mp4`, `.mkv`,
/// `.webm` or `.jpg` ending (the first of these that matches).
pub open spec fn strip_video_ext_spec(key: Seq<char>) -> Seq<char> {
    strip_first_suffix(key, object_extensions(), 0)
}

fn strip_suffix_exec(key: &Vec<char>, suffix: &str) -> (r: Option<Vec<char>>)
    ensures
        match r {
            Some(b) => strip_suffix_spec(key@, suffix@) == Some(b@),
            None => strip_suffix_spec(key@, suffix@) is None,
        },
{
    let suf = chars_of(suffix);
    if suf.len() > key.len() {
        return None;
    }
    let off = key.len() - suf.len();
    let mut k: usize = 0;
    while k < suf.len()
        invariant
            k <= suf@.len(),
            off + suf.len() == key.len(),
            suf@ == suffix@,
            forall|j: int| 0 <= j < k ==> key@[off + j] == suf@[j],
        decreases suf@.len() - k,
    {
        if key[off + k] != suf[k] {
            assert(key@.skip(off as int)[k as int] != suf@[k as int]);
            return None;
        }
        k = k + 1;
    }
    assert(key@.skip(off as int) =~= suf@);
    Some(copy_chars(key.as_slice(), 0, off))
}

/// The base key of a share, from any of its objects' keys.
pub fn strip_video_ext(key: &str) -> (r: String)
    ensures
        r@ == strip_video_ext_spec(key@),
{
    let k = chars_of(key);
    let exts: [&str; 5] = [".html", ".mp4", ".mkv", ".webm", ".jpg"];
    let mut i: usize = 0;
    proof {
        reveal_strlit(".html");
    }
    assert(exts@.len() == 5);
    while i < 5
        invariant
            i <= 5,
            k@ == key@,
            exts@ == seq![".html", ".mp4", ".mkv", ".webm", ".jpg"],
            strip_video_ext_spec(key@) == strip_first_suffix(key@, object_extensions(), i as int),
        decreases 5 - i,
    {
        assert(exts@[i as int]@ == object_extensions()[i as int]);
        match strip_suffix_exec(&k, exts[i]) {
            Some(base) => {
                return string_from_chars_vec(&base);
            },
            None => {},
        }
        i = i + 1;
    }
    key.to_string()
}

/// The keys removed when a share is deleted: its base key and that key with
/// each video, and the thumbnail, extension.
pub open spec fn delete_keys_spec(key: Seq<char>) -> Seq<Seq<char>> {
    let base = strip_video_ext_spec(key);
    seq![base, base + ".mp4"@, base + ".mkv"@, base + ".webm"@, base + ".jpg"@]
}

/// The object keys to delete for a share, given any of its keys.
pub fn delete_keys(key: &str) -> (r: Vec<String>)
    ensures
        r.deep_view() == delete_keys_spec(key@),
{
    let base = strip_video_ext(key);
    let mut r: Vec<String> = Vec::new();
    r.push(base.clone());
    let mut a = base.clone();
    a.append(".mp4");
    r.push(a);
    let mut b = base.clone();
    b.append(".mkv");
    r.push(b);
    let mut c = base.clone();
    c.append(".webm");
    r.push(c);
    let mut d = base.clone();
    d.append(".jpg");
    r.push(d);
    assert(r.deep_view() =~= delete_keys_spec(key@));
    r
}

/// `s` without trailing slashes (`trim_end_matches('/')`).
pub open spec fn trim_trailing_slashes(s: Seq<char>) -> Seq<char>
    decreases s.len(),
{
    if s.len() > 0 && s.last() == '/' {
        trim_trailing_slashes(s.drop_last())
    } else {
        s
    }
}

/// Where a share's objects go and where they can be fetched.
pub struct UploadPlan {
    pub video_key: String,
    pub thumb_key: String,
    pub html_key: String,
    pub video_content_type: String,
    pub video_url: String,
    pub thumb_url: String,
    pub page_url: String,
}

/// The extension a clip is uploaded under: its file's, or `mp4`.
pub open spec fn upload_extension(clip_path: Seq<char>) -> Seq<char> {
    match extension_spec(clip_path) {
        Some(e) => e,
        None => "mp4"@,
    }
}

/// The folder of a share: `p` for permanent ones, `t` for temporary ones.
pub open spec fn share_prefix(permanent: bool) -> Seq<char> {
    if permanent {
        "p"@
    } else {
        "t"@
    }
}

/// The key of a share's page, `<prefix>/<id>`.
pub open spec fn html_key_spec(permanent: bool, id: Seq<char>) -> Seq<char> {
    share_prefix(permanent) + seq!['/'] + id
}

/// Whether `plan` is the plan for uploading the clip at `clip_path` under
/// `id`: the video at `<prefix>/<id>.<ext>` typed `video/<ext>`, the
/// thumbnail at `<prefix>/<id>.jpg`, the page at `<prefix>/<id>`, each URL
/// the custom domain (without trailing slashes), a slash and the key.
pub open spec fn is_upload_plan(
    plan: UploadPlan,
    custom_domain: Seq<char>,
    clip_path: Seq<char>,
    permanent: bool,
    id: Seq<char>,
) -> bool {
    let ext = upload_extension(clip_path);
    let html = html_key_spec(permanent, id);
    let domain = trim_trailing_slashes(custom_domain);
    &&& plan.html_key@ == html
    &&& plan.video_key@ == html + seq!['.'] + ext
    &&& plan.thumb_key@ == html + ".jpg"@
    &&& plan.video_content_type@ == "video/"@ + ext
    &&& plan.video_url@ == domain + seq!['/'] + plan.video_key@
    &&& plan.thumb_url@ == domain + seq!['/'] + plan.thumb_key@
    &&& plan.page_url@ == domain + seq!['/'] + html
}

fn trim_slashes_exec(s: &str) -> (r: String)
    ensures
        r@ == trim_trailing_slashes(s@),
{
    let cs = chars_of(s);
    let mut n = cs.len();
    assert(cs@.take(n as int) =~= cs@);
    while n > 0 && cs[n - 1] == '/'
        invariant
            n <= cs@.len(),
            trim_trailing_slashes(s@) == trim_trailing_slashes(cs@.take(n as int)),
            cs@ == s@,
        decreases n,
    {
        assert(cs@.take(n as int).drop_last() =~= cs@.take(n - 1));
        n = n - 1;
    }
    crate::text::substring(cs.as_slice(), 0, n)
}

fn joined_url(domain: &String, key: &String) -> (r: String)
    ensures
        r@ == domain@ + seq!['/'] + key@,
{
    let mut r = domain.clone();
    push_char(&mut r, '/');
    r.append(key.as_str());
    r
}

/// The keys, content type and URLs of a share.
pub fn upload_plan(custom_domain: &str, clip_path: &str, permanent: bool, id: &str) -> (plan:
    UploadPlan)
    ensures
        is_upload_plan(plan, custom_domain@, clip_path@, permanent, id@),
{
    let ext = match extension(clip_path) {
        Some(e) => e,
        None => "mp4".to_string(),
    };
    let mut html_key = if permanent {
        "p".to_string()
    } else {
        "t".to_string()
    };
    push_char(&mut html_key, '/');
    html_key.append(id);
    let mut video_key = html_key.clone();
    push_char(&mut video_key, '.');
    video_key.append(ext.as_str());
    let mut thumb_key = html_key.clone();
    thumb_key.append(".jpg");
    let mut video_content_type = "video/".to_string();
    video_content_type.append(ext.as_str());
    let domain = trim_slashes_exec(custom_domain);
    let video_url = joined_url(&domain, &video_key);
    let thumb_url = joined_url(&domain, &thumb_key);
    let page_url = joined_url(&domain, &html_key);
    assert(ext@ == upload_extension(clip_path@));
    assert(html_key@ == html_key_spec(permanent, id@));
    assert(video_key@ == html_key@ + seq!['.'] + ext@);
    assert(thumb_key@ == html_key@ + ".jpg"@);
    assert(video_content_type@ == "video/"@ + ext@);
    assert(domain@ == trim_trailing_slashes(custom_domain@));
    UploadPlan { video_key, thumb_key, html_key, video_content_type, video_url, thumb_url, page_url }
}

/// An ISO date is ten ASCII characters, so `pretty_date` may slice it.
pub proof fn lemma_iso_date_defined(d: Seq<char>)
    requires
        iso_date(d),
    ensures
        pretty_date_defined(d),
{
    assert(vstd::utf8::is_ascii_chars(d)) by {
        assert forall|i: int| 0 <= i < d.len() implies '\0' <= #[trigger] d[i] <= '\u{7f}' by {
            if i != 4 && i != 7 {
                assert(is_ascii_digit(d[i]));
            }
        }
    }
    vstd::utf8::is_ascii_chars_encode_utf8(d);
    vstd::utf8::encode_utf8_valid_utf8(d);
    let b = encode_utf8(d);
    assert forall|i: int| 0 <= i < 10 implies is_char_boundary(b, i) by {
        assert(b[i] == d[i] as u8);
        vstd::utf8::is_char_boundary_iff_not_is_continuation_byte(b, i);
    }
    vstd::utf8::is_char_boundary_start_end_of_seq(b);
}

/// The empty date has nothing to slice.
pub proof fn lemma_empty_date_defined()
    ensures
        pretty_date_defined(Seq::<char>::empty()),
{
    assert(encode_utf8(Seq::<char>::empty()) =~= Seq::<u8>::empty());
}

/// The page a share shows: the clip's title and pretty date taken from its
/// file name, its size, the video and (when one was uploaded) the
/// thumbnail, at 1280x720.
pub open spec fn share_page_spec(
    video_url: Seq<char>,
    thumb_url: Seq<char>,
    filename: Seq<char>,
    size: u64,
) -> Seq<char> {
    let (title, date) = split_filename_spec(filename);
    embed_page(video_url, thumb_url, title, pretty_date_spec(date), fmt_bytes_spec(size), 1280, 720)
}

/// The embed page uploaded for a clip.
pub fn share_page(plan: &UploadPlan, thumbnail_uploaded: bool, filename: &str, size: u64) -> (r:
    String)
    requires
        split_filename_defined(filename@),
    ensures
        r@ == share_page_spec(
            plan.video_url@,
            if thumbnail_uploaded {
                plan.thumb_url@
            } else {
                Seq::empty()
            },
            filename@,
            size,
        ),
{
    let (title, date) = split_filename(filename);
    proof {
        let (t, d) = split_filename_spec(filename@);
        if d.len() == 0 {
            lemma_empty_date_defined();
            assert(d =~= Seq::<char>::empty());
        } else {
            let stem = file_stem_text(filename@);
            let p = first_date_from(stem, 0)->Some_0;
            lemma_first_date_from_found(stem, 0);
            lemma_iso_date_defined(d);
        }
    }
    let pretty = pretty_date(date.as_str());
    let size_text = fmt_bytes(size);
    let empty = String::new();
    let thumb = if thumbnail_uploaded {
        &plan.thumb_url
    } else {
        &empty
    };
    build_embed(
        plan.video_url.as_str(),
        thumb.as_str(),
        title.as_str(),
        pretty.as_str(),
        size_text.as_str(),
        1280,
        720,
    )
}

pub proof fn lemma_first_date_from_found(stem: Seq<char>, i: int)
    requires
        0 <= i,
    ensures
        match first_date_from(stem, i) {
            Some(p) => i <= p && date_at(stem, p),
            None => forall|q: int| i <= q < stem.len() ==> !date_at(stem, q),
        },
    decreases stem.len() - i,
{
    if !(i < 0 || i >= stem.len()) && !date_at(stem, i) {
        lemma_first_date_from_found(stem, i + 1);
    }
}

/// The folder whose objects count toward a tab's storage total.
pub open spec fn storage_prefix_spec(permanent: bool) -> Seq<char> {
    if permanent {
        "p/"@
    } else {
        "t/"@
    }
}

/// The listing prefix for permanent or temporary shares.
pub fn storage_prefix(permanent: bool) -> (r: String)
    ensures
        r@ == storage_prefix_spec(permanent),
{
    if permanent {
        "p/".to_string()
    } else {
        "t/".to_string()
    }
}

/// The continuation token of the next page of a listing, or none when the
/// listing is complete (not truncated, or truncated without a token).
pub open spec fn next_page_spec(is_truncated: Option<bool>, token: Option<Seq<char>>) -> Option<
    Seq<char>,
> {
    if !(match is_truncated {
        Some(t) => t,
        None => false,
    }) {
        None
    } else {
        token
    }
}

/// Whether to fetch another page of a listing, and with which token.
pub fn next_page(is_truncated: Option<bool>, token: Option<&str>) -> (r: Option<String>)
    ensures
        match r {
            Some(t) => next_page_spec(
                is_truncated,
                match token {
                    Some(x) => Some(x@),
                    None => None,
                },
            ) == Some(t@),
            None => next_page_spec(
                is_truncated,
                match token {
                    Some(x) => Some(x@),
                    None => None,
                },
            ) is None,
        },
{
    let truncated = match is_truncated {
        Some(t) => t,
        None => false,
    };
    if !truncated {
        return None;
    }
    match token {
        Some(t) => Some(t.to_string()),
        None => None,
    }
}

/// The size an object adds to a total: its reported size, 0 when none, a
/// negative size taken as its two's-complement bit pattern (`as u64`).
pub open spec fn object_size(size: Option<i64>) -> nat {
    match size {
        Some(v) => if v >= 0 {
            v as nat
        } else {
            (v + 0x1_0000_0000_0000_0000int) as nat
        },
        None => 0,
    }
}

/// The sum of the sizes of `sizes`.
pub open spec fn sizes_total(sizes: Seq<Option<i64>>) -> nat
    decreases sizes.len(),
{
    if sizes.len() == 0 {
        0
    } else {
        sizes_total(sizes.drop_last()) + object_size(sizes.last())
    }
}

fn object_size_exec(size: Option<i64>) -> (r: u64)
    ensures
        r == object_size(size),
{
    match size {
        Some(v) => {
            if v >= 0 {
                v as u64
            } else {
                let r = (v as i128 + 0x1_0000_0000_0000_0000i128) as u64;
                r
            }
        },
        None => 0,
    }
}

/// Adds a page of object sizes to a running total.
pub fn add_sizes(total: u64, sizes: &[Option<i64>]) -> (r: u64)
    requires
        total + sizes_total(sizes@) <= u64::MAX,
    ensures
        r == total + sizes_total(sizes@),
{
    let mut t = total;
    let mut i: usize = 0;
    while i < sizes.len()
        invariant
            i <= sizes@.len(),
            total + sizes_total(sizes@) <= u64::MAX,
            t == total + sizes_total(sizes@.take(i as int)),
        decreases sizes@.len() - i,
    {
        assert(sizes@.take(i + 1).drop_last() =~= sizes@.take(i as int));
        proof {
            lemma_sizes_total_prefix(sizes@, i + 1);
        }
        t = t + object_size_exec(sizes[i]);
        i = i + 1;
    }
    assert(sizes@.take(sizes@.len() as int) =~= sizes@);
    t
}

proof fn lemma_sizes_total_prefix(s: Seq<Option<i64>>, k: int)
    requires
        0 <= k <= s.len(),
    ensures
        sizes_total(s.take(k)) <= sizes_total(s),
    decreases s.len() - k,
{
    if k < s.len() {
        lemma_sizes_total_prefix(s, k + 1);
        assert(s.take(k + 1).drop_last() =~= s.take(k));
    } else {
        assert(s.take(k) =~= s);
    }
}

// ---------------------------------------------------------------------------
// Laws
// ---------------------------------------------------------------------------

/// Every character of a share id is a lower-case ASCII letter or a digit.
pub proof fn lemma_id_alphabet(n: u64, k: nat)
    ensures
        id_from_seed(n, k).len() == k,
        forall|i: int|
            0 <= i < k ==> ('a' <= #[trigger] id_from_seed(n, k)[i] <= 'z' || '0'
                <= id_from_seed(n, k)[i] <= '9'),
    decreases k,
{
    if k > 0 {
        lemma_id_alphabet(lcg_step(n), (k - 1) as nat);
        let c = id_char((n % 36) as nat);
        assert('a' <= c <= 'z' || '0' <= c <= '9');
        assert forall|i: int| 0 <= i < k implies ('a' <= #[trigger] id_from_seed(n, k)[i] <= 'z'
            || '0' <= id_from_seed(n, k)[i] <= '9') by {
            if i > 0 {
                assert(id_from_seed(n, k)[i] == id_from_seed(lcg_step(n), (k - 1) as nat)[i - 1]);
            }
        }
    }
}

proof fn lemma_first_date_is(stem: Seq<char>, i: int, p: int)
    requires
        0 <= i <= p,
        date_at(stem, p),
        forall|q: int| i <= q < p ==> !date_at(stem, q),
    ensures
        first_date_from(stem, i) == Some(p),
    decreases p - i,
{
    if i < p {
        lemma_first_date_is(stem, i + 1, p);
    }
}

/// A replay saved under the pending name `<app>_<date>.<ext>` (an ISO date,
/// an extension without dots) is shared under the title `app` and the date
/// `date`, unless the app name itself holds an underscore followed by an
/// ISO date, which would be taken first.
pub proof fn lemma_saved_name_splits_back(app: Seq<char>, date: Seq<char>, ext: Seq<char>)
    requires
        iso_date(date),
        forall|i: int| 0 <= i < ext.len() ==> ext[i] != '.',
        forall|p: int| 0 <= p < app.len() ==> !date_at(pending_clip_name_spec(app, date), p),
    ensures
        split_filename_spec(pending_clip_name_spec(app, date) + seq!['.'] + ext) == (app, date),
{
    let stem = pending_clip_name_spec(app, date);
    let name = stem + seq!['.'] + ext;
    lemma_last_index_after(stem, '.', ext);
    assert(name.take(stem.len() as int) =~= stem);
    assert(file_stem_text(name) == stem);
    assert(stem.subrange(app.len() + 1int, app.len() + 11int) =~= date);
    assert(stem[app.len() as int] == '_');
    assert(date_at(stem, app.len() as int));
    lemma_first_date_is(stem, 0, app.len() as int);
    assert(stem.take(app.len() as int) =~= app);
}

/// ASCII text is encoded one byte per character, each below 0x80.
proof fn lemma_encode_ascii(s: Seq<char>)
    requires
        all_ascii(s),
    ensures
        encode_utf8(s).len() == s.len(),
        forall|i: int| 0 <= i < s.len() ==> #[trigger] encode_utf8(s)[i] <= 0x7f,
    decreases s.len(),
{
    if s.len() > 0 {
        let t = s.drop_first();
        assert forall|i: int| 0 <= i < t.len() implies (#[trigger] t[i] as u32) < 128 by {
            assert(t[i] == s[i + 1]);
        }
        lemma_encode_ascii(t);
        let c = s[0] as u32;
        assert(c < 128);
        let b = (c & 0x7f) as u8;
        assert((c & 0x7f) <= 0x7f) by (bit_vector);
        assert(encode_scalar(c) =~= seq![b]);
        let e = encode_utf8(s);
        assert(e =~= seq![b] + encode_utf8(t));
        assert forall|i: int| 0 <= i < s.len() implies #[trigger] e[i] <= 0x7f by {
            if i > 0 {
                assert(e[i] == encode_utf8(t)[i - 1]);
            }
        }
    }
}

/// In the encoding of ASCII text every index up to its length is a
/// character boundary.
proof fn lemma_ascii_boundaries(s: Seq<char>)
    requires
        all_ascii(s),
    ensures
        encode_utf8(s).len() == s.len(),
        forall|i: int| 0 <= i <= s.len() ==> #[trigger] is_char_boundary(encode_utf8(s), i),
{
    lemma_encode_ascii(s);
    let b = encode_utf8(s);
    encode_utf8_valid_utf8(s);
    is_char_boundary_start_end_of_seq(b);
    assert forall|i: int| 0 <= i <= s.len() implies #[trigger] is_char_boundary(b, i) by {
        if i < s.len() {
            is_char_boundary_iff_is_leading_byte(b, i);
            assert(b[i] <= 0x7f);
        }
    }
}

/// The name of a replay saved under an ASCII app name can be split:
/// `split_filename` never slices it inside a character.
pub proof fn lemma_saved_name_splittable(app: Seq<char>, date: Seq<char>, ext: Seq<char>)
    requires
        all_ascii(app),
        iso_date(date),
        forall|i: int| 0 <= i < ext.len() ==> ext[i] != '.',
    ensures
        split_filename_defined(pending_clip_name_spec(app, date) + seq!['.'] + ext),
{
    let stem = pending_clip_name_spec(app, date);
    let name = stem + seq!['.'] + ext;
    lemma_last_index_after(stem, '.', ext);
    assert(name.take(stem.len() as int) =~= stem);
    assert(file_stem_text(name) == stem);
    assert forall|i: int| 0 <= i < stem.len() implies (#[trigger] stem[i] as u32) < 128 by {
        if i < app.len() {
            assert(stem[i] == app[i]);
        } else if i > app.len() {
            assert(stem[i] == date[i - app.len() - 1]);
            if i - app.len() - 1 != 4 && i - app.len() - 1 != 7 {
                assert(is_ascii_digit(date[i - app.len() - 1]));
            }
        }
    }
    lemma_ascii_boundaries(stem);
    let bytes = encode_utf8(stem);
    assert forall|p: int| 0 <= p < stem.len() && #[trigger] stem[p] == '_' implies byte_offset(
        stem,
        p,
    ) + 11 > bytes.len() || is_char_boundary(bytes, byte_offset(stem, p) + 11) by {
        let pre = stem.take(p);
        assert forall|i: int| 0 <= i < pre.len() implies (#[trigger] pre[i] as u32) < 128 by {
            assert(pre[i] == stem[i]);
        }
        lemma_encode_ascii(pre);
    }
}

proof fn lemma_no_suffix_without_dot(key: Seq<char>, suffix: Seq<char>)
    requires
        suffix.len() > 0,
        suffix[0] == '.',
        forall|i: int| 0 <= i < key.len() ==> key[i] != '.',
    ensures
        strip_suffix_spec(key, suffix) is None,
{
    if suffix.len() <= key.len() {
        assert(key.skip(key.len() - suffix.len())[0] == key[key.len() - suffix.len()]);
    }
}

proof fn lemma_extensions_start_with_dot()
    ensures
        forall|i: int|
            0 <= i < 5 ==> (#[trigger] object_extensions()[i]).len() > 0
                && object_extensions()[i][0] == '.',
        object_extensions().len() == 5,
{
    reveal_strlit(".html");
    reveal_strlit(".mp4");
    reveal_strlit(".mkv");
    reveal_strlit(".webm");
    reveal_strlit(".jpg");
}

proof fn lemma_strip_dotless(key: Seq<char>, i: int)
    requires
        0 <= i <= 5,
        forall|j: int| 0 <= j < key.len() ==> key[j] != '.',
    ensures
        strip_first_suffix(key, object_extensions(), i) == key,
    decreases 5 - i,
{
    lemma_extensions_start_with_dot();
    if i < 5 {
        lemma_no_suffix_without_dot(key, object_extensions()[i]);
        lemma_strip_dotless(key, i + 1);
    }
}

proof fn lemma_strip_after(base: Seq<char>, k: int)
    requires
        0 <= k < 5,
        base.len() > 0,
        forall|j: int| 0 <= j < base.len() ==> base[j] != '.',
        forall|j: int|
            0 <= j < k ==> strip_suffix_spec(base + object_extensions()[k], object_extensions()[j])
                is None,
    ensures
        strip_video_ext_spec(base + object_extensions()[k]) == base,
{
    let key = base + object_extensions()[k];
    assert forall|j: int| 0 <= j <= k implies strip_first_suffix(key, object_extensions(), j)
        == base by {
        lemma_strip_from(key, base, k, j);
    }
}

proof fn lemma_strip_from(key: Seq<char>, base: Seq<char>, k: int, j: int)
    requires
        0 <= j <= k < 5,
        key == base + object_extensions()[k],
        forall|m: int| 0 <= m < k ==> strip_suffix_spec(key, object_extensions()[m]) is None,
    ensures
        strip_first_suffix(key, object_extensions(), j) == base,
    decreases k - j,
{
    lemma_extensions_start_with_dot();
    if j < k {
        lemma_strip_from(key, base, k, j + 1);
    } else {
        let e = object_extensions()[k];
        assert(key.skip(key.len() - e.len()) =~= e);
        assert(key.take(key.len() - e.len()) =~= base);
    }
}

/// No two of the object extensions end in the same character.
proof fn lemma_extension_last_chars()
    ensures
        forall|j: int, k: int|
            0 <= j < 5 && 0 <= k < 5 && j != k ==> (#[trigger] object_extensions()[j]).last()
                != (#[trigger] object_extensions()[k]).last(),
{
    reveal_strlit(".html");
    reveal_strlit(".mp4");
    reveal_strlit(".mkv");
    reveal_strlit(".webm");
    reveal_strlit(".jpg");
    let x = object_extensions();
    assert(x[0].last() == 'l' && x[1].last() == '4' && x[2].last() == 'v' && x[3].last() == 'm'
        && x[4].last() == 'g');
}

/// Stripping a key made of any base and one of the extensions `.html`,
/// `.mp4`, `.mkv`, `.webm` or `.jpg` gives the base back: exactly one
/// suffix comes off.
pub proof fn lemma_strip_extension(base: Seq<char>, k: int)
    requires
        0 <= k < 5,
    ensures
        strip_video_ext_spec(base + object_extensions()[k]) == base,
{
    lemma_extensions_start_with_dot();
    lemma_extension_last_chars();
    let key = base + object_extensions()[k];
    let ek = object_extensions()[k];
    assert(key.last() == ek.last());
    assert forall|m: int| 0 <= m < k implies strip_suffix_spec(key, object_extensions()[m])
        is None by {
        let e = object_extensions()[m];
        if e.len() <= key.len() && key.skip(key.len() - e.len()) == e {
            assert(key.skip(key.len() - e.len())[e.len() - 1] == key.last());
            assert(e.last() != ek.last());
        }
    }
    assert forall|j: int| 0 <= j <= k implies strip_first_suffix(key, object_extensions(), j)
        == base by {
        lemma_strip_from(key, base, k, j);
    }
}

/// Deleting a share by its page key removes its page, its thumbnail and,
/// for an mp4, mkv or webm clip, its video; the video key leads back to the
/// same share. This holds for share ids without dots, as generated ones are.
pub proof fn lemma_delete_covers_upload(
    plan: UploadPlan,
    custom_domain: Seq<char>,
    clip_path: Seq<char>,
    permanent: bool,
    id: Seq<char>,
)
    requires
        is_upload_plan(plan, custom_domain, clip_path, permanent, id),
        forall|i: int| 0 <= i < id.len() ==> id[i] != '.',
    ensures
        strip_video_ext_spec(plan.html_key@) == plan.html_key@,
        delete_keys_spec(plan.html_key@)[0] == plan.html_key@,
        delete_keys_spec(plan.html_key@)[4] == plan.thumb_key@,
        strip_video_ext_spec(plan.thumb_key@) == plan.html_key@,
        upload_extension(clip_path) == "mp4"@ ==> delete_keys_spec(plan.html_key@)[1]
            == plan.video_key@ && strip_video_ext_spec(plan.video_key@) == plan.html_key@,
        upload_extension(clip_path) == "mkv"@ ==> delete_keys_spec(plan.html_key@)[2]
            == plan.video_key@ && strip_video_ext_spec(plan.video_key@) == plan.html_key@,
        upload_extension(clip_path) == "webm"@ ==> delete_keys_spec(plan.html_key@)[3]
            == plan.video_key@ && strip_video_ext_spec(plan.video_key@) == plan.html_key@,
{
    let html = plan.html_key@;
    reveal_strlit("p");
    reveal_strlit("t");
    reveal_strlit(".html");
    reveal_strlit(".mp4");
    reveal_strlit(".mkv");
    reveal_strlit(".webm");
    reveal_strlit(".jpg");
    reveal_strlit("mp4");
    reveal_strlit("mkv");
    reveal_strlit("webm");
    assert forall|j: int| 0 <= j < html.len() implies html[j] != '.' by {
        if j >= 2 {
            assert(html[j] == id[j - 2]);
        }
    }
    lemma_strip_dotless(html, 0);
    lemma_extensions_start_with_dot();
    assert(plan.thumb_key@ =~= html + object_extensions()[4]);
    lemma_strip_extension(html, 4);
    let ext = upload_extension(clip_path);
    if ext == "mp4"@ {
        let e = object_extensions()[1];
        assert(plan.video_key@ =~= html + e);
        let key = html + e;
        assert(key.skip(key.len() - 5)[0] == html[html.len() - 1]);
        lemma_strip_after(html, 1);
    }
    if ext == "mkv"@ {
        let e = object_extensions()[2];
        assert(plan.video_key@ =~= html + e);
        let key = html + e;
        assert(key.skip(key.len() - 5)[0] == html[html.len() - 1]);
        assert(key.skip(key.len() - 4)[2] != object_extensions()[1][2]);
        lemma_strip_after(html, 2);
    }
    if ext == "webm"@ {
        let e = object_extensions()[3];
        assert(plan.video_key@ =~= html + e);
        let key = html + e;
        assert(key.skip(key.len() - 5)[1] != object_extensions()[0][1]);
        assert(key.skip(key.len() - 4)[0] != object_extensions()[1][0]);
        assert(key.skip(key.len() - 4)[0] != object_extensions()[2][0]);
        lemma_strip_after(html, 3);
    }
}

} // verus!
