//! Naming clips after the focused window: reading the window class from
//! compositor output, turning it into a short app name, and looking it up
//! in `.desktop` entries.

use vstd::prelude::*;
use crate::paths::{
    extension, extension_spec, file_stem, file_stem_spec, join_spec, path_components, path_join,
    same_path,
};
use crate::text::{
    all_ascii, ascii_upper, char_is_alphanumeric, char_to_uppercase, char_upper, chars_eq, chars_of, copy_chars, find_all,
    find_seq, is_alphanumeric, lemma_rfind_from_bounds, lemma_split_on_nonempty, matches_at,
    push_char, rfind_all, rfind_seq, split_chars, split_on, lower_text, string_from_chars,
    to_lowercase, trim, trim_chars, trim_str,
};

verus! {

/// The first `"..."` value after `"key":` in a JSON text, found by plain
/// text search.
pub open spec fn extract_json_string_spec(s: Seq<char>, key: Seq<char>) -> Option<Seq<char>> {
    let needle = seq!['"'] + key + seq!['"', ':'];
    match find_seq(s, needle) {
        None => None,
        Some(i) => {
            let rest = s.skip(i + needle.len());
            match find_seq(rest, seq!['"']) {
                None => None,
                Some(o) => {
                    let after = rest.skip(o + 1);
                    match find_seq(after, seq!['"']) {
                        None => None,
                        Some(c) => Some(after.take(c)),
                    }
                },
            }
        },
    }
}

/// Reads the string value of `key` out of a JSON text without parsing it.
pub fn extract_json_string(s: &str, key: &str) -> (r: Option<String>)
    ensures
        match r {
            Some(v) => extract_json_string_spec(s@, key@) == Some(v@),
            None => extract_json_string_spec(s@, key@) is None,
        },
{
    let cs = chars_of(s);
    let mut needle: Vec<char> = vec!['"'];
    let k = chars_of(key);
    let mut j: usize = 0;
    while j < k.len()
        invariant
            j <= k@.len(),
            needle@ == seq!['"'] + k@.take(j as int),
        decreases k@.len() - j,
    {
        needle.push(k[j]);
        assert(seq!['"'] + k@.take(j + 1) =~= (seq!['"'] + k@.take(j as int)).push(k@[j as int]));
        j = j + 1;
    }
    needle.push('"');
    needle.push(':');
    assert(k@.take(k@.len() as int) =~= k@);
    assert(needle@ =~= seq!['"'] + key@ + seq!['"', ':']);
    let quote: Vec<char> = vec!['"'];
    assert(quote@ =~= seq!['"']);
    match find_all(cs.as_slice(), needle.as_slice()) {
        None => None,
        Some(i) => {
            let rest = copy_chars(cs.as_slice(), i + needle.len(), cs.len());
            assert(rest@ =~= s@.skip(i + needle@.len()));
            match find_all(rest.as_slice(), quote.as_slice()) {
                None => None,
                Some(o) => {
                    let after = copy_chars(rest.as_slice(), o + 1, rest.len());
                    assert(after@ =~= rest@.skip(o + 1));
                    match find_all(after.as_slice(), quote.as_slice()) {
                        None => None,
                        Some(c) => {
                            let v = copy_chars(after.as_slice(), 0, c);
                            assert(v@ =~= after@.take(c as int));
                            Some(string_from_chars(v.as_slice()))
                        },
                    }
                },
            }
        },
    }
}

/// The window class Hyprland reports in `hyprctl activewindow -j`, if any.
pub open spec fn hyprland_class_spec(output: Seq<char>) -> Option<Seq<char>> {
    match extract_json_string_spec(output, "class"@) {
        Some(c) => if c.len() > 0 {
            Some(c)
        } else {
            None
        },
        None => None,
    }
}

/// The focused window's class from Hyprland's JSON description of it.
pub fn hyprland_class(output: &str) -> (r: Option<String>)
    ensures
        match r {
            Some(v) => hyprland_class_spec(output@) == Some(v@),
            None => hyprland_class_spec(output@) is None,
        },
{
    match extract_json_string(output, "class") {
        Some(c) => if c.as_str().is_empty() {
            None
        } else {
            Some(c)
        },
        None => None,
    }
}

/// The text from `start` up to the next `"`, or nothing when there is none.
pub open spec fn quoted_value_at(json: Seq<char>, start: int) -> Seq<char> {
    let rest = json.skip(start);
    match find_seq(rest, seq!['"']) {
        Some(e) => rest.take(e),
        None => Seq::empty(),
    }
}

/// A value worth using as an app id: not empty and not `null`.
pub open spec fn usable_id(v: Seq<char>) -> bool {
    v.len() > 0 && v != "null"@
}

/// The value of the last `pattern` before the focused window's marker, if usable.
pub open spec fn id_before(json: Seq<char>, before: Seq<char>, pattern: Seq<char>) -> Option<
    Seq<char>,
> {
    match rfind_seq(before, pattern) {
        Some(i) => {
            let v = quoted_value_at(json, i + pattern.len());
            if usable_id(v) {
                Some(v)
            } else {
                None
            }
        },
        None => None,
    }
}

/// The app id (or else the X11 class) of the focused window in sway's
/// `get_tree` JSON: the last one written before `"focused":true`.
pub open spec fn focused_app_id_spec(json: Seq<char>) -> Option<Seq<char>> {
    match find_seq(json, "\"focused\":true"@) {
        None => None,
        Some(idx) => {
            let before = json.take(idx);
            match id_before(json, before, "\"app_id\":\""@) {
                Some(v) => Some(v),
                None => id_before(json, before, "\"class\":\""@),
            }
        },
    }
}

fn id_before_exec(json: &Vec<char>, before: &Vec<char>, pattern: &str) -> (r: Option<String>)
    requires
        before@.len() <= json@.len(),
    ensures
        match r {
            Some(v) => id_before(json@, before@, pattern@) == Some(v@),
            None => id_before(json@, before@, pattern@) is None,
        },
{
    let p = chars_of(pattern);
    match rfind_all(before.as_slice(), p.as_slice()) {
        None => None,
        Some(i) => {
            proof {
                lemma_rfind_from_bounds(before@, p@, before@.len() - p@.len());
            }
            assert(i + p@.len() <= before@.len());
            assert(before@.len() == before.len());
            let start = i + p.len();
            let rest = copy_chars(json.as_slice(), start, json.len());
            assert(rest@ =~= json@.skip(start as int));
            let quote: Vec<char> = vec!['"'];
            assert(quote@ =~= seq!['"']);
            let v = match find_all(rest.as_slice(), quote.as_slice()) {
                Some(e) => copy_chars(rest.as_slice(), 0, e),
                None => Vec::new(),
            };
            assert(v@ =~= quoted_value_at(json@, start as int));
            let null = chars_of("null");
            if v.len() > 0 && !chars_eq(&v, &null) {
                Some(string_from_chars(v.as_slice()))
            } else {
                None
            }
        },
    }
}

/// The focused window's app id (or class) from sway's window tree.
pub fn extract_focused_app_id(json: &str) -> (r: Option<String>)
    ensures
        match r {
            Some(v) => focused_app_id_spec(json@) == Some(v@),
            None => focused_app_id_spec(json@) is None,
        },
{
    let cs = chars_of(json);
    let marker = chars_of("\"focused\":true");
    match find_all(cs.as_slice(), marker.as_slice()) {
        None => None,
        Some(idx) => {
            let before = copy_chars(cs.as_slice(), 0, idx);
            assert(before@ =~= json@.take(idx as int));
            match id_before_exec(&cs, &before, "\"app_id\":\"") {
                Some(v) => Some(v),
                None => id_before_exec(&cs, &before, "\"class\":\""),
            }
        },
    }
}

/// The class GNOME Shell's `Eval` reply quotes: the trimmed text between
/// its first two single quotes, if not empty.
pub open spec fn gnome_class_spec(reply: Seq<char>) -> Option<Seq<char>> {
    match find_seq(reply, seq!['\'']) {
        None => None,
        Some(i) => {
            let rest = reply.skip(i + 1);
            match find_seq(rest, seq!['\'']) {
                None => None,
                Some(e) => {
                    let c = trim(rest.take(e));
                    if c.len() > 0 {
                        Some(c)
                    } else {
                        None
                    }
                },
            }
        },
    }
}

/// The window class in GNOME Shell's reply to the focus query.
pub fn gnome_class(reply: &str) -> (r: Option<String>)
    ensures
        match r {
            Some(v) => gnome_class_spec(reply@) == Some(v@),
            None => gnome_class_spec(reply@) is None,
        },
{
    let cs = chars_of(reply);
    let quote: Vec<char> = vec!['\''];
    assert(quote@ =~= seq!['\'']);
    match find_all(cs.as_slice(), quote.as_slice()) {
        None => None,
        Some(i) => {
            let rest = copy_chars(cs.as_slice(), i + 1, cs.len());
            assert(rest@ =~= reply@.skip(i + 1));
            match find_all(rest.as_slice(), quote.as_slice()) {
                None => None,
                Some(e) => {
                    let inner = copy_chars(rest.as_slice(), 0, e);
                    assert(inner@ =~= rest@.take(e as int));
                    let c = trim_chars(inner.as_slice());
                    if c.len() > 0 {
                        Some(string_from_chars(c.as_slice()))
                    } else {
                        None
                    }
                },
            }
        },
    }
}

/// A command's output, trimmed, when it is not empty.
pub open spec fn nonempty_trimmed_spec(text: Seq<char>) -> Option<Seq<char>> {
    if trim(text).len() > 0 {
        Some(trim(text))
    } else {
        None
    }
}

/// The trimmed output of a query (KWin, xdotool), if any.
pub fn nonempty_trimmed(text: &str) -> (r: Option<String>)
    ensures
        match r {
            Some(v) => nonempty_trimmed_spec(text@) == Some(v@),
            None => nonempty_trimmed_spec(text@) is None,
        },
{
    let t = trim_str(text);
    if t.as_str().is_empty() {
        None
    } else {
        Some(t)
    }
}

/// The D-Bus object path of a KWin window.
pub fn kde_window_object(window_id: &str) -> (r: String)
    ensures
        r@ == "/Windows/"@ + window_id@,
{
    let mut r = "/Windows/".to_string();
    r.append(window_id);
    r
}

/// Whether `char::is_alphanumeric` holds of `c`: for an ASCII character,
/// whether it is a letter or a digit; otherwise the Unicode test.
pub open spec fn alphanumeric(c: char) -> bool {
    if (c as u32) < 128 {
        'a' <= c <= 'z' || 'A' <= c <= 'Z' || '0' <= c <= '9'
    } else {
        char_is_alphanumeric(c)
    }
}

/// What `char::to_uppercase` yields for `c`: for an ASCII character, its
/// upper-case letter or itself; otherwise the Unicode mapping.
pub open spec fn upper_chars(c: char) -> Seq<char> {
    if (c as u32) < 128 {
        seq![ascii_upper(c)]
    } else {
        char_to_uppercase(c)
    }
}

/// Whether a character may stay in a clip name.
pub open spec fn keeps_char(c: char) -> bool {
    alphanumeric(c) || c == '_' || c == '-'
}

/// An ASCII letter, digit, `_` or `-`.
pub open spec fn ascii_name_char(c: char) -> bool {
    'a' <= c <= 'z' || 'A' <= c <= 'Z' || '0' <= c <= '9' || c == '_' || c == '-'
}


/// The characters of `s` that may stay in a clip name, in order.
pub open spec fn kept_chars(s: Seq<char>) -> Seq<char>
    decreases s.len(),
{
    if s.len() == 0 {
        Seq::empty()
    } else {
        let p = kept_chars(s.drop_last());
        if keeps_char(s.last()) {
            p.push(s.last())
        } else {
            p
        }
    }
}

/// A clip name made from `s`: its first 32 letters, digits, `_` and `-`,
/// the first of them upper-cased, or `Clip` when none is left.
pub open spec fn sanitize_spec(s: Seq<char>) -> Seq<char> {
    let k = kept_chars(s);
    let cleaned = if k.len() > 32 {
        k.take(32)
    } else {
        k
    };
    if cleaned.len() == 0 {
        "Clip"@
    } else {
        upper_chars(cleaned[0]) + cleaned.drop_first()
    }
}

/// Turns any text into a safe, capitalised clip name.
pub fn sanitize(s: &str) -> (r: String)
    ensures
        r@ == sanitize_spec(s@),
        r@.len() >= 1,
{
    let cs = chars_of(s);
    let mut kept: Vec<char> = Vec::new();
    let mut i: usize = 0;
    while i < cs.len()
        invariant
            i <= cs@.len(),
            cs@ == s@,
            kept@ == kept_chars(cs@.take(i as int)),
        decreases cs@.len() - i,
    {
        let c = cs[i];
        assert(cs@.take(i + 1).drop_last() =~= cs@.take(i as int));
        if is_alphanumeric(c) || c == '_' || c == '-' {
            kept.push(c);
        }
        i = i + 1;
    }
    assert(cs@.take(cs@.len() as int) =~= cs@);
    let n = if kept.len() > 32 {
        32
    } else {
        kept.len()
    };
    if n == 0 {
        proof {
            reveal_strlit("Clip");
        }
        return "Clip".to_string();
    }
    let mut r = string_from_chars(char_upper(kept[0]).as_slice());
    let mut k: usize = 1;
    while k < n
        invariant
            1 <= k <= n <= kept@.len(),
            r@ == upper_chars(kept@[0]) + kept@.subrange(1, k as int),
            r@.len() >= 1,
        decreases n - k,
    {
        push_char(&mut r, kept[k]);
        assert(upper_chars(kept@[0]) + kept@.subrange(1, k + 1) =~= (upper_chars(kept@[0])
            + kept@.subrange(1, k as int)).push(kept@[k as int]));
        k = k + 1;
    }
    proof {
        let cleaned = if kept@.len() > 32 {
            kept@.take(32)
        } else {
            kept@
        };
        assert(cleaned.drop_first() =~= kept@.subrange(1, n as int));
        assert(cleaned[0] == kept@[0]);
    }
    r
}

/// What filtering keeps: only characters that may stay, at most as many as
/// there were, all of them when every one may stay, none when none may,
/// and only ASCII ones from ASCII text.
pub proof fn lemma_kept_chars(s: Seq<char>)
    ensures
        kept_chars(s).len() <= s.len(),
        forall|i: int| 0 <= i < kept_chars(s).len() ==> keeps_char(#[trigger] kept_chars(s)[i]),
        all_ascii(s) ==> all_ascii(kept_chars(s)),
        (forall|i: int| 0 <= i < s.len() ==> keeps_char(#[trigger] s[i])) ==> kept_chars(s) == s,
        (forall|i: int| 0 <= i < s.len() ==> !keeps_char(#[trigger] s[i])) ==> kept_chars(s).len()
            == 0,
    decreases s.len(),
{
    if s.len() > 0 {
        let p = s.drop_last();
        lemma_kept_chars(p);
        assert(forall|i: int| 0 <= i < p.len() ==> p[i] == s[i]);
        if all_ascii(s) {
            assert(all_ascii(p));
        }
        if forall|i: int| 0 <= i < s.len() ==> keeps_char(#[trigger] s[i]) {
            assert(keeps_char(s[s.len() - 1]));
            assert(kept_chars(p) == p);
            assert(p.push(s.last()) =~= s);
        }
        if forall|i: int| 0 <= i < s.len() ==> !keeps_char(#[trigger] s[i]) {
            assert(!keeps_char(s[s.len() - 1]));
        }
    }
}

/// The upper-case form of an ASCII name character is again one, and
/// upper-casing it twice changes nothing more.
proof fn lemma_ascii_upper(c: char)
    requires
        ascii_name_char(c),
    ensures
        ascii_name_char(ascii_upper(c)),
        ascii_upper(ascii_upper(c)) == ascii_upper(c),
        (ascii_upper(c) as u32) < 128,
{
}

/// On ASCII text, a clip name is one to 32 ASCII letters, digits, `_` and
/// `-`, and cleaning it again gives it back unchanged.
pub proof fn lemma_sanitize_ascii(s: Seq<char>)
    requires
        all_ascii(s),
    ensures
        1 <= sanitize_spec(s).len() <= 32,
        forall|i: int|
            0 <= i < sanitize_spec(s).len() ==> ascii_name_char(#[trigger] sanitize_spec(s)[i]),
        sanitize_spec(sanitize_spec(s)) == sanitize_spec(s),
{
    reveal_strlit("Clip");
    let r = sanitize_spec(s);
    let k = kept_chars(s);
    lemma_kept_chars(s);
    let cleaned = if k.len() > 32 {
        k.take(32)
    } else {
        k
    };
    assert forall|i: int| 0 <= i < cleaned.len() implies ascii_name_char(#[trigger] cleaned[i])
        && (cleaned[i] as u32) < 128 by {
        assert(cleaned[i] == k[i]);
        assert(keeps_char(k[i]));
    }
    if cleaned.len() == 0 {
        assert(r == "Clip"@);
    } else {
        lemma_ascii_upper(cleaned[0]);
        assert(r =~= seq![ascii_upper(cleaned[0])] + cleaned.drop_first());
    }
    assert forall|i: int| 0 <= i < r.len() implies ascii_name_char(#[trigger] r[i]) && (
    r[i] as u32) < 128 by {
        if cleaned.len() > 0 && i > 0 {
            assert(r[i] == cleaned[i]);
        }
    }
    assert(all_ascii(r));
    assert forall|i: int| 0 <= i < r.len() implies keeps_char(#[trigger] r[i]) by {
        assert(ascii_name_char(r[i]));
    }
    lemma_kept_chars(r);
    assert(kept_chars(r) == r);
    if cleaned.len() > 0 {
        lemma_ascii_upper(cleaned[0]);
        assert(r[0] == ascii_upper(cleaned[0]));
        assert(r.drop_first() =~= cleaned.drop_first());
        assert(sanitize_spec(r) =~= seq![ascii_upper(r[0])] + r.drop_first());
    } else {
        assert(sanitize_spec(r) =~= seq![ascii_upper(r[0])] + r.drop_first());
    }
    assert(sanitize_spec(r) =~= r);
}

/// Text without a letter, digit, `_` or `-` becomes `Clip`.
pub proof fn lemma_sanitize_nothing_kept(s: Seq<char>)
    requires
        forall|i: int| 0 <= i < s.len() ==> !keeps_char(#[trigger] s[i]),
    ensures
        sanitize_spec(s) == "Clip"@,
{
    lemma_kept_chars(s);
}

/// Whether a character is safe in a file name: every ASCII character must
/// be a letter, a digit, `_` or `-`, which rules out `/`, `.`, ASCII
/// white space and ASCII control characters.
pub open spec fn safe_name_char(c: char) -> bool {
    (c as u32) < 128 ==> ascii_name_char(c)
}

/// The characters of a clip name after the first one kept: the next kept
/// characters, up to 32 in all.
pub open spec fn sanitize_rest(s: Seq<char>) -> Seq<char> {
    let k = kept_chars(s);
    if k.len() == 0 {
        Seq::empty()
    } else if k.len() > 32 {
        k.subrange(1, 32)
    } else {
        k.subrange(1, k.len() as int)
    }
}

/// On any text, a clip name is `Clip`, or the first letter, digit, `_` or
/// `-` upper-cased followed by at most 31 more such characters. None of
/// those is `/`, `.` or any other ASCII character but a letter, digit, `_`
/// or `-`; when the first one kept is ASCII (as in ASCII text), that holds
/// of every character of the name.
pub proof fn lemma_sanitize_safe(s: Seq<char>)
    ensures
        kept_chars(s).len() == 0 ==> sanitize_spec(s) == "Clip"@,
        kept_chars(s).len() > 0 ==> keeps_char(kept_chars(s)[0]) && sanitize_spec(s) == upper_chars(
            kept_chars(s)[0],
        ) + sanitize_rest(s),
        sanitize_rest(s).len() <= 31,
        forall|i: int|
            0 <= i < sanitize_rest(s).len() ==> keeps_char(#[trigger] sanitize_rest(s)[i])
                && safe_name_char(sanitize_rest(s)[i]),
        kept_chars(s).len() == 0 || (kept_chars(s)[0] as u32) < 128 ==> forall|i: int|
            0 <= i < sanitize_spec(s).len() ==> safe_name_char(#[trigger] sanitize_spec(s)[i]),
{
    reveal_strlit("Clip");
    lemma_kept_chars(s);
    let k = kept_chars(s);
    let cleaned = if k.len() > 32 {
        k.take(32)
    } else {
        k
    };
    let rest = sanitize_rest(s);
    if k.len() > 0 {
        assert(rest =~= cleaned.drop_first());
    }
    assert forall|i: int| 0 <= i < rest.len() implies keeps_char(#[trigger] rest[i])
        && safe_name_char(rest[i]) by {
        assert(rest[i] == k[i + 1]);
        assert(keeps_char(k[i + 1]));
    }
    if k.len() > 0 {
        assert(cleaned[0] == k[0]);
        if (k[0] as u32) < 128 {
            assert(keeps_char(k[0]));
            let r = sanitize_spec(s);
            assert(r =~= seq![ascii_upper(k[0])] + rest);
            assert forall|i: int| 0 <= i < r.len() implies safe_name_char(#[trigger] r[i]) by {
                if i > 0 {
                    assert(r[i] == rest[i - 1]);
                } else {
                    assert(ascii_name_char(k[0]));
                    lemma_ascii_upper(k[0]);
                }
            }
        }
    } else {
        let r = sanitize_spec(s);
        assert(r == "Clip"@);
        assert forall|i: int| 0 <= i < r.len() implies safe_name_char(#[trigger] r[i]) by {
        }
    }
}

/// Whether a dotted class segment is a generic word that says nothing of
/// the app (`client`, `app`, `desktop`, `main`, in any case).
pub open spec fn generic_segment(seg: Seq<char>) -> bool {
    let l = lower_text(seg);
    l == "client"@ || l == "app"@ || l == "desktop"@ || l == "main"@
}

/// The last segment, counting from the end, that is not generic.
pub open spec fn last_specific_segment(segs: Seq<Seq<char>>) -> Option<Seq<char>>
    decreases segs.len(),
{
    if segs.len() == 0 {
        None
    } else if !generic_segment(segs.last()) {
        Some(segs.last())
    } else {
        last_specific_segment(segs.drop_last())
    }
}

/// The human name of an app: the `.desktop` entry's name when one was found,
/// else the rightmost specific segment of its dotted class
/// (`com.spotify.Client` gives `Spotify`), else the whole class; sanitized.
pub open spec fn pretty_app_name_spec(class: Seq<char>, desktop_name: Option<Seq<char>>) -> Seq<
    char,
> {
    match desktop_name {
        Some(n) => sanitize_spec(n),
        None => match last_specific_segment(split_on(class, '.')) {
            Some(seg) => sanitize_spec(seg),
            None => sanitize_spec(class),
        },
    }
}

/// The pieces of ASCII text are ASCII.
proof fn lemma_split_on_ascii(s: Seq<char>, c: char)
    requires
        all_ascii(s),
    ensures
        forall|k: int| 0 <= k < split_on(s, c).len() ==> all_ascii(#[trigger] split_on(s, c)[k]),
    decreases s.len(),
{
    lemma_split_on_nonempty(s, c);
    if s.len() > 0 {
        let t = s.drop_last();
        assert forall|i: int| 0 <= i < t.len() implies (#[trigger] t[i] as u32) < 128 by {
            assert(t[i] == s[i]);
        }
        lemma_split_on_ascii(t, c);
        lemma_split_on_nonempty(t, c);
        let p = split_on(t, c);
        if s.last() != c {
            let q = p.last().push(s.last());
            assert((s.last() as u32) < 128);
            assert(all_ascii(p[p.len() - 1]));
            assert forall|i: int| 0 <= i < q.len() implies (#[trigger] q[i] as u32) < 128 by {
                if i < q.len() - 1 {
                    assert(q[i] == p.last()[i]);
                }
            }
        }
        assert forall|k: int| 0 <= k < split_on(s, c).len() implies all_ascii(
            #[trigger] split_on(s, c)[k],
        ) by {
            if k < p.len() && !(s.last() != c && k == p.len() - 1) {
                assert(split_on(s, c)[k] == p[k]);
            }
        }
    }
}

/// The segment chosen is one of the segments.
proof fn lemma_last_specific_in(segs: Seq<Seq<char>>)
    ensures
        last_specific_segment(segs) matches Some(seg) ==> exists|k: int|
            0 <= k < segs.len() && #[trigger] segs[k] == seg,
    decreases segs.len(),
{
    if segs.len() > 0 {
        if !generic_segment(segs.last()) {
            assert(segs[segs.len() - 1] == segs.last());
        } else {
            lemma_last_specific_in(segs.drop_last());
            match last_specific_segment(segs) {
                Some(seg) => {
                    let k = choose|k: int|
                        0 <= k < segs.drop_last().len() && #[trigger] segs.drop_last()[k] == seg;
                    assert(segs[k] == seg);
                },
                None => {},
            }
        }
    }
}

/// For an ASCII class (and an ASCII `.desktop` name, when there is one) the
/// app's name is one to 32 ASCII letters, digits, `_` and `-`: safe in a
/// file name.
pub proof fn lemma_pretty_app_name_ascii(class: Seq<char>, desktop_name: Option<Seq<char>>)
    requires
        all_ascii(class),
        desktop_name matches Some(n) ==> all_ascii(n),
    ensures
        1 <= pretty_app_name_spec(class, desktop_name).len() <= 32,
        forall|i: int|
            0 <= i < pretty_app_name_spec(class, desktop_name).len() ==> ascii_name_char(
                #[trigger] pretty_app_name_spec(class, desktop_name)[i],
            ),
{
    match desktop_name {
        Some(n) => lemma_sanitize_ascii(n),
        None => {
            let segs = split_on(class, '.');
            lemma_split_on_ascii(class, '.');
            lemma_last_specific_in(segs);
            match last_specific_segment(segs) {
                Some(seg) => {
                    let k = choose|k: int| 0 <= k < segs.len() && #[trigger] segs[k] == seg;
                    assert(all_ascii(segs[k]));
                    lemma_sanitize_ascii(seg);
                },
                None => lemma_sanitize_ascii(class),
            }
        },
    }
}

fn is_generic_segment(seg: &Vec<char>) -> (r: bool)
    ensures
        r == generic_segment(seg@),
{
    let s = string_from_chars(seg.as_slice());
    let l = to_lowercase(s.as_str());
    let lc = chars_of(l.as_str());
    chars_eq(&lc, &chars_of("client")) || chars_eq(&lc, &chars_of("app")) || chars_eq(
        &lc,
        &chars_of("desktop"),
    ) || chars_eq(&lc, &chars_of("main"))
}

/// The clip name for a window class, given the name its `.desktop` entry
/// gives, if one was found.
pub fn pretty_app_name(class: &str, desktop_name: Option<&str>) -> (r: String)
    ensures
        r@ == pretty_app_name_spec(
            class@,
            match desktop_name {
                Some(n) => Some(n@),
                None => None,
            },
        ),
        r@.len() >= 1,
{
    if let Some(name) = desktop_name {
        return sanitize(name);
    }
    let cs = chars_of(class);
    let segs = split_chars(cs.as_slice(), '.');
    let ghost all = split_on(class@, '.');
    let mut i: usize = segs.len();
    assert(all.take(i as int) =~= all);
    while i > 0
        invariant
            i <= segs@.len() == all.len(),
            all == split_on(class@, '.'),
            desktop_name is None,
            forall|j: int| 0 <= j < segs@.len() ==> #[trigger] segs@[j]@ == all[j],
            last_specific_segment(all) == last_specific_segment(all.take(i as int)),
        decreases i,
    {
        assert(all.take(i as int).drop_last() =~= all.take(i - 1));
        assert(all.take(i as int).last() == segs@[i - 1]@);
        if !is_generic_segment(&segs[i - 1]) {
            let seg = string_from_chars(segs[i - 1].as_slice());
            assert(last_specific_segment(all.take(i as int)) == Some(seg@));
            return sanitize(seg.as_str());
        }
        i = i - 1;
    }
    sanitize(class)
}

/// The clip name for the focused window: its app's pretty name, or `Clip`
/// when no window class could be read.
pub open spec fn capture_window_class_spec(
    class: Option<Seq<char>>,
    desktop_name: Option<Seq<char>>,
) -> Seq<char> {
    match class {
        Some(c) => pretty_app_name_spec(c, desktop_name),
        None => "Clip"@,
    }
}

/// For an ASCII class and `.desktop` name, the clip name for the focused
/// window is one to 32 ASCII letters, digits, `_` and `-`.
pub proof fn lemma_capture_window_class_ascii(
    class: Option<Seq<char>>,
    desktop_name: Option<Seq<char>>,
)
    requires
        class matches Some(c) ==> all_ascii(c),
        desktop_name matches Some(n) ==> all_ascii(n),
    ensures
        1 <= capture_window_class_spec(class, desktop_name).len() <= 32,
        forall|i: int|
            0 <= i < capture_window_class_spec(class, desktop_name).len() ==> ascii_name_char(
                #[trigger] capture_window_class_spec(class, desktop_name)[i],
            ),
{
    match class {
        Some(c) => lemma_pretty_app_name_ascii(c, desktop_name),
        None => {
            reveal_strlit("Clip");
        },
    }
}

/// Names the focused window's app, given the class the first responding
/// compositor reported and the `.desktop` name found for it.
pub fn capture_window_class(class: Option<&str>, desktop_name: Option<&str>) -> (r: String)
    ensures
        r@ == capture_window_class_spec(
            match class {
                Some(c) => Some(c@),
                None => None,
            },
            match desktop_name {
                Some(n) => Some(n@),
                None => None,
            },
        ),
        r@.len() >= 1,
{
    match class {
        Some(c) => pretty_app_name(c, desktop_name),
        None => {
            proof {
                reveal_strlit("Clip");
            }
            "Clip".to_string()
        },
    }
}

/// The lines of a text as `str::lines` gives them: split at `\n`, a `\r`
/// just before a `\n` dropped, and no empty line after a final `\n`.
pub open spec fn lines_spec(text: Seq<char>) -> Seq<Seq<char>> {
    let segs = split_on(text, '\n');
    let n = if segs.last().len() == 0 {
        segs.len() - 1
    } else {
        segs.len() as int
    };
    Seq::new(
        n as nat,
        |i: int|
            if i < segs.len() - 1 && segs[i].len() > 0 && segs[i].last() == '\r' {
                segs[i].drop_last()
            } else {
                segs[i]
            },
    )
}

/// The lines of a text (`str::lines`).
pub fn lines(text: &str) -> (r: Vec<Vec<char>>)
    ensures
        r@.len() == lines_spec(text@).len(),
        forall|i: int| 0 <= i < r@.len() ==> #[trigger] r@[i]@ == lines_spec(text@)[i],
{
    let cs = chars_of(text);
    let segs = split_chars(cs.as_slice(), '\n');
    proof {
        lemma_split_on_nonempty(text@, '\n');
    }
    let ghost all = split_on(text@, '\n');
    let n = if segs[segs.len() - 1].len() == 0 {
        segs.len() - 1
    } else {
        segs.len()
    };
    let mut r: Vec<Vec<char>> = Vec::new();
    let mut i: usize = 0;
    while i < n
        invariant
            i <= n <= segs@.len() == all.len(),
            n == lines_spec(text@).len(),
            all == split_on(text@, '\n'),
            forall|j: int| 0 <= j < segs@.len() ==> #[trigger] segs@[j]@ == all[j],
            r@.len() == i,
            forall|j: int| 0 <= j < i ==> #[trigger] r@[j]@ == lines_spec(text@)[j],
        decreases n - i,
    {
        let seg = &segs[i];
        let line = if i + 1 < segs.len() && seg.len() > 0 && seg[seg.len() - 1] == '\r' {
            copy_chars(seg.as_slice(), 0, seg.len() - 1)
        } else {
            copy_chars(seg.as_slice(), 0, seg.len())
        };
        assert(line@ =~= lines_spec(text@)[i as int]);
        r.push(line);
        i = i + 1;
    }
    r
}

/// The rest of `line` after `prefix`, when it starts with it.
pub open spec fn strip_prefix_spec(line: Seq<char>, prefix: Seq<char>) -> Option<Seq<char>> {
    if matches_at(line, prefix, 0) {
        Some(line.skip(prefix.len() as int))
    } else {
        None
    }
}

fn strip_prefix_chars(line: &Vec<char>, prefix: &Vec<char>) -> (r: Option<Vec<char>>)
    ensures
        match r {
            Some(v) => strip_prefix_spec(line@, prefix@) == Some(v@),
            None => strip_prefix_spec(line@, prefix@) is None,
        },
{
    if prefix.len() > line.len() {
        return None;
    }
    let mut k: usize = 0;
    while k < prefix.len()
        invariant
            k <= prefix@.len() <= line@.len(),
            forall|j: int| 0 <= j < k ==> line@[j] == prefix@[j],
        decreases prefix@.len() - k,
    {
        if line[k] != prefix[k] {
            assert(line@.subrange(0, prefix@.len() as int)[k as int] != prefix@[k as int]);
            return None;
        }
        k = k + 1;
    }
    assert(line@.subrange(0, prefix@.len() as int) =~= prefix@);
    let rest = copy_chars(line.as_slice(), prefix.len(), line.len());
    assert(rest@ =~= line@.skip(prefix@.len() as int));
    Some(rest)
}

/// Whether some line declares `StartupWMClass=` a class whose lower-case
/// form, trimmed, is `target`.
pub open spec fn wm_class_matches(ls: Seq<Seq<char>>, target: Seq<char>) -> bool {
    exists|i: int|
        0 <= i < ls.len() && #[trigger] strip_prefix_spec(ls[i], "StartupWMClass="@) is Some
            && lower_text(trim(strip_prefix_spec(ls[i], "StartupWMClass="@)->Some_0))
            == target
}

/// The value of the first `Name=` line, trimmed.
pub open spec fn first_name_from(ls: Seq<Seq<char>>, i: int) -> Option<Seq<char>>
    decreases ls.len() - i,
{
    if i < 0 || i >= ls.len() {
        None
    } else if strip_prefix_spec(ls[i], "Name="@) is Some {
        Some(trim(strip_prefix_spec(ls[i], "Name="@)->Some_0))
    } else {
        first_name_from(ls, i + 1)
    }
}

/// The app name a `.desktop` file at `path` gives for the window class
/// `class`: files not named `*.desktop` give none; otherwise, when the
/// file's stem or one of its `StartupWMClass=` lines equals the class (both
/// lower-cased), the trimmed value of its first `Name=` line.
pub open spec fn desktop_entry_name_spec(path: Seq<char>, text: Seq<char>, class: Seq<char>) -> Option<
    Seq<char>,
> {
    if extension_spec(path) != Some("desktop"@) {
        None
    } else {
        let target = lower_text(class);
        let ls = lines_spec(text);
        let stem_match = match file_stem_spec(path) {
            Some(st) => lower_text(st) == target,
            None => false,
        };
        if !stem_match && !wm_class_matches(ls, target) {
            None
        } else {
            first_name_from(ls, 0)
        }
    }
}

/// Whether `line` starts with `prefix`.
pub open spec fn starts_with(line: Seq<char>, prefix: Seq<char>) -> bool {
    prefix.len() <= line.len() && line.take(prefix.len() as int) == prefix
}

/// When a `.desktop` entry describes the window class (by its file stem or
/// a `StartupWMClass=` line, compared lower-cased), the name it gives is
/// the trimmed value of its first line that starts with `Name=`, whatever
/// later lines say.
pub proof fn lemma_desktop_entry_first_name(
    path: Seq<char>,
    text: Seq<char>,
    class: Seq<char>,
    i: int,
)
    requires
        extension_spec(path) == Some("desktop"@),
        (match file_stem_spec(path) {
            Some(st) => lower_text(st) == lower_text(class),
            None => false,
        }) || wm_class_matches(lines_spec(text), lower_text(class)),
        0 <= i < lines_spec(text).len(),
        starts_with(lines_spec(text)[i], "Name="@),
        forall|j: int| 0 <= j < i ==> !starts_with(#[trigger] lines_spec(text)[j], "Name="@),
    ensures
        desktop_entry_name_spec(path, text, class) == Some(trim(lines_spec(text)[i].skip(5))),
{
    reveal_strlit("Name=");
    let ls = lines_spec(text);
    assert forall|j: int| 0 <= j <= i implies #[trigger] first_name_from(ls, j) == first_name_from(
        ls,
        i,
    ) by {
        lemma_first_name_skips(ls, j, i);
    }
    assert(ls[i].subrange(0, 5) =~= ls[i].take(5));
    assert(strip_prefix_spec(ls[i], "Name="@) == Some(ls[i].skip(5)));
}

/// A `.desktop` entry gives no name for a class when the file is not named
/// `*.desktop`, when neither its stem nor any `StartupWMClass=` line is the
/// class (compared lower-cased), or when no line starts with `Name=`.
pub proof fn lemma_desktop_entry_no_name(path: Seq<char>, text: Seq<char>, class: Seq<char>)
    ensures
        extension_spec(path) != Some("desktop"@) ==> desktop_entry_name_spec(path, text, class)
            is None,
        !(match file_stem_spec(path) {
            Some(st) => lower_text(st) == lower_text(class),
            None => false,
        }) && !wm_class_matches(lines_spec(text), lower_text(class)) ==> desktop_entry_name_spec(
            path,
            text,
            class,
        ) is None,
        (forall|j: int|
            0 <= j < lines_spec(text).len() ==> !starts_with(#[trigger] lines_spec(text)[j], "Name="@))
            ==> desktop_entry_name_spec(path, text, class) is None,
{
    reveal_strlit("Name=");
    let ls = lines_spec(text);
    if forall|j: int| 0 <= j < ls.len() ==> !starts_with(#[trigger] ls[j], "Name="@) {
        lemma_no_name_line(ls, 0);
    }
}

proof fn lemma_no_name_line(ls: Seq<Seq<char>>, j: int)
    requires
        0 <= j,
        forall|k: int| 0 <= k < ls.len() ==> !starts_with(#[trigger] ls[k], "Name="@),
    ensures
        first_name_from(ls, j) is None,
    decreases ls.len() - j,
{
    reveal_strlit("Name=");
    if j < ls.len() {
        assert(!starts_with(ls[j], "Name="@));
        assert(ls[j].subrange(0, 5) =~= ls[j].take(5) || ls[j].len() < 5);
        assert(strip_prefix_spec(ls[j], "Name="@) is None);
        lemma_no_name_line(ls, j + 1);
    }
}

proof fn lemma_first_name_skips(ls: Seq<Seq<char>>, j: int, i: int)
    requires
        0 <= j <= i < ls.len(),
        forall|k: int| 0 <= k < i ==> !starts_with(#[trigger] ls[k], "Name="@),
    ensures
        first_name_from(ls, j) == first_name_from(ls, i),
    decreases i - j,
{
    reveal_strlit("Name=");
    if j < i {
        assert(!starts_with(ls[j], "Name="@));
        assert(ls[j].subrange(0, 5) =~= ls[j].take(5) || ls[j].len() < 5);
        assert(strip_prefix_spec(ls[j], "Name="@) is None);
        lemma_first_name_skips(ls, j + 1, i);
    }
}

/// Whether a file is a `.desktop` entry, by its extension.
pub fn is_desktop_file(path: &str) -> (r: bool)
    ensures
        r == (extension_spec(path@) == Some("desktop"@)),
{
    match extension(path) {
        Some(e) => chars_eq(&chars_of(e.as_str()), &chars_of("desktop")),
        None => false,
    }
}

/// The name a `.desktop` entry gives for a window class, if it describes it.
pub fn desktop_entry_name(path: &str, text: &str, class: &str) -> (r: Option<String>)
    ensures
        match r {
            Some(v) => desktop_entry_name_spec(path@, text@, class@) == Some(v@),
            None => desktop_entry_name_spec(path@, text@, class@) is None,
        },
{
    if !is_desktop_file(path) {
        return None;
    }
    let target = chars_of(to_lowercase(class).as_str());
    let ls = lines(text);
    let ghost lsv = lines_spec(text@);
    let stem_match = match file_stem(path) {
        Some(st) => chars_eq(&chars_of(to_lowercase(st.as_str()).as_str()), &target),
        None => false,
    };
    let wm_prefix = chars_of("StartupWMClass=");
    let mut wm_match = false;
    let mut i: usize = 0;
    while i < ls.len()
        invariant
            i <= ls@.len() == lsv.len(),
            lsv == lines_spec(text@),
            wm_prefix@ == "StartupWMClass="@,
            target@ == lower_text(class@),
            forall|j: int| 0 <= j < ls@.len() ==> #[trigger] ls@[j]@ == lsv[j],
            wm_match == exists|j: int|
                0 <= j < i && #[trigger] strip_prefix_spec(lsv[j], "StartupWMClass="@) is Some
                    && lower_text(trim(strip_prefix_spec(lsv[j], "StartupWMClass="@)->Some_0))
                    == target@,
        decreases ls@.len() - i,
    {
        if let Some(v) = strip_prefix_chars(&ls[i], &wm_prefix) {
            let t = trim_chars(v.as_slice());
            let lower = to_lowercase(string_from_chars(t.as_slice()).as_str());
            if chars_eq(&chars_of(lower.as_str()), &target) {
                wm_match = true;
            }
        }
        i = i + 1;
    }
    assert(wm_match == wm_class_matches(lsv, lower_text(class@)));
    if !stem_match && !wm_match {
        return None;
    }
    assert(desktop_entry_name_spec(path@, text@, class@) == first_name_from(lsv, 0));
    let name_prefix = chars_of("Name=");
    let mut k: usize = 0;
    while k < ls.len()
        invariant
            k <= ls@.len() == lsv.len(),
            lsv == lines_spec(text@),
            name_prefix@ == "Name="@,
            forall|j: int| 0 <= j < ls@.len() ==> #[trigger] ls@[j]@ == lsv[j],
            first_name_from(lsv, 0) == first_name_from(lsv, k as int),
            desktop_entry_name_spec(path@, text@, class@) == first_name_from(lsv, 0),
        decreases ls@.len() - k,
    {
        if let Some(v) = strip_prefix_chars(&ls[k], &name_prefix) {
            let t = trim_chars(v.as_slice());
            return Some(string_from_chars(t.as_slice()));
        }
        k = k + 1;
    }
    None
}

/// `list` with `p` added unless an equal path is already in it.
pub open spec fn push_unique(list: Seq<Seq<char>>, p: Seq<char>) -> Seq<Seq<char>> {
    if exists|i: int| 0 <= i < list.len() && path_components(#[trigger] list[i]) == path_components(p) {
        list
    } else {
        list.push(p)
    }
}

/// The folders of `XDG_DATA_DIRS`, each with `applications` joined on,
/// added in turn when new.
pub open spec fn add_xdg_dirs(list: Seq<Seq<char>>, dirs: Seq<Seq<char>>) -> Seq<Seq<char>>
    decreases dirs.len(),
{
    if dirs.len() == 0 {
        list
    } else {
        push_unique(add_xdg_dirs(list, dirs.drop_last()), join_spec(dirs.last(), "applications"@))
    }
}

/// The folders searched for `.desktop` entries, in order: the system and
/// local share folders, the user's data folder, each `XDG_DATA_DIRS` entry,
/// the user's Flatpak exports and Snap's folder, the last three only when
/// not already listed.
pub open spec fn application_dirs_spec(
    data_dir: Option<Seq<char>>,
    xdg_data_dirs: Option<Seq<char>>,
    home: Option<Seq<char>>,
) -> Seq<Seq<char>> {
    let base = seq!["/usr/share/applications"@, "/usr/local/share/applications"@];
    let with_data = match data_dir {
        Some(d) => base.push(join_spec(d, "applications"@)),
        None => base,
    };
    let with_xdg = match xdg_data_dirs {
        Some(x) => add_xdg_dirs(with_data, split_on(x, ':')),
        None => with_data,
    };
    let with_flatpak = match home {
        Some(h) => push_unique(
            with_xdg,
            join_spec(h, ".local/share/flatpak/exports/share/applications"@),
        ),
        None => with_xdg,
    };
    push_unique(with_flatpak, "/var/lib/snapd/desktop/applications"@)
}

fn push_unique_exec(list: &mut Vec<String>, p: String)
    ensures
        final(list).deep_view() == push_unique(old(list).deep_view(), p@),
{
    let mut i: usize = 0;
    while i < list.len()
        invariant
            i <= list@.len(),
            list.deep_view() == old(list).deep_view(),
            forall|j: int| 0 <= j < i ==> path_components(#[trigger] list.deep_view()[j]) != path_components(p@),
        decreases list@.len() - i,
    {
        if same_path(list[i].as_str(), p.as_str()) {
            assert(path_components(list.deep_view()[i as int]) == path_components(p@));
            return;
        }
        i = i + 1;
    }
    let ghost before = list.deep_view();
    list.push(p);
    assert(list.deep_view() =~= before.push(p@));
}

/// The folders to look for `.desktop` entries in.
pub fn application_dirs(data_dir: Option<&str>, xdg_data_dirs: Option<&str>, home: Option<&str>) -> (r: Vec<String>)
    ensures
        r.deep_view() == application_dirs_spec(
            match data_dir {
                Some(d) => Some(d@),
                None => None,
            },
            match xdg_data_dirs {
                Some(x) => Some(x@),
                None => None,
            },
            match home {
                Some(h) => Some(h@),
                None => None,
            },
        ),
{
    let mut list: Vec<String> = Vec::new();
    list.push("/usr/share/applications".to_string());
    list.push("/usr/local/share/applications".to_string());
    assert(list.deep_view() =~= seq!["/usr/share/applications"@, "/usr/local/share/applications"@]);
    if let Some(d) = data_dir {
        let ghost before = list.deep_view();
        list.push(path_join(d, "applications"));
        assert(list.deep_view() =~= before.push(join_spec(d@, "applications"@)));
    }
    if let Some(x) = xdg_data_dirs {
        let xs = chars_of(x);
        let parts = split_chars(xs.as_slice(), ':');
        let ghost all = split_on(x@, ':');
        let ghost start = list.deep_view();
        let mut i: usize = 0;
        assert(all.take(0) =~= Seq::<Seq<char>>::empty());
        while i < parts.len()
            invariant
                i <= parts@.len() == all.len(),
                all == split_on(x@, ':'),
                forall|j: int| 0 <= j < parts@.len() ==> #[trigger] parts@[j]@ == all[j],
                list.deep_view() == add_xdg_dirs(start, all.take(i as int)),
            decreases parts@.len() - i,
        {
            let dir = string_from_chars(parts[i].as_slice());
            let p = path_join(dir.as_str(), "applications");
            push_unique_exec(&mut list, p);
            assert(all.take(i + 1).drop_last() =~= all.take(i as int));
            i = i + 1;
        }
        assert(all.take(all.len() as int) =~= all);
    }
    if let Some(h) = home {
        push_unique_exec(&mut list, path_join(h, ".local/share/flatpak/exports/share/applications"));
    }
    push_unique_exec(&mut list, "/var/lib/snapd/desktop/applications".to_string());
    list
}

} // verus!
