//! Unix path arithmetic on strings: joining, file names, extensions, and
//! the fixed locations of the app's files.

use vstd::prelude::*;
use crate::text::{
    chars_eq, copy_chars, split_on, split_chars, chars_of, find_last, last_index_of, lemma_last_index_of_bounds, push_char, string_from_chars,
    substring,
};

verus! {

/// `base.join(name)` on Unix: an absolute `name` replaces `base`; otherwise a
/// separator is added unless `base` is empty or already ends in one.
pub open spec fn join_spec(base: Seq<char>, name: Seq<char>) -> Seq<char> {
    if name.len() > 0 && name[0] == '/' {
        name
    } else if base.len() > 0 && base.last() != '/' {
        base + seq!['/'] + name
    } else {
        base + name
    }
}

/// Joins a path and a name the way `Path::join` does on Unix.
pub fn path_join(base: &str, name: &str) -> (r: String)
    ensures
        r@ == join_spec(base@, name@),
{
    let b = chars_of(base);
    let n = chars_of(name);
    if n.len() > 0 && n[0] == '/' {
        return string_from_chars(n.as_slice());
    }
    let mut r = string_from_chars(b.as_slice());
    if b.len() > 0 && b[b.len() - 1] != '/' {
        push_char(&mut r, '/');
    }
    r.append(name);
    r
}

/// The final component of a Unix path, as `Path::file_name` gives it:
/// trailing separators and `.` components are skipped, and a path that ends
/// in `..`, a root or nothing has none.
pub open spec fn file_name_spec(p: Seq<char>) -> Option<Seq<char>>
    decreases p.len(),
{
    if p.len() == 0 {
        None
    } else if p.last() == '/' {
        file_name_spec(p.drop_last())
    } else {
        let i = last_index_of(p, '/');
        let seg = p.subrange(i + 1, p.len() as int);
        if seg == seq!['.'] {
            if i < 0 {
                None
            } else {
                proof {
                    lemma_last_index_of_bounds(p, '/');
                }
                file_name_spec(p.take(i))
            }
        } else if seg == seq!['.', '.'] {
            None
        } else {
            Some(seg)
        }
    }
}

fn is_dot(cs: &[char], lo: usize, hi: usize) -> (b: bool)
    requires
        lo <= hi <= cs@.len(),
    ensures
        b == (cs@.subrange(lo as int, hi as int) == seq!['.']),
{
    if hi - lo == 1 && cs[lo] == '.' {
        assert(cs@.subrange(lo as int, hi as int) =~= seq!['.']);
        true
    } else {
        if hi - lo == 1 {
            assert(cs@.subrange(lo as int, hi as int)[0] == cs@[lo as int]);
        }
        assert(seq!['.'].len() == 1);
        false
    }
}

fn is_dot_dot(cs: &[char], lo: usize, hi: usize) -> (b: bool)
    requires
        lo <= hi <= cs@.len(),
    ensures
        b == (cs@.subrange(lo as int, hi as int) == seq!['.', '.']),
{
    if hi - lo == 2 && cs[lo] == '.' && cs[lo + 1] == '.' {
        assert(cs@.subrange(lo as int, hi as int) =~= seq!['.', '.']);
        true
    } else {
        if hi - lo == 2 {
            assert(cs@.subrange(lo as int, hi as int)[0] == cs@[lo as int]);
            assert(cs@.subrange(lo as int, hi as int)[1] == cs@[lo + 1]);
        }
        assert(seq!['.', '.'].len() == 2);
        false
    }
}

/// The final component of a path (`Path::file_name`).
pub fn file_name(p: &str) -> (r: Option<String>)
    ensures
        match r {
            Some(s) => file_name_spec(p@) == Some(s@),
            None => file_name_spec(p@) is None,
        },
{
    let cs = chars_of(p);
    let mut end: usize = cs.len();
    assert(cs@.take(end as int) =~= cs@);
    loop
        invariant
            end <= cs@.len(),
            file_name_spec(p@) == file_name_spec(cs@.take(end as int)),
            cs@ == p@,
        decreases end,
    {
        let ghost q = cs@.take(end as int);
        if end == 0 {
            return None;
        }
        if cs[end - 1] == '/' {
            assert(q.drop_last() =~= cs@.take(end - 1));
            end = end - 1;
        } else {
            let ghost i = last_index_of(q, '/');
            proof {
                lemma_last_index_of_bounds(q, '/');
            }
            let start = match find_last_before(cs.as_slice(), end, '/') {
                Some(j) => j + 1,
                None => 0,
            };
            assert(start == i + 1);
            assert(q.subrange(i + 1, q.len() as int) =~= cs@.subrange(start as int, end as int));
            if is_dot(cs.as_slice(), start, end) {
                if start == 0 {
                    return None;
                }
                assert(q.take(i) =~= cs@.take(start - 1));
                end = start - 1;
            } else if is_dot_dot(cs.as_slice(), start, end) {
                return None;
            } else {
                return Some(substring(cs.as_slice(), start, end));
            }
        }
    }
}

/// The position of the last `c` among `cs[..end]`.
fn find_last_before(cs: &[char], end: usize, c: char) -> (r: Option<usize>)
    requires
        end <= cs@.len(),
    ensures
        match r {
            Some(i) => i == last_index_of(cs@.take(end as int), c),
            None => last_index_of(cs@.take(end as int), c) == -1,
        },
{
    let mut i: usize = end;
    assert(cs@.take(end as int).take(i as int) =~= cs@.take(end as int));
    while i > 0
        invariant
            i <= end <= cs@.len(),
            last_index_of(cs@.take(end as int), c) == last_index_of(cs@.take(i as int), c),
        decreases i,
    {
        assert(cs@.take(i as int).drop_last() =~= cs@.take(i - 1));
        if cs[i - 1] == c {
            return Some(i - 1);
        }
        i = i - 1;
    }
    None
}

/// The extension of a file name: the text after its last `.`, when that dot
/// is not the name's first character.
pub open spec fn name_extension(f: Seq<char>) -> Option<Seq<char>> {
    let d = last_index_of(f, '.');
    if d <= 0 {
        None
    } else {
        Some(f.subrange(d + 1, f.len() as int))
    }
}

/// The stem of a file name: the text before its last `.`, or the whole name
/// when there is no dot or only a leading one.
pub open spec fn name_stem(f: Seq<char>) -> Seq<char> {
    let d = last_index_of(f, '.');
    if d <= 0 {
        f
    } else {
        f.take(d)
    }
}

/// `Path::extension` of a path.
pub open spec fn extension_spec(p: Seq<char>) -> Option<Seq<char>> {
    match file_name_spec(p) {
        Some(f) => name_extension(f),
        None => None,
    }
}

/// `Path::file_stem` of a path.
pub open spec fn file_stem_spec(p: Seq<char>) -> Option<Seq<char>> {
    match file_name_spec(p) {
        Some(f) => Some(name_stem(f)),
        None => None,
    }
}

/// The extension of a path's file name (`Path::extension`).
pub fn extension(p: &str) -> (r: Option<String>)
    ensures
        match r {
            Some(s) => extension_spec(p@) == Some(s@),
            None => extension_spec(p@) is None,
        },
{
    match file_name(p) {
        None => None,
        Some(f) => {
            let cs = chars_of(f.as_str());
            proof {
                lemma_last_index_of_bounds(cs@, '.');
            }
            match find_last(cs.as_slice(), '.') {
                Some(d) => {
                    if d == 0 {
                        None
                    } else {
                        assert(d < cs.len());
                        Some(substring(cs.as_slice(), d + 1, cs.len()))
                    }
                },
                None => None,
            }
        },
    }
}

/// The stem of a path's file name (`Path::file_stem`).
pub fn file_stem(p: &str) -> (r: Option<String>)
    ensures
        match r {
            Some(s) => file_stem_spec(p@) == Some(s@),
            None => file_stem_spec(p@) is None,
        },
{
    match file_name(p) {
        None => None,
        Some(f) => {
            let cs = chars_of(f.as_str());
            proof {
                lemma_last_index_of_bounds(cs@, '.');
            }
            match find_last(cs.as_slice(), '.') {
                Some(d) => {
                    if d == 0 {
                        Some(f)
                    } else {
                        Some(substring(cs.as_slice(), 0, d))
                    }
                },
                None => Some(f),
            }
        },
    }
}

/// Where the components of a Unix path that can be removed begin: after a
/// root `/`, or after a leading `.` component, which `Path` keeps.
pub open spec fn body_start(p: Seq<char>) -> int {
    if p.len() > 0 && p[0] == '/' {
        1
    } else if p.len() > 0 && p[0] == '.' && (p.len() == 1 || p[1] == '/') {
        1
    } else {
        0
    }
}

/// `end` moved back over the separators and `.` components that end
/// `p.take(end)`, never below `lo`: what `Path` normalises away.
pub open spec fn trim_back(p: Seq<char>, lo: int, end: int) -> int
    decreases end - lo,
{
    if end <= lo || end > p.len() {
        end
    } else if p[end - 1] == '/' {
        trim_back(p, lo, end - 1)
    } else if p[end - 1] == '.' && (end - 1 == lo || p[end - 2] == '/') {
        trim_back(p, lo, end - 1)
    } else {
        end
    }
}

/// `Path::parent` on Unix: the path without its final component. Trailing
/// separators and `.` components do not count as components; a path made of
/// only a leading `.` has the empty parent; a root alone, or the empty
/// path, has none.
pub open spec fn parent_spec(p: Seq<char>) -> Option<Seq<char>> {
    let lo = body_start(p);
    let end = trim_back(p, lo, p.len() as int);
    if end == lo {
        if lo == 1 && p[0] == '.' {
            Some(Seq::empty())
        } else {
            None
        }
    } else {
        let start = last_index_of(p.take(end), '/') + 1;
        Some(p.take(trim_back(p, lo, if start < lo { lo } else { start })))
    }
}

fn trim_back_exec(cs: &[char], lo: usize, end: usize) -> (e: usize)
    requires
        lo <= end <= cs@.len(),
    ensures
        e == trim_back(cs@, lo as int, end as int),
        lo <= e <= end,
{
    let mut e = end;
    while e > lo && (cs[e - 1] == '/' || (cs[e - 1] == '.' && (e - 1 == lo || cs[e - 2] == '/')))
        invariant
            lo <= e <= end <= cs@.len(),
            trim_back(cs@, lo as int, e as int) == trim_back(cs@, lo as int, end as int),
        decreases e,
    {
        e = e - 1;
    }
    e
}

/// The parent of a path, as `Path::parent` gives it on Unix.
pub fn parent(p: &str) -> (r: Option<String>)
    ensures
        match r {
            Some(s) => parent_spec(p@) == Some(s@),
            None => parent_spec(p@) is None,
        },
{
    let cs = chars_of(p);
    let n = cs.len();
    let lo: usize = if n > 0 && cs[0] == '/' {
        1
    } else if n > 0 && cs[0] == '.' && (n == 1 || cs[1] == '/') {
        1
    } else {
        0
    };
    let end = trim_back_exec(cs.as_slice(), lo, n);
    if end == lo {
        if lo == 1 && cs[0] == '.' {
            return Some(String::new());
        }
        return None;
    }
    proof {
        lemma_last_index_of_bounds(cs@.take(end as int), '/');
    }
    let start = match find_last_before(cs.as_slice(), end, '/') {
        Some(j) => j + 1,
        None => 0,
    };
    let from = if start < lo {
        lo
    } else {
        start
    };
    let stop = trim_back_exec(cs.as_slice(), lo, from);
    let r = substring(cs.as_slice(), 0, stop);
    assert(r@ =~= p@.take(stop as int));
    Some(r)
}

/// The pieces between separators that name components: empty pieces
/// (repeated or trailing separators) and `.` are left out.
pub open spec fn normal_parts(pieces: Seq<Seq<char>>) -> Seq<Seq<char>>
    decreases pieces.len(),
{
    if pieces.len() == 0 {
        Seq::empty()
    } else {
        let r = normal_parts(pieces.drop_last());
        let l = pieces.last();
        if l.len() == 0 || l == seq!['.'] {
            r
        } else {
            r.push(l)
        }
    }
}

/// The components of a Unix path as `Path::components` yields them, each
/// written out: a root as `/`, a leading `.` as `.`, then the names and
/// `..` between separators.
pub open spec fn path_components(p: Seq<char>) -> Seq<Seq<char>> {
    let lead = if body_start(p) == 1 {
        seq![seq![p[0]]]
    } else {
        Seq::empty()
    };
    lead + normal_parts(split_on(p.skip(body_start(p)), '/'))
}

/// The characters of each component in a list of them.
pub open spec fn parts_view(v: Seq<Vec<char>>) -> Seq<Seq<char>> {
    v.map_values(|c: Vec<char>| c@)
}

fn components_of(p: &str) -> (r: Vec<Vec<char>>)
    ensures
        parts_view(r@) == path_components(p@),
{
    let cs = chars_of(p);
    let n = cs.len();
    let lo: usize = if n > 0 && cs[0] == '/' {
        1
    } else if n > 0 && cs[0] == '.' && (n == 1 || cs[1] == '/') {
        1
    } else {
        0
    };
    let mut r: Vec<Vec<char>> = Vec::new();
    if lo == 1 {
        let mut first: Vec<char> = Vec::new();
        first.push(cs[0]);
        r.push(first);
    }
    let ghost lead = parts_view(r@);
    assert(lead =~= (if body_start(p@) == 1 {
        seq![seq![p@[0]]]
    } else {
        Seq::<Seq<char>>::empty()
    }));
    let body = copy_chars(cs.as_slice(), lo, n);
    assert(body@ =~= p@.skip(lo as int));
    let pieces = split_chars(body.as_slice(), '/');
    let ghost ps = split_on(body@, '/');
    let mut i: usize = 0;
    assert(ps.take(0) =~= Seq::<Seq<char>>::empty());
    while i < pieces.len()
        invariant
            i <= pieces@.len() == ps.len(),
            forall|k: int| 0 <= k < pieces@.len() ==> #[trigger] pieces@[k]@ == ps[k],
            parts_view(r@) == lead + normal_parts(ps.take(i as int)),
        decreases pieces@.len() - i,
    {
        assert(ps.take(i + 1).drop_last() =~= ps.take(i as int));
        assert(ps.take(i + 1).last() == pieces@[i as int]@);
        let piece = &pieces[i];
        let is_dot = piece.len() == 1 && piece[0] == '.';
        if piece.len() == 1 {
            assert(piece@ =~= seq![piece@[0]]);
        }
        if piece.len() > 0 && !is_dot {
            assert(piece@ != seq!['.']) by {
                if piece@.len() == 1 {
                    assert(piece@[0] == seq!['.'][0] ==> piece@ =~= seq!['.']);
                }
            }
            let ghost before = parts_view(r@);
            r.push(copy_chars(piece.as_slice(), 0, piece.len()));
            assert(piece@.subrange(0, piece@.len() as int) =~= piece@);
            assert(parts_view(r@) =~= before.push(piece@));
        } else {
            assert(piece@.len() == 0 || piece@ =~= seq!['.']);
        }
        i = i + 1;
    }
    assert(ps.take(ps.len() as int) =~= ps);
    r
}

/// Whether two paths are equal as `Path`'s `==` decides: they have the
/// same components.
pub fn same_path(a: &str, b: &str) -> (r: bool)
    ensures
        r == (path_components(a@) == path_components(b@)),
{
    let x = components_of(a);
    let y = components_of(b);
    let ghost xs = parts_view(x@);
    let ghost ys = parts_view(y@);
    if x.len() != y.len() {
        assert(xs.len() != ys.len());
        return false;
    }
    let mut i: usize = 0;
    while i < x.len()
        invariant
            i <= x@.len() == y@.len(),
            xs == parts_view(x@),
            ys == parts_view(y@),
            xs == path_components(a@),
            ys == path_components(b@),
            forall|k: int| 0 <= k < i ==> xs[k] == ys[k],
        decreases x@.len() - i,
    {
        if !chars_eq(&x[i], &y[i]) {
            assert(xs[i as int] == x@[i as int]@ && ys[i as int] == y@[i as int]@);
            assert(xs[i as int] != ys[i as int]);
            return false;
        }
        i = i + 1;
    }
    assert forall|k: int| 0 <= k < xs.len() implies xs[k] == ys[k] by {}
    assert(xs =~= ys);
    true
}

} // verus!
