use klyppd::paths::{extension, file_name, file_stem, parent, path_join, same_path};
use std::path::Path;


#[test]
fn joins_like_pathbuf() {
    for (a, b) in [("", "x"), ("/a", "b"), ("/a/", "b"), ("a", "/b"), ("/", "b"), ("a//", "b/c"), ("", "")] {
        assert_eq!(path_join(a, b), Path::new(a).join(b).to_string_lossy(), "{a:?} {b:?}");
    }
}

#[test]
fn components_like_path() {
    let samples = [
        "", "/", "a", "a/", "a//", "/a/b.mp4", "a/b/c.tar.gz", ".bashrc", "dir/.bashrc", "a/..",
        "..", ".", "./", "a/.", "a/./", "/.", "x.", ".a.b", "a/b/..", "./c.mkv", "//x//y.z//",
        "a/.hidden.mp4", "name.", "..x", "a/b.c/", "//a", "a/./b", "./a", "./.", "/a/.", "a//b",
        "../a", "./a/", "/a/b//", "x/./", "./..", "/..", ".x/y", "a/.b/", "/home/u/Videos/Sober_2026-05-22.mkv",
    ];
    for p in samples {
        let path = Path::new(p);
        assert_eq!(file_name(p), path.file_name().map(|x| x.to_string_lossy().into_owned()), "file_name {p:?}");
        assert_eq!(extension(p), path.extension().map(|x| x.to_string_lossy().into_owned()), "extension {p:?}");
        assert_eq!(file_stem(p), path.file_stem().map(|x| x.to_string_lossy().into_owned()), "file_stem {p:?}");
        assert_eq!(parent(p), path.parent().map(|q| q.to_string_lossy().into_owned()), "parent {p:?}");
    }
}

#[test]
fn path_equality_like_path() {
    let samples = [
        "", "/", "//", "a", "a/", "a//", "./a", "a/./b", "a/b", "a//b/", "/a", "//a", ".", "./", "..",
        "../a", "a/..", "/usr/share/applications", "/usr/share/applications/", "/usr//share/./applications",
        "usr/share/applications", "./.", "/.", "a/.", "x/./",
    ];
    for a in samples {
        for b in samples {
            assert_eq!(same_path(a, b), Path::new(a) == Path::new(b), "{a:?} == {b:?}");
        }
    }
}

#[test]
fn parent_examples() {
    assert_eq!(parent("/foo/bar"), Some("/foo".to_string()));
    assert_eq!(parent("/foo"), Some("/".to_string()));
    assert_eq!(parent("/"), None);
    assert_eq!(parent("foo"), Some(String::new()));
    assert_eq!(parent(""), None);
    assert_eq!(parent("a/b/"), Some("a".to_string()));
}
