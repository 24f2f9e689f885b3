use std::path::Path;
use videovault::path::{
    child_of, extension_of, file_name_of, parent_of, place_of, sibling_of, stem_of, strip_root,
};
use videovault::video::{display_name_of, is_video_file, video_extension};

fn std_name(p: &str) -> Option<String> {
    Path::new(p).file_name().map(|n| n.to_string_lossy().to_string())
}

fn std_extension(p: &str) -> Option<String> {
    Path::new(p).extension().map(|n| n.to_string_lossy().to_string())
}

fn std_stem(p: &str) -> Option<String> {
    Path::new(p).file_stem().map(|n| n.to_string_lossy().to_string())
}

fn samples() -> Vec<&'static str> {
    vec![
        "",
        "/",
        "//",
        "a",
        "/a",
        "a/",
        "/a/b",
        "/a/b/",
        "/a//b",
        "/a/./b",
        "a/b/c.mp4",
        "/usr/bin/",
        "tmp/foo.txt",
        "foo.txt/.",
        "foo.txt/.//",
        "foo.txt/..",
        "..",
        "/..",
        ".bashrc",
        "/home/.bashrc",
        "archive.tar.gz",
        "trailing.",
        "/a/b c/d e.MKV",
        "/films/movie.jpg",
        "no_extension",
        "a.b/c",
        "/a//b/c",
        "/a//b//c//",
        "./x",
        "./x/y",
        ".",
        "./",
        "./.",
        ".//x",
        "a/./b",
        "/./x",
        "/.",
        "../x",
        "x/..",
        "/a/b/./c",
        "/a/b/.",
        "/a/b/./",
        "/cwd/./videos/movie.mp4",
        "//a",
        "///",
        "a//",
        ".x",
        "./.x",
        "...",
    ]
}

#[test]
fn file_name_agrees_with_std() {
    for p in samples() {
        assert_eq!(file_name_of(p), std_name(p), "file name of {:?}", p);
    }
}

#[test]
fn extension_agrees_with_std() {
    for p in samples() {
        assert_eq!(extension_of(p), std_extension(p), "extension of {:?}", p);
    }
}

#[test]
fn stem_agrees_with_std() {
    for p in samples() {
        assert_eq!(stem_of(p), std_stem(p), "stem of {:?}", p);
    }
}

#[test]
fn file_name_examples() {
    assert_eq!(file_name_of("/usr/bin/"), Some("bin".to_string()));
    assert_eq!(file_name_of("tmp/foo.txt"), Some("foo.txt".to_string()));
    assert_eq!(file_name_of("foo.txt/.."), None);
    assert_eq!(file_name_of("/"), None);
    assert_eq!(display_name_of("/"), "Unknown");
    assert_eq!(display_name_of("/films/2020"), "2020");
}

#[test]
fn extension_and_stem_examples() {
    assert_eq!(extension_of("/a/archive.tar.gz"), Some("gz".to_string()));
    assert_eq!(stem_of("/a/archive.tar.gz"), Some("archive.tar".to_string()));
    assert_eq!(extension_of(".bashrc"), None);
    assert_eq!(stem_of(".bashrc"), Some(".bashrc".to_string()));
    assert_eq!(extension_of("trailing."), Some("".to_string()));
    assert_eq!(stem_of("trailing."), Some("trailing".to_string()));
}

#[test]
fn parent_examples() {
    assert_eq!(parent_of("/a/b/c.jpg"), Some("/a/b".to_string()));
    assert_eq!(parent_of("/c.jpg"), Some("/".to_string()));
    assert_eq!(parent_of("c.jpg"), Some("".to_string()));
    assert_eq!(parent_of("a/b"), Some("a".to_string()));
    assert_eq!(parent_of("/a//b/"), Some("/a".to_string()));
    assert_eq!(parent_of("/"), None);
    assert_eq!(parent_of(""), None);
}

#[test]
fn child_examples() {
    assert_eq!(child_of("/a", "b"), "/a/b");
    assert_eq!(child_of("/a/", "b"), "/a/b");
    assert_eq!(child_of("", "b"), "b");
    assert_eq!(child_of("/", "b"), "/b");
    assert_eq!(child_of("/a", "/b"), "/b");
    assert_eq!(child_of("/a", "b c.mp4"), "/a/b c.mp4");
}

#[test]
fn child_agrees_with_std_join() {
    let dirs = vec!["", "/", "/a", "/a/", "a/b", "rel/"];
    let names = vec!["x", "x.mp4", "/abs", "y z", "sub/inner"];
    for d in &dirs {
        for n in &names {
            let expected = Path::new(d).join(n).to_string_lossy().to_string();
            assert_eq!(child_of(d, n), expected, "{:?} joined with {:?}", d, n);
        }
    }
}

#[test]
fn sibling_examples() {
    assert_eq!(sibling_of("/d/movie.jpg", "mp4"), Some("/d/movie.mp4".to_string()));
    assert_eq!(sibling_of("movie.jpg", "mkv"), Some("movie.mkv".to_string()));
    assert_eq!(sibling_of("/movie.jpg", "avi"), Some("/movie.avi".to_string()));
    assert_eq!(sibling_of("/d/a.b.jpg", "mp4"), Some("/d/a.b.mp4".to_string()));
    assert_eq!(sibling_of("/d/plain", "jpg"), Some("/d/plain.jpg".to_string()));
    assert_eq!(sibling_of("/", "jpg"), None);
    assert_eq!(sibling_of("/d/..", "jpg"), None);
}

#[test]
fn an_empty_root_is_a_prefix_of_every_path() {
    assert_eq!(strip_root("", "/a/b"), Some("/a/b".to_string()));
    assert_eq!(strip_root("", "a/b"), Some("a/b".to_string()));
    assert_eq!(strip_root("", "/"), Some("/".to_string()));
    assert_eq!(strip_root("", "/a/b//"), Some("/a/b".to_string()));
    assert_eq!(strip_root("", "./a"), Some("./a".to_string()));
    assert_eq!(strip_root("", ""), Some("".to_string()));
}

#[test]
fn a_dot_at_the_front_is_a_component() {
    assert_eq!(strip_root("a", "./a"), None);
    assert_eq!(strip_root("./a", "a"), None);
    assert_eq!(strip_root(".", "./a/b"), Some("a/b".to_string()));
    assert_eq!(strip_root("./a", "./a/b"), Some("b".to_string()));
    assert_eq!(strip_root("a", "a/./b"), Some("b".to_string()));
    assert_eq!(parent_of("./x"), Some(".".to_string()));
    assert_eq!(parent_of("."), Some("".to_string()));
    assert_eq!(file_name_of("./x"), Some("x".to_string()));
    assert_eq!(file_name_of("."), None);
}

#[test]
fn what_is_left_keeps_its_spelling() {
    assert_eq!(strip_root("/a", "/a/b//c/./d/"), Some("b//c/./d".to_string()));
    assert_eq!(strip_root("/a//", "/a/b"), Some("b".to_string()));
}

#[test]
fn a_parent_keeps_its_spelling() {
    assert_eq!(parent_of("/a//b/c"), Some("/a//b".to_string()));
    assert_eq!(parent_of("/cwd/./videos/movie.mp4"), Some("/cwd/./videos".to_string()));
    assert_eq!(parent_of("/a/b/./c"), Some("/a/b".to_string()));
    assert_eq!(parent_of("/a/b//c//"), Some("/a/b".to_string()));
    assert_eq!(sibling_of("./movie.mp4", "jpg"), Some("./movie.jpg".to_string()));
    assert_eq!(sibling_of("/a//b/movie.mp4", "jpg"), Some("/a//b/movie.jpg".to_string()));
    assert_eq!(
        sibling_of("/cwd/./videos/movie.jpg", "mp4"),
        Some("/cwd/./videos/movie.mp4".to_string())
    );
}

#[test]
fn places() {
    for (p, expected) in [
        ("", ""),
        ("/", "/"),
        ("//", "/"),
        ("/a//b/./c/", "/a/b/c"),
        ("a/b", "a/b"),
        ("./a", "./a"),
        (".", "."),
        ("./", "."),
        ("a/./b", "a/b"),
        ("a/../b", "a/../b"),
    ] {
        assert_eq!(place_of(p), expected, "place of {:?}", p);
    }
    // Two paths have one place exactly where std takes them for equal.
    for p in samples() {
        for q in samples() {
            assert_eq!(place_of(p) == place_of(q), Path::new(p) == Path::new(q), "{:?} {:?}", p, q);
        }
    }
}

#[test]
fn strip_root_goes_by_components() {
    assert_eq!(strip_root("/a/b", "/a/b/c/d.mp4"), Some("c/d.mp4".to_string()));
    assert_eq!(strip_root("/a/b/", "/a/b/c"), Some("c".to_string()));
    assert_eq!(strip_root("/a/b", "/a/b"), Some("".to_string()));
    assert_eq!(strip_root("/", "/a/b"), Some("a/b".to_string()));
    assert_eq!(strip_root("/a/b", "/a/bc/d"), None);
    assert_eq!(strip_root("/a/b", "/a"), None);
    assert_eq!(strip_root("/a/b", "a/b/c"), None);
    assert_eq!(strip_root("a", "a/b"), Some("b".to_string()));
    assert_eq!(strip_root("/a//b", "/a/b/./c"), Some("c".to_string()));
}

#[test]
fn strip_root_agrees_with_std_on_plain_paths() {
    let roots = vec![
        "/a/b", "/a/b/", "/", "/a", "a", "a/b", "/x", "", ".", "./", "./a", "/a//b", "/a/./b", "..",
        "//", "a/.",
    ];
    let paths = vec![
        "/a/b/c/d.mp4", "/a/b", "/a/bc", "/a", "a/b/c", "a", "/x/y z/w", "/", "", ".", "./a",
        "./a/b", "a/./b//c/", "/a//b//c//d/", "/a/b/./c/.", "../a", "//", "/a/b/", "./", "a/b/../c",
    ];
    for r in &roots {
        for p in &paths {
            let expected = Path::new(p)
                .strip_prefix(Path::new(r))
                .ok()
                .map(|rest| rest.to_string_lossy().to_string());
            assert_eq!(strip_root(r, p), expected, "{:?} under {:?}", p, r);
        }
    }
}

#[test]
fn what_is_left_leads_back_to_the_path() {
    let roots = vec!["", "/", "/a", "/a/", "/a//b", "a", "./a", ".", "a/./b", "/a/./"];
    let paths = vec![
        "", "/", "/a", "/a/b", "/a//b//c/", "/a/b/./c/d.mp4", "a", "a/b", "./a", "./a/b", "a/./b/c",
        ".", "/a/../b",
    ];
    let mut under = 0;
    for r in &roots {
        for p in &paths {
            if let Some(rest) = strip_root(r, p) {
                under += 1;
                assert_eq!(place_of(&child_of(r, &rest)), place_of(p), "{:?} under {:?}", p, r);
                assert_eq!(Path::new(r).join(&rest), Path::new(p));
            }
        }
    }
    assert!(under > 20);
}

#[test]
fn a_name_in_a_directory() {
    for d in ["", "/", ".", "./", "/a", "/a/", "/a//b", "/a/./b/.", "a/b", ".."] {
        let p = child_of(d, "movie.mp4");
        assert_eq!(file_name_of(&p), Some("movie.mp4".to_string()), "in {:?}", d);
        assert_eq!(extension_of(&p), Some("mp4".to_string()));
        assert_eq!(stem_of(&p), Some("movie".to_string()));
        assert_eq!(place_of(&parent_of(&p).unwrap()), place_of(d), "in {:?}", d);
    }
}

#[test]
fn video_files_are_told_by_extension() {
    for ext in ["mp4", "avi", "mov", "mkv", "wmv", "flv", "webm"] {
        assert!(video_extension(ext), "{}", ext);
        assert!(is_video_file(&format!("/d/film.{}", ext)));
        assert!(is_video_file(&format!("/d/film.{}", ext.to_uppercase())));
    }
    assert!(!video_extension("MP4"));
    assert!(!video_extension("jpg"));
    assert!(!is_video_file("/d/film.jpg"));
    assert!(!is_video_file("/d/mp4"));
    assert!(!is_video_file("/d/.mp4"));
    assert!(is_video_file("/d/film.mp4/"));
}

#[test]
fn parent_agrees_with_std() {
    for p in samples() {
        let expected = Path::new(p).parent().map(|d| d.to_string_lossy().to_string());
        assert_eq!(parent_of(p), expected, "parent of {:?}", p);
    }
}
