use cbp::paths::{file_name, file_stem, join_path, parent_path, with_extension};
use std::path::Path;

const PATHS: [&str; 16] = [
    "",
    "/",
    "a",
    "/a",
    "a/b",
    "/a/b/cbp",
    "a/b/",
    "a//b",
    "bin/tool.exe",
    "bin/tool",
    "bin/.hidden",
    "lib/libz.so.1",
    "..",
    "a/..",
    "archive.tar.gz",
    "dir.d/file",
];

#[test]
fn file_name_is_that_of_std() {
    for p in PATHS {
        assert_eq!(file_name(p), Path::new(p).file_name().map(|t| t.to_str().unwrap().to_string()), "file name of {:?}", p);
    }
    assert_eq!(file_name("lib/libz.a"), Some("libz.a".to_string()));
    assert_eq!(file_name("/"), None);
}

#[test]
fn file_stem_is_that_of_std() {
    for p in PATHS {
        assert_eq!(file_stem(p), Path::new(p).file_stem().map(|t| t.to_str().unwrap().to_string()), "file stem of {:?}", p);
    }
}

#[test]
fn parent_is_that_of_std() {
    for p in PATHS {
        let expected = Path::new(p).parent().map(|d| d.to_str().unwrap().to_string());
        assert_eq!(parent_path(p), expected, "parent of {:?}", p);
    }
    assert_eq!(parent_path("/a/b/cbp"), Some("/a/b".to_string()));
    assert_eq!(parent_path("cbp"), Some(String::new()));
    assert_eq!(parent_path(""), None);
}

#[test]
fn join_is_that_of_std_paths() {
    let pairs = [
        ("/home/u", ".cbp"),
        ("/home/u/", "bin"),
        ("", "bin"),
        ("a", "/abs"),
        ("a", ""),
        ("/", "x"),
        ("rel/dir", "sub/file"),
    ];
    for (base, rel) in pairs {
        let expected = Path::new(base).join(rel).to_str().unwrap().to_string();
        assert_eq!(join_path(base, rel), expected, "join of {:?} and {:?}", base, rel);
    }
}

#[test]
fn with_extension_is_that_of_std() {
    for p in PATHS {
        for ext in ["exe", ""] {
            let expected = Path::new(p).with_extension(ext).to_str().unwrap().to_string();
            assert_eq!(with_extension(p, ext), expected, "{:?} with {:?}", p, ext);
        }
    }
    assert_eq!(with_extension("bin/tool", "exe"), "bin/tool.exe");
    assert_eq!(with_extension("bin/tool.bin", "exe"), "bin/tool.exe");
}
