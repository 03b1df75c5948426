use cbp::filters::{
    archive_members, is_cbp_file, is_doc_file, is_system_file, should_skip_file, unmanaged_files,
};

fn strings(items: &[&str]) -> Vec<String> {
    items.iter().map(|s| s.to_string()).collect()
}

#[test]
fn cbp_files_are_recognised() {
    assert!(is_cbp_file("bin/cbp"));
    assert!(is_cbp_file("bin/cbp.exe"));
    assert!(is_cbp_file("bin/zig-cc"));
    assert!(is_cbp_file("records/zlib.files"));
    assert!(is_cbp_file("cache/zlib.macos.tar.gz"));
    assert!(is_cbp_file("triplets/x64-linux-zig.cmake"));
    assert!(!is_cbp_file("bin/zlib"));
    assert!(!is_cbp_file("lib/records/x"));
    assert!(!is_cbp_file("records"));
    assert!(!is_cbp_file(""));
}

#[test]
fn system_files_are_recognised() {
    assert!(is_system_file(".DS_Store"));
    assert!(is_system_file("lib/.DS_Store"));
    assert!(is_system_file("a/__MACOSX/b"));
    assert!(is_system_file("__MACOSX/b"));
    assert!(is_system_file("__MACOSX/Charter/a.ttf"));
    assert!(!is_system_file("x__MACOSX/b"));
    assert!(!is_system_file("__MACOSX"));
    assert!(is_system_file("x/.AppleDouble"));
    assert!(is_system_file("._test"));
    assert!(is_system_file("lib/._libz.a"));
    assert!(!is_system_file("._dir/file"));
    assert!(is_system_file("Thumbs.db"));
    assert!(is_system_file("share/desktop.ini"));
    assert!(is_system_file("config.h.in~"));
    assert!(is_system_file("a/.main.c.swp"));
    assert!(is_system_file("tool.lnk"));
    assert!(is_system_file("d/System Volume Information/x"));
    assert!(is_system_file("System Volume Information/x"));
    assert!(!is_system_file("No System Volume Information/x"));
    assert!(!is_system_file("lib/libz.a"));
    assert!(!is_system_file(""));
}

#[test]
fn doc_files_are_recognised() {
    assert!(is_doc_file("share/man/test.1"));
    assert!(is_doc_file("share/info/dir"));
    assert!(is_doc_file("share/doc/zlib/README"));
    assert!(is_doc_file("share/locale/de/x.mo"));
    assert!(!is_doc_file("share/fonts/a.ttf"));
    assert!(!is_doc_file("usr/share/man/x"));
}

#[test]
fn archive_members_drop_litter_and_docs() {
    let files = strings(&[".DS_Store", "._test", "lib/libtest.a", "share/man/test.1", "test.txt"]);
    assert_eq!(archive_members(&files, true), strings(&["lib/libtest.a", "test.txt"]));
    assert_eq!(
        archive_members(&files, false),
        strings(&["lib/libtest.a", "share/man/test.1", "test.txt"])
    );
    assert!(archive_members(&Vec::new(), true).is_empty());
}

#[test]
fn unmanaged_files_are_those_nobody_owns() {
    let all = strings(&[
        "bin/cbp",
        "bin/tool",
        "cache/zlib.macos.tar.gz",
        "include/zlib.h",
        "lib/.DS_Store",
        "lib/libz.a",
        "records/zlib.files",
        "stray.txt",
    ]);
    let known = strings(&["include/zlib.h", "lib/libz.a"]);
    assert_eq!(unmanaged_files(&all, &known), strings(&["bin/tool", "stray.txt"]));
    assert_eq!(unmanaged_files(&all, &all), Vec::<String>::new());
}

#[test]
fn ignore_patterns_are_substrings() {
    let patterns = strings(&[".txt", "tmp/"]);
    assert!(should_skip_file("test.txt", &patterns));
    assert!(should_skip_file("a/tmp/b", &patterns));
    assert!(!should_skip_file("bin/program", &patterns));
    assert!(!should_skip_file("test.txt", &Vec::new()));
    assert!(should_skip_file("anything", &strings(&[""])));
}
