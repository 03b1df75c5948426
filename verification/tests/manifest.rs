use cbp::manifest::{
    declared_files, installed_packages, manifest_entries, manifest_text, record_name,
};

fn strings(items: &[&str]) -> Vec<String> {
    items.iter().map(|s| s.to_string()).collect()
}

#[test]
fn manifest_text_is_one_path_per_line() {
    assert_eq!(manifest_text(&strings(&["include/zlib.h", "lib/libz.a"])), "include/zlib.h\nlib/libz.a\n");
    assert_eq!(manifest_text(&Vec::new()), "");
}

#[test]
fn manifest_reads_back() {
    let paths = strings(&["include/", "include/zlib.h", "lib/libz.a", "share/with space"]);
    assert_eq!(manifest_entries(&manifest_text(&paths)), paths);
}

#[test]
fn manifest_entries_skip_empty_lines() {
    assert_eq!(manifest_entries("a\n\nb\r\n\n"), strings(&["a", "b"]));
    assert!(manifest_entries("").is_empty());
    assert!(manifest_entries("\n\n").is_empty());
    assert_eq!(manifest_entries("no newline"), strings(&["no newline"]));
}

#[test]
fn record_names() {
    assert_eq!(record_name("zlib"), "zlib.files");
}

#[test]
fn installed_packages_from_records() {
    let files = strings(&["bzip2.files", ".DS_Store", "._zlib.files", "notes.txt", "zlib.files"]);
    assert_eq!(installed_packages(&files), strings(&["bzip2", "zlib"]));
    assert_eq!(installed_packages(&strings(&[".files"])), strings(&[""]));
}

#[test]
fn declared_files_of_all_manifests() {
    let texts = strings(&["include/zlib.h\nlib/libz.a\n", "", "lib/libbz2.a\n\nbin/bzip2"]);
    assert_eq!(
        declared_files(&texts),
        strings(&["include/zlib.h", "lib/libz.a", "lib/libbz2.a", "", "bin/bzip2"])
    );
}
