use cbp::layout::{
    alias_names, archive_name, default_output_name, exe_destination, get_path_parts,
    get_relative_path, is_tool_file, list_base_dir, place_file, process_file_aliases,
};

fn strings(items: &[&str]) -> Vec<String> {
    items.iter().map(|s| s.to_string()).collect()
}

#[test]
fn path_parts_of_a_line() {
    assert_eq!(get_path_parts("doc/sub1/file2.txt", false), Some(strings(&["doc", "sub1", "file2.txt"])));
    assert_eq!(get_path_parts("file", false), Some(strings(&["file"])));
    assert_eq!(get_path_parts("", false), Some(strings(&[""])));
    assert_eq!(
        get_path_parts("arm64-osx-release/tools/bzip2/bzip2", true),
        Some(strings(&["tools", "bzip2", "bzip2"]))
    );
    assert_eq!(get_path_parts("arm64-osx-release/", true), Some(strings(&[""])));
    assert_eq!(get_path_parts("no-slash", true), None);
}

#[test]
fn relative_path_by_mode() {
    let parts = strings(&["doc", "sub1", "file2.txt"]);
    assert_eq!(get_relative_path(&parts, "files"), "doc/sub1/file2.txt");
    assert_eq!(get_relative_path(&parts, "list"), "doc/sub1/file2.txt");
    assert_eq!(get_relative_path(&parts, "bin"), "bin/file2.txt");
    assert_eq!(get_relative_path(&parts, "font"), "share/fonts/file2.txt");
    let tool = strings(&["tools", "bzip2", "bzip2recover"]);
    assert_eq!(get_relative_path(&tool, "vcpkg"), "bin/bzip2recover");
    assert_eq!(get_relative_path(&tool, "font"), "bin/bzip2recover");
    assert_eq!(get_relative_path(&strings(&["program"]), "bin"), "bin/program");
    assert_eq!(get_relative_path(&strings(&["Charter Regular.ttf"]), "font"), "share/fonts/Charter Regular.ttf");
}

#[test]
fn tools_are_recognised() {
    assert!(is_tool_file(&strings(&["tools", "x"])));
    assert!(is_tool_file(&strings(&["bin", "x"])));
    assert!(!is_tool_file(&strings(&["lib", "bin"])));
    assert!(!is_tool_file(&Vec::new()));
}

#[test]
fn vcpkg_list_is_laid_out() {
    let lines = [
        ("arm64-osx-release/", None),
        ("arm64-osx-release/include/bzlib.h", Some("include/bzlib.h")),
        ("arm64-osx-release/lib/libbz2.a", Some("lib/libbz2.a")),
        ("arm64-osx-release/tools/bzip2/bzip2", Some("bin/bzip2")),
        ("arm64-osx-release/tools/bzip2/bzip2recover", Some("bin/bzip2recover")),
    ];
    for (line, expected) in lines {
        let placed = place_file(line, "vcpkg", true, &Vec::new()).unwrap();
        if let Some(dest) = expected {
            assert_eq!(placed.dest, dest);
        }
        assert_eq!(placed.tool, line.contains("/tools/"));
    }
}

#[test]
fn ignored_lines_are_not_placed() {
    let ignore = strings(&[".txt"]);
    assert!(place_file("test.txt", "files", false, &ignore).is_none());
    let placed = place_file("bin/program", "files", false, &ignore).unwrap();
    assert_eq!(placed.dest, "bin/program");
    assert!(placed.tool);
    assert!(place_file("only", "vcpkg", true, &Vec::new()).is_none());
}

#[test]
fn windows_programs_get_their_extension() {
    assert_eq!(exe_destination("bin/tool"), Some("bin/tool.exe".to_string()));
    assert_eq!(exe_destination("bin/tool.bin"), Some("bin/tool.exe".to_string()));
    assert_eq!(exe_destination("bin/tool.exe"), None);
}

#[test]
fn aliases_of_a_file() {
    let pairs = strings(&["libzlib.a=libz.a", "test.txt=alias.txt", "broken", "a=b=c", "libzlib.a=libzz.a"]);
    assert_eq!(alias_names("libzlib.a", &pairs), strings(&["libz.a", "libzz.a"]));
    assert_eq!(alias_names("test.txt", &pairs), strings(&["alias.txt"]));
    assert!(alias_names("other", &pairs).is_empty());
    assert_eq!(
        process_file_aliases("/t/lib/libzlib.a", &pairs),
        strings(&["/t/lib/libz.a", "/t/lib/libzz.a"])
    );
    assert_eq!(process_file_aliases("test.txt", &pairs), strings(&["alias.txt"]));
    assert!(process_file_aliases("/", &pairs).is_empty());
}

#[test]
fn default_names_of_archives() {
    assert_eq!(archive_name("path/to/collect"), "collect.tar.gz");
    assert_eq!(archive_name("."), "archive.tar.gz");
    assert_eq!(archive_name("/"), "archive.tar.gz");
    assert_eq!(default_output_name("program.exe", false), Some("program.tar.gz".to_string()));
    assert_eq!(default_output_name("doc", false), Some("doc.tar.gz".to_string()));
    assert_eq!(default_output_name("..", false), Some("output.tar.gz".to_string()));
    assert_eq!(
        default_output_name("installed/vcpkg/info/bzip2_1.0.8_arm64-osx-release.list", true),
        Some("bzip2.osx.tar.gz".to_string())
    );
    assert_eq!(default_output_name("pkg.list", true), Some("pkg..tar.gz".to_string()));
    assert_eq!(default_output_name("a_b_c.list", true), Some("a..tar.gz".to_string()));
    assert_eq!(default_output_name("/", true), None);
}

#[test]
fn base_directory_of_a_list() {
    assert_eq!(list_base_dir("work/list.txt", false), Some("work".to_string()));
    assert_eq!(
        list_base_dir("installed/vcpkg/info/bzip2_1.0.8_arm64-osx-release.list", true),
        Some("installed".to_string())
    );
    assert_eq!(list_base_dir("a/b/c/d.list", true), Some("a".to_string()));
    assert_eq!(list_base_dir("info/x.list", true), None);
    assert_eq!(list_base_dir("", false), None);
}
