use cbp::dirs::{absolute_path, create_compiler_shims, get_os_type, prefix_dir, DirsError};
use cbp::{to_absolute_path, CbpDirs};

#[test]
fn test_cbp_dirs_new() {
    let dirs = CbpDirs::new(Some("/tmp/home")).unwrap();
    assert_eq!(dirs.home, "/tmp/home/.cbp");
    assert_eq!(dirs.bin, "/tmp/home/.cbp/bin");
    assert_eq!(dirs.cache, "/tmp/home/.cbp/cache");
    assert_eq!(dirs.records, "/tmp/home/.cbp/records");
    assert_eq!(dirs.required_dirs(), vec![
        "/tmp/home/.cbp",
        "/tmp/home/.cbp/bin",
        "/tmp/home/.cbp/cache",
        "/tmp/home/.cbp/records"
    ]);
    assert_eq!(CbpDirs::new(None).unwrap_err(), DirsError::NoHomeDirectory);
    assert_eq!(DirsError::NoHomeDirectory.message(), "Could not determine home directory");
}

#[test]
fn test_cbp_dirs_from() {
    let temp_dir = "/tmp/cbp-test";
    let dirs = CbpDirs::from(temp_dir);
    assert_eq!(dirs.home, temp_dir);
    assert_eq!(dirs.bin, "/tmp/cbp-test/bin");
    assert_eq!(dirs.cache, "/tmp/cbp-test/cache");
    assert_eq!(dirs.records, "/tmp/cbp-test/records");
    assert_eq!(dirs.get_home(), temp_dir);
    assert_eq!(dirs.record_file("zlib"), "/tmp/cbp-test/records/zlib.files");
}

#[test]
fn test_cbp_dirs_from_exe() {
    let temp_dir = "/tmp/cbp-exe";
    let dirs = CbpDirs::from_exe_path("/tmp/cbp-exe/bin/cbp.exe").unwrap();
    assert_eq!(dirs.home, temp_dir);
    assert_eq!(dirs.bin, "/tmp/cbp-exe/bin");
    assert_eq!(dirs.cache, "/tmp/cbp-exe/cache");
    assert_eq!(dirs.records, "/tmp/cbp-exe/records");
    assert_eq!(CbpDirs::from_exe_path("/").unwrap_err(), DirsError::NoExecutableDirectory);
    assert_eq!(CbpDirs::from_exe_path("/cbp").unwrap_err(), DirsError::NoInstallationHome);
    assert_eq!(DirsError::NoExecutableDirectory.message(), "Cannot get executable directory");
    assert_eq!(DirsError::NoInstallationHome.message(), "Cannot get CBP home directory");
}

#[test]
fn test_to_absolute_path() {
    let abs_path = "/absolute/path";
    assert_eq!(to_absolute_path(abs_path, "/base"), abs_path);
    let base_dir = "/tmp/base";
    for rel_path in ["relative/path", "./relative/path", "relative/./path"] {
        let result = to_absolute_path(rel_path, base_dir);
        let expected = std::path::Path::new(base_dir).join(rel_path);
        assert_eq!(std::path::PathBuf::from(result), expected);
    }
}

#[test]
fn test_get_os_type() {
    assert_eq!(get_os_type("macos").unwrap(), "macos");
    assert_eq!(get_os_type("linux").unwrap(), "linux");
    assert_eq!(get_os_type("windows").unwrap(), "windows");
    let refused = get_os_type("freebsd").unwrap_err();
    assert_eq!(refused.os, "freebsd");
    assert!(get_os_type("").is_err());
}

#[test]
fn prefix_directories() {
    let dirs = CbpDirs::from("/h/.cbp");
    assert_eq!(prefix_dir(&dirs, None), Some("/h/.cbp".to_string()));
    assert_eq!(prefix_dir(&dirs, Some("bin")), Some("/h/.cbp/bin".to_string()));
    assert_eq!(prefix_dir(&dirs, Some("cache")), Some("/h/.cbp/cache".to_string()));
    assert_eq!(prefix_dir(&dirs, Some("records")), Some("/h/.cbp/records".to_string()));
    assert_eq!(prefix_dir(&dirs, Some("include")), Some("/h/.cbp/include".to_string()));
    assert_eq!(prefix_dir(&dirs, Some("lib")), Some("/h/.cbp/lib".to_string()));
    assert_eq!(prefix_dir(&dirs, Some("invalid")), None);
}

#[test]
fn compiler_shims_per_system() {
    let posix = create_compiler_shims(false);
    assert_eq!(posix.len(), 4);
    assert_eq!(posix[0], ("zig-cc".to_string(), "#!/bin/bash\nexec zig cc \"$@\"".to_string()));
    assert_eq!(posix[3].0, "zig-ranlib");
    let windows = create_compiler_shims(true);
    assert_eq!(windows[1], ("zig-c++.cmd".to_string(), "@echo off\nzig c++ %*".to_string()));
    for (name, _) in posix.iter().chain(windows.iter()) {
        assert!(cbp::is_cbp_file(&format!("bin/{}", name)));
    }
}

#[test]
fn absolute_paths_follow_the_platform() {
    assert_eq!(absolute_path("C:/absolute/path", true, "/base"), "C:/absolute/path");
    assert_eq!(absolute_path("C:/absolute/path", false, "/base"), "/base/C:/absolute/path");
    assert_eq!(absolute_path("relative/path", false, "/base"), "/base/relative/path");
    assert_eq!(absolute_path("/absolute/path", true, "/base"), "/absolute/path");
    assert_eq!(to_absolute_path("relative", "/tmp/base"), "/tmp/base/relative");
}
