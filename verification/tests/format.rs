use cbp::format::format_packages;

#[test]
fn test_format_packages() {
    let packages = vec![
        "abc".to_string(),
        "abd".to_string(),
        "bcd".to_string(),
        "bce".to_string(),
        "cde".to_string(),
    ];
    let formatted = format_packages(&packages);
    assert_eq!(
        formatted,
        "  abc             abd           \n  bcd             bce           \n  cde           "
    );
}

#[test]
fn format_packages_wraps_after_five() {
    let packages: Vec<String> =
        ["a1", "a2", "a3", "a4", "a5", "a6"].iter().map(|s| s.to_string()).collect();
    let formatted = format_packages(&packages);
    let cell = |s: &str| format!("  {:<14}", s);
    let expected = format!(
        "{}{}{}{}{}\n{}",
        cell("a1"),
        cell("a2"),
        cell("a3"),
        cell("a4"),
        cell("a5"),
        cell("a6")
    );
    assert_eq!(formatted, expected);
}

#[test]
fn format_packages_skips_empty_and_keeps_long_names() {
    let packages: Vec<String> =
        ["", "a-very-long-package-name", "", "ab"].iter().map(|s| s.to_string()).collect();
    assert_eq!(format_packages(&packages), "  a-very-long-package-name  ab            ");
    assert_eq!(format_packages(&[]), "");
    assert_eq!(format_packages(&["".to_string()]), "");
}

#[test]
fn path_config_line() {
    assert_eq!(
        cbp::format::generate_path_configs("/home/u/.cbp/bin"),
        "export PATH=\"/home/u/.cbp/bin:$PATH\""
    );
}

#[test]
fn font_instructions_per_system() {
    let linux = cbp::format::font_install_instructions("linux", "/h/.cbp/share/fonts");
    assert!(linux.starts_with("==> To install fonts for current user, run:\n\n"));
    assert!(linux.contains("mkdir -p \"$HOME/.local/share/fonts\"\n"));
    assert!(linux.contains("    find \"/h/.cbp/share/fonts\" -type f -iname \"*.$ext\" -print0"));
    assert!(linux.ends_with("done\nfc-cache -f -v\n"));
    let macos = cbp::format::font_install_instructions("macos", "/h/f");
    assert_eq!(
        macos,
        "==> To install fonts for current user, run:\n\nfor ext in ttf ttc otf; do\n    find \"/h/f\" -type f -iname \"*.$ext\" -print0 | while IFS= read -r -d '' font; do\n        basename=\"$(basename \"$font\")\"\n        if [ ! -f \"$HOME/Library/Fonts/$basename\" ]; then\n            cp \"$font\" \"$HOME/Library/Fonts/\"\n            echo \"Installing $basename...\"\n        fi\n    done\ndone\n"
    );
    let windows = cbp::format::font_install_instructions("windows", "C:/f");
    assert!(windows.contains("Get-ChildItem \"C:/f\" -Include '*.ttf','*.ttc','*.otf' -Recurse"));
    assert!(windows.contains("If (-not(Test-Path \"C:\\Windows\\Fonts\\$($_.Name)\") -and\n"));
    assert!(windows.ends_with("    }\n}\n"));
    let other = cbp::format::font_install_instructions("plan9", "/f");
    assert_eq!(other, "==> To install fonts for current user, run:\n\n");
}

#[test]
fn shell_rc_gets_a_block() {
    let updated = cbp::format::update_shell_rc("# Existing content\n", "/c/bin");
    assert_eq!(
        updated,
        "# Existing content\n\n# .cbp start\nexport PATH=\"/c/bin:$PATH\"\n# .cbp end\n\n"
    );
}

#[test]
fn shell_rc_block_is_replaced() {
    let before = "a\n  # .cbp start  \nexport PATH=\"/old/bin:$PATH\"\nstale\n# .cbp end\nb\n";
    let updated = cbp::format::update_shell_rc(before, "/new/bin");
    assert_eq!(
        updated,
        "a\n  # .cbp start  \nexport PATH=\"/new/bin:$PATH\"\n# .cbp end\nb\n\n"
    );
}

#[test]
fn shell_rc_that_is_empty() {
    let updated = cbp::format::update_shell_rc("", "/c/bin");
    assert_eq!(updated, "# .cbp start\nexport PATH=\"/c/bin:$PATH\"\n# .cbp end\n\n");
}

#[test]
fn shell_rc_update_is_stable() {
    let once = cbp::format::update_shell_rc("x\n", "/c/bin");
    let twice = cbp::format::update_shell_rc(&once, "/c/bin");
    assert_eq!(twice, "x\n\n# .cbp start\nexport PATH=\"/c/bin:$PATH\"\n# .cbp end\n\n");
}
