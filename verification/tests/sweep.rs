use cbp::paths::{file_name, file_stem, join_path, parent_path, with_extension};
use cbp::text::{lines_chars, replace_all, split_chars, trim_chars, words_of};
use std::path::Path;

/// Every text over the alphabet with at most `len` characters.
fn texts(alphabet: &[char], len: usize) -> Vec<String> {
    let mut all = vec![String::new()];
    let mut last = vec![String::new()];
    for _ in 0..len {
        let mut next = Vec::new();
        for text in &last {
            for c in alphabet {
                let mut longer = text.clone();
                longer.push(*c);
                next.push(longer);
            }
        }
        all.extend(next.iter().cloned());
        last = next;
    }
    all
}

fn strings(parts: &Vec<Vec<char>>) -> Vec<String> {
    parts.iter().map(|p| p.iter().collect()).collect()
}

#[test]
fn sweep_lines_words_trim_split() {
    for text in texts(&['a', ' ', '\n', '\r', '/'], 6) {
        let chars: Vec<char> = text.chars().collect();
        let lines: Vec<String> = text.lines().map(|l| l.to_string()).collect();
        assert_eq!(strings(&lines_chars(&chars)), lines, "lines of {:?}", text);
        let words: Vec<String> = text.split_whitespace().map(|l| l.to_string()).collect();
        assert_eq!(strings(&words_of(&chars)), words, "words of {:?}", text);
        let trimmed: String = trim_chars(&chars).iter().collect();
        assert_eq!(trimmed, text.trim(), "trim of {:?}", text);
        let pieces: Vec<String> = text.split('/').map(|l| l.to_string()).collect();
        assert_eq!(strings(&split_chars(&chars, '/')), pieces, "split of {:?}", text);
    }
}

#[test]
fn sweep_replace() {
    for text in texts(&['a', 'b'], 7) {
        for pattern in ["a", "ab", "aa", "aba", "bb"] {
            for with in ["", "b", "ab"] {
                assert_eq!(
                    replace_all(&text, pattern, with),
                    text.replace(pattern, with),
                    "{:?} {:?} {:?}",
                    text,
                    pattern,
                    with
                );
            }
        }
    }
}

#[test]
fn sweep_paths() {
    for path in texts(&['a', '.', '/'], 7) {
        let p = Path::new(&path);
        assert_eq!(
            file_name(&path),
            p.file_name().map(|t| t.to_str().unwrap().to_string()),
            "file name of {:?}",
            path
        );
        assert_eq!(
            file_stem(&path),
            p.file_stem().map(|t| t.to_str().unwrap().to_string()),
            "file stem of {:?}",
            path
        );
        assert_eq!(
            parent_path(&path),
            p.parent().map(|t| t.to_str().unwrap().to_string()),
            "parent of {:?}",
            path
        );
        assert_eq!(
            with_extension(&path, "exe"),
            p.with_extension("exe").to_str().unwrap().to_string(),
            "extension of {:?}",
            path
        );
    }
}

#[test]
fn sweep_join() {
    let parts = texts(&['a', '/'], 3);
    for base in &parts {
        for rel in &parts {
            assert_eq!(
                join_path(base, rel),
                Path::new(base).join(rel).to_str().unwrap().to_string(),
                "join of {:?} and {:?}",
                base,
                rel
            );
        }
    }
}

fn system_file_by_std(path: &str) -> bool {
    path.ends_with(".DS_Store")
        || path.split('/').rev().skip(1).any(|c| c == "__MACOSX" || c == "System Volume Information")
        || path.ends_with(".AppleDouble")
        || path.split('/').last().is_some_and(|f| f.starts_with("._"))
        || path.ends_with("Thumbs.db")
        || path.ends_with("desktop.ini")
        || path.ends_with("~")
        || path.ends_with(".swp")
        || path.ends_with(".lnk")
}

fn cbp_file_by_std(path: &str) -> bool {
    path.starts_with("bin/cbp")
        || path.starts_with("bin/zig-")
        || path.starts_with("records/")
        || path.starts_with("cache/")
        || path.starts_with("triplets/")
}

#[test]
fn sweep_filters() {
    let pieces = [
        "", "/", ".", "_", "~", "a", "bin/cbp", "bin/zig-", "records/", "cache/", "triplets/",
        ".DS_Store", "__MACOSX", ".AppleDouble", "._", "Thumbs.db", "desktop.ini", ".swp", ".lnk",
        "System Volume Information",
    ];
    for a in pieces {
        for b in pieces {
            for c in pieces {
                let path = format!("{}{}{}", a, b, c);
                assert_eq!(cbp::is_system_file(&path), system_file_by_std(&path), "{:?}", path);
                assert_eq!(cbp::is_cbp_file(&path), cbp_file_by_std(&path), "{:?}", path);
            }
        }
    }
}

fn format_by_std(packages: &[String]) -> String {
    let mut result = String::new();
    let mut prev_char = '\0';
    let mut count = 0;
    for name in packages {
        if name.is_empty() {
            continue;
        }
        let first_char = name.chars().next().unwrap();
        if prev_char != '\0' && first_char != prev_char {
            result.push('\n');
            count = 0;
        }
        if count > 0 && count * 16 + 16 > 80 {
            result.push('\n');
            count = 0;
        }
        prev_char = first_char;
        result.push_str(&format!("  {:<14}", name));
        count += 1;
    }
    result
}

#[test]
fn sweep_format_packages() {
    let names = texts(&['a', 'b'], 2);
    for n in 0..9usize {
        let mut packages = Vec::new();
        for i in 0..n {
            packages.push(names[(i * 5 + n) % names.len()].clone());
        }
        assert_eq!(cbp::format::format_packages(&packages), format_by_std(&packages));
        let same: Vec<String> = (0..n).map(|i| format!("a{}", "x".repeat(i * 3))).collect();
        assert_eq!(cbp::format::format_packages(&same), format_by_std(&same));
    }
}

fn shell_rc_by_std(content: &str, bin_dir: &str) -> String {
    let config = format!("export PATH=\"{}:$PATH\"", bin_dir);
    let mut new_content: Vec<String> = Vec::new();
    let mut in_section = false;
    let mut has_section = false;
    for line in content.lines() {
        match line.trim() {
            "# .cbp start" => {
                has_section = true;
                in_section = true;
                new_content.push(line.to_string());
                new_content.push(config.clone());
            }
            "# .cbp end" => {
                in_section = false;
                new_content.push(line.to_string());
            }
            _ if !in_section => new_content.push(line.to_string()),
            _ => {}
        }
    }
    if !has_section {
        if !new_content.is_empty() && !new_content.last().unwrap().is_empty() {
            new_content.push(String::new());
        }
        new_content.push("# .cbp start".to_string());
        new_content.push(config.clone());
        new_content.push("# .cbp end".to_string());
    }
    if !new_content.is_empty() && !new_content.last().unwrap().is_empty() {
        new_content.push(String::new());
    }
    new_content.join("\n") + "\n"
}

#[test]
fn sweep_shell_rc() {
    let lines = ["", "x", "# .cbp start", " # .cbp end ", "# .cbp end", "export PATH=\"/old:$PATH\""];
    for a in lines {
        for b in lines {
            for c in lines {
                for d in lines {
                    for end in ["", "\n", "\r\n"] {
                        let content = format!("{}\n{}\n{}\n{}{}", a, b, c, d, end);
                        assert_eq!(
                            cbp::update_shell_rc(&content, "/h/bin"),
                            shell_rc_by_std(&content, "/h/bin"),
                            "{:?}",
                            content
                        );
                    }
                }
            }
        }
    }
}

fn shebang_by_std(content: &str) -> Option<String> {
    let mut lines: Vec<&str> = content.lines().collect();
    if lines.is_empty() {
        return None;
    }
    if !lines[0].starts_with("#!") {
        return None;
    }
    let first_line = lines[0];
    let new_line = if first_line.contains("perl") {
        "#!/usr/bin/env perl"
    } else if first_line.contains("python") {
        "#!/usr/bin/env python3"
    } else {
        return None;
    };
    if first_line != new_line {
        lines[0] = new_line;
        return Some(lines.join("\n") + "\n");
    }
    None
}

#[test]
fn sweep_shebang() {
    let heads = ["", "#!", "#", " #!", "#!/usr/bin/env perl", "#!/usr/bin/env python3"];
    let mids = ["", "perl", "python", "/bin/sh", "pytho", "\n", "\r\n"];
    let tails = ["", "\n", "\r\n", "\nperl\n", "\n\nx", "x\r"];
    for a in heads {
        for b in mids {
            for c in mids {
                for d in tails {
                    let content = format!("{}{}{}{}", a, b, c, d);
                    assert_eq!(cbp::fix_shebang(&content), shebang_by_std(&content), "{:?}", content);
                }
            }
        }
    }
}
