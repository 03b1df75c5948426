use cbp::archive::{create_archive, Member, MemberKind};
use cbp::filters::unmanaged_files;
use cbp::manifest::{declared_files, manifest_entries};
use cbp::store::{
    begin_install, finish_install, removal_step, resource_fork, InstallEnd, InstallStart,
    RemovalStep,
};
use cbp::{list_archive_files, CbpDirs};
use std::collections::BTreeMap;

#[derive(Clone, Copy, PartialEq, Debug)]
enum Node {
    File,
    Link,
    Dir,
}

struct Root {
    nodes: BTreeMap<String, Node>,
    records: BTreeMap<String, String>,
}

fn install(root: &mut Root, package: &str, archive: &[u8], members: &[(&str, Node)]) -> bool {
    let text = list_archive_files(archive).unwrap();
    let contents = manifest_entries(&text);
    match begin_install(root.records.contains_key(package), &contents) {
        InstallStart::AlreadyInstalled => false,
        InstallStart::Record { manifest } => {
            root.records.insert(package.to_string(), manifest);
            for (path, node) in members {
                let mut dir = String::new();
                let parts: Vec<&str> = path.split('/').collect();
                for part in &parts[..parts.len() - 1] {
                    if !dir.is_empty() {
                        dir.push('/');
                    }
                    dir.push_str(part);
                    root.nodes.insert(dir.clone(), Node::Dir);
                }
                root.nodes.insert(path.to_string(), *node);
            }
            assert_eq!(finish_install(true), InstallEnd::Installed);
            true
        }
    }
}

fn remove(root: &mut Root, package: &str) -> Option<Vec<String>> {
    let text = root.records.get(package)?.clone();
    let mut missing = Vec::new();
    for line in text.lines() {
        let node = root.nodes.get(line).copied();
        let step = removal_step(
            line,
            node.is_some(),
            node == Some(Node::File),
            node == Some(Node::Link),
        );
        match step {
            RemovalStep::Blank | RemovalStep::Leave => {}
            RemovalStep::ReportMissing => missing.push(line.to_string()),
            RemovalStep::Delete => {
                root.nodes.remove(line);
                if let Some(fork) = resource_fork(line) {
                    if root.nodes.get(&fork) == Some(&Node::File) {
                        root.nodes.remove(&fork);
                    }
                }
            }
        }
    }
    root.records.remove(package);
    Some(missing)
}

fn zlib() -> (Vec<u8>, Vec<(&'static str, Node)>) {
    let members = vec![
        Member {
            path: "include/zlib.h".to_string(),
            kind: MemberKind::File { mode: 0o644, content: b"#define ZLIB_H\n".to_vec() },
        },
        Member {
            path: "lib/libz.a".to_string(),
            kind: MemberKind::File { mode: 0o644, content: vec![b'!', b'<', 0, 1, 2] },
        },
    ];
    (
        create_archive(&members).unwrap(),
        vec![("include/zlib.h", Node::File), ("lib/libz.a", Node::File)],
    )
}

#[test]
fn test_install_real_package() {
    let temp_dir = tempfile::tempdir().unwrap();
    let cbp_dirs = CbpDirs::from(temp_dir.path().to_str().unwrap());
    let members = vec![
        Member {
            path: "include/zlib.h".to_string(),
            kind: MemberKind::File { mode: 0o644, content: b"#define ZLIB_H\n".to_vec() },
        },
        Member {
            path: "lib/libz.a".to_string(),
            kind: MemberKind::File { mode: 0o744, content: vec![b'!', b'<', 0, 1, 2] },
        },
        Member {
            path: "lib/libz.link".to_string(),
            kind: MemberKind::Symlink { target: "libz.a".to_string() },
        },
        Member {
            path: "lib/.DS_Store".to_string(),
            kind: MemberKind::File { mode: 0o644, content: b"junk".to_vec() },
        },
    ];
    let test_file = cbp::archive::archive_tree(members, false).unwrap();

    let file_list = match begin_install(false, &cbp::archive::archive_contents(&test_file).unwrap()) {
        InstallStart::Record { manifest } => manifest,
        InstallStart::AlreadyInstalled => panic!("nothing is installed yet"),
    };
    assert!(file_list.contains("include/zlib.h"));
    assert!(file_list.contains("lib/libz.a"));
    assert_eq!(file_list, list_archive_files(&test_file).unwrap());

    let home = std::path::Path::new(&cbp_dirs.home);
    let mut archive = tar::Archive::new(flate2::read::GzDecoder::new(test_file.as_slice()));
    let extracted = archive.unpack(home);
    assert_eq!(finish_install(extracted.is_ok()), InstallEnd::Installed);

    assert!(home.join("include/zlib.h").exists());
    assert!(home.join("lib/libz.a").exists());
    for line in manifest_entries(&file_list) {
        assert!(home.join(&line).exists() || home.join(&line).is_symlink(), "{}", line);
    }
    assert_eq!(home.join("include/zlib.h").metadata().unwrap().len(), 15);
    assert_eq!(home.join("lib/libz.a").metadata().unwrap().len(), 5);
    assert!(home.join("lib/libz.link").is_symlink());
    assert_eq!(home.join("lib/libz.link").read_link().unwrap().to_str(), Some("libz.a"));
    assert!(!home.join("lib/.DS_Store").exists());
    assert!(!file_list.contains(".DS_Store"));
}

#[test]
fn install_then_remove_zlib() {
    let (archive, members) = zlib();
    let mut root = Root { nodes: BTreeMap::new(), records: BTreeMap::new() };
    assert!(install(&mut root, "zlib", &archive, &members));
    assert_eq!(root.records.get("zlib").unwrap(), "include/zlib.h\nlib/libz.a\n");
    for path in manifest_entries(root.records.get("zlib").unwrap()) {
        assert!(root.nodes.contains_key(&path));
    }
    let missing = remove(&mut root, "zlib").unwrap();
    assert!(missing.is_empty());
    assert!(!root.records.contains_key("zlib"));
    assert!(!root.nodes.contains_key("include/zlib.h"));
    assert!(!root.nodes.contains_key("lib/libz.a"));
    assert_eq!(root.nodes.get("include"), Some(&Node::Dir));
    assert_eq!(root.nodes.get("lib"), Some(&Node::Dir));
}

#[test]
fn install_twice_changes_nothing() {
    let (archive, members) = zlib();
    let mut root = Root { nodes: BTreeMap::new(), records: BTreeMap::new() };
    assert!(install(&mut root, "zlib", &archive, &members));
    let nodes = root.nodes.clone();
    let records = root.records.clone();
    assert!(!install(&mut root, "zlib", &archive, &[("other/file", Node::File)]));
    assert_eq!(root.nodes, nodes);
    assert_eq!(root.records, records);
}

#[test]
fn remove_leaves_other_packages_alone() {
    let (archive, members) = zlib();
    let mut root = Root { nodes: BTreeMap::new(), records: BTreeMap::new() };
    assert!(install(&mut root, "zlib", &archive, &members));
    root.records.insert("bzip2".to_string(), "lib/libbz2.a\n".to_string());
    root.nodes.insert("lib/libbz2.a".to_string(), Node::File);
    root.nodes.insert("lib/._libz.a".to_string(), Node::File);
    root.nodes.remove("include/zlib.h");
    let missing = remove(&mut root, "zlib").unwrap();
    assert_eq!(missing, vec!["include/zlib.h"]);
    assert_eq!(root.records.get("bzip2").unwrap(), "lib/libbz2.a\n");
    assert!(root.nodes.contains_key("lib/libbz2.a"));
    assert!(!root.nodes.contains_key("lib/._libz.a"));
    assert!(remove(&mut root, "zlib").is_none());
}

#[test]
fn removal_steps() {
    assert_eq!(removal_step("", true, true, false), RemovalStep::Blank);
    assert_eq!(removal_step("a", false, false, false), RemovalStep::ReportMissing);
    assert_eq!(removal_step("a", true, false, false), RemovalStep::Leave);
    assert_eq!(removal_step("a", true, true, false), RemovalStep::Delete);
    assert_eq!(removal_step("a", false, false, true), RemovalStep::Delete);
    assert_eq!(removal_step("a", true, false, true), RemovalStep::Delete);
}

#[test]
fn resource_forks() {
    assert_eq!(resource_fork("/r/lib/libz.a"), Some("/r/lib/._libz.a".to_string()));
    assert_eq!(resource_fork("libz.a"), Some("._libz.a".to_string()));
    assert_eq!(resource_fork("/"), None);
    assert_eq!(resource_fork("a/.."), None);
}

#[test]
fn failed_extraction_rolls_back() {
    assert_eq!(finish_install(false), InstallEnd::RolledBack);
    assert_eq!(finish_install(true), InstallEnd::Installed);
}

#[test]
fn unmanaged_files_after_install() {
    let (archive, members) = zlib();
    let mut root = Root { nodes: BTreeMap::new(), records: BTreeMap::new() };
    assert!(install(&mut root, "zlib", &archive, &members));
    root.nodes.insert("stray".to_string(), Node::File);
    let all: Vec<String> = root
        .nodes
        .iter()
        .filter(|(_, n)| **n != Node::Dir)
        .map(|(p, _)| p.clone())
        .collect();
    let texts: Vec<String> = root.records.values().cloned().collect();
    assert_eq!(unmanaged_files(&all, &declared_files(&texts)), vec!["stray"]);
}

#[test]
fn scenario_zlib_from_tarball_to_removal() {
    let text = r#"{"name":"zlib","downloads":{"macos":{"url":"...","binary":"lib*.a"}}}"#;
    let descriptor = cbp::read_package_json(text, "zlib").unwrap();
    assert_eq!(descriptor.downloads[0].1.binary, Some(vec!["lib*.a".to_string()]));

    let fetched = ["zlib-1.3/include/zlib.h", "zlib-1.3/lib/libz.a"];
    let top = vec!["zlib-1.3".to_string()];
    let tree_root = cbp::rules::tree_root(None, &top, "zlib");
    assert_eq!(tree_root, "zlib-1.3");
    let tree: Vec<String> = fetched
        .iter()
        .map(|p| p.strip_prefix("zlib-1.3/").unwrap().to_string())
        .collect();
    let binaries =
        cbp::find_binary_files(&tree, descriptor.downloads[0].1.binary.as_ref().unwrap()).unwrap();
    assert_eq!(binaries, vec!["lib/libz.a"]);

    let members: Vec<Member> = cbp::filters::archive_members(&tree, false)
        .into_iter()
        .map(|path| Member {
            path,
            kind: MemberKind::File { mode: 0o644, content: b"zlib".to_vec() },
        })
        .collect();
    let archive = create_archive(&members).unwrap();

    let mut root = Root { nodes: BTreeMap::new(), records: BTreeMap::new() };
    let placed = [("include/zlib.h", Node::File), ("lib/libz.a", Node::File)];
    assert!(install(&mut root, "zlib", &archive, &placed));
    assert!(root.nodes.contains_key("include/zlib.h"));
    assert!(root.nodes.contains_key("lib/libz.a"));
    assert_eq!(
        manifest_entries(root.records.get("zlib").unwrap()),
        vec!["include/zlib.h", "lib/libz.a"]
    );

    remove(&mut root, "zlib").unwrap();
    assert!(!root.nodes.contains_key("include/zlib.h"));
    assert!(!root.nodes.contains_key("lib/libz.a"));
    assert!(!root.records.contains_key("zlib"));
    assert_eq!(root.nodes.get("include"), Some(&Node::Dir));
    assert_eq!(root.nodes.get("lib"), Some(&Node::Dir));
}
