use cbp::archive::{
    archive_contents, archive_tree, create_archive, list_archive_files, normalize_mode,
    read_file_from_archive, ArchiveError, Member, MemberKind,
};

fn sample() -> Vec<Member> {
    vec![
        Member {
            path: "bin/tool".to_string(),
            kind: MemberKind::File { mode: 0o700, content: b"#!/bin/sh\necho hi\n".to_vec() },
        },
        Member {
            path: "include/zlib.h".to_string(),
            kind: MemberKind::File { mode: 0o664, content: b"int z;\n".to_vec() },
        },
        Member {
            path: "lib/libz.so".to_string(),
            kind: MemberKind::Symlink { target: "libz.so.1".to_string() },
        },
    ]
}

#[test]
fn archive_lists_what_was_put_in() {
    let bytes = create_archive(&sample()).unwrap();
    let contents = archive_contents(&bytes).unwrap();
    assert_eq!(contents, vec!["bin/tool", "include/zlib.h", "lib/libz.so"]);
    let text = list_archive_files(&bytes).unwrap();
    assert_eq!(text, "bin/tool\ninclude/zlib.h\nlib/libz.so\n");
}

#[test]
fn archive_member_reads_back_byte_for_byte() {
    let bytes = create_archive(&sample()).unwrap();
    let header = read_file_from_archive(&bytes, "include/zlib.h").unwrap();
    assert_eq!(header, "int z;\n");
    let tool = read_file_from_archive(&bytes, "bin/tool").unwrap();
    assert_eq!(tool, "#!/bin/sh\necho hi\n");
}

#[test]
fn archive_is_the_same_when_built_twice() {
    let first = create_archive(&sample()).unwrap();
    let second = create_archive(&sample()).unwrap();
    assert_eq!(first, second);
    assert_eq!(&first[0..2], &[0x1f, 0x8b]);
}

#[test]
fn archive_differs_with_its_members() {
    let mut other = sample();
    other[1].kind = MemberKind::File { mode: 0o664, content: b"int y;\n".to_vec() };
    assert_ne!(create_archive(&sample()).unwrap(), create_archive(&other).unwrap());
}

#[test]
fn archive_ignores_permission_noise() {
    let mut other = sample();
    other[1].kind = MemberKind::File { mode: 0o600, content: b"int z;\n".to_vec() };
    assert_eq!(create_archive(&sample()).unwrap(), create_archive(&other).unwrap());
}

#[test]
fn archive_member_that_is_missing() {
    let bytes = create_archive(&sample()).unwrap();
    let missing = read_file_from_archive(&bytes, "share/none");
    assert!(matches!(missing, Err(ArchiveError::NotFound { path }) if path == "share/none"));
}

#[test]
fn archive_member_that_is_no_text() {
    let members = vec![Member {
        path: "blob".to_string(),
        kind: MemberKind::File { mode: 0o644, content: vec![0xff, 0xfe, 0x00] },
    }];
    let bytes = create_archive(&members).unwrap();
    let binary = read_file_from_archive(&bytes, "blob");
    assert!(matches!(binary, Err(ArchiveError::NotText { path }) if path == "blob"));
}

#[test]
fn archive_that_is_none() {
    let garbage = b"this is no archive".to_vec();
    assert!(matches!(archive_contents(&garbage), Err(ArchiveError::Format { .. })));
    assert!(matches!(list_archive_files(&garbage), Err(ArchiveError::Format { .. })));
    assert!(matches!(read_file_from_archive(&garbage, "x"), Err(ArchiveError::Format { .. })));
}

#[test]
fn archive_refuses_a_path_that_climbs() {
    let members = vec![Member {
        path: "../escape".to_string(),
        kind: MemberKind::File { mode: 0o644, content: Vec::new() },
    }];
    assert!(matches!(create_archive(&members), Err(ArchiveError::Format { .. })));
}

#[test]
fn mode_is_normalized() {
    assert_eq!(normalize_mode(0o700), 0o755);
    assert_eq!(normalize_mode(0o664), 0o644);
    assert_eq!(normalize_mode(0o000), 0o644);
    assert_eq!(normalize_mode(0o001), 0o755);
    assert_eq!(normalize_mode(0o4711), 0o4755);
}

#[test]
fn archive_round_trip_up_to_the_filters() {
    let tree: Vec<(&str, &[u8])> = vec![
        (".DS_Store", b"junk"),
        ("._test", b"fork"),
        ("lib/libtest.a", b"test lib"),
        ("share/man/test.1", b"man page"),
        ("test.txt", b"test content"),
    ];
    let files: Vec<String> = tree.iter().map(|(p, _)| p.to_string()).collect();
    for cleanup in [false, true] {
        let kept = cbp::filters::archive_members(&files, cleanup);
        let members: Vec<Member> = tree
            .iter()
            .filter(|(p, _)| kept.contains(&p.to_string()))
            .map(|(p, c)| Member {
                path: p.to_string(),
                kind: MemberKind::File { mode: 0o644, content: c.to_vec() },
            })
            .collect();
        let bytes = create_archive(&members).unwrap();
        assert_eq!(archive_contents(&bytes).unwrap(), kept);
        assert!(!kept.contains(&".DS_Store".to_string()));
        assert!(!kept.contains(&"._test".to_string()));
        assert_eq!(kept.contains(&"share/man/test.1".to_string()), !cleanup);
        for (path, content) in &tree {
            if kept.contains(&path.to_string()) {
                let back = read_file_from_archive(&bytes, path).unwrap();
                assert_eq!(back.as_bytes(), *content);
            }
        }
    }
}

#[test]
fn archive_keeps_links_as_links() {
    let bytes = create_archive(&sample()).unwrap();
    let mut reader = tar::Archive::new(flate2::read::GzDecoder::new(bytes.as_slice()));
    let mut seen = Vec::new();
    for entry in reader.entries().unwrap() {
        let entry = entry.unwrap();
        let path = entry.path().unwrap().to_string_lossy().to_string();
        let header = entry.header();
        assert_eq!(header.uid().unwrap(), 0);
        assert_eq!(header.gid().unwrap(), 0);
        assert_eq!(header.mtime().unwrap(), 1704067200);
        if header.entry_type().is_symlink() {
            let target = entry.link_name().unwrap().unwrap().to_string_lossy().to_string();
            assert_eq!(header.size().unwrap(), 0);
            seen.push(format!("{} -> {}", path, target));
        } else {
            seen.push(format!("{} {:o}", path, header.mode().unwrap()));
        }
    }
    assert_eq!(seen, vec!["bin/tool 755", "include/zlib.h 644", "lib/libz.so -> libz.so.1"]);
}

#[test]
fn archive_does_not_depend_on_the_order_given() {
    let mut reversed = sample();
    reversed.reverse();
    let mut rotated = sample();
    rotated.rotate_left(1);
    let bytes = create_archive(&sample()).unwrap();
    assert_eq!(create_archive(&reversed).unwrap(), bytes);
    assert_eq!(create_archive(&rotated).unwrap(), bytes);
    assert_eq!(
        archive_contents(&create_archive(&reversed).unwrap()).unwrap(),
        vec!["bin/tool", "include/zlib.h", "lib/libz.so"]
    );
}

fn file(path: &str) -> Member {
    Member { path: path.to_string(), kind: MemberKind::File { mode: 0o644, content: b"x".to_vec() } }
}

#[test]
fn archive_takes_every_plain_member() {
    let long = format!("{}/{}", "d".repeat(120), "f".repeat(130));
    let members = vec![
        file("a"),
        file("./b"),
        file("c/./d"),
        file("e//f"),
        file("g/"),
        file("..."),
        file("h/..i"),
        file(&long),
        file(&"n".repeat(300)),
        Member {
            path: "link".to_string(),
            kind: MemberKind::Symlink { target: format!("/abs/../{}", "t".repeat(200)) },
        },
        Member { path: "up".to_string(), kind: MemberKind::Symlink { target: "..".to_string() } },
    ];
    let bytes = create_archive(&members).unwrap();
    let contents = archive_contents(&bytes).unwrap();
    assert_eq!(contents.len(), members.len());
    assert!(contents.contains(&long));
    assert!(contents.contains(&"n".repeat(300)));
}

#[test]
fn archive_refuses_what_is_not_plain() {
    for path in ["", "/abs", "a/../b", "..", "nul\0byte"] {
        assert!(
            matches!(create_archive(&vec![file(path)]), Err(ArchiveError::Format { .. })),
            "{:?}",
            path
        );
    }
    let empty_target =
        vec![Member { path: "l".to_string(), kind: MemberKind::Symlink { target: String::new() } }];
    assert!(matches!(create_archive(&empty_target), Err(ArchiveError::Format { .. })));
}

#[test]
fn archive_of_a_tree_leaves_litter_out() {
    let tree = vec![
        file("test.txt"),
        file("__MACOSX/test.txt"),
        file(".DS_Store"),
        file("share/man/test.1"),
        file("lib/libtest.a"),
        file("lib/._libtest.a"),
        Member {
            path: "test.link".to_string(),
            kind: MemberKind::Symlink { target: "test.txt".to_string() },
        },
    ];
    let kept = archive_contents(&archive_tree(tree.clone(), false).unwrap()).unwrap();
    assert_eq!(kept, vec!["lib/libtest.a", "share/man/test.1", "test.link", "test.txt"]);
    let clean = archive_contents(&archive_tree(tree.clone(), true).unwrap()).unwrap();
    assert_eq!(clean, vec!["lib/libtest.a", "test.link", "test.txt"]);
    let mut shuffled = tree.clone();
    shuffled.reverse();
    assert_eq!(archive_tree(shuffled, true).unwrap(), archive_tree(tree, true).unwrap());
}
