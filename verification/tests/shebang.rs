use cbp::fix_shebang;
use cbp::shebang::is_text_head;

#[test]
fn perl_line_is_made_portable() {
    let fixed = fix_shebang("#!/usr/local/bin/perl -w\nprint 1;\n").unwrap();
    assert_eq!(fixed, "#!/usr/bin/env perl\nprint 1;\n");
}

#[test]
fn python_line_is_made_portable() {
    let fixed = fix_shebang("#!/opt/python3.11/bin/python\r\nimport os\r\nx = 1").unwrap();
    assert_eq!(fixed, "#!/usr/bin/env python3\nimport os\nx = 1\n");
}

#[test]
fn perl_wins_over_python() {
    let fixed = fix_shebang("#!/usr/bin/python-perl\n").unwrap();
    assert_eq!(fixed, "#!/usr/bin/env perl\n");
}

#[test]
fn other_scripts_stay() {
    assert_eq!(fix_shebang("#!/bin/sh\necho perl\n"), None);
    assert_eq!(fix_shebang("print 'perl'\n"), None);
    assert_eq!(fix_shebang(" #!/usr/bin/perl\n"), None);
    assert_eq!(fix_shebang(""), None);
    assert_eq!(fix_shebang("\n#!/usr/bin/perl\n"), None);
}

#[test]
fn portable_scripts_stay() {
    assert_eq!(fix_shebang("#!/usr/bin/env perl\nprint 1;"), None);
    assert_eq!(fix_shebang("#!/usr/bin/env python3\n"), None);
    assert_eq!(
        fix_shebang("#!/usr/bin/env python\n"),
        Some("#!/usr/bin/env python3\n".to_string())
    );
}

#[test]
fn text_is_told_from_binary() {
    assert!(is_text_head(b"#!/bin/sh\n"));
    assert!(is_text_head(b""));
    assert!(is_text_head(&[0x00, 0x7F, 0x80, 0xBF]));
    assert!(!is_text_head(&[b'a', 0xC3, 0xA9]));
    assert!(!is_text_head(&[0x7F, 0xFF]));
    assert!(!is_text_head(&[0xC0]));
}
