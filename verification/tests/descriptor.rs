use cbp::descriptor::{read_descriptor, read_download, violation_report, DescriptorError};
use cbp::json::Json;
use cbp::read_package_json;

const ZLIB: &str = r##"{
    "name": "zlib",
    "type": "prebuild",
    "downloads": {
        "macos": {
            "url": "https://example.org/zlib-1.3.tar.gz",
            "binary": "lib*.a",
            "rename": {"zlib-*": "zlib"},
            "clean": ["share/man", "*.la"],
            "symlink": {"z": "tools/z/z", "a": "tools/a"},
            "wrapper": {"run": ["#!/bin/sh", 7, "exec z \"$@\""], "one": "echo 1\n"},
            "shebang": true,
            "extract": "unzip -q",
            "download_name": "zlib.zip"
        },
        "font": {"url": "https://example.org/c.zip", "binary": ["*.ttf", 3, "*.otf"]}
    }
}"##;

fn text(s: &str) -> Json {
    Json::Text(s.to_string())
}

fn object(members: Vec<(&str, Json)>) -> Json {
    Json::Object(members.into_iter().map(|(k, v)| (k.to_string(), v)).collect())
}

#[test]
fn descriptor_is_read() {
    let d = read_package_json(ZLIB, "zlib").unwrap();
    assert_eq!(d.name, "zlib");
    assert_eq!(d.kind.as_deref(), Some("prebuild"));
    assert_eq!(d.downloads.len(), 2);
    let (key, font) = &d.downloads[0];
    assert_eq!(key, "font");
    assert_eq!(font.binary.as_ref().unwrap(), &vec!["*.ttf".to_string(), "*.otf".to_string()]);
    assert!(!font.shebang);
    assert!(font.rename.is_none());
    assert!(font.extract.is_none());
    assert!(font.clean.is_empty() && font.symlink.is_empty() && font.wrapper.is_empty());
    let (key, macos) = &d.downloads[1];
    assert_eq!(key, "macos");
    assert_eq!(macos.url, "https://example.org/zlib-1.3.tar.gz");
    assert_eq!(macos.binary.as_ref().unwrap(), &vec!["lib*.a".to_string()]);
    assert_eq!(macos.rename, Some(("zlib-*".to_string(), "zlib".to_string())));
    assert_eq!(macos.clean, vec!["share/man", "*.la"]);
    assert_eq!(
        macos.symlink,
        vec![
            ("a".to_string(), "tools/a".to_string()),
            ("z".to_string(), "tools/z/z".to_string())
        ]
    );
    assert_eq!(
        macos.wrapper,
        vec![
            ("one".to_string(), "echo 1\n".to_string()),
            ("run".to_string(), "#!/bin/sh\nexec z \"$@\"\n".to_string())
        ]
    );
    assert!(macos.shebang);
    assert_eq!(macos.extract.as_deref(), Some("unzip -q"));
    assert_eq!(macos.download_name.as_deref(), Some("zlib.zip"));
}

#[test]
fn descriptor_of_the_scenario() {
    let text = r#"{"name":"zlib","downloads":{"macos":{"url":"...","binary":"lib*.a"}}}"#;
    let d = read_package_json(text, "zlib").unwrap();
    assert_eq!(d.downloads.len(), 1);
    assert_eq!(d.downloads[0].0, "macos");
    assert_eq!(d.downloads[0].1.url, "...");
    assert_eq!(d.downloads[0].1.binary, Some(vec!["lib*.a".to_string()]));
    assert!(d.kind.is_none());
}

#[test]
fn descriptor_without_downloads() {
    let d = read_package_json(r#"{"name": "invalid"}"#, "invalid").unwrap();
    assert!(d.downloads.is_empty());
}

#[test]
fn descriptor_errors() {
    let cases = [
        ("{", DescriptorError::Malformed),
        ("", DescriptorError::Malformed),
        ("[]", DescriptorError::NameMissing),
        (r#"{"name": 3}"#, DescriptorError::NameMissing),
        (r#"{"name": "bzip2"}"#, DescriptorError::NameMismatch),
        (r#"{"name": "zlib", "downloads": []}"#, DescriptorError::DownloadsNotObject),
        (r#"{"name": "zlib", "downloads": {"linux": "x"}}"#, DescriptorError::DownloadNotObject),
        (r#"{"name": "zlib", "downloads": {"linux": {}}}"#, DescriptorError::UrlMissing),
        (r#"{"name": "zlib", "downloads": {"linux": {"url": 1}}}"#, DescriptorError::UrlMissing),
        (
            r#"{"name": "zlib", "downloads": {"linux": {"url": "u", "extract": 1}}}"#,
            DescriptorError::ExtractNotText,
        ),
        (
            r#"{"name": "zlib", "downloads": {"linux": {"url": "u", "rename": "x"}}}"#,
            DescriptorError::RenameNotObject,
        ),
        (
            r#"{"name": "zlib", "downloads": {"linux": {"url": "u", "rename": {"a": 1}}}}"#,
            DescriptorError::RenameTargetNotText,
        ),
        (
            r#"{"name": "zlib", "downloads": {"linux": {"url": "u", "symlink": []}}}"#,
            DescriptorError::SymlinkNotObject,
        ),
        (
            r#"{"name": "zlib", "downloads": {"linux": {"url": "u", "symlink": {"a": "b", "c": null}}}}"#,
            DescriptorError::SymlinkTargetNotText,
        ),
        (
            r#"{"name": "zlib", "downloads": {"linux": {"url": "u", "wrapper": {"a": 1}}}}"#,
            DescriptorError::WrapperContentInvalid,
        ),
        (
            r#"{"name": "zlib", "downloads": {"linux": {"url": "u", "clean": "x"}}}"#,
            DescriptorError::CleanNotArray,
        ),
        (
            r#"{"name": "zlib", "downloads": {"linux": {"url": "u", "clean": ["a", 1]}}}"#,
            DescriptorError::CleanPathNotText,
        ),
        (
            r#"{"name": "zlib", "downloads": {"linux": {"url": "u", "binary": {}}}}"#,
            DescriptorError::BinaryInvalid,
        ),
        (
            r#"{"name": "zlib", "downloads": {"linux": {"url": "u", "binary": 1, "clean": 2}}}"#,
            DescriptorError::CleanNotArray,
        ),
        (
            r#"{"name": "zlib", "downloads": {"linux": {"url": "u", "clean": 2}, "a": 1}}"#,
            DescriptorError::DownloadNotObject,
        ),
    ];
    for (text, expected) in cases {
        assert_eq!(read_package_json(text, "zlib").unwrap_err(), expected, "for {}", text);
    }
}

#[test]
fn descriptor_rename_honours_the_first_rule() {
    let rules = object(vec![
        ("url", text("u")),
        ("rename", object(vec![("first-*", text("one")), ("second-*", Json::Null)])),
    ]);
    let spec = read_download(&rules).unwrap();
    assert_eq!(spec.rename, Some(("first-*".to_string(), "one".to_string())));
    let empty = object(vec![("url", text("u")), ("rename", object(vec![]))]);
    assert_eq!(read_download(&empty).unwrap().rename, None);
}

#[test]
fn descriptor_wrapper_that_is_no_object_counts_as_none() {
    let rules = object(vec![("url", text("u")), ("wrapper", text("x")), ("shebang", text("true"))]);
    let spec = read_download(&rules).unwrap();
    assert!(spec.wrapper.is_empty());
    assert!(!spec.shebang);
}

#[test]
fn descriptor_from_a_value() {
    let json = object(vec![("name", text("zlib")), ("name", text("other"))]);
    assert_eq!(read_descriptor(&json, "zlib").unwrap().name, "zlib");
    assert_eq!(read_descriptor(&json, "other").unwrap_err(), DescriptorError::NameMismatch);
}

#[test]
fn json_values_are_read() {
    let value = Json::from_text(r#"{"b": [1, "x", null, true, 2.5], "a": {"k": "v"}}"#).unwrap();
    let items = match value.get("b").unwrap() {
        Json::Array(items) => items,
        _ => panic!("no array"),
    };
    assert!(matches!(&items[0], Json::Number(n) if n == "1"));
    assert!(matches!(&items[1], Json::Text(s) if s == "x"));
    assert!(matches!(&items[2], Json::Null));
    assert!(matches!(&items[3], Json::Bool(true)));
    assert!(matches!(&items[4], Json::Number(n) if n == "2.5"));
    assert_eq!(value.get("a").unwrap().get_text("k").unwrap(), "v");
    assert!(value.get("c").is_none());
    assert!(value.get("a").unwrap().get("k").unwrap().get("x").is_none());
    assert!(value.get_text("b").is_none());
    assert!(Json::from_text("{\"a\": }").is_err());
    assert_eq!(cbp::json::texts_of(items), vec!["x"]);
    assert!(cbp::json::strict_texts(items).is_none());
}

#[test]
fn descriptor_errors_have_their_sentences() {
    assert_eq!(DescriptorError::NameMissing.message(), "Field 'name' not found");
    assert_eq!(DescriptorError::BinaryInvalid.message(), "Invalid binary format");
    assert_eq!(DescriptorError::CleanPathNotText.message(), "Clean path must be a string");
    assert_eq!(DescriptorError::UrlMissing.message(), "URL not found");
}

#[test]
fn schema_violations_are_reported() {
    assert_eq!(violation_report(&Vec::new()), None);
    assert_eq!(violation_report(&vec!["a".to_string()]), Some("a".to_string()));
    assert_eq!(
        violation_report(&vec!["\"downloads\" is a required property".to_string(), "b".to_string()]),
        Some("\"downloads\" is a required property\n  - b".to_string())
    );
}
