use cbp::json::Json;
use cbp::testing::{
    command_path, expand_args, judge, read_case, read_tests, verdict, TestCase, Tests, Verdict,
};

fn strings(items: &[&str]) -> Vec<String> {
    items.iter().map(|s| s.to_string()).collect()
}

#[test]
fn tests_are_read() {
    let json = Json::from_text(
        r#"{"name": "zlib", "tests": [
            {"name": "version", "command": "zlib-flate", "args": ["--version", 1], "pattern": "1\\.3"},
            {"command": "ls", "args": "$(cbp prefix)/lib", "ignore_exit_code": true},
            {"command": "x", "args": {"no": "args"}, "ignore_exit_code": "yes"}
        ]}"#,
    )
    .unwrap();
    let cases = match read_tests(&json) {
        Tests::Cases(cases) => cases,
        _ => panic!("no tests"),
    };
    assert_eq!(cases.len(), 3);
    assert_eq!(cases[0].name, "version");
    assert_eq!(cases[0].command, "zlib-flate");
    assert_eq!(cases[0].args, strings(&["--version"]));
    assert_eq!(cases[0].pattern.as_deref(), Some("1\\.3"));
    assert!(!cases[0].ignore_exit_code);
    assert_eq!(cases[1].name, "test #1");
    assert_eq!(cases[1].args, strings(&["$(cbp prefix)/lib"]));
    assert!(cases[1].ignore_exit_code);
    assert!(cases[1].pattern.is_none());
    assert_eq!(cases[2].name, "test #2");
    assert!(cases[2].args.is_empty());
    assert!(!cases[2].ignore_exit_code);
}

#[test]
fn tests_that_are_not_defined() {
    assert!(matches!(read_tests(&Json::from_text(r#"{"name": "z"}"#).unwrap()), Tests::Undefined));
    assert!(matches!(read_tests(&Json::from_text(r#"{"tests": {}}"#).unwrap()), Tests::Undefined));
    assert!(matches!(read_tests(&Json::from_text(r#"[]"#).unwrap()), Tests::Undefined));
    let empty = read_tests(&Json::from_text(r#"{"tests": []}"#).unwrap());
    assert!(matches!(empty, Tests::Cases(cases) if cases.is_empty()));
}

#[test]
fn test_without_a_command() {
    let json =
        Json::from_text(r#"{"tests": [{"command": "a"}, {"name": "b"}, {"name": "c"}]}"#).unwrap();
    assert!(matches!(read_tests(&json), Tests::MissingCommand(1)));
}

#[test]
fn default_names_count_in_decimal() {
    let case = Json::from_text(r#"{"command": "a"}"#).unwrap();
    for index in [0usize, 9, 10, 11, 99, 100, 1234567890] {
        assert_eq!(read_case(&case, index).unwrap().name, format!("test #{}", index));
    }
}

#[test]
fn programs_of_tests() {
    for system in ["ls", "cat", "grep", "find", "which", "test", "mkdir", "rm", "cp", "mv"] {
        assert_eq!(command_path(system, "/h/.cbp/bin"), system);
    }
    assert_eq!(command_path("zlib-flate", "/h/.cbp/bin"), "/h/.cbp/bin/zlib-flate");
    assert_eq!(command_path("lsx", "/b"), "/b/lsx");
}

#[test]
fn arguments_get_the_home_directory() {
    let args = strings(&["$(cbp prefix)/lib", "-x", "a$(cbp prefix)b$(cbp prefix)"]);
    assert_eq!(expand_args(&args, "/h/.cbp"), strings(&["/h/.cbp/lib", "-x", "a/h/.cbpb/h/.cbp"]));
}

#[test]
fn verdicts() {
    assert_eq!(verdict(false, false, None), Verdict::FailedExit);
    assert_eq!(verdict(false, false, Some(true)), Verdict::FailedExit);
    assert_eq!(verdict(false, true, None), Verdict::Passed);
    assert_eq!(verdict(false, true, Some(false)), Verdict::FailedPattern);
    assert_eq!(verdict(true, false, Some(true)), Verdict::Passed);
    assert_eq!(verdict(true, false, Some(false)), Verdict::FailedPattern);
    assert_eq!(verdict(true, false, None), Verdict::Passed);
}

#[test]
fn tests_are_judged() {
    let mut case = TestCase {
        name: "t".to_string(),
        command: "c".to_string(),
        args: Vec::new(),
        ignore_exit_code: false,
        pattern: Some("^ok$".to_string()),
    };
    assert_eq!(judge(&case, true, "a\nok\n").unwrap(), Verdict::Passed);
    assert_eq!(judge(&case, true, "a\nnot ok\n").unwrap(), Verdict::FailedPattern);
    assert_eq!(judge(&case, false, "a\nok\n").unwrap(), Verdict::FailedExit);
    case.ignore_exit_code = true;
    assert_eq!(judge(&case, false, "ok").unwrap(), Verdict::Passed);
    case.pattern = Some("(".to_string());
    assert!(judge(&case, true, "x").is_err());
    case.ignore_exit_code = false;
    assert_eq!(judge(&case, false, "x").unwrap(), Verdict::FailedExit);
    case.pattern = None;
    assert_eq!(judge(&case, true, "").unwrap(), Verdict::Passed);
}
