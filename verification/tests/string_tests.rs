use notevault::string_utils::normalize_whitespace;
use notevault::string_utils::sanitize_filename;
use notevault::string_utils::trim_whitespace;

#[test]
fn test_sanitize_filename() {
    assert_eq!(sanitize_filename("valid_name"), "valid_name");
    assert_eq!(sanitize_filename("invalid name.txt"), "invalidnametxt");
    assert_eq!(sanitize_filename("123@file!"), "123file");
    assert_eq!(sanitize_filename("hello_world"), "hello_world");
}

#[test]
fn test_normalize_whitespace() {
    assert_eq!(normalize_whitespace("   hello    world   "), "hello world");
    assert_eq!(normalize_whitespace("singleword"), "singleword");
    assert_eq!(normalize_whitespace("multiple    spaces   here"), "multiple spaces here");
}

#[test]
fn sanitize_is_idempotent_on_samples() {
    let samples = ["  a b.c/d  ", "already-clean_123", "", "!!!", "x y\tz\n"];
    for s in samples {
        let once = sanitize_filename(s);
        let twice = sanitize_filename(&once);
        assert_eq!(twice, once);
    }
}

#[test]
fn normalize_is_idempotent_on_samples() {
    let samples = ["  a  b\t c ", "", "   ", "one", " \n mixed\r\nbreaks  here "];
    for s in samples {
        let once = normalize_whitespace(s);
        let twice = normalize_whitespace(&once);
        assert_eq!(twice, once);
    }
}

#[test]
fn trim_keeps_inner_whitespace() {
    assert_eq!(trim_whitespace("  a  b  "), "a  b");
    assert_eq!(trim_whitespace("\t\n"), "");
    assert_eq!(trim_whitespace("plain"), "plain");
}

#[test]
fn sanitize_drops_unicode() {
    assert_eq!(sanitize_filename("caf\u{e9}-menu"), "caf-menu");
    assert_eq!(sanitize_filename("\u{1f600}"), "");
}
