use attackr::dynfmt::FormatError;
use attackr::webcolor::{parse_webcolor, WebcolorError};

#[test]
fn format_fills_placeholder_between_escaped_braces() {
    assert_eq!(attackr::dynfmt::format("flag{{{}}}", &["abc"]).unwrap(), "flag{abc}");
}

#[test]
fn format_without_placeholder_rejects_argument() {
    assert_eq!(attackr::dynfmt::format("no-placeholder", &["abc"]), Err(FormatError::ArgumentCount));
}

#[test]
fn format_escaped_braces_only() {
    assert_eq!(attackr::dynfmt::format("{{literal}}", &[]).unwrap(), "{literal}");
}

#[test]
fn format_two_arguments_in_order() {
    assert_eq!(attackr::dynfmt::format("{}-{}", &["a", "b"]).unwrap(), "a-b");
}

#[test]
fn format_missing_argument() {
    assert_eq!(attackr::dynfmt::format("{}{}", &["a"]), Err(FormatError::ArgumentCount));
}

#[test]
fn format_unmatched_braces() {
    assert_eq!(attackr::dynfmt::format("a{b", &[]), Err(FormatError::UnmatchedBrace));
    assert_eq!(attackr::dynfmt::format("a}b", &[]), Err(FormatError::UnmatchedBrace));
    assert_eq!(attackr::dynfmt::format("tail{", &["x"]), Err(FormatError::UnmatchedBrace));
}

#[test]
fn format_empty_template() {
    assert_eq!(attackr::dynfmt::format("", &[]).unwrap(), "");
}

#[test]
fn webcolor_parses_hex() {
    assert_eq!(parse_webcolor("#ff8000"), Ok(0xff8000));
    assert_eq!(parse_webcolor("#ABCDEF"), Ok(0xabcdef));
    assert_eq!(parse_webcolor("#000000"), Ok(0));
}

#[test]
fn webcolor_accepts_plus_sign() {
    assert_eq!(parse_webcolor("#+abcde"), Ok(0xabcde));
}

#[test]
fn webcolor_rejects_format() {
    assert_eq!(parse_webcolor("ff8000"), Err(WebcolorError::Format));
    assert_eq!(parse_webcolor("#fff"), Err(WebcolorError::Format));
    assert_eq!(parse_webcolor("#ff80000"), Err(WebcolorError::Format));
    assert_eq!(parse_webcolor(""), Err(WebcolorError::Format));
}

#[test]
fn webcolor_rejects_digits() {
    assert_eq!(parse_webcolor("#gg0000"), Err(WebcolorError::Digit));
    assert_eq!(parse_webcolor("#ééé"), Err(WebcolorError::Digit));
}
