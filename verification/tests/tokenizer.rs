use aws_unlock::error::AwsError;
use aws_unlock::line_lexer::{EntryLine, EntryLineLexer};

fn tokenize(text: &str) -> Result<Vec<EntryLine>, AwsError> {
    EntryLineLexer::new(text).tokenize()
}

fn s(x: &str) -> String {
    x.to_string()
}

#[test]
fn empty_input_has_no_tokens() {
    assert_eq!(tokenize("").unwrap(), vec![]);
}

#[test]
fn blank_lines_tokenize_to_empty() {
    assert_eq!(
        tokenize("\n   \n\t\n").unwrap(),
        vec![EntryLine::Empty, EntryLine::Empty, EntryLine::Empty]
    );
}

#[test]
fn header_line() {
    assert_eq!(tokenize("[default]").unwrap(), vec![EntryLine::Header(s("default"))]);
}

#[test]
fn header_keeps_inner_text() {
    assert_eq!(
        tokenize("[profile work]").unwrap(),
        vec![EntryLine::Header(s("profile work"))]
    );
}

#[test]
fn option_line_trims_both_sides() {
    assert_eq!(
        tokenize("  region =  us-east-1  ").unwrap(),
        vec![EntryLine::KeyValue(s("region"), s("us-east-1"))]
    );
}

#[test]
fn option_splits_at_first_equals() {
    assert_eq!(
        tokenize("a = b = c").unwrap(),
        vec![EntryLine::KeyValue(s("a"), s("b = c"))]
    );
}

#[test]
fn option_value_may_be_empty() {
    assert_eq!(tokenize("key =").unwrap(), vec![EntryLine::KeyValue(s("key"), s(""))]);
}

#[test]
fn production_marker() {
    assert_eq!(tokenize("# production").unwrap(), vec![EntryLine::ProductionMarker]);
}

#[test]
fn production_marker_without_space() {
    assert_eq!(tokenize("#production").unwrap(), vec![EntryLine::ProductionMarker]);
}

#[test]
fn locked_header() {
    assert_eq!(tokenize("# [work]").unwrap(), vec![EntryLine::LockedHeader(s("work"))]);
}

#[test]
fn locked_option() {
    assert_eq!(
        tokenize("# aws_access_key_id = AKID").unwrap(),
        vec![EntryLine::LockedKeyValue(s("aws_access_key_id"), s("AKID"))]
    );
}

#[test]
fn plain_comment_is_trimmed() {
    assert_eq!(tokenize("#  a note  ").unwrap(), vec![EntryLine::Comment(s("a note"))]);
}

#[test]
fn empty_comment() {
    assert_eq!(tokenize("#").unwrap(), vec![EntryLine::Comment(s(""))]);
}

#[test]
fn indented_comment_line() {
    assert_eq!(tokenize("   # hi").unwrap(), vec![EntryLine::Comment(s("hi"))]);
}

#[test]
fn malformed_line_is_rejected() {
    let e = tokenize("garbage").unwrap_err();
    assert!(matches!(e, AwsError::MalformedLine(l) if l == "garbage"));
}

#[test]
fn first_malformed_line_aborts() {
    let e = tokenize("[ok]\nbad line\nworse").unwrap_err();
    assert!(matches!(e, AwsError::MalformedLine(l) if l == "bad line"));
}

#[test]
fn every_recognized_shape_in_one_file() {
    let text = "# note\n# production\n[default]\nregion = us-east-1\n\n# [work]\n# a = b\n";
    assert_eq!(
        tokenize(text).unwrap(),
        vec![
            EntryLine::Comment(s("note")),
            EntryLine::ProductionMarker,
            EntryLine::Header(s("default")),
            EntryLine::KeyValue(s("region"), s("us-east-1")),
            EntryLine::Empty,
            EntryLine::LockedHeader(s("work")),
            EntryLine::LockedKeyValue(s("a"), s("b")),
        ]
    );
}

#[test]
fn crlf_line_endings_are_accepted() {
    assert_eq!(
        tokenize("[default]\r\nregion = x\r\n").unwrap(),
        vec![
            EntryLine::Header(s("default")),
            EntryLine::KeyValue(s("region"), s("x")),
        ]
    );
}

#[test]
fn bracket_line_with_equals_is_a_header() {
    // the header shape is checked before the key/value shape
    assert_eq!(tokenize("[a = b]").unwrap(), vec![EntryLine::Header(s("a = b"))]);
}
