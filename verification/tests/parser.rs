use aws_unlock::error::{AwsError, ParsePhase};
use aws_unlock::line_lexer::{EntryLine, EntryLineLexer};
use aws_unlock::line_parser::{Entry, EntryLineParser};

fn parse(text: &str) -> Result<Vec<Entry>, AwsError> {
    let tokens = EntryLineLexer::new(text).tokenize()?;
    EntryLineParser::new(tokens).parse()
}

fn s(x: &str) -> String {
    x.to_string()
}

#[test]
fn empty_input_has_no_entries() {
    assert_eq!(parse("").unwrap().len(), 0);
    assert_eq!(parse("\n\n  \n").unwrap().len(), 0);
}

#[test]
fn minimal_entry() {
    let es = parse("[default]\n").unwrap();
    assert_eq!(es.len(), 1);
    assert_eq!(es[0].comments, Vec::<String>::new());
    assert!(!es[0].is_production);
    assert!(!es[0].is_locked);
    assert_eq!(es[0].header, "default");
    assert_eq!(es[0].values, vec![]);
}

#[test]
fn full_entry() {
    let es = parse("# note one\n# production\n# note two\n[work]\na = 1\nb = 2\n").unwrap();
    assert_eq!(es.len(), 1);
    assert_eq!(es[0].comments, vec![s("note one"), s("note two")]);
    assert!(es[0].is_production);
    assert!(!es[0].is_locked);
    assert_eq!(es[0].header, "work");
    assert_eq!(es[0].values, vec![(s("a"), s("1")), (s("b"), s("2"))]);
}

#[test]
fn locked_entry() {
    let es = parse("# [work]\n# a = 1\n").unwrap();
    assert_eq!(es.len(), 1);
    assert!(es[0].is_locked);
    assert_eq!(es[0].header, "work");
    assert_eq!(es[0].values, vec![(s("a"), s("1"))]);
}

#[test]
fn duplicate_key_overwrites_in_place() {
    let es = parse("[h]\na = 1\nb = 2\na = 3\n").unwrap();
    assert_eq!(es[0].values, vec![(s("a"), s("3")), (s("b"), s("2"))]);
}

#[test]
fn two_entries_split_by_blank_line() {
    let es = parse("[one]\na = 1\n\n[two]\nb = 2\n").unwrap();
    assert_eq!(es.len(), 2);
    assert_eq!(es[0].header, "one");
    assert_eq!(es[1].header, "two");
}

#[test]
fn comment_begins_the_next_entry() {
    let es = parse("[one]\na = 1\n# note\n[two]\n").unwrap();
    assert_eq!(es.len(), 2);
    assert_eq!(es[1].comments, vec![s("note")]);
}

#[test]
fn locked_entry_follows_unlocked_entry() {
    let es = parse("[one]\na = 1\n\n# [two]\n# b = 2\n").unwrap();
    assert_eq!(es.len(), 2);
    assert!(!es[0].is_locked);
    assert!(es[1].is_locked);
}

#[test]
fn marker_after_header_starts_new_entry_and_hits_end() {
    let e = parse("[h]\n# production\n").unwrap_err();
    assert!(matches!(e, AwsError::UnexpectedEndOfInput(ParsePhase::LockFlag)));
}

#[test]
fn double_marker_is_structural_error() {
    let e = parse("# production\n# production\n[h]\n").unwrap_err();
    assert!(matches!(
        e,
        AwsError::StructuralError(ParsePhase::LockFlag, EntryLine::ProductionMarker)
    ));
}

#[test]
fn trailing_comment_hits_end_of_input() {
    let e = parse("# only a comment\n").unwrap_err();
    assert!(matches!(e, AwsError::UnexpectedEndOfInput(ParsePhase::ProductionFlag)));
}

#[test]
fn locked_option_in_unlocked_entry_is_structural_error() {
    let e = parse("[h]\n# a = b\n").unwrap_err();
    assert!(
        matches!(e, AwsError::StructuralError(ParsePhase::Values, EntryLine::LockedKeyValue(k, v)) if k == "a" && v == "b")
    );
}

#[test]
fn unlocked_option_in_locked_entry_is_structural_error() {
    let e = parse("# [h]\na = b\n").unwrap_err();
    assert!(
        matches!(e, AwsError::StructuralError(ParsePhase::Values, EntryLine::KeyValue(k, v)) if k == "a" && v == "b")
    );
}

#[test]
fn value_before_header_is_structural_error() {
    let e = parse("a = b\n").unwrap_err();
    assert!(matches!(e, AwsError::StructuralError(ParsePhase::Header, EntryLine::KeyValue(_, _))));
}

#[test]
fn parse_one_steps_through_entries() {
    let tokens = EntryLineLexer::new("[one]\n\n[two]\n").tokenize().unwrap();
    let mut parser = EntryLineParser::new(tokens);
    let first = parser.parse_one().unwrap().unwrap();
    assert_eq!(first.header, "one");
    let second = parser.parse_one().unwrap().unwrap();
    assert_eq!(second.header, "two");
    assert!(parser.parse_one().unwrap().is_none());
}

#[test]
fn blank_lines_inside_entry_are_skipped() {
    let es = parse("# c\n\n# production\n\n[h]\n\na = 1\n\nb = 2\n\n# x\n[i]\n").unwrap();
    assert_eq!(es.len(), 2);
    assert_eq!(es[0].values, vec![(s("a"), s("1")), (s("b"), s("2"))]);
}
