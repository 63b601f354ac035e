use minesweeper::provider::parse_move_output;
use minesweeper::provider::MoveFailure;
use minesweeper::provider::MoveParseError;

#[test]
fn parses_a_plain_coordinate_pair() {
    assert_eq!(parse_move_output("(3, 4)\n"), Ok((3, 4)));
}

#[test]
fn parses_with_generous_whitespace() {
    assert_eq!(parse_move_output("  ( 12 ,\t7 )  \n"), Ok((12, 7)));
    assert_eq!(parse_move_output("(0,0)"), Ok((0, 0)));
}

#[test]
fn missing_second_field_is_a_distinct_failure() {
    assert_eq!(parse_move_output("(3,)"), Err(MoveParseError::MissingField));
    assert_eq!(parse_move_output("(,3)"), Err(MoveParseError::MissingField));
}

#[test]
fn empty_output_is_a_distinct_failure() {
    assert_eq!(parse_move_output(""), Err(MoveParseError::Empty));
    assert_eq!(parse_move_output("   \n"), Err(MoveParseError::Empty));
}

#[test]
fn missing_delimiters_are_reported() {
    assert_eq!(parse_move_output("3, 4"), Err(MoveParseError::MissingDelimiter));
    assert_eq!(parse_move_output("(3 4)"), Err(MoveParseError::MissingDelimiter));
    assert_eq!(parse_move_output("(3, 4"), Err(MoveParseError::MissingDelimiter));
}

#[test]
fn non_numeric_fields_are_reported() {
    assert_eq!(parse_move_output("(a, 4)"), Err(MoveParseError::NonNumeric));
    assert_eq!(parse_move_output("(-1, 4)"), Err(MoveParseError::NonNumeric));
}

#[test]
fn trailing_text_is_reported() {
    assert_eq!(parse_move_output("(3, 4) ok"), Err(MoveParseError::TrailingInput));
}

#[test]
fn oversized_coordinates_are_reported() {
    assert_eq!(
        parse_move_output("(99999999999999999999999, 1)"),
        Err(MoveParseError::Overflow)
    );
}

#[test]
fn failure_kinds_are_distinct() {
    // The taxonomy keeps a timeout, a spawn failure and a parse
    // failure apart, so the caller can report each differently.
    let timeout = MoveFailure::Timeout;
    let spawn = MoveFailure::Spawn;
    let parse = MoveFailure::Parse(MoveParseError::Empty);
    assert_ne!(timeout, spawn);
    assert_ne!(timeout, parse);
    assert_ne!(spawn, parse);
}
