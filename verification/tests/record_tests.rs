use maintenance_burden::record::{parse_record, ChangeRecord, ParseError};

#[test]
fn numeric_record_parses() {
    match parse_record("10\t2\ta.txt") {
        Ok(ChangeRecord::Numeric { added, deleted, path_field }) => {
            assert_eq!(added, 10);
            assert_eq!(deleted, 2);
            assert_eq!(path_field, "a.txt");
        },
        _ => panic!("expected a numeric record"),
    }
}

#[test]
fn sentinel_pair_is_binary() {
    assert!(matches!(parse_record("-\t-\tlogo.png"), Ok(ChangeRecord::Binary)));
}

#[test]
fn wrong_field_count_is_fatal() {
    assert!(matches!(parse_record("10\t2"), Err(ParseError::FieldCount)));
    assert!(matches!(parse_record("10\t2\ta\tb"), Err(ParseError::FieldCount)));
    assert!(matches!(parse_record(""), Err(ParseError::FieldCount)));
}

#[test]
fn non_numeric_count_is_fatal() {
    assert!(matches!(parse_record("x\t2\tp"), Err(ParseError::BadCount)));
    assert!(matches!(parse_record("2\t\tp"), Err(ParseError::BadCount)));
}

#[test]
fn mixed_sentinel_is_fatal() {
    assert!(matches!(parse_record("-\t2\tp"), Err(ParseError::BadCount)));
    assert!(matches!(parse_record("5\t-\tp"), Err(ParseError::BadCount)));
}

#[test]
fn oversized_count_is_fatal() {
    assert!(matches!(
        parse_record("99999999999999999999999999\t0\tp"),
        Err(ParseError::BadCount)
    ));
}

#[test]
fn path_field_keeps_rename_text() {
    match parse_record("3\t1\ta.txt => b.txt") {
        Ok(ChangeRecord::Numeric { path_field, .. }) => {
            assert_eq!(path_field, "a.txt => b.txt");
        },
        _ => panic!("expected a numeric record"),
    }
}
