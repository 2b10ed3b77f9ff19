use noted::command::parse_command;
use noted::command::parse_id;
use noted::command::Command;
use noted::like::like_match;
use noted::NoteError;

fn args(v: Vec<&str>) -> Vec<String> {
    v.into_iter().map(|s| s.to_owned()).collect()
}

#[test]
fn parse_id_accepts_plain_and_signed_numbers() {
    assert_eq!(parse_id("5"), Ok(5));
    assert_eq!(parse_id("+7"), Ok(7));
    assert_eq!(parse_id("-12"), Ok(-12));
    assert_eq!(parse_id("007"), Ok(7));
    assert_eq!(parse_id("2147483647"), Ok(i32::MAX));
    assert_eq!(parse_id("-2147483648"), Ok(i32::MIN));
}

#[test]
fn parse_id_rejects_malformed_and_out_of_range_input() {
    assert_eq!(parse_id(""), Err(NoteError::NotAValidID));
    assert_eq!(parse_id("+"), Err(NoteError::NotAValidID));
    assert_eq!(parse_id("12a"), Err(NoteError::NotAValidID));
    assert_eq!(parse_id(" 1"), Err(NoteError::NotAValidID));
    assert_eq!(parse_id("2147483648"), Err(NoteError::NotAValidID));
    assert_eq!(parse_id("-2147483649"), Err(NoteError::NotAValidID));
    assert_eq!(parse_id("99999999999999999999"), Err(NoteError::NotAValidID));
}

#[test]
fn commands_match_ignoring_ascii_case() {
    assert!(matches!(parse_command(&args(vec!["LIST"])), Ok(Command::List)));
    assert!(matches!(parse_command(&args(vec!["l"])), Ok(Command::List)));
    assert!(matches!(parse_command(&args(vec!["Help"])), Ok(Command::Help)));
    assert!(matches!(parse_command(&args(vec!["bogus"])), Ok(Command::Usage)));
}

#[test]
fn add_command_takes_name_and_optional_text() {
    match parse_command(&args(vec!["add", "groceries", "milk and eggs"])) {
        Ok(Command::Add { name, text }) => {
            assert_eq!(name, "groceries");
            assert_eq!(text, "milk and eggs");
        }
        other => panic!("unexpected: {:?}", other),
    }
    match parse_command(&args(vec!["a", "groceries"])) {
        Ok(Command::Add { name, text }) => {
            assert_eq!(name, "groceries");
            assert_eq!(text, "");
        }
        other => panic!("unexpected: {:?}", other),
    }
}

#[test]
fn add_without_name_reports_missing_field() {
    assert_eq!(
        parse_command(&args(vec!["add"])),
        Err(NoteError::MissingField { field: "Name".to_owned() })
    );
}

#[test]
fn id_commands_report_missing_or_invalid_id() {
    assert_eq!(
        parse_command(&args(vec!["complete"])),
        Err(NoteError::MissingField { field: "id".to_owned() })
    );
    assert_eq!(
        parse_command(&args(vec!["delete", "x"])),
        Err(NoteError::NotAValidID)
    );
    assert!(matches!(
        parse_command(&args(vec!["c", "3"])),
        Ok(Command::Complete { id: 3 })
    ));
    assert!(matches!(
        parse_command(&args(vec!["u", "3"])),
        Ok(Command::Uncomplete { id: 3 })
    ));
    assert!(matches!(
        parse_command(&args(vec!["d", "3"])),
        Ok(Command::Delete { id: 3 })
    ));
}

#[test]
fn rename_and_text_need_id_then_argument() {
    assert_eq!(
        parse_command(&args(vec!["rename", "1"])),
        Err(NoteError::MissingField { field: "text".to_owned() })
    );
    assert_eq!(
        parse_command(&args(vec!["text", "oops", "body"])),
        Err(NoteError::NotAValidID)
    );
    match parse_command(&args(vec!["r", "4", "new name"])) {
        Ok(Command::Rename { id, new_name }) => {
            assert_eq!(id, 4);
            assert_eq!(new_name, "new name");
        }
        other => panic!("unexpected: {:?}", other),
    }
    match parse_command(&args(vec!["t", "4", "new text"])) {
        Ok(Command::ChangeText { id, new_text }) => {
            assert_eq!(id, 4);
            assert_eq!(new_text, "new text");
        }
        other => panic!("unexpected: {:?}", other),
    }
}

#[test]
fn like_matching_handles_wildcards_and_case() {
    assert!(like_match("te%", "test"));
    assert!(!like_match("te%", "best"));
    assert!(like_match("t_st", "test"));
    assert!(!like_match("t_st", "tst"));
    assert!(like_match("%", ""));
    assert!(like_match("", ""));
    assert!(!like_match("", "x"));
    assert!(like_match("TeSt", "tEsT"));
    assert!(like_match("%st", "test"));
    assert!(!like_match("%st", "tests"));
}
