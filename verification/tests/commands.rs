use sqlite_clone::commands::{
    can_execute, execute_statement, handle_meta_command, prepare_statement, ExitStatus,
    InsertContents, StatementType, MAX_STRING_LEN,
};
use sqlite_clone::table::{Row, Table};
use sqlite_clone::text::{chars_of, find_space, has_prefix, parse_number};

fn prepared_row(line: &str) -> Row {
    match prepare_statement(line) {
        Ok(StatementType::Insert(row)) => row,
        _ => panic!("no insert statement"),
    }
}

fn refusal(line: &str) -> String {
    match prepare_statement(line) {
        Err(message) => message,
        Ok(_) => panic!("accepted"),
    }
}

fn number(text: &str) -> Option<usize> {
    let chars = chars_of(text);
    parse_number(&chars, 0, chars.len())
}

#[test]
fn insert_contents_start_empty() {
    let contents = InsertContents::new();
    assert_eq!(contents.id, 0);
    assert_eq!(contents.username, "");
    assert_eq!(contents.email, "");
}

#[test]
fn exit_status_counts_from_zero() {
    assert_eq!(ExitStatus::Success as i32, 0);
    assert_eq!(ExitStatus::Failure as i32, 1);
}

#[test]
fn meta_command_exit_ends_with_success() {
    assert!(matches!(handle_meta_command(".exit"), Ok(ExitStatus::Success)));
}

#[test]
fn unknown_meta_command_is_refused() {
    match handle_meta_command(".tables") {
        Err(message) => assert_eq!(
            message,
            "unknown command or invalid arguments:  \"tables\". Enter \".help\" for help"
        ),
        Ok(_) => panic!("accepted"),
    }
    for line in [".", ""] {
        match handle_meta_command(line) {
            Err(message) => assert_eq!(
                message,
                "unknown command or invalid arguments:  \"\". Enter \".help\" for help"
            ),
            Ok(_) => panic!("accepted"),
        }
    }
    match handle_meta_command("exit") {
        Err(message) => assert_eq!(
            message,
            "unknown command or invalid arguments:  \"xit\". Enter \".help\" for help"
        ),
        Ok(_) => panic!("accepted"),
    }
    assert!(matches!(handle_meta_command("\u{e9}exit"), Ok(ExitStatus::Success)));
    assert!(handle_meta_command(".exit ").is_err());
    assert!(handle_meta_command(".Exit").is_err());
}

#[test]
fn insert_statement_is_read() {
    let row = prepared_row("insert 1 alice alice@example.com");
    assert_eq!(row.id, Some(1));
    assert_eq!(row.username, "alice");
    assert_eq!(row.email, "alice@example.com");
    assert_eq!(MAX_STRING_LEN, 100);
}

#[test]
fn insert_statement_with_further_fields_is_refused() {
    assert_eq!(
        refusal("insert 12 bob bob@example.com and more"),
        "Unable to parse statement insert 12 bob bob@example.com and more"
    );
    assert_eq!(refusal("insert 1 a b c"), "Unable to parse statement insert 1 a b c");
    assert_eq!(refusal("insert 1 a b "), "Unable to parse statement insert 1 a b ");
}

#[test]
fn insert_statement_keeps_empty_fields() {
    let row = prepared_row("insert 3  carol@example.com");
    assert_eq!(row.id, Some(3));
    assert_eq!(row.username, "");
    assert_eq!(row.email, "carol@example.com");
    let row = prepared_row("insert 3 carol ");
    assert_eq!(row.username, "carol");
    assert_eq!(row.email, "");
    let row = prepared_row("insert 0  ");
    assert_eq!(row.id, Some(0));
    assert_eq!(row.username, "");
    assert_eq!(row.email, "");
}

#[test]
fn insert_statement_without_a_number_is_refused() {
    assert_eq!(
        refusal("insert x bob b@x"),
        "Unable to parse statement insert x bob b@x"
    );
    assert_eq!(
        refusal("insert -1 dave dave@example.com"),
        "Unable to parse statement insert -1 dave dave@example.com"
    );
    assert!(prepare_statement("insert 1.5 dave dave@example.com").is_err());
    assert!(prepare_statement("insert 1_000 dave dave@example.com").is_err());
    assert!(prepare_statement("insert  dave dave@example.com").is_err());
    assert!(prepare_statement("insert   ").is_err());
    assert!(prepare_statement("insert 99999999999999999999999999 dave d@x").is_err());
    assert_eq!(prepared_row("insert +7 dave dave@example.com").id, Some(7));
    assert_eq!(prepared_row("insert 007 dave dave@example.com").id, Some(7));
}

#[test]
fn insert_statement_never_comes_without_id() {
    let lines = [
        "insert", "insert ", "insert 1", "insert 1 a", "insert 1 a b", "insert x a b",
        "insert 1 a b c", "insert  1 a b", "inserted 2 a b", "insert\t1 a b", "insert 1  ",
    ];
    for line in lines {
        match prepare_statement(line) {
            Ok(StatementType::Insert(row)) => assert!(row.id.is_some(), "{}", line),
            Ok(StatementType::Select) => panic!("select from {}", line),
            Err(message) => assert_eq!(message, format!("Unable to parse statement {}", line)),
        }
    }
}

#[test]
fn insert_keyword_may_run_on() {
    let row = prepared_row("inserted 4 erin erin@example.com");
    assert_eq!(row.id, Some(4));
    assert_eq!(row.username, "erin");
}

#[test]
fn insert_statement_keeps_text_beyond_ascii() {
    let row = prepared_row("insert 9 z\u{fc}rich \u{65e5}\u{672c}@example.jp");
    assert_eq!(row.id, Some(9));
    assert_eq!(row.username, "z\u{fc}rich");
    assert_eq!(row.email, "\u{65e5}\u{672c}@example.jp");
}

#[test]
fn short_insert_statements_are_refused() {
    assert_eq!(refusal("insert"), "Unable to parse statement insert");
    assert_eq!(refusal("insert 1"), "Unable to parse statement insert 1");
    assert_eq!(refusal("insert 1 alice"), "Unable to parse statement insert 1 alice");
    assert!(prepare_statement("insert 1 alice a@b.c").is_ok());
    assert!(prepare_statement("insert 1 alice ").is_ok());
}

#[test]
fn select_statement_is_read() {
    assert!(matches!(prepare_statement("select"), Ok(StatementType::Select)));
    assert!(matches!(prepare_statement("select * from users"), Ok(StatementType::Select)));
    assert!(matches!(prepare_statement("selection"), Ok(StatementType::Select)));
}

#[test]
fn other_statements_are_refused() {
    match prepare_statement("update users") {
        Err(message) => assert_eq!(message, "Unrecognised keyword at start of 'update users'\n"),
        Ok(_) => panic!("accepted"),
    }
    match prepare_statement("") {
        Err(message) => assert_eq!(message, "Unrecognised keyword at start of ''\n"),
        Ok(_) => panic!("accepted"),
    }
    assert!(prepare_statement(" insert 1 a b").is_err());
    assert!(prepare_statement("Insert 1 a b").is_err());
    assert!(prepare_statement("selec").is_err());
}

#[test]
fn numbers_are_read_in_base_ten() {
    assert_eq!(number("0"), Some(0));
    assert_eq!(number("42"), Some(42));
    assert_eq!(number("+42"), Some(42));
    assert_eq!(number("000123"), Some(123));
    assert_eq!(number(""), None);
    assert_eq!(number("+"), None);
    assert_eq!(number("-"), None);
    assert_eq!(number("++1"), None);
    assert_eq!(number("1+"), None);
    assert_eq!(number(" 1"), None);
    assert_eq!(number("1 "), None);
    assert_eq!(number("12a"), None);
    assert_eq!(number("\u{661}"), None);
}

#[test]
fn numbers_stop_at_the_largest_usize() {
    let largest = usize::MAX.to_string();
    assert_eq!(number(&largest), Some(usize::MAX));
    let mut beyond = largest.clone();
    let last = beyond.pop().unwrap();
    beyond.push(char::from_u32(last as u32 + 1).unwrap());
    assert_eq!(number(&beyond), None);
    assert_eq!(number(&format!("{}0", largest)), None);
    assert_eq!(number("99999999999999999999999999999999"), None);
    assert_eq!(number(&format!("0{}", largest)), Some(usize::MAX));
}

#[test]
fn numbers_agree_with_the_standard_parser() {
    let samples = [
        "", "+", "-", "0", "+0", "-0", "1", "+1", "-1", "10", "0010", "1e3", "0x10", "1 ", " 1",
        "18446744073709551615", "18446744073709551616", "4294967295", "4294967296", "١٢٣", "+-1",
        "1+1", "９",
    ];
    for sample in samples {
        assert_eq!(number(sample), sample.parse::<usize>().ok(), "{}", sample);
    }
}

#[test]
fn part_of_a_line_is_read_as_a_number() {
    let chars = chars_of("insert 615 x");
    assert_eq!(parse_number(&chars, 7, 10), Some(615));
    assert_eq!(parse_number(&chars, 7, 9), Some(61));
    assert_eq!(parse_number(&chars, 6, 10), None);
    assert_eq!(parse_number(&chars, 8, 8), None);
}

#[test]
fn spaces_are_found_from_a_position() {
    let chars = chars_of("ab cd  e");
    assert_eq!(chars.len(), 8);
    assert_eq!(find_space(&chars, 0), 2);
    assert_eq!(find_space(&chars, 2), 2);
    assert_eq!(find_space(&chars, 3), 5);
    assert_eq!(find_space(&chars, 6), 6);
    assert_eq!(find_space(&chars, 7), 8);
    assert_eq!(find_space(&chars, 8), 8);
}

#[test]
fn prefixes_are_compared_by_character() {
    let chars = chars_of("insert 1");
    assert!(has_prefix(&chars, "insert"));
    assert!(has_prefix(&chars, ""));
    assert!(has_prefix(&chars, "insert 1"));
    assert!(!has_prefix(&chars, "insert 12"));
    assert!(!has_prefix(&chars, "select"));
    assert_eq!(chars_of("a\u{20ac}b"), vec!['a', '\u{20ac}', 'b']);
}

#[test]
fn insert_then_select_gives_the_rows_back() {
    let mut table = Table::build(4096).unwrap();
    for line in ["insert 1 alice alice@example.com", "insert 2 bob bob@example.com"] {
        let statement = prepare_statement(line).unwrap_or_else(|_| panic!("refused"));
        assert!(can_execute(&statement, &table));
        let rows = execute_statement(statement, &mut table).unwrap();
        assert!(rows.is_empty());
    }
    assert_eq!(table.len(), 2);
    let rows = execute_statement(StatementType::Select, &mut table).unwrap();
    assert_eq!(rows.len(), 2);
    let first = rows[0].as_ref().unwrap();
    assert_eq!((first.id, first.username.as_str(), first.email.as_str()), (Some(1), "alice", "alice@example.com"));
    let second = rows[1].as_ref().unwrap();
    assert_eq!((second.id, second.username.as_str(), second.email.as_str()), (Some(2), "bob", "bob@example.com"));
    assert_eq!(table.len(), 2);
}

#[test]
fn select_on_an_empty_table_gives_nothing() {
    let mut table = Table::build(4096).unwrap();
    assert!(can_execute(&StatementType::Select, &table));
    assert!(execute_statement(StatementType::Select, &mut table).unwrap().is_empty());
}

#[test]
fn select_shows_rows_that_do_not_decode_as_absent() {
    let mut table = Table::build(4096).unwrap();
    table.push(&[1u8; 208]).unwrap();
    let rows = execute_statement(StatementType::Select, &mut table).unwrap();
    assert_eq!(rows.len(), 1);
    assert!(rows[0].is_none());
}

#[test]
fn statements_that_cannot_run_are_told_apart() {
    let table = Table::build(4096).unwrap();
    let mut without_id = Row::with_max_str_len(MAX_STRING_LEN);
    without_id.username = String::from("alice");
    assert!(!can_execute(&StatementType::Insert(without_id), &table));
    let long_name = "n".repeat(101);
    let too_long = prepared_row(&format!("insert 1 {} a@b.c", long_name));
    assert!(!can_execute(&StatementType::Insert(too_long), &table));
    let fitting = prepared_row(&format!("insert 1 {} a@b.c", "n".repeat(100)));
    assert!(can_execute(&StatementType::Insert(fitting), &table));
    let small_pages = Table::build(207).unwrap();
    let row = prepared_row("insert 1 alice alice@example.com");
    assert!(!can_execute(&StatementType::Insert(row), &small_pages));
    let mut other_width = Table::build(4096).unwrap();
    other_width.push(&[0u8; 16]).unwrap();
    let row = prepared_row("insert 1 alice alice@example.com");
    assert!(!can_execute(&StatementType::Insert(row), &other_width));
}
