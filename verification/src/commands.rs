//! Statements: reading one from a line of text, and running it on a table.

use vstd::prelude::*;
use vstd::string::{StrSliceExecFns, StringExecFns};

use crate::page::{valid_page_size, PageAllocationError};
use crate::table::{encode_row, row_width, shows, Row, RowView, Table, TableView, ID_WIDTH};
use crate::text::{chars_of, field, find_space, has_field, has_prefix, parse_number, parse_usize};

verus! {

/// The width in bytes of the text fields of every row that a statement
/// writes or reads.
pub const MAX_STRING_LEN: usize = 100;

/// How the program ends.
pub enum ExitStatus {
    Success,
    Failure,
}

/// A statement, ready to be run.
pub enum StatementType {
    Insert(Row),
    Select,
}

/// The arguments of an insert statement.
pub struct InsertContents {
    pub id: usize,
    pub username: String,
    pub email: String,
}

impl InsertContents {
    /// Arguments with id zero and empty text.
    pub fn new() -> (contents: InsertContents)
        ensures
            contents.id == 0,
            contents.username@ == Seq::<char>::empty(),
            contents.email@ == Seq::<char>::empty(),
    {
        InsertContents { id: 0, username: String::new(), email: String::new() }
    }
}

/// The command that a meta command line names: the line without its first
/// character, which marks it as a meta command.
pub open spec fn meta_command(line: Seq<char>) -> Seq<char> {
    if line.len() > 0 {
        line.skip(1)
    } else {
        line
    }
}

/// The complaint about a meta command that is not known.
pub open spec fn unknown_command_message(command: Seq<char>) -> Seq<char> {
    "unknown command or invalid arguments:  \""@ + command + "\". Enter \".help\" for help"@
}

/// Decides what a meta command line asks for: `exit` asks to end the
/// program with `ExitStatus::Success`, and any other command is refused
/// with a message.
pub fn handle_meta_command(line: &str) -> (res: Result<ExitStatus, String>)
    ensures
        meta_command(line@) == "exit"@ ==> res matches Ok(ExitStatus::Success),
        meta_command(line@) != "exit"@ ==> (res matches Err(message) && message@
            == unknown_command_message(meta_command(line@))),
{
    let count = line.unicode_len();
    let command = if count > 0 {
        line.substring_char(1, count)
    } else {
        line
    };
    assert(command@ == meta_command(line@));
    if String::from_str(command) == String::from_str("exit") {
        Ok(ExitStatus::Success)
    } else {
        let message = String::from_str("unknown command or invalid arguments:  \"").concat(
            command,
        ).concat("\". Enter \".help\" for help");
        Err(message)
    }
}

/// Whether `line` has the arguments of an insert statement: after the
/// keyword come exactly three fields, separated by single spaces, and the
/// first of them is a number that fits a `usize`.
pub open spec fn has_insert_arguments(line: Seq<char>) -> bool {
    &&& has_field(line, 3)
    &&& !has_field(line, 4)
    &&& parse_usize(field(line, 1)) is Some
}

/// The complaint about an insert statement whose arguments cannot be read.
pub open spec fn unparsable_message(line: Seq<char>) -> Seq<char> {
    "Unable to parse statement "@ + line
}

/// The complaint about a line that starts with no known keyword.
pub open spec fn unrecognised_message(line: Seq<char>) -> Seq<char> {
    "Unrecognised keyword at start of '"@ + line + "'\n"@
}

/// Reads the arguments of an insert statement from the characters of a
/// line, where the line has them.
fn insert_arguments(line: &str, chars: &Vec<char>) -> (res: Option<Row>)
    requires
        chars@ == line@,
    ensures
        res is Some <==> has_insert_arguments(line@),
        res matches Some(row) ==> row@ == (RowView {
            id: parse_usize(field(line@, 1)),
            username: field(line@, 2),
            email: field(line@, 3),
            max_string_len: MAX_STRING_LEN as nat,
        }),
{
    reveal_with_fuel(crate::text::field_start, 5);
    let len = chars.len();
    let end0 = find_space(chars, 0);
    if end0 >= len {
        return None;
    }
    let end1 = find_space(chars, end0 + 1);
    if end1 >= len {
        return None;
    }
    let end2 = find_space(chars, end1 + 1);
    if end2 >= len {
        return None;
    }
    let end3 = find_space(chars, end2 + 1);
    if end3 < len {
        return None;
    }
    let id = match parse_number(chars, end0 + 1, end1) {
        Some(id) => id,
        None => { return None; },
    };
    let mut contents = Row::with_max_str_len(MAX_STRING_LEN);
    contents.id = Some(id);
    contents.username = String::from_str(line.substring_char(end1 + 1, end2));
    contents.email = String::from_str(line.substring_char(end2 + 1, end3));
    Some(contents)
}

/// Reads a statement from `line`.
///
/// A line that starts with `insert` gives an insert statement where it has
/// exactly four fields and the second is a number: that number is the id,
/// the third field the username and the fourth the email. Any other line
/// that starts with `insert` is refused with a message. A line that starts
/// with `select` gives a select statement, and a line that starts with
/// neither is refused with another message.
pub fn prepare_statement(line: &str) -> (res: Result<StatementType, String>)
    ensures
        "insert"@.is_prefix_of(line@) && has_insert_arguments(line@) ==> (res matches Ok(
            StatementType::Insert(row),
        ) && row@ == (RowView {
            id: parse_usize(field(line@, 1)),
            username: field(line@, 2),
            email: field(line@, 3),
            max_string_len: MAX_STRING_LEN as nat,
        })),
        "insert"@.is_prefix_of(line@) && !has_insert_arguments(line@) ==> (res matches Err(message)
            && message@ == unparsable_message(line@)),
        !"insert"@.is_prefix_of(line@) && "select"@.is_prefix_of(line@) ==> res matches Ok(
            StatementType::Select,
        ),
        !"insert"@.is_prefix_of(line@) && !"select"@.is_prefix_of(line@) ==> (res matches Err(
            message,
        ) && message@ == unrecognised_message(line@)),
{
    let chars = chars_of(line);
    if has_prefix(&chars, "insert") {
        match insert_arguments(line, &chars) {
            Some(contents) => Ok(StatementType::Insert(contents)),
            None => Err(String::from_str("Unable to parse statement ").concat(line)),
        }
    } else if has_prefix(&chars, "select") {
        Ok(StatementType::Select)
    } else {
        let message = String::from_str("Unrecognised keyword at start of '").concat(line).concat(
            "'\n",
        );
        Err(message)
    }
}

/// Whether `statement` can be run on `table`: a row to insert has an id,
/// can be encoded, and has a width that the table accepts.
pub open spec fn is_runnable(statement: StatementType, table: TableView) -> bool {
    statement matches StatementType::Insert(row) ==> {
        &&& row@.id is Some
        &&& row@.fits()
        &&& table.accepts(row_width(row@.max_string_len))
    }
}

/// Whether `statement` can be handed to [`execute_statement`] with `table`:
/// see [`is_runnable`].
pub fn can_execute(statement: &StatementType, table: &Table) -> (ok: bool)
    ensures
        ok == is_runnable(*statement, table@),
{
    match statement {
        StatementType::Insert(row) => {
            row.id.is_some() && row.fits() && table.accepts(row.max_string_len * 2 + ID_WIDTH)
        },
        StatementType::Select => true,
    }
}

/// Runs `statement` on `table`.
///
/// An insert statement encodes its row and pushes it, and gives no rows
/// back; it fails, leaving the table as it was, only when a new page is
/// needed and cannot be allocated. A select statement leaves the table as
/// it is and gives back, for each row index in order, what reading that
/// row under the layout for [`MAX_STRING_LEN`] gives.
pub fn execute_statement(statement: StatementType, table: &mut Table) -> (res: Result<
    Vec<Option<Row>>,
    PageAllocationError,
>)
    requires
        old(table).wf(),
        is_runnable(statement, old(table)@),
    ensures
        final(table).wf(),
        statement matches StatementType::Insert(row) ==> {
            &&& match res {
                Ok(rows) => rows@.len() == 0 && final(table)@ == old(table)@.with_row(
                    encode_row(row@),
                ),
                Err(e) => {
                    &&& final(table)@ == old(table)@
                    &&& old(table)@.needs_page()
                    &&& e is LayoutError <==> !valid_page_size(old(table)@.page_size as int)
                },
            }
            &&& !old(table)@.needs_page() ==> res is Ok
            &&& old(table)@.needs_page() && !valid_page_size(old(table)@.page_size as int)
                ==> res is Err
        },
        statement is Select ==> {
            &&& final(table)@ == old(table)@
            &&& res matches Ok(rows)
            &&& rows@.len() == old(table)@.rows.len()
            &&& forall|i: int|
                0 <= i < rows@.len() ==> shows(
                    #[trigger] rows@[i],
                    old(table)@.row(i, MAX_STRING_LEN as nat),
                )
        },
{
    match statement {
        StatementType::Insert(contents) => {
            let bytes = match contents.serialise() {
                Ok(bytes) => bytes,
                Err(_) => { return Ok(Vec::new()); },
            };
            match table.push(bytes.as_slice()) {
                Ok(()) => Ok(Vec::new()),
                Err(e) => Err(e),
            }
        },
        StatementType::Select => {
            let mut rows: Vec<Option<Row>> = Vec::new();
            let count = table.len();
            let mut i: usize = 0;
            while i < count
                invariant
                    table.wf(),
                    table@ == old(table)@,
                    count == table@.rows.len(),
                    i <= count,
                    rows@.len() == i,
                    forall|j: int|
                        0 <= j < i ==> shows(#[trigger] rows@[j], table@.row(j, MAX_STRING_LEN as nat)),
                decreases count - i,
            {
                rows.push(table.get(i, MAX_STRING_LEN));
                i = i + 1;
            }
            Ok(rows)
        },
    }
}

} // verus!
