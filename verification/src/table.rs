//! Rows, their fixed-width byte layout, and the paged table that stores them.

use vstd::bytes::{spec_u64_from_le_bytes, spec_u64_to_le_bytes, u64_from_le_bytes, u64_to_le_bytes};
use vstd::prelude::*;
use vstd::slice::slice_subrange;
use vstd::string::StringSliceAdditionalSpecFns;
use vstd::utf8::{decode_utf8, encode_utf8, valid_utf8};

use crate::layout::{
    in_row, lemma_next_row, lemma_page_allocated, lemma_row_bytes_in_row, lemma_row_in_page,
    lemma_rows_disjoint, lemma_rows_per_page, offset_of, page_of, pages_for, row_location,
    rows_per_page,
};
use crate::page::{overwrite, valid_page_size, zeros, Page, PageAllocationError};

verus! {

/// Why a row could not be encoded or decoded.
#[derive(Debug)]
pub enum SerialiseError {
    /// The row has no id yet.
    NoContents,
    /// A text field does not fit its slot.
    StringWriteError,
    /// A text field has no terminator, or is not valid UTF-8.
    StringReadError,
    /// The buffer is not exactly one row wide.
    BufferLenError,
}

/// The number of bytes that hold a row's id.
pub const ID_WIDTH: usize = 8;

/// A record of the table, before encoding or after decoding.
#[derive(Clone)]
pub struct Row {
    pub id: Option<usize>,
    pub username: String,
    pub email: String,
    pub(crate) max_string_len: usize,
}

/// What a [`Row`] holds, as mathematical values.
pub struct RowView {
    pub id: Option<usize>,
    pub username: Seq<char>,
    pub email: Seq<char>,
    pub max_string_len: nat,
}

impl View for Row {
    type V = RowView;

    open(crate) spec fn view(&self) -> RowView {
        RowView {
            id: self.id,
            username: self.username@,
            email: self.email@,
            max_string_len: self.max_string_len as nat,
        }
    }
}

/// The width in bytes of an encoded row whose text fields are
/// `max_string_len` bytes wide.
pub open spec fn row_width(max_string_len: nat) -> nat {
    2 * max_string_len + ID_WIDTH as nat
}

/// `text` followed by as many zero bytes as it takes to fill `width` bytes.
pub open spec fn pad_field(text: Seq<u8>, width: nat) -> Seq<u8>
    recommends
        text.len() <= width,
{
    text + zeros((width - text.len()) as nat)
}

/// Whether `i` is the position of the first zero byte of `s`.
pub open spec fn is_first_zero(s: Seq<u8>, i: int) -> bool {
    &&& 0 <= i < s.len()
    &&& s[i] == 0
    &&& forall|j: int| 0 <= j < i ==> s[j] != 0
}

/// The position of the first zero byte of `s`, if it has one.
pub open spec fn first_zero(s: Seq<u8>) -> Option<int> {
    if exists|i: int| is_first_zero(s, i) {
        Some(choose|i: int| is_first_zero(s, i))
    } else {
        None
    }
}

/// The text held by a field: the bytes before its first zero byte, decoded
/// as UTF-8. A field without a zero byte, or whose text is not valid UTF-8,
/// holds none.
pub open spec fn decode_field(field: Seq<u8>) -> Option<Seq<char>> {
    match first_zero(field) {
        Some(end) => {
            let text = field.subrange(0, end);
            if valid_utf8(text) {
                Some(decode_utf8(text))
            } else {
                None
            }
        },
        None => None,
    }
}

impl RowView {
    /// Whether both text fields fit their slots and the row's width is a
    /// length that a buffer can have.
    pub open spec fn fits(self) -> bool {
        &&& encode_utf8(self.username).len() <= self.max_string_len
        &&& encode_utf8(self.email).len() <= self.max_string_len
        &&& row_width(self.max_string_len) <= usize::MAX
    }

    /// Whether the row survives encoding and decoding: it has an id, and each
    /// text field is free of zero bytes and leaves room for its terminator.
    pub open spec fn round_trips(self) -> bool {
        &&& self.id is Some
        &&& encode_utf8(self.username).len() < self.max_string_len
        &&& encode_utf8(self.email).len() < self.max_string_len
        &&& !encode_utf8(self.username).contains(0u8)
        &&& !encode_utf8(self.email).contains(0u8)
    }
}

/// The bytes of a row with an id: the username and the email, each padded
/// with zero bytes to `max_string_len` bytes, then the id as eight
/// little-endian bytes.
pub open spec fn encode_row(row: RowView) -> Seq<u8>
    recommends
        row.id is Some,
{
    pad_field(encode_utf8(row.username), row.max_string_len) + pad_field(
        encode_utf8(row.email),
        row.max_string_len,
    ) + spec_u64_to_le_bytes(row.id->0 as u64)
}

/// The row that `bytes` hold under the layout for `max_string_len`, or the
/// reason why they hold none.
pub open spec fn decode_row(bytes: Seq<u8>, max_string_len: nat) -> Result<RowView, SerialiseError> {
    if bytes.len() != row_width(max_string_len) {
        Err(SerialiseError::BufferLenError)
    } else {
        let max = max_string_len as int;
        match (decode_field(bytes.subrange(0, max)), decode_field(bytes.subrange(max, 2 * max))) {
            (Some(username), Some(email)) => Ok(
                RowView {
                    id: Some(
                        spec_u64_from_le_bytes(bytes.subrange(2 * max, 2 * max + ID_WIDTH as int)) as usize,
                    ),
                    username,
                    email,
                    max_string_len,
                },
            ),
            _ => Err(SerialiseError::StringReadError),
        }
    }
}

/// The first zero byte of a sequence is unique.
pub proof fn lemma_first_zero_unique(s: Seq<u8>, i: int)
    requires
        is_first_zero(s, i),
    ensures
        first_zero(s) == Some(i),
{
    let j = choose|j: int| is_first_zero(s, j);
    assert(is_first_zero(s, j));
    if j < i {
        assert(s[j] != 0);
    } else if i < j {
        assert(s[i] != 0);
    }
}

/// An encoded row is exactly one row wide.
pub proof fn lemma_encoded_width(row: RowView)
    requires
        encode_utf8(row.username).len() <= row.max_string_len,
        encode_utf8(row.email).len() <= row.max_string_len,
    ensures
        encode_row(row).len() == row_width(row.max_string_len),
{
    vstd::bytes::lemma_auto_spec_u64_to_from_le_bytes();
}

/// A padded field whose text is free of zero bytes and shorter than the
/// field decodes to that text.
pub proof fn lemma_padded_field_decodes(text: Seq<char>, width: nat)
    requires
        encode_utf8(text).len() < width,
        !encode_utf8(text).contains(0u8),
    ensures
        decode_field(pad_field(encode_utf8(text), width)) == Some(text),
{
    let bytes = encode_utf8(text);
    let field = pad_field(bytes, width);
    assert forall|j: int| 0 <= j < bytes.len() implies field[j] != 0 by {
        assert(bytes.contains(bytes[j]));
    }
    lemma_first_zero_unique(field, bytes.len() as int);
    assert(field.subrange(0, bytes.len() as int) == bytes);
    vstd::utf8::encode_utf8_valid_utf8(text);
    vstd::utf8::encode_utf8_decode_utf8(text);
}

/// Decoding undoes encoding: a row with an id, whose text fields are free of
/// zero bytes and shorter than `max_string_len` bytes, is what its encoding
/// decodes to.
pub proof fn lemma_decode_encode(row: RowView)
    requires
        row.round_trips(),
    ensures
        decode_row(encode_row(row), row.max_string_len) == Ok::<RowView, SerialiseError>(row),
{
    let max = row.max_string_len as int;
    let username = pad_field(encode_utf8(row.username), row.max_string_len);
    let email = pad_field(encode_utf8(row.email), row.max_string_len);
    let id = spec_u64_to_le_bytes(row.id->0 as u64);
    let bytes = encode_row(row);
    vstd::bytes::lemma_auto_spec_u64_to_from_le_bytes();
    assert(bytes.subrange(0, max) == username);
    assert(bytes.subrange(max, 2 * max) == email);
    assert(bytes.subrange(2 * max, 2 * max + ID_WIDTH as int) == id);
    lemma_padded_field_decodes(row.username, row.max_string_len);
    lemma_padded_field_decodes(row.email, row.max_string_len);
}

/// Finds the position of the first zero byte of `x`, or `None` if every
/// byte is nonzero.
pub fn find_first_zero(x: &[u8]) -> (res: Option<usize>)
    ensures
        match res {
            Some(i) => first_zero(x@) == Some(i as int),
            None => first_zero(x@) is None,
        },
{
    let mut counter: usize = 0;
    while counter < x.len()
        invariant
            counter <= x@.len(),
            forall|j: int| 0 <= j < counter ==> x@[j] != 0,
        decreases x@.len() - counter,
    {
        if x[counter] == 0 {
            proof {
                lemma_first_zero_unique(x@, counter as int);
            }
            return Some(counter);
        }
        counter = counter + 1;
    }
    None
}

/// `core::str::from_utf8`: the bytes are accepted exactly when they are
/// valid UTF-8, and the text handed back is then the one that they encode.
#[verifier::external_body]
fn text_from_utf8(bytes: &[u8]) -> (res: Option<&str>)
    ensures
        res is Some <==> valid_utf8(bytes@),
        res matches Some(text) ==> text.spec_bytes() == bytes@,
{
    match core::str::from_utf8(bytes) {
        Ok(text) => Some(text),
        Err(_) => None,
    }
}

/// Reads the text of one field: the bytes before the first zero byte.
fn extract_string(buffer: &[u8]) -> (res: Result<String, SerialiseError>)
    ensures
        match res {
            Ok(text) => decode_field(buffer@) == Some(text@),
            Err(e) => decode_field(buffer@) is None && e is StringReadError,
        },
{
    let string_len = match find_first_zero(buffer) {
        Some(len) => len,
        None => { return Err(SerialiseError::StringReadError); },
    };
    match text_from_utf8(slice_subrange(buffer, 0, string_len)) {
        Some(text) => {
            proof {
                vstd::utf8::encode_utf8_decode_utf8(text@);
            }
            Ok(text.to_owned())
        },
        None => Err(SerialiseError::StringReadError),
    }
}

/// Appends `text` to `buffer`, then zero bytes up to `width` bytes in all.
fn append_padded(buffer: &mut Vec<u8>, text: &[u8], width: usize)
    requires
        text@.len() <= width,
    ensures
        final(buffer)@ == old(buffer)@ + pad_field(text@, width as nat),
{
    buffer.extend_from_slice(text);
    let mut written: usize = text.len();
    while written < width
        invariant
            text@.len() <= written <= width,
            buffer@ == old(buffer)@ + pad_field(text@, written as nat),
        decreases width - written,
    {
        buffer.push(0u8);
        written = written + 1;
    }
}

impl Row {
    /// A row without id and with empty text fields, whose text fields will be
    /// encoded in `max_string_len` bytes each.
    pub fn with_max_str_len(max_string_len: usize) -> (row: Row)
        ensures
            row@ == (RowView {
                id: None,
                username: Seq::empty(),
                email: Seq::empty(),
                max_string_len: max_string_len as nat,
            }),
    {
        Row { id: None, username: String::new(), email: String::new(), max_string_len }
    }

    /// Whether the row can be encoded: see [`RowView::fits`].
    pub fn fits(&self) -> (ok: bool)
        ensures
            ok == self@.fits(),
    {
        self.max_string_len <= (usize::MAX - ID_WIDTH) / 2 && self.username.as_str().as_bytes().len()
            <= self.max_string_len && self.email.as_str().as_bytes().len() <= self.max_string_len
    }

    /// Encodes the row in [`row_width`] bytes, or fails with `NoContents` when
    /// the row has no id.
    pub fn serialise(&self) -> (res: Result<Vec<u8>, SerialiseError>)
        requires
            self@.id is Some ==> self@.fits(),
        ensures
            self@.id is None ==> res matches Err(SerialiseError::NoContents),
            self@.id is Some ==> (res matches Ok(bytes) && bytes@ == encode_row(self@) && bytes@.len()
                == row_width(self@.max_string_len)),
    {
        proof {
            if self.id is Some {
                lemma_encoded_width(self@);
            }
        }
        let id = match self.id {
            Some(id) => id,
            None => { return Err(SerialiseError::NoContents); },
        };
        let mut buffer: Vec<u8> = Vec::new();
        append_padded(&mut buffer, self.username.as_str().as_bytes(), self.max_string_len);
        append_padded(&mut buffer, self.email.as_str().as_bytes(), self.max_string_len);
        let id_bytes = u64_to_le_bytes(id as u64);
        buffer.extend_from_slice(id_bytes.as_slice());
        Ok(buffer)
    }

    /// Decodes a row from `serial` under the layout for `max_string_len`.
    ///
    /// Fails with `BufferLenError` when `serial` is not exactly one row wide,
    /// and with `StringReadError` when a text field has no zero byte or its
    /// text is not valid UTF-8.
    pub fn deserialise(serial: Vec<u8>, max_string_len: usize) -> (res: Result<Row, SerialiseError>)
        ensures
            match res {
                Ok(row) => decode_row(serial@, max_string_len as nat) == Ok::<RowView, SerialiseError>(row@),
                Err(e) => decode_row(serial@, max_string_len as nat) == Err::<RowView, SerialiseError>(e),
            },
    {
        let len = serial.len();
        if max_string_len > (usize::MAX - ID_WIDTH) / 2 {
            return Err(SerialiseError::BufferLenError);
        }
        if len != max_string_len * 2 + ID_WIDTH {
            return Err(SerialiseError::BufferLenError);
        }
        let bytes = serial.as_slice();
        let username = match extract_string(slice_subrange(bytes, 0, max_string_len)) {
            Ok(text) => text,
            Err(e) => { return Err(e); },
        };
        let email = match extract_string(slice_subrange(bytes, max_string_len, max_string_len * 2)) {
            Ok(text) => text,
            Err(e) => { return Err(e); },
        };
        let id = u64_from_le_bytes(
            slice_subrange(bytes, max_string_len * 2, max_string_len * 2 + ID_WIDTH),
        );
        let id = #[verifier::truncate] (id as usize);
        Ok(Row { id: Some(id), username, email, max_string_len })
    }
}

/// An append-only store of rows of one width, kept in pages of one size.
pub struct Table {
    buffer: Vec<Page>,
    page_size: usize,
    num_rows: usize,
    row_size: Option<usize>,
}

/// What a [`Table`] holds: its page size, the row width once the first row
/// has fixed it, the bytes of its pages, and the rows in the order in which
/// they were pushed.
pub struct TableView {
    pub page_size: nat,
    pub row_size: Option<nat>,
    pub pages: Seq<Seq<u8>>,
    pub rows: Seq<Seq<u8>>,
}

/// The bytes at the place of row `i` in `pages`.
pub open spec fn row_slot(pages: Seq<Seq<u8>>, page_size: nat, row_size: nat, i: int) -> Seq<u8> {
    let offset = offset_of(i as nat, page_size, row_size) as int;
    pages[page_of(i as nat, page_size, row_size) as int].subrange(offset, offset + row_size)
}

impl TableView {
    /// What holds of every table. Pages are not empty and all of one size.
    /// Without a row width there are neither rows nor pages. With one, it is
    /// positive and no larger than a page; there are exactly the pages that
    /// the rows take; every row is the bytes at its place; and every byte
    /// that belongs to no row is zero.
    pub open spec fn valid(self) -> bool {
        &&& self.page_size > 0
        &&& forall|p: int|
            0 <= p < self.pages.len() ==> (#[trigger] self.pages[p]).len() == self.page_size
        &&& match self.row_size {
            None => self.rows.len() == 0 && self.pages.len() == 0,
            Some(row_size) => {
                &&& 0 < row_size <= self.page_size
                &&& self.pages.len() == pages_for(self.rows.len(), self.page_size, row_size)
                &&& forall|i: int|
                    0 <= i < self.rows.len() ==> #[trigger] self.rows[i] == row_slot(
                        self.pages,
                        self.page_size,
                        row_size,
                        i,
                    )
                &&& forall|i: int|
                    0 <= i < self.rows.len() ==> (#[trigger] self.rows[i]).len() == row_size
                &&& forall|p: int, at: int|
                    0 <= p < self.pages.len() && 0 <= at < self.page_size && !in_row(
                        p as nat,
                        at as nat,
                        self.rows.len(),
                        self.page_size,
                        row_size,
                    ) ==> #[trigger] self.pages[p][at] == 0
            },
        }
    }

    /// Whether a row of `len` bytes can be pushed: it is not empty, it has the
    /// table's row width, or, as the first row, fits a page, and the row
    /// count can still grow.
    pub open spec fn accepts(self, len: nat) -> bool {
        &&& len > 0
        &&& match self.row_size {
            None => len <= self.page_size,
            Some(row_size) => len == row_size,
        }
        &&& self.rows.len() < usize::MAX
    }

    /// Whether the next row starts a new page.
    pub open spec fn needs_page(self) -> bool {
        match self.row_size {
            None => true,
            Some(row_size) => self.rows.len() % rows_per_page(self.page_size, row_size) == 0,
        }
    }

    /// The table after `row` has been pushed. Where the row starts a new
    /// page, that page is appended, zero but for the row at its start;
    /// otherwise the row is written at its place in the last page.
    pub open spec fn with_row(self, row: Seq<u8>) -> TableView {
        TableView {
            page_size: self.page_size,
            row_size: Some(row.len()),
            pages: if self.needs_page() {
                self.pages.push(overwrite(zeros(self.page_size), 0, row))
            } else {
                self.pages.update(
                    self.pages.len() - 1,
                    overwrite(
                        self.pages.last(),
                        offset_of(self.rows.len(), self.page_size, row.len()) as int,
                        row,
                    ),
                )
            },
            rows: self.rows.push(row),
        }
    }

    /// What reading row `i` under the layout for `max_string_len` gives: the
    /// decoded row, or nothing when there is no such row or its bytes do not
    /// decode.
    pub open spec fn row(self, i: int, max_string_len: nat) -> Option<RowView> {
        if 0 <= i < self.rows.len() {
            match decode_row(self.rows[i], max_string_len) {
                Ok(row) => Some(row),
                Err(_) => None,
            }
        } else {
            None
        }
    }
}

/// Whether `found` is the row that `expected` describes, or equally absent.
pub open spec fn shows(found: Option<Row>, expected: Option<RowView>) -> bool {
    match found {
        Some(row) => expected == Some(row@),
        None => expected is None,
    }
}

/// A pushed row can be read back: after the encoding of a row that round-trips
/// has been pushed, reading the last row under the row's own layout gives
/// that row.
pub proof fn lemma_pushed_row_is_read(table: TableView, row: RowView)
    requires
        row.round_trips(),
    ensures
        table.with_row(encode_row(row)).row(table.rows.len() as int, row.max_string_len) == Some(
            row,
        ),
{
    lemma_decode_encode(row);
}

/// Pushing keeps a table valid: the rows before the new one stay as they
/// were, the new row lies at its place, and the bytes that belong to no row
/// are still zero.
pub proof fn lemma_push_keeps_valid(table: TableView, row: Seq<u8>)
    requires
        table.valid(),
        table.accepts(row.len()),
    ensures
        table.with_row(row).valid(),
{
    let after = table.with_row(row);
    let page_size = table.page_size;
    let row_size = row.len();
    let num_rows = table.rows.len();
    let target = page_of(num_rows, page_size, row_size) as int;
    let offset = offset_of(num_rows, page_size, row_size) as int;
    let per_page = rows_per_page(page_size, row_size) as int;
    lemma_rows_per_page(page_size, row_size);
    lemma_next_row(num_rows, page_size, row_size);
    lemma_row_in_page(num_rows, page_size, row_size);
    if table.row_size is None {
        assert(0int % per_page == 0 && 0int / per_page == 0) by (nonlinear_arith)
            requires
                per_page >= 1,
        ;
    }
    if table.needs_page() {
        assert(offset == 0) by (nonlinear_arith)
            requires
                offset == (num_rows as int % per_page) * row_size,
                num_rows as int % per_page == 0,
        ;
    }
    let base = if table.needs_page() {
        zeros(page_size)
    } else {
        table.pages[target]
    };
    assert(after.pages[target] == overwrite(base, offset, row));
    assert forall|p: int| 0 <= p < after.pages.len() implies (#[trigger] after.pages[p]).len()
        == page_size by {
        if p != target {
            assert(after.pages[p] == table.pages[p]);
        }
    }
    assert forall|i: int| 0 <= i < after.rows.len() implies #[trigger] after.rows[i] == row_slot(
        after.pages,
        page_size,
        row_size,
        i,
    ) by {
        if i < num_rows {
            lemma_page_allocated(i as nat, num_rows, page_size, row_size);
            lemma_row_in_page(i as nat, page_size, row_size);
            assert(table.rows[i] == row_slot(table.pages, page_size, row_size, i));
            if page_of(i as nat, page_size, row_size) == target {
                lemma_rows_disjoint(i as nat, num_rows, page_size, row_size);
                assert(row_slot(after.pages, page_size, row_size, i) =~= row_slot(
                    table.pages,
                    page_size,
                    row_size,
                    i,
                ));
            }
        } else {
            assert(row_slot(after.pages, page_size, row_size, i) =~= row);
        }
    }
    assert forall|i: int| 0 <= i < after.rows.len() implies (#[trigger] after.rows[i]).len()
        == row_size by {
        if i < num_rows {
            assert(table.rows[i].len() == row_size);
        }
    }
    assert forall|p: int, at: int|
        0 <= p < after.pages.len() && 0 <= at < page_size && !in_row(
            p as nat,
            at as nat,
            after.rows.len(),
            page_size,
            row_size,
        ) implies #[trigger] after.pages[p][at] == 0 by {
        if p == target && offset <= at < offset + row_size {
            lemma_row_bytes_in_row(num_rows, at as nat, num_rows + 1, page_size, row_size);
        } else if p < table.pages.len() {
            assert(!in_row(p as nat, at as nat, num_rows, page_size, row_size));
            assert(table.pages[p][at] == 0);
        }
    }
}

impl View for Table {
    type V = TableView;

    closed spec fn view(&self) -> TableView {
        let pages = Seq::new(self.buffer@.len(), |p: int| self.buffer@[p]@);
        TableView {
            page_size: self.page_size as nat,
            row_size: match self.row_size {
                Some(row_size) => Some(row_size as nat),
                None => None,
            },
            pages,
            rows: Seq::new(
                self.num_rows as nat,
                |i: int| row_slot(pages, self.page_size as nat, self.row_size->0 as nat, i),
            ),
        }
    }
}

impl Table {
    /// The table's invariant: what it holds is valid.
    pub open spec fn wf(&self) -> bool {
        self@.valid()
    }

    /// An empty table with pages of `page_size` bytes, or `None` when
    /// `page_size` is zero.
    pub fn build(page_size: usize) -> (res: Option<Table>)
        ensures
            page_size == 0 <==> res is None,
            res matches Some(table) ==> table.wf() && table@ == (TableView {
                page_size: page_size as nat,
                row_size: None,
                pages: Seq::empty(),
                rows: Seq::empty(),
            }),
    {
        if page_size == 0 {
            None
        } else {
            let table = Table { buffer: Vec::new(), page_size, num_rows: 0, row_size: None };
            assert(table@.rows =~= Seq::empty());
            assert(table@.pages =~= Seq::empty());
            Some(table)
        }
    }

    /// The number of rows in the table.
    pub fn len(&self) -> (n: usize)
        ensures
            n == self@.rows.len(),
    {
        self.num_rows
    }

    /// Whether a row of `len` bytes can be pushed: see
    /// [`TableView::accepts`].
    pub fn accepts(&self, len: usize) -> (ok: bool)
        ensures
            ok == self@.accepts(len as nat),
    {
        let width_matches = match self.row_size {
            Some(row_size) => len == row_size,
            None => len <= self.page_size,
        };
        len > 0 && width_matches && self.num_rows < usize::MAX
    }

    /// Whether the next row starts a new page: its page is not among the
    /// pages allocated so far.
    pub fn needs_page(&self) -> (needed: bool)
        requires
            self.wf(),
        ensures
            needed == self@.needs_page(),
    {
        match self.row_size {
            None => true,
            Some(row_size) => {
                proof {
                    lemma_rows_per_page(self.page_size as nat, row_size as nat);
                    lemma_next_row(self.num_rows as nat, self.page_size as nat, row_size as nat);
                }
                self.num_rows / (self.page_size / row_size) >= self.buffer.len()
            },
        }
    }

    /// Appends one encoded row, allocating a new zero page when the last one
    /// is full.
    ///
    /// The first row fixes the table's row width. The push fails only when a
    /// new page is needed and cannot be allocated; the table is then left as
    /// it was.
    pub fn push(&mut self, contents: &[u8]) -> (res: Result<(), PageAllocationError>)
        requires
            old(self).wf(),
            old(self)@.accepts(contents@.len()),
        ensures
            final(self).wf(),
            match res {
                Ok(()) => final(self)@ == old(self)@.with_row(contents@),
                Err(e) => {
                    &&& final(self)@ == old(self)@
                    &&& old(self)@.needs_page()
                    &&& e is LayoutError <==> !valid_page_size(old(self)@.page_size as int)
                },
            },
            !old(self)@.needs_page() ==> res is Ok,
            old(self)@.needs_page() && !valid_page_size(old(self)@.page_size as int) ==> res is Err,
    {
        if self.needs_page() {
            match Page::alloc_zeroed(self.page_size) {
                Ok(page) => {
                    self.push_with_page(contents, page);
                    Ok(())
                },
                Err(e) => Err(e),
            }
        } else {
            self.push_in_place(contents);
            Ok(())
        }
    }

    /// Appends one encoded row at the start of `page`, a zero page that
    /// becomes the table's last page.
    pub fn push_with_page(&mut self, contents: &[u8], page: Page)
        requires
            old(self).wf(),
            old(self)@.accepts(contents@.len()),
            old(self)@.needs_page(),
            page@ == zeros(old(self)@.page_size),
        ensures
            final(self).wf(),
            final(self)@ == old(self)@.with_row(contents@),
    {
        let row_size = contents.len();
        let mut page = page;
        page.copy_from_slice(0, contents);
        self.buffer.push(page);
        self.row_size = Some(row_size);
        self.num_rows = self.num_rows + 1;
        proof {
            let expected = old(self)@.with_row(contents@);
            lemma_push_keeps_valid(old(self)@, contents@);
            assert(self@.pages =~= expected.pages);
            assert(self@.rows =~= expected.rows);
        }
    }

    /// Appends one encoded row to the last page, which has room for it.
    fn push_in_place(&mut self, contents: &[u8])
        requires
            old(self).wf(),
            old(self)@.accepts(contents@.len()),
            !old(self)@.needs_page(),
        ensures
            final(self).wf(),
            final(self)@ == old(self)@.with_row(contents@),
    {
        let row_size = contents.len();
        let location = row_location(self.page_size, row_size, self.num_rows);
        proof {
            lemma_next_row(self.num_rows as nat, self.page_size as nat, row_size as nat);
        }
        self.buffer[location.0].copy_from_slice(location.1, contents);
        self.num_rows = self.num_rows + 1;
        proof {
            let expected = old(self)@.with_row(contents@);
            lemma_push_keeps_valid(old(self)@, contents@);
            assert(self@.pages =~= expected.pages);
            assert(self@.rows =~= expected.rows);
        }
    }

    /// Decodes row `row_id` under the layout for `max_string_len`, or returns
    /// `None` when there is no such row or its bytes do not decode.
    pub fn get(&self, row_id: usize, max_string_len: usize) -> (res: Option<Row>)
        requires
            self.wf(),
        ensures
            shows(res, self@.row(row_id as int, max_string_len as nat)),
            row_id >= self@.rows.len() ==> res is None,
    {
        if row_id >= self.num_rows {
            return None;
        }
        let row_size = match self.row_size {
            Some(row_size) => row_size,
            None => { return None; },
        };
        let location = row_location(self.page_size, row_size, row_id);
        proof {
            lemma_page_allocated(
                row_id as nat,
                self.num_rows as nat,
                self.page_size as nat,
                row_size as nat,
            );
        }
        let row_buffer = match self.buffer[location.0].read_from_index(location.1, row_size) {
            Some(bytes) => bytes,
            None => { return None; },
        };
        match Row::deserialise(row_buffer, max_string_len) {
            Ok(row) => Some(row),
            Err(_) => None,
        }
    }
}

} // verus!
