//! The text side of the prompt: the banner, and the buffer that holds the
//! line last entered.

use vstd::prelude::*;
use vstd::string::{StrSliceExecFns, StringExecFns};

verus! {

/// A buffer for one line of input, with the most bytes that one read may
/// take.
pub struct InputBuffer {
    buffer: String,
    buffer_length: usize,
}

/// What an [`InputBuffer`] holds.
pub struct InputBufferView {
    pub text: Seq<char>,
    pub limit: nat,
}

impl View for InputBuffer {
    type V = InputBufferView;

    closed spec fn view(&self) -> InputBufferView {
        InputBufferView { text: self.buffer@, limit: self.buffer_length as nat }
    }
}

/// The banner shown when the program starts.
pub open spec fn banner(version: Seq<char>) -> Seq<char> {
    "SQLite rust clone version "@ + version + "\n"@ + "Enter \".help\" for instructions\n"@
}

/// `line` without its last character, which is where a line that was read
/// has its terminator.
pub open spec fn without_last(line: Seq<char>) -> Seq<char> {
    if line.len() > 0 {
        line.drop_last()
    } else {
        line
    }
}

impl InputBuffer {
    /// An empty buffer whose reads take at most `capacity` bytes.
    pub fn with_capacity(capacity: usize) -> (input_buffer: InputBuffer)
        ensures
            input_buffer@ == (InputBufferView { text: Seq::empty(), limit: capacity as nat }),
    {
        InputBuffer { buffer: String::new(), buffer_length: capacity }
    }

    /// The text in the buffer, to read or to change.
    pub fn buffer(&mut self) -> (text: &mut String)
        ensures
            text@ == old(self)@.text,
            final(self)@ == (InputBufferView { text: final(text)@, limit: old(self)@.limit }),
    {
        &mut self.buffer
    }

    /// The most bytes that one read may take.
    pub fn buffer_length(&self) -> (limit: &usize)
        ensures
            *limit == self@.limit,
    {
        &self.buffer_length
    }
}

/// The banner for the given version of the program: see [`banner`].
pub fn configure_env(version: &str) -> (text: String)
    ensures
        text@ == banner(version@),
{
    String::from_str("SQLite rust clone version ").concat(version).concat("\n").concat(
        "Enter \".help\" for instructions\n",
    )
}

/// Takes a line as it was read, terminator included, and leaves it in
/// `input_buffer` without its last character, in place of what the buffer
/// held.
pub fn prompt_user_input(input_buffer: &mut InputBuffer, line: &str)
    ensures
        final(input_buffer)@ == (InputBufferView {
            text: without_last(line@),
            limit: old(input_buffer)@.limit,
        }),
{
    let count = line.unicode_len();
    let kept = if count > 0 {
        line.substring_char(0, count - 1)
    } else {
        line
    };
    input_buffer.buffer = String::from_str(kept);
}

} // verus!
