//! The line that was read last.

use vstd::prelude::*;

verus! {

/// Holds the command line that is worked on.
pub struct InputBuffer {
    buffer: String,
}

impl View for InputBuffer {
    type V = Seq<char>;

    /// The characters of the line.
    closed spec fn view(&self) -> Seq<char> {
        self.buffer@
    }
}

impl InputBuffer {
    /// Makes a buffer that holds the empty line.
    pub fn new() -> (input_buffer: InputBuffer)
        ensures
            input_buffer@ == Seq::<char>::empty(),
    {
        InputBuffer { buffer: String::new() }
    }

    /// Takes in `raw`, the text that one read from the input gave. A read
    /// that gave nothing is the end of the input: the buffer is then empty
    /// and the answer is `false`. Else the buffer holds `raw` without its
    /// last character, which ends the line.
    pub fn load(&mut self, raw: &str) -> (got: bool)
        ensures
            got == (raw@.len() > 0),
            got ==> final(self)@ == raw@.drop_last(),
            !got ==> final(self)@ == Seq::<char>::empty(),
    {
        let length = raw.unicode_len();
        if length == 0 {
            self.buffer = String::new();
            false
        } else {
            self.buffer = raw.substring_char(0, length - 1).to_owned();
            true
        }
    }

    /// The line.
    pub fn as_str(&self) -> (line: &str)
        ensures
            line@ == self@,
    {
        self.buffer.as_str()
    }

    /// The length of the line in bytes.
    pub fn input_length(&self) -> (length: usize)
        ensures
            length == vstd::utf8::encode_utf8(self@).len(),
    {
        self.buffer.as_str().as_bytes().len()
    }
}

} // verus!
