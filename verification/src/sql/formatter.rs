//! The formatter that collects SQL text.

use vstd::prelude::*;
use vstd::string::StringExecFns;

verus! {

/// What can go wrong while a statement is written out as SQL.
#[derive(Debug, Clone, Copy, PartialEq, Eq, Structural)]
pub enum Error {
    /// The text could not be written.
    Fmt,
}

/// Collects the SQL text of a statement piece by piece.
pub struct Formatter {
    buffer: String,
}

impl View for Formatter {
    type V = Seq<char>;

    /// The text written so far.
    closed spec fn view(&self) -> Seq<char> {
        self.buffer@
    }
}

impl Formatter {
    /// A formatter that has written nothing yet.
    pub fn new() -> (formatter: Formatter)
        ensures
            formatter@ == Seq::<char>::empty(),
    {
        Formatter { buffer: String::new() }
    }

    /// Writes `text` behind what has been written. Writing to memory does not fail.
    pub fn write_str(&mut self, text: &str) -> (result: Result<(), Error>)
        ensures
            result is Ok,
            final(self)@ == old(self)@ + text@,
    {
        self.buffer.append(text);
        Ok(())
    }

    /// Hands out the text written.
    pub fn finish(self) -> (text: String)
        ensures
            text@ == self@,
    {
        self.buffer
    }
}

} // verus!
