//! In-memory byte-stream stand-ins. The executor threads three of these
//! through the tree walk: a readable input and two writable outputs.
//! They hold text; the host program bridges them to the process's real
//! streams at the line's edge.

use vstd::prelude::*;

use vstd::string::StringExecFns;

verus! {

/// A readable stream: the text a command may consume as its input.
pub struct InStream {
    data: String,
}

impl View for InStream {
    type V = Seq<char>;

    closed spec fn view(&self) -> Seq<char> {
        self.data@
    }
}

impl InStream {
    /// An input stream holding the given text.
    pub fn new(data: String) -> (r: InStream)
        ensures
            r@ == data@,
    {
        InStream { data }
    }

    /// An input stream holding nothing.
    pub fn empty() -> (r: InStream)
        ensures
            r@ == Seq::<char>::empty(),
    {
        InStream { data: String::new() }
    }

    /// The whole text of the stream.
    pub fn contents(&self) -> (r: &str)
        ensures
            r@ == self@,
    {
        self.data.as_str()
    }
}

/// A writable stream: everything written to it so far, in order.
pub struct OutStream {
    data: String,
}

impl View for OutStream {
    type V = Seq<char>;

    closed spec fn view(&self) -> Seq<char> {
        self.data@
    }
}

impl OutStream {
    /// A stream with nothing written yet.
    pub fn new() -> (r: OutStream)
        ensures
            r@ == Seq::<char>::empty(),
    {
        OutStream { data: String::new() }
    }

    /// Appends text to the stream.
    pub fn write_str(&mut self, s: &str)
        ensures
            final(self)@ == old(self)@ + s@,
    {
        self.data.append(s)
    }

    /// The whole text written so far.
    pub fn contents(&self) -> (r: &str)
        ensures
            r@ == self@,
    {
        self.data.as_str()
    }

    /// Gives up the stream for its text.
    pub fn into_string(self) -> (r: String)
        ensures
            r@ == self@,
    {
        self.data
    }
}

} // verus!
