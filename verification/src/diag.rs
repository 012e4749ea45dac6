//! Single-character diagnostic sink for the foreign engine: bytes accumulate
//! until a line terminator arrives, at which point the completed line is
//! handed back for emission as one log record.

use vstd::prelude::*;

verus! {

/// True for the byte values the sink treats as line terminators
/// (line feed and carriage return).
pub open spec fn is_line_terminator(c: u8) -> bool {
    c == 0x0a || c == 0x0d
}

/// Buffers single characters written by the foreign engine until a line
/// terminator completes a diagnostic line.
pub struct LineBuffer {
    buf: Vec<u8>,
}

impl LineBuffer {
    /// The bytes accumulated so far that have not yet been emitted.
    pub closed spec fn pending(self) -> Seq<u8> {
        self.buf@
    }

    /// A fresh sink with nothing buffered.
    pub fn new() -> (r: LineBuffer)
        ensures
            r.pending() == Seq::<u8>::empty(),
    {
        LineBuffer { buf: Vec::new() }
    }

    /// Accepts one character from the engine. A line terminator completes the
    /// pending line: it is returned for emission and the buffer clears. Any
    /// other byte is appended and nothing is emitted.
    pub fn putchar(&mut self, c: u8) -> (line: Option<Vec<u8>>)
        ensures
            is_line_terminator(c) ==> {
                &&& line matches Some(l) && l@ == old(self).pending()
                &&& final(self).pending() == Seq::<u8>::empty()
            },
            !is_line_terminator(c) ==> {
                &&& line is None
                &&& final(self).pending() == old(self).pending().push(c)
            },
    {
        if c == 0x0a || c == 0x0d {
            let mut out: Vec<u8> = Vec::new();
            core::mem::swap(&mut out, &mut self.buf);
            Some(out)
        } else {
            self.buf.push(c);
            None
        }
    }
}

} // verus!
