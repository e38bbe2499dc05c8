//! Accumulates the generated target text.
//!
//! Two growable buffers: `header` holds declarations and the program prologue
//! and is logically prepended, `code` holds the translated statements in parse
//! order.  The emitter never validates or escapes what it is handed; the
//! parser is responsible for well-formed fragments.  The concatenation,
//! header then code, is handed out once at the end; persisting it to a sink
//! is the caller's business.

use vstd::prelude::*;
use vstd::string::StringExecFns;

verus! {

/// The output accumulator: a header buffer and a code (body) buffer.
pub struct Emitter {
    header: String,
    code: String,
}

impl Emitter {
    /// The text of the header buffer so far.
    pub closed spec fn header_text(&self) -> Seq<char> {
        self.header@
    }

    /// The text of the code buffer so far.
    pub closed spec fn code_text(&self) -> Seq<char> {
        self.code@
    }

    /// Both buffers start empty.
    pub fn new() -> (e: Emitter)
        ensures
            e.header_text() == Seq::<char>::empty(),
            e.code_text() == Seq::<char>::empty(),
    {
        Emitter { header: String::new(), code: String::new() }
    }

    /// Appends a fragment to the code buffer.
    pub fn emit(&mut self, code: &str)
        ensures
            final(self).code_text() == old(self).code_text() + code@,
            final(self).header_text() == old(self).header_text(),
    {
        self.code.append(code);
    }

    /// Appends a fragment and a line break to the code buffer.
    pub fn emit_line(&mut self, code: &str)
        ensures
            final(self).code_text() == old(self).code_text() + code@ + seq!['\n'],
            final(self).header_text() == old(self).header_text(),
    {
        proof {
            reveal_strlit("\n");
        }
        self.code.append(code);
        self.code.append("\n");
        proof {
            assert(self.code@ =~= old(self).code@ + code@ + seq!['\n']);
        }
    }

    /// Appends a line to the header buffer.
    pub fn header_line(&mut self, code: &str)
        ensures
            final(self).header_text() == old(self).header_text() + code@ + seq!['\n'],
            final(self).code_text() == old(self).code_text(),
    {
        proof {
            reveal_strlit("\n");
        }
        self.header.append(code);
        self.header.append("\n");
        proof {
            assert(self.header@ =~= old(self).header@ + code@ + seq!['\n']);
        }
    }

    /// The whole generated program: the header buffer, then the code buffer.
    pub fn output(&self) -> (out: String)
        ensures
            out@ == self.header_text() + self.code_text(),
    {
        let out = self.header.clone();
        out.concat(self.code.as_str())
    }
}

} // verus!
