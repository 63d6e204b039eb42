//! The secondary channel: an independent, line-oriented textual output path
//! used for diagnostics and test results, decoupled from the display
//! surface.
//!
//! The channel is modelled as the text emitted so far; the kernel shell
//! mirrors each emission to the hardware diagnostic port.

use vstd::prelude::*;
use vstd::string::StringExecFns;

verus! {

/// The secondary diagnostic channel, viewed as the sequence of characters
/// emitted on it so far.
pub struct SerialChannel {
    buf: String,
}

impl View for SerialChannel {
    type V = Seq<char>;

    closed spec fn view(&self) -> Seq<char> {
        self.buf@
    }
}

impl SerialChannel {
    /// A channel on which nothing has been emitted yet.
    pub fn new() -> (c: SerialChannel)
        ensures
            c@ == Seq::<char>::empty(),
    {
        SerialChannel { buf: String::new() }
    }

    /// Emits `s` on the channel.
    pub fn emit(&mut self, s: &str)
        ensures
            final(self)@ == old(self)@ + s@,
    {
        self.buf.append(s);
    }

    /// Everything emitted on the channel so far.
    pub fn contents(&self) -> (s: String)
        ensures
            s@ == self@,
    {
        self.buf.clone()
    }
}

} // verus!
