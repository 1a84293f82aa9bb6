//! Reusable scratch buffers for intermediate byte work.

use vstd::prelude::*;

verus! {

/// Closes the scratch-buffer abstraction to this crate's own buffers.
pub trait Sealed {

}

/// A source of empty byte buffers for intermediate work.
pub trait ScratchBuffer: Sealed {
    /// Hands out a buffer that is empty when obtained.
    fn obtain(&mut self) -> (r: Vec<u8>)
        ensures
            r@.len() == 0,
    ;
}

/// A scratch buffer; obtaining it always yields an empty `Vec`.
#[derive(Debug)]
pub struct Scratch {
    inner: Vec<u8>,
}

impl Scratch {
    /// The buffer currently held for reuse.
    pub closed spec fn held(&self) -> Seq<u8> {
        self.inner@
    }

    /// A fresh scratch buffer.
    pub fn new() -> (r: Scratch)
        ensures
            r.held().len() == 0,
    {
        Scratch { inner: Vec::new() }
    }
}

impl Default for Scratch {
    /// A fresh scratch buffer.
    fn default() -> (r: Scratch)
        ensures
            r.held().len() == 0,
    {
        Scratch::new()
    }
}

impl Sealed for Scratch {

}

impl ScratchBuffer for Scratch {
    /// Clears the held buffer and hands it out for intermediate work.
    fn obtain(&mut self) -> (r: Vec<u8>)
        ensures
            r@.len() == 0,
    {
        self.inner.truncate(0);
        let mut out: Vec<u8> = Vec::new();
        core::mem::swap(&mut self.inner, &mut out);
        out
    }
}

} // verus!
