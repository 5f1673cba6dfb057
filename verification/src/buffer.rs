//! In-memory streams: one datagram's octets to decode from, and a growing
//! block of octets to encode into.

use vstd::prelude::*;
use crate::streams::{DecodeError, IStream, OStream};

verus! {

/// The octets of one received datagram, read front to back.
#[derive(Debug)]
pub struct InBuffer {
    bytes: Vec<u8>,
    index: usize,
}

impl InBuffer {
    #[verifier::type_invariant]
    spec fn within_bounds(self) -> bool {
        self.index <= self.bytes.len()
    }

    /// A reader positioned at the first octet of `bytes`.
    pub fn new(bytes: Vec<u8>) -> (r: Self)
        ensures
            r.pending() == bytes@,
    {
        InBuffer { bytes, index: 0 }
    }

    /// How many octets are still unread.
    pub fn remaining(&self) -> (n: usize)
        ensures
            n == self.pending().len(),
    {
        proof {
            use_type_invariant(self);
        }
        self.bytes.len() - self.index
    }
}

impl IStream for InBuffer {
    closed spec fn pending(&self) -> Seq<u8> {
        self.bytes@.skip(self.index as int)
    }

    fn read_u8(&mut self) -> (r: Result<u8, DecodeError>) {
        proof {
            use_type_invariant(&*self);
        }
        if self.index < self.bytes.len() {
            let b = self.bytes[self.index];
            self.index += 1;
            Ok(b)
        } else {
            Err(DecodeError::EndOfStream)
        }
    }
}

/// The octets of a datagram under construction.
#[derive(Debug)]
pub struct OutBuffer {
    bytes: Vec<u8>,
}

impl OutBuffer {
    /// A writer that holds no octets yet.
    pub fn new() -> (r: Self)
        ensures
            r.written() == Seq::<u8>::empty(),
    {
        OutBuffer { bytes: Vec::new() }
    }

    /// The octets written so far, for sending.
    pub fn as_slice(&self) -> (r: &[u8])
        ensures
            r@ == self.written(),
    {
        self.bytes.as_slice()
    }

    /// Hands over the octets written so far.
    pub fn into_bytes(self) -> (r: Vec<u8>)
        ensures
            r@ == self.written(),
    {
        self.bytes
    }

    /// Forgets what was written, once it has been sent.
    pub fn clear(&mut self)
        ensures
            final(self).written() == Seq::<u8>::empty(),
    {
        self.bytes.clear();
    }
}

impl OStream for OutBuffer {
    closed spec fn written(&self) -> Seq<u8> {
        self.bytes@
    }

    fn write_u8(&mut self, x: u8) {
        self.bytes.push(x);
    }
}

} // verus!
