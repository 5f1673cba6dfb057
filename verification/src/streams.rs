//! Byte streams: the primitive one-octet operations that a transport supplies,
//! and the multi-octet operations composed from them.
//!
//! A reader is modelled by the octets it has yet to hand out, a writer by the
//! octets it has taken so far. What a read makes of a given octet sequence is
//! a [`Parse`]: the value or the error, and the octets left behind.

use vstd::prelude::*;
use vstd::utf8::*;

verus! {

/// Why decoding stopped.
#[derive(Clone, Copy, Debug, PartialEq, Eq, Structural)]
pub enum DecodeError {
    /// The stream ran out of octets in the middle of a value.
    EndOfStream,
    /// The octets of a text are not valid UTF-8.
    InvalidText,
    /// A record type code that this codec does not know.
    UnknownRecordType(u16),
    /// An operation code that this codec does not know.
    UnknownOperation(u16),
    /// A response code that this codec does not know.
    UnknownResponseCode(u16),
}

/// What reading one value from an octet sequence gives: the value or the
/// error, and the octets that remain unread afterwards.
pub struct Parse<T> {
    pub outcome: Result<T, DecodeError>,
    pub rest: Seq<u8>,
}

/// A successful parse of `value` that leaves `rest` unread.
pub open spec fn done<T>(value: T, rest: Seq<u8>) -> Parse<T> {
    Parse { outcome: Ok(value), rest }
}

/// A failed parse that leaves `rest` unread.
pub open spec fn fail<T>(error: DecodeError, rest: Seq<u8>) -> Parse<T> {
    Parse { outcome: Err(error), rest }
}

/// Whether an executable read result `r` is the outcome `outcome` of the
/// model: the same error, or a value whose view is the model's value.
pub open spec fn yields<T: View>(
    r: Result<T, DecodeError>,
    outcome: Result<T::V, DecodeError>,
) -> bool {
    match r {
        Ok(value) => outcome == Ok::<T::V, DecodeError>(value@),
        Err(error) => outcome == Err::<T::V, DecodeError>(error),
    }
}

/// The parse of a sequence of items of which `items` were read before and
/// `more` is the parse of the others: the items in order where `more`
/// succeeds, and the failure of `more` where it fails.
pub open spec fn prepend<T>(items: Seq<T>, more: Parse<Seq<T>>) -> Parse<Seq<T>> {
    match more.outcome {
        Ok(others) => done(items + others, more.rest),
        Err(error) => fail(error, more.rest),
    }
}

/// Items read before may be counted to either side.
pub(crate) proof fn lemma_prepend_twice<T>(first: Seq<T>, second: Seq<T>, more: Parse<Seq<T>>)
    ensures
        prepend(first, prepend(second, more)) == prepend(first + second, more),
{
    if let Ok(others) = more.outcome {
        assert(first + (second + others) =~= (first + second) + others);
    }
}

/// With no items read before, the parse is that of the others.
pub(crate) proof fn lemma_prepend_nothing<T>(more: Parse<Seq<T>>)
    ensures
        prepend(Seq::empty(), more) == more,
{
    if let Ok(others) = more.outcome {
        assert(Seq::<T>::empty() + others =~= others);
    }
}

/// The 16-bit value whose high octet is `high` and whose low octet is `low`.
pub open spec fn join_u16(high: u8, low: u8) -> u16 {
    ((high as u16) << 8) | (low as u16)
}

/// The 32-bit value whose high half is `high` and whose low half is `low`.
pub open spec fn join_u32(high: u16, low: u16) -> u32 {
    ((high as u32) << 16) | (low as u32)
}

/// The two octets of `x`, high octet first.
pub open spec fn u16_wire(x: u16) -> Seq<u8> {
    seq![(x >> 8) as u8, (x & 0xff) as u8]
}

/// The four octets of `x`, most significant first.
pub open spec fn u32_wire(x: u32) -> Seq<u8> {
    u16_wire((x >> 16) as u16) + u16_wire((x & 0xffff) as u16)
}

/// Reading one octet.
pub open spec fn parse_u8(s: Seq<u8>) -> Parse<u8> {
    if s.len() < 1 {
        fail(DecodeError::EndOfStream, Seq::empty())
    } else {
        done(s[0], s.skip(1))
    }
}

/// Reading a 16-bit value: two octets, high then low.
pub open spec fn parse_u16(s: Seq<u8>) -> Parse<u16> {
    if s.len() < 2 {
        fail(DecodeError::EndOfStream, Seq::empty())
    } else {
        done(join_u16(s[0], s[1]), s.skip(2))
    }
}

/// Reading a 32-bit value: two 16-bit values, high then low.
pub open spec fn parse_u32(s: Seq<u8>) -> Parse<u32> {
    if s.len() < 4 {
        fail(DecodeError::EndOfStream, Seq::empty())
    } else {
        done(join_u32(join_u16(s[0], s[1]), join_u16(s[2], s[3])), s.skip(4))
    }
}

/// Reading a block of `len` octets.
pub open spec fn parse_bytes(s: Seq<u8>, len: nat) -> Parse<Seq<u8>> {
    if s.len() < len {
        fail(DecodeError::EndOfStream, Seq::empty())
    } else {
        done(s.take(len as int), s.skip(len as int))
    }
}

/// Reading a text of `len` octets, which must be valid UTF-8.
pub open spec fn parse_text(s: Seq<u8>, len: nat) -> Parse<Seq<char>> {
    if s.len() < len {
        fail(DecodeError::EndOfStream, Seq::empty())
    } else if !valid_utf8(s.take(len as int)) {
        fail(DecodeError::InvalidText, s.skip(len as int))
    } else {
        done(decode_utf8(s.take(len as int)), s.skip(len as int))
    }
}

/// The octets of a text: its UTF-8 encoding.
pub open spec fn text_wire(text: Seq<char>) -> Seq<u8> {
    encode_utf8(text)
}

/// Octets that follow two runs follow the second of them.
pub(crate) proof fn lemma_regroup_two(a: Seq<u8>, b: Seq<u8>, tail: Seq<u8>)
    ensures
        (a + b) + tail == a + (b + tail),
{
    assert((a + b) + tail =~= a + (b + tail));
}

/// Octets that follow three runs follow the last of them.
pub(crate) proof fn lemma_regroup_three(a: Seq<u8>, b: Seq<u8>, c: Seq<u8>, tail: Seq<u8>)
    ensures
        (a + b + c) + tail == a + (b + (c + tail)),
{
    assert((a + b + c) + tail =~= a + (b + (c + tail)));
}

/// Octets that follow four runs follow the last of them.
pub(crate) proof fn lemma_regroup_four(
    a: Seq<u8>,
    b: Seq<u8>,
    c: Seq<u8>,
    d: Seq<u8>,
    tail: Seq<u8>,
)
    ensures
        (a + b + c + d) + tail == a + (b + (c + (d + tail))),
{
    assert((a + b + c + d) + tail =~= a + (b + (c + (d + tail))));
}

/// Octets that follow five runs follow the last of them.
pub(crate) proof fn lemma_regroup_five(
    a: Seq<u8>,
    b: Seq<u8>,
    c: Seq<u8>,
    d: Seq<u8>,
    e: Seq<u8>,
    tail: Seq<u8>,
)
    ensures
        (a + b + c + d + e) + tail == a + (b + (c + (d + (e + tail)))),
{
    assert((a + b + c + d + e) + tail =~= a + (b + (c + (d + (e + tail)))));
}

/// Octets that follow six runs follow the last of them.
pub(crate) proof fn lemma_regroup_six(
    a: Seq<u8>,
    b: Seq<u8>,
    c: Seq<u8>,
    d: Seq<u8>,
    e: Seq<u8>,
    f: Seq<u8>,
    tail: Seq<u8>,
)
    ensures
        (a + b + c + d + e + f) + tail == a + (b + (c + (d + (e + (f + tail))))),
{
    assert((a + b + c + d + e + f) + tail =~= a + (b + (c + (d + (e + (f + tail))))));
}

/// Four runs appended one by one are their concatenation appended at once.
pub(crate) proof fn lemma_append_four(
    start: Seq<u8>,
    a: Seq<u8>,
    b: Seq<u8>,
    c: Seq<u8>,
    d: Seq<u8>,
)
    ensures
        start + a + b + c + d == start + (a + b + c + d),
{
    assert(start + a + b + c + d =~= start + (a + b + c + d));
}

/// A 16-bit value is read back from its two octets, whatever follows them.
pub proof fn lemma_u16_round_trip(x: u16, tail: Seq<u8>)
    ensures
        parse_u16(u16_wire(x) + tail) == done(x, tail),
{
    let s = u16_wire(x) + tail;
    assert(join_u16((x >> 8) as u8, (x & 0xff) as u8) == x) by (bit_vector);
    assert(s.skip(2) =~= tail);
}

/// A 32-bit value is read back from its four octets, whatever follows
/// them.
pub proof fn lemma_u32_round_trip(x: u32, tail: Seq<u8>)
    ensures
        parse_u32(u32_wire(x) + tail) == done(x, tail),
{
    let s = u32_wire(x) + tail;
    let high = (x >> 16) as u16;
    let low = (x & 0xffff) as u16;
    assert(join_u16((high >> 8) as u8, (high & 0xff) as u8) == high) by (bit_vector);
    assert(join_u16((low >> 8) as u8, (low & 0xff) as u8) == low) by (bit_vector);
    assert(join_u32((x >> 16) as u16, (x & 0xffff) as u16) == x) by (bit_vector);
    assert(s.skip(4) =~= tail);
}

/// A block of octets is read back from itself, whatever follows it.
pub proof fn lemma_bytes_round_trip(bytes: Seq<u8>, tail: Seq<u8>)
    ensures
        parse_bytes(bytes + tail, bytes.len()) == done(bytes, tail),
{
    let s = bytes + tail;
    assert(s.take(bytes.len() as int) =~= bytes);
    assert(s.skip(bytes.len() as int) =~= tail);
}

/// `String::from_utf8`: the bytes become a `String` exactly when they are
/// valid UTF-8, and the string then encodes to those same bytes.
#[verifier::external_body]
fn string_from_utf8(bytes: Vec<u8>) -> (r: Option<String>)
    ensures
        r is Some <==> valid_utf8(bytes@),
        r matches Some(s) ==> encode_utf8(s@) == bytes@,
{
    match String::from_utf8(bytes) {
        Ok(s) => Some(s),
        Err(_) => None,
    }
}

/// A source of octets.
///
/// An implementation says which octets it has yet to hand out
/// ([`IStream::pending`]) and supplies [`IStream::read_u8`], which hands
/// out the first of them; the wider reads are composed from it and need
/// not be overridden.
pub trait IStream {
    /// The octets that have not been read yet.
    spec fn pending(&self) -> Seq<u8>;

    /// Takes the next octet, or reports that none is left.
    fn read_u8(&mut self) -> (r: Result<u8, DecodeError>)
        ensures
            r == parse_u8(old(self).pending()).outcome,
            final(self).pending() == parse_u8(old(self).pending()).rest,
    ;

    /// Takes a big-endian 16-bit value: the high octet, then the low one.
    fn read_u16(&mut self) -> (r: Result<u16, DecodeError>)
        ensures
            r == parse_u16(old(self).pending()).outcome,
            final(self).pending() == parse_u16(old(self).pending()).rest,
    {
        let high = self.read_u8()?;
        let low = self.read_u8()?;
        Ok(((high as u16) << 8) | (low as u16))
    }

    /// Takes a big-endian 32-bit value: the high half, then the low one.
    fn read_u32(&mut self) -> (r: Result<u32, DecodeError>)
        ensures
            r == parse_u32(old(self).pending()).outcome,
            final(self).pending() == parse_u32(old(self).pending()).rest,
    {
        let high = self.read_u16()?;
        let low = self.read_u16()?;
        Ok(((high as u32) << 16) | (low as u32))
    }

    /// Takes the next `len` octets.
    fn read_bytes(&mut self, len: usize) -> (r: Result<Vec<u8>, DecodeError>)
        ensures
            yields(r, parse_bytes(old(self).pending(), len as nat).outcome),
            final(self).pending() == parse_bytes(old(self).pending(), len as nat).rest,
    {
        let mut bytes: Vec<u8> = Vec::new();
        let mut i: usize = 0;
        while i < len
            invariant
                i <= len,
                bytes@.len() == i,
                i <= old(self).pending().len(),
                bytes@ == old(self).pending().take(i as int),
                self.pending() == old(self).pending().skip(i as int),
            decreases len - i,
        {
            let b = self.read_u8()?;
            bytes.push(b);
            i += 1;
        }
        Ok(bytes)
    }

    /// Takes a text that occupies the next `len` octets.
    fn read_string(&mut self, len: usize) -> (r: Result<String, DecodeError>)
        ensures
            yields(r, parse_text(old(self).pending(), len as nat).outcome),
            final(self).pending() == parse_text(old(self).pending(), len as nat).rest,
    {
        let bytes = self.read_bytes(len)?;
        match string_from_utf8(bytes) {
            Some(text) => {
                proof {
                    encode_utf8_decode_utf8(text@);
                }
                Ok(text)
            },
            None => Err(DecodeError::InvalidText),
        }
    }
}

/// A sink of octets.
///
/// An implementation says which octets it has taken so far
/// ([`OStream::written`]) and supplies [`OStream::write_u8`], which takes
/// one more; the wider writes are composed from it and need not be
/// overridden.
pub trait OStream {
    /// The octets written so far.
    spec fn written(&self) -> Seq<u8>;

    /// Appends one octet.
    fn write_u8(&mut self, x: u8)
        ensures
            final(self).written() == old(self).written().push(x),
    ;

    /// Appends a big-endian 16-bit value: the high octet, then the low one.
    fn write_u16(&mut self, x: u16)
        ensures
            final(self).written() == old(self).written() + u16_wire(x),
    {
        self.write_u8((x >> 8) as u8);
        self.write_u8((x & 0xff) as u8);
    }

    /// Appends a big-endian 32-bit value: the high half, then the low one.
    fn write_u32(&mut self, x: u32)
        ensures
            final(self).written() == old(self).written() + u32_wire(x),
    {
        self.write_u16((x >> 16) as u16);
        self.write_u16((x & 0xffff) as u16);
    }

    /// Appends a block of octets.
    fn write_bytes(&mut self, bytes: Vec<u8>)
        ensures
            final(self).written() == old(self).written() + bytes@,
    {
        let mut i: usize = 0;
        while i < bytes.len()
            invariant
                i <= bytes.len(),
                self.written() == old(self).written() + bytes@.take(i as int),
            decreases bytes.len() - i,
        {
            self.write_u8(bytes[i]);
            i += 1;
        }
    }

    /// Appends a text as its UTF-8 octets.
    fn write_string(&mut self, string: String)
        ensures
            final(self).written() == old(self).written() + text_wire(string@),
    {
        let bytes = string.as_str().as_bytes();
        let mut i: usize = 0;
        while i < bytes.len()
            invariant
                i <= bytes.len(),
                bytes@ == text_wire(string@),
                self.written() == old(self).written() + bytes@.take(i as int),
            decreases bytes.len() - i,
        {
            self.write_u8(bytes[i]);
            i += 1;
        }
    }
}

} // verus!
