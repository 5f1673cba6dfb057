//! The flag word of a message header.
//!
//! Bit 15 is set in a response and clear in a query. Bits 11 to 14 hold the
//! operation code, bit 10 "authoritative answer", bit 9 "truncated", bit 8
//! "recursion desired", bit 7 "recursion available", and bits 0 to 3 the
//! response code. Bits 4 to 6 are not read.

use vstd::prelude::*;
use crate::codes::{Operation, ResponseCode};
use crate::streams::{fail, parse_u16, u16_wire, DecodeError, IStream, OStream, Parse};

verus! {

/// The flags of a message header, field by field.
#[derive(Clone, Copy, Debug, PartialEq, Eq, Structural)]
pub struct Flags {
    pub is_query: bool,
    pub is_authoritative_answer: bool,
    pub is_truncated: bool,
    pub is_recursion_desired: bool,
    pub is_recursion_available: bool,
    pub operation: Operation,
    pub response_code: ResponseCode,
}

/// The flag word that encodes `flags`.
///
/// The response code is laid over the low bits as it is: one of the
/// extended codes, 16 and above, reaches into bit 4.
pub open spec fn flags_word(flags: Flags) -> u16 {
    (if flags.is_query { 0u16 } else { 0x8000u16 })
        | (flags.operation.wire_code() << 11)
        | (if flags.is_authoritative_answer { 0x0400u16 } else { 0u16 })
        | (if flags.is_truncated { 0x0200u16 } else { 0u16 })
        | (if flags.is_recursion_desired { 0x0100u16 } else { 0u16 })
        | (if flags.is_recursion_available { 0x0080u16 } else { 0u16 })
        | flags.response_code.wire_code()
}

/// The flags that a flag word decodes to. The operation code is looked at
/// before the response code, so where both are unknown the operation is
/// the one reported.
pub open spec fn flags_of_word(word: u16) -> Result<Flags, DecodeError> {
    match Operation::of_code((word & 0x7800) >> 11) {
        None => Err(DecodeError::UnknownOperation((word & 0x7800) >> 11)),
        Some(operation) => match ResponseCode::of_code(word & 0x000f) {
            None => Err(DecodeError::UnknownResponseCode(word & 0x000f)),
            Some(response_code) => Ok(
                Flags {
                    is_query: word & 0x8000 == 0,
                    is_authoritative_answer: word & 0x0400 != 0,
                    is_truncated: word & 0x0200 != 0,
                    is_recursion_desired: word & 0x0100 != 0,
                    is_recursion_available: word & 0x0080 != 0,
                    operation,
                    response_code,
                },
            ),
        },
    }
}

/// The octets of `flags` on the wire.
pub open spec fn flags_wire(flags: Flags) -> Seq<u8> {
    u16_wire(flags_word(flags))
}

/// Reading flags: a 16-bit word, then its fields.
pub open spec fn parse_flags(s: Seq<u8>) -> Parse<Flags> {
    match parse_u16(s).outcome {
        Err(e) => fail(e, parse_u16(s).rest),
        Ok(word) => Parse { outcome: flags_of_word(word), rest: parse_u16(s).rest },
    }
}

/// How the fields of a flag word come back out of the word they were laid
/// into, stated over the bare numbers.
proof fn lemma_flag_bits(q: u16, op: u16, aa: u16, tc: u16, rd: u16, ra: u16, rc: u16)
    by (bit_vector)
    requires
        q == 0 || q == 0x8000,
        op < 16,
        aa == 0 || aa == 0x0400,
        tc == 0 || tc == 0x0200,
        rd == 0 || rd == 0x0100,
        ra == 0 || ra == 0x0080,
        rc < 16,
    ensures
        ((q | (op << 11) | aa | tc | rd | ra | rc) & 0x8000) == q,
        ((q | (op << 11) | aa | tc | rd | ra | rc) & 0x7800) >> 11 == op,
        ((q | (op << 11) | aa | tc | rd | ra | rc) & 0x0400) == aa,
        ((q | (op << 11) | aa | tc | rd | ra | rc) & 0x0200) == tc,
        ((q | (op << 11) | aa | tc | rd | ra | rc) & 0x0100) == rd,
        ((q | (op << 11) | aa | tc | rd | ra | rc) & 0x0080) == ra,
        ((q | (op << 11) | aa | tc | rd | ra | rc) & 0x000f) == rc,
{
}

/// Flags whose response code fits the four bits of its field decode from
/// their flag word to themselves: every combination of the five bits, the
/// operation and such a response code survives the round trip.
pub proof fn lemma_flags_round_trip(flags: Flags)
    requires
        flags.response_code.wire_code() < 16,
    ensures
        flags_of_word(flags_word(flags)) == Ok::<Flags, DecodeError>(flags),
{
    let q = if flags.is_query { 0u16 } else { 0x8000u16 };
    let aa = if flags.is_authoritative_answer { 0x0400u16 } else { 0u16 };
    let tc = if flags.is_truncated { 0x0200u16 } else { 0u16 };
    let rd = if flags.is_recursion_desired { 0x0100u16 } else { 0u16 };
    let ra = if flags.is_recursion_available { 0x0080u16 } else { 0u16 };
    let op = flags.operation.wire_code();
    let rc = flags.response_code.wire_code();
    lemma_flag_bits(q, op, aa, tc, rd, ra, rc);
    flags.operation.lemma_code_round_trip(op);
    flags.response_code.lemma_code_round_trip(rc);
}

/// Flags that were taken out of a flag word have a response code that
/// fits the four bits of its field.
pub proof fn lemma_parsed_flags_fit(word: u16)
    ensures
        flags_of_word(word) matches Ok(flags) ==> flags.response_code.wire_code() < 16,
{
    if let Ok(flags) = flags_of_word(word) {
        let code = word & 0x000f;
        assert(code < 16) by (bit_vector)
            requires
                code == word & 0x000f,
        ;
        flags.response_code.lemma_code_round_trip(code);
    }
}

impl Flags {
    /// Flags with the given fields.
    pub fn new(
        is_query: bool,
        is_authoritative_answer: bool,
        is_truncated: bool,
        is_recursion_desired: bool,
        is_recursion_available: bool,
        operation: Operation,
        response_code: ResponseCode,
    ) -> (r: Self)
        ensures
            r == (Flags {
                is_query,
                is_authoritative_answer,
                is_truncated,
                is_recursion_desired,
                is_recursion_available,
                operation,
                response_code,
            }),
    {
        Flags {
            is_query,
            is_authoritative_answer,
            is_truncated,
            is_recursion_desired,
            is_recursion_available,
            operation,
            response_code,
        }
    }

    /// Reads a flag word and takes it apart. An operation code or a
    /// response code that is not known fails the read.
    pub fn read_from_stream<S: IStream + ?Sized>(stream: &mut S) -> (r: Result<Self, DecodeError>)
        ensures
            r == parse_flags(old(stream).pending()).outcome,
            final(stream).pending() == parse_flags(old(stream).pending()).rest,
    {
        let word = stream.read_u16()?;
        let operation = match Operation::from_code((word & 0x7800) >> 11) {
            Some(operation) => operation,
            None => {
                return Err(DecodeError::UnknownOperation((word & 0x7800) >> 11));
            },
        };
        let response_code = match ResponseCode::from_code(word & 0x000f) {
            Some(response_code) => response_code,
            None => {
                return Err(DecodeError::UnknownResponseCode(word & 0x000f));
            },
        };
        Ok(
            Flags {
                is_query: word & 0x8000 == 0,
                is_authoritative_answer: word & 0x0400 != 0,
                is_truncated: word & 0x0200 != 0,
                is_recursion_desired: word & 0x0100 != 0,
                is_recursion_available: word & 0x0080 != 0,
                operation,
                response_code,
            },
        )
    }

    /// Writes the flag word of these flags.
    pub fn write_to_stream<S: OStream + ?Sized>(&self, stream: &mut S)
        ensures
            final(stream).written() == old(stream).written() + flags_wire(*self),
    {
        let operation = self.operation.code();
        assert(operation < 16);
        let word: u16 = (if self.is_query { 0u16 } else { 0x8000u16 })
            | (operation << 11)
            | (if self.is_authoritative_answer { 0x0400u16 } else { 0u16 })
            | (if self.is_truncated { 0x0200u16 } else { 0u16 })
            | (if self.is_recursion_desired { 0x0100u16 } else { 0u16 })
            | (if self.is_recursion_available { 0x0080u16 } else { 0u16 })
            | self.response_code.code();
        stream.write_u16(word);
    }
}

} // verus!
