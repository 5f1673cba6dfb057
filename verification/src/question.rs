//! Questions: what a requester asks for.

use vstd::prelude::*;
use crate::codes::{Class, ResourceRecordType};
use crate::domain::{
    domain_encodable, domain_wire, lemma_domain_round_trip, lemma_parsed_domain_encodable,
    parse_domain, Domain,
};
use crate::streams::{
    done, fail, lemma_regroup_three, lemma_u16_round_trip, parse_u16, u16_wire, yields,
    DecodeError, IStream, OStream, Parse,
};

verus! {

/// A question: a name, the type of record asked for, and a class.
#[derive(Debug, PartialEq, Eq)]
pub struct Question {
    pub name: Domain,
    pub typ: ResourceRecordType,
    pub class: Class,
}

/// The mathematical value of a [`Question`].
pub struct QuestionView {
    pub name: Seq<Seq<char>>,
    pub typ: ResourceRecordType,
    pub class: Class,
}

impl View for Question {
    type V = QuestionView;

    open spec fn view(&self) -> QuestionView {
        QuestionView { name: self.name@, typ: self.typ, class: self.class }
    }
}

/// The octets of a question: name, type, class.
pub open spec fn question_wire(question: QuestionView) -> Seq<u8> {
    domain_wire(question.name) + u16_wire(question.typ.wire_code()) + u16_wire(
        question.class.wire_code(),
    )
}

/// Whether a question can be told from its octets: its name can, and its
/// class is the one that its code stands for.
pub open spec fn question_encodable(question: QuestionView) -> bool {
    domain_encodable(question.name) && question.class.canonical()
}

/// Reading a question: name, type, class. A type code that is not known
/// fails the read once it has been read.
pub open spec fn parse_question(s: Seq<u8>) -> Parse<QuestionView> {
    let name = parse_domain(s);
    match name.outcome {
        Err(error) => fail(error, name.rest),
        Ok(labels) => {
            let code = parse_u16(name.rest);
            match code.outcome {
                Err(error) => fail(error, code.rest),
                Ok(type_code) => match ResourceRecordType::of_code(type_code) {
                    None => fail(DecodeError::UnknownRecordType(type_code), code.rest),
                    Some(typ) => {
                        let class = parse_u16(code.rest);
                        match class.outcome {
                            Err(error) => fail(error, class.rest),
                            Ok(class_code) => done(
                                QuestionView {
                                    name: labels,
                                    typ,
                                    class: Class::of_code(class_code),
                                },
                                class.rest,
                            ),
                        }
                    },
                },
            }
        },
    }
}

/// A question that [`question_encodable`] admits is read back from its
/// octets, whatever follows them.
pub proof fn lemma_question_round_trip(question: QuestionView, tail: Seq<u8>)
    requires
        question_encodable(question),
    ensures
        parse_question(question_wire(question) + tail) == done(question, tail),
{
    let after_type = u16_wire(question.class.wire_code()) + tail;
    let after_name = u16_wire(question.typ.wire_code()) + after_type;
    lemma_regroup_three(
        domain_wire(question.name),
        u16_wire(question.typ.wire_code()),
        u16_wire(question.class.wire_code()),
        tail,
    );
    lemma_domain_round_trip(question.name, after_name);
    lemma_u16_round_trip(question.typ.wire_code(), after_type);
    question.typ.lemma_code_round_trip(question.typ.wire_code());
    lemma_u16_round_trip(question.class.wire_code(), tail);
}

/// A question that was read can be told from its octets.
pub proof fn lemma_parsed_question_encodable(s: Seq<u8>)
    ensures
        parse_question(s).outcome matches Ok(question) ==> question_encodable(question),
{
    lemma_parsed_domain_encodable(s);
    if let Ok(question) = parse_question(s).outcome {
        let after_type = parse_u16(parse_domain(s).rest).rest;
        let class_code = parse_u16(after_type).outcome->Ok_0;
        Class::lemma_code_round_trip(class_code);
    }
}

impl Question {
    /// Reads a question: name, type, class.
    pub fn read_from_stream<S: IStream + ?Sized>(stream: &mut S) -> (r: Result<Self, DecodeError>)
        ensures
            yields(r, parse_question(old(stream).pending()).outcome),
            final(stream).pending() == parse_question(old(stream).pending()).rest,
    {
        let name = Domain::read_from_stream(stream)?;
        let type_code = stream.read_u16()?;
        let typ = match ResourceRecordType::from_code(type_code) {
            Some(typ) => typ,
            None => {
                return Err(DecodeError::UnknownRecordType(type_code));
            },
        };
        let class = Class::from_code(stream.read_u16()?);
        Ok(Question { name, typ, class })
    }

    /// Writes a question: name, type, class.
    pub fn write_to_stream<S: OStream + ?Sized>(&self, stream: &mut S)
        ensures
            final(stream).written() == old(stream).written() + question_wire(self@),
    {
        self.name.write_to_stream(stream);
        stream.write_u16(self.typ.code());
        stream.write_u16(self.class.code());
    }
}

impl Clone for Question {
    fn clone(&self) -> (r: Self)
        ensures
            r@ == self@,
    {
        Question { name: self.name.clone(), typ: self.typ, class: self.class }
    }
}

/// The values of a sequence of questions, item by item.
pub open spec fn question_views(items: Seq<Question>) -> Seq<QuestionView> {
    Seq::new(items.len(), |i: int| items[i]@)
}

} // verus!
