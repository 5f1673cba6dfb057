//! Whole messages: the header and the four sections behind it.

use vstd::prelude::*;
pub use crate::codes::{Class, Operation, ResourceRecordType, ResponseCode};
pub use crate::domain::Domain;
pub use crate::flags::Flags;
pub use crate::question::Question;
pub use crate::record::{ResourceRecord, ResourceRecordData, IPV4};
use crate::flags::{
    flags_wire, flags_word, lemma_flags_round_trip, lemma_parsed_flags_fit, parse_flags,
};
use crate::question::{
    lemma_parsed_question_encodable, lemma_question_round_trip, parse_question,
    question_encodable, question_views, question_wire, QuestionView,
};
use crate::record::{
    lemma_parsed_record_encodable, lemma_record_round_trip, parse_record, record_encodable,
    record_views, record_wire, RecordView,
};
use crate::streams::{
    done, fail, lemma_append_four, lemma_prepend_nothing, lemma_prepend_twice,
    lemma_regroup_four, lemma_regroup_six, lemma_regroup_two, lemma_u16_round_trip, parse_u16,
    prepend, u16_wire, yields, DecodeError, IStream, OStream, Parse,
};

verus! {

/// A message: the transaction id, the flags, and the four sections. The
/// section counts of the header are the lengths of the sections and are
/// not stored beside them.
#[derive(Debug, PartialEq, Eq)]
pub struct Message {
    pub id: u16,
    pub flags: Flags,
    pub questions: Vec<Question>,
    pub answers: Vec<ResourceRecord>,
    pub authoritative_records: Vec<ResourceRecord>,
    pub additional_records: Vec<ResourceRecord>,
}

/// The mathematical value of a [`Message`].
pub struct MessageView {
    pub id: u16,
    pub flags: Flags,
    pub questions: Seq<QuestionView>,
    pub answers: Seq<RecordView>,
    pub authoritative_records: Seq<RecordView>,
    pub additional_records: Seq<RecordView>,
}

impl View for Message {
    type V = MessageView;

    open spec fn view(&self) -> MessageView {
        MessageView {
            id: self.id,
            flags: self.flags,
            questions: question_views(self.questions@),
            answers: record_views(self.answers@),
            authoritative_records: record_views(self.authoritative_records@),
            additional_records: record_views(self.additional_records@),
        }
    }
}

/// The octets of a run of questions, one after the other.
pub open spec fn questions_wire(questions: Seq<QuestionView>) -> Seq<u8>
    decreases questions.len(),
{
    if questions.len() == 0 {
        Seq::empty()
    } else {
        question_wire(questions.first()) + questions_wire(questions.drop_first())
    }
}

/// The octets of a run of records, one after the other.
pub open spec fn records_wire(records: Seq<RecordView>) -> Seq<u8>
    decreases records.len(),
{
    if records.len() == 0 {
        Seq::empty()
    } else {
        record_wire(records.first()) + records_wire(records.drop_first())
    }
}

/// The octets of a section count: the length of the section modulo 65536,
/// which is the length itself for every section that
/// [`message_encodable`] admits.
pub open spec fn count_wire(len: nat) -> Seq<u8> {
    u16_wire((len % 65536) as u16)
}

/// The octets of the header: id, flags, and the four section counts.
pub open spec fn header_wire(message: MessageView) -> Seq<u8> {
    u16_wire(message.id) + flags_wire(message.flags) + count_wire(message.questions.len())
        + count_wire(message.answers.len()) + count_wire(message.authoritative_records.len())
        + count_wire(message.additional_records.len())
}

/// The octets of the four sections: the questions, the answers, the
/// authority records and the additional records.
pub open spec fn sections_wire(message: MessageView) -> Seq<u8> {
    questions_wire(message.questions) + records_wire(message.answers) + records_wire(
        message.authoritative_records,
    ) + records_wire(message.additional_records)
}

/// The octets of a message: the header, then the four sections.
pub open spec fn message_wire(message: MessageView) -> Seq<u8> {
    header_wire(message) + sections_wire(message)
}

/// Whether a message can be told from its octets: the response code fits
/// its four bits, no section has more than 65535 entries, and every
/// question and record can be told from its own octets.
pub open spec fn message_encodable(message: MessageView) -> bool {
    &&& message.flags.response_code.wire_code() < 16
    &&& message.questions.len() <= 65535
    &&& message.answers.len() <= 65535
    &&& message.authoritative_records.len() <= 65535
    &&& message.additional_records.len() <= 65535
    &&& forall|i: int|
        0 <= i < message.questions.len() ==> question_encodable(#[trigger] message.questions[i])
    &&& forall|i: int|
        0 <= i < message.answers.len() ==> record_encodable(#[trigger] message.answers[i])
    &&& forall|i: int|
        0 <= i < message.authoritative_records.len() ==> record_encodable(
            #[trigger] message.authoritative_records[i],
        )
    &&& forall|i: int|
        0 <= i < message.additional_records.len() ==> record_encodable(
            #[trigger] message.additional_records[i],
        )
}

/// Reading `count` questions, one after the other.
pub open spec fn parse_questions(s: Seq<u8>, count: nat) -> Parse<Seq<QuestionView>>
    decreases count,
{
    if count == 0 {
        done(Seq::empty(), s)
    } else {
        let first = parse_question(s);
        match first.outcome {
            Err(error) => fail(error, first.rest),
            Ok(question) => prepend(
                seq![question],
                parse_questions(first.rest, (count - 1) as nat),
            ),
        }
    }
}

/// Reading `count` records, one after the other.
pub open spec fn parse_records(s: Seq<u8>, count: nat) -> Parse<Seq<RecordView>>
    decreases count,
{
    if count == 0 {
        done(Seq::empty(), s)
    } else {
        let first = parse_record(s);
        match first.outcome {
            Err(error) => fail(error, first.rest),
            Ok(record) => prepend(seq![record], parse_records(first.rest, (count - 1) as nat)),
        }
    }
}

/// Reading the sections of a message whose header has been read.
pub open spec fn parse_sections(
    s: Seq<u8>,
    id: u16,
    flags: Flags,
    questions: nat,
    answers: nat,
    authority: nat,
    additional: nat,
) -> Parse<MessageView> {
    let first = parse_questions(s, questions);
    match first.outcome {
        Err(error) => fail(error, first.rest),
        Ok(questions) => {
            let second = parse_records(first.rest, answers);
            match second.outcome {
                Err(error) => fail(error, second.rest),
                Ok(answers) => {
                    let third = parse_records(second.rest, authority);
                    match third.outcome {
                        Err(error) => fail(error, third.rest),
                        Ok(authoritative_records) => {
                            let fourth = parse_records(third.rest, additional);
                            match fourth.outcome {
                                Err(error) => fail(error, fourth.rest),
                                Ok(additional_records) => done(
                                    MessageView {
                                        id,
                                        flags,
                                        questions,
                                        answers,
                                        authoritative_records,
                                        additional_records,
                                    },
                                    fourth.rest,
                                ),
                            }
                        },
                    }
                },
            }
        },
    }
}

/// What the header of a message holds.
pub struct Header {
    pub id: u16,
    pub flags: Flags,
    pub questions: u16,
    pub answers: u16,
    pub authority: u16,
    pub additional: u16,
}

/// Reading the header: the id, the flags, then the four counts.
pub open spec fn parse_header(s: Seq<u8>) -> Parse<Header> {
    let id = parse_u16(s);
    match id.outcome {
        Err(error) => fail(error, id.rest),
        Ok(id_value) => {
            let flags = parse_flags(id.rest);
            match flags.outcome {
                Err(error) => fail(error, flags.rest),
                Ok(flags_value) => {
                    let first = parse_u16(flags.rest);
                    match first.outcome {
                        Err(error) => fail(error, first.rest),
                        Ok(questions) => {
                            let second = parse_u16(first.rest);
                            match second.outcome {
                                Err(error) => fail(error, second.rest),
                                Ok(answers) => {
                                    let third = parse_u16(second.rest);
                                    match third.outcome {
                                        Err(error) => fail(error, third.rest),
                                        Ok(authority) => {
                                            let fourth = parse_u16(third.rest);
                                            match fourth.outcome {
                                                Err(error) => fail(error, fourth.rest),
                                                Ok(additional) => done(
                                                    Header {
                                                        id: id_value,
                                                        flags: flags_value,
                                                        questions,
                                                        answers,
                                                        authority,
                                                        additional,
                                                    },
                                                    fourth.rest,
                                                ),
                                            }
                                        },
                                    }
                                },
                            }
                        },
                    }
                },
            }
        },
    }
}

/// Reading a message: the header, then as many questions, answers,
/// authority records and additional records as its counts say, in that
/// order. The first failure ends the read.
pub open spec fn parse_message(s: Seq<u8>) -> Parse<MessageView> {
    let header = parse_header(s);
    match header.outcome {
        Err(error) => fail(error, header.rest),
        Ok(h) => parse_sections(
            header.rest,
            h.id,
            h.flags,
            h.questions as nat,
            h.answers as nat,
            h.authority as nat,
            h.additional as nat,
        ),
    }
}

/// The octets of a run of questions followed by one more question.
pub proof fn lemma_questions_wire_push(questions: Seq<QuestionView>, question: QuestionView)
    ensures
        questions_wire(questions.push(question)) == questions_wire(questions) + question_wire(
            question,
        ),
    decreases questions.len(),
{
    let pushed = questions.push(question);
    if questions.len() == 0 {
        assert(pushed.drop_first() =~= Seq::<QuestionView>::empty());
        assert(questions_wire(pushed.drop_first()) =~= Seq::<u8>::empty());
        assert(questions_wire(pushed) == question_wire(question) + questions_wire(
            pushed.drop_first(),
        ));
        assert(questions_wire(pushed) =~= questions_wire(questions) + question_wire(question));
    } else {
        assert(pushed.drop_first() =~= questions.drop_first().push(question));
        assert(pushed.first() == questions.first());
        lemma_questions_wire_push(questions.drop_first(), question);
        assert(questions_wire(pushed) == question_wire(questions.first()) + questions_wire(
            pushed.drop_first(),
        ));
        assert(questions_wire(pushed) =~= questions_wire(questions) + question_wire(question));
    }
}

/// The octets of a run of records followed by one more record.
pub proof fn lemma_records_wire_push(records: Seq<RecordView>, record: RecordView)
    ensures
        records_wire(records.push(record)) == records_wire(records) + record_wire(record),
    decreases records.len(),
{
    let pushed = records.push(record);
    if records.len() == 0 {
        assert(pushed.drop_first() =~= Seq::<RecordView>::empty());
        assert(records_wire(pushed.drop_first()) =~= Seq::<u8>::empty());
        assert(records_wire(pushed) == record_wire(record) + records_wire(pushed.drop_first()));
        assert(records_wire(pushed) =~= records_wire(records) + record_wire(record));
    } else {
        assert(pushed.drop_first() =~= records.drop_first().push(record));
        assert(pushed.first() == records.first());
        lemma_records_wire_push(records.drop_first(), record);
        assert(records_wire(pushed) == record_wire(records.first()) + records_wire(
            pushed.drop_first(),
        ));
        assert(records_wire(pushed) =~= records_wire(records) + record_wire(record));
    }
}

/// Questions that can each be told from their octets are read back from
/// the octets of the run, as many as they are, whatever follows them.
pub proof fn lemma_questions_round_trip(questions: Seq<QuestionView>, tail: Seq<u8>)
    requires
        forall|i: int| 0 <= i < questions.len() ==> question_encodable(#[trigger] questions[i]),
    ensures
        parse_questions(questions_wire(questions) + tail, questions.len()) == done(questions, tail),
    decreases questions.len(),
{
    if questions.len() == 0 {
        assert(questions_wire(questions) + tail =~= tail);
        assert(questions =~= Seq::empty());
    } else {
        let first = questions.first();
        let others = questions.drop_first();
        let after_first = questions_wire(others) + tail;
        assert(questions_wire(questions) + tail == question_wire(first) + after_first) by {
            lemma_regroup_two(question_wire(first), questions_wire(others), tail);
        }
        assert(parse_question(question_wire(first) + after_first) == done(first, after_first)) by {
            assert(question_encodable(questions[0]));
            lemma_question_round_trip(first, after_first);
        }
        assert(parse_questions(after_first, others.len()) == done(others, tail)) by {
            assert forall|i: int| 0 <= i < others.len() implies question_encodable(
                #[trigger] others[i],
            ) by {
                assert(others[i] == questions[i + 1]);
            }
            lemma_questions_round_trip(others, tail);
        }
        assert(seq![first] + others =~= questions);
    }
}

/// Records that can each be told from their octets are read back from the
/// octets of the run, as many as they are, whatever follows them.
pub proof fn lemma_records_round_trip(records: Seq<RecordView>, tail: Seq<u8>)
    requires
        forall|i: int| 0 <= i < records.len() ==> record_encodable(#[trigger] records[i]),
    ensures
        parse_records(records_wire(records) + tail, records.len()) == done(records, tail),
    decreases records.len(),
{
    if records.len() == 0 {
        assert(records_wire(records) + tail =~= tail);
        assert(records =~= Seq::empty());
    } else {
        let first = records.first();
        let others = records.drop_first();
        let after_first = records_wire(others) + tail;
        assert(records_wire(records) + tail == record_wire(first) + after_first) by {
            lemma_regroup_two(record_wire(first), records_wire(others), tail);
        }
        assert(parse_record(record_wire(first) + after_first) == done(first, after_first)) by {
            assert(record_encodable(records[0]));
            lemma_record_round_trip(first, after_first);
        }
        assert(parse_records(after_first, others.len()) == done(others, tail)) by {
            assert forall|i: int| 0 <= i < others.len() implies record_encodable(
                #[trigger] others[i],
            ) by {
                assert(others[i] == records[i + 1]);
            }
            lemma_records_round_trip(others, tail);
        }
        assert(seq![first] + others =~= records);
    }
}

/// The header of a message whose response code fits its four bits and
/// whose sections have at most 65535 entries each is read back from its
/// octets, whatever follows them.
pub proof fn lemma_header_round_trip(message: MessageView, tail: Seq<u8>)
    requires
        message.flags.response_code.wire_code() < 16,
        message.questions.len() <= 65535,
        message.answers.len() <= 65535,
        message.authoritative_records.len() <= 65535,
        message.additional_records.len() <= 65535,
    ensures
        parse_header(header_wire(message) + tail) == done(
            Header {
                id: message.id,
                flags: message.flags,
                questions: message.questions.len() as u16,
                answers: message.answers.len() as u16,
                authority: message.authoritative_records.len() as u16,
                additional: message.additional_records.len() as u16,
            },
            tail,
        ),
{
    let after_count3 = count_wire(message.additional_records.len()) + tail;
    let after_count2 = count_wire(message.authoritative_records.len()) + after_count3;
    let after_count1 = count_wire(message.answers.len()) + after_count2;
    let after_flags = count_wire(message.questions.len()) + after_count1;
    let after_id = flags_wire(message.flags) + after_flags;
    lemma_regroup_six(
        u16_wire(message.id),
        flags_wire(message.flags),
        count_wire(message.questions.len()),
        count_wire(message.answers.len()),
        count_wire(message.authoritative_records.len()),
        count_wire(message.additional_records.len()),
        tail,
    );
    lemma_u16_round_trip(message.id, after_id);
    lemma_u16_round_trip(flags_word(message.flags), after_flags);
    lemma_flags_round_trip(message.flags);
    assert(parse_flags(after_id) == done(message.flags, after_flags));
    lemma_u16_round_trip((message.questions.len() % 65536) as u16, after_count1);
    lemma_u16_round_trip((message.answers.len() % 65536) as u16, after_count2);
    lemma_u16_round_trip((message.authoritative_records.len() % 65536) as u16, after_count3);
    lemma_u16_round_trip((message.additional_records.len() % 65536) as u16, tail);
}

/// The sections of a message whose questions and records can each be told
/// from their octets are read back from the octets of the sections, under
/// the counts that are their lengths, whatever follows them.
pub proof fn lemma_sections_round_trip(message: MessageView, tail: Seq<u8>)
    requires
        message_encodable(message),
    ensures
        parse_sections(
            sections_wire(message) + tail,
            message.id,
            message.flags,
            message.questions.len(),
            message.answers.len(),
            message.authoritative_records.len(),
            message.additional_records.len(),
        ) == done(message, tail),
{
    let after_authority = records_wire(message.additional_records) + tail;
    let after_answers = records_wire(message.authoritative_records) + after_authority;
    let after_questions = records_wire(message.answers) + after_answers;
    let s = questions_wire(message.questions) + after_questions;
    assert(sections_wire(message) + tail == s) by {
        lemma_regroup_four(
            questions_wire(message.questions),
            records_wire(message.answers),
            records_wire(message.authoritative_records),
            records_wire(message.additional_records),
            tail,
        );
    }
    assert(parse_questions(s, message.questions.len()) == done(
        message.questions,
        after_questions,
    )) by {
        lemma_questions_round_trip(message.questions, after_questions);
    }
    assert(parse_records(after_questions, message.answers.len()) == done(
        message.answers,
        after_answers,
    )) by {
        lemma_records_round_trip(message.answers, after_answers);
    }
    assert(parse_records(after_answers, message.authoritative_records.len()) == done(
        message.authoritative_records,
        after_authority,
    )) by {
        lemma_records_round_trip(message.authoritative_records, after_authority);
    }
    assert(parse_records(after_authority, message.additional_records.len()) == done(
        message.additional_records,
        tail,
    )) by {
        lemma_records_round_trip(message.additional_records, tail);
    }
}

/// A message that [`message_encodable`] admits is read back from its
/// octets: the same id, flags, and sections, entry by entry and in order,
/// whatever follows the octets.
pub proof fn lemma_message_round_trip(message: MessageView, tail: Seq<u8>)
    requires
        message_encodable(message),
    ensures
        parse_message(message_wire(message) + tail) == done(message, tail),
{
    lemma_regroup_two(header_wire(message), sections_wire(message), tail);
    lemma_header_round_trip(message, sections_wire(message) + tail);
    lemma_sections_round_trip(message, tail);
}

/// Questions that were read are as many as were asked for, and each can
/// be told from its octets.
pub proof fn lemma_parsed_questions_encodable(s: Seq<u8>, count: nat)
    ensures
        parse_questions(s, count).outcome matches Ok(questions) ==> questions.len() == count
            && forall|i: int|
            0 <= i < questions.len() ==> question_encodable(#[trigger] questions[i]),
    decreases count,
{
    if count > 0 {
        lemma_parsed_question_encodable(s);
        if let Ok(first) = parse_question(s).outcome {
            let rest = parse_question(s).rest;
            lemma_parsed_questions_encodable(rest, (count - 1) as nat);
            if let Ok(others) = parse_questions(rest, (count - 1) as nat).outcome {
                let questions = seq![first] + others;
                assert forall|i: int| 0 <= i < questions.len() implies question_encodable(
                    #[trigger] questions[i],
                ) by {
                    if i > 0 {
                        assert(questions[i] == others[i - 1]);
                    }
                }
            }
        }
    }
}

/// Records that were read are as many as were asked for, and each can be
/// told from its octets.
pub proof fn lemma_parsed_records_encodable(s: Seq<u8>, count: nat)
    ensures
        parse_records(s, count).outcome matches Ok(records) ==> records.len() == count
            && forall|i: int| 0 <= i < records.len() ==> record_encodable(#[trigger] records[i]),
    decreases count,
{
    if count > 0 {
        lemma_parsed_record_encodable(s);
        if let Ok(first) = parse_record(s).outcome {
            let rest = parse_record(s).rest;
            lemma_parsed_records_encodable(rest, (count - 1) as nat);
            if let Ok(others) = parse_records(rest, (count - 1) as nat).outcome {
                let records = seq![first] + others;
                assert forall|i: int| 0 <= i < records.len() implies record_encodable(
                    #[trigger] records[i],
                ) by {
                    if i > 0 {
                        assert(records[i] == others[i - 1]);
                    }
                }
            }
        }
    }
}

/// A message that was read can be told from its octets: written again, it
/// is read back as it is (see [`lemma_message_round_trip`]). So a reply
/// that is relayed reaches the requester as it was read.
pub proof fn lemma_parsed_message_encodable(s: Seq<u8>)
    ensures
        parse_message(s).outcome matches Ok(message) ==> message_encodable(message),
{
    if let Ok(message) = parse_message(s).outcome {
        let header = parse_header(s);
        let h = header.outcome->Ok_0;
        let word = parse_u16(parse_u16(s).rest).outcome->Ok_0;
        lemma_parsed_flags_fit(word);
        let first = parse_questions(header.rest, h.questions as nat);
        lemma_parsed_questions_encodable(header.rest, h.questions as nat);
        let second = parse_records(first.rest, h.answers as nat);
        lemma_parsed_records_encodable(first.rest, h.answers as nat);
        let third = parse_records(second.rest, h.authority as nat);
        lemma_parsed_records_encodable(second.rest, h.authority as nat);
        lemma_parsed_records_encodable(third.rest, h.additional as nat);
    }
}

/// A message that was read and is written again under another transaction
/// id is read back as that: the id that was given, and everything else as
/// it was read.
pub proof fn lemma_relayed_message_round_trip(s: Seq<u8>, id: u16, tail: Seq<u8>)
    ensures
        parse_message(s).outcome matches Ok(message) ==> parse_message(
            message_wire(MessageView { id, ..message }) + tail,
        ) == done(MessageView { id, ..message }, tail),
{
    if let Ok(message) = parse_message(s).outcome {
        lemma_parsed_message_encodable(s);
        lemma_message_round_trip(MessageView { id, ..message }, tail);
    }
}

/// Reads `count` questions.
fn read_questions<S: IStream + ?Sized>(stream: &mut S, count: u16) -> (r: Result<
    Vec<Question>,
    DecodeError,
>)
    ensures
        match r {
            Ok(questions) => parse_questions(old(stream).pending(), count as nat).outcome == Ok::<
                Seq<QuestionView>,
                DecodeError,
            >(question_views(questions@)),
            Err(error) => parse_questions(old(stream).pending(), count as nat).outcome == Err::<
                Seq<QuestionView>,
                DecodeError,
            >(error),
        },
        final(stream).pending() == parse_questions(old(stream).pending(), count as nat).rest,
{
    let ghost start = stream.pending();
    let mut questions: Vec<Question> = Vec::new();
    let mut i: u16 = 0;
    proof {
        lemma_prepend_nothing(parse_questions(start, count as nat));
        assert(question_views(questions@) =~= Seq::empty());
    }
    while i < count
        invariant
            i <= count,
            start == old(stream).pending(),
            parse_questions(start, count as nat) == prepend(
                question_views(questions@),
                parse_questions(stream.pending(), (count - i) as nat),
            ),
        decreases count - i,
    {
        let ghost read = question_views(questions@);
        let question = Question::read_from_stream(stream)?;
        proof {
            lemma_prepend_twice(
                read,
                seq![question@],
                parse_questions(stream.pending(), (count - i - 1) as nat),
            );
        }
        questions.push(question);
        i += 1;
        proof {
            assert(question_views(questions@) =~= read + seq![question@]);
        }
    }
    proof {
        assert(question_views(questions@) + Seq::<QuestionView>::empty() =~= question_views(
            questions@,
        ));
    }
    Ok(questions)
}

/// Reads `count` records.
fn read_records<S: IStream + ?Sized>(stream: &mut S, count: u16) -> (r: Result<
    Vec<ResourceRecord>,
    DecodeError,
>)
    ensures
        match r {
            Ok(records) => parse_records(old(stream).pending(), count as nat).outcome == Ok::<
                Seq<RecordView>,
                DecodeError,
            >(record_views(records@)),
            Err(error) => parse_records(old(stream).pending(), count as nat).outcome == Err::<
                Seq<RecordView>,
                DecodeError,
            >(error),
        },
        final(stream).pending() == parse_records(old(stream).pending(), count as nat).rest,
{
    let ghost start = stream.pending();
    let mut records: Vec<ResourceRecord> = Vec::new();
    let mut i: u16 = 0;
    proof {
        lemma_prepend_nothing(parse_records(start, count as nat));
        assert(record_views(records@) =~= Seq::empty());
    }
    while i < count
        invariant
            i <= count,
            start == old(stream).pending(),
            parse_records(start, count as nat) == prepend(
                record_views(records@),
                parse_records(stream.pending(), (count - i) as nat),
            ),
        decreases count - i,
    {
        let ghost read = record_views(records@);
        let record = ResourceRecord::read_from_stream(stream)?;
        proof {
            lemma_prepend_twice(
                read,
                seq![record@],
                parse_records(stream.pending(), (count - i - 1) as nat),
            );
        }
        records.push(record);
        i += 1;
        proof {
            assert(record_views(records@) =~= read + seq![record@]);
        }
    }
    proof {
        assert(record_views(records@) + Seq::<RecordView>::empty() =~= record_views(records@));
    }
    Ok(records)
}

/// Writes the questions one after the other.
fn write_questions<S: OStream + ?Sized>(questions: &Vec<Question>, stream: &mut S)
    ensures
        final(stream).written() == old(stream).written() + questions_wire(
            question_views(questions@),
        ),
{
    let ghost start = stream.written();
    let ghost all = question_views(questions@);
    let mut i: usize = 0;
    while i < questions.len()
        invariant
            i <= questions.len(),
            all == question_views(questions@),
            stream.written() == start + questions_wire(all.take(i as int)),
        decreases questions.len() - i,
    {
        questions[i].write_to_stream(stream);
        proof {
            lemma_questions_wire_push(all.take(i as int), all[i as int]);
            assert(all.take(i + 1) =~= all.take(i as int).push(all[i as int]));
        }
        i += 1;
    }
    proof {
        assert(all.take(i as int) =~= all);
    }
}

/// Writes the records one after the other.
fn write_records<S: OStream + ?Sized>(records: &Vec<ResourceRecord>, stream: &mut S)
    ensures
        final(stream).written() == old(stream).written() + records_wire(record_views(records@)),
{
    let ghost start = stream.written();
    let ghost all = record_views(records@);
    let mut i: usize = 0;
    while i < records.len()
        invariant
            i <= records.len(),
            all == record_views(records@),
            stream.written() == start + records_wire(all.take(i as int)),
        decreases records.len() - i,
    {
        records[i].write_to_stream(stream);
        proof {
            lemma_records_wire_push(all.take(i as int), all[i as int]);
            assert(all.take(i + 1) =~= all.take(i as int).push(all[i as int]));
        }
        i += 1;
    }
    proof {
        assert(all.take(i as int) =~= all);
    }
}

/// A copy of `questions` with the same values in the same order.
fn clone_questions(questions: &Vec<Question>) -> (r: Vec<Question>)
    ensures
        question_views(r@) == question_views(questions@),
{
    let mut out: Vec<Question> = Vec::new();
    let mut i: usize = 0;
    while i < questions.len()
        invariant
            i <= questions.len(),
            out.len() == i,
            forall|j: int| 0 <= j < i ==> out[j]@ == questions[j]@,
        decreases questions.len() - i,
    {
        out.push(questions[i].clone());
        i += 1;
    }
    out
}

/// A copy of `records` with the same values in the same order.
fn clone_records(records: &Vec<ResourceRecord>) -> (r: Vec<ResourceRecord>)
    ensures
        record_views(r@) == record_views(records@),
{
    let mut out: Vec<ResourceRecord> = Vec::new();
    let mut i: usize = 0;
    while i < records.len()
        invariant
            i <= records.len(),
            out.len() == i,
            forall|j: int| 0 <= j < i ==> out[j]@ == records[j]@,
        decreases records.len() - i,
    {
        out.push(records[i].clone());
        i += 1;
    }
    out
}

impl Clone for Message {
    fn clone(&self) -> (r: Self)
        ensures
            r@ == self@,
    {
        Message {
            id: self.id,
            flags: self.flags,
            questions: clone_questions(&self.questions),
            answers: clone_records(&self.answers),
            authoritative_records: clone_records(&self.authoritative_records),
            additional_records: clone_records(&self.additional_records),
        }
    }
}

impl Message {
    /// A message with the given fields.
    pub fn new(
        id: u16,
        flags: Flags,
        questions: Vec<Question>,
        answers: Vec<ResourceRecord>,
        authoritative_records: Vec<ResourceRecord>,
        additional_records: Vec<ResourceRecord>,
    ) -> (r: Self)
        ensures
            r == (Message {
                id,
                flags,
                questions,
                answers,
                authoritative_records,
                additional_records,
            }),
    {
        Message { id, flags, questions, answers, authoritative_records, additional_records }
    }

    /// The same message under another transaction id.
    pub fn with_id(self, id: u16) -> (r: Self)
        ensures
            r@ == (MessageView { id, ..self@ }),
    {
        Message {
            id,
            flags: self.flags,
            questions: self.questions,
            answers: self.answers,
            authoritative_records: self.authoritative_records,
            additional_records: self.additional_records,
        }
    }

    /// Reads a message: the header, then the four sections with as many
    /// entries as the header counts. The first failure ends the read and
    /// is what is returned.
    pub fn read_from_stream<S: IStream + ?Sized>(stream: &mut S) -> (r: Result<Self, DecodeError>)
        ensures
            yields(r, parse_message(old(stream).pending()).outcome),
            final(stream).pending() == parse_message(old(stream).pending()).rest,
    {
        let id = stream.read_u16()?;
        let flags = Flags::read_from_stream(stream)?;
        let questions_count = stream.read_u16()?;
        let answers_count = stream.read_u16()?;
        let authoritative_records_count = stream.read_u16()?;
        let additional_records_count = stream.read_u16()?;
        let questions = read_questions(stream, questions_count)?;
        let answers = read_records(stream, answers_count)?;
        let authoritative_records = read_records(stream, authoritative_records_count)?;
        let additional_records = read_records(stream, additional_records_count)?;
        Ok(Message { id, flags, questions, answers, authoritative_records, additional_records })
    }

    /// Writes the header: the id, the flags, and the counts taken from
    /// the sections.
    fn write_header<S: OStream + ?Sized>(&self, stream: &mut S)
        ensures
            final(stream).written() == old(stream).written() + header_wire(self@),
    {
        let ghost start = stream.written();
        stream.write_u16(self.id);
        self.flags.write_to_stream(stream);
        let ghost after_flags = stream.written();
        assert(after_flags == start + (u16_wire(self.id) + flags_wire(self.flags)));
        stream.write_u16((self.questions.len() % 65536) as u16);
        stream.write_u16((self.answers.len() % 65536) as u16);
        let ghost after_answers = stream.written();
        assert(after_answers == after_flags + (count_wire(self@.questions.len()) + count_wire(
            self@.answers.len(),
        )));
        stream.write_u16((self.authoritative_records.len() % 65536) as u16);
        stream.write_u16((self.additional_records.len() % 65536) as u16);
        assert(stream.written() == after_answers + (count_wire(
            self@.authoritative_records.len(),
        ) + count_wire(self@.additional_records.len())));
    }

    /// Writes the four sections one after the other.
    fn write_sections<S: OStream + ?Sized>(&self, stream: &mut S)
        ensures
            final(stream).written() == old(stream).written() + sections_wire(self@),
    {
        let ghost start = stream.written();
        write_questions(&self.questions, stream);
        write_records(&self.answers, stream);
        write_records(&self.authoritative_records, stream);
        write_records(&self.additional_records, stream);
        proof {
            lemma_append_four(
                start,
                questions_wire(self@.questions),
                records_wire(self@.answers),
                records_wire(self@.authoritative_records),
                records_wire(self@.additional_records),
            );
        }
    }

    /// Writes a message: the header, with the counts taken from the
    /// sections, then the four sections.
    pub fn write_to_stream<S: OStream + ?Sized>(&self, stream: &mut S)
        ensures
            final(stream).written() == old(stream).written() + message_wire(self@),
    {
        let ghost start = stream.written();
        self.write_header(stream);
        self.write_sections(stream);
        proof {
            lemma_regroup_two(start, header_wire(self@), sections_wire(self@));
        }
    }
}

} // verus!
