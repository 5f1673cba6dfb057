//! The resolver: from the questions of a query to the reply, answered from
//! the host cache where it can be and handed upstream where it cannot.

use vstd::prelude::*;
use crate::cache::{bound, lookup, Cache, CacheEntry, EntryView};
use crate::codes::{Class, Operation, ResourceRecordType, ResponseCode};
use crate::domain::Domain;
use crate::flags::Flags;
use crate::message::{Message, MessageView};
use crate::question::{question_views, Question, QuestionView};
use crate::record::{
    data_type, data_views, record_views, RecordDataView, RecordView, ResourceRecord,
};

verus! {

/// The seconds that a locally answered record may be kept by the requester.
pub const LOCAL_TIME_TO_LIVE: u32 = 60;

/// The first of `records` whose type is `typ`, if there is one.
pub open spec fn first_of_type(records: Seq<RecordDataView>, typ: ResourceRecordType) -> Option<
    RecordDataView,
>
    decreases records.len(),
{
    if records.len() == 0 {
        None
    } else if data_type(records.first()) == typ {
        Some(records.first())
    } else {
        first_of_type(records.drop_first(), typ)
    }
}

/// The answer that a cache gives to a question: a record for the asked
/// name that carries the first of the records held for the name whose
/// type is the asked one, and none where no record of that type is held.
pub open spec fn answer_to(cache: Map<Seq<char>, EntryView>, question: QuestionView) -> Option<
    RecordView,
> {
    match first_of_type(lookup(cache, question.name), question.typ) {
        Some(data) => Some(
            RecordView {
                name: question.name,
                class: Class::Internet,
                time_to_live: LOCAL_TIME_TO_LIVE,
                data,
            },
        ),
        None => None,
    }
}

/// The answers that a cache gives to a run of questions: the answer to
/// each question that has one, in the order of the questions.
pub open spec fn answers_to(cache: Map<Seq<char>, EntryView>, questions: Seq<QuestionView>) -> Seq<
    RecordView,
>
    decreases questions.len(),
{
    if questions.len() == 0 {
        Seq::empty()
    } else {
        let before = answers_to(cache, questions.drop_last());
        match answer_to(cache, questions.last()) {
            Some(record) => before.push(record),
            None => before,
        }
    }
}

/// The flags of a reply answered from the cache: an authoritative
/// response without error.
pub open spec fn answer_flags() -> Flags {
    Flags {
        is_query: false,
        is_authoritative_answer: true,
        is_truncated: false,
        is_recursion_desired: false,
        is_recursion_available: false,
        operation: Operation::Query,
        response_code: ResponseCode::NoError,
    }
}

/// The flags of a reply that reports that the upstream resolver could not
/// be reached.
pub open spec fn failure_flags() -> Flags {
    Flags {
        is_query: false,
        is_authoritative_answer: false,
        is_truncated: false,
        is_recursion_desired: false,
        is_recursion_available: false,
        operation: Operation::Query,
        response_code: ResponseCode::ServerFailure,
    }
}

/// What is to be done with a query.
#[derive(Debug, PartialEq, Eq)]
pub enum Resolution {
    /// Send this reply to the requester.
    Answer(Message),
    /// Nothing is held locally: hand the query to the upstream resolver.
    Forward,
}

/// The cache of the hosts that this server answers for.
#[derive(Debug)]
pub struct HostCache {
    cache: Cache,
}

impl View for HostCache {
    type V = Map<Seq<char>, EntryView>;

    closed spec fn view(&self) -> Map<Seq<char>, EntryView> {
        self.cache@
    }
}

impl HostCache {
    /// A host cache in which nothing is bound.
    pub fn new() -> (r: Self)
        ensures
            r@ == Map::<Seq<char>, EntryView>::empty(),
    {
        HostCache { cache: Cache::new() }
    }

    /// Binds `entry` at `domain`, as [`Cache::bind`] does.
    pub fn bind(&mut self, domain: Domain, entry: CacheEntry)
        requires
            domain@.len() > 0,
        ensures
            final(self)@ == bound(old(self)@, domain@, entry@),
    {
        let mut cache = Cache::new();
        core::mem::swap(&mut self.cache, &mut cache);
        cache.bind(domain, entry);
        self.cache = cache;
    }

    /// Answers one question from the cache: with the first record held for
    /// its name that has the asked type, under class Internet and with a
    /// time to live of [`LOCAL_TIME_TO_LIVE`], or with `None` where no
    /// record of that type is held for the name.
    pub fn handle_question(&self, question: &Question) -> (r: Option<ResourceRecord>)
        ensures
            match r {
                Some(record) => answer_to(self@, question@) == Some(record@),
                None => answer_to(self@, question@) is None,
            },
    {
        let records = self.cache.resolve(question.name.clone());
        let ghost held = data_views(records@);
        let mut i: usize = 0;
        proof {
            assert(held.skip(0) =~= held);
        }
        while i < records.len()
            invariant
                i <= records.len(),
                held == data_views(records@),
                held == lookup(self@, question@.name),
                first_of_type(held, question.typ) == first_of_type(
                    held.skip(i as int),
                    question.typ,
                ),
            decreases records.len() - i,
        {
            proof {
                assert(held.skip(i as int).first() == records[i as int]@);
                assert(held.skip(i as int).drop_first() =~= held.skip(i + 1));
            }
            if records[i].record_type() == question.typ {
                return Some(
                    ResourceRecord::new(
                        question.name.clone(),
                        Class::Internet,
                        LOCAL_TIME_TO_LIVE,
                        records[i].clone(),
                    ),
                );
            }
            i += 1;
        }
        None
    }

    /// Answers a run of questions: the answer to each question that has
    /// one, in the order of the questions.
    pub fn handle_questions(&self, questions: &Vec<Question>) -> (r: Vec<ResourceRecord>)
        ensures
            record_views(r@) == answers_to(self@, question_views(questions@)),
    {
        let ghost asked = question_views(questions@);
        let mut answers: Vec<ResourceRecord> = Vec::new();
        let mut i: usize = 0;
        proof {
            assert(asked.take(0) =~= Seq::empty());
        }
        while i < questions.len()
            invariant
                i <= questions.len(),
                asked == question_views(questions@),
                record_views(answers@) == answers_to(self@, asked.take(i as int)),
            decreases questions.len() - i,
        {
            let ghost before = record_views(answers@);
            proof {
                assert(asked.take(i + 1).drop_last() =~= asked.take(i as int));
                assert(asked.take(i + 1).last() == questions[i as int]@);
            }
            match self.handle_question(&questions[i]) {
                Some(record) => {
                    answers.push(record);
                    proof {
                        assert(record_views(answers@) =~= before.push(record@));
                    }
                },
                None => {},
            }
            i += 1;
        }
        proof {
            assert(asked.take(i as int) =~= asked);
        }
        answers
    }

    /// Decides what to do with a query. Where at least one of its
    /// questions has an answer in the cache, the reply carries the id of
    /// the query, the flags of an authoritative response without error,
    /// and the answers, with the other sections empty. Where none has, the
    /// query is to be forwarded.
    pub fn handle_message(&self, message: &Message) -> (r: Resolution)
        ensures
            match r {
                Resolution::Answer(reply) => answers_to(self@, message@.questions).len() > 0
                    && reply@ == (MessageView {
                    id: message.id,
                    flags: answer_flags(),
                    questions: Seq::empty(),
                    answers: answers_to(self@, message@.questions),
                    authoritative_records: Seq::empty(),
                    additional_records: Seq::empty(),
                }),
                Resolution::Forward => answers_to(self@, message@.questions).len() == 0,
            },
    {
        let answers = self.handle_questions(&message.questions);
        if answers.len() > 0 {
            let reply = Message::new(
                message.id,
                Flags::new(
                    false,
                    true,
                    false,
                    false,
                    false,
                    Operation::Query,
                    ResponseCode::NoError,
                ),
                Vec::new(),
                answers,
                Vec::new(),
                Vec::new(),
            );
            proof {
                assert(reply@.questions =~= Seq::empty());
                assert(reply@.authoritative_records =~= Seq::empty());
                assert(reply@.additional_records =~= Seq::empty());
            }
            Resolution::Answer(reply)
        } else {
            Resolution::Forward
        }
    }
}

/// The reply to relay to the requester of a forwarded query: the reply of
/// the upstream resolver under the transaction id of the query.
pub fn relay(request_id: u16, reply: Message) -> (r: Message)
    ensures
        r@ == (MessageView { id: request_id, ..reply@ }),
{
    reply.with_id(request_id)
}

/// The reply to send where the upstream resolver gave none: a response
/// under the transaction id of the query that reports a server failure
/// and has no entries.
pub fn server_failure(request_id: u16) -> (r: Message)
    ensures
        r@ == (MessageView {
            id: request_id,
            flags: failure_flags(),
            questions: Seq::empty(),
            answers: Seq::empty(),
            authoritative_records: Seq::empty(),
            additional_records: Seq::empty(),
        }),
{
    let reply = Message::new(
        request_id,
        Flags::new(
            false,
            false,
            false,
            false,
            false,
            Operation::Query,
            ResponseCode::ServerFailure,
        ),
        Vec::new(),
        Vec::new(),
        Vec::new(),
        Vec::new(),
    );
    proof {
        assert(reply@.questions =~= Seq::empty());
        assert(reply@.answers =~= Seq::empty());
        assert(reply@.authoritative_records =~= Seq::empty());
        assert(reply@.additional_records =~= Seq::empty());
    }
    reply
}

} // verus!
