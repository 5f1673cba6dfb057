use dns_server::cache::CacheEntry;
use dns_server::message::{
    Class, Domain, Flags, Message, Operation, Question, ResourceRecord, ResourceRecordData,
    ResourceRecordType, ResponseCode, IPV4,
};
use dns_server::resolver::{relay, server_failure, HostCache, Resolution, LOCAL_TIME_TO_LIVE};

fn host(parts: &[&str]) -> Domain {
    Domain(parts.iter().map(|l| l.to_string()).collect())
}

fn ask(parts: &[&str], typ: ResourceRecordType) -> Question {
    Question { name: host(parts), typ, class: Class::Internet }
}

fn query(id: u16, questions: Vec<Question>) -> Message {
    Message::new(
        id,
        Flags::new(true, false, false, true, false, Operation::Query, ResponseCode::NoError),
        questions,
        vec![],
        vec![],
        vec![],
    )
}

fn hosts() -> HostCache {
    let mut hosts = HostCache::new();
    hosts.bind(
        host(&["localhost"]),
        CacheEntry::Record(vec![ResourceRecordData::A(IPV4(127, 0, 0, 1))]),
    );
    hosts.bind(
        host(&["google", "com"]),
        CacheEntry::Record(vec![
            ResourceRecordData::Options(vec![7]),
            ResourceRecordData::A(IPV4(142, 250, 187, 206)),
            ResourceRecordData::A(IPV4(8, 8, 8, 8)),
        ]),
    );
    hosts
}

#[test]
fn local_answer_has_internet_class_and_fixed_time_to_live() {
    assert_eq!(LOCAL_TIME_TO_LIVE, 60);
    assert_eq!(
        hosts().handle_question(&ask(&["localhost"], ResourceRecordType::A)),
        Some(ResourceRecord::new(
            host(&["localhost"]),
            Class::Internet,
            60,
            ResourceRecordData::A(IPV4(127, 0, 0, 1))
        ))
    );
}

#[test]
fn first_record_of_the_asked_type_is_taken() {
    let hosts = hosts();
    let answer = hosts.handle_question(&ask(&["google", "com"], ResourceRecordType::A)).unwrap();
    assert_eq!(answer.data, ResourceRecordData::A(IPV4(142, 250, 187, 206)));
    let answer =
        hosts.handle_question(&ask(&["google", "com"], ResourceRecordType::Options)).unwrap();
    assert_eq!(answer.data, ResourceRecordData::Options(vec![7]));
}

#[test]
fn unbound_name_has_no_answer() {
    assert_eq!(hosts().handle_question(&ask(&["example", "com"], ResourceRecordType::A)), None);
}

#[test]
fn answers_follow_the_order_of_the_questions() {
    let answers = hosts().handle_questions(&vec![
        ask(&["google", "com"], ResourceRecordType::A),
        ask(&["nowhere"], ResourceRecordType::A),
        ask(&["localhost"], ResourceRecordType::Options),
        ask(&["localhost"], ResourceRecordType::A),
    ]);
    assert_eq!(answers.len(), 2);
    assert_eq!(answers[0].name, host(&["google", "com"]));
    assert_eq!(answers[1].name, host(&["localhost"]));
}

#[test]
fn query_with_a_local_answer_is_answered() {
    let request = query(0x1234, vec![ask(&["localhost"], ResourceRecordType::A)]);
    let expected = Message::new(
        0x1234,
        Flags::new(false, true, false, false, false, Operation::Query, ResponseCode::NoError),
        vec![],
        vec![ResourceRecord::new(
            host(&["localhost"]),
            Class::Internet,
            60,
            ResourceRecordData::A(IPV4(127, 0, 0, 1)),
        )],
        vec![],
        vec![],
    );
    assert_eq!(hosts().handle_message(&request), Resolution::Answer(expected));
}

#[test]
fn query_without_a_local_answer_is_forwarded() {
    let request = query(1, vec![ask(&["example", "com"], ResourceRecordType::A)]);
    assert_eq!(hosts().handle_message(&request), Resolution::Forward);
    assert_eq!(hosts().handle_message(&query(2, vec![])), Resolution::Forward);
    let request = query(3, vec![ask(&["localhost"], ResourceRecordType::Options)]);
    assert_eq!(hosts().handle_message(&request), Resolution::Forward);
}

#[test]
fn one_local_answer_is_enough_to_answer() {
    let request = query(
        9,
        vec![
            ask(&["example", "com"], ResourceRecordType::A),
            ask(&["www", "google", "com"], ResourceRecordType::A),
        ],
    );
    match hosts().handle_message(&request) {
        Resolution::Answer(reply) => {
            assert_eq!(reply.id, 9);
            assert!(!reply.flags.is_query);
            assert!(reply.flags.is_authoritative_answer);
            assert_eq!(reply.flags.response_code, ResponseCode::NoError);
            assert!(reply.questions.is_empty());
            assert_eq!(reply.answers.len(), 1);
            assert_eq!(reply.answers[0].name, host(&["www", "google", "com"]));
            assert_eq!(reply.answers[0].data, ResourceRecordData::A(IPV4(142, 250, 187, 206)));
        }
        Resolution::Forward => panic!("a local answer was expected"),
    }
}

#[test]
fn relayed_reply_carries_the_id_of_the_query() {
    let upstream = Message::new(
        0x0bad,
        Flags::new(false, false, false, true, true, Operation::Query, ResponseCode::NoError),
        vec![ask(&["example", "com"], ResourceRecordType::A)],
        vec![ResourceRecord::new(
            host(&["example", "com"]),
            Class::Internet,
            300,
            ResourceRecordData::A(IPV4(93, 184, 216, 34)),
        )],
        vec![],
        vec![],
    );
    let relayed = relay(0x1234, upstream.clone());
    assert_eq!(relayed.id, 0x1234);
    assert_eq!(relayed.flags, upstream.flags);
    assert_eq!(relayed.questions, upstream.questions);
    assert_eq!(relayed.answers, upstream.answers);
    assert_eq!(relayed.authoritative_records, upstream.authoritative_records);
    assert_eq!(relayed.additional_records, upstream.additional_records);
}

#[test]
fn upstream_failure_is_reported_as_server_failure() {
    let reply = server_failure(0x4321);
    assert_eq!(
        reply,
        Message::new(
            0x4321,
            Flags::new(
                false,
                false,
                false,
                false,
                false,
                Operation::Query,
                ResponseCode::ServerFailure
            ),
            vec![],
            vec![],
            vec![],
            vec![],
        )
    );
}
