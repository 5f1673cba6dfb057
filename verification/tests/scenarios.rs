use dns_server::buffer::{InBuffer, OutBuffer};
use dns_server::cache::{Cache, CacheEntry};
use dns_server::message::{
    Class, Domain, Flags, Message, Operation, Question, ResourceRecordData, ResourceRecordType,
    ResponseCode, IPV4,
};
use dns_server::resolver::HostCache;

fn name(labels: &[&str]) -> Domain {
    Domain(labels.iter().map(|l| l.to_string()).collect())
}

#[test]
fn localhost_resolves_to_its_address() {
    let mut cache = Cache::new();
    cache.bind(
        name(&["localhost"]),
        CacheEntry::Record(vec![ResourceRecordData::A(IPV4(127, 0, 0, 1))]),
    );
    assert_eq!(
        cache.resolve(name(&["localhost"])),
        vec![ResourceRecordData::A(IPV4(127, 0, 0, 1))]
    );
}

#[test]
fn two_labels_resolve_root_first() {
    let mut cache = Cache::new();
    let address = ResourceRecordData::A(IPV4(142, 250, 187, 206));
    cache.bind(name(&["google", "com"]), CacheEntry::Record(vec![address.clone()]));
    assert_eq!(cache.resolve(name(&["google", "com"])), vec![address]);
    assert_eq!(cache.resolve(name(&["other", "com"])), vec![]);
    assert_eq!(cache.resolve(name(&["com", "google"])), vec![]);
}

#[test]
fn bound_name_resolves_and_its_unbound_neighbour_does_not() {
    let mut cache = Cache::new();
    let address = ResourceRecordData::A(IPV4(142, 250, 187, 206));
    cache.bind(name(&["com", "google"]), CacheEntry::Record(vec![address.clone()]));
    assert_eq!(cache.resolve(name(&["com", "google"])), vec![address]);
    assert_eq!(cache.resolve(name(&["com", "other"])), vec![]);
}

#[test]
fn header_and_one_question_decode() {
    let bytes: Vec<u8> = vec![
        0x12, 0x34, 0x01, 0x00, 0x00, 0x01, 0x00, 0x00, 0x00, 0x00, 0x00, 0x00, 1, b'a', 1, b'b',
        0, 0x00, 0x01, 0x00, 0x01,
    ];
    let mut input = InBuffer::new(bytes);
    let message = Message::read_from_stream(&mut input).unwrap();
    assert_eq!(message.id, 0x1234);
    assert_eq!(message.questions.len(), 1);
    assert_eq!(message.questions[0].name, name(&["a", "b"]));
    assert_eq!(message.questions[0].typ, ResourceRecordType::A);
    assert_eq!(message.questions[0].class, Class::Internet);
    assert!(message.answers.is_empty());
    assert!(message.flags.is_query);
    assert!(message.flags.is_recursion_desired);
    assert_eq!(input.remaining(), 0);
}

#[test]
fn question_of_another_type_has_no_answer() {
    let mut hosts = HostCache::new();
    hosts.bind(
        name(&["localhost"]),
        CacheEntry::Record(vec![ResourceRecordData::A(IPV4(127, 0, 0, 1))]),
    );
    let question = Question {
        name: name(&["localhost"]),
        typ: ResourceRecordType::Options,
        class: Class::Internet,
    };
    assert_eq!(hosts.handle_question(&question), None);
    let question = Question {
        name: name(&["localhost"]),
        typ: ResourceRecordType::A,
        class: Class::Internet,
    };
    let answer = hosts.handle_question(&question).unwrap();
    assert_eq!(answer.name, name(&["localhost"]));
    assert_eq!(answer.class, Class::Internet);
    assert_eq!(answer.time_to_live, 60);
    assert_eq!(answer.data, ResourceRecordData::A(IPV4(127, 0, 0, 1)));
}

#[test]
fn message_round_trips() {
    let message = Message::new(
        7,
        Flags::new(false, true, false, true, true, Operation::Update, ResponseCode::Refused),
        vec![Question {
            name: name(&["www", "example", "com"]),
            typ: ResourceRecordType::A,
            class: Class::Internet,
        }],
        vec![],
        vec![],
        vec![],
    );
    let mut output = OutBuffer::new();
    message.write_to_stream(&mut output);
    let mut input = InBuffer::new(output.into_bytes());
    assert_eq!(Message::read_from_stream(&mut input), Ok(message));
}
