use dns_server::buffer::{InBuffer, OutBuffer};
use dns_server::message::{
    Class, Domain, Flags, Message, Operation, Question, ResourceRecord, ResourceRecordData,
    ResourceRecordType, ResponseCode, IPV4,
};
use dns_server::streams::{DecodeError, IStream, OStream};

fn labels(parts: &[&str]) -> Domain {
    Domain(parts.iter().map(|l| l.to_string()).collect())
}

fn encoded_flags(flags: &Flags) -> u16 {
    let mut output = OutBuffer::new();
    flags.write_to_stream(&mut output);
    let bytes = output.into_bytes();
    assert_eq!(bytes.len(), 2);
    ((bytes[0] as u16) << 8) | bytes[1] as u16
}

fn decoded_flags(word: u16) -> Result<Flags, DecodeError> {
    let mut input = InBuffer::new(vec![(word >> 8) as u8, (word & 0xff) as u8]);
    Flags::read_from_stream(&mut input)
}

#[test]
fn domain_is_written_label_by_label() {
    let mut output = OutBuffer::new();
    labels(&["www", "example", "com"]).write_to_stream(&mut output);
    assert_eq!(
        output.into_bytes(),
        vec![
            3, b'w', b'w', b'w', 7, b'e', b'x', b'a', b'm', b'p', b'l', b'e', 3, b'c', b'o',
            b'm', 0
        ]
    );
}

#[test]
fn domain_is_read_up_to_the_zero_octet() {
    let mut input = InBuffer::new(vec![1, b'a', 2, b'b', b'c', 0, 9, 9]);
    assert_eq!(Domain::read_from_stream(&mut input), Ok(labels(&["a", "bc"])));
    assert_eq!(input.remaining(), 2);
}

#[test]
fn empty_domain_is_one_zero_octet() {
    let mut output = OutBuffer::new();
    Domain(vec![]).write_to_stream(&mut output);
    assert_eq!(output.as_slice(), &[0]);
    let mut input = InBuffer::new(vec![0]);
    assert_eq!(Domain::read_from_stream(&mut input), Ok(Domain(vec![])));
}

#[test]
fn domain_round_trips_with_labels_in_order() {
    let names = vec![
        labels(&["a"]),
        labels(&["www", "example", "com"]),
        labels(&["b\u{fc}cher", "example"]),
        Domain(vec!["x".repeat(255), "y".to_string()]),
    ];
    for name in names {
        let mut output = OutBuffer::new();
        name.write_to_stream(&mut output);
        let mut input = InBuffer::new(output.into_bytes());
        assert_eq!(Domain::read_from_stream(&mut input), Ok(name));
        assert_eq!(input.remaining(), 0);
    }
}

#[test]
fn truncated_domain_fails() {
    let mut input = InBuffer::new(vec![3, b'w', b'w']);
    assert_eq!(Domain::read_from_stream(&mut input), Err(DecodeError::EndOfStream));
    let mut input = InBuffer::new(vec![1, b'a']);
    assert_eq!(Domain::read_from_stream(&mut input), Err(DecodeError::EndOfStream));
    let mut input = InBuffer::new(vec![]);
    assert_eq!(Domain::read_from_stream(&mut input), Err(DecodeError::EndOfStream));
}

#[test]
fn domain_label_with_malformed_text_fails() {
    let mut input = InBuffer::new(vec![2, 0xc3, 0x28, 0]);
    assert_eq!(Domain::read_from_stream(&mut input), Err(DecodeError::InvalidText));
    assert_eq!(input.remaining(), 1);
}

#[test]
fn overlong_label_keeps_only_the_low_octet_of_its_length() {
    let mut output = OutBuffer::new();
    Domain(vec!["a".repeat(257)]).write_to_stream(&mut output);
    let bytes = output.into_bytes();
    assert_eq!(bytes.len(), 259);
    assert_eq!(bytes[0], 1);
    assert_eq!(bytes[258], 0);
}

#[test]
fn domain_head_and_tail_walk_from_the_root() {
    let name = labels(&["www", "example", "com"]);
    assert_eq!(name.head(), "com");
    assert_eq!(name.tail(), labels(&["www", "example"]));
    assert_eq!(name.tail().head(), "example");
    assert_eq!(labels(&["com"]).tail(), Domain(vec![]));
    assert_eq!(name.clone(), name);
}

#[test]
fn address_is_four_octets() {
    let mut output = OutBuffer::new();
    IPV4(127, 0, 0, 1).write_to_stream(&mut output);
    assert_eq!(output.as_slice(), &[127, 0, 0, 1]);
    let mut input = InBuffer::new(vec![10, 20, 30, 40, 50]);
    assert_eq!(IPV4::read_from_stream(&mut input), Ok(IPV4(10, 20, 30, 40)));
    assert_eq!(input.remaining(), 1);
    let mut input = InBuffer::new(vec![10, 20, 30]);
    assert_eq!(IPV4::read_from_stream(&mut input), Err(DecodeError::EndOfStream));
}

#[test]
fn flag_bits_sit_at_their_positions() {
    let clear =
        Flags::new(true, false, false, false, false, Operation::Query, ResponseCode::NoError);
    assert_eq!(encoded_flags(&clear), 0x0000);
    let mut flags = clear;
    flags.is_query = false;
    assert_eq!(encoded_flags(&flags), 0x8000);
    let mut flags = clear;
    flags.is_authoritative_answer = true;
    assert_eq!(encoded_flags(&flags), 0x0400);
    let mut flags = clear;
    flags.is_truncated = true;
    assert_eq!(encoded_flags(&flags), 0x0200);
    let mut flags = clear;
    flags.is_recursion_desired = true;
    assert_eq!(encoded_flags(&flags), 0x0100);
    let mut flags = clear;
    flags.is_recursion_available = true;
    assert_eq!(encoded_flags(&flags), 0x0080);
    let mut flags = clear;
    flags.operation = Operation::Update;
    assert_eq!(encoded_flags(&flags), 0x2800);
    let mut flags = clear;
    flags.response_code = ResponseCode::Refused;
    assert_eq!(encoded_flags(&flags), 0x0005);
    let all = Flags::new(
        false,
        true,
        true,
        true,
        true,
        Operation::StatefulOperation,
        ResponseCode::DSOTypeNotImplemented,
    );
    assert_eq!(encoded_flags(&all), 0xb78b);
}

#[test]
fn flag_word_is_taken_apart() {
    assert_eq!(
        decoded_flags(0x8180),
        Ok(Flags::new(false, false, false, true, true, Operation::Query, ResponseCode::NoError))
    );
    assert_eq!(
        decoded_flags(0x0070),
        Ok(Flags::new(true, false, false, false, false, Operation::Query, ResponseCode::NoError))
    );
    assert_eq!(
        decoded_flags(0x2403),
        Ok(Flags::new(
            true,
            true,
            false,
            false,
            false,
            Operation::Notify,
            ResponseCode::NonExistentDomain
        ))
    );
}

#[test]
fn every_combination_of_flags_round_trips() {
    let operations = [
        Operation::Query,
        Operation::InverseQuery,
        Operation::Status,
        Operation::Notify,
        Operation::Update,
        Operation::StatefulOperation,
    ];
    let response_codes = [
        ResponseCode::NoError,
        ResponseCode::FormatError,
        ResponseCode::ServerFailure,
        ResponseCode::NonExistentDomain,
        ResponseCode::NotImplemented,
        ResponseCode::Refused,
        ResponseCode::NameExists,
        ResponseCode::ResourceRecordSet,
        ResponseCode::ResourceRecordNotSet,
        ResponseCode::NotAuthorized,
        ResponseCode::NotInZone,
        ResponseCode::DSOTypeNotImplemented,
    ];
    let mut count = 0;
    for bits in 0u8..32 {
        for operation in operations {
            for response_code in response_codes {
                let flags = Flags::new(
                    bits & 1 != 0,
                    bits & 2 != 0,
                    bits & 4 != 0,
                    bits & 8 != 0,
                    bits & 16 != 0,
                    operation,
                    response_code,
                );
                assert_eq!(decoded_flags(encoded_flags(&flags)), Ok(flags));
                count += 1;
            }
        }
    }
    assert_eq!(count, 32 * 6 * 12);
}

#[test]
fn extended_response_code_does_not_fit_its_field() {
    let flags =
        Flags::new(true, false, false, false, false, Operation::Query, ResponseCode::BadVersion);
    assert_eq!(encoded_flags(&flags), 0x0010);
    assert_eq!(
        decoded_flags(0x0010),
        Ok(Flags::new(true, false, false, false, false, Operation::Query, ResponseCode::NoError))
    );
}

#[test]
fn unknown_operation_fails() {
    assert_eq!(decoded_flags(0x1800), Err(DecodeError::UnknownOperation(3)));
    assert_eq!(decoded_flags(0x7800), Err(DecodeError::UnknownOperation(15)));
}

#[test]
fn unknown_response_code_fails() {
    assert_eq!(decoded_flags(0x000c), Err(DecodeError::UnknownResponseCode(12)));
    assert_eq!(decoded_flags(0x800f), Err(DecodeError::UnknownResponseCode(15)));
}

#[test]
fn unknown_operation_is_reported_before_unknown_response_code() {
    assert_eq!(decoded_flags(0x180f), Err(DecodeError::UnknownOperation(3)));
}

#[test]
fn truncated_flags_fail() {
    let mut input = InBuffer::new(vec![0x81]);
    assert_eq!(Flags::read_from_stream(&mut input), Err(DecodeError::EndOfStream));
}

#[test]
fn record_data_is_length_prefixed() {
    let mut output = OutBuffer::new();
    ResourceRecordData::A(IPV4(127, 0, 0, 1)).write_to_stream(&mut output);
    assert_eq!(output.as_slice(), &[0, 4, 127, 0, 0, 1]);
    let mut output = OutBuffer::new();
    ResourceRecordData::Options(vec![1, 2, 3]).write_to_stream(&mut output);
    assert_eq!(output.as_slice(), &[0, 3, 1, 2, 3]);
    let mut output = OutBuffer::new();
    ResourceRecordData::Options(vec![9; 300]).write_to_stream(&mut output);
    let bytes = output.into_bytes();
    assert_eq!(bytes.len(), 302);
    assert_eq!(&bytes[..2], &[0x01, 0x2c]);
}

#[test]
fn record_data_length_and_type() {
    assert_eq!(ResourceRecordData::A(IPV4(1, 2, 3, 4)).len(), 4);
    assert_eq!(ResourceRecordData::Options(vec![]).len(), 0);
    assert_eq!(ResourceRecordData::Options(vec![0; 17]).len(), 17);
    assert_eq!(ResourceRecordData::A(IPV4(1, 2, 3, 4)).record_type(), ResourceRecordType::A);
    assert_eq!(
        ResourceRecordData::Options(vec![]).record_type(),
        ResourceRecordType::Options
    );
    assert_eq!(
        ResourceRecordType::from(ResourceRecordData::Options(vec![1])),
        ResourceRecordType::Options
    );
}

#[test]
fn record_data_is_shaped_by_its_type() {
    let mut input = InBuffer::new(vec![0, 0, 1, 2, 3, 4, 5]);
    assert_eq!(
        ResourceRecordData::read_from_stream(&mut input, &ResourceRecordType::A),
        Ok(ResourceRecordData::A(IPV4(1, 2, 3, 4)))
    );
    assert_eq!(input.remaining(), 1);
    let mut input = InBuffer::new(vec![0, 2, 1, 2, 3, 4, 5]);
    assert_eq!(
        ResourceRecordData::read_from_stream(&mut input, &ResourceRecordType::Options),
        Ok(ResourceRecordData::Options(vec![1, 2]))
    );
    assert_eq!(input.remaining(), 3);
    let mut input = InBuffer::new(vec![0, 9, 1, 2]);
    assert_eq!(
        ResourceRecordData::read_from_stream(&mut input, &ResourceRecordType::Options),
        Err(DecodeError::EndOfStream)
    );
}

#[test]
fn question_is_name_type_class() {
    let question = Question {
        name: labels(&["a", "b"]),
        typ: ResourceRecordType::A,
        class: Class::Internet,
    };
    let mut output = OutBuffer::new();
    question.write_to_stream(&mut output);
    assert_eq!(output.as_slice(), &[1, b'a', 1, b'b', 0, 0, 1, 0, 1]);
    let mut input = InBuffer::new(output.into_bytes());
    assert_eq!(Question::read_from_stream(&mut input), Ok(question));
}

#[test]
fn question_of_unknown_type_fails() {
    let mut input = InBuffer::new(vec![1, b'a', 0, 0, 99, 0, 1]);
    assert_eq!(
        Question::read_from_stream(&mut input),
        Err(DecodeError::UnknownRecordType(99))
    );
    assert_eq!(input.remaining(), 2);
}

#[test]
fn question_keeps_a_class_without_a_name() {
    let question = Question {
        name: labels(&["a"]),
        typ: ResourceRecordType::Options,
        class: Class::Unknown(17),
    };
    let mut output = OutBuffer::new();
    question.write_to_stream(&mut output);
    assert_eq!(output.as_slice(), &[1, b'a', 0, 0, 41, 0, 17]);
    let mut input = InBuffer::new(output.into_bytes());
    assert_eq!(Question::read_from_stream(&mut input), Ok(question));
}

#[test]
fn record_is_name_type_class_ttl_data() {
    let record = ResourceRecord::new(
        labels(&["localhost"]),
        Class::Internet,
        0x01020304,
        ResourceRecordData::A(IPV4(127, 0, 0, 1)),
    );
    let mut output = OutBuffer::new();
    record.write_to_stream(&mut output);
    assert_eq!(
        output.as_slice(),
        &[
            9, b'l', b'o', b'c', b'a', b'l', b'h', b'o', b's', b't', 0, 0, 1, 0, 1, 1, 2, 3, 4,
            0, 4, 127, 0, 0, 1
        ]
    );
    let mut input = InBuffer::new(output.into_bytes());
    assert_eq!(ResourceRecord::read_from_stream(&mut input), Ok(record));
}

#[test]
fn options_record_round_trips() {
    let record = ResourceRecord::new(
        Domain(vec![]),
        Class::Unknown(4096),
        0,
        ResourceRecordData::Options(vec![0, 10, 0, 8, 1, 2, 3, 4, 5, 6, 7, 8]),
    );
    let mut output = OutBuffer::new();
    record.write_to_stream(&mut output);
    let bytes = output.into_bytes();
    assert_eq!(&bytes[..11], &[0, 0, 41, 0x10, 0, 0, 0, 0, 0, 0, 12]);
    let mut input = InBuffer::new(bytes);
    assert_eq!(ResourceRecord::read_from_stream(&mut input), Ok(record));
}

#[test]
fn record_of_unknown_type_fails() {
    let mut input = InBuffer::new(vec![0, 0, 2, 0, 1, 0, 0, 0, 60, 0, 0]);
    assert_eq!(
        ResourceRecord::read_from_stream(&mut input),
        Err(DecodeError::UnknownRecordType(2))
    );
}

#[test]
fn message_header_counts_its_sections() {
    let record = ResourceRecord::new(
        labels(&["a"]),
        Class::Internet,
        60,
        ResourceRecordData::A(IPV4(1, 2, 3, 4)),
    );
    let message = Message::new(
        0xbeef,
        Flags::new(false, true, false, false, false, Operation::Query, ResponseCode::NoError),
        vec![],
        vec![record.clone(), record.clone()],
        vec![record.clone()],
        vec![record.clone(), record.clone(), record],
    );
    let mut output = OutBuffer::new();
    message.write_to_stream(&mut output);
    let bytes = output.into_bytes();
    assert_eq!(&bytes[..12], &[0xbe, 0xef, 0x84, 0x00, 0, 0, 0, 2, 0, 1, 0, 3]);
    assert_eq!(bytes.len(), 12 + 6 * 17);
}

#[test]
fn message_with_all_sections_round_trips() {
    let message = Message::new(
        0xffff,
        Flags::new(false, false, true, true, true, Operation::Status, ResponseCode::NotInZone),
        vec![
            Question {
                name: labels(&["www", "example", "com"]),
                typ: ResourceRecordType::A,
                class: Class::Internet,
            },
            Question {
                name: labels(&["example", "org"]),
                typ: ResourceRecordType::Options,
                class: Class::Any,
            },
        ],
        vec![ResourceRecord::new(
            labels(&["www", "example", "com"]),
            Class::Internet,
            3600,
            ResourceRecordData::A(IPV4(93, 184, 216, 34)),
        )],
        vec![ResourceRecord::new(
            labels(&["com"]),
            Class::Chaos,
            u32::MAX,
            ResourceRecordData::A(IPV4(0, 0, 0, 0)),
        )],
        vec![ResourceRecord::new(
            Domain(vec![]),
            Class::Unknown(1232),
            0,
            ResourceRecordData::Options(vec![1, 2, 3]),
        )],
    );
    let mut output = OutBuffer::new();
    message.write_to_stream(&mut output);
    let mut bytes = output.into_bytes();
    bytes.extend_from_slice(&[0xaa, 0xbb]);
    let mut input = InBuffer::new(bytes);
    assert_eq!(Message::read_from_stream(&mut input), Ok(message.clone()));
    assert_eq!(input.remaining(), 2);
    assert_eq!(message.clone(), message);
}

#[test]
fn empty_message_is_its_header() {
    let message = Message::new(
        0,
        Flags::new(true, false, false, false, false, Operation::Query, ResponseCode::NoError),
        vec![],
        vec![],
        vec![],
        vec![],
    );
    let mut output = OutBuffer::new();
    message.write_to_stream(&mut output);
    assert_eq!(output.as_slice(), &[0; 12]);
    let mut input = InBuffer::new(vec![0; 12]);
    assert_eq!(Message::read_from_stream(&mut input), Ok(message));
}

#[test]
fn truncated_message_fails() {
    let mut input = InBuffer::new(vec![0x12, 0x34, 0x01, 0x00, 0x00, 0x01, 0x00]);
    assert_eq!(Message::read_from_stream(&mut input), Err(DecodeError::EndOfStream));
    let mut input = InBuffer::new(vec![
        0x12, 0x34, 0x01, 0x00, 0x00, 0x02, 0x00, 0x00, 0x00, 0x00, 0x00, 0x00, 1, b'a', 0, 0, 1,
        0, 1,
    ]);
    assert_eq!(Message::read_from_stream(&mut input), Err(DecodeError::EndOfStream));
}

#[test]
fn message_with_unknown_type_in_a_section_fails() {
    let mut input = InBuffer::new(vec![
        0, 1, 0, 0, 0, 0, 0, 1, 0, 0, 0, 0, 1, b'a', 0, 0, 5, 0, 1, 0, 0, 0, 0, 0, 0,
    ]);
    assert_eq!(
        Message::read_from_stream(&mut input),
        Err(DecodeError::UnknownRecordType(5))
    );
}

#[test]
fn message_with_unknown_operation_fails() {
    let mut input = InBuffer::new(vec![0, 1, 0x18, 0, 0, 0, 0, 0, 0, 0, 0, 0]);
    assert_eq!(
        Message::read_from_stream(&mut input),
        Err(DecodeError::UnknownOperation(3))
    );
}

#[test]
fn message_id_can_be_replaced() {
    let message = Message::new(
        1,
        Flags::new(false, false, false, false, true, Operation::Query, ResponseCode::NoError),
        vec![Question {
            name: labels(&["a"]),
            typ: ResourceRecordType::A,
            class: Class::Internet,
        }],
        vec![],
        vec![],
        vec![],
    );
    let relabelled = message.clone().with_id(0x4242);
    assert_eq!(relabelled.id, 0x4242);
    assert_eq!(relabelled.flags, message.flags);
    assert_eq!(relabelled.questions, message.questions);
    assert_eq!(relabelled.answers, message.answers);
}

#[test]
fn codes_of_the_enumerations() {
    assert_eq!(u16::from(ResourceRecordType::A), 1);
    assert_eq!(u8::from(ResourceRecordType::Options), 41);
    assert_eq!(ResourceRecordType::A.code(), 1);
    assert_eq!(ResourceRecordType::try_from(41u16), Ok(ResourceRecordType::Options));
    assert_eq!(ResourceRecordType::try_from(1u8), Ok(ResourceRecordType::A));
    assert_eq!(ResourceRecordType::try_from(2u16), Err(DecodeError::UnknownRecordType(2)));
    assert_eq!(ResourceRecordType::from_code(0), None);
    assert_eq!(u8::from(ResponseCode::BadCookie), 23);
    assert_eq!(u16::from(ResponseCode::BadVersion), 16);
    assert_eq!(ResponseCode::ServerFailure.code(), 2);
    assert_eq!(ResponseCode::try_from(11u16), Ok(ResponseCode::DSOTypeNotImplemented));
    assert_eq!(ResponseCode::try_from(16u8), Ok(ResponseCode::BadVersion));
    assert_eq!(ResponseCode::try_from(12u16), Err(DecodeError::UnknownResponseCode(12)));
    assert_eq!(ResponseCode::from_code(24), None);
    assert_eq!(u8::from(Operation::Notify), 4);
    assert_eq!(u16::from(Operation::StatefulOperation), 6);
    assert_eq!(Operation::try_from(5u16), Ok(Operation::Update));
    assert_eq!(Operation::try_from(3u8), Err(DecodeError::UnknownOperation(3)));
    assert_eq!(Operation::from_code(7), None);
    assert_eq!(u16::from(Class::Internet), 1);
    assert_eq!(u16::from(Class::Chaos), 3);
    assert_eq!(u16::from(Class::Hesiod), 4);
    assert_eq!(u16::from(Class::NoClass), 254);
    assert_eq!(u16::from(Class::Any), 255);
    assert_eq!(u16::from(Class::Unknown(77)), 77);
    assert_eq!(Class::from(254u16), Class::NoClass);
    assert_eq!(Class::from(2u16), Class::Unknown(2));
    assert_eq!(Class::from_code(1), Class::Internet);
}

#[test]
fn every_known_code_round_trips() {
    for code in 0u16..=300 {
        if let Some(typ) = ResourceRecordType::from_code(code) {
            assert_eq!(typ.code(), code);
        }
        if let Some(response_code) = ResponseCode::from_code(code) {
            assert_eq!(response_code.code(), code);
        }
        if let Some(operation) = Operation::from_code(code) {
            assert_eq!(operation.code(), code);
        }
        assert_eq!(Class::from_code(code).code(), code);
    }
}

#[test]
fn message_that_was_read_is_read_back_after_relabelling() {
    let bytes: Vec<u8> = vec![
        0xab, 0xcd, 0x81, 0xf0, 0, 1, 0, 1, 0, 0, 0, 1, 3, b'w', b'w', b'w', 0, 0, 1, 0, 1, 3,
        b'w', b'w', b'w', 0, 0, 1, 0, 1, 0, 0, 1, 0, 0, 9, 1, 2, 3, 4, 0, 0, 41, 2, 0, 0, 0, 0,
        0, 0, 2, 7, 8,
    ];
    let mut input = InBuffer::new(bytes);
    let read = Message::read_from_stream(&mut input).unwrap();
    assert_eq!(input.remaining(), 0);
    assert_eq!(read.answers[0].data, ResourceRecordData::A(IPV4(1, 2, 3, 4)));
    assert_eq!(read.additional_records[0].class, Class::Unknown(512));
    let relabelled = read.with_id(0x0102);
    let mut output = OutBuffer::new();
    relabelled.write_to_stream(&mut output);
    let written = output.into_bytes();
    assert_eq!(&written[..4], &[0x01, 0x02, 0x81, 0x80]);
    assert_eq!(written[35], 4);
    let mut input = InBuffer::new(written);
    assert_eq!(Message::read_from_stream(&mut input), Ok(relabelled));
}
