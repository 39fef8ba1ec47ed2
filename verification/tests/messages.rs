//! Whole messages: what is written, and that it is read back as it was.

use martin::{
    opcode_code, opcode_from, parse_header, parse_question, qtype_code, qtype_from, rcode_code,
    rcode_from, write_header, Class, Header, Message, Name, Opcode, ParseError, QType, Question,
    Rcode, ResourceRecord, Type, WriteError,
};

fn name(text: &str) -> Name {
    text.parse().unwrap()
}

fn a_record(owner: &str, last: u8) -> ResourceRecord {
    ResourceRecord::A { name: name(owner), class: Class::Internet, ttl: 60, addr: [10, 0, 0, last] }
}

fn reply() -> Message {
    let query = Message::query(0xbeef, true, Question::new("example.com.", QType::Any).unwrap());
    let mut reply = Message::response(query, true);
    reply.answers.push(a_record("example.com.", 1));
    reply.answers.push(ResourceRecord::TXT {
        name: name("example.com."),
        class: Class::Internet,
        ttl: 5,
        data: vec![String::from("v=spf1 -all")],
    });
    reply.authorities.push(ResourceRecord::NS {
        name: name("example.com."),
        class: Class::Internet,
        ttl: 86400,
        ns_name: name("ns1.example.com."),
    });
    reply.additionals.push(a_record("ns1.example.com.", 53));
    reply.additionals.push(ResourceRecord::OPT {
        payload_size: 1232,
        extended_rcode: 0,
        version: 0,
        dnssec_ok: true,
        data: vec![],
    });
    reply.header = reply.header.answers(2).authorities(1).additional(2);
    reply
}

#[test]
fn a_query_on_the_wire() {
    let query = Message::query(1, false, Question::new("google.com.", QType::ByType(Type::A)).unwrap());
    assert_eq!(
        query.encode(),
        b"\x00\x01\x00\x00\x00\x01\x00\x00\x00\x00\x00\x00\x06google\x03com\x00\x00\x01\x00\x01".to_vec()
    );
    assert!(query.is_query());
    assert!(!query.is_response());
    assert_eq!(query.id(), 1);
    assert_eq!(query.opcode(), Opcode::Query);
    assert!(!query.recursion_desired());
    assert!(!query.recursion_available());
    assert!(!query.authoritative());
    assert!(!query.truncated());
    assert_eq!(query.rcode(), Rcode::NoError);
}

#[test]
fn a_response_takes_over_the_query() {
    let query = Message::query(7, true, Question::new("a.", QType::Any).unwrap());
    let questions = query.questions.clone();
    let response = Message::response(query, true);
    assert_eq!(response.header, Header::response(Header::query(7, Opcode::Query, true, 1), true));
    assert!(response.is_response());
    assert!(response.recursion_desired());
    assert!(response.recursion_available());
    assert_eq!(response.id(), 7);
    assert_eq!(response.questions, questions);
    assert!(response.answers.is_empty());
    assert!(response.authorities.is_empty());
    assert!(response.additionals.is_empty());
}

#[test]
fn a_message_is_read_back_as_it_was_written() {
    let message = reply();
    let bytes = message.encode();
    assert_eq!(Message::decode(&bytes), Ok(message.clone()));
    assert_eq!(Message::parse(&bytes), Ok(message));
}

#[test]
fn messages_with_every_header_field_are_read_back() {
    let opcodes = [Opcode::Query, Opcode::InverseQuery, Opcode::Status, Opcode::Unknown { value: 15 }];
    let rcodes = [
        Rcode::NoError,
        Rcode::FormatError,
        Rcode::ServerFailure,
        Rcode::NameError,
        Rcode::NotImplemented,
        Rcode::Refused,
        Rcode::Unknown { value: 6 },
        Rcode::Unknown { value: 15 },
    ];
    for (i, opcode) in opcodes.iter().enumerate() {
        for (j, rcode) in rcodes.iter().enumerate() {
            for bits in 0..32u8 {
                let mut message = reply();
                message.header.id = (i * 1000 + j * 100) as u16 + bits as u16;
                message.header.opcode = *opcode;
                message.header.rcode = *rcode;
                message.header.qr = bits & 1 != 0;
                message.header.authoritative = bits & 2 != 0;
                message.header.truncated = bits & 4 != 0;
                message.header.recursion_desired = bits & 8 != 0;
                message.header.recursion_available = bits & 16 != 0;
                assert_eq!(Message::decode(&message.encode()), Ok(message));
            }
        }
    }
}

#[test]
fn the_counts_on_the_wire_are_the_lengths_of_the_lists() {
    let mut message = reply();
    message.header = message.header.answers(40).authorities(0).additional(7);
    message.header.question_count = 9;
    let bytes = message.encode();
    assert_eq!(&bytes[4..12], b"\x00\x01\x00\x02\x00\x01\x00\x02");
    assert_eq!(Message::decode(&bytes), Ok(reply()));
}

#[test]
fn flags_are_packed_bit_by_bit() {
    let mut header = Header::query(0x1234, Opcode::Query, false, 0);
    assert_eq!(header.flags_to_u16(), 0x0000);
    header.qr = true;
    assert_eq!(header.flags_to_u16(), 0x8000);
    header.opcode = Opcode::Status;
    assert_eq!(header.flags_to_u16(), 0x9000);
    header.opcode = Opcode::Unknown { value: 15 };
    assert_eq!(header.flags_to_u16(), 0xf800);
    header.authoritative = true;
    assert_eq!(header.flags_to_u16(), 0xfc00);
    header.truncated = true;
    assert_eq!(header.flags_to_u16(), 0xfe00);
    header.recursion_desired = true;
    assert_eq!(header.flags_to_u16(), 0xff00);
    header.recursion_available = true;
    assert_eq!(header.flags_to_u16(), 0xff80);
    header.rcode = Rcode::Refused;
    assert_eq!(header.flags_to_u16(), 0xff85);
    header.rcode = Rcode::Unknown { value: 0xff };
    header.opcode = Opcode::Unknown { value: 0xf0 };
    assert_eq!(header.flags_to_u16(), 0x878f);

    let mut out = Vec::new();
    write_header(&Header::query(0x1234, Opcode::InverseQuery, true, 1).answers(2), &mut out);
    assert_eq!(out, b"\x12\x34\x09\x00\x00\x01\x00\x02\x00\x00\x00\x00".to_vec());
    let mut again = Vec::new();
    Header::query(0x1234, Opcode::InverseQuery, true, 1).answers(2).write_to(&mut again);
    assert_eq!(again, out);
}

#[test]
fn header_takes_twelve_bytes_and_ignores_the_reserved_bits() {
    let data = b"\xab\xcd\x84\x73\x00\x01\x00\x02\x00\x03\x00\x04rest";
    let header = parse_header(&data[..]).unwrap();
    assert_eq!(
        header,
        Header {
            id: 0xabcd,
            qr: true,
            opcode: Opcode::Query,
            authoritative: true,
            truncated: false,
            recursion_desired: false,
            recursion_available: false,
            rcode: Rcode::NameError,
            question_count: 1,
            answer_count: 2,
            ns_count: 3,
            additional_count: 4,
        }
    );
    assert_eq!(header.flags_to_u16(), 0x8403);
    for cut in 0..12 {
        assert_eq!(parse_header(&data[..cut]), Err(ParseError::Incomplete));
    }
    let unknown = b"\x00\x00\x78\x0f\x00\x00\x00\x00\x00\x00\x00\x00";
    let header = parse_header(&unknown[..]).unwrap();
    assert_eq!(header.opcode, Opcode::Unknown { value: 15 });
    assert_eq!(header.rcode, Rcode::Unknown { value: 15 });
}

#[test]
fn codes_of_opcodes_response_codes_and_query_types() {
    let opcodes = [
        (0u8, Opcode::Query),
        (1, Opcode::InverseQuery),
        (2, Opcode::Status),
        (3, Opcode::Unknown { value: 3 }),
    ];
    for (code, opcode) in opcodes {
        assert_eq!(opcode_from(code), opcode);
        assert_eq!(opcode_code(opcode), code);
    }
    let rcodes = [
        (0u8, Rcode::NoError),
        (1, Rcode::FormatError),
        (2, Rcode::ServerFailure),
        (3, Rcode::NameError),
        (4, Rcode::NotImplemented),
        (5, Rcode::Refused),
        (6, Rcode::Unknown { value: 6 }),
    ];
    for (code, rcode) in rcodes {
        assert_eq!(rcode_from(code), rcode);
        assert_eq!(rcode_code(rcode), code);
    }
    assert_eq!(qtype_from(255), QType::Any);
    assert_eq!(qtype_from(1), QType::ByType(Type::A));
    assert_eq!(qtype_from(254), QType::ByType(Type::Unknown { value: 254 }));
    assert_eq!(qtype_code(QType::Any), 255);
    assert_eq!(qtype_code(QType::ByType(Type::AAAA)), 28);
}

#[test]
fn header_builders_change_one_count_each() {
    let header = Header::query(1, Opcode::Query, true, 1);
    assert_eq!(header.answers(3).answer_count, 3);
    assert_eq!(header.answers(3).authorities(4).ns_count, 4);
    assert_eq!(header.answers(3).authorities(4).additional(5).additional_count, 5);
    assert_eq!(
        header.answers(3).authorities(4).additional(5),
        Header { answer_count: 3, ns_count: 4, additional_count: 5, ..header }
    );
}

#[test]
fn questions_on_the_wire() {
    let question = Question::new("example.com.", QType::ByType(Type::MX)).unwrap();
    assert_eq!(question.qclass, Class::Internet);
    let mut out = vec![9u8];
    question.write_to(&mut out);
    assert_eq!(out, b"\x09\x07example\x03com\x00\x00\x0f\x00\x01".to_vec());
    assert_eq!(parse_question(&out, 1), Ok((question, out.len() - 1)));
    assert_eq!(parse_question(&out[..out.len() - 1], 1), Err(ParseError::Incomplete));
    assert_eq!(
        Question::new("example.com", QType::Any),
        Err(martin::NameParseError::NameMustEndInRootLabel)
    );
    let any = b"\x00\x00\xff\x00\x03";
    assert_eq!(
        parse_question(&any[..], 0),
        Ok((Question { qname: name("."), qtype: QType::Any, qclass: Class::Chaos }, 5))
    );
}

#[test]
fn sections_are_read_as_the_header_counts_them() {
    let message = reply();
    let bytes = message.encode();
    // One answer less in the count: the second answer is read as an authority
    // record, and bytes are left over.
    let mut fewer = bytes.clone();
    fewer[7] = 1;
    fewer[9] = 1;
    fewer[11] = 1;
    assert!(matches!(Message::decode(&fewer), Err(ParseError::TrailingBytes(_))));
    let shifted = Message::parse(&fewer).unwrap();
    assert_eq!(shifted.answers, message.answers[..1].to_vec());
    assert_eq!(shifted.authorities, message.answers[1..].to_vec());
    assert_eq!(shifted.additionals, message.authorities);
    // One more in the count: the message ends too early.
    let mut more = bytes.clone();
    more[11] = 3;
    assert_eq!(Message::decode(&more), Err(ParseError::Incomplete));
    assert_eq!(Message::decode(&bytes[..bytes.len() - 1]), Err(ParseError::Incomplete));
    assert_eq!(Message::decode(&[]), Err(ParseError::Incomplete));
}

#[test]
fn a_message_that_does_not_fit_is_not_written() {
    let mut message = reply();
    message.additionals.push(ResourceRecord::Unknown {
        name: name("a."),
        rtype: Type::Unknown { value: 99 },
        class: Class::Internet,
        ttl: 7,
        data: vec![0; 70000],
    });
    let mut out = vec![1u8, 2, 3];
    assert_eq!(message.write_to(&mut out), Err(WriteError::DataTooLong));
    assert_eq!(out, vec![1, 2, 3]);

    let mut message = reply();
    message.answers = vec![a_record("a.", 1); 65536];
    assert_eq!(message.write_to(&mut out), Err(WriteError::TooManyEntries));
    assert_eq!(out, vec![1, 2, 3]);

    let message = reply();
    assert_eq!(message.write_to(&mut out), Ok(()));
    assert_eq!(&out[..3], &[1, 2, 3]);
    assert_eq!(out[3..].to_vec(), message.encode());
}

#[test]
fn records_are_added_and_counted() {
    let mut message = Message::query(3, true, Question::new("a.", QType::Any).unwrap());
    assert_eq!(message.add_answer(a_record("a.", 1)), Ok(()));
    assert_eq!(message.add_answer(a_record("a.", 2)), Ok(()));
    assert_eq!(message.add_authority(a_record("b.", 3)), Ok(()));
    assert_eq!(message.add_additional(a_record("c.", 4)), Ok(()));
    assert_eq!(message.header, Header::query(3, Opcode::Query, true, 1).answers(2).authorities(1).additional(1));
    assert_eq!(message.answers, vec![a_record("a.", 1), a_record("a.", 2)]);
    assert_eq!(message.authorities, vec![a_record("b.", 3)]);
    assert_eq!(message.additionals, vec![a_record("c.", 4)]);
    assert_eq!(Message::decode(&message.encode()), Ok(message.clone()));

    message.header = message.header.answers(65535).authorities(65535).additional(65535);
    let before = message.clone();
    assert_eq!(message.add_answer(a_record("a.", 5)), Err(WriteError::TooManyEntries));
    assert_eq!(message.add_authority(a_record("a.", 5)), Err(WriteError::TooManyEntries));
    assert_eq!(message.add_additional(a_record("a.", 5)), Err(WriteError::TooManyEntries));
    assert_eq!(message, before);
}

#[test]
fn header_codes_convert_with_from() {
    assert_eq!(Opcode::from(2u8), Opcode::Status);
    assert_eq!(Opcode::from(9u8), Opcode::Unknown { value: 9 });
    assert_eq!(u8::from(Opcode::InverseQuery), 1);
    assert_eq!(Rcode::from(3u8), Rcode::NameError);
    assert_eq!(Rcode::from(11u8), Rcode::Unknown { value: 11 });
    assert_eq!(u8::from(Rcode::Refused), 5);
    assert_eq!(QType::from(255u16), QType::Any);
    assert_eq!(QType::from(16u16), QType::ByType(Type::TXT));
    assert_eq!(u16::from(QType::Any), 255);
    assert_eq!(u16::from(QType::ByType(Type::NS)), 2);
}
