use dns_wire::types::serialize_data;
use dns_wire::types::A;
use dns_wire::types::IN;
use dns_wire::types::TXT;
use dns_wire::Class;
use dns_wire::Error;
use dns_wire::Ipv4;
use dns_wire::Label;
use dns_wire::Message;
use dns_wire::Name;
use dns_wire::Opcode;
use dns_wire::RRData;
use dns_wire::ResponseCode;
use dns_wire::Type;

#[test]
fn round_trip_parsed_response() {
    let response = b"\x06%\x81\x80\x00\x01\x00\x01\x00\x00\x00\x00\
                     \x07example\x03com\x00\x00\x01\x00\x01\
                     \xc0\x0c\x00\x01\x00\x01\x00\x00\x04\xf8\
                     \x00\x04]\xb8\xd8\"";
    let first = Message::parse(response).unwrap();
    let bytes = first.serialize().unwrap();
    let second = Message::parse(&bytes).unwrap();
    assert_eq!(second.id(), first.id());
    assert_eq!(second.is_response(), first.is_response());
    assert_eq!(second.opcode(), first.opcode());
    assert_eq!(second.response_code(), first.response_code());
    assert_eq!(second.num_questions(), 1);
    assert_eq!(second.num_answers(), 1);
    let q = second.get_question(0).unwrap();
    assert_eq!(&q.name().to_string()[..], "example.com");
    assert_eq!(q.class(), IN);
    let a = second.get_answer(0).unwrap();
    assert_eq!(&a.name().to_string()[..], "example.com");
    assert_eq!(a.ttl, 1272);
    assert_eq!(*a.get::<A>().unwrap(), Ipv4::new(93, 184, 216, 34));
}

#[test]
fn round_trip_compressed_names_uncompressed() {
    let response = b"\xe3\xe8\x81\x80\x00\x01\x00\x05\x00\x00\x00\x00\
        \x05gmail\x03com\x00\x00\x0f\x00\x01\xc0\x0c\x00\x0f\x00\x01\
        \x00\x00\x04|\x00\x1b\x00\x05\rgmail-smtp-in\x01l\x06google\xc0\
        \x12\xc0\x0c\x00\x0f\x00\x01\x00\x00\x04|\x00\t\x00\
        \n\x04alt1\xc0)\xc0\x0c\x00\x0f\x00\x01\x00\x00\x04|\
        \x00\t\x00(\x04alt4\xc0)\xc0\x0c\x00\x0f\x00\x01\x00\
        \x00\x04|\x00\t\x00\x14\x04alt2\xc0)\xc0\x0c\x00\x0f\
        \x00\x01\x00\x00\x04|\x00\t\x00\x1e\x04alt3\xc0)";
    let first = Message::parse(response).unwrap();
    let bytes = first.serialize().unwrap();
    // The encoder emits no compression, so the buffer grows, but the
    // decoded structure is unchanged.
    assert!(bytes.len() > response.len());
    let second = Message::parse(&bytes).unwrap();
    assert_eq!(second.num_answers(), 5);
    for i in 0..5 {
        let a1 = first.get_answer(i).unwrap();
        let a2 = second.get_answer(i).unwrap();
        assert_eq!(a1.name().to_string(), a2.name().to_string());
        assert_eq!(a1.ttl, a2.ttl);
        let m1 = a1.get::<dns_wire::types::MX>().unwrap();
        let m2 = a2.get::<dns_wire::types::MX>().unwrap();
        assert_eq!(m1.preference, m2.preference);
        assert_eq!(m1.exchange.to_string(), m2.exchange.to_string());
    }
}

#[test]
fn round_trip_opt_yields_one_opt() {
    let query = b"\x95\xce\x01\x00\x00\x01\x00\x00\x00\x00\x00\x01\
        \x06google\x03com\x00\x00\x01\x00\
        \x01\x00\x00\x29\x10\x00\x00\x00\x00\x00\x00\x00";
    let first = Message::parse(query).unwrap();
    assert!(first.opt.is_some());
    let bytes = first.serialize().unwrap();
    let second = Message::parse(&bytes).unwrap();
    let opt = second.opt.as_ref().unwrap();
    assert_eq!(opt.udp, 4096);
    assert_eq!(opt.extrcode, 0);
    assert_eq!(opt.version, 0);
    assert_eq!(opt.flags, 0);
    assert_eq!(second.num_additional(), 0);
}

#[test]
fn two_opts_fail_multiple_opt() {
    let packet = b"\x00\x01\x01\x00\x00\x00\x00\x00\x00\x00\x00\x02\
        \x00\x00\x29\x10\x00\x00\x00\x00\x00\x00\x00\
        \x00\x00\x29\x10\x00\x00\x00\x00\x00\x00\x00";
    assert!(matches!(Message::parse(packet), Err(Error::MultipleOpt)));
}

#[test]
fn opt_outside_additional_fails_invalid_opt() {
    // One answer whose type code is the OPT code.
    let packet = b"\x00\x01\x81\x80\x00\x00\x00\x01\x00\x00\x00\x00\
        \x00\x00\x29\x10\x00\x00\x00\x00\x00\x00\x00";
    assert!(matches!(Message::parse(packet), Err(Error::InvalidOpt)));
}

#[test]
fn pointer_cycle_fails_name_too_long() {
    // The question name is a compression pointer aimed at itself.
    let packet = b"\x00\x01\x01\x00\x00\x01\x00\x00\x00\x00\x00\x00\
        \xc0\x0c\x00\x01\x00\x01";
    assert!(matches!(Message::parse(packet), Err(Error::NameTooLong)));
}

#[test]
fn pointer_pair_cycle_fails_name_too_long() {
    // Two pointers aimed at each other.
    let packet = b"\x00\x01\x01\x00\x00\x01\x00\x00\x00\x00\x00\x00\
        \xc0\x0e\xc0\x0c\x00\x01\x00\x01";
    assert!(matches!(Message::parse(packet), Err(Error::NameTooLong)));
}

#[test]
fn reserved_label_format_rejected() {
    // A length byte with high bits `01` is a reserved format.
    let packet = b"\x00\x01\x01\x00\x00\x01\x00\x00\x00\x00\x00\x00\
        \x41abc\x00\x00\x01\x00\x01";
    assert!(matches!(Message::parse(packet), Err(Error::UnknownLabelFormat)));
}

#[test]
fn truncated_buffer_fails_io_error() {
    assert!(matches!(Message::parse(b"\x06%\x01\x00"), Err(Error::IoError)));
    let short = b"\x00\x01\x01\x00\x00\x01\x00\x00\x00\x00\x00\x00\x07examp";
    assert!(matches!(Message::parse(short), Err(Error::IoError)));
}

#[test]
fn label_charset_and_length() {
    assert!(Label::from_str("example").is_ok());
    assert!(Label::from_str("abc-123").is_ok());
    assert!(Label::from_str("_tcp").is_ok());
    assert!(matches!(Label::from_str(""), Err(Error::InvalidLabel)));
    assert!(Label::from_str("with space").is_err());
    assert!(Label::from_str("dotted.name").is_err());
    assert!(Label::from_str("caf\u{e9}").is_err());
    let l63: String = "a".repeat(63);
    assert!(Label::from_str(&l63).is_ok());
    let l64: String = "a".repeat(64);
    assert!(Label::from_str(&l64).is_err());
    let l = Label::from_str("Example-9").unwrap();
    assert_eq!(l.len(), 9);
    assert_eq!(l.as_str(), "Example-9");
}

#[test]
fn name_length_bounds() {
    // Four 63-byte labels need 257 wire octets: one over the limit.
    let l63: String = "a".repeat(63);
    let too_long = format!("{}.{}.{}.{}", l63, l63, l63, l63);
    assert!(matches!(Name::from_str(&too_long), Err(Error::NameTooLong)));
    // Three long labels and one short one fit exactly in 255.
    let fits = format!("{}.{}.{}.{}", l63, l63, l63, "a".repeat(61));
    let n = Name::from_str(&fits).unwrap();
    assert_eq!(n.len(), 250);
    // 127 one-byte labels would need a 128th read for the terminator,
    // which is past the reader's budget, so they are rejected too.
    let many = vec!["a"; 127].join(".");
    assert!(matches!(Name::from_str(&many), Err(Error::NameTooLong)));
    let enough = vec!["a"; 126].join(".");
    assert!(Name::from_str(&enough).is_ok());
}

#[test]
fn name_push_pop_and_text() {
    let mut n = Name::from_str("example.com").unwrap();
    assert_eq!(n.label_count(), 2);
    assert_eq!(n.len(), 10);
    n.push(Label::from_str("www").unwrap());
    assert_eq!(&n.to_string()[..], "www.example.com");
    n.pop();
    assert_eq!(&n.to_string()[..], "example.com");
    n.pop();
    n.pop();
    assert_eq!(&n.to_string()[..], "");
    n.pop();
    assert_eq!(n.label_count(), 0);
}

#[test]
fn enum_codes_round_trip() {
    for v in 0..=u16::MAX {
        assert_eq!(Type::from_code(v).code(), v);
        assert_eq!(Class::from_code(v).code(), v);
        assert_eq!(Opcode::from_code(v).code(), v);
        assert_eq!(ResponseCode::from_code(v).code(), v);
    }
    assert_eq!(Type::from_code(1), Type::A);
    assert_eq!(Type::from_code(41), Type::OPT);
    assert_eq!(Type::from_code(99), Type::Unknown(99));
    assert_eq!(Class::from_code(1), Class::IN);
    assert_eq!(Opcode::from_code(2), Opcode::ServerStatusRequest);
    assert_eq!(ResponseCode::from_code(3), ResponseCode::NxDomain);
    assert_eq!(ResponseCode::from_code(11), ResponseCode::Reserved(11));
}

#[test]
fn unknown_record_type_preserved() {
    // One answer of type 99 with a three-byte payload.
    let packet = b"\x00\x01\x81\x80\x00\x00\x00\x01\x00\x00\x00\x00\
        \x03foo\x00\x00\x63\x00\x01\x00\x00\x00\x3c\x00\x03\x01\x02\x03";
    let message = Message::parse(packet).unwrap();
    let answer = message.get_answer(0).unwrap();
    assert_eq!(answer.get_type(), Type::Unknown(99));
    let bytes = message.serialize().unwrap();
    let again = Message::parse(&bytes).unwrap();
    assert_eq!(again.get_answer(0).unwrap().get_type(), Type::Unknown(99));
    match &again.get_answer(0).unwrap().data {
        RRData::Unknown(u) => {
            assert_eq!(u.typecode, 99);
            assert_eq!(u.data, vec![1u8, 2, 3]);
        },
        _ => panic!("expected a raw payload"),
    }
}

#[test]
fn built_query_round_trips() {
    let mut m = Message::new_query(0x1234);
    let name = Name::from_str("example.com").unwrap();
    m.add_question(dns_wire::Question::new::<A>(name, IN));
    let bytes = m.serialize().unwrap();
    let parsed = Message::parse(&bytes).unwrap();
    assert_eq!(parsed.id(), 0x1234);
    assert!(parsed.is_request());
    assert!(parsed.recursion_desired());
    assert_eq!(parsed.num_questions(), 1);
    let q = parsed.get_question(0).unwrap();
    assert!(q.is::<A>());
    assert_eq!(&q.name().to_string()[..], "example.com");
}

#[test]
fn built_answer_round_trips() {
    let mut m = Message::new_response(7);
    let owner = Name::from_str("host.example.com").unwrap();
    m.add_answer(dns_wire::ResourceRecord::new_ttl::<A>(owner, 300, IN, Ipv4::new(10, 0, 0, 1)));
    let bytes = m.serialize().unwrap();
    let parsed = Message::parse(&bytes).unwrap();
    assert_eq!(parsed.num_answers(), 1);
    let a = parsed.get_answer(0).unwrap();
    assert_eq!(a.ttl, 300);
    assert_eq!(*a.get::<A>().unwrap(), Ipv4::new(10, 0, 0, 1));
    assert_eq!(&a.name().to_string()[..], "host.example.com");
}

#[test]
fn error_response_carries_code() {
    let m = Message::new_error(9, ResponseCode::Refused);
    let bytes = m.serialize().unwrap();
    let parsed = Message::parse(&bytes).unwrap();
    assert!(parsed.is_response());
    assert_eq!(parsed.response_code(), ResponseCode::Refused);
}

#[test]
fn reserved_codes_survive_the_flag_word() {
    // Opcode 9 and rcode 13 have no names; both must round-trip through
    // the 4-bit header fields.
    let packet = b"\x00\x02\xc8\x8d\x00\x00\x00\x00\x00\x00\x00\x00";
    let parsed = Message::parse(packet).unwrap();
    assert_eq!(parsed.opcode(), Opcode::Reserved(9));
    assert_eq!(parsed.response_code(), ResponseCode::Reserved(13));
    let bytes = parsed.serialize().unwrap();
    assert_eq!(&bytes[..], &packet[..]);
}

#[test]
fn ad_and_cd_bits_round_trip() {
    // Flags 0x0130: recursion desired, authentic data, checking disabled.
    let packet = b"\x00\x03\x01\x30\x00\x00\x00\x00\x00\x00\x00\x00";
    let parsed = Message::parse(packet).unwrap();
    assert!(parsed.recursion_desired());
    let bytes = parsed.serialize().unwrap();
    assert_eq!(&bytes[..], &packet[..]);
}

#[test]
fn tag_mismatch_is_parser_state_error() {
    let mut out: Vec<u8> = Vec::new();
    let txt = RRData::TXT(vec![104u8, 105u8]);
    assert!(matches!(serialize_data::<A>(&txt, &mut out), Err(Error::ParserStateError)));
    assert!(out.is_empty());
    assert!(matches!(serialize_data::<TXT>(&txt, &mut out), Ok(())));
    assert_eq!(out, vec![104u8, 105u8]);
}

#[test]
fn serialized_query_bytes_are_exact() {
    let mut m = Message::new_query(0x0625);
    let name = Name::from_str("example.com").unwrap();
    m.add_question(dns_wire::Question::new::<A>(name, IN));
    let bytes = m.serialize().unwrap();
    let expected = b"\x06%\x01\x00\x00\x01\x00\x00\x00\x00\x00\x00\
                     \x07example\x03com\x00\x00\x01\x00\x01";
    assert_eq!(&bytes[..], &expected[..]);
}

#[test]
fn question_text_form() {
    let q = dns_wire::Question::new::<A>(Name::from_str("example.com").unwrap(), IN);
    assert_eq!(&q.to_string()[..], "IN A example.com");
    let odd = dns_wire::Question {
        qname: Name::from_str("x.y").unwrap(),
        prefer_unicast: false,
        qtype: Type::Unknown(99),
        qclass: Class::Unknown(1000),
    };
    assert_eq!(&odd.to_string()[..], "Unknown(1000) Unknown(99) x.y");
}
