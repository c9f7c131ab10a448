use dnsblast::config::{parse_names, RecordType};
use dnsblast::dns::{
    build_query, inspect_response, length_prefix, observe, DnsMessage, ResponseError,
};
use dnsblast::names::DnsName;
use hickory_proto::op::{Edns, Message, MessageType, OpCode, ResponseCode};
use hickory_proto::rr::{Name, RData, Record};
use std::str::FromStr;

fn message(codes: &[u16]) -> DnsMessage {
    DnsMessage {
        id: 7,
        is_response: true,
        response_code: "NoError".into(),
        truncated: true,
        authentic_data: false,
        record_types: codes.iter().map(|code| RecordType { code: *code }).collect(),
    }
}

fn response(id: u16) -> Message {
    let mut response = Message::new(id, MessageType::Response, OpCode::Query);
    response.metadata.response_code = ResponseCode::NoError;
    response
}

#[test]
fn a_query_is_written_octet_by_octet() {
    let name = DnsName { labels: vec![b"A".to_vec(), b"Test".to_vec()], fqdn: true };
    let wire = build_query(0x1234, &name, RecordType { code: 257 }, true, 4096).unwrap();
    assert_eq!(
        wire,
        vec![
            0x12, 0x34, 1, 0, 0, 1, 0, 0, 0, 0, 0, 1, // header
            1, b'A', 4, b'T', b'e', b's', b't', 0, 1, 1, 0, 1, // question
            0, 0, 41, 0x10, 0, 0, 0, 0x80, 0, 0, 0, // EDNS
        ]
    );
    let root = parse_names(&[".".into()]).unwrap();
    let wire = build_query(1, &root[0], RecordType { code: 2 }, false, 12).unwrap();
    assert_eq!(&wire[12..], &[0, 0, 2, 0, 1, 0, 0, 41, 2, 0, 0, 0, 0, 0, 0, 0]);
}

#[test]
fn labels_that_repeat_are_not_shortened() {
    let names = parse_names(&["a.a.a.a".into()]).unwrap();
    let wire = build_query(9, &names[0], RecordType { code: 1 }, false, 512).unwrap();
    assert_eq!(&wire[12..21], &[1, b'a', 1, b'a', 1, b'a', 1, b'a', 0]);
    assert_eq!(wire.len(), 36);
}

#[test]
fn the_longest_name_can_be_asked_for() {
    let label = "x".repeat(63);
    let name = format!("{label}.{label}.{label}.{}", "y".repeat(61));
    let names = parse_names(&[name]).unwrap();
    let wire = build_query(9, &names[0], RecordType { code: 1 }, false, 512).unwrap();
    assert_eq!(wire.len(), 12 + 255 + 4 + 11);
    let read = Message::from_vec(&wire).unwrap();
    assert_eq!(read.queries.len(), 1);
}

#[test]
fn queries_are_decoded_to_what_they_were_written_from() {
    for code in [1u16, 28, 255, 256, 65305, 65535] {
        let names = parse_names(&["xn--bcher-kva.example".into()]).unwrap();
        let wire = build_query(code, &names[0], RecordType { code }, code == 28, 1232).unwrap();
        let read = Message::from_vec(&wire).unwrap();
        assert_eq!(read.metadata.id, code);
        assert!(read.metadata.recursion_desired);
        assert_eq!(u16::from(read.queries[0].query_type()), code);
        assert_eq!(read.edns.unwrap().flags().dnssec_ok, code == 28);
    }
}

#[test]
fn records_of_dnssec_are_counted() {
    let seen = observe(7, message(&[1, 46, 48, 46, 16, 250, 65280])).unwrap();
    assert_eq!(seen.dnssec_records, 4);
    assert!(seen.rrsig_response);
    assert!(seen.truncated);
    assert!(!seen.authenticated_data);
    let seen = observe(7, message(&[1, 47, 28])).unwrap();
    assert_eq!(seen.dnssec_records, 1);
    assert!(!seen.rrsig_response);
    for code in 0..=u16::MAX {
        let known = hickory_proto::rr::RecordType::from(code);
        let seen = observe(7, message(&[code])).unwrap();
        assert_eq!(seen.dnssec_records == 1, known.is_dnssec(), "{code}");
        assert_eq!(seen.rrsig_response, code == 46);
    }
}

#[test]
fn a_response_to_another_query_is_refused() {
    assert!(matches!(
        observe(8, message(&[])),
        Err(ResponseError::IdMismatch { expected: 8, received: 7 })
    ));
    let mut query = message(&[]);
    query.is_response = false;
    assert!(matches!(observe(7, query), Err(ResponseError::NotAResponse)));
    let wire = response(5).to_vec().unwrap();
    assert!(inspect_response(5, &wire).is_ok());
    assert!(matches!(
        inspect_response(6, &wire),
        Err(ResponseError::IdMismatch { expected: 6, received: 5 })
    ));
}

#[test]
fn a_query_is_no_response() {
    let names = parse_names(&["a.test".into(), ".".into()]).unwrap();
    for (id, name) in [(0u16, &names[0]), (65535, &names[1]), (0x8080, &names[0])] {
        let wire = build_query(id, name, RecordType { code: 1 }, true, 1232).unwrap();
        assert!(matches!(inspect_response(id, &wire), Err(ResponseError::NotAResponse)));
        assert!(inspect_response(id.wrapping_add(1), &wire).is_err());
    }
}

#[test]
fn refused_responses_have_a_message() {
    let wire = response(5).to_vec().unwrap();
    assert_eq!(
        inspect_response(6, &wire).unwrap_err().message(),
        "DNS transaction ID mismatch: expected 6, received 5"
    );
    let mut query = message(&[]);
    query.is_response = false;
    assert_eq!(
        observe(7, query).unwrap_err().message(),
        "received a DNS query instead of a response"
    );
    let error = inspect_response(6, &wire[..5]).unwrap_err();
    assert_eq!(error.message(), "malformed DNS response");
    let expected = Message::from_vec(&wire[..5]).unwrap_err();
    match error {
        ResponseError::Malformed { cause } => assert_eq!(cause.to_string(), expected.to_string()),
        other => panic!("{other:?}"),
    }
}

#[test]
fn what_is_no_message_is_malformed() {
    assert!(matches!(inspect_response(0, &[]), Err(ResponseError::Malformed { .. })));
    assert!(matches!(inspect_response(0, &[0; 11]), Err(ResponseError::Malformed { .. })));
    let names = parse_names(&["a.test".into()]).unwrap();
    let wire = build_query(3, &names[0], RecordType { code: 1 }, true, 1232).unwrap();
    assert!(matches!(inspect_response(3, &wire), Err(ResponseError::NotAResponse)));
    assert!(matches!(
        inspect_response(3, &wire[..wire.len() - 1]),
        Err(ResponseError::Malformed { .. })
    ));
}

#[test]
fn flags_and_codes_of_a_response_are_observed() {
    let name = Name::from_str("a.test.").unwrap();
    let mut reply = response(77);
    reply.metadata.response_code = ResponseCode::NXDomain;
    reply.metadata.truncation = true;
    reply.add_answer(Record::from_rdata(
        name.clone(),
        1,
        RData::A("192.0.2.1".parse().unwrap()),
    ));
    reply.set_edns(Edns::new());
    let seen = inspect_response(77, &reply.to_vec().unwrap()).unwrap();
    assert_eq!(seen.response_code, "NXDomain");
    assert!(seen.truncated);
    assert!(!seen.authenticated_data);
    assert_eq!(seen.dnssec_records, 0);
    let mut reply = response(77);
    reply.metadata.response_code = ResponseCode::BADVERS;
    reply.set_edns(Edns::new());
    let wire = reply.to_vec().unwrap();
    assert_eq!(wire[3] % 16, 0);
    let seen = inspect_response(77, &wire).unwrap();
    assert_ne!(seen.response_code, "NoError");
}

#[test]
fn records_are_observed_on_the_wire() {
    let mut wire = response(1).to_vec().unwrap();
    wire[7] = 1;
    wire.extend_from_slice(&[0, 0, 46, 0, 1, 0, 0, 0, 60, 0, 19]);
    wire.extend_from_slice(&[0, 1, 8, 0, 0, 0, 0, 60, 0, 0, 0, 1, 0, 0, 0, 0, 0, 9, 0]);
    let seen = inspect_response(1, &wire).unwrap();
    assert!(seen.rrsig_response);
    assert_eq!(seen.dnssec_records, 1);
}

#[test]
fn a_message_goes_after_its_length_on_tcp() {
    assert_eq!(length_prefix(&[]), Some(vec![0, 0]));
    assert_eq!(length_prefix(&[0; 258]), Some(vec![1, 2]));
    assert_eq!(length_prefix(&vec![0; 65535]), Some(vec![255, 255]));
    assert_eq!(length_prefix(&vec![0; 65536]), None);
}
