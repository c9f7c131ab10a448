use dnsblast::address::{parse_endpoint, Endpoint, Host};
use dnsblast::config::{
    parse_names, parse_record_types, parse_target, RecordType, RunConfig, RunLimit, Target,
    Transport,
};
use dnsblast::dns::{build_query, inspect_response};
use dnsblast::double::Double;
use dnsblast::error::ConfigError;
use dnsblast::report::rank_results;
use dnsblast::span::Span;
use dnsblast::stats::{Aggregate, TargetResult};
use hickory_proto::op::{Edns, Message, MessageType, OpCode, ResponseCode};
use hickory_proto::rr::{Name, RData, Record};
use std::str::FromStr;

fn record_type(known: hickory_proto::rr::RecordType) -> RecordType {
    RecordType { code: known.into() }
}

fn loopback() -> Endpoint {
    Endpoint { host: Host::V4(0x7f00_0001), scope: 0, port: 53 }
}

#[test]
fn ac2_target_and_query_plan_inputs_are_deterministic() {
    let target = parse_target("bind=127.0.0.1").unwrap();
    assert_eq!(target.label, "bind");
    let written: Vec<char> = "127.0.0.1:53".chars().collect();
    assert_eq!(target.address, parse_endpoint(&written).unwrap());
    assert_eq!(target.address, loopback());

    let types = parse_record_types(&["A,AAAA".into(), "A".into()]).unwrap();
    assert_eq!(
        types,
        vec![
            record_type(hickory_proto::rr::RecordType::A),
            record_type(hickory_proto::rr::RecordType::AAAA)
        ]
    );
    let numeric = parse_record_types(&["TYPE256,29".into()]).unwrap();
    assert_eq!(
        numeric,
        vec![
            record_type(hickory_proto::rr::RecordType::Unknown(256)),
            record_type(hickory_proto::rr::RecordType::Unknown(29))
        ]
    );
}

#[test]
fn ac3_all_preset_contains_dnssec_and_service_types() {
    let types = parse_record_types(&["ALL".into()]).unwrap();
    for required in [
        hickory_proto::rr::RecordType::A,
        hickory_proto::rr::RecordType::AAAA,
        hickory_proto::rr::RecordType::SRV,
        hickory_proto::rr::RecordType::DNSKEY,
        hickory_proto::rr::RecordType::DS,
        hickory_proto::rr::RecordType::RRSIG,
        hickory_proto::rr::RecordType::NSEC3,
    ] {
        assert!(types.contains(&record_type(required)), "ALL omitted {required}");
    }
}

#[test]
fn ac7_dnssec_query_sets_do_and_response_is_observed() {
    let names = parse_names(&["example.test.".into()]).unwrap();
    let name = Name::from_str("example.test.").unwrap();
    let wire = build_query(
        42,
        &names[0],
        record_type(hickory_proto::rr::RecordType::A),
        true,
        1232,
    )
    .unwrap();
    let parsed = Message::from_vec(&wire).unwrap();
    assert_eq!(parsed.metadata.id, 42);
    assert!(parsed.edns.as_ref().unwrap().flags().dnssec_ok);
    assert_eq!(parsed.edns.as_ref().unwrap().max_payload(), 1232);
    assert_eq!(parsed.queries[0].name(), &name);

    let mut response = Message::new(42, MessageType::Response, OpCode::Query);
    response.metadata.response_code = ResponseCode::NoError;
    response.metadata.authentic_data = true;
    response.set_edns(Edns::new());
    response.add_answer(Record::from_rdata(
        name,
        60,
        RData::A("192.0.2.1".parse().unwrap()),
    ));
    let observation = inspect_response(42, &response.to_vec().unwrap()).unwrap();
    assert!(observation.authenticated_data);
    assert_eq!(observation.response_code, "NoError");
}

#[test]
fn ac8_aggregation_is_bounded_and_percentiles_work() {
    let a = record_type(hickory_proto::rr::RecordType::A);
    let mut aggregate = Aggregate::new(&[a]).unwrap();
    aggregate.record_response(a, 100, 31, 80, "NoError", false, false, 0, false);
    aggregate.record_response(a, 300, 31, 80, "NXDomain", true, false, 0, false);
    let elapsed = Span { secs: 1, nanos: 0 };
    let rate = |responses: u64| Double { bits: (responses as f64 / 1.0).to_bits() };
    let qps = rate(aggregate.responses());
    let type_qps: Vec<Double> = aggregate.type_responses().into_iter().map(rate).collect();
    let summary = aggregate.finish(
        Target { label: "test".into(), address: loopback() },
        elapsed,
        qps,
        &type_qps,
    );
    assert_eq!(summary.attempts, 2);
    assert_eq!(summary.responses, 2);
    assert_eq!(summary.successes, 1);
    assert_eq!(summary.truncated, 1);
    assert_eq!(summary.latency.min_us, Some(100));
    assert_eq!(summary.latency.max_us, Some(300));
    assert_eq!(f64::from_bits(summary.qps.bits), 2.0);
}

#[test]
fn ac11_configuration_rejects_zero_concurrency() {
    let config = RunConfig {
        targets: vec![Target { label: "test".into(), address: loopback() }],
        names: parse_names(&["example.test.".into()]).unwrap(),
        record_types: vec![record_type(hickory_proto::rr::RecordType::A)],
        transport: Transport::Udp,
        limit: RunLimit::Requests(1),
        concurrency: 0,
        rate: None,
        timeout: Span { secs: 1, nanos: 0 },
        warmup: 0,
        dnssec: false,
        edns_payload: 1232,
        workers: 1,
        seed: 1,
    };
    assert!(config.validate().is_err());
    assert!(matches!(config.validate(), Err(ConfigError::ZeroConcurrency)));
}

#[test]
fn ac1_ranking_is_qps_descending_with_stable_ties() {
    let result = |label: &str, qps: f64| {
        TargetResult::empty(
            Target { label: label.into(), address: loopback() },
            Double { bits: qps.to_bits() },
        )
    };
    let ranking = rank_results(&[
        result("nsd", 9.0),
        result("bind", 10.0),
        result("mine", 10.0),
    ]);
    let labels: Vec<_> = ranking.iter().map(|entry| entry.target.as_str()).collect();
    assert_eq!(labels, vec!["bind", "mine", "nsd"]);
    let ranks: Vec<_> = ranking.iter().map(|entry| entry.rank).collect();
    assert_eq!(ranks, vec![1, 2, 3]);
}
