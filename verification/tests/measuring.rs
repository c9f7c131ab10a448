use dnsblast::address::{Endpoint, Host};
use dnsblast::cli::OutputFormat;
use dnsblast::config::{parse_names, RecordType, RunConfig, RunLimit, Target, Transport};
use dnsblast::dns::{ResponseError, ResponseObservation};
use dnsblast::double::Double;
use dnsblast::engine::{assemble, merge_shards, ConfigSnapshot, RunResult, Timestamp};
use dnsblast::plan::{plannable, select_query, transaction_id};
use dnsblast::report::{
    display_latency, probe_name, rank_results, render_human, temporary_name, validate_output,
    OutputError, OutputPlan, TargetTexts,
};
use dnsblast::span::Span;
use dnsblast::stats::{Aggregate, TargetResult};
use dnsblast::worker::{
    advance, connection_drops, next_sleep, prepare, record_observed, record_outcome, shard_count,
    warmup_workers, Outcome, WorkerEvent, WorkerState,
};
use hickory_proto::op::{Message, MessageType, OpCode};

const A: RecordType = RecordType { code: 1 };
const AAAA: RecordType = RecordType { code: 28 };
const AXFR: RecordType = RecordType { code: 252 };

fn target(label: &str) -> Target {
    Target {
        label: label.into(),
        address: Endpoint { host: Host::V4(0xc000_0201), scope: 0, port: 53 },
    }
}

fn config() -> RunConfig {
    RunConfig {
        targets: vec![target("bind")],
        names: parse_names(&["a.test".into(), "b.test".into(), "c.test".into()]).unwrap(),
        record_types: vec![A, AAAA],
        transport: Transport::Tcp,
        limit: RunLimit::Duration(Span { secs: 1, nanos: 500_000_000 }),
        concurrency: 4,
        rate: Some(10),
        timeout: Span { secs: 0, nanos: 250_000_000 },
        warmup: 3,
        dnssec: true,
        edns_payload: 1232,
        workers: 2,
        seed: 1,
    }
}

fn double(value: f64) -> Double {
    Double { bits: value.to_bits() }
}

fn finish(aggregate: Aggregate, label: &str, elapsed: Span) -> TargetResult {
    let seconds = elapsed.secs as f64 + f64::from(elapsed.nanos) / 1e9;
    let rate = |responses: u64| double(responses as f64 / seconds);
    let qps = rate(aggregate.responses());
    let type_qps: Vec<Double> = aggregate.type_responses().into_iter().map(rate).collect();
    aggregate.finish(target(label), elapsed, qps, &type_qps)
}

fn second() -> Span {
    Span { secs: 1, nanos: 0 }
}

fn observation() -> ResponseObservation {
    ResponseObservation {
        response_code: "NoError".into(),
        truncated: false,
        authenticated_data: true,
        rrsig_response: true,
        dnssec_records: 5,
    }
}

#[test]
fn the_plan_goes_through_every_combination() {
    let config = config();
    let mut seen: Vec<(Vec<u8>, u16)> = Vec::new();
    for index in 10..16 {
        let (name, record_type) = select_query(&config, index);
        seen.push((name.labels[0].clone(), record_type.code));
    }
    seen.sort();
    let all: Vec<(Vec<u8>, u16)> = [b"a", b"b", b"c"]
        .iter()
        .flat_map(|name| [(name.to_vec(), 1u16), (name.to_vec(), 28u16)])
        .collect();
    assert_eq!(seen, all);
}

#[test]
fn the_seed_is_an_offset_of_the_plan() {
    let mut config = config();
    let (name, record_type) = select_query(&config, 0);
    assert_eq!((name.labels[0].as_slice(), record_type), (&b"a"[..], AAAA));
    let (name, record_type) = select_query(&config, 1);
    assert_eq!((name.labels[0].as_slice(), record_type), (&b"b"[..], A));
    let (name, record_type) = select_query(&config, 7);
    assert_eq!((name.labels[0].as_slice(), record_type), (&b"b"[..], A));
    config.seed = u64::MAX;
    let (name, record_type) = select_query(&config, 1);
    assert_eq!((name.labels[0].as_slice(), record_type), (&b"a"[..], A));
}

#[test]
fn the_seed_rotates_the_plan_beyond_the_largest_index() {
    let mut config = config();
    config.seed = u64::MAX;
    let rotated: Vec<String> = (0..4)
        .map(|index| format!("{:?}", select_query(&config, index)))
        .collect();
    config.seed = 0;
    assert_eq!(rotated[0], format!("{:?}", select_query(&config, u64::MAX)));
    for index in 1..4u64 {
        assert_eq!(rotated[index as usize], format!("{:?}", select_query(&config, index - 1)));
    }
}

#[test]
fn identifiers_are_mixed_from_seed_worker_and_index() {
    assert_eq!(transaction_id(0, 0, 0), 0);
    assert_eq!(transaction_id(0, 0, 5), 5);
    assert_eq!(transaction_id(7, 0, 5), 12);
    assert_eq!(transaction_id(0, 1, 0), 0x79B9 ^ 0x9E37);
    assert_eq!(transaction_id(u64::MAX, 0, 0), 0xFFFF);
    assert_eq!(transaction_id(u64::MAX, 0, 1), 0);
    assert_eq!(transaction_id(0x0001_0002_0003_0004, 0, 0), 2 ^ 3 ^ 4);
}

#[test]
fn queries_are_prepared_from_the_plan() {
    let mut config = config();
    let prepared = prepare(&config, 3, 2);
    assert_eq!(prepared.id, transaction_id(1, 3, 2));
    assert_eq!(prepared.record_type, AAAA);
    let read = Message::from_vec(&prepared.wire.unwrap()).unwrap();
    assert_eq!(read.metadata.id, prepared.id);
    assert_eq!(read.queries[0].name().to_string(), "b.test.");
    assert_eq!(u16::from(read.queries[0].query_type()), 28);
    assert_eq!(read.edns.unwrap().max_payload(), 1232);
    assert!(plannable(&config));
    config.names = Vec::new();
    assert!(!plannable(&config));
}

#[test]
fn a_worker_takes_requests_until_the_limit() {
    let limit = RunLimit::Requests(2);
    let now = WorkerEvent::Looked { cancelled: false, elapsed: second() };
    let claim = |index| WorkerEvent::Claimed { index, due: second() };
    let state = advance(&limit, false, WorkerState::Looking, now);
    assert_eq!(state, WorkerState::Claiming);
    let state = advance(&limit, false, state, claim(1));
    assert_eq!(state, WorkerState::Sending { index: 1 });
    assert_eq!(advance(&limit, false, state, now), state);
    let state = advance(&limit, false, state, WorkerEvent::Settled);
    assert_eq!(state, WorkerState::Looking);
    let state = advance(&limit, false, WorkerState::Claiming, claim(2));
    assert_eq!(state, WorkerState::Stopped);
    assert_eq!(advance(&limit, false, state, now), WorkerState::Stopped);
    let cancelled = WorkerEvent::Looked { cancelled: true, elapsed: second() };
    assert_eq!(advance(&limit, false, WorkerState::Looking, cancelled), WorkerState::Stopped);
}

#[test]
fn a_worker_waits_and_stops_at_the_deadline() {
    let limit = RunLimit::Duration(second());
    let looked = |nanos| WorkerEvent::Looked { cancelled: false, elapsed: Span { secs: 0, nanos } };
    let due = Span { secs: 0, nanos: 400_000_000 };
    let state = advance(&limit, true, WorkerState::Claiming, WorkerEvent::Claimed { index: 4, due });
    assert_eq!(state, WorkerState::Pacing { index: 4, due });
    assert_eq!(advance(&limit, true, state, looked(399_999_999)), state);
    assert_eq!(
        advance(&limit, true, state, looked(400_000_000)),
        WorkerState::Sending { index: 4 }
    );
    let cancelled = WorkerEvent::Looked { cancelled: true, elapsed: due };
    assert_eq!(advance(&limit, true, state, cancelled), WorkerState::Stopped);
    let over = WorkerEvent::Looked { cancelled: false, elapsed: second() };
    assert_eq!(advance(&limit, true, state, over), WorkerState::Stopped);
    assert_eq!(advance(&limit, true, WorkerState::Looking, over), WorkerState::Stopped);
    assert_eq!(
        advance(&limit, true, WorkerState::Looking, looked(999_999_999)),
        WorkerState::Claiming
    );
    let late = WorkerEvent::Claimed { index: 9, due: second() };
    assert_eq!(advance(&limit, true, WorkerState::Claiming, late), WorkerState::Stopped);
    assert_eq!(
        advance(&limit, false, WorkerState::Claiming, late),
        WorkerState::Sending { index: 9 }
    );
}

#[test]
fn several_workers_send_exactly_the_requests() {
    for (workers, requests, paced) in [(1usize, 5u64, false), (3, 10, true), (8, 3, false)] {
        let limit = RunLimit::Requests(requests);
        let mut states = vec![WorkerState::Looking; workers];
        let mut next = 0u64;
        let mut sent: Vec<u64> = Vec::new();
        let mut turn = 0usize;
        while states.iter().any(|state| *state != WorkerState::Stopped) {
            turn = (turn * 7 + 3) % 11;
            let worker = turn % workers;
            let now = WorkerEvent::Looked { cancelled: false, elapsed: second() };
            let event = match states[worker] {
                WorkerState::Looking | WorkerState::Pacing { .. } => now,
                WorkerState::Claiming => {
                    next += 1;
                    WorkerEvent::Claimed { index: next - 1, due: second() }
                }
                WorkerState::Sending { index } => {
                    sent.push(index);
                    WorkerEvent::Settled
                }
                WorkerState::Stopped => {
                    turn += 1;
                    now
                }
            };
            states[worker] = advance(&limit, paced, states[worker], event);
        }
        sent.sort();
        let every: Vec<u64> = (0..requests).collect();
        assert_eq!(sent, every);
    }
}

#[test]
fn a_rate_bounds_the_queries_of_a_duration() {
    for (rate, millis, bound) in [(10u64, 1000u64, 10usize), (10, 1001, 11), (100, 160, 16), (1, 20, 1)] {
        let limit = RunLimit::Duration(Span {
            secs: millis / 1000,
            nanos: (millis % 1000) as u32 * 1_000_000,
        });
        let mut states = vec![WorkerState::Looking; 3];
        let (mut next, mut now) = (0u64, 0u64);
        let mut sent: Vec<(u64, u64)> = Vec::new();
        while states.iter().any(|state| *state != WorkerState::Stopped) {
            for state in states.iter_mut() {
                let at = |nanos: u64| Span {
                    secs: nanos / 1_000_000_000,
                    nanos: (nanos % 1_000_000_000) as u32,
                };
                let event = match *state {
                    WorkerState::Claiming => {
                        next += 1;
                        let due = ((next - 1) * 1_000_000_000).div_ceil(rate);
                        WorkerEvent::Claimed { index: next - 1, due: at(due) }
                    }
                    WorkerState::Sending { index } => {
                        sent.push((index, now));
                        WorkerEvent::Settled
                    }
                    _ => WorkerEvent::Looked { cancelled: false, elapsed: at(now) },
                };
                *state = advance(&limit, true, *state, event);
            }
            now += 500_000;
        }
        assert_eq!(sent.len(), bound);
        for (index, when) in sent {
            assert!(when * rate >= index * 1_000_000_000);
        }
    }
}

#[test]
fn connections_are_dropped_after_failures_and_transfers() {
    assert!(!connection_drops(AXFR, 1, &Outcome::Unbuilt));
    assert!(connection_drops(A, 1, &Outcome::TimedOut { sent: 40 }));
    assert!(connection_drops(A, 1, &Outcome::Failed { sent: 40 }));
    let wire = Message::new(9, MessageType::Response, OpCode::Query).to_vec().unwrap();
    let answered = Outcome::Answered { sent: 42, latency_us: 500, wire };
    assert!(!connection_drops(A, 9, &answered));
    assert!(connection_drops(A, 8, &answered));
    assert!(connection_drops(AXFR, 9, &answered));
    assert!(connection_drops(RecordType { code: 251 }, 9, &answered));
    let garbage = Outcome::Answered { sent: 43, latency_us: 1, wire: vec![1, 2, 3] };
    assert!(connection_drops(A, 8, &garbage));
}

#[test]
fn counters_of_record_types_add_up() {
    let mut aggregate = Aggregate::new(&[A, AAAA, AXFR]).unwrap();
    for i in 0..90u64 {
        let record_type = [A, AAAA, AXFR][(i % 3) as usize];
        match i % 7 {
            0 => aggregate.record_timeout(record_type, i),
            1 => aggregate.record_error(record_type, i),
            _ => aggregate.record_response(record_type, i, i, i, "NoError", false, false, 0, false),
        }
    }
    let result = finish(aggregate, "x", second());
    let values = &result.by_record_type.values;
    assert_eq!(result.attempts, 90);
    assert_eq!(result.attempts, values.iter().map(|value| value.attempts).sum::<u64>());
    assert_eq!(result.responses, values.iter().map(|value| value.responses).sum::<u64>());
    assert_eq!(result.successes, values.iter().map(|value| value.successes).sum::<u64>());
    assert_eq!(result.timeouts, values.iter().map(|value| value.timeouts).sum::<u64>());
    assert_eq!(result.errors, values.iter().map(|value| value.errors).sum::<u64>());
    assert_eq!(result.attempts, result.responses + result.timeouts + result.errors);
}

#[test]
fn failures_leave_latencies_as_they_are() {
    let mut answered = Aggregate::new(&[A, AAAA]).unwrap();
    let mut mixed = Aggregate::new(&[A, AAAA]).unwrap();
    for latency in [300u64, 100, 200] {
        mixed.record_timeout(A, 9);
        mixed.record_error(AAAA, 9);
        for aggregate in [&mut answered, &mut mixed] {
            aggregate.record_response(A, latency, 1, 1, "NoError", false, false, 0, false);
        }
    }
    let answered = finish(answered, "x", second());
    let mixed = finish(mixed, "x", second());
    assert_eq!(format!("{:?}", mixed.latency), format!("{:?}", answered.latency));
    assert_eq!(mixed.latency.min_us, Some(100));
    assert_eq!(mixed.by_record_type.values[0].latency.max_us, Some(300));
    assert_eq!(mixed.by_record_type.values[1].latency.min_us, None);
    assert!(mixed.by_record_type.values[1].latency.mean_us.is_none());
}

#[test]
fn a_waiting_worker_looks_again_every_25_milliseconds() {
    let now = Span { secs: 3, nanos: 990_000_000 };
    let due = Span { secs: 9, nanos: 0 };
    assert_eq!(
        next_sleep(false, &now, &due),
        Some(Span { secs: 4, nanos: 15_000_000 })
    );
    let soon = Span { secs: 4, nanos: 0 };
    assert_eq!(next_sleep(false, &now, &soon), Some(soon));
    assert_eq!(next_sleep(true, &now, &due), None);
    assert_eq!(next_sleep(false, &due, &due), None);
    assert_eq!(next_sleep(false, &due, &now), None);
}

#[test]
fn workers_and_shards_are_bounded() {
    assert_eq!(warmup_workers(4, 2), 2);
    assert_eq!(warmup_workers(4, 9), 4);
    assert_eq!(warmup_workers(4, 0), 0);
    assert_eq!(shard_count(8, 512), 8);
    assert_eq!(shard_count(8, 3), 3);
    assert_eq!(shard_count(0, 3), 1);
    assert_eq!(shard_count(3, 0), 1);
}

#[test]
fn every_outcome_is_counted_once() {
    let mut aggregate = Aggregate::new(&[A, AXFR]).unwrap();
    assert!(!record_outcome(&mut aggregate, A, 1, Outcome::Unbuilt));
    assert!(!record_outcome(&mut aggregate, AXFR, 1, Outcome::Unbuilt));
    assert!(record_outcome(&mut aggregate, A, 1, Outcome::TimedOut { sent: 40 }));
    assert!(record_outcome(&mut aggregate, A, 1, Outcome::Failed { sent: 41 }));
    let wire = Message::new(9, MessageType::Response, OpCode::Query).to_vec().unwrap();
    let answered = || Outcome::Answered { sent: 42, latency_us: 500, wire: wire.clone() };
    assert!(!record_outcome(&mut aggregate, A, 9, answered()));
    assert!(record_outcome(&mut aggregate, AXFR, 9, answered()));
    assert!(record_outcome(&mut aggregate, A, 8, answered()));
    let garbage = Outcome::Answered { sent: 43, latency_us: 1, wire: vec![1, 2, 3] };
    assert!(record_outcome(&mut aggregate, A, 8, garbage));
    let result = finish(aggregate, "x", second());
    assert_eq!(result.attempts, 8);
    assert_eq!(result.responses, 2);
    assert_eq!(result.successes, 2);
    assert_eq!(result.timeouts, 1);
    assert_eq!(result.errors, 5);
    assert_eq!(result.bytes_sent, 40 + 41 + 42 * 3 + 43);
    assert_eq!(result.bytes_received, 24);
    assert_eq!(result.by_record_type.labels, vec!["A", "AXFR"]);
    assert_eq!(result.by_record_type.values[0].attempts, 6);
    assert_eq!(result.by_record_type.values[0].responses, 1);
    assert_eq!(result.by_record_type.values[1].attempts, 2);
}

#[test]
fn observations_are_counted() {
    let mut aggregate = Aggregate::new(&[A]).unwrap();
    assert!(!record_observed(&mut aggregate, A, 30, 100, 90, Ok(observation())));
    assert!(record_observed(&mut aggregate, AXFR, 30, 100, 90, Ok(observation())));
    let refused = Err(ResponseError::NotAResponse);
    assert!(record_observed(&mut aggregate, A, 30, 100, 90, refused));
    let result = finish(aggregate, "x", second());
    assert_eq!(result.authenticated_data, 2);
    assert_eq!(result.rrsig_responses, 2);
    assert_eq!(result.dnssec_records, 10);
    assert_eq!(result.truncated, 0);
    assert_eq!(result.errors, 1);
    assert_eq!(result.bytes_received, 180);
    assert_eq!(result.by_record_type.values[0].responses, 1);
}

#[test]
fn latencies_are_summarised_in_ascending_order() {
    let mut aggregate = Aggregate::new(&[A]).unwrap();
    for latency in 1..=1000u64 {
        aggregate.record_response(A, latency, 1, 1, "NoError", false, false, 0, false);
    }
    let result = finish(aggregate, "x", Span { secs: 0, nanos: 500_000_000 });
    let latency = result.latency;
    assert_eq!(latency.min_us, Some(1));
    assert_eq!(latency.p50_us, Some(500));
    assert_eq!(latency.p95_us, Some(950));
    assert_eq!(latency.p99_us, Some(990));
    assert_eq!(latency.max_us, Some(1000));
    let mean = f64::from_bits(latency.mean_us.unwrap().bits);
    assert_eq!(mean, 500.5);
    assert_eq!(f64::from_bits(result.qps.bits), 2000.0);
    assert_eq!(result.elapsed_ms, 500);
}

#[test]
fn the_median_of_two_latencies_is_the_lower() {
    let mut aggregate = Aggregate::new(&[A]).unwrap();
    aggregate.record_response(A, 100, 1, 1, "NoError", false, false, 0, false);
    aggregate.record_response(A, 300, 1, 1, "NoError", false, false, 0, false);
    let latency = finish(aggregate, "x", second()).latency;
    assert_eq!(latency.p50_us, Some(100));
    assert_eq!(latency.p95_us, Some(300));
    assert_eq!(latency.p99_us, Some(300));
}

#[test]
fn latencies_out_of_range_are_clamped_and_counted() {
    let mut aggregate = Aggregate::new(&[A]).unwrap();
    aggregate.record_response(A, 0, 1, 1, "NoError", false, false, 0, false);
    aggregate.record_response(A, u64::MAX, 1, 1, "NoError", false, false, 0, false);
    let result = finish(aggregate, "x", second());
    assert_eq!(result.responses, 2);
    assert_eq!(result.latency.min_us, Some(1));
    let highest = result.latency.max_us.unwrap();
    assert!((60_000_000..60_000_000 + 32_768).contains(&highest), "{highest}");
}

#[test]
fn larger_latencies_are_counted_in_groups() {
    let mut aggregate = Aggregate::new(&[A]).unwrap();
    aggregate.record_response(A, 4097, 1, 1, "NoError", false, false, 0, false);
    let result = finish(aggregate, "x", second());
    assert_eq!(result.latency.min_us, Some(4096));
    assert_eq!(result.latency.p50_us, Some(4099));
    assert_eq!(result.latency.max_us, Some(4099));
}

#[test]
fn counters_stay_at_their_largest_value() {
    let mut aggregate = Aggregate::new(&[A]).unwrap();
    aggregate.record_timeout(A, u64::MAX);
    aggregate.record_timeout(A, 5);
    aggregate.record_response(A, 9, 1, u64::MAX, "Refused", false, false, u64::MAX, false);
    aggregate.record_response(A, 9, 1, 1, "Refused", false, false, 1, false);
    let result = finish(aggregate, "x", second());
    assert_eq!(result.bytes_sent, u64::MAX);
    assert_eq!(result.bytes_received, u64::MAX);
    assert_eq!(result.dnssec_records, u64::MAX);
    assert_eq!(result.timeouts, 2);
    assert_eq!(result.successes, 0);
    assert_eq!(result.response_codes.labels, vec!["Refused"]);
    assert_eq!(result.response_codes.values, vec![2]);
}

#[test]
fn no_time_has_no_rate() {
    let mut aggregate = Aggregate::new(&[A]).unwrap();
    aggregate.record_response(A, 9, 1, 1, "NoError", false, false, 0, false);
    let result = aggregate.finish(target("x"), Span { secs: 0, nanos: 0 }, double(7.0), &[double(8.0)]);
    assert_eq!(result.qps, double(0.0));
    assert_eq!(result.by_record_type.values[0].qps, double(0.0));
    assert_eq!(result.elapsed_ms, 0);
}

#[test]
fn shards_hold_what_one_aggregate_would() {
    let types = [AAAA, A, A];
    let mut one = Aggregate::new(&types).unwrap();
    let mut shards: Vec<Aggregate> = (0..3).map(|_| Aggregate::new(&types).unwrap()).collect();
    for i in 0..60u64 {
        let record_type = if i % 3 == 0 { A } else { AAAA };
        let code = ["NoError", "NXDomain", "ServFail", "BADCOOKIE"][(i % 4) as usize];
        for aggregate in [&mut one, &mut shards[(i % 7 % 3) as usize]] {
            match i % 5 {
                0 => aggregate.record_timeout(record_type, i),
                1 => aggregate.record_error(record_type, i),
                _ => aggregate.record_response(
                    record_type,
                    i * i * 50,
                    i,
                    2 * i,
                    code,
                    i % 2 == 0,
                    i % 3 == 0,
                    i,
                    i % 4 == 0,
                ),
            }
        }
    }
    let parts: Vec<&Aggregate> = shards.iter().collect();
    let merged = merge_shards(&types, &parts).unwrap();
    let whole = format!("{:?}", finish(one, "x", second()));
    assert_eq!(format!("{:?}", finish(merged, "x", second())), whole);
    let reversed: Vec<&Aggregate> = shards.iter().rev().collect();
    let merged = merge_shards(&types, &reversed).unwrap();
    assert_eq!(format!("{:?}", finish(merged, "x", second())), whole);
}

#[test]
fn samples_of_other_types_count_only_in_total() {
    let mut left = Aggregate::new(&[A]).unwrap();
    let mut right = Aggregate::new(&[AAAA]).unwrap();
    right.record_response(AAAA, 10, 1, 1, "NoError", false, false, 0, false);
    left.record_timeout(AAAA, 3);
    left.merge(&right).unwrap();
    let result = finish(left, "x", second());
    assert_eq!(result.attempts, 2);
    assert_eq!(result.responses, 1);
    assert_eq!(result.by_record_type.labels, vec!["A"]);
    assert_eq!(result.by_record_type.values[0].attempts, 0);
}

#[test]
fn doubles_are_ordered_as_their_values() {
    let values = [
        f64::NEG_INFINITY, -1e300, -2.5, -1.0, -5e-324, -0.0, 0.0, 5e-324, 0.5, 1.0, 9.0, 10.0, 1e300,
        f64::INFINITY,
    ];
    for left in values {
        for right in values {
            assert_eq!(
                Some(double(left).order_key().cmp(&double(right).order_key())),
                left.partial_cmp(&right)
            );
        }
        assert!(!double(left).nan());
    }
    assert!(double(f64::NAN).nan());
    assert!(double(-f64::NAN).nan());
}

#[test]
fn ties_are_broken_by_label() {
    let result = |label: &str, qps: f64| TargetResult::empty(target(label), double(qps));
    let ranking = rank_results(&[
        result("b", -0.0),
        result("a", 0.0),
        result("Z", 0.0),
        result("é", 1e9),
        result("ab", 0.0),
    ]);
    let labels: Vec<_> = ranking.iter().map(|entry| entry.target.as_str()).collect();
    assert_eq!(labels, vec!["é", "Z", "a", "ab", "b"]);
    assert_eq!(ranking[4].rank, 5);
    assert!(rank_results(&[]).is_empty());
}

#[test]
fn the_ranking_does_not_depend_on_the_order_of_results() {
    let result = |label: &str, qps: f64| TargetResult::empty(target(label), double(qps));
    let forward = [result("a", 1.0), result("b", 3.0), result("c", 3.0), result("d", 2.0)];
    let backward = [result("d", 2.0), result("c", 3.0), result("b", 3.0), result("a", 1.0)];
    let ranking = format!("{:?}", rank_results(&forward));
    assert_eq!(format!("{:?}", rank_results(&backward)), ranking);
    let labels: Vec<_> = rank_results(&backward).into_iter().map(|entry| entry.target).collect();
    assert_eq!(labels, vec!["b", "c", "d", "a"]);
}

#[test]
fn the_snapshot_shows_the_configuration() {
    let mut used = config();
    used.record_types.push(RecordType { code: 256 });
    let snapshot = ConfigSnapshot::from(&used);
    assert_eq!(snapshot.targets[0].label, "bind");
    assert_eq!(snapshot.names, vec!["a.test.", "b.test.", "c.test."]);
    assert_eq!(snapshot.record_types, vec!["A", "AAAA", "TYPE256"]);
    assert_eq!(snapshot.transport, "tcp");
    assert_eq!(snapshot.requests, None);
    assert_eq!(snapshot.duration_ms, Some(1500));
    assert_eq!(snapshot.timeout_ms, 250);
    assert_eq!(snapshot.rate, Some(10));
    used.limit = RunLimit::Requests(8);
    used.transport = Transport::Udp;
    let snapshot = ConfigSnapshot::from(&used);
    assert_eq!((snapshot.requests, snapshot.duration_ms), (Some(8), None));
    assert_eq!(snapshot.transport, "udp");
}

fn run() -> RunResult {
    let mut aggregate = Aggregate::new(&[A, AAAA]).unwrap();
    aggregate.record_response(A, 91, 30, 60, "NoError", false, true, 2, true);
    aggregate.record_response(AAAA, 420, 30, 60, "NXDomain", true, false, 0, false);
    aggregate.record_timeout(AAAA, 30);
    let mut busy = finish(aggregate, "nsd", Span { secs: 1, nanos: 0 });
    busy.target.address.host = Host::V6(0x2001_0db8_0000_0000_0000_0000_0000_0053);
    let idle = TargetResult::empty(target("bind"), double(0.0));
    assemble(Timestamp { secs: 1_784_829_600, nanos: 0 }, &config(), vec![busy, idle], true)
}

fn texts(elapsed: &str, qps: &str, type_qps: &[&str]) -> TargetTexts {
    TargetTexts {
        elapsed: elapsed.into(),
        qps: qps.into(),
        type_qps: type_qps.iter().map(|text| text.to_string()).collect(),
    }
}

#[test]
fn a_run_is_assembled_in_order() {
    let run = run();
    assert_eq!(run.schema_version, 1);
    let labels: Vec<_> = run.results.iter().map(|item| item.target.label.as_str()).collect();
    assert_eq!(labels, vec!["bind", "nsd"]);
    let ranked: Vec<_> = run.ranking.iter().map(|entry| entry.target.as_str()).collect();
    assert_eq!(ranked, vec!["nsd", "bind"]);
    assert!(run.interrupted);
}

#[test]
fn the_table_is_written_line_by_line() {
    let run = run();
    let shown = render_human(
        &run,
        &[
            texts("0.000", "0.00", &[]),
            texts("1.000", "2.00", &["1.00", "1.50"]),
        ],
    );
    let expected = [
        "DNSBlast comparison — 2 target(s), TCP, 2026-07-23T18:00:00+00:00",
        "RANK TARGET                     QPS   ATTEMPTS      RESP        OK   TIMEOUT      ERROR    P50(us)    P99(us)",
        "1    nsd                       2.00          3         2         1         1          0         91        420",
        "2    bind                      0.00          0         0         0         0          0          -          -",
        "",
        "bind (192.0.2.1:53) — elapsed 0.000s, bytes sent/received 0/0, TC 0, AD 0, RRSIG responses 0, DNSSEC records 0",
        "  response codes: none",
        "",
        "nsd ([2001:db8::53]:53) — elapsed 1.000s, bytes sent/received 90/120, TC 1, AD 1, RRSIG responses 1, DNSSEC records 2",
        "  response codes: NXDomain=1, NoError=1",
        "  TYPE                QPS   ATTEMPTS       RESP    P50(us)    P99(us)",
        "  A                  1.00          1          1         91         91",
        "  AAAA               1.50          2          1        420        420",
        "",
        "Run interrupted; partial completed results shown.",
        "",
    ]
    .join("\n");
    assert_eq!(shown, expected);
}

#[test]
fn a_long_label_widens_its_column() {
    let label = "a-label-of-more-than-eighteen-letters";
    let result = TargetResult::empty(target(label), double(1.0));
    let run = assemble(Timestamp { secs: 0, nanos: 1_000_000 }, &config(), vec![result], false);
    let shown = render_human(&run, &[texts("0.000", "1.00", &[])]);
    let row = format!("1    {label}        1.00          0");
    assert!(shown.contains(&row), "{shown}");
    assert!(shown.contains("1970-01-01T00:00:00.001+00:00"), "{shown}");
    assert!(!shown.contains("interrupted"));
}

#[test]
fn moments_reach_as_far_as_the_calendar() {
    let first = chrono::DateTime::<chrono::Utc>::MIN_UTC;
    let last = chrono::DateTime::<chrono::Utc>::MAX_UTC;
    assert_eq!(first.timestamp(), -8_334_601_228_800);
    assert_eq!(last.timestamp(), 8_210_266_876_799);
    for moment in [first, last] {
        let stamp = Timestamp { secs: moment.timestamp(), nanos: moment.timestamp_subsec_nanos() };
        let run = assemble(stamp, &config(), Vec::new(), false);
        let shown = render_human(&run, &[]);
        assert!(shown.contains(&moment.to_rfc3339()), "{shown}");
    }
}

#[test]
fn latencies_that_are_missing_are_shown_as_a_dash() {
    assert_eq!(display_latency(None), "-");
    assert_eq!(display_latency(Some(0)), "0");
    assert_eq!(display_latency(Some(u64::MAX)), "18446744073709551615");
}

#[test]
fn outputs_go_where_their_format_says() {
    let file = Some(std::path::PathBuf::from("run.json"));
    assert_eq!(validate_output(OutputFormat::Stdout, &None), Ok(OutputPlan::PrintTable));
    assert_eq!(validate_output(OutputFormat::Json, &None), Ok(OutputPlan::PrintJson));
    assert_eq!(validate_output(OutputFormat::Json, &file), Ok(OutputPlan::WriteJson));
    assert_eq!(validate_output(OutputFormat::Log, &file), Ok(OutputPlan::WriteTable));
    let error = validate_output(OutputFormat::Stdout, &file).unwrap_err();
    assert_eq!(error, OutputError::UnexpectedFile);
    assert_eq!(
        error.message(),
        "--output-file is supported with --output json or --output log"
    );
    let error = validate_output(OutputFormat::Log, &None).unwrap_err();
    assert_eq!(error, OutputError::MissingFile);
    assert_eq!(error.message(), "--output log requires --output-file PATH");
}

#[test]
fn files_beside_the_output_have_names_of_their_own() {
    assert_eq!(probe_name(4711), ".dnsblast-write-test-4711");
    assert_eq!(temporary_name("run-01.json", 42), ".run-01.json.42.tmp");
}
