use dnsblast::address::{bind_address, parse_endpoint, parse_ipv4, parse_ipv6, Endpoint, Host};
use dnsblast::cli::{Cli, OutputFormat};
use dnsblast::config::{
    add_name, all_record_types, parse_names, parse_record_types, parse_target, parse_targets, read_names,
    record_type_label, RecordType, RunConfig, RunLimit, Transport,
};
use dnsblast::error::ConfigError;
use dnsblast::names::DnsName;
use dnsblast::record_type::{add_type, check_question, label_with};
use dnsblast::span::{plain_duration, Span};
use hickory_proto::rr::rdata::{A, AAAA};
use std::str::FromStr;

fn chars(text: &str) -> Vec<char> {
    text.chars().collect()
}

fn cli() -> Cli {
    Cli {
        servers: vec!["a=192.0.2.1".into()],
        names: vec!["example.test".into()],
        names_file: None,
        record_types: vec!["A".into()],
        transport: Transport::Udp,
        requests: None,
        duration: None,
        concurrency: 32,
        rate: None,
        timeout: "2s".into(),
        warmup: 0,
        dnssec: false,
        edns_payload: 1232,
        workers: 4,
        seed: 0,
        output: OutputFormat::Stdout,
        output_file: None,
    }
}

fn refused(cli: &Cli) -> ConfigError {
    match RunConfig::from_cli(cli, None) {
        Ok(_) => panic!("accepted"),
        Err(error) => error,
    }
}

#[test]
fn addresses_agree_with_the_standard_parser() {
    let samples = [
        "127.0.0.1", "0.0.0.0", "255.255.255.255", "256.0.0.1", "1.2.3", "1.2.3.4.5", "01.2.3.4",
        "1.2.3.04", "1..2.3", "", " 1.2.3.4", "1.2.3.4 ", "::", "::1", "1::", "2001:db8::53",
        "1:2:3:4:5:6:7:8", "1:2:3:4:5:6:7", "1:2:3:4:5:6:7:8:9", "1::2::3", "::ffff:192.0.2.1",
        "1:2:3:4:5:6:192.0.2.1", "1:2:3:4:5:6:7:192.0.2.1", "12345::", "g::", "fe80::1%1", ":::",
        "1:2:3:4:5:6:7::", "::2:3:4:5:6:7:8", "1::3:4:5:6:7:8", "1:2:3:4::5:6:7:8", "ABCD::ef01",
        ":1", "1:", "192.0.2.1::", "::1.2.3.4.5", "::1.2.3", "0000::0001", "00000::1",
    ];
    for sample in samples {
        let v4: Option<u32> = A::from_str(sample).ok().map(|read| u32::from(read.0));
        assert_eq!(parse_ipv4(&chars(sample)), v4, "{sample:?}");
        let v6: Option<u128> = AAAA::from_str(sample).ok().map(|read| u128::from(read.0));
        assert_eq!(parse_ipv6(&chars(sample)), v6, "{sample:?}");
    }
}

#[test]
fn endpoints_are_addresses_with_or_without_a_port() {
    let v4 = |port| Some(Endpoint { host: Host::V4(0x7f00_0001), scope: 0, port });
    let v6 = |bits, scope, port| Some(Endpoint { host: Host::V6(bits), scope, port });
    let link_local = 0xfe80_0000_0000_0000_0000_0000_0000_0001;
    let samples = [
        ("127.0.0.1:53", v4(53)),
        ("127.0.0.1:0", v4(0)),
        ("127.0.0.1:65535", v4(65535)),
        ("127.0.0.1:65536", None),
        ("127.0.0.1:", None),
        ("127.0.0.1:+5", None),
        ("127.0.0.1:000053", v4(53)),
        ("127.0.0.1", v4(53)),
        ("[::1]:5353", v6(1, 0, 5353)),
        ("[::1]", None),
        ("::1", v6(1, 0, 53)),
        ("[::1]:", None),
        ("[::1]:99999", None),
        ("[fe80::1%3]:53", v6(link_local, 3, 53)),
        ("[fe80::1%]:53", None),
        ("[fe80::1%4294967295]:53", v6(link_local, 4_294_967_295, 53)),
        ("[fe80::1%4294967296]:53", None),
        ("fe80::1%3", None),
        ("[1.2.3.4]:53", None),
        ("::1:53", v6(0x1_0053, 0, 53)),
        ("[]:53", None),
        ("[::1]53", None),
        ("[::1]:53 ", None),
        ("[::ffff:1.2.3.4]:5353", v6(0xffff_0102_0304, 0, 5353)),
        ("localhost:53", None),
        ("", None),
    ];
    for (sample, expected) in samples {
        assert_eq!(parse_endpoint(&chars(sample)), expected, "{sample:?}");
    }
}

#[test]
fn sockets_are_bound_in_the_family_of_the_target() {
    let v4 = parse_endpoint(&chars("192.0.2.1")).unwrap();
    let v6 = parse_endpoint(&chars("[2001:db8::1]:5353")).unwrap();
    assert_eq!(bind_address(&v4), "0.0.0.0:0");
    assert_eq!(bind_address(&v6), "[::]:0");
}

#[test]
fn servers_need_a_label_and_an_address() {
    let target = parse_target(" my server = 1").unwrap_err();
    assert_eq!(
        target.message(),
        "invalid server address \" 1\"; use an IP, IPv4:port, or [IPv6]:port"
    );
    let target = parse_target("  bind\t=[2001:db8::1]:5300").unwrap();
    assert_eq!(target.label, "bind");
    assert_eq!(target.address.port, 5300);
    let error = parse_target("192.0.2.1").unwrap_err();
    assert_eq!(
        error.message(),
        "invalid server \"192.0.2.1\"; expected LABEL=IP[:PORT]"
    );
    let error = parse_target(" \u{3000}=192.0.2.1").unwrap_err();
    assert_eq!(
        error.message(),
        "server label cannot be empty in \" \\u{3000}=192.0.2.1\""
    );
    let error = parse_target("a=b=192.0.2.1").unwrap_err();
    assert!(matches!(error, ConfigError::InvalidAddress { ref address } if address == "b=192.0.2.1"));
}

#[test]
fn labels_differ_in_capital_and_small_letters_alike() {
    let servers = ["bind=192.0.2.1".to_string(), "BIND=192.0.2.2".to_string()];
    let error = parse_targets(&servers).unwrap_err();
    assert_eq!(error.message(), "duplicate server label \"BIND\"");
    let servers = ["a=192.0.2.1".to_string(), "b=192.0.2.1".to_string()];
    let targets = parse_targets(&servers).unwrap();
    assert_eq!(targets.len(), 2);
    assert_eq!(targets[1].label, "b");
    let servers = ["a=192.0.2.1".to_string(), "x".to_string(), "a=192.0.2.1".to_string()];
    assert!(matches!(parse_targets(&servers), Err(ConfigError::MalformedServer { .. })));
}

#[test]
fn names_files_hold_one_name_on_each_line() {
    let mut names = vec!["first.test".to_string()];
    read_names("\n# comment\r\n  a.test \r\n\tb.test.\n   \n #c.test\nd.test#\n", &mut names);
    assert_eq!(names, vec!["first.test", "a.test", "b.test.", "d.test#"]);
    let mut none: Vec<String> = Vec::new();
    read_names("# nothing\n\n   # here\n", &mut none);
    assert!(none.is_empty());
}

#[test]
fn names_are_read_once_each_in_the_order_of_their_first_appearance() {
    let names = parse_names(&[
        "b.test".into(),
        "a.test.".into(),
        "B.TEST.".into(),
        "a.test".into(),
    ])
    .unwrap();
    assert_eq!(names.len(), 2);
    assert_eq!(names[0].labels, vec![b"b".to_vec(), b"test".to_vec()]);
    assert_eq!(names[1].labels, vec![b"a".to_vec(), b"test".to_vec()]);
    assert!(names[0].fqdn && names[1].fqdn);
    let error = parse_names(&["ok.test".into(), "bad..name".into()]).unwrap_err();
    assert_eq!(error.message(), "invalid DNS name \"bad..name\"");
    assert!(parse_names(&["x".repeat(64)]).is_err());
}

#[test]
fn record_types_are_read_from_names_and_numbers() {
    let codes = |groups: &[&str]| -> Vec<u16> {
        let groups: Vec<String> = groups.iter().map(|group| group.to_string()).collect();
        parse_record_types(&groups).unwrap().iter().map(|read| read.code).collect()
    };
    assert_eq!(codes(&["a, aaaa ,,Mx", "type15,+16,TYPE1"]), vec![1, 28, 15, 16]);
    assert_eq!(codes(&["65535,type65534,*"]), vec![65535, 65534, 255]);
    let all = all_record_types();
    assert_eq!(all.len(), 36);
    let everything = codes(&["txt,all"]);
    assert_eq!(everything.len(), 36);
    assert_eq!(everything[0], 16);
    assert_eq!(everything[1], 1);
    assert_eq!(everything[35], 250);
}

#[test]
fn record_types_that_cannot_be_asked_for_are_refused() {
    let error = |group: &str| parse_record_types(&[group.to_string()]).unwrap_err();
    assert_eq!(error("TYPEx").message(), "invalid numeric DNS record type \"TYPEx\"");
    assert_eq!(error("type").message(), "invalid numeric DNS record type \"type\"");
    assert_eq!(error("TYPE65536").message(), "invalid numeric DNS record type \"TYPE65536\"");
    assert_eq!(error("nonsense").message(), "invalid DNS record type \"nonsense\"");
    assert_eq!(error("65536").message(), "invalid DNS record type \"65536\"");
    assert_eq!(
        error("type41").message(),
        "record type \"type41\" cannot be used as a standalone question"
    );
    assert!(matches!(error("0"), ConfigError::NotAQuestion { .. }));
    assert_eq!(error(" , ,").message(), "at least one DNS record type is required");
    assert!(matches!(parse_record_types(&[]), Err(ConfigError::NoRecordType)));
    assert!(matches!(error("A,BOGUS,TYPEx"), ConfigError::UnknownType { .. }));
}

#[test]
fn record_types_are_labelled_by_name_or_number() {
    assert_eq!(record_type_label(RecordType { code: 1 }), "A");
    assert_eq!(record_type_label(RecordType { code: 65 }), "HTTPS");
    assert_eq!(record_type_label(RecordType { code: 256 }), "TYPE256");
    assert_eq!(record_type_label(RecordType { code: 65534 }), "TYPE65534");
}

#[test]
fn record_types_are_checked_and_added_once() {
    let mut types = vec![RecordType { code: 1 }];
    add_type(&mut types, RecordType { code: 28 });
    add_type(&mut types, RecordType { code: 1 });
    assert_eq!(types, vec![RecordType { code: 1 }, RecordType { code: 28 }]);
    let asked = check_question(&chars("MX"), RecordType { code: 15 }).unwrap();
    assert_eq!(asked.code, 15);
    let refused = check_question(&chars("x"), RecordType { code: 41 }).unwrap_err();
    assert!(matches!(refused, ConfigError::NotAQuestion { ref raw } if raw == "x"));
    assert_eq!(label_with(Some("MX".into()), 15), "MX");
    assert_eq!(label_with(None, 999), "TYPE999");
}

#[test]
fn names_are_added_once_in_any_letters() {
    let name = |label: &str| DnsName { labels: vec![label.into()], fqdn: true };
    let (mut list, mut seen) = (Vec::new(), Vec::new());
    add_name(&mut list, &mut seen, name("a"), "A.");
    add_name(&mut list, &mut seen, name("b"), "a.");
    add_name(&mut list, &mut seen, name("c"), "c.");
    assert_eq!(list.len(), 2);
    assert_eq!(list[1].labels, vec![b"c".to_vec()]);
    assert_eq!(seen, vec![vec!['a', '.'], vec!['c', '.']]);
}

#[test]
fn the_default_run_makes_a_thousand_requests() {
    let config = RunConfig::from_cli(&cli(), None).unwrap();
    assert_eq!(config.limit, RunLimit::Requests(1000));
    assert_eq!(config.timeout, Span { secs: 2, nanos: 0 });
    assert_eq!(config.concurrency, 32);
    assert_eq!(config.targets.len(), 1);
    assert_eq!(config.names.len(), 1);
    assert_eq!(config.record_types, vec![RecordType { code: 1 }]);
}

#[test]
fn limits_are_read_from_the_command_line() {
    let mut given = cli();
    given.requests = Some(7);
    assert_eq!(RunConfig::from_cli(&given, None).unwrap().limit, RunLimit::Requests(7));
    given.duration = Some("1m 500ms".into());
    assert!(matches!(refused(&given), ConfigError::TwoLimits));
    given.requests = None;
    assert_eq!(
        RunConfig::from_cli(&given, None).unwrap().limit,
        RunLimit::Duration(Span { secs: 60, nanos: 500_000_000 })
    );
    given.duration = Some("soon".into());
    assert_eq!(refused(&given).message(), "invalid --duration \"soon\"");
    given.duration = Some("0s".into());
    assert!(matches!(refused(&given), ConfigError::ZeroDuration));
    given.duration = None;
    given.requests = Some(0);
    assert!(matches!(refused(&given), ConfigError::ZeroRequests));
    given.requests = None;
    given.timeout = "2 parsecs".into();
    assert_eq!(refused(&given).message(), "invalid --timeout \"2 parsecs\"");
    given.timeout = "0ms".into();
    assert!(matches!(refused(&given), ConfigError::ZeroTimeout));
}

#[test]
fn names_of_a_file_follow_those_of_the_command_line() {
    let mut given = cli();
    given.names_file = Some("names.txt".into());
    assert!(matches!(refused(&given), ConfigError::UnreadableNames { .. }));
    assert_eq!(refused(&given).message(), "failed to read names file names.txt");
    let config = RunConfig::from_cli(&given, Some("EXAMPLE.test.\n# x\nwww.example.test\n")).unwrap();
    assert_eq!(config.names.len(), 2);
    assert_eq!(config.names[1].labels[0], b"www".to_vec());
    given.names = Vec::new();
    let error = RunConfig::from_cli(&given, Some("# only\n\n")).unwrap_err();
    assert!(matches!(error, ConfigError::NoName));
    given.names_file = None;
    let config = RunConfig::from_cli(&given, Some("ignored.test"));
    assert!(matches!(config, Err(ConfigError::NoName)));
}

#[test]
fn the_first_thing_that_is_wrong_is_reported() {
    let mut given = cli();
    given.servers = Vec::new();
    assert!(matches!(refused(&given), ConfigError::NoServer));
    given.names = vec!["..".into()];
    assert!(matches!(refused(&given), ConfigError::InvalidName { .. }));
    given.names = vec!["a.test".into()];
    given.record_types = vec!["?".into()];
    assert!(matches!(refused(&given), ConfigError::UnknownType { .. }));
    let mut given = cli();
    given.workers = 0;
    assert!(matches!(refused(&given), ConfigError::ZeroWorkers));
    given.concurrency = 0;
    assert!(matches!(refused(&given), ConfigError::ZeroConcurrency));
    let mut given = cli();
    given.edns_payload = 511;
    assert!(matches!(refused(&given), ConfigError::PayloadOutOfRange));
    given.rate = Some(0);
    assert!(matches!(refused(&given), ConfigError::ZeroRate));
    given.rate = Some(1);
    given.edns_payload = 512;
    assert!(RunConfig::from_cli(&given, None).is_ok());
}

#[test]
fn a_configuration_without_record_types_is_refused() {
    let mut config = RunConfig::from_cli(&cli(), None).unwrap();
    config.record_types = Vec::new();
    assert!(matches!(config.validate(), Err(ConfigError::NoType)));
    assert_eq!(config.validate().unwrap_err().message(), "at least one --type is required");
}

#[test]
fn lengths_of_time_are_counted_in_whole_units() {
    let span = Span { secs: 1, nanos: 999_999_999 };
    assert_eq!(span.millis(), 1999);
    assert_eq!(span.micros(), 1_999_999);
    assert_eq!(span.nanos_total(), 1_999_999_999);
    assert!(!span.is_zero());
    assert!(Span { secs: 0, nanos: 0 }.is_zero());
    assert!(span.at_least(&Span { secs: 1, nanos: 0 }));
    assert!(!Span { secs: 1, nanos: 0 }.at_least(&span));
    assert_eq!(Span { secs: u64::MAX, nanos: 0 }.millis(), u64::MAX);
    assert_eq!(Span { secs: u64::MAX, nanos: 0 }.micros(), u64::MAX);
}

#[test]
fn durations_that_overflow_are_recognised() {
    assert!(plain_duration("30s"));
    assert!(plain_duration("1h 30m 15s"));
    assert!(plain_duration("1s 12345678901ns"));
    assert!(plain_duration("00000000001s 1s"));
    assert!(plain_duration("1.000000000000s 1ms"));
    assert!(plain_duration(&"1ns ".repeat(51)));
    assert!(plain_duration("99999999999999999999999s"));
    assert!(plain_duration("18446744073709551615s"));
    assert!(plain_duration("18446744073709551614s 500ms 400ms"));
    assert!(plain_duration("18446744073709551614s 500ms 500ms"));
    assert!(plain_duration("18446744073709551615s 999999999ns"));
    assert!(plain_duration("18446744073709551615s 1s"));
    assert!(plain_duration("18446744073709551615s 1001ms"));
    assert!(plain_duration("18446744073709551615.5s 2s 500ms"));
    assert!(plain_duration("584542046090y 584542046090y"));
    assert!(!plain_duration("18446744073709551615s 1000ms"));
    assert!(!plain_duration("18446744073709551615s 500ms 500ms"));
    assert!(!plain_duration("18446744073709551615s500ms 500000000ns"));
    assert!(!plain_duration("18446744073709551615.5s 0.5s"));
    assert!(!plain_duration("18446744073709551614s 1.25s 0.0125m"));
}

#[test]
fn durations_of_several_units_are_added() {
    let mut given = cli();
    let mut limit = |duration: &str| {
        given.duration = Some(duration.into());
        RunConfig::from_cli(&given, None).unwrap().limit
    };
    let span = |secs: u64, nanos: u32| RunLimit::Duration(Span { secs, nanos });
    assert_eq!(limit("1s 12345678901ns"), span(13, 345_678_901));
    assert_eq!(limit("00000000001s 1s"), span(2, 0));
    assert_eq!(limit(&"1ns ".repeat(51)), span(0, 51));
    assert_eq!(limit("9999999999y 9999999999y"), span(19_999_999_998 * 31_557_600, 0));
    assert_eq!(limit("18446744073709551614s 500ms 400ms"), span(u64::MAX - 1, 900_000_000));
    assert_eq!(limit("18446744073709551615s 999999999ns"), span(u64::MAX, 999_999_999));
    assert_eq!(limit("1.5m 0.25h 2.5us"), span(990, 2_500));
    for duration in ["584542046091y 1s", "18446744073709551615s 1s", "18446744073709551615s 1001ms"] {
        given.duration = Some(duration.into());
        let error = refused(&given);
        match error {
            ConfigError::InvalidDuration { ref raw, ref cause } => {
                assert_eq!(raw, duration);
                assert_eq!(cause, &humantime::DurationError::NumberOverflow);
            }
            other => panic!("{other:?}"),
        }
    }
}

#[test]
fn lengths_of_time_may_be_read_elsewhere() {
    let mut given = cli();
    let span = |secs: u64| Span { secs, nanos: 0 };
    let config = RunConfig::from_lengths(&given, None, None, Ok(span(3))).unwrap();
    assert_eq!(config.limit, RunLimit::Requests(1000));
    assert_eq!(config.timeout, span(3));
    given.duration = Some("a while".into());
    let wrong = || humantime::parse_duration("x").unwrap_err();
    let made = |duration, timeout| RunConfig::from_lengths(&given, None, Some(duration), timeout);
    let config = made(Ok(span(9)), Ok(span(1))).unwrap();
    assert_eq!(config.limit, RunLimit::Duration(span(9)));
    let error = made(Err(wrong()), Err(wrong())).unwrap_err();
    assert_eq!(error.message(), "invalid --duration \"a while\"");
    let error = made(Ok(span(9)), Err(wrong())).unwrap_err();
    assert_eq!(error.message(), "invalid --timeout \"2s\"");
    let error = made(Ok(span(9)), Ok(span(0))).unwrap_err();
    assert!(matches!(error, ConfigError::ZeroTimeout));
    let error = made(Ok(span(0)), Ok(span(1))).unwrap_err();
    assert!(matches!(error, ConfigError::ZeroDuration));
}

fn codes(groups: &[&str]) -> Vec<u16> {
    let groups: Vec<String> = groups.iter().map(|group| group.to_string()).collect();
    parse_record_types(&groups).unwrap().iter().map(|read| read.code).collect()
}

#[test]
fn lists_of_record_types_go_together() {
    assert_eq!(codes(&["MX,A"]), vec![15, 1]);
    assert_eq!(codes(&["TXT,A,NS"]), vec![16, 1, 2]);
    assert_eq!(codes(&["MX,A", "TXT,A,NS"]), vec![15, 1, 16, 2]);
    assert_eq!(codes(&["MX,A,TXT,A,NS"]), vec![15, 1, 16, 2]);
    assert_eq!(codes(&["MX", "A", "", "TXT", "A", "NS", " , "]), vec![15, 1, 16, 2]);
    assert_eq!(codes(&[" MX ,\tA\u{3000}, TXT,A ,NS\n"]), vec![15, 1, 16, 2]);
    assert_eq!(codes(&["mx,a,tXt,A,Ns"]), vec![15, 1, 16, 2]);
}

#[test]
fn numbers_stand_for_record_types() {
    for code in 1..=u16::MAX {
        if code == 41 {
            continue;
        }
        let number = code.to_string();
        let prefixed = format!("TYPE{code}");
        assert_eq!(codes(&[number.as_str()]), vec![code]);
        assert_eq!(codes(&[prefixed.as_str(), number.as_str()]), vec![code]);
    }
    assert_eq!(codes(&["15", "mx", "TYPE15", "Type15", "+15", "015"]), vec![15]);
    for raw in ["0", "TYPE0", "41", "TYPE41"] {
        let error = parse_record_types(&[raw.to_string()]).unwrap_err();
        assert!(matches!(error, ConfigError::NotAQuestion { .. }));
    }
}

#[test]
fn causes_are_those_of_the_outside_parsers() {
    let mut given = cli();
    given.timeout = "2 parsecs".into();
    let expected = humantime::parse_duration("2 parsecs").unwrap_err();
    match refused(&given) {
        ConfigError::InvalidTimeout { cause, .. } => assert_eq!(cause, expected),
        other => panic!("{other:?}"),
    }
    let expected = hickory_proto::rr::Name::from_str("a..b.").unwrap_err();
    match parse_names(&["a..b".into()]).unwrap_err() {
        ConfigError::InvalidName { raw, cause } => {
            assert_eq!(raw, "a..b");
            assert_eq!(cause.to_string(), expected.to_string());
        }
        other => panic!("{other:?}"),
    }
    let expected = hickory_proto::rr::RecordType::from_str("BOGUS").unwrap_err();
    match parse_record_types(&["bogus".into()]).unwrap_err() {
        ConfigError::UnknownType { raw, cause } => {
            assert_eq!(raw, "bogus");
            assert_eq!(cause.to_string(), expected.to_string());
        }
        other => panic!("{other:?}"),
    }
}

#[test]
fn addresses_are_shown_as_the_standard_library_shows_them() {
    let samples: [u128; 16] = [
        0,
        1,
        u128::MAX,
        0xffff_c000_0201,
        0xffff_0000_0000,
        0xfffe_c000_0201,
        0x1_ffff_c000_0201,
        0x2001_0db8_0000_0000_0000_0000_0000_0053,
        0x2001_0db8_0000_0001_0000_0000_0000_0053,
        0x0001_0000_0000_0002_0000_0000_0003_0004,
        0x0001_0000_0002_0000_0003_0000_0004_0000,
        0x0000_0000_0002_0003_0004_0005_0006_0007,
        0x0001_0002_0003_0004_0005_0006_0000_0000,
        0x0000_0002_0003_0004_0005_0006_0007_0000,
        0xfe80_0000_0000_0000_0abc_0def_0fed_00ff,
        0x0000_0000_0000_0000_0000_0000_c000_0201,
    ];
    for number in samples {
        let shown = AAAA(number.into()).to_string();
        for (scope, port) in [(0u32, 53u16), (7, 0), (u32::MAX, 65535)] {
            let endpoint = Endpoint { host: Host::V6(number), scope, port };
            let scoped = if scope == 0 { shown.clone() } else { format!("{shown}%{scope}") };
            assert_eq!(endpoint.text(), format!("[{scoped}]:{port}"));
            assert_eq!(parse_endpoint(&chars(&endpoint.text())), Some(endpoint));
        }
    }
    for number in [0u32, 1, 0x0a00_0001, 0xc000_0201, 0x0064_09c8, u32::MAX] {
        let shown = A(number.into()).to_string();
        let endpoint = Endpoint { host: Host::V4(number), scope: 0, port: 5353 };
        assert_eq!(endpoint.text(), format!("{shown}:5353"));
        assert_eq!(parse_endpoint(&chars(&endpoint.text())), Some(endpoint));
    }
}

#[test]
fn targets_read_back_from_their_text() {
    for raw in [" bind =192.0.2.1", "é x=[fe80::1%3]:5353", "a=::ffff:10.0.0.1", "b=2001:db8::"] {
        let target = parse_target(raw).unwrap();
        let shown = format!("{}={}", target.label, target.address.text());
        let again = parse_target(&shown).unwrap();
        assert_eq!(again.label, target.label);
        assert_eq!(again.address, target.address);
    }
    assert_eq!(parse_target(" bind =192.0.2.1").unwrap().address.text(), "192.0.2.1:53");
}
