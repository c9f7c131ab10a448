//! What the settings of a run are: those of the command line, in the
//! configuration that is made of it and in the snapshot that results show.

use vstd::prelude::*;

use crate::address;
use crate::cli::Cli;
use crate::config;
use crate::config::{RunConfig, RunLimit, RunModel, TargetModel};
use crate::distinct;
use crate::engine::ConfigSnapshot;
use crate::error;
use crate::error::ConfigFault;
use crate::names;
use crate::record_type;
use crate::report;
use crate::span;
use crate::span::Span;
use crate::text;

verus! {

/// Where a command line is accepted, the settings of the configuration are those
/// of the command line.
pub proof fn law_settings_are_those_of_the_command_line(
    cli: Cli,
    file: Option<Seq<char>>,
    duration: Option<Result<Span, humantime::DurationError>>,
    timeout: Result<Span, humantime::DurationError>,
    config: RunConfig,
)
    requires
        config::given_config(cli, file, duration, timeout) == Ok::<RunModel, ConfigFault>(config@),
    ensures
        config.transport == cli.transport,
        config.concurrency == cli.concurrency,
        config.rate == cli.rate,
        config.warmup == cli.warmup,
        config.dnssec == cli.dnssec,
        config.edns_payload == cli.edns_payload,
        config.workers == cli.workers,
        config.seed == cli.seed,
        timeout == Ok::<Span, humantime::DurationError>(config.timeout),
        cli.requests is None || cli.duration is None,
        cli.requests matches Some(requests) ==> config.limit == RunLimit::Requests(requests),
        cli.requests is None && cli.duration is None ==> config.limit == RunLimit::Requests(1000),
        cli.requests is None && cli.duration is Some && duration is Some ==> duration->0 is Ok
            && config.limit == RunLimit::Duration(duration->0->Ok_0),
{
}

/// Where a command line is accepted, its timeout and its duration are those that
/// their texts stand for.
pub proof fn law_lengths_are_those_of_the_command_line(
    cli: Cli,
    file: Option<Seq<char>>,
    config: RunConfig,
)
    requires
        config::cli_config(cli, file) == Ok::<RunModel, ConfigFault>(config@),
    ensures
        span::duration_value(cli.timeout@) is Ok,
        span::duration_value(cli.timeout@)->Ok_0 == (config.timeout.secs, config.timeout.nanos),
        cli.requests is None && cli.duration is Some ==> {
            let read = span::duration_value(cli.duration->0@);
            &&& read is Ok
            &&& config.limit == RunLimit::Duration(
                Span { secs: read->Ok_0.0, nanos: read->Ok_0.1 },
            )
        },
{
    law_settings_are_those_of_the_command_line(
        cli,
        file,
        config::cli_duration(cli),
        config::length_value(cli.timeout@),
        config,
    );
}

proof fn lemma_each_server_is_read(servers: Seq<Seq<char>>)
    ensures
        config::listed_targets(servers) matches Ok(targets) ==> targets.len() == servers.len() && (
        forall|i: int|
            0 <= i < servers.len() ==> config::target_of(#[trigger] servers[i]) == Ok::<
                TargetModel,
                ConfigFault,
            >(targets[i])),
    decreases servers.len(),
{
    if servers.len() > 0 {
        let rest = servers.drop_last();
        lemma_each_server_is_read(rest);
        if let Ok(targets) = config::listed_targets(servers) {
            let before = config::listed_targets(rest)->Ok_0;
            assert forall|i: int| 0 <= i < servers.len() implies config::target_of(
                #[trigger] servers[i],
            ) == Ok::<TargetModel, ConfigFault>(targets[i]) by {
                if i < rest.len() {
                    assert(servers[i] == rest[i]);
                    assert(targets[i] == before[i]);
                }
            }
        }
    }
}

/// Where a command line is accepted, its targets are its servers, in their order,
/// each with its own label, whatever the letters are; and its record types are
/// those that it lists.
pub proof fn law_targets_are_the_servers(
    cli: Cli,
    file: Option<Seq<char>>,
    duration: Option<Result<Span, humantime::DurationError>>,
    timeout: Result<Span, humantime::DurationError>,
    config: RunConfig,
)
    requires
        config::given_config(cli, file, duration, timeout) == Ok::<RunModel, ConfigFault>(config@),
    ensures
        config.targets.len() == cli.servers.len(),
        forall|i: int|
            0 <= i < cli.servers.len() ==> config::target_of((#[trigger] cli.servers[i])@) == Ok::<
                TargetModel,
                ConfigFault,
            >(TargetModel { label: config.targets[i].label@, address: config.targets[i].address }),
        forall|i: int, j: int|
            0 <= i < j < config.targets.len() ==> text::lowered(
                (#[trigger] config.targets[i]).label@,
            ) != text::lowered((#[trigger] config.targets[j]).label@),
        record_type::read_types(text::texts(cli.record_types@)) == Ok::<Seq<u16>, ConfigFault>(
            config@.record_types,
        ),
        config@.record_types.len() == config.record_types.len(),
        forall|i: int|
            0 <= i < config.record_types.len() ==> (#[trigger] config.record_types[i]).code
                == config@.record_types[i],
{
    let servers = text::texts(cli.servers@);
    let models = config::target_models(config.targets@);
    lemma_each_server_is_read(servers);
    config::law_labels_are_distinct(servers);
    assert(models.len() == config.targets.len());
    assert forall|i: int| 0 <= i < cli.servers.len() implies config::target_of(
        (#[trigger] cli.servers[i])@,
    ) == Ok::<TargetModel, ConfigFault>(
        TargetModel { label: config.targets[i].label@, address: config.targets[i].address },
    ) by {
        assert(servers[i] == cli.servers[i]@);
        assert(models[i] == config.targets[i]@);
    }
    let key = config::label_key();
    assert forall|i: int, j: int| 0 <= i < j < config.targets.len() implies text::lowered(
        (#[trigger] config.targets[i]).label@,
    ) != text::lowered((#[trigger] config.targets[j]).label@) by {
        assert(models[i] == config.targets[i]@ && models[j] == config.targets[j]@);
        assert(key(models[i]) != key(models[j]));
    }
}

/// The texts of names that a command line gives: its own, and after them those of
/// the file, where one is named.
pub open spec fn given_names(cli: Cli, file: Option<Seq<char>>) -> Seq<Seq<char>> {
    if cli.names_file is Some && file is Some {
        text::texts(cli.names@) + config::file_names(file->0)
    } else {
        text::texts(cli.names@)
    }
}

proof fn lemma_each_name_is_read(raws: Seq<Seq<char>>)
    ensures
        config::listed_names(raws) matches Ok(read) ==> read.len() == raws.len() && (forall|i: int|
            0 <= i < raws.len() ==> names::name_from_text(config::with_dot(#[trigger] raws[i]))
                is Ok && names::name_from_text(config::with_dot(raws[i]))->Ok_0 == read[i]),
    decreases raws.len(),
{
    if raws.len() > 0 {
        let rest = raws.drop_last();
        lemma_each_name_is_read(rest);
        if let Ok(read) = config::listed_names(raws) {
            let before = config::listed_names(rest)->Ok_0;
            assert forall|i: int| 0 <= i < raws.len() implies names::name_from_text(
                config::with_dot(#[trigger] raws[i]),
            ) is Ok && names::name_from_text(config::with_dot(raws[i]))->Ok_0 == read[i] by {
                if i < rest.len() {
                    assert(raws[i] == rest[i]);
                    assert(read[i] == before[i]);
                }
            }
        }
    }
}

/// Where a command line is accepted, the names of the configuration are those that
/// it gives and those of the file, in their order: each of them is one that was
/// given, each that was given is among them in some letters, and no two are the
/// same in other letters.
pub proof fn law_names_are_those_given(
    cli: Cli,
    file: Option<Seq<char>>,
    duration: Option<Result<Span, humantime::DurationError>>,
    timeout: Result<Span, humantime::DurationError>,
    config: RunConfig,
)
    requires
        config::given_config(cli, file, duration, timeout) == Ok::<RunModel, ConfigFault>(config@),
    ensures
        cli.names_file is Some ==> file is Some,
        config.names.len() > 0,
        names::name_from_text(config::with_dot(given_names(cli, file)[0])) is Ok,
        names::name_from_text(config::with_dot(given_names(cli, file)[0]))->Ok_0
            == config.names[0]@,
        forall|j: int|
            0 <= j < given_names(cli, file).len() ==> {
                let read = names::name_from_text(
                    config::with_dot(#[trigger] given_names(cli, file)[j]),
                );
                &&& read is Ok
                &&& exists|i: int|
                    0 <= i < config.names.len() && text::lowered(
                        names::name_ascii((#[trigger] config.names[i])@.0, config.names[i]@.1),
                    ) == text::lowered(names::name_ascii(read->Ok_0.0, read->Ok_0.1))
            },
        forall|i: int|
            0 <= i < config.names.len() ==> exists|j: int|
                0 <= j < given_names(cli, file).len() && names::name_from_text(
                    config::with_dot(#[trigger] given_names(cli, file)[j]),
                ) is Ok && names::name_from_text(
                    config::with_dot(given_names(cli, file)[j]),
                )->Ok_0 == (#[trigger] config.names[i])@,
        forall|i: int, j: int|
            0 <= i < j < config.names.len() ==> text::lowered(
                names::name_ascii((#[trigger] config.names[i])@.0, config.names[i]@.1),
            ) != text::lowered(
                names::name_ascii((#[trigger] config.names[j])@.0, config.names[j]@.1),
            ),
{
    let raws = given_names(cli, file);
    let read = config::listed_names(raws)->Ok_0;
    let key = config::name_key();
    let kept = distinct::kept_first(read, key);
    let models = config::name_models(config.names@);
    lemma_each_name_is_read(raws);
    assert(config@.names == kept);
    assert(models == kept);
    assert(models.len() == config.names.len());
    assert forall|i: int| 0 <= i < config.names.len() implies (#[trigger] config.names[i])@
        == kept[i] by {
        assert(models[i] == config.names[i]@);
    }
    distinct::law_kept_first_is_distinct(read, key);
    distinct::law_kept_first_in_order(read, key);
    assert(read.len() > 0) by {
        if read.len() == 0 {
            assert(kept =~= Seq::empty());
        }
    }
    distinct::law_kept_first_keeps_the_head(read, key);
    assert(raws[0] == raws.first());
    assert forall|j: int| 0 <= j < raws.len() implies {
        let one = names::name_from_text(config::with_dot(#[trigger] raws[j]));
        &&& one is Ok
        &&& exists|i: int|
            0 <= i < config.names.len() && text::lowered(
                names::name_ascii((#[trigger] config.names[i])@.0, config.names[i]@.1),
            ) == text::lowered(names::name_ascii(one->Ok_0.0, one->Ok_0.1))
    } by {
        distinct::law_kept_first_keeps_keys(read, key, key(read[j]));
        assert(distinct::occurs(read, key, key(read[j])));
        let i = choose|i: int| 0 <= i < kept.len() && key(#[trigger] kept[i]) == key(read[j]);
        assert(config.names[i]@ == kept[i]);
    }
    assert forall|i: int| 0 <= i < config.names.len() implies exists|j: int|
        0 <= j < raws.len() && names::name_from_text(config::with_dot(#[trigger] raws[j])) is Ok
            && names::name_from_text(config::with_dot(raws[j]))->Ok_0 == (
        #[trigger] config.names[i])@ by {
        let place = distinct::kept_places(read, key)[i];
        assert(kept[i] == read[place]);
        assert(names::name_from_text(config::with_dot(raws[place])) is Ok);
    }
    assert forall|i: int, j: int| 0 <= i < j < config.names.len() implies text::lowered(
        names::name_ascii((#[trigger] config.names[i])@.0, config.names[i]@.1),
    ) != text::lowered(
        names::name_ascii((#[trigger] config.names[j])@.0, config.names[j]@.1),
    ) by {
        assert(key(kept[i]) != key(kept[j]));
    }
}

/// A name means the same with and without a dot at its end.
pub proof fn law_dot_at_the_end_does_not_count(raw: Seq<char>)
    requires
        raw.len() == 0 || raw.last() != '.',
    ensures
        config::with_dot(raw) == raw + seq!['.'],
        config::with_dot(raw + seq!['.']) == raw + seq!['.'],
{
    assert(config::with_dot(raw) =~= raw + seq!['.']);
}

/// A file of names is read line by line: a line that is blank or begins with `#`,
/// after white space or without, gives no name, and every other line gives itself
/// without the white space around it.
pub proof fn law_files_are_read_line_by_line(line: Seq<char>, rest: Seq<char>)
    requires
        !line.contains('\n'),
    ensures
        config::file_names(line) == (if text::is_blank(line) || text::trimmed(line).first() == '#' {
            Seq::empty()
        } else {
            seq![text::trimmed(line)]
        }),
        config::file_names(line + seq!['\n'] + rest) == config::file_names(line)
            + config::file_names(rest),
{
    text::lemma_split_of_one(line, '\n');
    text::lemma_split_of_two(line, rest, '\n');
    text::lemma_trimmed_of_blank(line);
    let parts = seq![line];
    assert(parts.drop_last() =~= Seq::empty());
    assert(config::name_lines(parts.drop_last()) =~= Seq::empty());
    assert(Seq::<Seq<char>>::empty().push(text::trimmed(line)) =~= seq![text::trimmed(line)]);
    lemma_lines_of_two(parts, text::split(rest, '\n'));
}

proof fn lemma_lines_of_two(a: Seq<Seq<char>>, b: Seq<Seq<char>>)
    ensures
        config::name_lines(a + b) == config::name_lines(a) + config::name_lines(b),
    decreases b.len(),
{
    if b.len() == 0 {
        assert(a + b =~= a);
        assert(config::name_lines(a) + config::name_lines(b) =~= config::name_lines(a));
    } else {
        lemma_lines_of_two(a, b.drop_last());
        assert((a + b).drop_last() =~= a + b.drop_last());
        assert(config::name_lines(a + b) =~= config::name_lines(a) + config::name_lines(b));
    }
}

/// What stands before the first equals sign is the label of a server, without the
/// white space around it, and what stands after it is its address. The label must
/// not be blank, and the address must be one.
pub proof fn law_servers_are_labels_and_addresses(label: Seq<char>, shown: Seq<char>)
    requires
        !label.contains('='),
    ensures
        config::target_of(label + seq!['='] + shown) == (if text::is_blank(label) {
            Err::<TargetModel, ConfigFault>(
                ConfigFault::EmptyLabel { raw: label + seq!['='] + shown },
            )
        } else {
            match address::endpoint(shown) {
                Some(endpoint) => Ok(
                    TargetModel { label: text::trimmed(label), address: endpoint },
                ),
                None => Err(ConfigFault::InvalidAddress { address: shown }),
            }
        }),
        config::target_of(label) == Err::<TargetModel, ConfigFault>(
            ConfigFault::MalformedServer { raw: label },
        ),
{
    let rest = seq!['='] + shown;
    let whole = label + seq!['='] + shown;
    assert(whole =~= label + rest);
    text::lemma_first_index(label, '=');
    text::lemma_first_index_of_two(label, rest, '=');
    assert(rest.first() == '=');
    assert(text::first_index(rest, '=') == 0);
    assert(whole.take(label.len() as int) =~= label);
    assert(whole.skip(label.len() as int + 1) =~= shown);
    text::lemma_trimmed_of_blank(label);
}

/// A configuration is accepted exactly where there is a server, a name and a
/// record type, the concurrency, the worker threads, the timeout, the limit and
/// the rate, if one is given, are not zero, and the payload size is at least 512.
pub proof fn law_accepted_exactly_when_in_range(config: RunConfig)
    ensures
        config::config_fault(config@) is None <==> {
            &&& config.targets.len() > 0
            &&& config.names.len() > 0
            &&& config.record_types.len() > 0
            &&& config.concurrency > 0
            &&& config.workers > 0
            &&& config.timeout.secs > 0 || config.timeout.nanos > 0
            &&& config.rate is None || config.rate->0 > 0
            &&& config.edns_payload >= 512
            &&& match config.limit {
                RunLimit::Requests(requests) => requests > 0,
                RunLimit::Duration(duration) => duration.secs > 0 || duration.nanos > 0,
            }
        },
{
    assert(config@.targets.len() == config.targets.len());
    assert(config@.names.len() == config.names.len());
    assert(config@.record_types.len() == config.record_types.len());
}

/// What a configuration is refused for is wrong with it, and nothing that is
/// looked at before.
pub proof fn law_refused_for_what_is_wrong(config: RunConfig)
    ensures
        match config::config_fault(config@) {
            None => true,
            Some(ConfigFault::NoServer) => config.targets.len() == 0,
            Some(ConfigFault::NoName) => config.names.len() == 0 && config.targets.len() > 0,
            Some(ConfigFault::NoType) => config.record_types.len() == 0 && config.names.len() > 0,
            Some(ConfigFault::ZeroConcurrency) => config.concurrency == 0
                && config.record_types.len() > 0,
            Some(ConfigFault::ZeroWorkers) => config.workers == 0 && config.concurrency > 0,
            Some(ConfigFault::ZeroTimeout) => config.timeout.secs == 0 && config.timeout.nanos == 0
                && config.workers > 0,
            Some(ConfigFault::ZeroRate) => config.rate is Some && config.rate->0 == 0 && (
            config.timeout.secs > 0 || config.timeout.nanos > 0),
            Some(ConfigFault::PayloadOutOfRange) => config.edns_payload < 512 && (config.rate
                is None || config.rate->0 > 0),
            Some(ConfigFault::ZeroRequests) => config.limit == RunLimit::Requests(0)
                && config.edns_payload >= 512,
            Some(ConfigFault::ZeroDuration) => config.limit == RunLimit::Duration(
                Span { secs: 0, nanos: 0 },
            ) && config.edns_payload >= 512,
            Some(_) => false,
        },
{
    assert(config@.targets.len() == config.targets.len());
    assert(config@.names.len() == config.names.len());
    assert(config@.record_types.len() == config.record_types.len());
}

/// What a command line is refused for is wrong with it.
pub proof fn law_command_line_is_refused_for_what_is_wrong(
    cli: Cli,
    file: Option<Seq<char>>,
    duration: Option<Result<Span, humantime::DurationError>>,
    timeout: Result<Span, humantime::DurationError>,
)
    ensures
        match config::given_config(cli, file, duration, timeout) {
            Ok(_) => true,
            Err(ConfigFault::UnreadableNames { path }) => cli.names_file is Some
                && cli.names_file->0@ == path && file is None,
            Err(ConfigFault::TwoLimits) => cli.requests is Some && cli.duration is Some,
            Err(ConfigFault::InvalidDuration { raw, cause }) => {
                &&& cli.requests is None
                &&& cli.duration is Some && cli.duration->0@ == raw
                &&& duration == Some(Err::<Span, humantime::DurationError>(cause))
            },
            Err(ConfigFault::InvalidTimeout { raw, cause }) => cli.timeout@ == raw && timeout
                == Err::<Span, humantime::DurationError>(cause),
            Err(ConfigFault::ZeroConcurrency) => cli.concurrency == 0,
            Err(ConfigFault::ZeroWorkers) => cli.workers == 0,
            Err(ConfigFault::ZeroRate) => cli.rate == Some(0u64),
            Err(ConfigFault::PayloadOutOfRange) => cli.edns_payload < 512,
            Err(ConfigFault::ZeroRequests) => cli.requests == Some(0u64),
            Err(ConfigFault::NoServer) => cli.servers.len() == 0,
            Err(ConfigFault::NoName) => given_names(cli, file).len() == 0,
            Err(_) => true,
        },
{
    let servers = text::texts(cli.servers@);
    let raws = given_names(cli, file);
    lemma_each_server_is_read(servers);
    lemma_each_name_is_read(raws);
    lemma_server_faults(servers);
    lemma_name_faults(raws);
    lemma_type_faults(record_type::all_tokens(text::texts(cli.record_types@)));
    if config::listed_names(raws) is Ok && config::listed_names(raws)->Ok_0.len() > 0 {
        distinct::law_kept_first_keeps_the_head(
            config::listed_names(raws)->Ok_0,
            config::name_key(),
        );
    }
}

/// A command line is refused for the first thing that is wrong with it: a fault of
/// the servers whatever else it asks for, then one of the names and their file,
/// then one of the record types, then one of the limit, then one of the timeout.
/// Another command line that is the same up to there is refused for the same.
pub proof fn law_first_fault_is_named(
    cli: Cli,
    file: Option<Seq<char>>,
    duration: Option<Result<Span, humantime::DurationError>>,
    timeout: Result<Span, humantime::DurationError>,
    other: Cli,
    other_file: Option<Seq<char>>,
    other_duration: Option<Result<Span, humantime::DurationError>>,
    other_timeout: Result<Span, humantime::DurationError>,
)
    requires
        config::given_config(cli, file, duration, timeout) is Err,
        other.servers == cli.servers,
    ensures
        ({
            let made = config::given_config(cli, file, duration, timeout);
            let again = config::given_config(other, other_file, other_duration, other_timeout);
            let names = other.names == cli.names && other.names_file == cli.names_file
                && other_file == file;
            let types = names && other.record_types == cli.record_types;
            let limit = types && other.requests == cli.requests && other.duration == cli.duration
                && other_duration == duration;
            match made->Err_0 {
                ConfigFault::MalformedServer { raw } => again == made,
                ConfigFault::EmptyLabel { raw } => again == made,
                ConfigFault::InvalidAddress { address } => again == made,
                ConfigFault::DuplicateLabel { label } => again == made,
                ConfigFault::UnreadableNames { path } => names ==> again == made,
                ConfigFault::InvalidName { raw, cause } => names ==> again == made,
                ConfigFault::InvalidTypeNumber { raw } => types ==> again == made,
                ConfigFault::UnknownType { raw, cause } => types ==> again == made,
                ConfigFault::NotAQuestion { raw } => types ==> again == made,
                ConfigFault::NoRecordType => types ==> again == made,
                ConfigFault::TwoLimits => limit ==> again == made,
                ConfigFault::InvalidDuration { raw, cause } => limit ==> again == made,
                ConfigFault::InvalidTimeout { raw, cause } => limit && other.timeout == cli.timeout
                    && other_timeout == timeout ==> again == made,
                _ => true,
            }
        }),
{
    let servers = text::texts(cli.servers@);
    let raws = given_names(cli, file);
    lemma_server_faults(servers);
    lemma_name_faults(raws);
    lemma_type_faults(record_type::all_tokens(text::texts(cli.record_types@)));
}

proof fn lemma_server_faults(servers: Seq<Seq<char>>)
    ensures
        match config::listed_targets(servers) {
            Ok(_) => true,
            Err(ConfigFault::MalformedServer { raw }) => true,
            Err(ConfigFault::EmptyLabel { raw }) => true,
            Err(ConfigFault::InvalidAddress { address }) => true,
            Err(ConfigFault::DuplicateLabel { label }) => true,
            Err(_) => false,
        },
    decreases servers.len(),
{
    if servers.len() > 0 {
        lemma_server_faults(servers.drop_last());
    }
}

proof fn lemma_name_faults(raws: Seq<Seq<char>>)
    ensures
        match config::listed_names(raws) {
            Ok(_) => true,
            Err(ConfigFault::InvalidName { raw, cause }) => true,
            Err(_) => false,
        },
    decreases raws.len(),
{
    if raws.len() > 0 {
        lemma_name_faults(raws.drop_last());
    }
}

proof fn lemma_type_faults(tokens: Seq<Seq<char>>)
    ensures
        match record_type::listed_codes(tokens) {
            Ok(_) => true,
            Err(ConfigFault::InvalidTypeNumber { raw }) => true,
            Err(ConfigFault::UnknownType { raw, cause }) => true,
            Err(ConfigFault::NotAQuestion { raw }) => true,
            Err(_) => false,
        },
    decreases tokens.len(),
{
    if tokens.len() > 0 {
        lemma_type_faults(tokens.drop_last());
    }
}

/// The snapshot that results show holds the settings of the configuration.
pub proof fn law_snapshot_shows_the_settings(snapshot: ConfigSnapshot, config: RunConfig)
    requires
        snapshot.is_of(config),
        config.timeout.nanos < 1_000_000_000,
    ensures
        snapshot.targets.len() == config.targets.len(),
        forall|i: int|
            0 <= i < config.targets.len() ==> (#[trigger] snapshot.targets[i]).label@
                == config.targets[i].label@ && snapshot.targets[i].address
                == config.targets[i].address,
        snapshot.names.len() == config.names.len(),
        forall|i: int|
            0 <= i < config.names.len() ==> (#[trigger] snapshot.names[i])@ == names::name_text(
                config.names[i].octets(),
                config.names[i].fqdn,
            ),
        snapshot.record_types.len() == config.record_types.len(),
        forall|i: int|
            0 <= i < config.record_types.len() ==> (#[trigger] snapshot.record_types[i])@
                == record_type::label(config.record_types[i].code),
        config.transport is Udp ==> snapshot.transport@ == "udp"@,
        config.transport is Tcp ==> snapshot.transport@ == "tcp"@,
        match config.limit {
            RunLimit::Requests(requests) => snapshot.requests == Some(requests)
                && snapshot.duration_ms is None,
            RunLimit::Duration(duration) => {
                &&& snapshot.requests is None
                &&& snapshot.duration_ms is Some
                &&& snapshot.duration_ms->0 * 1_000_000 <= duration.secs * 1_000_000_000
                    + duration.nanos
                &&& snapshot.duration_ms->0 < 0xffff_ffff_ffff_ffff ==> duration.secs
                    * 1_000_000_000 + duration.nanos < (snapshot.duration_ms->0 + 1) * 1_000_000
            },
        },
        snapshot.concurrency == config.concurrency,
        snapshot.rate == config.rate,
        snapshot.timeout_ms * 1_000_000 <= config.timeout.secs * 1_000_000_000
            + config.timeout.nanos,
        snapshot.timeout_ms < 0xffff_ffff_ffff_ffff ==> config.timeout.secs * 1_000_000_000
            + config.timeout.nanos < (snapshot.timeout_ms + 1) * 1_000_000,
        snapshot.warmup == config.warmup,
        snapshot.dnssec == config.dnssec,
        snapshot.edns_payload == config.edns_payload,
        snapshot.workers == config.workers,
        snapshot.seed == config.seed,
{
    let shown = config::target_models(snapshot.targets@);
    let given = config::target_models(config.targets@);
    assert(shown.len() == snapshot.targets.len() && given.len() == config.targets.len());
    assert forall|i: int| 0 <= i < config.targets.len() implies (
    #[trigger] snapshot.targets[i]).label@ == config.targets[i].label@
        && snapshot.targets[i].address == config.targets[i].address by {
        assert(shown[i] == snapshot.targets[i]@ && given[i] == config.targets[i]@);
    }
    let names = text::texts(snapshot.names@);
    assert(names.len() == snapshot.names.len());
    assert forall|i: int| 0 <= i < config.names.len() implies (#[trigger] snapshot.names[i])@
        == names::name_text(config.names[i].octets(), config.names[i].fqdn) by {
        assert(names[i] == snapshot.names[i]@);
        assert(crate::engine::name_texts(config.names@)[i] == config.names[i].text());
    }
    let types = text::texts(snapshot.record_types@);
    assert(types.len() == snapshot.record_types.len());
    assert forall|i: int| 0 <= i < config.record_types.len() implies (
    #[trigger] snapshot.record_types[i])@ == record_type::label(config.record_types[i].code) by {
        assert(types[i] == snapshot.record_types[i]@);
        assert(record_type::labels(config.record_types@)[i] == record_type::label(
            config.record_types[i].code,
        ));
    }
}

/// The message for what is wrong shows the text that is, in quotation marks.
pub proof fn law_messages_show_what_is_wrong(fault: ConfigFault)
    ensures
        match fault {
            ConfigFault::MalformedServer { raw } => shows(fault, raw),
            ConfigFault::EmptyLabel { raw } => shows(fault, raw),
            ConfigFault::InvalidAddress { address } => shows(fault, address),
            ConfigFault::DuplicateLabel { label } => shows(fault, label),
            ConfigFault::InvalidName { raw, cause } => shows(fault, raw),
            ConfigFault::InvalidTypeNumber { raw } => shows(fault, raw),
            ConfigFault::UnknownType { raw, cause } => shows(fault, raw),
            ConfigFault::NotAQuestion { raw } => shows(fault, raw),
            ConfigFault::InvalidDuration { raw, cause } => shows(fault, raw),
            ConfigFault::InvalidTimeout { raw, cause } => shows(fault, raw),
            ConfigFault::UnreadableNames { path } => path.is_suffix_of(
                error::fault_message(fault),
            ),
            _ => true,
        },
{
    let message = error::fault_message(fault);
    match fault {
        ConfigFault::UnreadableNames { path } => {
            assert(message.skip(message.len() - path.len()) =~= path);
        },
        ConfigFault::MalformedServer { raw } => {
            assert(shown_between("invalid server "@, raw, "; expected LABEL=IP[:PORT]"@) == message);
        },
        ConfigFault::EmptyLabel { raw } => {
            assert(shown_between("server label cannot be empty in "@, raw, ""@) == message);
        },
        ConfigFault::InvalidAddress { address } => {
            assert(shown_between(
                "invalid server address "@,
                address,
                "; use an IP, IPv4:port, or [IPv6]:port"@,
            ) == message);
        },
        ConfigFault::DuplicateLabel { label } => {
            assert(shown_between("duplicate server label "@, label, ""@) == message);
        },
        ConfigFault::InvalidName { raw, cause } => {
            assert(shown_between("invalid DNS name "@, raw, ""@) == message);
        },
        ConfigFault::InvalidTypeNumber { raw } => {
            assert(shown_between("invalid numeric DNS record type "@, raw, ""@) == message);
        },
        ConfigFault::UnknownType { raw, cause } => {
            assert(shown_between("invalid DNS record type "@, raw, ""@) == message);
        },
        ConfigFault::NotAQuestion { raw } => {
            assert(shown_between(
                "record type "@,
                raw,
                " cannot be used as a standalone question"@,
            ) == message);
        },
        ConfigFault::InvalidDuration { raw, cause } => {
            assert(shown_between("invalid --duration "@, raw, ""@) == message);
        },
        ConfigFault::InvalidTimeout { raw, cause } => {
            assert(shown_between("invalid --timeout "@, raw, ""@) == message);
        },
        _ => {},
    }
}

/// A text in quotation marks between two others.
spec fn shown_between(before: Seq<char>, raw: Seq<char>, after: Seq<char>) -> Seq<char> {
    before + error::debug_text(raw) + after
}

/// Whether the message for a fault shows a text in quotation marks, after other
/// words.
pub closed spec fn shows(fault: ConfigFault, raw: Seq<char>) -> bool {
    exists|before: Seq<char>, after: Seq<char>|
        error::fault_message(fault) == #[trigger] shown_between(before, raw, after)
}

/// Different things that are wrong with a setting have different messages, which
/// begin with the option that is meant.
pub proof fn law_messages_name_the_option()
    ensures
        "--concurrency"@.is_prefix_of(error::fault_message(ConfigFault::ZeroConcurrency)),
        "--workers"@.is_prefix_of(error::fault_message(ConfigFault::ZeroWorkers)),
        "--timeout"@.is_prefix_of(error::fault_message(ConfigFault::ZeroTimeout)),
        "--rate"@.is_prefix_of(error::fault_message(ConfigFault::ZeroRate)),
        "--edns-payload"@.is_prefix_of(error::fault_message(ConfigFault::PayloadOutOfRange)),
        "--requests"@.is_prefix_of(error::fault_message(ConfigFault::ZeroRequests)),
        "--duration"@.is_prefix_of(error::fault_message(ConfigFault::ZeroDuration)),
{
    reveal_strlit("--concurrency");
    reveal_strlit("--concurrency must be greater than zero");
    reveal_strlit("--workers");
    reveal_strlit("--workers must be greater than zero");
    reveal_strlit("--timeout");
    reveal_strlit("--timeout must be greater than zero");
    reveal_strlit("--rate");
    reveal_strlit("--rate must be greater than zero");
    reveal_strlit("--edns-payload");
    reveal_strlit("--edns-payload must be between 512 and 65535");
    reveal_strlit("--requests");
    reveal_strlit("--requests must be greater than zero");
    reveal_strlit("--duration");
    reveal_strlit("--duration must be greater than zero");
}

/// The message for what is wrong says in words what it is: before the text that
/// is wrong, and after it where there is more to say.
pub proof fn law_messages_say_what_is_wrong(fault: ConfigFault)
    ensures
        ({
            let message = error::fault_message(fault);
            match fault {
                ConfigFault::MalformedServer { raw } => {
                    &&& "invalid server "@.is_prefix_of(message)
                    &&& "; expected LABEL=IP[:PORT]"@.is_suffix_of(message)
                    &&& message.len() == "invalid server "@.len() + error::debug_text(raw).len() + "; expected LABEL=IP[:PORT]"@.len()
                },
                ConfigFault::EmptyLabel { raw } => {
                    &&& "server label cannot be empty in "@.is_prefix_of(message)
                    &&& message.len() == "server label cannot be empty in "@.len() + error::debug_text(raw).len()
                },
                ConfigFault::InvalidAddress { address } => {
                    &&& "invalid server address "@.is_prefix_of(message)
                    &&& "; use an IP, IPv4:port, or [IPv6]:port"@.is_suffix_of(message)
                    &&& message.len() == "invalid server address "@.len() + error::debug_text(address).len() + "; use an IP, IPv4:port, or [IPv6]:port"@.len()
                },
                ConfigFault::DuplicateLabel { label } => {
                    &&& "duplicate server label "@.is_prefix_of(message)
                    &&& message.len() == "duplicate server label "@.len() + error::debug_text(label).len()
                },
                ConfigFault::InvalidName { raw, cause } => {
                    &&& "invalid DNS name "@.is_prefix_of(message)
                    &&& message.len() == "invalid DNS name "@.len() + error::debug_text(raw).len()
                },
                ConfigFault::InvalidTypeNumber { raw } => {
                    &&& "invalid numeric DNS record type "@.is_prefix_of(message)
                    &&& message.len() == "invalid numeric DNS record type "@.len() + error::debug_text(raw).len()
                },
                ConfigFault::UnknownType { raw, cause } => {
                    &&& "invalid DNS record type "@.is_prefix_of(message)
                    &&& message.len() == "invalid DNS record type "@.len() + error::debug_text(raw).len()
                },
                ConfigFault::NotAQuestion { raw } => {
                    &&& "record type "@.is_prefix_of(message)
                    &&& " cannot be used as a standalone question"@.is_suffix_of(message)
                    &&& message.len() == "record type "@.len() + error::debug_text(raw).len() + " cannot be used as a standalone question"@.len()
                },
                ConfigFault::InvalidDuration { raw, cause } => {
                    &&& "invalid --duration "@.is_prefix_of(message)
                    &&& message.len() == "invalid --duration "@.len() + error::debug_text(raw).len()
                },
                ConfigFault::InvalidTimeout { raw, cause } => {
                    &&& "invalid --timeout "@.is_prefix_of(message)
                    &&& message.len() == "invalid --timeout "@.len() + error::debug_text(raw).len()
                },
                ConfigFault::UnreadableNames { path } => "failed to read names file "@.is_prefix_of(
                    message,
                ),
                _ => true,
            }
        }),
{
    let message = error::fault_message(fault);
    reveal_strlit("");
    match fault {
        ConfigFault::MalformedServer { raw } => {
            lemma_around("invalid server "@, raw, "; expected LABEL=IP[:PORT]"@);
        },
        ConfigFault::EmptyLabel { raw } => {
            lemma_around("server label cannot be empty in "@, raw, ""@);
        },
        ConfigFault::InvalidAddress { address } => {
            lemma_around("invalid server address "@, address, "; use an IP, IPv4:port, or [IPv6]:port"@);
        },
        ConfigFault::DuplicateLabel { label } => {
            lemma_around("duplicate server label "@, label, ""@);
        },
        ConfigFault::InvalidName { raw, cause } => {
            lemma_around("invalid DNS name "@, raw, ""@);
        },
        ConfigFault::InvalidTypeNumber { raw } => {
            lemma_around("invalid numeric DNS record type "@, raw, ""@);
        },
        ConfigFault::UnknownType { raw, cause } => {
            lemma_around("invalid DNS record type "@, raw, ""@);
        },
        ConfigFault::NotAQuestion { raw } => {
            lemma_around("record type "@, raw, " cannot be used as a standalone question"@);
        },
        ConfigFault::InvalidDuration { raw, cause } => {
            lemma_around("invalid --duration "@, raw, ""@);
        },
        ConfigFault::InvalidTimeout { raw, cause } => {
            lemma_around("invalid --timeout "@, raw, ""@);
        },
        ConfigFault::UnreadableNames { path } => {
            assert(message.take("failed to read names file "@.len() as int)
                =~= "failed to read names file "@);
        },
        _ => {},
    }
}

proof fn lemma_around(before: Seq<char>, raw: Seq<char>, after: Seq<char>)
    ensures
        ({
            let message = error::around(before, raw, after);
            &&& before.is_prefix_of(message)
            &&& after.is_suffix_of(message)
            &&& message.len() == before.len() + error::debug_text(raw).len() + after.len()
        }),
{
    let message = error::around(before, raw, after);
    assert(message.take(before.len() as int) =~= before);
    assert(message.skip(message.len() - after.len()) =~= after);
}

/// What is missing, given twice or out of range is said with the options that
/// are meant.
pub proof fn law_missing_settings_are_named()
    ensures
        report::mentions(error::fault_message(ConfigFault::NoServer), "--server"@),
        report::mentions(error::fault_message(ConfigFault::NoName), "--name"@),
        report::mentions(error::fault_message(ConfigFault::NoName), "--names-file"@),
        report::mentions(error::fault_message(ConfigFault::NoType), "--type"@),
        report::mentions(error::fault_message(ConfigFault::NoRecordType), "record type"@),
        report::mentions(error::fault_message(ConfigFault::TwoLimits), "--requests"@),
        report::mentions(error::fault_message(ConfigFault::TwoLimits), "--duration"@),
        report::mentions(error::fault_message(ConfigFault::PayloadOutOfRange), "512"@),
        report::mentions(error::fault_message(ConfigFault::PayloadOutOfRange), "65535"@),
{
    reveal_strlit("at least one --server LABEL=IP[:PORT] is required");
    reveal_strlit("at least one --name or a non-empty --names-file is required");
    reveal_strlit("at least one --type is required");
    reveal_strlit("at least one DNS record type is required");
    reveal_strlit("use either --requests or --duration, not both");
    reveal_strlit("--edns-payload must be between 512 and 65535");
    reveal_strlit("--server");
    reveal_strlit("--name");
    reveal_strlit("--names-file");
    reveal_strlit("--type");
    reveal_strlit("record type");
    reveal_strlit("--requests");
    reveal_strlit("--duration");
    reveal_strlit("512");
    reveal_strlit("65535");
    report::lemma_mentions(error::fault_message(ConfigFault::NoServer), "--server"@, 13);
    report::lemma_mentions(error::fault_message(ConfigFault::NoName), "--name"@, 13);
    report::lemma_mentions(error::fault_message(ConfigFault::NoName), "--names-file"@, 35);
    report::lemma_mentions(error::fault_message(ConfigFault::NoType), "--type"@, 13);
    report::lemma_mentions(error::fault_message(ConfigFault::NoRecordType), "record type"@, 17);
    report::lemma_mentions(error::fault_message(ConfigFault::TwoLimits), "--requests"@, 11);
    report::lemma_mentions(error::fault_message(ConfigFault::TwoLimits), "--duration"@, 25);
    report::lemma_mentions(error::fault_message(ConfigFault::PayloadOutOfRange), "512"@, 31);
    report::lemma_mentions(error::fault_message(ConfigFault::PayloadOutOfRange), "65535"@, 39);
}

/// A server is refused where it has no equals sign, nothing but white space before
/// it, or something that is no address after it.
pub proof fn law_server_is_refused_for_what_is_wrong(server: Seq<char>)
    ensures
        match config::target_of(server) {
            Ok(_) => server.contains('='),
            Err(ConfigFault::MalformedServer { raw }) => raw == server && !raw.contains('='),
            Err(ConfigFault::EmptyLabel { raw }) => raw == server && exists|i: int|
                0 <= i < raw.len() && raw[i] == '=' && #[trigger] text::is_blank(raw.take(i)),
            Err(ConfigFault::InvalidAddress { address }) => address::endpoint(address) is None
                && exists|label: Seq<char>| server == #[trigger] (label + seq!['='] + address),
            Err(_) => false,
        },
{
    let equals = text::first_index(server, '=');
    text::lemma_first_index(server, '=');
    if equals < server.len() {
        let label = server.take(equals);
        let rest = server.skip(equals + 1);
        text::lemma_trimmed_of_blank(label);
        assert(server =~= label + seq!['='] + rest);
        assert(server[equals] == '=');
        if text::trimmed(label).len() == 0 {
            assert(text::is_blank(server.take(equals)));
        }
    } else {
        assert(!server.contains('='));
    }
}

/// Whether a server has the label of an earlier one, whatever the letters are.
pub open spec fn repeats_label(servers: Seq<Seq<char>>, i: int, j: int) -> bool {
    &&& 0 <= i < j < servers.len()
    &&& config::target_of(servers[i]) is Ok
    &&& config::target_of(servers[j]) is Ok
    &&& text::lowered(config::target_of(servers[i])->Ok_0.label) == text::lowered(
        config::target_of(servers[j])->Ok_0.label,
    )
}

/// Servers are all read, each as it is alone and in their order, or refused for
/// what is wrong with one of them, or for a label that an earlier one has.
pub proof fn law_server_faults_are_of_servers(servers: Seq<Seq<char>>)
    ensures
        match config::listed_targets(servers) {
            Ok(targets) => {
                &&& targets.len() == servers.len()
                &&& forall|i: int|
                    0 <= i < servers.len() ==> config::target_of(#[trigger] servers[i]) == Ok::<
                        TargetModel,
                        ConfigFault,
                    >(targets[i])
            },
            Err(fault) => {
                ||| exists|i: int|
                    0 <= i < servers.len() && config::target_of(#[trigger] servers[i]) == Err::<
                        TargetModel,
                        ConfigFault,
                    >(fault)
                ||| exists|i: int, j: int| #[trigger]
                    repeats_label(servers, i, j) && fault == (ConfigFault::DuplicateLabel {
                        label: config::target_of(servers[j])->Ok_0.label,
                    })
            },
        },
    decreases servers.len(),
{
    if servers.len() > 0 {
        let rest = servers.drop_last();
        let end = servers.len() - 1;
        law_server_faults_are_of_servers(rest);
        assert forall|i: int| 0 <= i < end implies #[trigger] servers[i] == rest[i] by {}
        match config::listed_targets(rest) {
            Err(fault) => {
                if exists|i: int| 0 <= i < rest.len() && config::target_of(#[trigger] rest[i])
                    == Err::<TargetModel, ConfigFault>(fault) {
                    let i = choose|i: int|
                        0 <= i < rest.len() && config::target_of(#[trigger] rest[i]) == Err::<
                            TargetModel,
                            ConfigFault,
                        >(fault);
                    assert(servers[i] == rest[i]);
                } else {
                    let (i, j) = choose|i: int, j: int| #[trigger]
                        repeats_label(rest, i, j) && fault == (ConfigFault::DuplicateLabel {
                            label: config::target_of(rest[j])->Ok_0.label,
                        });
                    assert(servers[i] == rest[i] && servers[j] == rest[j]);
                    assert(repeats_label(servers, i, j));
                }
            },
            Ok(before) => {
                if let Ok(target) = config::target_of(servers[end]) {
                    let key = config::label_key();
                    if distinct::occurs(before, key, text::lowered(target.label)) {
                        let i = choose|i: int|
                            0 <= i < before.len() && key(#[trigger] before[i]) == text::lowered(
                                target.label,
                            );
                        assert(servers[i] == rest[i]);
                        assert(repeats_label(servers, i, end));
                    }
                }
            },
        }
    }
}

/// A fault of the names is that of one of them: with a dot at its end, it is no
/// name.
pub proof fn law_name_faults_are_of_names(raws: Seq<Seq<char>>)
    ensures
        match config::distinct_names(raws) {
            Ok(_) => true,
            Err(ConfigFault::InvalidName { raw, cause }) => {
                &&& raws.contains(raw)
                &&& raw.len() > 0 && raw.last() == '.' ==> names::name_from_text(raw) == Err::<
                    (Seq<Seq<u8>>, bool),
                    hickory_proto::ProtoError,
                >(cause)
                &&& raw.len() == 0 || raw.last() != '.' ==> names::name_from_text(raw.push('.'))
                    == Err::<(Seq<Seq<u8>>, bool), hickory_proto::ProtoError>(cause)
            },
            Err(_) => false,
        },
    decreases raws.len(),
{
    if raws.len() > 0 {
        let rest = raws.drop_last();
        law_name_faults_are_of_names(rest);
        assert(raws[raws.len() - 1] == raws.last());
        if let Err(ConfigFault::InvalidName { raw, cause }) = config::listed_names(rest) {
            let i = rest.index_of(raw);
            assert(raws[i] == raw);
        }
    }
}

} // verus!
