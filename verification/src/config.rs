//! The configuration of a run: reading it from the command line, and the
//! checks that it has to pass.

use vstd::prelude::*;

use crate::address;
use crate::address::Endpoint;
use crate::cli::Cli;
use crate::distinct;
use crate::error::{ConfigError, ConfigFault};
use crate::names;
use crate::names::DnsName;
use crate::record_type;
pub use crate::record_type::{
    all_record_types, parse_record_types, record_type_label, RecordType,
};
use crate::span;
use crate::span::Span;
use crate::text;

verus! {

/// Requests per target where neither a number nor a duration is given.
pub const DEFAULT_REQUESTS: u64 = 1000;

/// Smallest EDNS payload size that may be advertised.
pub const MIN_EDNS_PAYLOAD: u16 = 512;

/// A server to be measured.
#[derive(Debug, Clone)]
pub struct Target {
    pub label: String,
    pub address: Endpoint,
}

/// How queries travel.
#[derive(Debug, Clone, Copy, PartialEq, Eq, Structural)]
pub enum Transport {
    Udp,
    Tcp,
}

/// When a measurement ends.
#[derive(Debug, Clone, Copy, PartialEq, Eq, Structural)]
pub enum RunLimit {
    /// After a number of requests.
    Requests(u64),
    /// After a length of time.
    Duration(Span),
}

/// The configuration of a run.
#[derive(Debug, Clone)]
pub struct RunConfig {
    pub targets: Vec<Target>,
    pub names: Vec<DnsName>,
    pub record_types: Vec<RecordType>,
    pub transport: Transport,
    pub limit: RunLimit,
    pub concurrency: usize,
    pub rate: Option<u64>,
    pub timeout: Span,
    pub warmup: u64,
    pub dnssec: bool,
    pub edns_payload: u16,
    pub workers: usize,
    pub seed: u64,
}

/// What a `Target` holds.
pub ghost struct TargetModel {
    pub label: Seq<char>,
    pub address: Endpoint,
}

/// What a `RunConfig` holds.
pub ghost struct RunModel {
    pub targets: Seq<TargetModel>,
    pub names: Seq<(Seq<Seq<u8>>, bool)>,
    pub record_types: Seq<u16>,
    pub transport: Transport,
    pub limit: RunLimit,
    pub concurrency: usize,
    pub rate: Option<u64>,
    pub timeout: Span,
    pub warmup: u64,
    pub dnssec: bool,
    pub edns_payload: u16,
    pub workers: usize,
    pub seed: u64,
}

impl Target {
    /// The label and the address.
    pub open spec fn view(self) -> TargetModel {
        TargetModel { label: self.label@, address: self.address }
    }

    /// A second target with the same label and address.
    pub fn duplicate(&self) -> (copy: Target)
        ensures
            copy@ == self@,
    {
        Target { label: self.label.clone(), address: self.address }
    }
}

/// What a list of targets holds.
pub open spec fn target_models(targets: Seq<Target>) -> Seq<TargetModel> {
    targets.map_values(|target: Target| target@)
}

/// What a list of names holds.
pub open spec fn name_models(names: Seq<DnsName>) -> Seq<(Seq<Seq<u8>>, bool)> {
    names.map_values(|name: DnsName| name@)
}

impl RunConfig {
    /// What the configuration holds.
    pub open spec fn view(self) -> RunModel {
        RunModel {
            targets: target_models(self.targets@),
            names: name_models(self.names@),
            record_types: record_type::codes_of(self.record_types@),
            transport: self.transport,
            limit: self.limit,
            concurrency: self.concurrency,
            rate: self.rate,
            timeout: self.timeout,
            warmup: self.warmup,
            dnssec: self.dnssec,
            edns_payload: self.edns_payload,
            workers: self.workers,
            seed: self.seed,
        }
    }

    /// Whether the names are made of valid labels, and the lengths of time hold
    /// less than a second of nanoseconds.
    pub open spec fn wf(self) -> bool {
        &&& forall|i: int| 0 <= i < self.names.len() ==> (#[trigger] self.names[i]).wf()
        &&& self.timeout.wf()
        &&& match self.limit {
            RunLimit::Duration(duration) => duration.wf(),
            RunLimit::Requests(_) => true,
        }
    }
}

/// The first thing that is wrong with a configuration, where something is.
pub open spec fn config_fault(config: RunModel) -> Option<ConfigFault> {
    if config.targets.len() == 0 {
        Some(ConfigFault::NoServer)
    } else if config.names.len() == 0 {
        Some(ConfigFault::NoName)
    } else if config.record_types.len() == 0 {
        Some(ConfigFault::NoType)
    } else if config.concurrency == 0 {
        Some(ConfigFault::ZeroConcurrency)
    } else if config.workers == 0 {
        Some(ConfigFault::ZeroWorkers)
    } else if config.timeout.in_nanos() == 0 {
        Some(ConfigFault::ZeroTimeout)
    } else if config.rate == Some(0u64) {
        Some(ConfigFault::ZeroRate)
    } else if config.edns_payload < MIN_EDNS_PAYLOAD {
        Some(ConfigFault::PayloadOutOfRange)
    } else {
        match config.limit {
            RunLimit::Requests(requests) => if requests == 0 {
                Some(ConfigFault::ZeroRequests)
            } else {
                None
            },
            RunLimit::Duration(duration) => if duration.in_nanos() == 0 {
                Some(ConfigFault::ZeroDuration)
            } else {
                None
            },
        }
    }
}

impl RunConfig {
    /// Checks that there is a server, a name and a record type, and that no
    /// limit is out of its range.
    pub fn validate(&self) -> (checked: Result<(), ConfigError>)
        ensures
            match checked {
                Ok(_) => config_fault(self@) is None,
                Err(error) => config_fault(self@) == Some(error@),
            },
    {
        if self.targets.len() == 0 {
            return Err(ConfigError::NoServer);
        }
        if self.names.len() == 0 {
            return Err(ConfigError::NoName);
        }
        if self.record_types.len() == 0 {
            return Err(ConfigError::NoType);
        }
        if self.concurrency == 0 {
            return Err(ConfigError::ZeroConcurrency);
        }
        if self.workers == 0 {
            return Err(ConfigError::ZeroWorkers);
        }
        if self.timeout.is_zero() {
            return Err(ConfigError::ZeroTimeout);
        }
        if let Some(rate) = self.rate {
            if rate == 0 {
                return Err(ConfigError::ZeroRate);
            }
        }
        if self.edns_payload < MIN_EDNS_PAYLOAD {
            return Err(ConfigError::PayloadOutOfRange);
        }
        match self.limit {
            RunLimit::Requests(requests) => {
                if requests == 0 {
                    return Err(ConfigError::ZeroRequests);
                }
            },
            RunLimit::Duration(duration) => {
                if duration.is_zero() {
                    return Err(ConfigError::ZeroDuration);
                }
            },
        }
        Ok(())
    }
}

/// The server that a text of the form `LABEL=IP[:PORT]` stands for.
pub open spec fn target_of(raw: Seq<char>) -> Result<TargetModel, ConfigFault> {
    let equals = text::first_index(raw, '=');
    if equals >= raw.len() {
        Err(ConfigFault::MalformedServer { raw })
    } else {
        let label = text::trimmed(raw.take(equals));
        let address = raw.skip(equals + 1);
        if label.len() == 0 {
            Err(ConfigFault::EmptyLabel { raw })
        } else {
            match address::endpoint(address) {
                Some(endpoint) => Ok(TargetModel { label, address: endpoint }),
                None => Err(ConfigFault::InvalidAddress { address }),
            }
        }
    }
}

/// Reads a server of the form `LABEL=IP[:PORT]`.
pub fn parse_target(raw: &str) -> (parsed: Result<Target, ConfigError>)
    ensures
        match parsed {
            Ok(target) => target_of(raw@) == Ok::<TargetModel, ConfigFault>(target@),
            Err(error) => target_of(raw@) == Err::<TargetModel, ConfigFault>(error@),
        },
{
    let chars = text::chars_of(raw);
    let equals = text::find(&chars, '=');
    if equals >= chars.len() {
        return Err(ConfigError::MalformedServer { raw: text::string_of(&chars) });
    }
    assert(chars@.subrange(0, equals as int) =~= raw@.take(equals as int));
    assert(chars@.subrange(equals + 1, chars.len() as int) =~= raw@.skip(equals + 1));
    let label = text::trim(&chars[0..equals]);
    let address = &chars[equals + 1..chars.len()];
    if label.len() == 0 {
        return Err(ConfigError::EmptyLabel { raw: text::string_of(&chars) });
    }
    match address::parse_endpoint(address) {
        Some(endpoint) => Ok(Target { label: text::string_of(label), address: endpoint }),
        None => Err(ConfigError::InvalidAddress { address: text::string_of(address) }),
    }
}

/// The lines of a file of names that hold a name, without the white space
/// around it: all but blank lines and those that begin with `#`.
pub open spec fn name_lines(lines: Seq<Seq<char>>) -> Seq<Seq<char>>
    decreases lines.len(),
{
    if lines.len() == 0 {
        lines
    } else {
        let line = text::trimmed(lines.last());
        if line.len() == 0 || line.first() == '#' {
            name_lines(lines.drop_last())
        } else {
            name_lines(lines.drop_last()).push(line)
        }
    }
}

/// The names that a file of names holds.
pub open spec fn file_names(content: Seq<char>) -> Seq<Seq<char>> {
    name_lines(text::split(content, '\n'))
}

/// Appends the names that the content of a file holds, one on each line. Blank
/// lines and lines that begin with `#` hold none.
pub fn read_names(content: &str, raw_names: &mut Vec<String>)
    ensures
        text::texts(final(raw_names)@) == text::texts(old(raw_names)@) + file_names(content@),
{
    let chars = text::chars_of(content);
    let parts = text::split_at_char(&chars, '\n');
    let ghost lines = text::slices(parts@);
    let ghost before = text::texts(raw_names@);
    assert(lines.take(0) =~= Seq::empty());
    assert(before + name_lines(lines.take(0)) =~= before);
    for i in 0..parts.len()
        invariant
            lines == text::slices(parts@),
            text::texts(raw_names@) == before + name_lines(lines.take(i as int)),
    {
        let line = text::trim(parts[i]);
        assert(lines.take(i + 1).drop_last() =~= lines.take(i as int));
        assert(lines[i as int] == parts[i as int]@);
        if line.len() > 0 && line[0] != '#' {
            let ghost had = text::texts(raw_names@);
            raw_names.push(text::string_of(line));
            assert(text::texts(raw_names@) =~= had.push(line@));
            assert(had.push(line@) =~= before + name_lines(lines.take(i + 1)));
        }
    }
    assert(lines.take(parts.len() as int) =~= lines);
}

/// A name with a dot at its end.
pub open spec fn with_dot(raw: Seq<char>) -> Seq<char> {
    if raw.len() > 0 && raw.last() == '.' {
        raw
    } else {
        raw.push('.')
    }
}

/// What tells names apart: their ASCII form in small letters.
pub open spec fn name_key() -> spec_fn((Seq<Seq<u8>>, bool)) -> Seq<char> {
    |name: (Seq<Seq<u8>>, bool)| text::lowered(names::name_ascii(name.0, name.1))
}

/// The names that texts stand for, one after the other, or what is wrong with
/// the first that stands for none.
pub open spec fn listed_names(raw_names: Seq<Seq<char>>) -> Result<
    Seq<(Seq<Seq<u8>>, bool)>,
    ConfigFault,
>
    decreases raw_names.len(),
{
    if raw_names.len() == 0 {
        Ok(Seq::empty())
    } else {
        match listed_names(raw_names.drop_last()) {
            Err(fault) => Err(fault),
            Ok(before) => match names::name_from_text(with_dot(raw_names.last())) {
                Ok(name) => Ok(before.push(name)),
                Err(cause) => Err(ConfigFault::InvalidName { raw: raw_names.last(), cause }),
            },
        }
    }
}

/// The names that texts stand for, each once, in the order in which they first
/// appear.
pub open spec fn distinct_names(raw_names: Seq<Seq<char>>) -> Result<
    Seq<(Seq<Seq<u8>>, bool)>,
    ConfigFault,
> {
    match listed_names(raw_names) {
        Err(fault) => Err(fault),
        Ok(names) => Ok(distinct::kept_first(names, name_key())),
    }
}

proof fn lemma_listed_names_error_stays(raw_names: Seq<Seq<char>>, i: int)
    requires
        0 <= i <= raw_names.len(),
        listed_names(raw_names.take(i)) is Err,
    ensures
        listed_names(raw_names) == listed_names(raw_names.take(i)),
    decreases raw_names.len(),
{
    if i == raw_names.len() {
        assert(raw_names.take(i) =~= raw_names);
    } else {
        assert(raw_names.drop_last().take(i) =~= raw_names.take(i));
        lemma_listed_names_error_stays(raw_names.drop_last(), i);
    }
}

/// The texts that a list of character lists holds.
pub open spec fn char_lists(lists: Seq<Vec<char>>) -> Seq<Seq<char>> {
    lists.map_values(|list: Vec<char>| list@)
}

/// Whether a list of texts holds a text.
fn holds(lists: &Vec<Vec<char>>, s: &[char]) -> (found: bool)
    ensures
        found == char_lists(lists@).contains(s@),
{
    for i in 0..lists.len()
        invariant
            forall|j: int| 0 <= j < i ==> (#[trigger] char_lists(lists@)[j]) != s@,
    {
        if text::same(&lists[i], s) {
            assert(char_lists(lists@)[i as int] == s@);
            return true;
        }
        assert(char_lists(lists@)[i as int] != s@);
    }
    false
}

/// Adds a name to a list, where no name of it has the same ASCII form, in
/// capital or small letters. `seen` holds those forms, in small letters.
pub fn add_name(list: &mut Vec<DnsName>, seen: &mut Vec<Vec<char>>, name: DnsName, ascii: &str)
    ensures
        ({
            let known = char_lists(old(seen)@).contains(text::lowered(ascii@));
            &&& known ==> final(list)@ == old(list)@ && char_lists(final(seen)@) == char_lists(
                old(seen)@,
            )
            &&& !known ==> final(list)@ == old(list)@.push(name) && char_lists(final(seen)@)
                == char_lists(old(seen)@).push(text::lowered(ascii@))
        }),
{
    let chars = text::chars_of(ascii);
    let small = text::lower(&chars);
    if !holds(seen, &small) {
        list.push(name);
        seen.push(small);
        assert(char_lists(seen@) =~= char_lists(old(seen)@).push(text::lowered(ascii@)));
    }
}

/// Reads names, each with or without a dot at its end, and leaves out those
/// that stood earlier in the list, in capital or small letters.
pub fn parse_names(raw_names: &[String]) -> (parsed: Result<Vec<DnsName>, ConfigError>)
    ensures
        match parsed {
            Ok(list) => distinct_names(text::texts(raw_names@)) == Ok::<
                Seq<(Seq<Seq<u8>>, bool)>,
                ConfigFault,
            >(name_models(list@)) && forall|i: int|
                0 <= i < list.len() ==> (#[trigger] list[i]).wf(),
            Err(error) => distinct_names(text::texts(raw_names@)) == Err::<
                Seq<(Seq<Seq<u8>>, bool)>,
                ConfigFault,
            >(error@),
        },
{
    let ghost raws = text::texts(raw_names@);
    let ghost key = name_key();
    let ghost mut read: Seq<(Seq<Seq<u8>>, bool)> = Seq::empty();
    let mut list: Vec<DnsName> = Vec::new();
    let mut seen: Vec<Vec<char>> = Vec::new();
    assert(raws.take(0) =~= Seq::empty());
    assert(name_models(list@) =~= distinct::kept_first(read, key));
    assert(char_lists(seen@) =~= distinct::keys(name_models(list@), key));
    for i in 0..raw_names.len()
        invariant
            raws == text::texts(raw_names@),
            key == name_key(),
            listed_names(raws.take(i as int)) == Ok::<Seq<(Seq<Seq<u8>>, bool)>, ConfigFault>(read),
            name_models(list@) == distinct::kept_first(read, key),
            char_lists(seen@) == distinct::keys(name_models(list@), key),
            forall|j: int| 0 <= j < list.len() ==> (#[trigger] list[j]).wf(),
    {
        let mut raw = text::chars_of(&raw_names[i]);
        let ghost given = raw@;
        if !(raw.len() > 0 && raw[raw.len() - 1] == '.') {
            raw.push('.');
        }
        assert(raw@ == with_dot(given));
        let full = text::string_of(&raw);
        assert(raws.take(i + 1).drop_last() =~= raws.take(i as int));
        assert(raws[i as int] == given);
        match DnsName::parse(&full) {
            Ok(name) => {
                let ascii = name.to_ascii();
                let ghost value = name@;
                let ghost had = name_models(list@);
                let ghost had_keys = char_lists(seen@);
                proof {
                    distinct::law_kept_first_keeps_keys(read, key, key(value));
                    distinct::lemma_keys_hold(had, key, key(value));
                }
                assert(text::lowered(ascii@) == key(value));
                assert(read.push(value).drop_last() =~= read);
                add_name(&mut list, &mut seen, name, &ascii);
                proof {
                    if !had_keys.contains(key(value)) {
                        assert(name_models(list@) =~= had.push(value));
                        assert(char_lists(seen@) =~= distinct::keys(name_models(list@), key));
                    }
                    read = read.push(value);
                }
            },
            Err(cause) => {
                proof {
                    lemma_listed_names_error_stays(raws, i + 1);
                }
                let given_text = raw_names[i].clone();
                return Err(ConfigError::InvalidName { raw: given_text, cause });
            },
        }
    }
    assert(raws.take(raw_names.len() as int) =~= raws);
    Ok(list)
}

/// What tells servers apart: their labels in small letters.
pub open spec fn label_key() -> spec_fn(TargetModel) -> Seq<char> {
    |target: TargetModel| text::lowered(target.label)
}

/// The servers that texts stand for, or what is wrong with the first that
/// stands for none or has the label of an earlier one.
pub open spec fn listed_targets(servers: Seq<Seq<char>>) -> Result<Seq<TargetModel>, ConfigFault>
    decreases servers.len(),
{
    if servers.len() == 0 {
        Ok(Seq::empty())
    } else {
        match listed_targets(servers.drop_last()) {
            Err(fault) => Err(fault),
            Ok(before) => match target_of(servers.last()) {
                Err(fault) => Err(fault),
                Ok(target) => if distinct::occurs(
                    before,
                    label_key(),
                    text::lowered(target.label),
                ) {
                    Err(ConfigFault::DuplicateLabel { label: target.label })
                } else {
                    Ok(before.push(target))
                },
            },
        }
    }
}

proof fn lemma_listed_targets_error_stays(servers: Seq<Seq<char>>, i: int)
    requires
        0 <= i <= servers.len(),
        listed_targets(servers.take(i)) is Err,
    ensures
        listed_targets(servers) == listed_targets(servers.take(i)),
    decreases servers.len(),
{
    if i == servers.len() {
        assert(servers.take(i) =~= servers);
    } else {
        assert(servers.drop_last().take(i) =~= servers.take(i));
        lemma_listed_targets_error_stays(servers.drop_last(), i);
    }
}

/// Reads servers whose labels differ, in capital and small letters alike.
#[verifier::rlimit(60)]
#[verifier::spinoff_prover]
pub fn parse_targets(servers: &[String]) -> (parsed: Result<Vec<Target>, ConfigError>)
    ensures
        match parsed {
            Ok(targets) => listed_targets(text::texts(servers@)) == Ok::<
                Seq<TargetModel>,
                ConfigFault,
            >(target_models(targets@)),
            Err(error) => listed_targets(text::texts(servers@)) == Err::<
                Seq<TargetModel>,
                ConfigFault,
            >(error@),
        },
{
    let ghost raws = text::texts(servers@);
    let ghost key = label_key();
    let mut targets: Vec<Target> = Vec::new();
    let mut labels: Vec<Vec<char>> = Vec::new();
    assert(raws.take(0) =~= Seq::empty());
    assert(target_models(targets@) =~= Seq::empty());
    assert(char_lists(labels@) =~= distinct::keys(target_models(targets@), key));
    for i in 0..servers.len()
        invariant
            raws == text::texts(servers@),
            key == label_key(),
            listed_targets(raws.take(i as int)) == Ok::<Seq<TargetModel>, ConfigFault>(
                target_models(targets@),
            ),
            char_lists(labels@) == distinct::keys(target_models(targets@), key),
    {
        assert(raws.take(i + 1).drop_last() =~= raws.take(i as int));
        assert(raws[i as int] == servers[i as int]@);
        match parse_target(&servers[i]) {
            Ok(target) => {
                let label = text::chars_of(&target.label);
                let small = text::lower(&label);
                let ghost before = target_models(targets@);
                assert(small@ == key(target@));
                let found = holds(&labels, &small);
                proof {
                    distinct::lemma_keys_hold(before, key, small@);
                }
                if found {
                    proof {
                        lemma_listed_targets_error_stays(raws, i + 1);
                    }
                    return Err(ConfigError::DuplicateLabel { label: target.label });
                }
                let ghost value = target@;
                let ghost had_keys = char_lists(labels@);
                targets.push(target);
                labels.push(small);
                assert(char_lists(labels@) =~= had_keys.push(key(value)));
                assert(target_models(targets@) =~= before.push(value));
                assert(char_lists(labels@) =~= distinct::keys(target_models(targets@), key));
            },
            Err(error) => {
                proof {
                    lemma_listed_targets_error_stays(raws, i + 1);
                }
                return Err(error);
            },
        }
    }
    assert(raws.take(servers.len() as int) =~= raws);
    Ok(targets)
}

/// The length of time that a text stands for, or what is wrong with the text.
pub open spec fn length_value(raw: Seq<char>) -> Result<Span, humantime::DurationError> {
    match span::duration_value(raw) {
        Ok(value) => Ok(Span { secs: value.0, nanos: value.1 }),
        Err(cause) => Err(cause),
    }
}

/// The limit that the command line asks for, given what was read of its duration,
/// where that sets the limit.
pub open spec fn given_limit(
    cli: Cli,
    duration: Option<Result<Span, humantime::DurationError>>,
) -> Result<RunLimit, ConfigFault> {
    match (cli.requests, cli.duration, duration) {
        (Some(_), Some(_), _) => Err(ConfigFault::TwoLimits),
        (Some(requests), None, _) => Ok(RunLimit::Requests(requests)),
        (None, Some(_), Some(Ok(length))) => Ok(RunLimit::Duration(length)),
        (None, Some(raw), Some(Err(cause))) => Err(
            ConfigFault::InvalidDuration { raw: raw@, cause },
        ),
        (None, _, _) => Ok(RunLimit::Requests(DEFAULT_REQUESTS)),
    }
}

/// The names that the command line gives, with those of the file of names.
pub open spec fn cli_names(cli: Cli, file: Option<Seq<char>>) -> Result<
    Seq<Seq<char>>,
    ConfigFault,
> {
    let given = text::texts(cli.names@);
    match (cli.names_file, file) {
        (None, _) => Ok(given),
        (Some(_), Some(content)) => Ok(given + file_names(content)),
        (Some(path), None) => Err(ConfigFault::UnreadableNames { path: path@ }),
    }
}

/// The configuration that the command line asks for, given the content of the
/// file of names, where it could be read, and what was read of its duration,
/// where that sets the limit, and of its timeout; or the first thing that is
/// wrong.
pub open spec fn given_config(
    cli: Cli,
    file: Option<Seq<char>>,
    duration: Option<Result<Span, humantime::DurationError>>,
    timeout: Result<Span, humantime::DurationError>,
) -> Result<RunModel, ConfigFault> {
    match listed_targets(text::texts(cli.servers@)) {
        Err(fault) => Err(fault),
        Ok(targets) => match cli_names(cli, file) {
            Err(fault) => Err(fault),
            Ok(raw_names) => match distinct_names(raw_names) {
                Err(fault) => Err(fault),
                Ok(names) => match record_type::read_types(text::texts(cli.record_types@)) {
                    Err(fault) => Err(fault),
                    Ok(record_types) => match given_limit(cli, duration) {
                        Err(fault) => Err(fault),
                        Ok(limit) => match timeout {
                            Err(cause) => Err(
                                ConfigFault::InvalidTimeout { raw: cli.timeout@, cause },
                            ),
                            Ok(timeout) => {
                                let config = RunModel {
                                    targets,
                                    names,
                                    record_types,
                                    transport: cli.transport,
                                    limit,
                                    concurrency: cli.concurrency,
                                    rate: cli.rate,
                                    timeout,
                                    warmup: cli.warmup,
                                    dnssec: cli.dnssec,
                                    edns_payload: cli.edns_payload,
                                    workers: cli.workers,
                                    seed: cli.seed,
                                };
                                match config_fault(config) {
                                    Some(fault) => Err(fault),
                                    None => Ok(config),
                                }
                            },
                        },
                    },
                },
            },
        },
    }
}

/// The length of time that the duration on the command line stands for, where
/// there is one.
pub open spec fn cli_duration(cli: Cli) -> Option<Result<Span, humantime::DurationError>> {
    match cli.duration {
        Some(raw) => Some(length_value(raw@)),
        None => None,
    }
}

/// The configuration that the command line asks for, given the content of the
/// file of names, where it could be read; or the first thing that is wrong.
pub open spec fn cli_config(cli: Cli, file: Option<Seq<char>>) -> Result<RunModel, ConfigFault> {
    given_config(cli, file, cli_duration(cli), length_value(cli.timeout@))
}

/// Whether the duration on the command line sets the limit.
pub open spec fn takes_duration(cli: Cli) -> bool {
    cli.requests is None && cli.duration is Some
}

/// Whether the lengths of time on the command line can be read without an
/// overflow.
pub open spec fn plain_lengths(cli: Cli) -> bool {
    &&& span::is_plain_duration(cli.timeout@)
    &&& takes_duration(cli) ==> span::is_plain_duration(cli.duration->0@)
}

/// Whether the lengths of time that were read hold less than a second of
/// nanoseconds.
pub open spec fn lengths_wf(
    duration: Option<Result<Span, humantime::DurationError>>,
    timeout: Result<Span, humantime::DurationError>,
) -> bool {
    &&& duration is Some && duration->0 is Ok ==> duration->0->Ok_0.wf()
    &&& timeout is Ok ==> timeout->Ok_0.wf()
}

fn limit_of(cli: &Cli, duration: Option<Result<Span, humantime::DurationError>>) -> (limit: Result<
    RunLimit,
    ConfigError,
>)
    requires
        takes_duration(*cli) ==> duration is Some,
    ensures
        match limit {
            Ok(limit) => given_limit(*cli, duration) == Ok::<RunLimit, ConfigFault>(
                limit,
            ),
            Err(error) => given_limit(*cli, duration) == Err::<
                RunLimit,
                ConfigFault,
            >(error@),
        },
{
    match (&cli.requests, &cli.duration, duration) {
        (Some(_), Some(_), _) => Err(ConfigError::TwoLimits),
        (Some(requests), None, _) => Ok(RunLimit::Requests(*requests)),
        (None, Some(_), Some(Ok(length))) => Ok(RunLimit::Duration(length)),
        (None, Some(raw), Some(Err(cause))) => {
            let raw = raw.clone();
            Err(ConfigError::InvalidDuration { raw, cause })
        },
        _ => Ok(RunLimit::Requests(DEFAULT_REQUESTS)),
    }
}

impl RunConfig {
    /// The configuration that the command line asks for. `names_file` is the
    /// content of the file of names, where one is named and could be read.
    pub fn from_cli(cli: &Cli, names_file: Option<&str>) -> (made: Result<RunConfig, ConfigError>)
        requires
            plain_lengths(*cli),
        ensures
            match made {
                Ok(config) => config.wf() && cli_config(*cli, file_text(names_file)) == Ok::<
                    RunModel,
                    ConfigFault,
                >(config@),
                Err(error) => cli_config(*cli, file_text(names_file)) == Err::<
                    RunModel,
                    ConfigFault,
                >(error@),
            },
    {
        let duration = match (&cli.requests, &cli.duration) {
            (None, Some(raw)) => Some(Span::parse(raw)),
            _ => None,
        };
        let timeout = Span::parse(&cli.timeout);
        assert(takes_duration(*cli) ==> duration == cli_duration(*cli));
        assert(given_limit(*cli, duration) == given_limit(*cli, cli_duration(*cli)));
        assert(timeout == length_value(cli.timeout@));
        RunConfig::from_lengths(cli, names_file, duration, timeout)
    }

    /// The configuration that the command line asks for, given what was read of
    /// its duration, where that sets the limit, and of its timeout. `names_file`
    /// is the content of the file of names, where one is named and could be
    /// read.
    pub fn from_lengths(
        cli: &Cli,
        names_file: Option<&str>,
        duration: Option<Result<Span, humantime::DurationError>>,
        timeout: Result<Span, humantime::DurationError>,
    ) -> (made: Result<RunConfig, ConfigError>)
        requires
            takes_duration(*cli) ==> duration is Some,
        ensures
            match made {
                Ok(config) => given_config(
                    *cli,
                    file_text(names_file),
                    duration,
                    timeout,
                ) == Ok::<RunModel, ConfigFault>(config@) && (lengths_wf(
                    duration,
                    timeout,
                ) ==> config.wf()),
                Err(error) => given_config(
                    *cli,
                    file_text(names_file),
                    duration,
                    timeout,
                ) == Err::<RunModel, ConfigFault>(error@),
            },
    {
        let targets = match parse_targets(&cli.servers) {
            Ok(targets) => targets,
            Err(error) => {
                return Err(error);
            },
        };
        let mut raw_names: Vec<String> = Vec::new();
        for i in 0..cli.names.len()
            invariant
                text::texts(raw_names@) == text::texts(cli.names@).take(i as int),
        {
            let name = cli.names[i].clone();
            let ghost had = text::texts(raw_names@);
            raw_names.push(name);
            assert(text::texts(raw_names@) =~= had.push(name@));
            assert(text::texts(raw_names@) =~= text::texts(cli.names@).take(i + 1));
        }
        assert(text::texts(raw_names@) =~= text::texts(cli.names@));
        if let Some(path) = &cli.names_file {
            match names_file {
                Some(content) => read_names(content, &mut raw_names),
                None => {
                    return Err(ConfigError::UnreadableNames { path: path.clone() });
                },
            }
        }
        let names = match parse_names(&raw_names) {
            Ok(names) => names,
            Err(error) => {
                return Err(error);
            },
        };
        let record_types = match parse_record_types(&cli.record_types) {
            Ok(record_types) => record_types,
            Err(error) => {
                return Err(error);
            },
        };
        let limit = match limit_of(cli, duration) {
            Ok(limit) => limit,
            Err(error) => {
                return Err(error);
            },
        };
        let timeout = match timeout {
            Ok(timeout) => timeout,
            Err(cause) => {
                let raw = cli.timeout.clone();
                return Err(ConfigError::InvalidTimeout { raw, cause });
            },
        };
        let config = RunConfig {
            targets,
            names,
            record_types,
            transport: cli.transport,
            limit,
            concurrency: cli.concurrency,
            rate: cli.rate,
            timeout,
            warmup: cli.warmup,
            dnssec: cli.dnssec,
            edns_payload: cli.edns_payload,
            workers: cli.workers,
            seed: cli.seed,
        };
        match config.validate() {
            Ok(_) => Ok(config),
            Err(error) => Err(error),
        }
    }
}

/// The text of a file, where it could be read.
pub open spec fn file_text(file: Option<&str>) -> Option<Seq<char>> {
    match file {
        Some(content) => Some(content@),
        None => None,
    }
}

/// No two servers of a list that is accepted have the same label, in capital or
/// small letters.
pub proof fn law_labels_are_distinct(servers: Seq<Seq<char>>)
    ensures
        match listed_targets(servers) {
            Ok(targets) => distinct::all_distinct(targets, label_key()),
            Err(_) => true,
        },
    decreases servers.len(),
{
    if servers.len() > 0 {
        law_labels_are_distinct(servers.drop_last());
        if let Ok(targets) = listed_targets(servers) {
            let key = label_key();
            let before = targets.drop_last();
            let target = targets.last();
            assert(listed_targets(servers.drop_last()) == Ok::<Seq<TargetModel>, ConfigFault>(
                before,
            )) by {
                let read = listed_targets(servers.drop_last())->Ok_0;
                assert(read.push(target).drop_last() =~= read);
            }
            assert forall|i: int, j: int| 0 <= i < j < targets.len() implies key(
                #[trigger] targets[i],
            ) != key(#[trigger] targets[j]) by {
                assert(before[i] == targets[i]);
                if j < before.len() {
                    assert(before[j] == targets[j]);
                }
            }
        }
    }
}

/// A configuration that the command line is accepted for passes every check,
/// and its servers, names and record types are each listed once.
pub proof fn law_accepted_config_is_sound(cli: Cli, file: Option<Seq<char>>)
    ensures
        match cli_config(cli, file) {
            Ok(config) => {
                &&& config_fault(config) is None
                &&& distinct::all_distinct(config.targets, label_key())
                &&& distinct::all_distinct(config.names, name_key())
                &&& distinct::all_distinct(config.record_types, |code: u16| code)
            },
            Err(_) => true,
        },
{
    if let Ok(config) = cli_config(cli, file) {
        law_labels_are_distinct(text::texts(cli.servers@));
        distinct::law_kept_first_is_distinct(
            listed_names(cli_names(cli, file)->Ok_0)->Ok_0,
            name_key(),
        );
        let codes = record_type::listed_codes(
            record_type::all_tokens(text::texts(cli.record_types@)),
        )->Ok_0;
        distinct::law_kept_first_is_distinct(codes, |code: u16| code);
    }
}

} // verus!
