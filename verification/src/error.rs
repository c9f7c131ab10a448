//! What is wrong with a configuration or with the choice of an output.

use vstd::prelude::*;

verus! {

/// Why a configuration is refused.
#[derive(Debug)]
#[allow(inconsistent_fields)]
pub enum ConfigError {
    /// A server is not of the form `LABEL=IP[:PORT]`.
    MalformedServer { raw: String },
    /// The label of a server is empty.
    EmptyLabel { raw: String },
    /// The address of a server cannot be read.
    InvalidAddress { address: String },
    /// Two servers have the same label.
    DuplicateLabel { label: String },
    /// The file of names could not be read.
    UnreadableNames { path: String },
    /// A DNS name cannot be read.
    InvalidName { raw: String, cause: hickory_proto::ProtoError },
    /// The number of a record type cannot be read.
    InvalidTypeNumber { raw: String },
    /// A record type has no such name.
    UnknownType { raw: String, cause: hickory_proto::serialize::binary::DecodeError },
    /// A record type cannot be asked for.
    NotAQuestion { raw: String },
    /// No record type is given.
    NoRecordType,
    /// Both a number of requests and a duration are given.
    TwoLimits,
    /// The duration of the run cannot be read.
    InvalidDuration { raw: String, cause: humantime::DurationError },
    /// The timeout cannot be read.
    InvalidTimeout { raw: String, cause: humantime::DurationError },
    /// There is no server.
    NoServer,
    /// There is no name.
    NoName,
    /// There is no record type.
    NoType,
    /// The concurrency is zero.
    ZeroConcurrency,
    /// There are no worker threads.
    ZeroWorkers,
    /// The timeout is zero.
    ZeroTimeout,
    /// The rate is zero.
    ZeroRate,
    /// The EDNS payload size is too small.
    PayloadOutOfRange,
    /// No request is to be made.
    ZeroRequests,
    /// The run is to last no time.
    ZeroDuration,
}

/// What a `ConfigError` says, and the cause that an outside parser gave.
#[allow(inconsistent_fields)]
pub ghost enum ConfigFault {
    MalformedServer { raw: Seq<char> },
    EmptyLabel { raw: Seq<char> },
    InvalidAddress { address: Seq<char> },
    DuplicateLabel { label: Seq<char> },
    UnreadableNames { path: Seq<char> },
    InvalidName { raw: Seq<char>, cause: hickory_proto::ProtoError },
    InvalidTypeNumber { raw: Seq<char> },
    UnknownType { raw: Seq<char>, cause: hickory_proto::serialize::binary::DecodeError },
    NotAQuestion { raw: Seq<char> },
    NoRecordType,
    TwoLimits,
    InvalidDuration { raw: Seq<char>, cause: humantime::DurationError },
    InvalidTimeout { raw: Seq<char>, cause: humantime::DurationError },
    NoServer,
    NoName,
    NoType,
    ZeroConcurrency,
    ZeroWorkers,
    ZeroTimeout,
    ZeroRate,
    PayloadOutOfRange,
    ZeroRequests,
    ZeroDuration,
}

impl ConfigError {
    /// What the error says, and the cause that an outside parser gave.
    pub open spec fn view(self) -> ConfigFault {
        match self {
            ConfigError::MalformedServer { raw } => ConfigFault::MalformedServer { raw: raw@ },
            ConfigError::EmptyLabel { raw } => ConfigFault::EmptyLabel { raw: raw@ },
            ConfigError::InvalidAddress { address } => ConfigFault::InvalidAddress {
                address: address@,
            },
            ConfigError::DuplicateLabel { label } => ConfigFault::DuplicateLabel { label: label@ },
            ConfigError::UnreadableNames { path } => ConfigFault::UnreadableNames { path: path@ },
            ConfigError::InvalidName { raw, cause } => ConfigFault::InvalidName {
                raw: raw@,
                cause,
            },
            ConfigError::InvalidTypeNumber { raw } => ConfigFault::InvalidTypeNumber { raw: raw@ },
            ConfigError::UnknownType { raw, cause } => ConfigFault::UnknownType {
                raw: raw@,
                cause,
            },
            ConfigError::NotAQuestion { raw } => ConfigFault::NotAQuestion { raw: raw@ },
            ConfigError::NoRecordType => ConfigFault::NoRecordType,
            ConfigError::TwoLimits => ConfigFault::TwoLimits,
            ConfigError::InvalidDuration { raw, cause } => ConfigFault::InvalidDuration {
                raw: raw@,
                cause,
            },
            ConfigError::InvalidTimeout { raw, cause } => ConfigFault::InvalidTimeout {
                raw: raw@,
                cause,
            },
            ConfigError::NoServer => ConfigFault::NoServer,
            ConfigError::NoName => ConfigFault::NoName,
            ConfigError::NoType => ConfigFault::NoType,
            ConfigError::ZeroConcurrency => ConfigFault::ZeroConcurrency,
            ConfigError::ZeroWorkers => ConfigFault::ZeroWorkers,
            ConfigError::ZeroTimeout => ConfigFault::ZeroTimeout,
            ConfigError::ZeroRate => ConfigFault::ZeroRate,
            ConfigError::PayloadOutOfRange => ConfigFault::PayloadOutOfRange,
            ConfigError::ZeroRequests => ConfigFault::ZeroRequests,
            ConfigError::ZeroDuration => ConfigFault::ZeroDuration,
        }
    }
}

/// A text in quotation marks, with what has to be escaped escaped.
pub uninterp spec fn debug_text(text: Seq<char>) -> Seq<char>;

/// The `Debug` form of a text is a function of the text.
#[verifier::external_body]
fn debug_form(raw: &str) -> (shown: String)
    ensures
        shown@ == debug_text(raw@),
{
    format!("{raw:?}")
}

/// A message around a text in quotation marks.
pub open spec fn around(before: Seq<char>, raw: Seq<char>, after: Seq<char>) -> Seq<char> {
    before + debug_text(raw) + after
}

fn around_text(before: &str, raw: &str, after: &str) -> (message: String)
    ensures
        message@ == around(before@, raw@, after@),
{
    let mut message = String::new();
    let shown = debug_form(raw);
    message.push_str(before);
    message.push_str(&shown);
    message.push_str(after);
    assert(message@ =~= around(before@, raw@, after@));
    message
}

/// The message for what is wrong with a configuration.
pub open spec fn fault_message(fault: ConfigFault) -> Seq<char> {
    match fault {
        ConfigFault::MalformedServer { raw } => around(
            "invalid server "@,
            raw,
            "; expected LABEL=IP[:PORT]"@,
        ),
        ConfigFault::EmptyLabel { raw } => around(
            "server label cannot be empty in "@,
            raw,
            ""@,
        ),
        ConfigFault::InvalidAddress { address } => around(
            "invalid server address "@,
            address,
            "; use an IP, IPv4:port, or [IPv6]:port"@,
        ),
        ConfigFault::DuplicateLabel { label } => around(
            "duplicate server label "@,
            label,
            ""@,
        ),
        ConfigFault::InvalidName { raw, cause } => around(
            "invalid DNS name "@,
            raw,
            ""@,
        ),
        ConfigFault::InvalidTypeNumber { raw } => around(
            "invalid numeric DNS record type "@,
            raw,
            ""@,
        ),
        ConfigFault::UnknownType { raw, cause } => around(
            "invalid DNS record type "@,
            raw,
            ""@,
        ),
        ConfigFault::NotAQuestion { raw } => around(
            "record type "@,
            raw,
            " cannot be used as a standalone question"@,
        ),
        ConfigFault::InvalidDuration { raw, cause } => around(
            "invalid --duration "@,
            raw,
            ""@,
        ),
        ConfigFault::InvalidTimeout { raw, cause } => around(
            "invalid --timeout "@,
            raw,
            ""@,
        ),
        ConfigFault::UnreadableNames { path } => "failed to read names file "@ + path,
        ConfigFault::NoRecordType => "at least one DNS record type is required"@,
        ConfigFault::TwoLimits => "use either --requests or --duration, not both"@,
        ConfigFault::NoServer => "at least one --server LABEL=IP[:PORT] is required"@,
        ConfigFault::NoName => "at least one --name or a non-empty --names-file is required"@,
        ConfigFault::NoType => "at least one --type is required"@,
        ConfigFault::ZeroConcurrency => "--concurrency must be greater than zero"@,
        ConfigFault::ZeroWorkers => "--workers must be greater than zero"@,
        ConfigFault::ZeroTimeout => "--timeout must be greater than zero"@,
        ConfigFault::ZeroRate => "--rate must be greater than zero"@,
        ConfigFault::PayloadOutOfRange => "--edns-payload must be between 512 and 65535"@,
        ConfigFault::ZeroRequests => "--requests must be greater than zero"@,
        ConfigFault::ZeroDuration => "--duration must be greater than zero"@,
    }
}

impl ConfigError {
    /// The message for what is wrong, without the cause that an outside parser
    /// gave.
    pub fn message(&self) -> (message: String)
        ensures
            message@ == fault_message(self@),
    {
        match self {
            ConfigError::MalformedServer { raw } => around_text(
                "invalid server ",
                raw,
                "; expected LABEL=IP[:PORT]",
            ),
            ConfigError::EmptyLabel { raw } => around_text(
                "server label cannot be empty in ",
                raw,
                "",
            ),
            ConfigError::InvalidAddress { address } => around_text(
                "invalid server address ",
                address,
                "; use an IP, IPv4:port, or [IPv6]:port",
            ),
            ConfigError::DuplicateLabel { label } => around_text(
                "duplicate server label ",
                label,
                "",
            ),
            ConfigError::InvalidName { raw, cause: _ } => around_text(
                "invalid DNS name ",
                raw,
                "",
            ),
            ConfigError::InvalidTypeNumber { raw } => around_text(
                "invalid numeric DNS record type ",
                raw,
                "",
            ),
            ConfigError::UnknownType { raw, cause: _ } => around_text(
                "invalid DNS record type ",
                raw,
                "",
            ),
            ConfigError::NotAQuestion { raw } => around_text(
                "record type ",
                raw,
                " cannot be used as a standalone question",
            ),
            ConfigError::InvalidDuration { raw, cause: _ } => around_text(
                "invalid --duration ",
                raw,
                "",
            ),
            ConfigError::InvalidTimeout { raw, cause: _ } => around_text(
                "invalid --timeout ",
                raw,
                "",
            ),
            ConfigError::UnreadableNames { path } => {
                let mut message = "failed to read names file ".to_owned();
                message.push_str(path);
                message
            },
            ConfigError::NoRecordType => "at least one DNS record type is required".to_owned(),
            ConfigError::TwoLimits => "use either --requests or --duration, not both".to_owned(),
            ConfigError::NoServer => "at least one --server LABEL=IP[:PORT] is required".to_owned(),
            ConfigError::NoName => "at least one --name or a non-empty --names-file is required".to_owned(),
            ConfigError::NoType => "at least one --type is required".to_owned(),
            ConfigError::ZeroConcurrency => "--concurrency must be greater than zero".to_owned(),
            ConfigError::ZeroWorkers => "--workers must be greater than zero".to_owned(),
            ConfigError::ZeroTimeout => "--timeout must be greater than zero".to_owned(),
            ConfigError::ZeroRate => "--rate must be greater than zero".to_owned(),
            ConfigError::PayloadOutOfRange => "--edns-payload must be between 512 and 65535".to_owned(),
            ConfigError::ZeroRequests => "--requests must be greater than zero".to_owned(),
            ConfigError::ZeroDuration => "--duration must be greater than zero".to_owned(),
        }
    }
}

} // verus!
