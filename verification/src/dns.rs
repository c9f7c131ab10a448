//! DNS messages: the queries that are sent, and what is observed of responses.

use vstd::prelude::*;

use crate::names::DnsName;
use crate::record_type;
use crate::record_type::RecordType;
use crate::text;

verus! {

/// What is observed of a response.
#[derive(Debug)]
pub struct ResponseObservation {
    pub response_code: String,
    pub truncated: bool,
    pub authenticated_data: bool,
    pub rrsig_response: bool,
    pub dnssec_records: u64,
}

/// What a `ResponseObservation` holds.
pub ghost struct ObservationModel {
    pub response_code: Seq<char>,
    pub truncated: bool,
    pub authenticated_data: bool,
    pub rrsig_response: bool,
    pub dnssec_records: nat,
}

/// A decoded message, as far as it is looked at.
#[derive(Debug)]
pub struct DnsMessage {
    pub id: u16,
    pub is_response: bool,
    pub response_code: String,
    pub truncated: bool,
    pub authentic_data: bool,
    /// The types of the records of all sections, in order.
    pub record_types: Vec<RecordType>,
}

/// What a `DnsMessage` holds.
pub ghost struct MessageModel {
    pub id: u16,
    pub is_response: bool,
    pub response_code: Seq<char>,
    pub truncated: bool,
    pub authentic_data: bool,
    pub record_types: Seq<u16>,
}

/// Why a response is not accepted.
#[derive(Debug)]
pub enum ResponseError {
    /// The bytes are no DNS message.
    Malformed { cause: hickory_proto::serialize::binary::DecodeError },
    /// The response belongs to another query.
    IdMismatch { expected: u16, received: u16 },
    /// The message is a query.
    NotAResponse,
}

/// What a `ResponseError` says, and the cause that the decoder gave.
pub ghost enum ResponseFault {
    Malformed { cause: hickory_proto::serialize::binary::DecodeError },
    IdMismatch { expected: u16, received: u16 },
    NotAResponse,
}

impl ResponseObservation {
    /// What the observation holds.
    pub open spec fn view(self) -> ObservationModel {
        ObservationModel {
            response_code: self.response_code@,
            truncated: self.truncated,
            authenticated_data: self.authenticated_data,
            rrsig_response: self.rrsig_response,
            dnssec_records: self.dnssec_records as nat,
        }
    }
}

impl DnsMessage {
    /// What the message holds.
    pub open spec fn view(self) -> MessageModel {
        MessageModel {
            id: self.id,
            is_response: self.is_response,
            response_code: self.response_code@,
            truncated: self.truncated,
            authentic_data: self.authentic_data,
            record_types: record_type::codes_of(self.record_types@),
        }
    }
}

impl ResponseError {
    /// What the error says, and the cause that the decoder gave.
    pub open spec fn view(self) -> ResponseFault {
        match self {
            ResponseError::Malformed { cause } => ResponseFault::Malformed { cause },
            ResponseError::IdMismatch { expected, received } => ResponseFault::IdMismatch {
                expected,
                received,
            },
            ResponseError::NotAResponse => ResponseFault::NotAResponse,
        }
    }
}

/// The message for why a response is refused.
pub open spec fn fault_message(fault: ResponseFault) -> Seq<char> {
    match fault {
        ResponseFault::Malformed { cause } => "malformed DNS response"@,
        ResponseFault::IdMismatch { expected, received } =>
            "DNS transaction ID mismatch: expected "@ + text::decimal(expected as nat)
            + ", received "@ + text::decimal(received as nat),
        ResponseFault::NotAResponse => "received a DNS query instead of a response"@,
    }
}

impl ResponseError {
    /// The message for why a response is refused, without the cause that the
    /// decoder gave.
    pub fn message(&self) -> (message: String)
        ensures
            message@ == fault_message(self@),
    {
        match self {
            ResponseError::Malformed { cause: _ } => "malformed DNS response".to_owned(),
            ResponseError::IdMismatch { expected, received } => {
                let mut message = "DNS transaction ID mismatch: expected ".to_owned();
                text::push_decimal(&mut message, *expected as u64);
                message.push_str(", received ");
                text::push_decimal(&mut message, *received as u64);
                message
            },
            ResponseError::NotAResponse => "received a DNS query instead of a response".to_owned(),
        }
    }
}

/// A number in two octets, the high one first.
pub open spec fn two_octets(n: int) -> Seq<u8> {
    seq![(n / 256) as u8, (n % 256) as u8]
}

/// The labels of a name on the wire, without the root label.
pub open spec fn labels_wire(labels: Seq<Seq<u8>>) -> Seq<u8>
    decreases labels.len(),
{
    if labels.len() == 0 {
        Seq::empty()
    } else {
        labels_wire(labels.drop_last()) + seq![labels.last().len() as u8] + labels.last()
    }
}

/// The header of a query that asks for recursion or not, and holds one question
/// and one additional record.
pub open spec fn query_header(id: u16, recursion_desired: bool) -> Seq<u8> {
    let flags: u8 = if recursion_desired {
        1
    } else {
        0
    };
    two_octets(id as int) + seq![flags, 0u8] + two_octets(1) + two_octets(0) + two_octets(0)
        + two_octets(1)
}

/// The question for a name and a record type in the class `IN`.
pub open spec fn question_wire(labels: Seq<Seq<u8>>, code: u16) -> Seq<u8> {
    labels_wire(labels) + seq![0u8] + two_octets(code as int) + two_octets(1)
}

/// The EDNS record: the root name, the type `OPT`, the payload size, the flags
/// with the DNSSEC OK bit, and no options.
pub open spec fn edns_wire(dnssec: bool, edns_payload: u16) -> Seq<u8> {
    let payload: int = if edns_payload < 512 {
        512
    } else {
        edns_payload as int
    };
    let flags: int = if dnssec {
        0x8000
    } else {
        0
    };
    seq![0u8] + two_octets(record_type::OPT as int) + two_octets(payload) + two_octets(0)
        + two_octets(flags) + two_octets(0)
}

/// A query on the wire that asks for recursion or not.
pub open spec fn message_wire(
    id: u16,
    recursion_desired: bool,
    labels: Seq<Seq<u8>>,
    code: u16,
    dnssec: bool,
    edns_payload: u16,
) -> Seq<u8> {
    query_header(id, recursion_desired) + question_wire(labels, code) + edns_wire(
        dnssec,
        edns_payload,
    )
}

/// A query on the wire, as it is sent: it asks for recursion.
pub open spec fn query_wire(
    id: u16,
    labels: Seq<Seq<u8>>,
    code: u16,
    dnssec: bool,
    edns_payload: u16,
) -> Seq<u8> {
    message_wire(id, true, labels, code, dnssec, edns_payload)
}

/// What a query is decoded to: its identifier, no response, no flags, no error
/// and no records but the one of EDNS, which is not among those looked at.
pub open spec fn query_message(id: u16) -> MessageModel {
    MessageModel {
        id,
        is_response: false,
        response_code: "NoError"@,
        truncated: false,
        authentic_data: false,
        record_types: Seq::empty(),
    }
}

/// What the bytes of a message are decoded to, or what is wrong with them.
pub uninterp spec fn decoded_message(wire: Seq<u8>) -> Result<
    MessageModel,
    hickory_proto::serialize::binary::DecodeError,
>;

/// `Message::to_vec`, of a query that is made of these parts with `Message::new`,
/// `Query::query` and `Edns::new`, writes the header, the question and the EDNS
/// record one after the other, and no name of it is shortened to a pointer. It
/// accepts every name of valid labels. `Message::from_vec` reads what it writes
/// back as that query.
#[verifier::external_body]
fn encode_query(
    id: u16,
    recursion_desired: bool,
    name: &DnsName,
    record_type: RecordType,
    dnssec: bool,
    edns_payload: u16,
) -> (encoded: Result<Vec<u8>, hickory_proto::ProtoError>)
    requires
        name.wf(),
    ensures
        encoded is Ok,
        encoded->Ok_0@ == message_wire(
            id,
            recursion_desired,
            name.octets(),
            record_type.code,
            dnssec,
            edns_payload,
        ),
        decoded_message(encoded->Ok_0@) is Ok,
        decoded_message(encoded->Ok_0@)->Ok_0 == query_message(id),
{
    let labels = name.labels.iter().map(|label| label.as_slice());
    let mut full = hickory_proto::rr::Name::from_labels(labels)?;
    full.set_fqdn(name.fqdn);
    let (query, code) = (hickory_proto::op::MessageType::Query, record_type.code.into());
    let mut message = hickory_proto::op::Message::new(id, query, hickory_proto::op::OpCode::Query);
    message.metadata.recursion_desired = recursion_desired;
    message.add_query(hickory_proto::op::Query::query(full, code));
    let mut edns = hickory_proto::op::Edns::new();
    edns.set_max_payload(edns_payload).set_dnssec_ok(dnssec);
    message.set_edns(edns);
    message.to_vec()
}

/// What the header of a message says, of one that could be decoded.
pub open spec fn header_agrees(wire: Seq<u8>, message: MessageModel) -> bool {
    &&& wire.len() >= 12
    &&& message.id == wire[0] * 256 + wire[1]
    &&& message.is_response == (wire[2] >= 128)
    &&& message.truncated == (wire[2] as int / 2 % 2 == 1)
    &&& message.authentic_data == (wire[3] as int / 32 % 2 == 1)
    &&& message.response_code == "NoError"@ ==> wire[3] as int % 16 == 0
}

/// `Message::from_vec` is a function of the bytes. The identifier and the flags
/// of the message are those of the header, and a response code without an error
/// takes a zero in the header. The response code is handed out in its `Debug`
/// form. Which bytes are a message, and which records it holds, is left unsaid.
#[verifier::external_body]
fn decode_message(wire: &[u8]) -> (decoded: Result<
    DnsMessage,
    hickory_proto::serialize::binary::DecodeError,
>)
    ensures
        match decoded {
            Ok(message) => decoded_message(wire@) is Ok && decoded_message(wire@)->Ok_0 == message@
                && header_agrees(wire@, message@),
            Err(error) => decoded_message(wire@) is Err && decoded_message(wire@)->Err_0 == error,
        },
{
    let message = hickory_proto::op::Message::from_vec(wire)?;
    let types = message.all_sections().map(|record| RecordType { code: record.record_type().into() });
    Ok(DnsMessage {
        id: message.metadata.id,
        is_response: message.metadata.message_type == hickory_proto::op::MessageType::Response,
        response_code: format!("{:?}", message.metadata.response_code),
        truncated: message.metadata.truncation,
        authentic_data: message.metadata.authentic_data,
        record_types: types.collect(),
    })
}

proof fn lemma_labels_wire_len(labels: Seq<Seq<u8>>)
    ensures
        labels_wire(labels).len() == crate::names::labels_len(labels),
    decreases labels.len(),
{
    if labels.len() > 0 {
        lemma_labels_wire_len(labels.drop_last());
    }
}

/// Writes the query for a name and a record type. It is decoded to that query,
/// so it is accepted as a response to none.
pub fn build_query(
    id: u16,
    name: &DnsName,
    record_type: RecordType,
    dnssec: bool,
    edns_payload: u16,
) -> (built: Result<Vec<u8>, hickory_proto::ProtoError>)
    requires
        name.wf(),
    ensures
        built is Ok,
        built->Ok_0@ == query_wire(id, name.octets(), record_type.code, dnssec, edns_payload),
        built->Ok_0.len() <= 282,
        decoded_message(built->Ok_0@) is Ok,
        decoded_message(built->Ok_0@)->Ok_0 == query_message(id),
        forall|expected_id: u16| (#[trigger] wire_observation(expected_id, built->Ok_0@)) is Err,
        wire_observation(id, built->Ok_0@) == Err::<ObservationModel, ResponseFault>(
            ResponseFault::NotAResponse,
        ),
{
    proof {
        lemma_labels_wire_len(name.octets());
    }
    encode_query(id, true, name, record_type, dnssec, edns_payload)
}

/// How many of the record types DNSSEC brought.
pub open spec fn dnssec_count(codes: Seq<u16>) -> nat
    decreases codes.len(),
{
    if codes.len() == 0 {
        0
    } else {
        dnssec_count(codes.drop_last()) + (if record_type::is_dnssec(codes.last()) {
            1nat
        } else {
            0nat
        })
    }
}

/// What is observed of a decoded response to the query with the given
/// identifier.
pub open spec fn observation(expected_id: u16, message: MessageModel) -> Result<
    ObservationModel,
    ResponseFault,
> {
    if message.id != expected_id {
        Err(ResponseFault::IdMismatch { expected: expected_id, received: message.id })
    } else if !message.is_response {
        Err(ResponseFault::NotAResponse)
    } else {
        Ok(
            ObservationModel {
                response_code: message.response_code,
                truncated: message.truncated,
                authenticated_data: message.authentic_data,
                rrsig_response: message.record_types.contains(record_type::RRSIG),
                dnssec_records: dnssec_count(message.record_types),
            },
        )
    }
}

/// What is observed of a decoded response to the query with the given
/// identifier.
pub fn observe(expected_id: u16, message: DnsMessage) -> (observed: Result<
    ResponseObservation,
    ResponseError,
>)
    ensures
        match observed {
            Ok(seen) => observation(expected_id, message@) == Ok::<ObservationModel, ResponseFault>(
                seen@,
            ),
            Err(error) => observation(expected_id, message@) == Err::<
                ObservationModel,
                ResponseFault,
            >(error@),
        },
{
    if message.id != expected_id {
        return Err(ResponseError::IdMismatch { expected: expected_id, received: message.id });
    }
    if !message.is_response {
        return Err(ResponseError::NotAResponse);
    }
    let ghost codes = record_type::codes_of(message.record_types@);
    let mut dnssec_records: u64 = 0;
    let mut rrsig_response = false;
    assert(codes.take(0) =~= Seq::empty());
    for i in 0..message.record_types.len()
        invariant
            codes == record_type::codes_of(message.record_types@),
            dnssec_records == dnssec_count(codes.take(i as int)),
            dnssec_records <= i,
            rrsig_response == exists|j: int| 0 <= j < i && codes[j] == record_type::RRSIG,
    {
        let record_type = message.record_types[i];
        assert(codes[i as int] == record_type.code);
        assert(codes.take(i + 1).drop_last() =~= codes.take(i as int));
        if record_type::dnssec_type(record_type) {
            dnssec_records = dnssec_records.saturating_add(1);
        }
        if record_type.code == record_type::RRSIG {
            rrsig_response = true;
        }
    }
    assert(codes.take(message.record_types.len() as int) =~= codes);
    assert(rrsig_response == codes.contains(record_type::RRSIG));
    Ok(
        ResponseObservation {
            response_code: message.response_code,
            truncated: message.truncated,
            authenticated_data: message.authentic_data,
            rrsig_response,
            dnssec_records,
        },
    )
}

/// What is observed of the bytes of a response to the query with the given
/// identifier.
pub open spec fn wire_observation(expected_id: u16, wire: Seq<u8>) -> Result<
    ObservationModel,
    ResponseFault,
> {
    match decoded_message(wire) {
        Err(cause) => Err(ResponseFault::Malformed { cause }),
        Ok(message) => observation(expected_id, message),
    }
}

/// Whether an observation agrees with the header of the response: the
/// identifier is the expected one, the message is a response, and the flags are
/// those observed.
pub open spec fn observed_header(expected_id: u16, wire: Seq<u8>, seen: ObservationModel) -> bool {
    &&& wire.len() >= 12
    &&& expected_id == wire[0] * 256 + wire[1]
    &&& wire[2] >= 128
    &&& seen.truncated == (wire[2] as int / 2 % 2 == 1)
    &&& seen.authenticated_data == (wire[3] as int / 32 % 2 == 1)
    &&& seen.response_code == "NoError"@ ==> wire[3] as int % 16 == 0
}

/// Decodes a response and observes it. A response that is accepted carries the
/// identifier of the query; bytes whose header is that of a query are not
/// accepted.
pub fn inspect_response(expected_id: u16, wire: &[u8]) -> (observed: Result<
    ResponseObservation,
    ResponseError,
>)
    ensures
        match observed {
            Ok(seen) => wire_observation(expected_id, wire@) == Ok::<
                ObservationModel,
                ResponseFault,
            >(seen@) && observed_header(expected_id, wire@, seen@),
            Err(error) => wire_observation(expected_id, wire@) == Err::<
                ObservationModel,
                ResponseFault,
            >(error@),
        },
        wire.len() > 2 && wire@[2] < 128 ==> observed is Err,
{
    match decode_message(wire) {
        Ok(message) => observe(expected_id, message),
        Err(cause) => Err(ResponseError::Malformed { cause }),
    }
}

/// The two octets that go before a message on a TCP connection: its length,
/// where that fits in them.
pub fn length_prefix(message: &[u8]) -> (prefix: Option<Vec<u8>>)
    ensures
        match prefix {
            Some(octets) => message.len() <= 65535 && octets@ == two_octets(message.len() as int),
            None => message.len() > 65535,
        },
        prefix is Some ==> prefix->0.len() == 2 && prefix->0[0] * 256 + prefix->0[1]
            == message.len(),
{
    if message.len() > 65535 {
        return None;
    }
    let mut octets: Vec<u8> = Vec::new();
    octets.push((message.len() / 256) as u8);
    octets.push((message.len() % 256) as u8);
    assert(octets@ =~= two_octets(message.len() as int));
    Some(octets)
}

/// The length that two octets before a message stand for is that of the message
/// they were written for.
pub proof fn law_length_prefix_reads_back(len: int)
    requires
        0 <= len <= 65535,
    ensures
        two_octets(len).len() == 2,
        two_octets(len)[0] * 256 + two_octets(len)[1] == len,
{
}

/// A query ends in its EDNS record.
pub proof fn law_query_ends_in_edns(
    id: u16,
    labels: Seq<Seq<u8>>,
    code: u16,
    dnssec: bool,
    edns_payload: u16,
)
    ensures
        ({
            let wire = query_wire(id, labels, code, dnssec, edns_payload);
            let edns = edns_wire(dnssec, edns_payload);
            &&& edns.len() == 11
            &&& wire.len() >= 28
            &&& forall|i: int| 0 <= i < 11 ==> wire[wire.len() - 11 + i] == #[trigger] edns[i]
        }),
{
    let edns = edns_wire(dnssec, edns_payload);
    let before = query_header(id, true) + question_wire(labels, code);
    let wire = query_wire(id, labels, code, dnssec, edns_payload);
    assert(edns.len() == 11);
    assert(question_wire(labels, code).len() >= 5);
    assert(wire == before + edns);
}

/// A query begins with its header: the identifier, the flag that asks for
/// recursion and no other, and the numbers of its records.
pub proof fn law_query_begins_with_its_header(
    id: u16,
    labels: Seq<Seq<u8>>,
    code: u16,
    dnssec: bool,
    edns_payload: u16,
)
    ensures
        ({
            let wire = query_wire(id, labels, code, dnssec, edns_payload);
            &&& wire.len() >= 12
            &&& wire[0] * 256 + wire[1] == id
            &&& wire[2] == 1 && wire[3] == 0
            &&& wire[4] * 256 + wire[5] == 1
            &&& wire[6] * 256 + wire[7] == 0
            &&& wire[8] * 256 + wire[9] == 0
            &&& wire[10] * 256 + wire[11] == 1
        }),
{
    let header = query_header(id, true);
    let wire = query_wire(id, labels, code, dnssec, edns_payload);
    lemma_header(id);
    assert(wire =~= header + (question_wire(labels, code) + edns_wire(dnssec, edns_payload)));
    lemma_begins_with(header, question_wire(labels, code) + edns_wire(dnssec, edns_payload));
}

proof fn lemma_begins_with(a: Seq<u8>, b: Seq<u8>)
    ensures
        (a + b).len() >= a.len(),
        forall|i: int| 0 <= i < a.len() ==> #[trigger] (a + b)[i] == a[i],
{
}

proof fn lemma_header(id: u16)
    ensures
        ({
            let header = query_header(id, true);
            &&& header.len() == 12
            &&& header[0] * 256 + header[1] == id
            &&& header[2] == 1 && header[3] == 0
            &&& header[4] * 256 + header[5] == 1
            &&& header[6] * 256 + header[7] == 0
            &&& header[8] * 256 + header[9] == 0
            &&& header[10] * 256 + header[11] == 1
        }),
{
    let header = query_header(id, true);
    let n = id as int;
    assert(header =~= seq![
        (n / 256) as u8,
        (n % 256) as u8,
        1u8,
        0u8,
        0u8,
        1u8,
        0u8,
        0u8,
        0u8,
        0u8,
        0u8,
        1u8,
    ]);
}

/// A query carries its identifier, asks for recursion, and advertises the
/// payload size with the DNSSEC OK bit set as asked for, at the end of the
/// message.
pub proof fn law_query_carries_its_settings(
    id: u16,
    labels: Seq<Seq<u8>>,
    code: u16,
    dnssec: bool,
    edns_payload: u16,
)
    requires
        edns_payload >= 512,
    ensures
        ({
            let wire = query_wire(id, labels, code, dnssec, edns_payload);
            let end = wire.len();
            &&& end >= 28
            &&& wire[0] * 256 + wire[1] == id
            &&& wire[2] == 1
            &&& wire[end - 8] * 256 + wire[end - 7] == edns_payload
            &&& wire[end - 4] == (if dnssec {
                0x80u8
            } else {
                0u8
            })
        }),
{
    let wire = query_wire(id, labels, code, dnssec, edns_payload);
    let end = wire.len() as int;
    let edns = edns_wire(dnssec, edns_payload);
    law_query_ends_in_edns(id, labels, code, dnssec, edns_payload);
    law_query_begins_with_its_header(id, labels, code, dnssec, edns_payload);
    assert(wire[end - 8] == edns[3]);
    assert(wire[end - 7] == edns[4]);
    assert(wire[end - 4] == edns[7]);
}

/// The EDNS record at the end of a query has the root name, the type of EDNS
/// records, the payload size, which is never less than 512, no extended code, the
/// first version, no flag but that for DNSSEC, and no options.
pub proof fn law_query_ends_as_edns_asks(
    id: u16,
    labels: Seq<Seq<u8>>,
    code: u16,
    dnssec: bool,
    edns_payload: u16,
)
    ensures
        ({
            let wire = query_wire(id, labels, code, dnssec, edns_payload);
            let at = wire.len() - 11;
            &&& at >= 17
            &&& wire[at] == 0
            &&& wire[at + 1] * 256 + wire[at + 2] == 41
            &&& wire[at + 3] * 256 + wire[at + 4] >= 512
            &&& edns_payload >= 512 ==> wire[at + 3] * 256 + wire[at + 4] == edns_payload
            &&& edns_payload < 512 ==> wire[at + 3] * 256 + wire[at + 4] == 512
            &&& wire[at + 5] == 0 && wire[at + 6] == 0
            &&& wire[at + 7] == 128 <==> dnssec
            &&& wire[at + 7] == 0 <==> !dnssec
            &&& wire[at + 8] == 0 && wire[at + 9] == 0 && wire[at + 10] == 0
        }),
{
    let wire = query_wire(id, labels, code, dnssec, edns_payload);
    let at = wire.len() - 11;
    let edns = edns_wire(dnssec, edns_payload);
    law_query_ends_in_edns(id, labels, code, dnssec, edns_payload);
    assert(wire[at] == edns[0] && wire[at + 1] == edns[1] && wire[at + 2] == edns[2]);
    assert(wire[at + 3] == edns[3] && wire[at + 4] == edns[4] && wire[at + 5] == edns[5]);
    assert(wire[at + 6] == edns[6] && wire[at + 7] == edns[7] && wire[at + 8] == edns[8]);
    assert(wire[at + 9] == edns[9] && wire[at + 10] == edns[10]);
    lemma_edns(dnssec, edns_payload);
}

proof fn lemma_edns(dnssec: bool, edns_payload: u16)
    ensures
        ({
            let edns = edns_wire(dnssec, edns_payload);
            &&& edns.len() == 11
            &&& edns[0] == 0 && edns[1] == 0 && edns[2] == 41
            &&& edns[3] * 256 + edns[4] == (if edns_payload < 512 {
                512
            } else {
                edns_payload as int
            })
            &&& edns[5] == 0 && edns[6] == 0
            &&& edns[7] == (if dnssec {
                128
            } else {
                0int
            })
            &&& edns[8] == 0 && edns[9] == 0 && edns[10] == 0
        }),
{
}

/// The message for an answer with another identifier shows the one that was
/// expected and then the one that came, in decimal digits. Every refusal has a
/// message of its own.
pub proof fn law_refusals_say_what_is_wrong(expected: u16, received: u16, fault: ResponseFault)
    ensures
        ({
            let message = fault_message(ResponseFault::IdMismatch { expected, received });
            let start = "DNS transaction ID mismatch: expected "@.len() as int;
            let first = text::decimal(expected as nat);
            let then = text::decimal(received as nat);
            &&& message.subrange(start, start + first.len()) == first
            &&& message.skip(message.len() - then.len()) == then
            &&& message.len() == start + first.len() + ", received "@.len() + then.len()
        }),
        fault is NotAResponse <==> fault_message(fault)
            == "received a DNS query instead of a response"@,
        fault is Malformed <==> fault_message(fault) == "malformed DNS response"@,
{
    let message = fault_message(ResponseFault::IdMismatch { expected, received });
    let start = "DNS transaction ID mismatch: expected "@.len() as int;
    let first = text::decimal(expected as nat);
    let then = text::decimal(received as nat);
    assert(message.subrange(start, start + first.len()) =~= first);
    assert(message.skip(message.len() - then.len()) =~= then);
    reveal_strlit("DNS transaction ID mismatch: expected ");
    reveal_strlit("received a DNS query instead of a response");
    reveal_strlit("malformed DNS response");
    let shown = fault_message(fault);
    if fault is IdMismatch {
        assert(shown[0] == 'D');
    }
    assert("received a DNS query instead of a response"@[0] == 'r');
    assert("malformed DNS response"@[0] == 'm');
}

/// No query that is sent is taken for a response: the header of an accepted
/// response is never that of a query.
pub proof fn law_no_query_is_a_response(
    id: u16,
    labels: Seq<Seq<u8>>,
    code: u16,
    dnssec: bool,
    edns_payload: u16,
    expected_id: u16,
    seen: ObservationModel,
)
    ensures
        !observed_header(expected_id, query_wire(id, labels, code, dnssec, edns_payload), seen),
        query_wire(id, labels, code, dnssec, edns_payload).len() > 2,
        query_wire(id, labels, code, dnssec, edns_payload)[2] < 128,
        observation(expected_id, query_message(id)) is Err,
{
    law_query_begins_with_its_header(id, labels, code, dnssec, edns_payload);
}

/// Every record whose type DNSSEC brought counts one, and no other: the records of
/// two lists together count what those of each count, and their number is that of
/// the records of such types.
pub proof fn law_dnssec_records_are_counted_each(a: Seq<u16>, b: Seq<u16>, code: u16)
    ensures
        dnssec_count(a + b) == dnssec_count(a) + dnssec_count(b),
        dnssec_count(seq![code]) == (if record_type::is_dnssec(code) {
            1nat
        } else {
            0nat
        }),
        dnssec_count(a) == a.filter(|code: u16| record_type::is_dnssec(code)).len(),
    decreases b.len(),
{
    lemma_dnssec_count_is_filter(a);
    assert(seq![code].drop_last() =~= Seq::empty());
    assert(dnssec_count(seq![code].drop_last()) == 0);
    if b.len() == 0 {
        assert(a + b =~= a);
    } else {
        assert((a + b).drop_last() =~= a + b.drop_last());
        law_dnssec_records_are_counted_each(a, b.drop_last(), code);
    }
}

proof fn lemma_dnssec_count_is_filter(codes: Seq<u16>)
    ensures
        dnssec_count(codes) == codes.filter(|code: u16| record_type::is_dnssec(code)).len(),
    decreases codes.len(),
{
    reveal(Seq::filter);
    if codes.len() > 0 {
        lemma_dnssec_count_is_filter(codes.drop_last());
    }
}

/// A message is accepted exactly where it is a response that carries the
/// identifier of the query. What is observed of it is what it holds: its code, its
/// flags, whether a signature is among its records, and how many of them are of
/// types that DNSSEC brought. Of a message that is not accepted, another
/// identifier is named first.
pub proof fn law_observation_is_of_the_message(expected_id: u16, message: MessageModel)
    ensures
        match observation(expected_id, message) {
            Ok(seen) => {
                &&& message.id == expected_id
                &&& message.is_response
                &&& seen.response_code == message.response_code
                &&& seen.truncated == message.truncated
                &&& seen.authenticated_data == message.authentic_data
                &&& seen.rrsig_response <==> exists|i: int|
                    0 <= i < message.record_types.len() && #[trigger] message.record_types[i] == 46
                &&& seen.dnssec_records == message.record_types.filter(
                    |code: u16| record_type::is_dnssec(code),
                ).len()
            },
            Err(ResponseFault::IdMismatch { expected, received }) => {
                &&& expected == expected_id
                &&& received == message.id
                &&& expected != received
            },
            Err(ResponseFault::NotAResponse) => message.id == expected_id && !message.is_response,
            Err(ResponseFault::Malformed { cause }) => false,
        },
{
    lemma_dnssec_count_is_filter(message.record_types);
}

/// What is observed of bytes is what is observed of the message that they are
/// decoded to; bytes that are no message are refused, with the cause.
pub proof fn law_observation_is_of_the_bytes(expected_id: u16, wire: Seq<u8>)
    ensures
        match decoded_message(wire) {
            Ok(message) => {
                &&& wire_observation(expected_id, wire) == observation(expected_id, message)
                &&& wire_observation(expected_id, wire) is Ok <==> message.id == expected_id
                    && message.is_response
            },
            Err(cause) => wire_observation(expected_id, wire) == Err::<
                ObservationModel,
                ResponseFault,
            >(ResponseFault::Malformed { cause }),
        },
{
}

/// The labels that stand in a message from a place on, up to the root label, and
/// the place after it.
pub open spec fn name_at(wire: Seq<u8>, at: int) -> (Seq<Seq<u8>>, int)
    decreases wire.len() - at,
{
    if at < 0 || at >= wire.len() || wire[at] == 0 || at + 1 + wire[at] > wire.len() {
        (Seq::empty(), at + 1)
    } else {
        let next = at + 1 + wire[at];
        let (labels, end) = name_at(wire, next);
        (seq![wire.subrange(at + 1, next)] + labels, end)
    }
}

proof fn lemma_labels_from_the_first(labels: Seq<Seq<u8>>)
    requires
        labels.len() > 0,
    ensures
        labels_wire(labels) == seq![labels.first().len() as u8] + labels.first() + labels_wire(
            labels.drop_first(),
        ),
    decreases labels.len(),
{
    if labels.len() == 1 {
        assert(labels.drop_last() =~= Seq::empty());
        assert(labels.drop_first() =~= Seq::empty());
        assert(labels_wire(labels.drop_last()) =~= Seq::empty());
        assert(labels_wire(labels.drop_first()) =~= Seq::empty());
        assert(labels_wire(labels) =~= seq![labels.first().len() as u8] + labels.first()
            + labels_wire(labels.drop_first()));
    } else {
        lemma_labels_from_the_first(labels.drop_last());
        assert(labels.drop_last().drop_first() =~= labels.drop_first().drop_last());
        assert(labels.drop_first().last() == labels.last());
        assert(labels_wire(labels) =~= seq![labels.first().len() as u8] + labels.first()
            + labels_wire(labels.drop_first()));
    }
}

proof fn lemma_name_reads_back(before: Seq<u8>, labels: Seq<Seq<u8>>, after: Seq<u8>)
    requires
        forall|i: int| 0 <= i < labels.len() ==> 1 <= (#[trigger] labels[i]).len() <= 63,
    ensures
        name_at(before + labels_wire(labels) + seq![0u8] + after, before.len() as int) == (
            labels,
            before.len() as int + labels_wire(labels).len() + 1,
        ),
    decreases labels.len(),
{
    let wire = before + labels_wire(labels) + seq![0u8] + after;
    let at = before.len() as int;
    if labels.len() == 0 {
        assert(wire[at] == 0);
        assert(labels =~= Seq::empty());
    } else {
        let first = labels.first();
        let rest = labels.drop_first();
        let more = before + seq![first.len() as u8] + first;
        assert(1 <= labels[0].len() <= 63);
        lemma_labels_from_the_first(labels);
        assert(wire =~= more + labels_wire(rest) + seq![0u8] + after);
        assert forall|i: int| 0 <= i < rest.len() implies 1 <= (#[trigger] rest[i]).len() <= 63 by {
            assert(rest[i] == labels[i + 1]);
        }
        lemma_name_reads_back(more, rest, after);
        assert(wire[at] == first.len());
        assert(wire.subrange(at + 1, at + 1 + first.len()) =~= first);
        assert(seq![first] + rest =~= labels);
    }
}

/// A query holds one question, for the name and the record type that it was
/// written for, in the class `IN`; no answer and no authority record, and one
/// additional record.
pub proof fn law_query_asks_for_its_name(
    id: u16,
    labels: Seq<Seq<u8>>,
    code: u16,
    dnssec: bool,
    edns_payload: u16,
)
    requires
        forall|i: int| 0 <= i < labels.len() ==> 1 <= (#[trigger] labels[i]).len() <= 63,
    ensures
        ({
            let wire = query_wire(id, labels, code, dnssec, edns_payload);
            let (name, end) = name_at(wire, 12);
            &&& wire[0] * 256 + wire[1] == id
            &&& wire[2] == 1 && wire[3] == 0
            &&& wire[4] * 256 + wire[5] == 1
            &&& wire[6] * 256 + wire[7] == 0
            &&& wire[8] * 256 + wire[9] == 0
            &&& wire[10] * 256 + wire[11] == 1
            &&& name == labels
            &&& wire[end] * 256 + wire[end + 1] == code
            &&& wire[end + 2] * 256 + wire[end + 3] == 1
            &&& wire.len() == end + 4 + 11
        }),
{
    let header = query_header(id, true);
    let edns = edns_wire(dnssec, edns_payload);
    let after = two_octets(code as int) + two_octets(1) + edns;
    let wire = query_wire(id, labels, code, dnssec, edns_payload);
    let before = header + labels_wire(labels) + seq![0u8];
    law_query_begins_with_its_header(id, labels, code, dnssec, edns_payload);
    lemma_header(id);
    assert(edns.len() == 11);
    assert(wire =~= before + after);
    lemma_name_reads_back(header, labels, after);
    lemma_goes_on_with(before, after);
    let end = before.len() as int;
    assert(wire[end] == after[0] && wire[end + 1] == after[1]);
    assert(wire[end + 2] == after[2] && wire[end + 3] == after[3]);
}

proof fn lemma_goes_on_with(a: Seq<u8>, b: Seq<u8>)
    ensures
        forall|i: int| 0 <= i < b.len() ==> (a + b)[a.len() + i] == #[trigger] b[i],
{
}

} // verus!
