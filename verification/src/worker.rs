//! What a worker does next: the decisions between its network operations.
//!
//! A worker looks at the clock, claims the next index of the plan, waits until
//! the query of that index is due where a rate is given, sends the query, and
//! records what became of it; then it begins again. What happens around it
//! reaches it as events. The queries before the measurement are sent by workers
//! that go through the same states, with the number of those queries as their
//! limit and without a rate.

use vstd::prelude::*;

use crate::config::{RunConfig, RunLimit};
use crate::dns;
use crate::dns::{ResponseError, ResponseObservation};
use crate::plan;
use crate::record_type;
use crate::record_type::RecordType;
use crate::span::Span;
use crate::stats;
use crate::stats::Aggregate;

verus! {

/// Longest time between two looks at the cancellation flag while a worker
/// waits, in nanoseconds.
pub const CANCELLATION_POLL_NANOS: u32 = 25_000_000;

/// What a worker does next.
#[derive(Debug, Clone, Copy, PartialEq, Eq, Structural)]
pub enum WorkerState {
    /// It looks at the cancellation flag and the clock.
    Looking,
    /// It claims the next index.
    Claiming,
    /// It waits until the query of an index is due, counted from the start of
    /// the measurement, and looks at the cancellation flag and the clock.
    Pacing { index: u64, due: Span },
    /// It sends the query of an index and records what became of it.
    Sending { index: u64 },
    /// It does nothing more.
    Stopped,
}

/// What a worker learns.
#[derive(Debug, Clone, Copy, PartialEq, Eq, Structural)]
pub enum WorkerEvent {
    /// Whether the run was cancelled, and the time since the measurement began.
    Looked { cancelled: bool, elapsed: Span },
    /// The index that was claimed, and when its query is due at the given rate.
    Claimed { index: u64, due: Span },
    /// What became of the query was recorded.
    Settled,
}

/// Whether work goes on: the run was not cancelled, and there is time left.
pub open spec fn goes_on(limit: RunLimit, cancelled: bool, elapsed: Span) -> bool {
    &&& !cancelled
    &&& match limit {
        RunLimit::Duration(duration) => elapsed.in_nanos() < duration.in_nanos(),
        RunLimit::Requests(_) => true,
    }
}

/// Whether the query of a claimed index is to be sent: the index is below the
/// number of requests, and the query is due before the time is over, where a
/// rate is given.
pub open spec fn admits(limit: RunLimit, paced: bool, index: u64, due: Span) -> bool {
    match limit {
        RunLimit::Requests(requests) => index < requests,
        RunLimit::Duration(duration) => !paced || due.in_nanos() < duration.in_nanos(),
    }
}

/// What a worker does after an event. An event that it does not wait for changes
/// nothing.
pub open spec fn after(
    limit: RunLimit,
    paced: bool,
    state: WorkerState,
    event: WorkerEvent,
) -> WorkerState {
    match (state, event) {
        (WorkerState::Looking, WorkerEvent::Looked { cancelled, elapsed }) => if goes_on(
            limit,
            cancelled,
            elapsed,
        ) {
            WorkerState::Claiming
        } else {
            WorkerState::Stopped
        },
        (WorkerState::Claiming, WorkerEvent::Claimed { index, due }) => if !admits(
            limit,
            paced,
            index,
            due,
        ) {
            WorkerState::Stopped
        } else if paced {
            WorkerState::Pacing { index, due }
        } else {
            WorkerState::Sending { index }
        },
        (
            WorkerState::Pacing { index, due },
            WorkerEvent::Looked { cancelled, elapsed },
        ) => if !goes_on(limit, cancelled, elapsed) {
            WorkerState::Stopped
        } else if elapsed.in_nanos() >= due.in_nanos() {
            WorkerState::Sending { index }
        } else {
            state
        },
        (WorkerState::Sending { index }, WorkerEvent::Settled) => WorkerState::Looking,
        _ => state,
    }
}

fn goes_on_now(limit: &RunLimit, cancelled: bool, elapsed: &Span) -> (yes: bool)
    ensures
        yes == goes_on(*limit, cancelled, *elapsed),
{
    if cancelled {
        return false;
    }
    match limit {
        RunLimit::Duration(duration) => !elapsed.at_least(duration),
        RunLimit::Requests(_) => true,
    }
}

fn admitted(limit: &RunLimit, paced: bool, index: u64, due: &Span) -> (yes: bool)
    ensures
        yes == admits(*limit, paced, index, *due),
{
    match limit {
        RunLimit::Requests(requests) => index < *requests,
        RunLimit::Duration(duration) => !paced || !due.at_least(duration),
    }
}

/// What a worker does after an event. `paced` tells whether a rate is given.
pub fn advance(
    limit: &RunLimit,
    paced: bool,
    state: WorkerState,
    event: WorkerEvent,
) -> (next: WorkerState)
    ensures
        next == after(*limit, paced, state, event),
{
    match (state, event) {
        (WorkerState::Looking, WorkerEvent::Looked { cancelled, elapsed }) => {
            if goes_on_now(limit, cancelled, &elapsed) {
                WorkerState::Claiming
            } else {
                WorkerState::Stopped
            }
        },
        (WorkerState::Claiming, WorkerEvent::Claimed { index, due }) => {
            if !admitted(limit, paced, index, &due) {
                WorkerState::Stopped
            } else if paced {
                WorkerState::Pacing { index, due }
            } else {
                WorkerState::Sending { index }
            }
        },
        (
            WorkerState::Pacing { index, due },
            WorkerEvent::Looked { cancelled, elapsed },
        ) => {
            if !goes_on_now(limit, cancelled, &elapsed) {
                WorkerState::Stopped
            } else if elapsed.at_least(&due) {
                WorkerState::Sending { index }
            } else {
                state
            }
        },
        (WorkerState::Sending { index: _ }, WorkerEvent::Settled) => WorkerState::Looking,
        _ => state,
    }
}

/// What a worker does after events, from its start on.
pub open spec fn after_all(limit: RunLimit, paced: bool, events: Seq<WorkerEvent>) -> WorkerState
    decreases events.len(),
{
    if events.len() == 0 {
        WorkerState::Looking
    } else {
        after(limit, paced, after_all(limit, paced, events.drop_last()), events.last())
    }
}

/// How many queries a worker has begun to send.
pub open spec fn sends(limit: RunLimit, paced: bool, events: Seq<WorkerEvent>) -> nat
    decreases events.len(),
{
    if events.len() == 0 {
        0
    } else {
        let before = after_all(limit, paced, events.drop_last());
        let now = after_all(limit, paced, events);
        sends(limit, paced, events.drop_last()) + (if now is Sending && before !is Sending {
            1nat
        } else {
            0nat
        })
    }
}

/// How many queries a worker has settled.
pub open spec fn settled(limit: RunLimit, paced: bool, events: Seq<WorkerEvent>) -> nat
    decreases events.len(),
{
    if events.len() == 0 {
        0
    } else {
        let before = after_all(limit, paced, events.drop_last());
        settled(limit, paced, events.drop_last()) + (if before is Sending
            && events.last() is Settled {
            1nat
        } else {
            0nat
        })
    }
}

/// How many claimed indexes a worker has taken up.
pub open spec fn claims(limit: RunLimit, paced: bool, events: Seq<WorkerEvent>) -> nat
    decreases events.len(),
{
    if events.len() == 0 {
        0
    } else {
        let before = after_all(limit, paced, events.drop_last());
        claims(limit, paced, events.drop_last()) + (if before is Claiming
            && events.last() is Claimed {
            1nat
        } else {
            0nat
        })
    }
}

/// A worker that has stopped does nothing more.
pub proof fn law_stopped_stays(limit: RunLimit, paced: bool, event: WorkerEvent)
    ensures
        after(limit, paced, WorkerState::Stopped, event) == WorkerState::Stopped,
{
}

/// A worker sends at most one query for each index that it claimed, and each
/// query that it sent is settled before the next.
pub proof fn law_each_claim_is_sent_at_most_once(
    limit: RunLimit,
    paced: bool,
    events: Seq<WorkerEvent>,
)
    ensures
        sends(limit, paced, events) <= claims(limit, paced, events),
        sends(limit, paced, events) == settled(limit, paced, events) + (if after_all(
            limit,
            paced,
            events,
        ) is Sending {
            1nat
        } else {
            0nat
        }),
        after_all(limit, paced, events) is Pacing ==> sends(limit, paced, events) < claims(
            limit,
            paced,
            events,
        ),
    decreases events.len(),
{
    if events.len() > 0 {
        law_each_claim_is_sent_at_most_once(limit, paced, events.drop_last());
    }
}

/// A worker sends only the query of an index that the limit admits. Where a rate
/// is given, it sends no query before it is due, and only after a look that
/// showed no cancellation and time left.
pub proof fn law_sends_only_what_is_admitted(
    limit: RunLimit,
    paced: bool,
    state: WorkerState,
    event: WorkerEvent,
)
    requires
        state !is Sending,
        after(limit, paced, state, event) is Sending,
    ensures
        match state {
            WorkerState::Claiming => event matches WorkerEvent::Claimed { index, due } && admits(
                limit,
                paced,
                index,
                due,
            ) && !paced && after(limit, paced, state, event) == (WorkerState::Sending { index }),
            WorkerState::Pacing { index, due } => event matches WorkerEvent::Looked {
                cancelled,
                elapsed,
            } && goes_on(limit, cancelled, elapsed) && elapsed.in_nanos() >= due.in_nanos()
                && after(limit, paced, state, event) == (WorkerState::Sending { index }),
            _ => false,
        },
{
}

/// A worker claims an index only after a look that showed no cancellation and
/// time left.
pub proof fn law_claims_only_while_the_run_goes_on(
    limit: RunLimit,
    paced: bool,
    state: WorkerState,
    event: WorkerEvent,
)
    requires
        state !is Claiming,
        after(limit, paced, state, event) is Claiming,
    ensures
        state is Looking,
        event matches WorkerEvent::Looked { cancelled, elapsed } && goes_on(
            limit,
            cancelled,
            elapsed,
        ),
{
}

/// A look that shows a cancellation, or that the time is over, is the end of
/// every worker that takes it.
pub proof fn law_cancellation_stops(
    limit: RunLimit,
    paced: bool,
    state: WorkerState,
    cancelled: bool,
    elapsed: Span,
)
    requires
        state is Looking || state is Pacing,
        !goes_on(limit, cancelled, elapsed),
    ensures
        after(limit, paced, state, WorkerEvent::Looked { cancelled, elapsed })
            == WorkerState::Stopped,
{
}

/// A worker that looks goes on to claim an index exactly when the run was not
/// cancelled and, where the run has a duration, the seconds and nanoseconds since
/// its beginning come before those of the duration. Else it stops.
pub proof fn law_look_leads_to_a_claim(
    limit: RunLimit,
    paced: bool,
    cancelled: bool,
    elapsed: Span,
    duration: Span,
    requests: u64,
)
    requires
        elapsed.nanos < 1_000_000_000,
        duration.nanos < 1_000_000_000,
    ensures
        ({
            let seen = WorkerEvent::Looked { cancelled, elapsed };
            let timed = RunLimit::Duration(duration);
            let counted = RunLimit::Requests(requests);
            let early = elapsed.secs < duration.secs || (elapsed.secs == duration.secs
                && elapsed.nanos < duration.nanos);
            &&& after(timed, paced, WorkerState::Looking, seen) == (if !cancelled && early {
                WorkerState::Claiming
            } else {
                WorkerState::Stopped
            })
            &&& after(counted, paced, WorkerState::Looking, seen) == (if cancelled {
                WorkerState::Stopped
            } else {
                WorkerState::Claiming
            })
        }),
{
    crate::span::law_lengths_are_ordered(elapsed, duration);
}

/// A claimed index is taken up exactly when it is below the number of requests
/// or, where the run has a duration, when its query is due before the end or no
/// rate is given. The worker then waits for the query to be due where a rate is
/// given, and sends it where none is.
pub proof fn law_claim_leads_to_its_query(
    index: u64,
    due: Span,
    duration: Span,
    requests: u64,
)
    requires
        due.nanos < 1_000_000_000,
        duration.nanos < 1_000_000_000,
    ensures
        ({
            let claim = WorkerEvent::Claimed { index, due };
            let timed = RunLimit::Duration(duration);
            let counted = RunLimit::Requests(requests);
            let early = due.secs < duration.secs || (due.secs == duration.secs && due.nanos
                < duration.nanos);
            &&& after(timed, false, WorkerState::Claiming, claim) == (WorkerState::Sending { index })
            &&& after(timed, true, WorkerState::Claiming, claim) == (if early {
                WorkerState::Pacing { index, due }
            } else {
                WorkerState::Stopped
            })
            &&& after(counted, false, WorkerState::Claiming, claim) == (if index < requests {
                WorkerState::Sending { index }
            } else {
                WorkerState::Stopped
            })
            &&& after(counted, true, WorkerState::Claiming, claim) == (if index < requests {
                WorkerState::Pacing { index, due }
            } else {
                WorkerState::Stopped
            })
        }),
{
    crate::span::law_lengths_are_ordered(due, duration);
}

/// A worker that waits stops where the run was cancelled or its time is over,
/// goes on waiting where the query is not due yet, and else sends the query of
/// the index that it claimed.
pub proof fn law_wait_ends_when_due(
    paced: bool,
    index: u64,
    due: Span,
    cancelled: bool,
    elapsed: Span,
    duration: Span,
    requests: u64,
)
    requires
        due.nanos < 1_000_000_000,
        elapsed.nanos < 1_000_000_000,
        duration.nanos < 1_000_000_000,
    ensures
        ({
            let waiting = WorkerState::Pacing { index, due };
            let seen = WorkerEvent::Looked { cancelled, elapsed };
            let timed = RunLimit::Duration(duration);
            let counted = RunLimit::Requests(requests);
            let early = elapsed.secs < duration.secs || (elapsed.secs == duration.secs
                && elapsed.nanos < duration.nanos);
            let ready = elapsed.secs > due.secs || (elapsed.secs == due.secs && elapsed.nanos
                >= due.nanos);
            let next = if ready {
                WorkerState::Sending { index }
            } else {
                waiting
            };
            &&& after(timed, paced, waiting, seen) == (if !cancelled && early {
                next
            } else {
                WorkerState::Stopped
            })
            &&& after(counted, paced, waiting, seen) == (if cancelled {
                WorkerState::Stopped
            } else {
                next
            })
        }),
{
    crate::span::law_lengths_are_ordered(elapsed, duration);
    crate::span::law_lengths_are_ordered(elapsed, due);
}

/// A worker begins again once its query is settled. An event that it does not
/// wait for leaves it where it is.
pub proof fn law_settled_query_leads_to_a_look(
    limit: RunLimit,
    paced: bool,
    index: u64,
    due: Span,
    cancelled: bool,
    elapsed: Span,
)
    ensures
        ({
            let sending = WorkerState::Sending { index };
            let waiting = WorkerState::Pacing { index, due };
            let claim = WorkerEvent::Claimed { index, due };
            let seen = WorkerEvent::Looked { cancelled, elapsed };
            &&& after(limit, paced, sending, WorkerEvent::Settled) == WorkerState::Looking
            &&& after(limit, paced, sending, claim) == sending
            &&& after(limit, paced, sending, seen) == sending
            &&& after(limit, paced, waiting, claim) == waiting
            &&& after(limit, paced, waiting, WorkerEvent::Settled) == waiting
            &&& after(limit, paced, WorkerState::Looking, claim) == WorkerState::Looking
            &&& after(limit, paced, WorkerState::Looking, WorkerEvent::Settled)
                == WorkerState::Looking
            &&& after(limit, paced, WorkerState::Claiming, seen) == WorkerState::Claiming
            &&& after(limit, paced, WorkerState::Claiming, WorkerEvent::Settled)
                == WorkerState::Claiming
        }),
{
}

/// A query that is ready to be sent: its identifier, the record type that it
/// asks for, and its bytes, where it could be written.
#[derive(Debug)]
pub struct Prepared {
    pub id: u16,
    pub record_type: RecordType,
    pub wire: Option<Vec<u8>>,
}

/// Writes the query that an index of the plan stands for, for a worker.
pub fn prepare(config: &RunConfig, worker_id: usize, index: u64) -> (prepared: Prepared)
    requires
        config.wf(),
        plan::has_plan(*config),
    ensures
        ({
            let (name, record_type) = plan::planned(
                config.seed,
                index,
                config.names.len() as int,
                config.record_types.len() as int,
            );
            &&& 0 <= name < config.names.len()
            &&& 0 <= record_type < config.record_types.len()
            &&& prepared.id == plan::query_id(config.seed, worker_id, index)
            &&& prepared.record_type == config.record_types[record_type]
            &&& prepared.wire is Some
            &&& prepared.wire->0@ == dns::query_wire(
                prepared.id,
                config.names[name].octets(),
                prepared.record_type.code,
                config.dnssec,
                config.edns_payload,
            )
        }),
{
    let (name, record_type) = plan::select_query(config, index);
    let id = plan::transaction_id(config.seed, worker_id, index);
    let wire = match dns::build_query(id, name, record_type, config.dnssec, config.edns_payload) {
        Ok(wire) => Some(wire),
        Err(_) => None,
    };
    Prepared { id, record_type, wire }
}

/// What became of a query.
#[derive(Debug)]
pub enum Outcome {
    /// It could not be written.
    Unbuilt,
    /// No response came in time.
    TimedOut { sent: u64 },
    /// The network failed.
    Failed { sent: u64 },
    /// Bytes came back, after a time in microseconds.
    Answered { sent: u64, latency_us: u64, wire: Vec<u8> },
}

/// An aggregate after a query for a record type was answered, given what was
/// observed of the answer: what is no response to the query is an error.
pub open spec fn with_observed(
    aggregate: stats::AggregateModel,
    label: Seq<char>,
    sent: u64,
    latency_us: u64,
    received: u64,
    observed: Result<dns::ObservationModel, dns::ResponseFault>,
) -> stats::AggregateModel {
    match observed {
        Ok(seen) => stats::with_reply(
            aggregate,
            label,
            stats::Reply {
                latency_us,
                bytes_sent: sent,
                bytes_received: received,
                response_code: seen.response_code,
                truncated: seen.truncated,
                authenticated_data: seen.authenticated_data,
                dnssec_records: seen.dnssec_records as u64,
                rrsig_response: seen.rrsig_response,
            },
        ),
        Err(_) => stats::with_error(aggregate, label, sent),
    }
}

/// An aggregate after a query with an identifier, for a record type, came to its
/// end.
pub open spec fn with_outcome(
    aggregate: stats::AggregateModel,
    label: Seq<char>,
    id: u16,
    outcome: Outcome,
) -> stats::AggregateModel {
    match outcome {
        Outcome::Unbuilt => stats::with_error(aggregate, label, 0),
        Outcome::TimedOut { sent } => stats::with_timeout(aggregate, label, sent),
        Outcome::Failed { sent } => stats::with_error(aggregate, label, sent),
        Outcome::Answered { sent, latency_us, wire } => with_observed(
            aggregate,
            label,
            sent,
            latency_us,
            wire.len() as u64,
            dns::wire_observation(id, wire@),
        ),
    }
}

/// Whether a record type stands for a zone transfer. Its responses may take
/// several messages, of which only the first is read.
pub open spec fn is_transfer(record_type: RecordType) -> bool {
    record_type.code == record_type::AXFR || record_type.code == record_type::IXFR
}

/// Whether the connection is dropped after a query: after a timeout, a failure
/// or an answer that is not accepted, and after every zone transfer, so that
/// nothing that comes late is taken for the next response.
pub open spec fn drops_connection(record_type: RecordType, id: u16, outcome: Outcome) -> bool {
    match outcome {
        Outcome::Unbuilt => false,
        Outcome::TimedOut { sent } => true,
        Outcome::Failed { sent } => true,
        Outcome::Answered { sent, latency_us, wire } => is_transfer(record_type)
            || dns::wire_observation(id, wire@) is Err,
    }
}

/// Whether the connection is to be dropped after a query with an identifier, for
/// a record type.
pub fn connection_drops(record_type: RecordType, id: u16, outcome: &Outcome) -> (drops: bool)
    ensures
        drops == drops_connection(record_type, id, *outcome),
{
    match outcome {
        Outcome::Unbuilt => false,
        Outcome::TimedOut { sent: _ } => true,
        Outcome::Failed { sent: _ } => true,
        Outcome::Answered { sent: _, latency_us: _, wire } => {
            record_type.code == record_type::AXFR || record_type.code == record_type::IXFR
                || dns::inspect_response(id, wire).is_err()
        },
    }
}

/// Records the answer to a query for a record type, given what was observed of
/// it, and tells whether the connection is to be dropped.
pub fn record_observed(
    aggregate: &mut Aggregate,
    record_type: RecordType,
    sent: u64,
    latency_us: u64,
    received: u64,
    observed: Result<ResponseObservation, ResponseError>,
) -> (drops: bool)
    requires
        old(aggregate).wf(),
    ensures
        final(aggregate).wf(),
        final(aggregate).type_labels() == old(aggregate).type_labels(),
        drops == (is_transfer(record_type) || observed is Err),
        final(aggregate)@ == with_observed(
            old(aggregate)@,
            record_type::label(record_type.code),
            sent,
            latency_us,
            received,
            match observed {
                Ok(seen) => Ok(seen@),
                Err(error) => Err(error@),
            },
        ),
{
    let transfer = record_type.code == record_type::AXFR || record_type.code == record_type::IXFR;
    match observed {
        Ok(seen) => {
            aggregate.record_response(
                record_type,
                latency_us,
                sent,
                received,
                &seen.response_code,
                seen.truncated,
                seen.authenticated_data,
                seen.dnssec_records,
                seen.rrsig_response,
            );
            transfer
        },
        Err(_) => {
            aggregate.record_error(record_type, sent);
            true
        },
    }
}

/// Records what became of a query with an identifier, for a record type, and
/// tells whether the connection is to be dropped. Each query is counted as one
/// attempt.
pub fn record_outcome(
    aggregate: &mut Aggregate,
    record_type: RecordType,
    id: u16,
    outcome: Outcome,
) -> (drops: bool)
    requires
        old(aggregate).wf(),
    ensures
        final(aggregate).wf(),
        final(aggregate).type_labels() == old(aggregate).type_labels(),
        drops == drops_connection(record_type, id, outcome),
        final(aggregate)@ == with_outcome(
            old(aggregate)@,
            record_type::label(record_type.code),
            id,
            outcome,
        ),
        final(aggregate)@.total.attempts == crate::tally::sat_add(
            old(aggregate)@.total.attempts,
            1,
        ),
{
    match outcome {
        Outcome::Unbuilt => {
            aggregate.record_error(record_type, 0);
            false
        },
        Outcome::TimedOut { sent } => {
            aggregate.record_timeout(record_type, sent);
            true
        },
        Outcome::Failed { sent } => {
            aggregate.record_error(record_type, sent);
            true
        },
        Outcome::Answered { sent, latency_us, wire } => {
            let observed = dns::inspect_response(id, &wire);
            record_observed(aggregate, record_type, sent, latency_us, wire.len() as u64, observed)
        },
    }
}

/// Until when a worker sleeps that waits for a query to be due, where it does:
/// not where the run was cancelled or the query is due, and no longer than until
/// the next look at the cancellation flag.
pub fn next_sleep(cancelled: bool, now: &Span, due: &Span) -> (until: Option<Span>)
    requires
        now.wf(),
        due.wf(),
        now.secs < u64::MAX,
    ensures
        until is None <==> cancelled || now.in_nanos() >= due.in_nanos(),
        match until {
            Some(span) => {
                &&& span.wf()
                &&& span.in_nanos() == (if due.in_nanos() < now.in_nanos()
                    + CANCELLATION_POLL_NANOS {
                    due.in_nanos()
                } else {
                    now.in_nanos() + CANCELLATION_POLL_NANOS as nat
                })
            },
            None => true,
        },
        until is Some ==> {
            &&& now.in_nanos() < until->0.in_nanos() <= due.in_nanos()
            &&& until->0.in_nanos() <= now.in_nanos() + 25_000_000
            &&& until->0.in_nanos() == due.in_nanos() || until->0.in_nanos() == now.in_nanos()
                + 25_000_000
        },
{
    if cancelled || now.at_least(due) {
        return None;
    }
    let nanos: u32 = now.nanos + CANCELLATION_POLL_NANOS;
    let poll = if nanos >= 1_000_000_000 {
        Span { secs: now.secs + 1, nanos: nanos - 1_000_000_000 }
    } else {
        Span { secs: now.secs, nanos }
    };
    if due.at_least(&poll) {
        Some(poll)
    } else {
        Some(*due)
    }
}

/// How many workers send the queries before the measurement: no more than there
/// are queries.
pub fn warmup_workers(concurrency: usize, warmup: u64) -> (workers: usize)
    ensures
        workers == (if concurrency <= warmup as usize {
            concurrency
        } else {
            warmup as usize
        }),
        warmup <= usize::MAX ==> workers <= warmup,
        workers <= concurrency,
        warmup <= usize::MAX ==> workers == concurrency || workers == warmup,
{
    let queries: usize = warmup as usize;
    if concurrency <= queries {
        concurrency
    } else {
        queries
    }
}

/// How many shards the samples of a target are spread over: one for each worker
/// thread, but no more than there are queries in flight.
pub open spec fn shards(workers: usize, concurrency: usize) -> usize {
    if workers == 0 || concurrency == 0 {
        1
    } else if workers <= concurrency {
        workers
    } else {
        concurrency
    }
}

/// There is at least one shard. Where there are worker threads and queries in
/// flight, there are no more shards than either, and as many as one of them.
pub proof fn law_shards_are_the_fewer(workers: usize, concurrency: usize)
    ensures
        shards(workers, concurrency) >= 1,
        workers == 0 || concurrency == 0 ==> shards(workers, concurrency) == 1,
        workers > 0 && concurrency > 0 ==> {
            let count = shards(workers, concurrency);
            count <= workers && count <= concurrency && (count == workers || count == concurrency)
        },
{
}

/// How many shards the samples of a target are spread over.
pub fn shard_count(workers: usize, concurrency: usize) -> (count: usize)
    ensures
        count == shards(workers, concurrency),
        count >= 1,
        workers >= 1 ==> count <= workers,
{
    if workers == 0 || concurrency == 0 {
        1
    } else if workers <= concurrency {
        workers
    } else {
        concurrency
    }
}

} // verus!
