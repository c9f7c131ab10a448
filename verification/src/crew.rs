//! The workers of a target side by side: what holds of the queries that they
//! send together, in any order of events.

use vstd::prelude::*;

use crate::config::RunLimit;
use crate::span::Span;
use crate::worker;
use crate::worker::{WorkerEvent, WorkerState};

verus! {

/// The workers of a target: what each does, how many indexes were claimed, and
/// the indexes of the queries that were begun, in order.
pub ghost struct Crew {
    pub states: Seq<WorkerState>,
    pub claimed: nat,
    pub sent: Seq<u64>,
}

/// The workers of a target at the start.
pub open spec fn crew_start(workers: nat) -> Crew {
    Crew {
        states: Seq::new(workers, |i: int| WorkerState::Looking),
        claimed: 0,
        sent: Seq::empty(),
    }
}

/// The workers of a target after one of them learned of an event.
pub open spec fn crew_step(
    limit: RunLimit,
    paced: bool,
    crew: Crew,
    worker: int,
    event: WorkerEvent,
) -> Crew {
    let before = crew.states[worker];
    let now = worker::after(limit, paced, before, event);
    Crew {
        states: crew.states.update(worker, now),
        claimed: crew.claimed + (if before is Claiming && event is Claimed {
            1nat
        } else {
            0nat
        }),
        sent: if now is Sending && before !is Sending {
            crew.sent.push(now->Sending_index)
        } else {
            crew.sent
        },
    }
}

/// Whether an event can reach a worker: the indexes that are claimed follow each
/// other.
pub open spec fn can_happen(crew: Crew, worker: int, event: WorkerEvent) -> bool {
    &&& 0 <= worker < crew.states.len()
    &&& crew.states[worker] is Claiming ==> match event {
        WorkerEvent::Claimed { index, due } => index == crew.claimed,
        _ => true,
    }
}

/// The workers of a target after events.
pub open spec fn crew_after(
    limit: RunLimit,
    paced: bool,
    workers: nat,
    steps: Seq<(int, WorkerEvent)>,
) -> Crew
    decreases steps.len(),
{
    if steps.len() == 0 {
        crew_start(workers)
    } else {
        let (worker, event) = steps.last();
        crew_step(
            limit,
            paced,
            crew_after(limit, paced, workers, steps.drop_last()),
            worker,
            event,
        )
    }
}

/// Whether events can follow each other.
pub open spec fn can_follow(
    limit: RunLimit,
    paced: bool,
    workers: nat,
    steps: Seq<(int, WorkerEvent)>,
) -> bool
    decreases steps.len(),
{
    steps.len() > 0 ==> {
        let (worker, event) = steps.last();
        &&& can_follow(limit, paced, workers, steps.drop_last())
        &&& can_happen(crew_after(limit, paced, workers, steps.drop_last()), worker, event)
    }
}

/// Whether no event is a cancellation.
pub open spec fn uncancelled(steps: Seq<(int, WorkerEvent)>) -> bool {
    forall|i: int|
        0 <= i < steps.len() ==> match (#[trigger] steps[i]).1 {
            WorkerEvent::Looked { cancelled, elapsed } => !cancelled,
            _ => true,
        }
}

/// How many workers wait until a query is due.
pub open spec fn waiting(states: Seq<WorkerState>) -> nat
    decreases states.len(),
{
    if states.len() == 0 {
        0
    } else {
        waiting(states.drop_last()) + (if states.last() is Pacing {
            1nat
        } else {
            0nat
        })
    }
}

proof fn lemma_waiting_update(states: Seq<WorkerState>, i: int, state: WorkerState)
    requires
        0 <= i < states.len(),
    ensures
        waiting(states.update(i, state)) + (if states[i] is Pacing {
            1nat
        } else {
            0nat
        }) == waiting(states) + (if state is Pacing {
            1nat
        } else {
            0nat
        }),
    decreases states.len(),
{
    let last = states.len() - 1;
    if i == last {
        assert(states.update(i, state).drop_last() =~= states.drop_last());
    } else {
        lemma_waiting_update(states.drop_last(), i, state);
        assert(states.update(i, state).drop_last() =~= states.drop_last().update(i, state));
    }
}

proof fn lemma_nobody_waits(states: Seq<WorkerState>)
    requires
        forall|i: int| 0 <= i < states.len() ==> (#[trigger] states[i]) !is Pacing,
    ensures
        waiting(states) == 0,
    decreases states.len(),
{
    if states.len() > 0 {
        lemma_nobody_waits(states.drop_last());
    }
}

/// What holds of the workers of a target that is asked for a number of requests,
/// as long as nobody cancels: of the claimed indexes those below the number were
/// sent or wait, and a worker stops only once that many were claimed.
proof fn lemma_crew(
    requests: u64,
    paced: bool,
    workers: nat,
    steps: Seq<(int, WorkerEvent)>,
)
    requires
        can_follow(RunLimit::Requests(requests), paced, workers, steps),
        uncancelled(steps),
    ensures
        ({
            let crew = crew_after(RunLimit::Requests(requests), paced, workers, steps);
            &&& crew.states.len() == workers
            &&& crew.sent.len() + waiting(crew.states) == (if crew.claimed < requests {
                crew.claimed
            } else {
                requests as nat
            })
            &&& forall|i: int|
                0 <= i < workers && (#[trigger] crew.states[i]) is Stopped ==> crew.claimed
                    >= requests
        }),
    decreases steps.len(),
{
    let limit = RunLimit::Requests(requests);
    let crew = crew_after(limit, paced, workers, steps);
    if steps.len() == 0 {
        lemma_nobody_waits(crew.states);
    } else {
        let (worker, event) = steps.last();
        let before = crew_after(limit, paced, workers, steps.drop_last());
        lemma_uncancelled_rest(steps);
        lemma_crew(requests, paced, workers, steps.drop_last());
        let now = worker::after(limit, paced, before.states[worker], event);
        lemma_waiting_update(before.states, worker, now);
        assert(steps[steps.len() - 1] == steps.last());
        assert forall|i: int| 0 <= i < workers && (#[trigger] crew.states[i]) is Stopped implies
            crew.claimed >= requests by {
            if i != worker {
                assert(before.states[i] == crew.states[i]);
            } else {
                assert(before.states[worker] is Stopped || before.states[worker] is Claiming);
            }
        }
    }
}

/// A target that is asked for a number of requests is sent exactly that many
/// queries, by any number of workers, at any rate and in any order of events,
/// unless somebody cancels: once all its workers have stopped.
pub proof fn law_exactly_the_requests_are_sent(
    requests: u64,
    paced: bool,
    workers: nat,
    steps: Seq<(int, WorkerEvent)>,
)
    requires
        workers > 0,
        can_follow(RunLimit::Requests(requests), paced, workers, steps),
        uncancelled(steps),
        forall|i: int|
            0 <= i < workers ==> (#[trigger] crew_after(
                RunLimit::Requests(requests),
                paced,
                workers,
                steps,
            ).states[i]) is Stopped,
    ensures
        crew_after(RunLimit::Requests(requests), paced, workers, steps).sent.len() == requests,
{
    lemma_crew(requests, paced, workers, steps);
    let crew = crew_after(RunLimit::Requests(requests), paced, workers, steps);
    assert(crew.states[0] is Stopped);
    lemma_nobody_waits(crew.states);
}

/// Even where somebody cancels, a target is never sent more queries than it is
/// asked for, nor more than indexes were claimed.
pub proof fn law_never_more_than_the_requests_are_sent(
    requests: u64,
    paced: bool,
    workers: nat,
    steps: Seq<(int, WorkerEvent)>,
)
    requires
        can_follow(RunLimit::Requests(requests), paced, workers, steps),
    ensures
        ({
            let crew = crew_after(RunLimit::Requests(requests), paced, workers, steps);
            &&& crew.states.len() == workers
            &&& crew.sent.len() + waiting(crew.states) <= requests
            &&& crew.sent.len() + waiting(crew.states) <= crew.claimed
        }),
    decreases steps.len(),
{
    let limit = RunLimit::Requests(requests);
    let crew = crew_after(limit, paced, workers, steps);
    if steps.len() == 0 {
        lemma_nobody_waits(crew.states);
    } else {
        let (worker, event) = steps.last();
        let before = crew_after(limit, paced, workers, steps.drop_last());
        law_never_more_than_the_requests_are_sent(requests, paced, workers, steps.drop_last());
        lemma_waiting_update(
            before.states,
            worker,
            worker::after(limit, paced, before.states[worker], event),
        );
    }
}

/// Whether a state waits with the query of an index.
pub open spec fn waits_with(state: WorkerState, index: u64) -> bool {
    state matches WorkerState::Pacing { index: held, due } && held == index
}

/// Whether an index was claimed and let in, given the times at which the queries
/// are due, or whatever they are.
spec fn let_in(
    limit: RunLimit,
    paced: bool,
    due: Option<spec_fn(u64) -> Span>,
    claimed: nat,
    index: u64,
) -> bool {
    &&& index < claimed
    &&& limit matches RunLimit::Requests(requests) ==> index < requests
    &&& due matches Some(due) ==> worker::admits(limit, paced, index, due(index))
}

/// What holds of the indexes of a target's workers: those that were sent and
/// those that a worker waits with were let in, none was sent twice, and none
/// that a worker waits with was sent or is waited with by another.
spec fn in_hand(
    crew: Crew,
    limit: RunLimit,
    paced: bool,
    due: Option<spec_fn(u64) -> Span>,
) -> bool {
    &&& crew.sent.no_duplicates()
    &&& forall|i: int|
        0 <= i < crew.sent.len() ==> let_in(limit, paced, due, crew.claimed, #[trigger] crew.sent[i])
    &&& forall|w: int|
        0 <= w < crew.states.len() ==> match #[trigger] crew.states[w] {
            WorkerState::Pacing { index, due: until } => {
                &&& let_in(limit, paced, due, crew.claimed, index)
                &&& due matches Some(due) ==> until == due(index)
                &&& !crew.sent.contains(index)
            },
            _ => true,
        }
    &&& forall|v: int, w: int, index: u64|
        0 <= v < w < crew.states.len() && #[trigger] waits_with(crew.states[v], index)
            ==> !#[trigger] waits_with(crew.states[w], index)
}

/// Whether each index that is claimed comes with the time at which its query is
/// due.
pub open spec fn are_due(steps: Seq<(int, WorkerEvent)>, due: spec_fn(u64) -> Span) -> bool {
    forall|i: int|
        0 <= i < steps.len() ==> match (#[trigger] steps[i]).1 {
            WorkerEvent::Claimed { index, due: until } => until == due(index),
            _ => true,
        }
}

proof fn lemma_are_due_rest(steps: Seq<(int, WorkerEvent)>, due: spec_fn(u64) -> Span)
    requires
        are_due(steps, due),
        steps.len() > 0,
    ensures
        are_due(steps.drop_last(), due),
{
    let rest = steps.drop_last();
    assert forall|i: int| 0 <= i < rest.len() implies match (#[trigger] rest[i]).1 {
        WorkerEvent::Claimed { index, due: until } => until == due(index),
        _ => true,
    } by {
        assert(steps[i] == rest[i]);
    }
}

proof fn lemma_in_hand(
    limit: RunLimit,
    paced: bool,
    workers: nat,
    steps: Seq<(int, WorkerEvent)>,
    due: Option<spec_fn(u64) -> Span>,
)
    requires
        can_follow(limit, paced, workers, steps),
        due matches Some(due) ==> are_due(steps, due),
    ensures
        crew_after(limit, paced, workers, steps).states.len() == workers,
        in_hand(crew_after(limit, paced, workers, steps), limit, paced, due),
    decreases steps.len(),
{
    if steps.len() > 0 {
        let (worker, event) = steps.last();
        let rest = steps.drop_last();
        let before = crew_after(limit, paced, workers, rest);
        let crew = crew_after(limit, paced, workers, steps);
        if let Some(due) = due {
            lemma_are_due_rest(steps, due);
        }
        assert(steps[steps.len() - 1] == steps.last());
        lemma_in_hand(limit, paced, workers, rest, due);
        let was = before.states[worker];
        let now = worker::after(limit, paced, was, event);
        assert(crew.states[worker] == now);
        assert forall|w: int| 0 <= w < crew.states.len() && w != worker implies #[trigger]
        crew.states[w] == before.states[w] by {}
        if now is Sending && was !is Sending {
            let index = now->Sending_index;
            assert(!before.sent.contains(index)) by {
                if before.sent.contains(index) {
                    let i = before.sent.index_of(index);
                    assert(before.sent[i] == index);
                }
            }
            assert forall|i: int| 0 <= i < crew.sent.len() implies let_in(
                limit,
                paced,
                due,
                crew.claimed,
                #[trigger] crew.sent[i],
            ) by {
                if i < before.sent.len() {
                    assert(crew.sent[i] == before.sent[i]);
                }
            }
            assert forall|i: int, j: int|
                0 <= i < crew.sent.len() && 0 <= j < crew.sent.len() && i != j implies crew.sent[i]
                != crew.sent[j] by {
                if i < before.sent.len() {
                    assert(before.sent.contains(before.sent[i]));
                }
                if j < before.sent.len() {
                    assert(before.sent.contains(before.sent[j]));
                }
            }
            assert forall|other: u64| crew.sent.contains(other) implies before.sent.contains(other)
                || other == index by {
                let i = crew.sent.index_of(other);
                if i < before.sent.len() {
                    assert(before.sent[i] == other);
                }
            }
            assert forall|w: int| 0 <= w < crew.states.len() implies match #[trigger]
            crew.states[w] {
                WorkerState::Pacing { index: held, due: until } => {
                    &&& let_in(limit, paced, due, crew.claimed, held)
                    &&& due matches Some(due) ==> until == due(held)
                    &&& !crew.sent.contains(held)
                },
                _ => true,
            } by {
                if w != worker {
                    if waits_with(before.states[w], index) && was is Pacing {
                        assert(waits_with(was, index));
                    }
                }
            }
        } else {
            assert(crew.sent == before.sent);
        }
        assert forall|v: int, w: int, index: u64|
            0 <= v < w < crew.states.len() && #[trigger] waits_with(
                crew.states[v],
                index,
            ) implies !#[trigger] waits_with(crew.states[w], index) by {
            if v != worker && w != worker {
                assert(waits_with(before.states[v], index));
                assert(!waits_with(before.states[w], index));
            }
        }
    }
}

/// No index is sent twice, and none that was not claimed, whoever sends it and
/// whatever the limit is.
pub proof fn law_no_index_is_sent_twice(
    limit: RunLimit,
    paced: bool,
    workers: nat,
    steps: Seq<(int, WorkerEvent)>,
)
    requires
        can_follow(limit, paced, workers, steps),
    ensures
        ({
            let crew = crew_after(limit, paced, workers, steps);
            &&& crew.sent.no_duplicates()
            &&& forall|i: int| 0 <= i < crew.sent.len() ==> (#[trigger] crew.sent[i]) < crew.claimed
        }),
{
    lemma_in_hand(limit, paced, workers, steps, None);
}

/// The indexes below the requests that were claimed were sent, or a worker waits
/// with them.
spec fn is_taken_up(crew: Crew, index: u64) -> bool {
    crew.sent.contains(index) || exists|w: int|
        0 <= w < crew.states.len() && #[trigger] waits_with(crew.states[w], index)
}

proof fn lemma_taken_up(
    requests: u64,
    paced: bool,
    workers: nat,
    steps: Seq<(int, WorkerEvent)>,
    index: u64,
)
    requires
        can_follow(RunLimit::Requests(requests), paced, workers, steps),
        uncancelled(steps),
        index < requests,
        index < crew_after(RunLimit::Requests(requests), paced, workers, steps).claimed,
    ensures
        is_taken_up(crew_after(RunLimit::Requests(requests), paced, workers, steps), index),
    decreases steps.len(),
{
    let limit = RunLimit::Requests(requests);
    if steps.len() > 0 {
        let (worker, event) = steps.last();
        let rest = steps.drop_last();
        let before = crew_after(limit, paced, workers, rest);
        let crew = crew_after(limit, paced, workers, steps);
        lemma_uncancelled_rest(steps);
        assert(steps[steps.len() - 1] == steps.last());
        let was = before.states[worker];
        let now = worker::after(limit, paced, was, event);
        assert(crew.states[worker] == now);
        if index < before.claimed {
            lemma_taken_up(requests, paced, workers, rest, index);
            if before.sent.contains(index) {
                let i = before.sent.index_of(index);
                assert(crew.sent[i] == index);
            } else {
                let w = choose|w: int|
                    0 <= w < before.states.len() && #[trigger] waits_with(before.states[w], index);
                if w != worker {
                    assert(crew.states[w] == before.states[w]);
                    assert(waits_with(crew.states[w], index));
                } else if now is Sending {
                    assert(crew.sent.last() == index);
                    assert(crew.sent[crew.sent.len() - 1] == index);
                } else {
                    assert(waits_with(crew.states[w], index));
                }
            }
        } else {
            if now is Sending {
                assert(crew.sent[crew.sent.len() - 1] == index);
            } else {
                assert(waits_with(crew.states[worker], index));
            }
        }
    }
}

proof fn lemma_uncancelled_rest(steps: Seq<(int, WorkerEvent)>)
    requires
        uncancelled(steps),
        steps.len() > 0,
    ensures
        uncancelled(steps.drop_last()),
{
    let rest = steps.drop_last();
    assert forall|i: int| 0 <= i < rest.len() implies match (#[trigger] rest[i]).1 {
        WorkerEvent::Looked { cancelled, elapsed } => !cancelled,
        _ => true,
    } by {
        assert(steps[i] == rest[i]);
    }
}

/// A target that is asked for a number of requests is sent the query of each
/// index below that number exactly once, and of no other, unless somebody
/// cancels: once all its workers have stopped.
pub proof fn law_each_request_is_sent_once(
    requests: u64,
    paced: bool,
    workers: nat,
    steps: Seq<(int, WorkerEvent)>,
)
    requires
        workers > 0,
        can_follow(RunLimit::Requests(requests), paced, workers, steps),
        uncancelled(steps),
        forall|i: int|
            0 <= i < workers ==> (#[trigger] crew_after(
                RunLimit::Requests(requests),
                paced,
                workers,
                steps,
            ).states[i]) is Stopped,
    ensures
        ({
            let sent = crew_after(RunLimit::Requests(requests), paced, workers, steps).sent;
            &&& sent.no_duplicates()
            &&& forall|index: u64| #[trigger] sent.contains(index) <==> index < requests
        }),
{
    let limit = RunLimit::Requests(requests);
    let crew = crew_after(limit, paced, workers, steps);
    lemma_crew(requests, paced, workers, steps);
    lemma_in_hand(limit, paced, workers, steps, None);
    assert(crew.states[0] is Stopped);
    assert forall|index: u64| #[trigger] crew.sent.contains(index) <==> index < requests by {
        if index < requests {
            lemma_taken_up(requests, paced, workers, steps, index);
            if !crew.sent.contains(index) {
                let w = choose|w: int|
                    0 <= w < crew.states.len() && #[trigger] waits_with(crew.states[w], index);
                assert(crew.states[w] is Stopped);
            }
        }
        if crew.sent.contains(index) {
            let i = crew.sent.index_of(index);
            assert(crew.sent[i] == index);
        }
    }
}

/// With a rate, no query is begun before it is due.
pub proof fn law_no_query_is_early(
    limit: RunLimit,
    workers: nat,
    steps: Seq<(int, WorkerEvent)>,
    due: spec_fn(u64) -> Span,
)
    requires
        steps.len() > 0,
        can_follow(limit, true, workers, steps),
        are_due(steps, due),
        crew_after(limit, true, workers, steps).sent.len() > crew_after(
            limit,
            true,
            workers,
            steps.drop_last(),
        ).sent.len(),
    ensures
        match steps.last().1 {
            WorkerEvent::Looked { cancelled, elapsed } => {
                let index = crew_after(limit, true, workers, steps).sent.last();
                &&& worker::goes_on(limit, cancelled, elapsed)
                &&& elapsed.in_nanos() >= due(index).in_nanos()
            },
            _ => false,
        },
{
    let rest = steps.drop_last();
    let before = crew_after(limit, true, workers, rest);
    lemma_are_due_rest(steps, due);
    lemma_in_hand(limit, true, workers, rest, Some(due));
    let was = before.states[steps.last().0];
    assert(was is Pacing);
}

proof fn lemma_distinct_below(indexes: Seq<u64>, bound: int)
    requires
        indexes.no_duplicates(),
        bound >= 0,
        forall|i: int| 0 <= i < indexes.len() ==> (#[trigger] indexes[i]) < bound,
    ensures
        indexes.len() <= bound,
{
    let numbers = indexes.map_values(|index: u64| index as int);
    assert(numbers.no_duplicates()) by {
        assert forall|i: int, j: int|
            0 <= i < numbers.len() && 0 <= j < numbers.len() && i != j implies numbers[i]
            != numbers[j] by {
            assert(indexes[i] != indexes[j]);
        }
    }
    numbers.unique_seq_to_set();
    vstd::set_lib::lemma_int_range(0, bound);
    assert(numbers.to_set().subset_of(vstd::set_lib::set_int_range(0, bound))) by {
        assert forall|n: int| numbers.to_set().contains(n) implies vstd::set_lib::set_int_range(
            0,
            bound,
        ).contains(n) by {
            let i = numbers.index_of(n);
            assert(numbers[i] == n);
            assert(indexes[i] < bound);
        }
    }
    vstd::set_lib::lemma_len_subset(numbers.to_set(), vstd::set_lib::set_int_range(0, bound));
}

/// With a rate and a duration, a target is sent only queries that are due before
/// the duration is over. Where the query of an index is due no earlier than the
/// index divided by the rate, in seconds, down to the nanosecond, these are no
/// more than the duration times the rate, rounded up.
pub proof fn law_rate_bounds_the_queries(
    duration: Span,
    rate: u64,
    workers: nat,
    steps: Seq<(int, WorkerEvent)>,
    due: spec_fn(u64) -> Span,
)
    requires
        rate > 0,
        can_follow(RunLimit::Duration(duration), true, workers, steps),
        are_due(steps, due),
    ensures
        ({
            let sent = crew_after(RunLimit::Duration(duration), true, workers, steps).sent;
            &&& forall|i: int|
                0 <= i < sent.len() ==> due(#[trigger] sent[i]).in_nanos() < duration.in_nanos()
            &&& (forall|index: u64|
                (#[trigger] due(index)).in_nanos() >= index * 1_000_000_000 / rate as int)
                ==> sent.len() <= (duration.in_nanos() * rate + 999_999_999) / 1_000_000_000
        }),
{
    let limit = RunLimit::Duration(duration);
    let sent = crew_after(limit, true, workers, steps).sent;
    lemma_in_hand(limit, true, workers, steps, Some(due));
    assert forall|i: int| 0 <= i < sent.len() implies due(#[trigger] sent[i]).in_nanos()
        < duration.in_nanos() by {
        assert(let_in(
            limit,
            true,
            Some(due),
            crew_after(limit, true, workers, steps).claimed,
            sent[i],
        ));
    }
    if forall|index: u64|
        (#[trigger] due(index)).in_nanos() >= index * 1_000_000_000 / rate as int {
        let product = duration.in_nanos() * rate;
        let bound = (product + 999_999_999) / 1_000_000_000;
        assert(product >= 0) by (nonlinear_arith)
            requires
                product == duration.in_nanos() * rate,
        ;
        assert forall|i: int| 0 <= i < sent.len() implies (#[trigger] sent[i]) < bound by {
            let nanos = sent[i] * 1_000_000_000;
            assert(due(sent[i]).in_nanos() < duration.in_nanos());
            if nanos >= product {
                vstd::arithmetic::div_mod::lemma_div_is_ordered(product, nanos, rate as int);
                vstd::arithmetic::div_mod::lemma_div_by_multiple(
                    duration.in_nanos() as int,
                    rate as int,
                );
            }
        }
        lemma_distinct_below(sent, bound);
    }
}

} // verus!
