//! The query plan: which query an index stands for, and its identifier.

use vstd::prelude::*;

use crate::config::RunConfig;
use crate::names::DnsName;
use crate::record_type::RecordType;

verus! {

/// The first number that does not fit in a `u64`.
pub open spec fn u64_end() -> int {
    0x1_0000_0000_0000_0000
}

/// Which of a number of combinations an index of the plan stands for: the seed
/// is its offset.
pub open spec fn combination(seed: u64, index: u64, combinations: int) -> int {
    (index + seed) % u64_end() % combinations
}

/// The places of the name and the record type of a combination: the record
/// types of a name follow each other.
pub open spec fn places(combination: int, types: int) -> (int, int) {
    (combination / types, combination % types)
}

/// The places of the name and the record type that an index of the plan stands
/// for.
pub open spec fn planned(seed: u64, index: u64, names: int, types: int) -> (int, int) {
    places(combination(seed, index, names * types), types)
}

/// Whether a configuration has names and record types, and the number of their
/// combinations fits in a `usize`.
pub open spec fn has_plan(config: RunConfig) -> bool {
    &&& config.names.len() > 0
    &&& config.record_types.len() > 0
    &&& config.names.len() * config.record_types.len() <= usize::MAX
}

/// Whether a configuration has names and record types, and the number of their
/// combinations fits in a `usize`.
pub fn plannable(config: &RunConfig) -> (yes: bool)
    ensures
        yes == has_plan(*config),
{
    let names = config.names.len();
    let types = config.record_types.len();
    if names == 0 || types == 0 {
        return false;
    }
    names.checked_mul(types).is_some()
}

/// The name and the record type that an index of the plan stands for.
pub fn select_query(config: &RunConfig, index: u64) -> (selected: (&DnsName, RecordType))
    requires
        has_plan(*config),
    ensures
        ({
            let (name, record_type) = planned(
                config.seed,
                index,
                config.names.len() as int,
                config.record_types.len() as int,
            );
            &&& 0 <= name < config.names.len()
            &&& 0 <= record_type < config.record_types.len()
            &&& *selected.0 == config.names[name]
            &&& selected.1 == config.record_types[record_type]
        }),
{
    let names = config.names.len();
    let types = config.record_types.len();
    proof {
        assert(names * types > 0) by (nonlinear_arith)
            requires
                names > 0,
                types > 0,
        ;
    }
    let combinations: usize = names * types;
    let selected: usize = (index.wrapping_add(config.seed) % (combinations as u64)) as usize;
    proof {
        lemma_places_in_range(selected as int, names as int, types as int);
    }
    (&config.names[selected / types], config.record_types[selected % types])
}

proof fn lemma_places_in_range(combination: int, names: int, types: int)
    requires
        0 <= combination < names * types,
        names > 0,
        types > 0,
    ensures
        0 <= places(combination, types).0 < names,
        0 <= places(combination, types).1 < types,
{
    assert(0 <= combination / types < names && 0 <= combination % types < types)
        by (nonlinear_arith)
        requires
            0 <= combination < names * types,
            names > 0,
            types > 0,
    ;
}

/// The number that the identifier of a query is made from.
pub open spec fn mixed(seed: u64, worker_id: usize, index: u64) -> u64 {
    ((seed + index + worker_id * 0x9E37_79B9) % u64_end()) as u64
}

/// The identifier that a worker gives the query of an index: the lower three
/// quarters of a number that differs from worker to worker, put over each other.
pub open spec fn query_id(seed: u64, worker_id: usize, index: u64) -> u16 {
    let n = mixed(seed, worker_id, index);
    ((n % 0x1_0000) ^ (n / 0x1_0000 % 0x1_0000) ^ (n / 0x1_0000_0000 % 0x1_0000)) as u16
}

/// The identifier that a worker gives the query of an index.
pub fn transaction_id(seed: u64, worker_id: usize, index: u64) -> (id: u16)
    ensures
        id == query_id(seed, worker_id, index),
{
    let n: u64 = seed.wrapping_add(index).wrapping_add(
        (worker_id as u64).wrapping_mul(0x9E37_79B9),
    );
    proof {
        lemma_wrapping_sum(seed as int, index as int, worker_id * 0x9E37_79B9);
        assert(n == mixed(seed, worker_id, index));
        assert((n ^ (n >> 16) ^ (n >> 32)) as u16 == ((n % 0x1_0000) ^ (n / 0x1_0000 % 0x1_0000)
            ^ (n / 0x1_0000_0000 % 0x1_0000)) as u16) by (bit_vector);
    }
    (n ^ (n >> 16) ^ (n >> 32)) as u16
}

proof fn lemma_wrapping_sum(a: int, b: int, c: int)
    ensures
        ((a + b) % u64_end() + c % u64_end()) % u64_end() == (a + b + c) % u64_end(),
{
    vstd::arithmetic::div_mod::lemma_add_mod_noop(a + b, c, u64_end());
}

/// The seed rotates the plan: an index stands for the query that the index which
/// is larger by the seed, modulo 2^64, stands for without one.
pub proof fn law_seed_rotates_the_plan(seed: u64, index: u64, names: int, types: int)
    requires
        names > 0,
        types > 0,
    ensures
        planned(seed, index, names, types) == planned(
            0,
            ((index + seed) % u64_end()) as u64,
            names,
            types,
        ),
{
}

/// After all combinations the plan begins again.
pub proof fn law_plan_repeats(seed: u64, index: u64, names: int, types: int)
    requires
        names > 0,
        types > 0,
        index + seed + names * types < u64_end(),
    ensures
        planned(seed, (index + names * types) as u64, names, types) == planned(
            seed,
            index,
            names,
            types,
        ),
{
    let all = names * types;
    assert(all > 0) by (nonlinear_arith)
        requires
            names > 0,
            types > 0,
            all == names * types,
    ;
    vstd::arithmetic::div_mod::lemma_small_mod((index + all + seed) as nat, u64_end() as nat);
    vstd::arithmetic::div_mod::lemma_small_mod((index + seed) as nat, u64_end() as nat);
    vstd::arithmetic::div_mod::lemma_mod_multiples_vanish(1, index + seed, all);
}

/// Among as many consecutive indexes as there are combinations, each
/// combination of a name and a record type is planned by exactly one, as long as
/// the indexes with the seed fit in a `u64`.
pub proof fn law_plan_covers_each_combination_once(
    seed: u64,
    start: u64,
    names: int,
    types: int,
    name: int,
    record_type: int,
)
    requires
        0 <= name < names,
        0 <= record_type < types,
        start + seed + names * types <= u64_end(),
    ensures
        exists|index: u64|
            start <= index < start + names * types && #[trigger] planned(seed, index, names, types)
                == (name, record_type),
        forall|first: u64, second: u64|
            start <= first < start + names * types && start <= second < start + names * types
                && #[trigger] planned(seed, first, names, types) == (name, record_type)
                && #[trigger] planned(seed, second, names, types) == (name, record_type)
                ==> first == second,
{
    let all = names * types;
    let goal = name * types + record_type;
    assert(0 <= goal < all) by (nonlinear_arith)
        requires
            0 <= name < names,
            0 <= record_type < types,
            all == names * types,
            goal == name * types + record_type,
    ;
    vstd::arithmetic::div_mod::lemma_fundamental_div_mod_converse(goal, types, name, record_type);
    let base = start + seed;
    let ahead = (goal - base) % all;
    let index = (start + ahead) as u64;
    assert((base + ahead) % all == goal) by {
        vstd::arithmetic::div_mod::lemma_add_mod_noop_right(base, goal - base, all);
        vstd::arithmetic::div_mod::lemma_small_mod(goal as nat, all as nat);
    }
    assert(index + seed == base + ahead);
    vstd::arithmetic::div_mod::lemma_small_mod((index + seed) as nat, u64_end() as nat);
    assert(planned(seed, index, names, types) == (name, record_type));
    assert forall|first: u64, second: u64|
        start <= first < start + all && start <= second < start + all && #[trigger] planned(
            seed,
            first,
            names,
            types,
        ) == (name, record_type) && #[trigger] planned(seed, second, names, types) == (
            name,
            record_type,
        ) implies first == second by {
        lemma_planned_combination(seed, first, names, types, name, record_type);
        lemma_planned_combination(seed, second, names, types, name, record_type);
        let a = first + seed;
        let b = second + seed;
        vstd::arithmetic::div_mod::lemma_small_mod(a as nat, u64_end() as nat);
        vstd::arithmetic::div_mod::lemma_small_mod(b as nat, u64_end() as nat);
        assert(a % all == goal && b % all == goal);
        assert(a == b) by (nonlinear_arith)
            requires
                a % all == b % all,
                -all < a - b < all,
                all > 0,
        ;
    }
}

proof fn lemma_planned_combination(
    seed: u64,
    index: u64,
    names: int,
    types: int,
    name: int,
    record_type: int,
)
    requires
        types > 0,
        planned(seed, index, names, types) == (name, record_type),
    ensures
        combination(seed, index, names * types) == name * types + record_type,
{
    let selected = combination(seed, index, names * types);
    vstd::arithmetic::div_mod::lemma_fundamental_div_mod(selected, types);
    assert(name * types == types * name) by (nonlinear_arith);
}

/// The plan begins with the first name and the first record type. From an index to
/// the next it goes to the next record type of the name; after the last one to
/// the first of the next name, and after the last name to the first again.
pub proof fn law_plan_goes_through_types_and_names(seed: u64, index: u64, names: int, types: int)
    requires
        names > 0,
        types > 0,
        names * types <= usize::MAX,
        index + seed + 1 < 0x1_0000_0000_0000_0000,
    ensures
        planned(0, 0, names, types) == (0int, 0int),
        ({
            let (name, record_type) = planned(seed, index, names, types);
            let (next_name, next_type) = planned(seed, (index + 1) as u64, names, types);
            &&& 0 <= name < names
            &&& 0 <= record_type < types
            &&& record_type + 1 < types ==> next_name == name && next_type == record_type + 1
            &&& record_type + 1 == types ==> next_type == 0
            &&& record_type + 1 == types && name + 1 < names ==> next_name == name + 1
            &&& record_type + 1 == types && name + 1 == names ==> next_name == 0
        }),
{
    let all = names * types;
    assert(all > 0) by (nonlinear_arith)
        requires
            names > 0,
            types > 0,
            all == names * types,
    ;
    let sum = index + seed;
    let here = sum % all;
    let there = (sum + 1) % all;
    vstd::arithmetic::div_mod::lemma_small_mod(sum as nat, u64_end() as nat);
    vstd::arithmetic::div_mod::lemma_small_mod((sum + 1) as nat, u64_end() as nat);
    vstd::arithmetic::div_mod::lemma_small_mod(0, u64_end() as nat);
    vstd::arithmetic::div_mod::lemma_small_mod(0, all as nat);
    lemma_places_in_range(here, names, types);
    lemma_places_in_range(0, names, types);
    assert(0int / types == 0 && 0int % types == 0) by (nonlinear_arith)
        requires
            types > 0,
    ;
    let name = here / types;
    let record_type = here % types;
    vstd::arithmetic::div_mod::lemma_fundamental_div_mod(here, types);
    assert(here == name * types + record_type) by (nonlinear_arith)
        requires
            here == types * name + record_type,
    ;
    assert(there == if here + 1 == all { 0 } else { here + 1 }) by {
        vstd::arithmetic::div_mod::lemma_add_mod_noop(sum, 1, all);
        if all == 1 {
            assert(there == 0);
        } else {
            vstd::arithmetic::div_mod::lemma_small_mod(1, all as nat);
            if here + 1 < all {
                vstd::arithmetic::div_mod::lemma_small_mod((here + 1) as nat, all as nat);
            } else {
                vstd::arithmetic::div_mod::lemma_mod_self_0(all);
            }
        }
    }
    if record_type + 1 < types {
        vstd::arithmetic::mul::lemma_mul_inequality(name + 1, names, types);
        vstd::arithmetic::mul::lemma_mul_is_distributive_add_other_way(types, name, 1);
        vstd::arithmetic::div_mod::lemma_fundamental_div_mod_converse(
            here + 1,
            types,
            name,
            record_type + 1,
        );
    } else {
        assert(here + 1 == (name + 1) * types) by (nonlinear_arith)
            requires
                here == name * types + record_type,
                record_type + 1 == types,
        ;
        if name + 1 < names {
            vstd::arithmetic::mul::lemma_mul_strict_inequality(name + 1, names, types);
            vstd::arithmetic::div_mod::lemma_fundamental_div_mod_converse(
                here + 1,
                types,
                name + 1,
                0,
            );
        } else {
            assert(here + 1 == all) by (nonlinear_arith)
                requires
                    here + 1 == (name + 1) * types,
                    name + 1 == names,
                    all == names * types,
            ;
        }
    }
}

/// The identifier of a query is the sum of the seed, the index and the offset of
/// the worker, modulo 2^64, with its lower three quarters put over each other.
/// What is added to the index may as well be added to the seed, and a worker is
/// ahead of the one before it by its offset.
pub proof fn law_identifiers_come_from_the_sum(
    seed: u64,
    worker_id: usize,
    index: u64,
    other_seed: u64,
    other_worker: usize,
    other_index: u64,
)
    ensures
        (seed + index + worker_id * 0x9E37_79B9 - other_seed - other_index - other_worker
            * 0x9E37_79B9) % 0x1_0000_0000_0000_0000 == 0 ==> query_id(seed, worker_id, index)
            == query_id(other_seed, other_worker, other_index),
        seed + index + worker_id * 0x9E37_79B9 < 0x1_0000 ==> query_id(seed, worker_id, index)
            == seed + index + worker_id * 0x9E37_79B9,
        ({
            let n = ((seed + index + worker_id * 0x9E37_79B9) % 0x1_0000_0000_0000_0000) as u64;
            query_id(seed, worker_id, index) == (n ^ (n >> 16) ^ (n >> 32)) as u16
        }),
{
    let sum = seed + index + worker_id * 0x9E37_79B9;
    let other = other_seed + other_index + other_worker * 0x9E37_79B9;
    let n = mixed(seed, worker_id, index);
    if (sum - other) % 0x1_0000_0000_0000_0000 == 0 {
        vstd::arithmetic::div_mod::lemma_mod_equivalence(sum, other, 0x1_0000_0000_0000_0000);
    }
    if sum < 0x1_0000 {
        vstd::arithmetic::div_mod::lemma_small_mod(sum as nat, u64_end() as nat);
        assert(((n % 0x1_0000) ^ (n / 0x1_0000 % 0x1_0000) ^ (n / 0x1_0000_0000 % 0x1_0000)) as u16
            == n) by (bit_vector)
            requires
                n < 0x1_0000,
        ;
    }
    assert((n ^ (n >> 16) ^ (n >> 32)) as u16 == ((n % 0x1_0000) ^ (n / 0x1_0000 % 0x1_0000) ^ (n
        / 0x1_0000_0000 % 0x1_0000)) as u16) by (bit_vector);
}

/// Queries of one worker whose sums differ in their lowest quarter alone have
/// different identifiers.
pub proof fn law_neighbours_have_different_identifiers(
    seed: u64,
    worker_id: usize,
    index: u64,
    other: u64,
)
    requires
        index != other,
        mixed(seed, worker_id, index) / 0x1_0000 == mixed(seed, worker_id, other) / 0x1_0000,
        seed + index + worker_id * 0x9E37_79B9 < 0x1_0000_0000_0000_0000,
        seed + other + worker_id * 0x9E37_79B9 < 0x1_0000_0000_0000_0000,
    ensures
        query_id(seed, worker_id, index) != query_id(seed, worker_id, other),
{
    let a = mixed(seed, worker_id, index);
    let b = mixed(seed, worker_id, other);
    vstd::arithmetic::div_mod::lemma_small_mod(
        (seed + index + worker_id * 0x9E37_79B9) as nat,
        u64_end() as nat,
    );
    vstd::arithmetic::div_mod::lemma_small_mod(
        (seed + other + worker_id * 0x9E37_79B9) as nat,
        u64_end() as nat,
    );
    assert(a != b);
    assert(((a % 0x1_0000) ^ (a / 0x1_0000 % 0x1_0000) ^ (a / 0x1_0000_0000 % 0x1_0000)) as u16
        != ((b % 0x1_0000) ^ (b / 0x1_0000 % 0x1_0000) ^ (b / 0x1_0000_0000 % 0x1_0000)) as u16)
        by (bit_vector)
        requires
            a != b,
            a / 0x1_0000 == b / 0x1_0000,
    ;
}

/// A configuration has a plan exactly when the combinations of its names and
/// record types are between one and the largest `usize`.
pub proof fn law_plans_have_combinations(config: RunConfig)
    ensures
        has_plan(config) <==> 1 <= config.names.len() * config.record_types.len() <= usize::MAX,
{
    let names = config.names.len() as int;
    let types = config.record_types.len() as int;
    assert(names * types >= 1 <==> names >= 1 && types >= 1) by (nonlinear_arith)
        requires
            names >= 0,
            types >= 0,
    ;
}

} // verus!
