//! Decisions, parsing and bookkeeping of a comparative DNS load generator.

use vstd::prelude::*;

pub mod address;
pub mod address_text;
pub mod cli;
pub mod config;
pub mod counting;
pub mod crew;
pub mod distinct;
pub mod dns;
pub mod double;
pub mod engine;
pub mod error;
pub mod histogram;
pub mod label_map;
pub mod length_text;
pub mod names;
pub mod order;
pub mod plan;
pub mod record_type;
pub mod report;
pub mod settings;
pub mod span;
pub mod stats;
pub mod sums;
pub mod table;
pub mod tally;
pub mod text;
pub mod type_list;
pub mod worker;

verus! {

} // verus!
