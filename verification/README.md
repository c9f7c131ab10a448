# dnsblast

The core of a comparative DNS load generator, written in Rust and verified with
Verus. It drives several DNS servers with the same query plan and compares
throughput, latency, errors, response codes and DNSSEC observations.

Only load-test systems you own or are explicitly authorized to test.

## Layout

`src/` is the library. Verus proves the contract of every function in it, but for
the small functions that call an outside crate or the formatting of the standard
library, whose contracts it believes.

| Module | What it holds |
|---|---|
| `cli`, `config`, `error` | the command line, the configuration read from it, and what may be wrong with it |
| `address`, `address_text`, `names`, `record_type`, `type_list`, `span` | addresses, DNS names, record types, lists of them, and lengths of time in text form |
| `distinct`, `order`, `text`, `tally`, `label_map`, `double` | lists without repetitions, stable sorting, text, saturating counts, ordered maps, doubles as bits |
| `plan` | which query an index of the plan stands for, and its identifier |
| `dns` | queries on the wire, and what is observed of responses |
| `worker`, `crew` | what a worker does next, how the outcome of a query is recorded, and what the workers of a target send together |
| `histogram`, `stats`, `sums` | latency histograms, counters by record type, merging and summaries |
| `engine`, `report` | the result of a run, the ranking, the table, and where results go |

Public proof functions whose names begin with `law_` state what holds of the
library as a whole: that a target is sent exactly the requests it is asked for,
each once, and no more than the rate allows; that the plan covers every
combination of names and record types; that the counters of the record types add
up to those of the target; that the result does not depend on how samples are
spread over shards; that the ranking is complete and in order; and more.

The library calls `hickory-proto`, `hdrhistogram`, `humantime` and `chrono`
through those functions, marked `external_body`. Their doc comments say what is
taken for granted of each call.

`app/` is the program around the library: arguments, sockets, tasks, clocks and
files, and the arithmetic on floating-point numbers.

`tests/` runs the library on concrete values.
