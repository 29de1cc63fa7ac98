//! The best bid and offer of every symbol of an exchange, kept in shared memory for other
//! processes to read.
//!
//! This library decides and computes; it does no input or output of its own. It is handed what
//! has happened and answers with what is to be done: stores to the shared memory, commands to
//! the exchange, commands to the workers.
//!
//! * `record`, `memory` and `reader`: the records of the shared memory, the stores that update
//!   them, and what a reader can rely on.
//! * `dedicated` and `pool`: the workers, which turn tickers into stores. `quotes` is what becomes
//!   of a ticker, `asked` is which streams are asked for, and `history` is what holds over time.
//! * `orchestrator`: which symbols are followed, by whom and in which record. `slots` is its
//!   bookkeeping; `eligible` is which symbols are wanted; `listing`, `capacity`, `notice`,
//!   `delivery` and `changes` are what one list of the exchange changes, and `replies` is what
//!   holds after any number of them.
//! * `warmup`, `handover` and `scheduler`: how connections are replaced without a gap, by which
//!   replacement, and when.
//! * `startup`: the symbols that have workers of their own.
//! * `endpoint`, `command`, `worker`, `stats`, `text`, `config`: what the others share.
//! * `fx_map`: what the maps of `rustc_hash` do.
pub mod asked;
pub mod capacity;
pub mod changes;
pub mod command;
pub mod config;
pub mod dedicated;
pub mod delivery;
pub mod eligible;
pub mod endpoint;
pub mod fx_map;
pub mod handover;
pub mod history;
pub mod listing;
pub mod memory;
pub mod notice;
pub mod orchestrator;
pub mod pool;
pub mod quotes;
pub mod reader;
pub mod record;
pub mod replies;
pub mod scheduler;
pub mod slots;
pub mod startup;
pub mod stats;
pub mod text;
pub mod warmup;
pub mod worker;
