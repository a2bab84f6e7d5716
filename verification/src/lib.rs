//! Cell-oriented access to a distributed hash table.
//!
//! Matrix cells are stored in the DHT as records keyed by a textual reference
//! of block number and position. This crate holds the rules of that access
//! layer: how a cell becomes a record and a record value a cell, how a batch
//! of reads is cut into bounded chunks and split into fetched cells and
//! unfetched positions, and how a batch of writes is paced and summed up into
//! a success ratio. The network itself stays outside: every request is handed
//! out as a plain value and every reply is handed back as one.

pub mod bootstrap;
pub mod client;
pub mod clock;
pub mod codec;
pub mod fetch;
pub mod matrix;
pub mod port;
pub mod publish;
pub mod record;
pub mod reference;
