//! Admission control and stream reassembly for a QUIC transaction-ingestion
//! server.
//!
//! The crate holds the decisions of the server: which peers are admitted and
//! which are evicted, how many streams and how much receive window a peer
//! gets, how the chunks of a stream become one packet, and when packets
//! leave as a batch. Each of them is stated as a contract and proved.
//!
//! What the server has from other crates stands behind functions whose
//! contracts are taken on trust: the ordered map of the connection table in
//! `index_table`, the byte buffers in `chunks`, the hand-off queue in
//! `handoff`, the handles of a connection in `transport`, and chance and
//! proportion in `sampling`.

pub mod peer;
pub mod stats;
pub mod transport;
pub mod limits;
pub mod connection_entry;
pub mod index_table;
pub mod sampling;
pub mod chunks;
pub mod handoff;
pub mod packet;
pub mod stream_handler;
pub mod batcher;
pub mod connection_table;
pub mod table_laws;
pub mod admission;
pub mod rate_limiter;
pub mod stream_throttle;
pub mod scheduling;
pub mod builtins;
