//! A node of a broadcast-dissemination protocol.
//!
//! A node accepts values from clients and peers, records each value exactly once and
//! forwards a value to its neighbours the first time it sees it, and only then. The crate
//! holds the node's state and decisions; the transport that delivers requests and carries
//! out the sends is the caller's.

pub mod dedup;
pub mod history;
pub mod message;
pub mod multi_node;
pub mod single_node;
pub mod text;
pub mod topology;
pub mod uniq_id;
