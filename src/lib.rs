//! Peer-to-peer transport core for a membership-defined group of nodes, with
//! the balance valuation helpers used by token governance.
//!
//! The peer handle table, the connection manager's reconciliation decisions,
//! the stream wire format, the router and the valuation logic are verified.
//! Decimal multiplication and division are rust_decimal's, reached through
//! two trusted wrappers. Sockets, tasks and the async runtime live outside
//! this crate and drive it with plain values.
pub mod codec;
pub mod convergence;
pub mod peer_table;
pub mod router;
pub mod scheduling;
pub mod topology;
pub mod transport;
pub mod valuation;
