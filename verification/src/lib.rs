//! A ballot-based single-decree-per-slot consensus core.
//!
//! A designated proposer drives a two-phase protocol (prepare/promise, then
//! accept/accepted) to commit client-submitted values into an agreed,
//! totally-ordered log replicated across a fixed cluster of acceptors. The
//! protocol tolerates loss, reordering and duplication of messages, and the
//! failure of a minority of acceptors. Transport, membership and failure
//! detection are external collaborators: this crate holds only the state
//! machines and the quorum arithmetic, and every function here is verified.

pub mod acceptor;
pub mod ballot;
pub mod log;
pub mod messages;
pub mod proposer;
pub mod quorum;
