//! Control-plane bridge between an interactive front end and a privileged
//! scanning engine running in a separate process.
//!
//! The crate provides the typed request/response protocol spoken over a
//! private byte-stream channel (`codec`), the single-pending-request client
//! session driven over that channel (`rpc`), and the scan-lifecycle
//! orchestration that turns remote scan outcomes into user-facing
//! notifications (`orchestrator`).

pub mod codec;
pub mod orchestrator;
pub mod protocol;
pub mod rpc;
