//! Client-side engine for a line-oriented, JSON-framed request/response/event
//! protocol used to drive an external debug adapter over its standard pipes.
//!
//! The crate models the wire messages as a tagged union, encodes and decodes
//! them through its own verified JSON representation, enforces the
//! initialize/launch/configuration ordering of a session, and keeps a
//! breakpoint registry synchronized with the adapter.

pub mod breakpoints;
pub mod codec;
pub mod dap;
pub mod dap_interface;
pub mod dap_messenger;
pub mod errors;
pub mod json;
pub mod laws;
pub mod message;
pub mod message_types;
pub mod types;

pub use breakpoints::Breakpoint;
pub use breakpoints::BreakpointStore;
pub use dap::DapInstance;
pub use dap_interface::DapInterface;
pub use dap_interface::DebugState;
pub use errors::DapError;
pub use message::ProtocolMessage;
pub use types::DebugPointer;
pub use types::RequestId;
