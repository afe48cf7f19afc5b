//! Session-and-ping correlation engine for a signaling and telemetry relay.
//!
//! The library holds the verified core: the client registry shared between
//! the control-plane handler and the datagram relay, the identity allocator,
//! the parsing of ICE candidates and remote addresses, the wire-format
//! encoders, and the decision logic of the two long-running loops.

pub mod decode;
pub mod encode;
pub mod handler;
pub mod ident;
pub mod laws;
pub mod registry;
pub mod reject;
pub mod relay;
pub mod text;

pub use handler::WsAction;
pub use ident::IdAllocator;
pub use registry::Client;
pub use registry::Registry;
pub use reject::RejectionKind;
pub use relay::Ping;
