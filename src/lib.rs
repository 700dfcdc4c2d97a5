//! mitte: authenticated, encrypted point-to-point messaging between two agents
//! over a datagram transport.
//!
//! The library holds the protocol's logic: the identity frame, the peer
//! directory, the handshake decisions of both sides and the framing of
//! encrypted messages. Sockets and deadlines belong to the caller, which
//! performs the actions that these functions decide.

pub mod error;
pub mod keys;
pub mod address;
mod bytes;
pub mod identity;
pub mod directory;
pub mod message;
pub mod agent;

pub use error::MitteError;

pub use agent::Agent;
pub use directory::PeerDirectory;
pub use address::SocketAddress;
pub use identity::AgentDescription;
