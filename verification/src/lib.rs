//! The core of a DNS forwarding proxy: the wire-format codec for DNS
//! messages and the state machine that correlates a query with its
//! response. Every function is verified against a mathematical model of the
//! wire format; none of them panics, whatever bytes it is given.
//!
//! - [`wire`]: big-endian integers.
//! - [`name`]: domain names, with compression pointers followed on decode.
//! - [`header`], [`question`], [`record`]: the parts of a message.
//! - [`packet`]: a whole message and its serialization.
//! - [`parser`]: a cursor that reads a whole message from a datagram.
//! - [`policy`]: what is done to a matched response before it is answered.
//! - [`proxy`]: one query/response cycle, as a function from state and
//!   event to state and action.

pub mod error;
pub mod header;
pub mod name;
pub mod packet;
pub mod parser;
pub mod policy;
pub mod proxy;
pub mod question;
pub mod record;
pub mod wire;

pub use crate::error::DnsError;
pub use crate::header::Header;
pub use crate::name::Name;
pub use crate::packet::DNSPacket;
pub use crate::parser::PacketParser;
pub use crate::question::Question;
pub use crate::record::Record;
