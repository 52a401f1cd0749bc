//! Packets of the PPPoE discovery stage (RFC 2516), with the PPP-Max-Payload tag of
//! RFC 4638 and the access-loop tags of TR-101.
//!
//! Every type here is a view over a byte buffer that the caller owns. The contracts
//! are stated over the bytes themselves (`Seq<u8>`), so what a parser accepts and what
//! a builder writes can be held against each other.

pub mod error;
pub mod eth;
pub mod header;
pub mod packet;
pub mod tags;
pub mod wire;

pub use error::{Error, ParseError};
pub use header::{Code, Header};
pub use packet::{Packet, PacketBuilder};
pub use tags::{Tag, TagIterator, Tlv, Tr101Information};
