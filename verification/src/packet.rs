//! A discovery packet with its Ethernet header, in one buffer.

use crate::error::{Error, ParseError};
use crate::eth;
use crate::eth::ETH_HEADER_LEN;
use crate::header;
use crate::header::{frame_len, header_bytes, holds_frame, Code, HEADER_LEN};
use crate::wire::{splice, u16_be_bytes};
use vstd::prelude::*;

verus! {

pub const PPPOE_DISCOVERY: u16 = 0x8863;

pub const PPPOE_SESSION: u16 = 0x8864;

/// The shortest buffer that holds both headers.
pub const MIN_PACKET_LEN: usize = 20;

/// Whether a buffer holds an Ethernet header and behind it a discovery packet, and
/// if not, what is wrong with it: it is shorter than the two headers, or the
/// discovery packet is not in order.
pub open spec fn parse(bytes: Seq<u8>) -> Result<(), ParseError> {
    if bytes.len() < MIN_PACKET_LEN {
        Err(ParseError::BufferTooSmall(bytes.len() as usize))
    } else {
        header::parse(bytes.subrange(ETH_HEADER_LEN as int, bytes.len() as int), None)
    }
}

/// The bytes of a packet that count: the Ethernet header, and of the buffer behind
/// it the header and the payload that it announces.
pub open spec fn frame(ethernet: Seq<u8>, pppoe: Seq<u8>) -> Seq<u8> {
    ethernet + pppoe.subrange(0, frame_len(pppoe))
}

fn ensure_minimal_buffer_size(buffer: &[u8]) -> (r: Result<(), ParseError>)
    ensures
        match r {
            Ok(_) => buffer@.len() >= MIN_PACKET_LEN,
            Err(e) => buffer@.len() < MIN_PACKET_LEN && e == ParseError::BufferTooSmall(
                buffer@.len() as usize,
            ),
        },
{
    // minimal eth + pppoe header size
    if buffer.len() < MIN_PACKET_LEN {
        return Err(ParseError::BufferTooSmall(buffer.len()));
    }
    Ok(())
}

/// Copies the bytes of a packet that count into a vector.
fn collect(ethernet: &[u8], pppoe: &[u8], used: usize) -> (bytes: Vec<u8>)
    requires
        used <= pppoe.len(),
    ensures
        bytes@ == ethernet@ + pppoe@.subrange(0, used as int),
{
    let mut bytes: Vec<u8> = Vec::new();
    bytes.extend_from_slice(ethernet);
    bytes.extend_from_slice(&pppoe[0..used]);
    bytes
}

/// A discovery packet that was read and found in order.
#[derive(Debug)]
pub struct Packet<'a> {
    ethernet: eth::Header<'a>,
    pppoe: header::Header<'a>,
}

impl<'a> Packet<'a> {
    #[verifier::type_invariant]
    spec fn in_order(self) -> bool {
        &&& self.ethernet@.len() == ETH_HEADER_LEN
        &&& header::parse(self.pppoe@, None) is Ok
    }

    /// The fourteen bytes of the Ethernet header.
    pub closed spec fn ethernet_bytes(&self) -> Seq<u8> {
        self.ethernet@
    }

    /// The bytes of the buffer behind the Ethernet header.
    pub closed spec fn pppoe_bytes(&self) -> Seq<u8> {
        self.pppoe@
    }

    /// Whether the two parts are what they were when the packet was read: an
    /// Ethernet header, and a buffer that holds a discovery packet in order. Every
    /// packet that this library hands out is.
    pub open spec fn wf(&self) -> bool {
        &&& self.ethernet_bytes().len() == ETH_HEADER_LEN
        &&& header::parse(self.pppoe_bytes(), None) is Ok
    }

    /// Reads the packet in `buffer`: an Ethernet header, and behind it a discovery
    /// packet of any code.
    pub fn with_buffer(buffer: &'a mut [u8]) -> (r: Result<Packet<'a>, Error>)
        ensures
            match parse(old(buffer)@) {
                Ok(_) => {
                    &&& r matches Ok(p)
                    &&& p.wf()
                    &&& p.ethernet_bytes() == old(buffer)@.subrange(0, ETH_HEADER_LEN as int)
                    &&& p.pppoe_bytes() == old(buffer)@.subrange(
                        ETH_HEADER_LEN as int,
                        old(buffer)@.len() as int,
                    )
                },
                Err(e) => r matches Err(Error::ParseError(got)) && got == e && final(buffer)@
                    == old(buffer)@,
            },
    {
        match ensure_minimal_buffer_size(buffer) {
            Err(e) => {
                return Err(Error::from(e));
            },
            Ok(()) => {},
        }
        let (eth_buf, pppoe_buf) = buffer.split_at_mut(ETH_HEADER_LEN);
        // the Ethernet part has its fourteen bytes, so only the rest can be refused
        let pppoe = match header::Header::from_buffer(pppoe_buf) {
            Err(e) => {
                proof {
                    let whole = old(buffer)@;
                    assert(whole.subrange(0, ETH_HEADER_LEN as int) + whole.subrange(
                        ETH_HEADER_LEN as int,
                        whole.len() as int,
                    ) =~= whole);
                }
                return Err(Error::from(e));
            },
            Ok(pppoe) => pppoe,
        };
        let ethernet = match eth::Header::with_buffer(eth_buf) {
            Err(e) => {
                return Err(Error::from(e));
            },
            Ok(ethernet) => ethernet,
        };
        Ok(Packet { ethernet, pppoe })
    }

    /// The discovery packet behind the Ethernet header.
    pub fn pppoe_header(&self) -> (h: &header::Header<'a>)
        ensures
            self.wf(),
            h@ == self.pppoe_bytes(),
            h.wf(),
    {
        proof {
            use_type_invariant(self);
        }
        &self.pppoe
    }

    /// The Ethernet header.
    pub fn ethernet_header(&self) -> (h: &eth::Header<'a>)
        ensures
            self.wf(),
            h@ == self.ethernet_bytes(),
            h.wf(),
    {
        proof {
            use_type_invariant(self);
        }
        &self.ethernet
    }

    /// The length of the packet: both headers and the payload.
    pub fn len(&self) -> (n: usize)
        ensures
            self.wf(),
            n == ETH_HEADER_LEN + frame_len(self.pppoe_bytes()),
            n == frame(self.ethernet_bytes(), self.pppoe_bytes()).len(),
    {
        proof {
            use_type_invariant(self);
        }
        ETH_HEADER_LEN + self.pppoe.len()
    }

    /// A packet is never empty.
    pub fn is_empty(&self) -> (empty: bool)
        ensures
            !empty,
    {
        false
    }

    /// The packet as it goes over the wire: both headers and the payload.
    pub fn as_bytes(&self) -> (bytes: Vec<u8>)
        ensures
            self.wf(),
            bytes@ == frame(self.ethernet_bytes(), self.pppoe_bytes()),
            bytes@.len() == ETH_HEADER_LEN + HEADER_LEN + header::payload_len(self.pppoe_bytes()),
    {
        proof {
            use_type_invariant(self);
        }
        collect(self.ethernet.as_bytes(), self.pppoe.as_bytes(), self.pppoe.len())
    }
}

/// A discovery packet that is being written. Nothing keeps it in order; `build`
/// checks it.
pub struct PacketBuilder<'a> {
    ethernet: eth::HeaderBuilder<'a>,
    pppoe: header::Header<'a>,
}

impl<'a> PacketBuilder<'a> {
    /// The fourteen bytes of the Ethernet header.
    pub closed spec fn ethernet_bytes(&self) -> Seq<u8> {
        self.ethernet@
    }

    /// The bytes of the buffer behind the Ethernet header.
    pub closed spec fn pppoe_bytes(&self) -> Seq<u8> {
        self.pppoe@
    }

    /// Whether the first part is an Ethernet header and the second holds the packet
    /// that it announces.
    pub open spec fn wf(&self) -> bool {
        self.ethernet_bytes().len() == ETH_HEADER_LEN && holds_frame(self.pppoe_bytes())
    }

    /// Starts a PADI packet in `buffer`: an Ethernet header with the two addresses
    /// and the EtherType of the discovery stage, and the header of a PADI packet with
    /// an empty payload.
    pub fn new_discovery_packet(buffer: &'a mut [u8], src_mac: [u8; 6], dst_mac: [u8; 6]) -> (r:
        Result<PacketBuilder<'a>, Error>)
        ensures
            match r {
                Ok(b) => {
                    &&& old(buffer)@.len() >= MIN_PACKET_LEN
                    &&& b.wf()
                    &&& b.ethernet_bytes() == dst_mac@ + src_mac@ + u16_be_bytes(PPPOE_DISCOVERY)
                    &&& b.pppoe_bytes() == splice(
                        old(buffer)@.subrange(ETH_HEADER_LEN as int, old(buffer)@.len() as int),
                        0,
                        header_bytes(Code::Padi, 0, 0),
                    )
                    &&& header::frame_payload(b.pppoe_bytes()) == Seq::<u8>::empty()
                },
                Err(e) => {
                    &&& old(buffer)@.len() < MIN_PACKET_LEN
                    &&& e matches Error::ParseError(got)
                    &&& got == ParseError::BufferTooSmall(old(buffer)@.len() as usize)
                    &&& final(buffer)@ == old(buffer)@
                },
            },
    {
        match ensure_minimal_buffer_size(buffer) {
            Err(e) => {
                return Err(Error::from(e));
            },
            Ok(()) => {},
        }
        let (eth_buf, pppoe_buf) = buffer.split_at_mut(ETH_HEADER_LEN);
        let mut ethernet = match eth::HeaderBuilder::with_buffer(eth_buf) {
            Err(e) => {
                return Err(Error::from(e));
            },
            Ok(ethernet) => ethernet,
        };
        ethernet.set_src_address(src_mac);
        ethernet.set_dst_address(dst_mac);
        ethernet.set_ether_type(PPPOE_DISCOVERY);
        proof {
            assert(ethernet@ =~= dst_mac@ + src_mac@ + u16_be_bytes(PPPOE_DISCOVERY));
        }
        let pppoe = match header::Header::create_padi(pppoe_buf) {
            Err(e) => {
                return Err(Error::from(e));
            },
            Ok(pppoe) => pppoe,
        };
        Ok(PacketBuilder { ethernet, pppoe })
    }

    /// The length of the packet: both headers and the payload.
    pub fn len(&self) -> (n: usize)
        requires
            self.wf(),
        ensures
            n == ETH_HEADER_LEN + frame_len(self.pppoe_bytes()),
            n == frame(self.ethernet_bytes(), self.pppoe_bytes()).len(),
    {
        ETH_HEADER_LEN + self.pppoe.len()
    }

    /// A packet is never empty.
    pub fn is_empty(&self) -> (empty: bool)
        ensures
            !empty,
    {
        false
    }

    /// The discovery packet behind the Ethernet header, to be written to.
    pub fn pppoe_header(&mut self) -> (h: &mut header::Header<'a>)
        ensures
            h@ == old(self).pppoe_bytes(),
            final(self).pppoe_bytes() == final(h)@,
            final(self).ethernet_bytes() == old(self).ethernet_bytes(),
    {
        &mut self.pppoe
    }

    /// The Ethernet header, to be written to.
    pub fn ethernet_header(&mut self) -> (h: &mut eth::HeaderBuilder<'a>)
        ensures
            h@ == old(self).ethernet_bytes(),
            final(self).ethernet_bytes() == final(h)@,
            final(self).pppoe_bytes() == old(self).pppoe_bytes(),
    {
        &mut self.ethernet
    }

    /// The packet as it would go over the wire: both headers and the payload written
    /// so far, in order or not.
    pub fn as_bytes(&self) -> (bytes: Vec<u8>)
        requires
            self.wf(),
        ensures
            bytes@ == frame(self.ethernet_bytes(), self.pppoe_bytes()),
            bytes@.len() == ETH_HEADER_LEN + HEADER_LEN + header::payload_len(self.pppoe_bytes()),
    {
        collect(self.ethernet.as_bytes(), self.pppoe.as_bytes(), self.pppoe.len())
    }

    /// The packet that was written, once its discovery packet is found in order.
    pub fn build(self) -> (r: Result<Packet<'a>, Error>)
        requires
            self.ethernet_bytes().len() == ETH_HEADER_LEN,
        ensures
            match header::parse(self.pppoe_bytes(), None) {
                Ok(_) => {
                    &&& r matches Ok(p)
                    &&& p.wf()
                    &&& p.ethernet_bytes() == self.ethernet_bytes()
                    &&& p.pppoe_bytes() == self.pppoe_bytes()
                },
                Err(e) => r matches Err(Error::ParseError(got)) && got == e,
            },
    {
        let ethernet = match self.ethernet.build() {
            Err(e) => {
                return Err(Error::from(e));
            },
            Ok(ethernet) => ethernet,
        };
        let pppoe = match self.pppoe.build() {
            Err(e) => {
                return Err(Error::from(e));
            },
            Ok(pppoe) => pppoe,
        };
        Ok(Packet { ethernet, pppoe })
    }
}

} // verus!
