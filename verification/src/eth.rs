//! The Ethernet header in front of a discovery packet.

use crate::error::ParseError;
use crate::wire::{read_u16_at, splice, u16_be, u16_be_bytes, write_bytes_at, write_u16_at};
use vstd::prelude::*;

verus! {

/// The bytes of an Ethernet header: two addresses of six bytes and the EtherType.
pub const ETH_HEADER_LEN: usize = 14;

/// Where the address of the sender starts.
pub const SRC_OFFSET: usize = 6;

/// Where the EtherType starts.
pub const ETHER_TYPE_OFFSET: usize = 12;

/// Whether a buffer holds an Ethernet header, and if not, how long it is.
pub open spec fn check(bytes: Seq<u8>) -> Result<(), ParseError> {
    if bytes.len() < ETH_HEADER_LEN {
        Err(ParseError::BufferTooSmall(bytes.len() as usize))
    } else {
        Ok(())
    }
}

/// Reads the six bytes of an address at `at`.
fn read_address(buffer: &[u8], at: usize) -> (addr: [u8; 6])
    requires
        at + 6 <= buffer.len(),
    ensures
        addr@ == buffer@.subrange(at as int, at + 6),
{
    let addr = [
        buffer[at],
        buffer[at + 1],
        buffer[at + 2],
        buffer[at + 3],
        buffer[at + 4],
        buffer[at + 5],
    ];
    proof {
        assert(addr@ =~= buffer@.subrange(at as int, at + 6));
    }
    addr
}

/// An Ethernet header in a buffer that the caller owns.
#[derive(Debug)]
pub struct Header<'a>(&'a mut [u8]);

impl<'a> View for Header<'a> {
    type V = Seq<u8>;

    /// The bytes of the whole buffer.
    closed spec fn view(&self) -> Seq<u8> {
        self.0@
    }
}

impl<'a> Header<'a> {
    /// Whether the buffer holds a whole header.
    pub open spec fn wf(&self) -> bool {
        self@.len() >= ETH_HEADER_LEN
    }

    /// The header in `buffer`, which must hold the fourteen bytes of one.
    pub fn with_buffer(buffer: &'a mut [u8]) -> (r: Result<Header<'a>, ParseError>)
        ensures
            match check(old(buffer)@) {
                Ok(_) => r matches Ok(h) && h@ == old(buffer)@ && h.wf(),
                Err(e) => r matches Err(got) && got == e && final(buffer)@ == old(buffer)@,
            },
    {
        if buffer.len() < ETH_HEADER_LEN {
            return Err(ParseError::BufferTooSmall(buffer.len()));
        }
        Ok(Header(buffer))
    }

    /// The address of the sender.
    pub fn src_address(&self) -> (addr: [u8; 6])
        requires
            self.wf(),
        ensures
            addr@ == self@.subrange(SRC_OFFSET as int, ETHER_TYPE_OFFSET as int),
    {
        read_address(self.0, SRC_OFFSET)
    }

    /// The address of the receiver.
    pub fn dst_address(&self) -> (addr: [u8; 6])
        requires
            self.wf(),
        ensures
            addr@ == self@.subrange(0, SRC_OFFSET as int),
    {
        read_address(self.0, 0)
    }

    /// The EtherType.
    pub fn ether_type(&self) -> (ether_type: u16)
        requires
            self.wf(),
        ensures
            ether_type == u16_be(self@, ETHER_TYPE_OFFSET as int),
    {
        read_u16_at(self.0, ETHER_TYPE_OFFSET)
    }

    /// The whole buffer.
    pub fn as_bytes(&self) -> (bytes: &[u8])
        ensures
            bytes@ == self@,
    {
        self.0
    }
}

/// An Ethernet header that is being written into a buffer that the caller owns.
pub struct HeaderBuilder<'a>(&'a mut [u8]);

impl<'a> View for HeaderBuilder<'a> {
    type V = Seq<u8>;

    /// The bytes of the whole buffer.
    closed spec fn view(&self) -> Seq<u8> {
        self.0@
    }
}

impl<'a> HeaderBuilder<'a> {
    /// Whether the buffer holds a whole header.
    pub open spec fn wf(&self) -> bool {
        self@.len() >= ETH_HEADER_LEN
    }

    /// A builder on `buffer`, which must hold the fourteen bytes of a header.
    pub fn with_buffer(buffer: &'a mut [u8]) -> (r: Result<HeaderBuilder<'a>, ParseError>)
        ensures
            match check(old(buffer)@) {
                Ok(_) => r matches Ok(h) && h@ == old(buffer)@ && h.wf(),
                Err(e) => r matches Err(got) && got == e && final(buffer)@ == old(buffer)@,
            },
    {
        if buffer.len() < ETH_HEADER_LEN {
            return Err(ParseError::BufferTooSmall(buffer.len()));
        }
        Ok(HeaderBuilder(buffer))
    }

    /// Sets the address of the sender.
    pub fn set_src_address(&mut self, addr: [u8; 6])
        requires
            old(self).wf(),
        ensures
            final(self)@ == splice(old(self)@, SRC_OFFSET as int, addr@),
            final(self).wf(),
    {
        write_bytes_at(self.0, SRC_OFFSET, addr.as_slice());
    }

    /// Sets the address of the receiver.
    pub fn set_dst_address(&mut self, addr: [u8; 6])
        requires
            old(self).wf(),
        ensures
            final(self)@ == splice(old(self)@, 0, addr@),
            final(self).wf(),
    {
        write_bytes_at(self.0, 0, addr.as_slice());
    }

    /// Sets the EtherType.
    pub fn set_ether_type(&mut self, ether_type: u16)
        requires
            old(self).wf(),
        ensures
            final(self)@ == splice(old(self)@, ETHER_TYPE_OFFSET as int, u16_be_bytes(ether_type)),
            final(self).wf(),
    {
        write_u16_at(self.0, ETHER_TYPE_OFFSET, ether_type);
    }

    /// The whole buffer.
    pub fn as_bytes(&self) -> (bytes: &[u8])
        ensures
            bytes@ == self@,
    {
        self.0
    }

    /// The whole buffer, to be written to.
    pub fn as_mut_bytes(&mut self) -> (bytes: &mut [u8])
        ensures
            bytes@ == old(self)@,
            final(self)@ == final(bytes)@,
    {
        self.0
    }

    /// The header that was written, once more checked for its length.
    pub fn build(self) -> (r: Result<Header<'a>, ParseError>)
        ensures
            match check(self@) {
                Ok(_) => r matches Ok(h) && h@ == self@ && h.wf(),
                Err(e) => r matches Err(got) && got == e,
            },
    {
        Header::with_buffer(self.0)
    }
}

} // verus!
