//! The six bytes in front of the tags, and the rules that the tags of a packet obey.

use crate::error::ParseError;
use crate::tags::tag::{
    encode, encode_all, lemma_decode_encode, lemma_tag_seq_of_encoding, tag_seq, valid_run,
    valid_tlv, Tag, TagIterator, Tlv, TAG_AC_COOKIE, TAG_AC_NAME, TAG_END_OF_LIST,
    TAG_HEADER_LEN, TAG_HOST_UNIQ, TAG_PPP_MAX_PAYLOAD, TAG_RELAY_SESSION_ID, TAG_SERVICE_NAME,
    TAG_VENDOR_SPECIFIC,
};
use crate::wire::{
    bytes_eq, low16, low16_of, read_u16_at, splice, u16_be, u16_be_bytes, write_u16_at,
};
use vstd::prelude::*;

verus! {

pub const PADI: u8 = 0x09;

pub const PADO: u8 = 0x07;

pub const PADR: u8 = 0x19;

pub const PADS: u8 = 0x65;

pub const PADT: u8 = 0xa7;

/// The bytes of the header: version and type, code, session id, payload length.
pub const HEADER_LEN: usize = 6;

/// The first byte of every header: version 1, type 1.
pub const VERSION_AND_TYPE: u8 = 0x11;

/// The longest payload that the length field can announce.
pub const MAX_PAYLOAD_LEN: usize = 0xffff;

/// The kind of a discovery packet.
#[derive(PartialEq, Eq, Copy, Clone, Debug, Structural)]
pub enum Code {
    Padi,
    Pado,
    Padr,
    Pads,
    Padt,
}

/// The code that a byte stands for, if any.
pub open spec fn code_of(byte: u8) -> Option<Code> {
    if byte == PADI {
        Some(Code::Padi)
    } else if byte == PADO {
        Some(Code::Pado)
    } else if byte == PADR {
        Some(Code::Padr)
    } else if byte == PADS {
        Some(Code::Pads)
    } else if byte == PADT {
        Some(Code::Padt)
    } else {
        None
    }
}

impl Code {
    /// The byte that stands for the code.
    pub open spec fn byte(self) -> u8 {
        match self {
            Code::Padi => PADI,
            Code::Pado => PADO,
            Code::Padr => PADR,
            Code::Pads => PADS,
            Code::Padt => PADT,
        }
    }

    /// The code that `code` stands for.
    pub fn try_from(code: u8) -> (r: Result<Code, ParseError>)
        ensures
            match code_of(code) {
                Some(c) => r == Ok::<_, ParseError>(c),
                None => r == Err::<Code, _>(ParseError::InvalidPppoeCode(code)),
            },
    {
        Ok(
            match code {
                PADI => Code::Padi,
                PADO => Code::Pado,
                PADR => Code::Padr,
                PADS => Code::Pads,
                PADT => Code::Padt,
                _ => return Err(ParseError::InvalidPppoeCode(code)),
            },
        )
    }

    /// The byte that stands for the code.
    pub fn to_u8(self) -> (b: u8)
        ensures
            b == self.byte(),
            code_of(b) == Some(self),
    {
        match self {
            Code::Padi => PADI,
            Code::Pado => PADO,
            Code::Padr => PADR,
            Code::Pads => PADS,
            Code::Padt => PADT,
        }
    }
}

/// Whether a tag of this type may occur once only in a packet.
pub open spec fn at_most_once(kind: u16) -> bool {
    ||| kind == TAG_SERVICE_NAME
    ||| kind == TAG_AC_NAME
    ||| kind == TAG_HOST_UNIQ
    ||| kind == TAG_AC_COOKIE
    ||| kind == TAG_RELAY_SESSION_ID
    ||| kind == TAG_PPP_MAX_PAYLOAD
}

/// `seen` with `kind` noted, where tags of that type are counted.
pub open spec fn note(seen: Set<u16>, kind: u16) -> Set<u16> {
    if at_most_once(kind) {
        seen.insert(kind)
    } else {
        seen
    }
}

/// Whether the tags in `rest` are in order, one after the other, where `rest` is what
/// is left of a payload of `total` bytes and `seen` holds the types met so far of
/// which there may only be one. The first fault decides:
/// - fewer than four bytes are left;
/// - a tag occurs again that may occur once;
/// - the End-Of-List tag has a value or is not the end of the payload;
/// - a tag's length points behind the payload;
/// - at the end, or at the End-Of-List tag, no Service-Name tag was met.
pub open spec fn validate(rest: Seq<u8>, seen: Set<u16>, total: int) -> Result<(), ParseError>
    decreases rest.len(),
{
    if rest.len() == 0 {
        if seen.contains(TAG_SERVICE_NAME) {
            Ok(())
        } else {
            Err(ParseError::MissingServiceName)
        }
    } else if rest.len() < TAG_HEADER_LEN {
        Err(
            ParseError::IncompleteTagAtPacketEnd {
                total_packet_length: low16(total),
                left_over_bytes: rest.len() as u16,
            },
        )
    } else {
        let kind = u16_be(rest, 0);
        let length = u16_be(rest, 2);
        if at_most_once(kind) && seen.contains(kind) {
            Err(ParseError::DuplicateTag(kind))
        } else if kind == TAG_END_OF_LIST {
            if length != 0 || rest.len() != TAG_HEADER_LEN {
                Err(ParseError::DataBehindEolTag)
            } else if !seen.contains(TAG_SERVICE_NAME) {
                Err(ParseError::MissingServiceName)
            } else {
                Ok(())
            }
        } else if length + TAG_HEADER_LEN > rest.len() {
            Err(
                ParseError::TagLengthOutOfBound {
                    expected_tag_length: length,
                    remaining_payload_length: low16(rest.len() as int),
                },
            )
        } else {
            validate(
                rest.subrange(length + TAG_HEADER_LEN, rest.len() as int),
                note(seen, kind),
                total,
            )
        }
    }
}

/// Whether the tags of a payload are in order.
pub open spec fn validate_payload(payload: Seq<u8>) -> Result<(), ParseError> {
    validate(payload, Set::empty(), payload.len() as int)
}

/// The length of the payload that the header announces.
pub open spec fn payload_len(bytes: Seq<u8>) -> int {
    u16_be(bytes, 4) as int
}

/// The length of the header and the payload that it announces.
pub open spec fn frame_len(bytes: Seq<u8>) -> int {
    HEADER_LEN + payload_len(bytes)
}

/// The payload that the header announces.
pub open spec fn frame_payload(bytes: Seq<u8>) -> Seq<u8> {
    bytes.subrange(HEADER_LEN as int, frame_len(bytes))
}

/// Whether a buffer holds a header and the payload that it announces.
pub open spec fn holds_frame(bytes: Seq<u8>) -> bool {
    bytes.len() >= HEADER_LEN && frame_len(bytes) <= bytes.len()
}

/// The six bytes of a header.
pub open spec fn header_bytes(code: Code, session_id: u16, length: u16) -> Seq<u8> {
    seq![VERSION_AND_TYPE, code.byte()] + u16_be_bytes(session_id) + u16_be_bytes(length)
}

/// Whether a buffer holds a discovery packet, and if not, what is wrong with it. The
/// first fault decides:
/// - the buffer is shorter than a header;
/// - the version or, with the right version, the type is not 1;
/// - the code is none of the five discovery codes, or not the one expected;
/// - the payload is longer than what the buffer holds behind the header;
/// - the payload is empty, and so holds no Service-Name tag;
/// - the tags are not in order.
pub open spec fn parse(bytes: Seq<u8>, expected: Option<Code>) -> Result<(), ParseError> {
    if bytes.len() < HEADER_LEN {
        Err(ParseError::BufferTooSmall(bytes.len() as usize))
    } else if bytes[0] != VERSION_AND_TYPE {
        if bytes[0] / 16 != 1 {
            Err(ParseError::InvalidPppoeVersion(bytes[0] / 16))
        } else {
            Err(ParseError::InvalidPppoeType(bytes[0] % 16))
        }
    } else if code_of(bytes[1]) is None {
        Err(ParseError::InvalidPppoeCode(bytes[1]))
    } else if expected is Some && expected != code_of(bytes[1]) {
        Err(ParseError::UnexpectedCode(bytes[1]))
    } else if frame_len(bytes) > bytes.len() {
        Err(
            ParseError::PayloadLengthOutOfBound {
                actual_packet_length: low16(bytes.len() as int),
                payload_length: u16_be(bytes, 4),
            },
        )
    } else if payload_len(bytes) == 0 {
        Err(ParseError::MissingServiceName)
    } else {
        validate_payload(frame_payload(bytes))
    }
}

/// A buffer with `data` written behind its payload and the length field raised by
/// the length of `data`.
pub open spec fn appended(bytes: Seq<u8>, data: Seq<u8>) -> Seq<u8>
    recommends
        holds_frame(bytes),
        frame_len(bytes) + data.len() <= bytes.len(),
        payload_len(bytes) + data.len() <= MAX_PAYLOAD_LEN,
{
    splice(
        splice(bytes, frame_len(bytes), data),
        4,
        u16_be_bytes((payload_len(bytes) + data.len()) as u16),
    )
}

/// The bytes that may still be added to the payload: what the buffer has left, and
/// no more than the length field can count.
pub open spec fn room(bytes: Seq<u8>) -> int
    recommends
        holds_frame(bytes),
{
    if bytes.len() - frame_len(bytes) < MAX_PAYLOAD_LEN - payload_len(bytes) {
        bytes.len() - frame_len(bytes)
    } else {
        MAX_PAYLOAD_LEN - payload_len(bytes)
    }
}

/// The fault of a tag that finds no room. It names what the buffer has left behind
/// the payload, of which a cast to `u16` keeps the low 16 bits, and what the tag
/// asked for.
pub open spec fn no_room(bytes: Seq<u8>, requested: int) -> ParseError
    recommends
        holds_frame(bytes),
{
    ParseError::BufferTooSmallForTag {
        available: low16(bytes.len() - frame_len(bytes)),
        requested: requested as usize,
    }
}

/// The types met so far of which there may only be one.
pub open spec fn seen_set(
    service_name: bool,
    ac_name: bool,
    host_uniq: bool,
    ac_cookie: bool,
    relay_session_id: bool,
    ppp_max_payload: bool,
) -> Set<u16> {
    Set::new(
        |kind: u16|
            {
                ||| kind == TAG_SERVICE_NAME && service_name
                ||| kind == TAG_AC_NAME && ac_name
                ||| kind == TAG_HOST_UNIQ && host_uniq
                ||| kind == TAG_AC_COOKIE && ac_cookie
                ||| kind == TAG_RELAY_SESSION_ID && relay_session_id
                ||| kind == TAG_PPP_MAX_PAYLOAD && ppp_max_payload
            },
    )
}

/// A discovery packet without its Ethernet header, in a buffer that the caller owns:
/// one that was read and found in order, or one that is being built.
#[derive(Debug)]
pub struct Header<'a>(&'a mut [u8]);

impl<'a> View for Header<'a> {
    type V = Seq<u8>;

    /// The bytes of the whole buffer.
    closed spec fn view(&self) -> Seq<u8> {
        self.0@
    }
}

impl<'a> Header<'a> {
    /// Whether the buffer holds the header and the payload that it announces.
    pub open spec fn wf(&self) -> bool {
        holds_frame(self@)
    }

    /// Reads a packet of any discovery code.
    pub fn from_buffer(buffer: &'a mut [u8]) -> (r: Result<Header<'a>, ParseError>)
        ensures
            match parse(old(buffer)@, None) {
                Ok(_) => r matches Ok(h) && h@ == old(buffer)@ && h.wf(),
                Err(e) => r matches Err(got) && got == e && final(buffer)@ == old(buffer)@,
            },
            old(buffer)@.len() < HEADER_LEN ==> r matches Err(ParseError::BufferTooSmall(_)),
            old(buffer)@.len() >= HEADER_LEN && old(buffer)@[0] != VERSION_AND_TYPE ==> (if old(
                buffer,
            )@[0] / 16 != 1 {
                r matches Err(ParseError::InvalidPppoeVersion(_))
            } else {
                r matches Err(ParseError::InvalidPppoeType(_))
            }),
    {
        Self::from_buffer_with_code(buffer, None)
    }

    /// Reads a packet, of the code expected where one is given.
    pub fn from_buffer_with_code(buffer: &'a mut [u8], expected_code: Option<Code>) -> (r: Result<
        Header<'a>,
        ParseError,
    >)
        ensures
            match parse(old(buffer)@, expected_code) {
                Ok(_) => r matches Ok(h) && h@ == old(buffer)@ && h.wf(),
                Err(e) => r matches Err(got) && got == e && final(buffer)@ == old(buffer)@,
            },
            old(buffer)@.len() < HEADER_LEN ==> r matches Err(ParseError::BufferTooSmall(_)),
            old(buffer)@.len() >= HEADER_LEN && old(buffer)@[0] != VERSION_AND_TYPE ==> (if old(
                buffer,
            )@[0] / 16 != 1 {
                r matches Err(ParseError::InvalidPppoeVersion(_))
            } else {
                r matches Err(ParseError::InvalidPppoeType(_))
            }),
    {
        match Self::ensure_minimal_buffer_length(buffer) {
            Err(e) => {
                return Err(e);
            },
            Ok(()) => {},
        }
        let first = buffer[0];
        if first != VERSION_AND_TYPE {
            let version = first / 16;
            let kind = first % 16;
            return if version != 1 {
                Err(ParseError::InvalidPppoeVersion(version))
            } else {
                Err(ParseError::InvalidPppoeType(kind))
            };
        }
        let code = match Code::try_from(buffer[1]) {
            Err(e) => {
                return Err(e);
            },
            Ok(code) => code,
        };
        if let Some(expected_code) = expected_code {
            if code != expected_code {
                return Err(ParseError::UnexpectedCode(code.to_u8()));
            }
        }
        let length = read_u16_at(buffer, 4) as usize;
        if length + HEADER_LEN > buffer.len() {
            return Err(
                ParseError::PayloadLengthOutOfBound {
                    actual_packet_length: low16_of(buffer.len()),
                    payload_length: length as u16,
                },
            );
        } else if length == 0 {
            return Err(ParseError::MissingServiceName);
        }
        match Self::validate_tags(&buffer[HEADER_LEN..HEADER_LEN + length]) {
            Err(e) => {
                return Err(e);
            },
            Ok(()) => {},
        }
        Ok(Header(buffer))
    }

    /// Reads a PADI packet.
    pub fn padi_from_buffer(buffer: &'a mut [u8]) -> (r: Result<Header<'a>, ParseError>)
        ensures
            match parse(old(buffer)@, Some(Code::Padi)) {
                Ok(_) => r matches Ok(h) && h@ == old(buffer)@ && h.wf(),
                Err(e) => r matches Err(got) && got == e && final(buffer)@ == old(buffer)@,
            },
    {
        Self::from_buffer_with_code(buffer, Some(Code::Padi))
    }

    /// Reads a PADO packet.
    pub fn pado_from_buffer(buffer: &'a mut [u8]) -> (r: Result<Header<'a>, ParseError>)
        ensures
            match parse(old(buffer)@, Some(Code::Pado)) {
                Ok(_) => r matches Ok(h) && h@ == old(buffer)@ && h.wf(),
                Err(e) => r matches Err(got) && got == e && final(buffer)@ == old(buffer)@,
            },
    {
        Self::from_buffer_with_code(buffer, Some(Code::Pado))
    }

    /// Reads a PADR packet.
    pub fn padr_from_buffer(buffer: &'a mut [u8]) -> (r: Result<Header<'a>, ParseError>)
        ensures
            match parse(old(buffer)@, Some(Code::Padr)) {
                Ok(_) => r matches Ok(h) && h@ == old(buffer)@ && h.wf(),
                Err(e) => r matches Err(got) && got == e && final(buffer)@ == old(buffer)@,
            },
    {
        Self::from_buffer_with_code(buffer, Some(Code::Padr))
    }

    /// Reads a PADS packet.
    pub fn pads_from_buffer(buffer: &'a mut [u8]) -> (r: Result<Header<'a>, ParseError>)
        ensures
            match parse(old(buffer)@, Some(Code::Pads)) {
                Ok(_) => r matches Ok(h) && h@ == old(buffer)@ && h.wf(),
                Err(e) => r matches Err(got) && got == e && final(buffer)@ == old(buffer)@,
            },
    {
        Self::from_buffer_with_code(buffer, Some(Code::Pads))
    }

    /// Reads a PADT packet.
    pub fn padt_from_buffer(buffer: &'a mut [u8]) -> (r: Result<Header<'a>, ParseError>)
        ensures
            match parse(old(buffer)@, Some(Code::Padt)) {
                Ok(_) => r matches Ok(h) && h@ == old(buffer)@ && h.wf(),
                Err(e) => r matches Err(got) && got == e && final(buffer)@ == old(buffer)@,
            },
    {
        Self::from_buffer_with_code(buffer, Some(Code::Padt))
    }

    fn ensure_minimal_buffer_length(buffer: &[u8]) -> (r: Result<(), ParseError>)
        ensures
            match r {
                Ok(_) => buffer@.len() >= HEADER_LEN,
                Err(e) => buffer@.len() < HEADER_LEN && e == ParseError::BufferTooSmall(
                    buffer@.len() as usize,
                ),
            },
    {
        if buffer.len() < HEADER_LEN {
            return Err(ParseError::BufferTooSmall(buffer.len()));
        }
        Ok(())
    }

    fn check_duplicate(tag: u16, exists: &mut bool) -> (r: Result<(), ParseError>)
        ensures
            match r {
                Ok(_) => !*old(exists) && *final(exists),
                Err(e) => *old(exists) && *final(exists) && e == ParseError::DuplicateTag(tag),
            },
    {
        if *exists {
            return Err(ParseError::DuplicateTag(tag));
        }
        *exists = true;
        Ok(())
    }

    /// Checks that the tags of a payload are in order.
    pub fn validate_tags(payload: &[u8]) -> (r: Result<(), ParseError>)
        ensures
            r == validate_payload(payload@),
    {
        let total = payload.len();
        let mut at: usize = 0;
        // these tags may only exist once
        let mut service_name = false;
        let mut host_uniq = false;
        let mut ac_name = false;
        let mut relay_session_id = false;
        let mut ppp_max_payload = false;
        let mut ac_cookie = false;
        proof {
            assert(seen_set(false, false, false, false, false, false) =~= Set::<u16>::empty());
            assert(payload@.subrange(0, total as int) =~= payload@);
        }
        loop
            invariant
                at <= total == payload@.len(),
                validate_payload(payload@) == validate(
                    payload@.subrange(at as int, total as int),
                    seen_set(
                        service_name,
                        ac_name,
                        host_uniq,
                        ac_cookie,
                        relay_session_id,
                        ppp_max_payload,
                    ),
                    total as int,
                ),
            decreases total - at,
        {
            let left = total - at;
            if left == 0 {
                return if service_name {
                    Ok(())
                } else {
                    Err(ParseError::MissingServiceName)
                };
            }
            // tags must be at least 4 bytes
            if left < TAG_HEADER_LEN {
                return Err(
                    ParseError::IncompleteTagAtPacketEnd {
                        total_packet_length: low16_of(total),
                        left_over_bytes: left as u16,
                    },
                );
            }
            let ghost rest = payload@.subrange(at as int, total as int);
            let ghost seen = seen_set(
                service_name,
                ac_name,
                host_uniq,
                ac_cookie,
                relay_session_id,
                ppp_max_payload,
            );
            let tag = read_u16_at(payload, at);
            let length = read_u16_at(payload, at + 2) as usize;
            // check for duplicates
            let fresh = match tag {
                TAG_SERVICE_NAME => Self::check_duplicate(tag, &mut service_name),
                TAG_AC_NAME => Self::check_duplicate(tag, &mut ac_name),
                TAG_AC_COOKIE => Self::check_duplicate(tag, &mut ac_cookie),
                TAG_HOST_UNIQ => Self::check_duplicate(tag, &mut host_uniq),
                TAG_RELAY_SESSION_ID => Self::check_duplicate(tag, &mut relay_session_id),
                TAG_PPP_MAX_PAYLOAD => Self::check_duplicate(tag, &mut ppp_max_payload),
                _ => Ok(()),
            };
            match fresh {
                Err(e) => {
                    return Err(e);
                },
                Ok(()) => {},
            }
            proof {
                assert(seen_set(
                    service_name,
                    ac_name,
                    host_uniq,
                    ac_cookie,
                    relay_session_id,
                    ppp_max_payload,
                ) =~= note(seen, tag));
            }
            if tag == TAG_END_OF_LIST {
                // nothing may be behind the End-Of-List tag
                return if length != 0 || left != TAG_HEADER_LEN {
                    Err(ParseError::DataBehindEolTag)
                } else if !service_name {
                    Err(ParseError::MissingServiceName)
                } else {
                    Ok(())
                };
            }
            if length + TAG_HEADER_LEN > left {
                return Err(
                    ParseError::TagLengthOutOfBound {
                        expected_tag_length: length as u16,
                        remaining_payload_length: low16_of(left),
                    },
                );
            }
            proof {
                assert(rest.subrange(length + TAG_HEADER_LEN, rest.len() as int)
                    =~= payload@.subrange(at + TAG_HEADER_LEN + length, total as int));
            }
            at = at + TAG_HEADER_LEN + length;
        }
    }

    /// The code, as the byte that stands for it.
    pub fn code(&self) -> (code: u8)
        requires
            self.wf(),
        ensures
            code == self@[1],
    {
        self.0[1]
    }

    /// Sets the code.
    pub fn set_code(&mut self, code: Code)
        requires
            old(self).wf(),
        ensures
            final(self)@ == old(self)@.update(1, code.byte()),
            final(self).wf(),
    {
        self.0[1] = code.to_u8();
    }

    /// The session id.
    pub fn session_id(&self) -> (id: u16)
        requires
            self.wf(),
        ensures
            id == u16_be(self@, 2),
    {
        read_u16_at(self.0, 2)
    }

    /// The length of the header and the payload that it announces.
    pub fn len(&self) -> (n: usize)
        requires
            self.wf(),
        ensures
            n == frame_len(self@),
            HEADER_LEN <= n <= self@.len(),
    {
        HEADER_LEN + read_u16_at(self.0, 4) as usize
    }

    /// Sets the length of the payload.
    fn set_len(&mut self, new_length: u16)
        requires
            old(self)@.len() >= HEADER_LEN,
        ensures
            final(self)@ == splice(old(self)@, 4, u16_be_bytes(new_length)),
    {
        write_u16_at(self.0, 4, new_length)
    }

    /// What the buffer holds behind the header, up to its end.
    pub fn payload(&self) -> (bytes: &[u8])
        requires
            self.wf(),
        ensures
            bytes@ == self@.subrange(HEADER_LEN as int, self@.len() as int),
    {
        &self.0[HEADER_LEN..self.0.len()]
    }

    /// Empties the payload. The bytes behind the header stay, and count no longer.
    pub fn clear_payload(&mut self)
        requires
            old(self).wf(),
        ensures
            final(self)@ == splice(old(self)@, 4, u16_be_bytes(0)),
            payload_len(final(self)@) == 0,
            final(self).wf(),
    {
        self.set_len(0);
    }

    /// Takes the End-Of-List tag away where the payload ends with one, so that tags
    /// can be added again. Any other payload stays as it is.
    pub fn clear_eol(&mut self)
        requires
            old(self).wf(),
        ensures
            final(self)@ == if ends_with_eol(frame_payload(old(self)@)) {
                splice(old(self)@, 4, u16_be_bytes((payload_len(old(self)@) - 4) as u16))
            } else {
                old(self)@
            },
            final(self).wf(),
    {
        let end = self.len();
        let mut at: usize = HEADER_LEN;
        proof {
            assert(self@.subrange(HEADER_LEN as int, end as int) == frame_payload(self@));
        }
        while end - at >= TAG_HEADER_LEN
            invariant
                HEADER_LEN <= at <= end == frame_len(self@),
                end <= self@.len(),
                self@ == old(self)@,
                ends_with_eol(frame_payload(old(self)@)) == ends_with_eol(
                    self@.subrange(at as int, end as int),
                ),
            decreases end - at,
        {
            let ghost rest = self@.subrange(at as int, end as int);
            let tag = read_u16_at(self.0, at);
            let length = read_u16_at(self.0, at + 2) as usize;
            if length + TAG_HEADER_LEN > end - at {
                return ;
            }
            if at + TAG_HEADER_LEN + length == end {
                if tag == TAG_END_OF_LIST && length == 0 {
                    self.set_len((end - HEADER_LEN - TAG_HEADER_LEN) as u16);
                }
                return ;
            }
            proof {
                assert(rest.subrange(length + TAG_HEADER_LEN, rest.len() as int) =~= self@.subrange(
                    at + TAG_HEADER_LEN + length,
                    end as int,
                ));
            }
            at = at + TAG_HEADER_LEN + length;
        }
    }

    /// Writes a header with an empty payload at the start of `buffer`.
    pub fn create_packet(buffer: &'a mut [u8], code: Code, session_id: u16) -> (r: Result<
        Header<'a>,
        ParseError,
    >)
        ensures
            match r {
                Ok(h) => {
                    &&& old(buffer)@.len() >= HEADER_LEN
                    &&& h@ == splice(old(buffer)@, 0, header_bytes(code, session_id, 0))
                    &&& h.wf()
                    &&& frame_payload(h@) == Seq::<u8>::empty()
                },
                Err(e) => {
                    &&& old(buffer)@.len() < HEADER_LEN
                    &&& e == ParseError::BufferTooSmall(old(buffer)@.len() as usize)
                    &&& final(buffer)@ == old(buffer)@
                },
            },
    {
        match Self::ensure_minimal_buffer_length(buffer) {
            Err(e) => {
                return Err(e);
            },
            Ok(()) => {},
        }
        // set version and type
        buffer[0] = VERSION_AND_TYPE;
        buffer[1] = code.to_u8();
        write_u16_at(buffer, 2, session_id);
        write_u16_at(buffer, 4, 0);
        proof {
            assert(buffer@ =~= splice(old(buffer)@, 0, header_bytes(code, session_id, 0)));
            assert(frame_payload(buffer@) =~= Seq::<u8>::empty());
        }
        Ok(Header(buffer))
    }

    /// Writes the header of a PADI packet.
    pub fn create_padi(buffer: &'a mut [u8]) -> (r: Result<Header<'a>, ParseError>)
        ensures
            match r {
                Ok(h) => {
                    &&& old(buffer)@.len() >= HEADER_LEN
                    &&& h@ == splice(old(buffer)@, 0, header_bytes(Code::Padi, 0, 0))
                    &&& h.wf()
                    &&& frame_payload(h@) == Seq::<u8>::empty()
                },
                Err(e) => {
                    &&& old(buffer)@.len() < HEADER_LEN
                    &&& e == ParseError::BufferTooSmall(old(buffer)@.len() as usize)
                    &&& final(buffer)@ == old(buffer)@
                },
            },
    {
        Self::create_packet(buffer, Code::Padi, 0)
    }

    /// Writes the header of a PADO packet.
    pub fn create_pado(buffer: &'a mut [u8]) -> (r: Result<Header<'a>, ParseError>)
        ensures
            match r {
                Ok(h) => {
                    &&& old(buffer)@.len() >= HEADER_LEN
                    &&& h@ == splice(old(buffer)@, 0, header_bytes(Code::Pado, 0, 0))
                    &&& h.wf()
                    &&& frame_payload(h@) == Seq::<u8>::empty()
                },
                Err(e) => {
                    &&& old(buffer)@.len() < HEADER_LEN
                    &&& e == ParseError::BufferTooSmall(old(buffer)@.len() as usize)
                    &&& final(buffer)@ == old(buffer)@
                },
            },
    {
        Self::create_packet(buffer, Code::Pado, 0)
    }

    /// Writes the header of a PADR packet.
    pub fn create_padr(buffer: &'a mut [u8]) -> (r: Result<Header<'a>, ParseError>)
        ensures
            match r {
                Ok(h) => {
                    &&& old(buffer)@.len() >= HEADER_LEN
                    &&& h@ == splice(old(buffer)@, 0, header_bytes(Code::Padr, 0, 0))
                    &&& h.wf()
                    &&& frame_payload(h@) == Seq::<u8>::empty()
                },
                Err(e) => {
                    &&& old(buffer)@.len() < HEADER_LEN
                    &&& e == ParseError::BufferTooSmall(old(buffer)@.len() as usize)
                    &&& final(buffer)@ == old(buffer)@
                },
            },
    {
        Self::create_packet(buffer, Code::Padr, 0)
    }

    /// Writes the header of a PADS packet, which carries the id of the session that
    /// it confirms.
    pub fn create_pads(buffer: &'a mut [u8], session_id: u16) -> (r: Result<
        Header<'a>,
        ParseError,
    >)
        requires
            session_id != 0,
        ensures
            match r {
                Ok(h) => {
                    &&& old(buffer)@.len() >= HEADER_LEN
                    &&& h@ == splice(old(buffer)@, 0, header_bytes(Code::Pads, session_id, 0))
                    &&& h.wf()
                    &&& frame_payload(h@) == Seq::<u8>::empty()
                },
                Err(e) => {
                    &&& old(buffer)@.len() < HEADER_LEN
                    &&& e == ParseError::BufferTooSmall(old(buffer)@.len() as usize)
                    &&& final(buffer)@ == old(buffer)@
                },
            },
    {
        Self::create_packet(buffer, Code::Pads, session_id)
    }

    /// Writes the header of a PADT packet, which carries the id of the session that
    /// it ends.
    pub fn create_padt(buffer: &'a mut [u8], session_id: u16) -> (r: Result<
        Header<'a>,
        ParseError,
    >)
        requires
            session_id != 0,
        ensures
            match r {
                Ok(h) => {
                    &&& old(buffer)@.len() >= HEADER_LEN
                    &&& h@ == splice(old(buffer)@, 0, header_bytes(Code::Padt, session_id, 0))
                    &&& h.wf()
                    &&& frame_payload(h@) == Seq::<u8>::empty()
                },
                Err(e) => {
                    &&& old(buffer)@.len() < HEADER_LEN
                    &&& e == ParseError::BufferTooSmall(old(buffer)@.len() as usize)
                    &&& final(buffer)@ == old(buffer)@
                },
            },
    {
        Self::create_packet(buffer, Code::Padt, session_id)
    }

    /// Writes into `buffer` the PADR packet that answers the offer `pado`, as
    /// `padr_from_tags` says: with the offer's Service-Name, Relay-Session-Id and
    /// AC-Cookie tags, in their order.
    pub fn create_padr_from_pado(
        buffer: &'a mut [u8],
        pado: &Header,
        expected_service_name: Option<&[u8]>,
        expected_ac_name: Option<&[u8]>,
    ) -> (r: Result<Header<'a>, ParseError>)
        requires
            pado.wf(),
        ensures
            match padr_from_pado(
                old(buffer)@,
                pado@,
                opt_bytes(expected_service_name),
                opt_bytes(expected_ac_name),
            ) {
                Ok(bytes) => r matches Ok(padr) && padr@ == bytes && padr.wf(),
                Err(e) => r matches Err(got) && got == e,
            },
    {
        let mut padr = match Self::create_padr(buffer) {
            Err(e) => {
                return Err(e);
            },
            Ok(padr) => padr,
        };
        let mut tag_iterator = pado.tag_iter();
        let mut has_service_name = false;
        let mut has_system_name = false;
        let ghost goal = padr_from_tags(
            tag_seq(frame_payload(pado@)),
            padr@,
            false,
            false,
            opt_bytes(expected_service_name),
            opt_bytes(expected_ac_name),
        );
        loop
            invariant
                padr.wf(),
                goal == padr_from_pado(
                    old(buffer)@,
                    pado@,
                    opt_bytes(expected_service_name),
                    opt_bytes(expected_ac_name),
                ),
                goal == padr_from_tags(
                    tag_seq(tag_iterator@),
                    padr@,
                    has_service_name,
                    has_system_name,
                    opt_bytes(expected_service_name),
                    opt_bytes(expected_ac_name),
                ),
            ensures
                tag_seq(tag_iterator@).len() == 0,
            decreases tag_seq(tag_iterator@).len(),
        {
            let ghost tags = tag_seq(tag_iterator@);
            let tag = match tag_iterator.next() {
                None => {
                    proof {
                        assert(tag_seq(tag_iterator@).len() == 0);
                    }
                    break ;
                },
                Some(tag) => tag,
            };
            proof {
                assert(tags[0] == tag@);
                assert(tags.subrange(1, tags.len() as int) =~= tag_seq(tag_iterator@));
            }
            match tag {
                Tag::ServiceName(service_name) => {
                    if let Some(expected_service_name) = expected_service_name {
                        if !bytes_eq(service_name, expected_service_name) {
                            return Err(ParseError::ServiceNameMismatch);
                        }
                    }
                    has_service_name = true;
                    match padr.add_tag(tag) {
                        Err(e) => {
                            return Err(e);
                        },
                        Ok(()) => {},
                    }
                },
                Tag::AcName(system_name) => {
                    if let Some(expected_system_name) = expected_ac_name {
                        if !bytes_eq(system_name, expected_system_name) {
                            return Err(ParseError::AcNameMismatch);
                        }
                    }
                    has_system_name = true;
                },
                Tag::RelaySessionId(_) | Tag::AcCookie(_) => {
                    match padr.add_tag(tag) {
                        Err(e) => {
                            return Err(e);
                        },
                        Ok(()) => {},
                    }
                },
                _ => {},
            }
        }
        if !has_service_name {
            return Err(ParseError::MissingServiceName);
        }
        if !has_system_name {
            return Err(ParseError::MissingAcName);
        }
        Ok(padr)
    }

    /// The tags of the payload, one after the other.
    pub fn tag_iter(&self) -> (tags: TagIterator<'_>)
        requires
            self.wf(),
        ensures
            tags@ == frame_payload(self@),
    {
        TagIterator::new(&self.0[HEADER_LEN..self.len()])
    }

    /// The fault of a tag that finds no room.
    fn no_room(&self, requested: usize) -> (e: ParseError)
        requires
            self.wf(),
        ensures
            e == no_room(self@, requested as int),
    {
        ParseError::BufferTooSmallForTag {
            available: low16_of(self.0.len() - self.len()),
            requested,
        }
    }

    /// The bytes that may still be added to the payload.
    pub fn room(&self) -> (n: usize)
        requires
            self.wf(),
        ensures
            n == room(self@),
            n <= MAX_PAYLOAD_LEN,
    {
        let used = self.len();
        let left = self.0.len() - used;
        let countable = MAX_PAYLOAD_LEN - (used - HEADER_LEN);
        if left < countable {
            left
        } else {
            countable
        }
    }

    /// Adds a tag behind the payload and counts it in the length field. Where there
    /// is no room for the tag, nothing changes.
    pub fn add_tag(&mut self, tag: Tag) -> (r: Result<(), ParseError>)
        requires
            old(self).wf(),
        ensures
            match r {
                Ok(_) => {
                    &&& tag.fits(room(old(self)@))
                    &&& final(self)@ == appended(old(self)@, encode(tag@))
                    &&& frame_payload(final(self)@) == frame_payload(old(self)@) + encode(tag@)
                    &&& frame_len(final(self)@) == frame_len(old(self)@) + encode(tag@).len()
                },
                Err(e) => {
                    &&& !tag.fits(room(old(self)@))
                    &&& e == no_room(old(self)@, tag.spec_requested())
                    &&& final(self)@ == old(self)@
                },
            },
            final(self).wf(),
    {
        let packet_length = self.len();
        let room = self.room();
        let value_len = tag.value_len();
        if room < TAG_HEADER_LEN || room - TAG_HEADER_LEN < value_len {
            return Err(self.no_room(tag.requested()));
        }
        proof {
            lemma_appended(self@, encode(tag@));
        }
        let (_, tail) = self.0.split_at_mut(packet_length);
        match tag.write(tail) {
            Ok(tag_length) => {
                self.set_len((packet_length - HEADER_LEN + tag_length) as u16);
                proof {
                    assert(self@ =~= appended(old(self)@, encode(tag@)));
                }
                Ok(())
            },
            Err(e) => Err(e),
        }
    }

    /// Adds a Vendor-Specific tag whose value `callback` writes: it is handed the
    /// buffer behind the four bytes kept for the tag's type and length, and returns
    /// the length of what it wrote there. Where not even those four bytes fit,
    /// `callback` is not called. Else it is called once, and the outcome is what
    /// `vendor_tag_added` says of its answer: its fault is handed on, and a length is
    /// closed into a tag as `close_vendor_tag` does. Where it fails, or the tag cannot
    /// be closed, the header and the payload written so far stay as they are.
    pub fn add_vendor_tag_with_callback<F>(&mut self, callback: F) -> (r: Result<(), ParseError>) where
        F: FnOnce(&mut [u8]) -> Result<usize, ParseError>,

        requires
            old(self).wf(),
            room(old(self)@) >= TAG_HEADER_LEN ==> forall|tail: &mut [u8]|
                tail@ == old(self)@.subrange(
                    frame_len(old(self)@) + TAG_HEADER_LEN,
                    old(self)@.len() as int,
                ) ==> call_requires(callback, (tail,)),
        ensures
            final(self).wf(),
            final(self)@.subrange(0, 4) == old(self)@.subrange(0, 4),
            frame_payload(final(self)@).subrange(0, payload_len(old(self)@)) == frame_payload(
                old(self)@,
            ),
            room(old(self)@) < TAG_HEADER_LEN ==> final(self)@ == old(self)@ && r == Err::<(), _>(
                no_room(old(self)@, 0),
            ),
            room(old(self)@) >= TAG_HEADER_LEN ==> exists|
                tail: &mut [u8],
                answer: Result<usize, ParseError>,
            |
                {
                    &&& tail@ == old(self)@.subrange(
                        frame_len(old(self)@) + TAG_HEADER_LEN,
                        old(self)@.len() as int,
                    )
                    &&& #[trigger] call_ensures(callback, (tail,), answer)
                    &&& vendor_tag_added(
                        old(self)@.subrange(0, frame_len(old(self)@) + TAG_HEADER_LEN)
                            + final(tail)@,
                        answer,
                        r,
                        final(self)@,
                    )
                },
            match r {
                Ok(_) => {
                    let start = payload_len(old(self)@);
                    let written = payload_len(final(self)@) - start - TAG_HEADER_LEN;
                    &&& 0 <= written
                    &&& frame_payload(final(self)@).subrange(start, start + TAG_HEADER_LEN)
                        == u16_be_bytes(TAG_VENDOR_SPECIFIC) + u16_be_bytes(written as u16)
                },
                Err(_) => payload_len(final(self)@) == payload_len(old(self)@),
            },
    {
        let packet_length = self.len();
        let left = self.room();
        if left < TAG_HEADER_LEN {
            proof {
                assert(frame_payload(self@).subrange(0, payload_len(self@)) =~= frame_payload(
                    self@,
                ));
            }
            return Err(self.no_room(0));
        }
        let (_, tail) = self.0.split_at_mut(packet_length);
        let (_, vendor_buffer) = tail.split_at_mut(TAG_HEADER_LEN);
        proof {
            assert(vendor_buffer@ =~= old(self)@.subrange(
                frame_len(old(self)@) + TAG_HEADER_LEN,
                old(self)@.len() as int,
            ));
        }
        let written = callback(vendor_buffer);
        let ghost left_by_callback = vendor_buffer@;
        let ghost mid = self@;
        proof {
            assert(mid =~= old(self)@.subrange(0, packet_length + TAG_HEADER_LEN)
                + left_by_callback);
            assert(self@.subrange(0, packet_length + TAG_HEADER_LEN) =~= old(self)@.subrange(
                0,
                packet_length + TAG_HEADER_LEN,
            ));
            assert(self@.subrange(0, 4) =~= old(self)@.subrange(0, 4));
            assert(payload_len(self@) == payload_len(old(self)@));
            assert(frame_payload(self@) =~= frame_payload(old(self)@));
            assert(frame_payload(self@).subrange(0, payload_len(self@)) =~= frame_payload(
                self@,
            ));
        }
        let result = match written {
            Err(e) => Err(e),
            Ok(vendor_tag_length) => {
                let ghost before = self@;
                proof {
                    if TAG_HEADER_LEN + vendor_tag_length <= room(before) {
                        lemma_appended(before, vendor_tag(before, vendor_tag_length as int));
                        let data = vendor_tag(before, vendor_tag_length as int);
                        let grown = frame_payload(before) + data;
                        assert(grown.subrange(0, payload_len(before)) =~= frame_payload(before));
                        assert(grown.subrange(
                            payload_len(before),
                            payload_len(before) + TAG_HEADER_LEN,
                        ) =~= u16_be_bytes(TAG_VENDOR_SPECIFIC) + u16_be_bytes(
                            vendor_tag_length as u16,
                        ));
                    }
                }
                self.close_vendor_tag(vendor_tag_length)
            },
        };
        proof {
            assert(vendor_tag_added(mid, written, result, self@));
        }
        result
    }

    /// Makes a Vendor-Specific tag of the `written` bytes that stand four bytes
    /// behind the payload: writes the tag's type and length into those four bytes and
    /// counts the tag in the length field. Where there is no room for such a tag,
    /// nothing changes.
    pub fn close_vendor_tag(&mut self, written: usize) -> (r: Result<(), ParseError>)
        requires
            old(self).wf(),
        ensures
            match vendor_tag_closed(old(self)@, written as int) {
                Ok(closed) => r is Ok && final(self)@ == closed,
                Err(e) => r == Err::<(), _>(e) && final(self)@ == old(self)@,
            },
            final(self).wf(),
    {
        let packet_length = self.len();
        let room = self.room();
        if room < TAG_HEADER_LEN || room - TAG_HEADER_LEN < written {
            return Err(self.no_room(written));
        }
        proof {
            lemma_appended(self@, vendor_tag(self@, written as int));
        }
        write_u16_at(self.0, packet_length, TAG_VENDOR_SPECIFIC);
        write_u16_at(self.0, packet_length + 2, written as u16);
        self.set_len((packet_length - HEADER_LEN + TAG_HEADER_LEN + written) as u16);
        proof {
            assert(self@ =~= appended(old(self)@, vendor_tag(old(self)@, written as int)));
        }
        Ok(())
    }

    /// Adds the End-Of-List tag.
    pub fn add_end_tag(&mut self) -> (r: Result<(), ParseError>)
        requires
            old(self).wf(),
        ensures
            match r {
                Ok(_) => {
                    &&& room(old(self)@) >= TAG_HEADER_LEN
                    &&& final(self)@ == appended(old(self)@, encode(Tag::EndOfList@))
                    &&& frame_payload(final(self)@) == frame_payload(old(self)@) + encode(
                        Tag::EndOfList@,
                    )
                    &&& frame_len(final(self)@) == frame_len(old(self)@) + TAG_HEADER_LEN
                },
                Err(e) => {
                    &&& room(old(self)@) < TAG_HEADER_LEN
                    &&& e == no_room(old(self)@, 0)
                    &&& final(self)@ == old(self)@
                },
            },
            final(self).wf(),
    {
        self.add_tag(Tag::EndOfList)
    }

    /// The packet that was built, once it is found in order as `parse` says.
    pub fn build(self) -> (r: Result<Header<'a>, ParseError>)
        ensures
            match parse(self@, None) {
                Ok(_) => r matches Ok(h) && h@ == self@ && h.wf(),
                Err(e) => r matches Err(got) && got == e,
            },
    {
        Self::from_buffer(self.0)
    }

    /// The whole buffer.
    pub fn as_bytes(&self) -> (bytes: &[u8])
        ensures
            bytes@ == self@,
    {
        self.0
    }

    /// The whole buffer, to be written to. What is written there is the caller's
    /// affair: it may leave a header that no longer holds what it announces.
    pub fn get_ref_mut(&mut self) -> (bytes: &mut [u8])
        ensures
            bytes@ == old(self)@,
            final(self)@ == final(bytes)@,
    {
        self.0
    }

    /// The whole buffer.
    pub fn get_ref(&self) -> (bytes: &[u8])
        ensures
            bytes@ == self@,
    {
        self.0
    }
}

/// The bytes of a slice that may be there.
pub open spec fn opt_bytes(slice: Option<&[u8]>) -> Option<Seq<u8>> {
    match slice {
        Some(s) => Some(s@),
        None => None,
    }
}

/// Whether a tag of this type goes from an offer into the request that answers it:
/// the Service-Name, the Relay-Session-Id and the AC-Cookie tag do, no other tag does.
pub open spec fn is_copied(kind: u16) -> bool {
    kind == TAG_SERVICE_NAME || kind == TAG_RELAY_SESSION_ID || kind == TAG_AC_COOKIE
}

/// The request for the offer with the tags `tags`, written tag by tag into `bytes`,
/// which holds the header of the request and what was added so far; or what keeps
/// it from being written. The first fault decides:
/// - a Service-Name or an AC-Name tag differs from the name expected;
/// - there is no room for a tag that is to be added;
/// - at the end, the offer had no Service-Name tag, or else no AC-Name tag.
pub open spec fn padr_from_tags(
    tags: Seq<Tlv>,
    bytes: Seq<u8>,
    has_service_name: bool,
    has_ac_name: bool,
    expected_service_name: Option<Seq<u8>>,
    expected_ac_name: Option<Seq<u8>>,
) -> Result<Seq<u8>, ParseError>
    decreases tags.len(),
{
    if tags.len() == 0 {
        if !has_service_name {
            Err(ParseError::MissingServiceName)
        } else if !has_ac_name {
            Err(ParseError::MissingAcName)
        } else {
            Ok(bytes)
        }
    } else {
        let tag = tags[0];
        let others = tags.subrange(1, tags.len() as int);
        if tag.kind == TAG_SERVICE_NAME && expected_service_name is Some
            && expected_service_name->0 != tag.value {
            Err(ParseError::ServiceNameMismatch)
        } else if tag.kind == TAG_AC_NAME && expected_ac_name is Some && expected_ac_name->0
            != tag.value {
            Err(ParseError::AcNameMismatch)
        } else if is_copied(tag.kind) && !(tag.value.len() <= 0xffff && TAG_HEADER_LEN
            + tag.value.len() <= room(bytes)) {
            Err(no_room(bytes, tag.value.len() as int))
        } else {
            padr_from_tags(
                others,
                if is_copied(tag.kind) {
                    appended(bytes, encode(tag))
                } else {
                    bytes
                },
                has_service_name || tag.kind == TAG_SERVICE_NAME,
                has_ac_name || tag.kind == TAG_AC_NAME,
                expected_service_name,
                expected_ac_name,
            )
        }
    }
}

/// The buffer `buffer` with the request for the offer `pado` written into it, or what
/// keeps the request from being written: a buffer too small for a header, or what
/// `padr_from_tags` says.
pub open spec fn padr_from_pado(
    buffer: Seq<u8>,
    pado: Seq<u8>,
    expected_service_name: Option<Seq<u8>>,
    expected_ac_name: Option<Seq<u8>>,
) -> Result<Seq<u8>, ParseError> {
    if buffer.len() < HEADER_LEN {
        Err(ParseError::BufferTooSmall(buffer.len() as usize))
    } else {
        padr_from_tags(
            tag_seq(frame_payload(pado)),
            splice(buffer, 0, header_bytes(Code::Padr, 0, 0)),
            false,
            false,
            expected_service_name,
            expected_ac_name,
        )
    }
}

/// The Vendor-Specific tag whose value are the `written` bytes that stand four bytes
/// behind the payload.
pub open spec fn vendor_tag(bytes: Seq<u8>, written: int) -> Seq<u8> {
    encode(
        Tlv {
            kind: TAG_VENDOR_SPECIFIC,
            value: bytes.subrange(
                frame_len(bytes) + TAG_HEADER_LEN,
                frame_len(bytes) + TAG_HEADER_LEN + written,
            ),
        },
    )
}

/// What closing a Vendor-Specific tag of `written` bytes gives: the buffer with the
/// tag added, or the fault that there is no room for the tag.
pub open spec fn vendor_tag_closed(bytes: Seq<u8>, written: int) -> Result<
    Seq<u8>,
    ParseError,
> {
    if TAG_HEADER_LEN + written <= room(bytes) {
        Ok(appended(bytes, vendor_tag(bytes, written)))
    } else {
        Err(no_room(bytes, written))
    }
}

/// How adding a Vendor-Specific tag ends, where `bytes` is what the buffer holds
/// once the callback has returned `answer`: with the fault of the callback and the
/// buffer as the callback left it, or else with what closing a tag of the length
/// that the callback returned gives.
pub open spec fn vendor_tag_added(
    bytes: Seq<u8>,
    answer: Result<usize, ParseError>,
    result: Result<(), ParseError>,
    after: Seq<u8>,
) -> bool {
    match answer {
        Err(e) => result == Err::<(), _>(e) && after == bytes,
        Ok(written) => match vendor_tag_closed(bytes, written as int) {
            Ok(closed) => result is Ok && after == closed,
            Err(e) => result == Err::<(), _>(e) && after == bytes,
        },
    }
}

/// Whether a payload is a run of whole tags of which the last is an End-Of-List tag
/// without a value.
pub open spec fn ends_with_eol(payload: Seq<u8>) -> bool
    decreases payload.len(),
{
    if payload.len() < TAG_HEADER_LEN {
        false
    } else {
        let kind = u16_be(payload, 0);
        let length = u16_be(payload, 2);
        if length + TAG_HEADER_LEN > payload.len() {
            false
        } else if length + TAG_HEADER_LEN == payload.len() {
            kind == TAG_END_OF_LIST && length == 0
        } else {
            ends_with_eol(payload.subrange(length + TAG_HEADER_LEN, payload.len() as int))
        }
    }
}

/// What adding to the payload changes and what it leaves: the payload grows by what
/// is added, the length field counts it, the rest of the header stays.
pub proof fn lemma_appended(bytes: Seq<u8>, data: Seq<u8>)
    requires
        holds_frame(bytes),
        data.len() <= room(bytes),
    ensures
        appended(bytes, data).len() == bytes.len(),
        holds_frame(appended(bytes, data)),
        payload_len(appended(bytes, data)) == payload_len(bytes) + data.len(),
        frame_len(appended(bytes, data)) == frame_len(bytes) + data.len(),
        frame_payload(appended(bytes, data)) == frame_payload(bytes) + data,
        appended(bytes, data).subrange(0, 4) == bytes.subrange(0, 4),
        room(appended(bytes, data)) == room(bytes) - data.len(),
{
    let after = appended(bytes, data);
    crate::wire::lemma_u16_be_roundtrip((payload_len(bytes) + data.len()) as u16);
    assert(u16_be(after, 4) == u16_be(u16_be_bytes((payload_len(bytes) + data.len()) as u16), 0));
    assert(frame_payload(after) =~= frame_payload(bytes) + data);
    assert(after.subrange(0, 4) =~= bytes.subrange(0, 4));
}

} // verus!

verus! {

/// Whether no type of which there may only be one occurs twice among `tags`.
pub open spec fn kinds_once(tags: Seq<Tlv>) -> bool {
    forall|i: int, j: int|
        0 <= i < j < tags.len() && at_most_once((#[trigger] tags[i]).kind) ==> tags[i].kind
            != (#[trigger] tags[j]).kind
}

/// Whether a tag of the type `kind` is among `tags`.
pub open spec fn has_kind(tags: Seq<Tlv>, kind: u16) -> bool {
    exists|i: int| 0 <= i < tags.len() && (#[trigger] tags[i]).kind == kind
}

/// Whether no tag of a run is the End-Of-List tag.
pub open spec fn no_eol(tags: Seq<Tlv>) -> bool {
    forall|i: int| 0 <= i < tags.len() ==> (#[trigger] tags[i]).kind != TAG_END_OF_LIST
}

/// `seen` with the types of `tags` noted.
pub open spec fn note_all(seen: Set<u16>, tags: Seq<Tlv>) -> Set<u16>
    decreases tags.len(),
{
    if tags.len() == 0 {
        seen
    } else {
        note_all(note(seen, tags[0].kind), tags.subrange(1, tags.len() as int))
    }
}

/// Checking a payload that starts with a written tag checks that tag for a second
/// occurrence and goes on behind it.
pub proof fn lemma_validate_step(tlv: Tlv, rest: Seq<u8>, seen: Set<u16>, total: int)
    requires
        valid_tlv(tlv),
        tlv.kind != TAG_END_OF_LIST,
    ensures
        validate(encode(tlv) + rest, seen, total) == if at_most_once(tlv.kind) && seen.contains(
            tlv.kind,
        ) {
            Err(ParseError::DuplicateTag(tlv.kind))
        } else {
            validate(rest, note(seen, tlv.kind), total)
        },
{
    lemma_decode_encode(tlv, rest);
}

/// What is noted after a run of tags: what was noted before it, and the types of the
/// run of which there may only be one.
pub proof fn lemma_note_all(seen: Set<u16>, tags: Seq<Tlv>, kind: u16)
    ensures
        note_all(seen, tags).contains(kind) <==> seen.contains(kind) || (at_most_once(kind)
            && has_kind(tags, kind)),
    decreases tags.len(),
{
    if tags.len() > 0 {
        let others = tags.subrange(1, tags.len() as int);
        lemma_note_all(note(seen, tags[0].kind), others, kind);
        if has_kind(others, kind) {
            let i = choose|i: int| 0 <= i < others.len() && (#[trigger] others[i]).kind == kind;
            assert(tags[i + 1] == others[i]);
        }
        if has_kind(tags, kind) && tags[0].kind != kind {
            let i = choose|i: int| 0 <= i < tags.len() && (#[trigger] tags[i]).kind == kind;
            assert(others[i - 1] == tags[i]);
        }
    }
}

/// Checking a payload that starts with a run of written tags, of which none occurs
/// that may not, goes through the run and on behind it.
pub proof fn lemma_validate_run(tags: Seq<Tlv>, rest: Seq<u8>, seen: Set<u16>, total: int)
    requires
        valid_run(tags),
        no_eol(tags),
        kinds_once(tags),
        forall|i: int|
            0 <= i < tags.len() && at_most_once((#[trigger] tags[i]).kind) ==> !seen.contains(
                tags[i].kind,
            ),
    ensures
        validate(encode_all(tags) + rest, seen, total) == validate(
            rest,
            note_all(seen, tags),
            total,
        ),
    decreases tags.len(),
{
    if tags.len() == 0 {
        assert(encode_all(tags) + rest =~= rest);
    } else {
        let first = tags[0];
        let others = tags.subrange(1, tags.len() as int);
        assert(encode_all(tags) + rest =~= encode(first) + (encode_all(others) + rest));
        lemma_validate_step(first, encode_all(others) + rest, seen, total);
        assert forall|i: int| 0 <= i < others.len() implies {
            &&& valid_tlv(#[trigger] others[i])
            &&& others[i].kind != TAG_END_OF_LIST
            &&& at_most_once(others[i].kind) ==> !note(seen, first.kind).contains(others[i].kind)
        } by {
            assert(others[i] == tags[i + 1]);
        }
        assert(kinds_once(others)) by {
            assert forall|i: int, j: int|
                0 <= i < j < others.len() && at_most_once(
                    (#[trigger] others[i]).kind,
                ) implies others[i].kind != (#[trigger] others[j]).kind by {
                assert(others[i] == tags[i + 1]);
                assert(others[j] == tags[j + 1]);
            }
        }
        lemma_validate_run(others, rest, note(seen, first.kind), total);
    }
}

/// A buffer that starts with a header and holds behind it the payload that the
/// header announces is judged as that payload is.
pub proof fn lemma_parse_of_written(code: Code, session_id: u16, payload: Seq<u8>, slack: Seq<u8>)
    requires
        0 < payload.len() <= MAX_PAYLOAD_LEN,
    ensures
        ({
            let bytes = header_bytes(code, session_id, payload.len() as u16) + payload + slack;
            &&& frame_payload(bytes) == payload
            &&& parse(bytes, None) == validate_payload(payload)
            &&& parse(bytes, Some(code)) == validate_payload(payload)
        }),
{
    let head = header_bytes(code, session_id, payload.len() as u16);
    let bytes = head + payload + slack;
    crate::wire::lemma_u16_be_roundtrip(payload.len() as u16);
    assert(head.len() == HEADER_LEN);
    assert(bytes[0] == VERSION_AND_TYPE);
    assert(bytes[1] == code.byte());
    assert(code_of(code.byte()) == Some(code));
    assert(u16_be(bytes, 4) == u16_be(u16_be_bytes(payload.len() as u16), 0));
    assert(frame_payload(bytes) =~= payload);
}

/// A packet in which a tag occurs again that may occur once is refused for that
/// tag, whatever follows: the tags before the second occurrence are written tags in
/// order, none of them the End-Of-List tag, among them one of the type `kind`; the
/// second occurrence starts `rest`. So is the payload alone, and so is the packet
/// with any header in front of it, where the length field can count the payload.
pub proof fn lemma_duplicate_refused(
    tags: Seq<Tlv>,
    rest: Seq<u8>,
    kind: u16,
    code: Code,
    session_id: u16,
    slack: Seq<u8>,
)
    requires
        valid_run(tags),
        no_eol(tags),
        kinds_once(tags),
        at_most_once(kind),
        has_kind(tags, kind),
        rest.len() >= TAG_HEADER_LEN,
        u16_be(rest, 0) == kind,
    ensures
        ({
            let payload = encode_all(tags) + rest;
            let bytes = header_bytes(code, session_id, payload.len() as u16) + payload + slack;
            &&& validate_payload(payload) == Err::<(), _>(ParseError::DuplicateTag(kind))
            &&& payload.len() <= MAX_PAYLOAD_LEN ==> parse(bytes, None) == Err::<(), _>(
                ParseError::DuplicateTag(kind),
            )
        }),
{
    let payload = encode_all(tags) + rest;
    lemma_validate_run(tags, rest, Set::empty(), payload.len() as int);
    lemma_note_all(Set::empty(), tags, kind);
    if payload.len() <= MAX_PAYLOAD_LEN {
        lemma_parse_of_written(code, session_id, payload, slack);
    }
}

/// A packet in which the End-Of-List tag has a value, or is not the end, is refused
/// for that, whatever follows: the tags before it are written tags in order; the
/// End-Of-List tag starts `rest`. So is the payload alone, and so is the packet with
/// any header in front of it, where the length field can count the payload.
pub proof fn lemma_data_behind_eol_refused(
    tags: Seq<Tlv>,
    rest: Seq<u8>,
    code: Code,
    session_id: u16,
    slack: Seq<u8>,
)
    requires
        valid_run(tags),
        no_eol(tags),
        kinds_once(tags),
        rest.len() >= TAG_HEADER_LEN,
        u16_be(rest, 0) == TAG_END_OF_LIST,
        u16_be(rest, 2) != 0 || rest.len() > TAG_HEADER_LEN,
    ensures
        ({
            let payload = encode_all(tags) + rest;
            let bytes = header_bytes(code, session_id, payload.len() as u16) + payload + slack;
            &&& validate_payload(payload) == Err::<(), _>(ParseError::DataBehindEolTag)
            &&& payload.len() <= MAX_PAYLOAD_LEN ==> parse(bytes, None) == Err::<(), _>(
                ParseError::DataBehindEolTag,
            )
        }),
{
    let payload = encode_all(tags) + rest;
    lemma_validate_run(tags, rest, Set::empty(), payload.len() as int);
    if payload.len() <= MAX_PAYLOAD_LEN {
        lemma_parse_of_written(code, session_id, payload, slack);
    }
}

/// A run of written tags is in order where no tag occurs twice that may occur once,
/// a Service-Name tag is among them, and the End-Of-List tag, if it is there, is the
/// last.
pub proof fn lemma_valid_run_accepted(tags: Seq<Tlv>)
    requires
        valid_run(tags),
        kinds_once(tags),
        has_kind(tags, TAG_SERVICE_NAME),
    ensures
        validate_payload(encode_all(tags)) == Ok::<(), ParseError>(()),
{
    let payload = encode_all(tags);
    let total = payload.len() as int;
    let last = tags.len() - 1;
    let sn = choose|i: int| 0 <= i < tags.len() && (#[trigger] tags[i]).kind == TAG_SERVICE_NAME;
    if tags[last].kind == TAG_END_OF_LIST {
        let init = tags.subrange(0, last);
        let eol = tags[last];
        assert(tags =~= init.push(eol));
        crate::tags::tag::lemma_encode_all_push(init, eol);
        assert forall|i: int| 0 <= i < init.len() implies {
            &&& valid_tlv(#[trigger] init[i])
            &&& init[i].kind != TAG_END_OF_LIST
        } by {
            assert(init[i] == tags[i]);
        }
        assert(kinds_once(init)) by {
            assert forall|i: int, j: int|
                0 <= i < j < init.len() && at_most_once((#[trigger] init[i]).kind) implies init[i].kind
                != (#[trigger] init[j]).kind by {
                assert(init[i] == tags[i]);
                assert(init[j] == tags[j]);
            }
        }
        assert(init[sn] == tags[sn]);
        assert(has_kind(init, TAG_SERVICE_NAME));
        lemma_validate_run(init, encode(eol), Set::empty(), total);
        lemma_note_all(Set::empty(), init, TAG_SERVICE_NAME);
        lemma_decode_encode(eol, Seq::empty());
        assert(encode(eol) + Seq::<u8>::empty() =~= encode(eol));
    } else {
        assert(no_eol(tags));
        assert(payload + Seq::<u8>::empty() =~= payload);
        lemma_validate_run(tags, Seq::empty(), Set::empty(), total);
        lemma_note_all(Set::empty(), tags, TAG_SERVICE_NAME);
    }
}

/// The buffer `bytes` with the tags `tags` added one after the other, as `add_tag`
/// adds them.
pub open spec fn built(bytes: Seq<u8>, tags: Seq<Tlv>) -> Seq<u8>
    decreases tags.len(),
{
    if tags.len() == 0 {
        bytes
    } else {
        appended(built(bytes, tags.drop_last()), encode(tags.last()))
    }
}

/// Adding to a payload that stands behind its header: the header counts what was
/// added, which stands behind the payload in place of what stood there.
pub proof fn lemma_appended_written(
    code: Code,
    session_id: u16,
    payload: Seq<u8>,
    data: Seq<u8>,
    tail: Seq<u8>,
)
    requires
        payload.len() + data.len() <= MAX_PAYLOAD_LEN,
        data.len() <= tail.len(),
    ensures
        appended(header_bytes(code, session_id, payload.len() as u16) + payload + tail, data)
            == header_bytes(code, session_id, (payload.len() + data.len()) as u16) + (payload
            + data) + tail.subrange(data.len() as int, tail.len() as int),
{
    let head = header_bytes(code, session_id, payload.len() as u16);
    let bytes = head + payload + tail;
    let grown = header_bytes(code, session_id, (payload.len() + data.len()) as u16);
    let left = tail.subrange(data.len() as int, tail.len() as int);
    crate::wire::lemma_u16_be_roundtrip(payload.len() as u16);
    assert(head.len() == HEADER_LEN && grown.len() == HEADER_LEN);
    assert(u16_be(bytes, 4) == u16_be(u16_be_bytes(payload.len() as u16), 0));
    assert(frame_len(bytes) == HEADER_LEN + payload.len());
    let mid = splice(bytes, HEADER_LEN + payload.len(), data);
    assert(mid =~= head + (payload + data) + left);
    assert(splice(mid, 4, u16_be_bytes((payload.len() + data.len()) as u16)) =~= grown + (payload
        + data) + left);
}

/// What a buffer holds after a header was created in it and tags were added: the
/// header with the length of the tags, the tags as they stand on the wire, and what
/// the buffer held behind them before.
pub proof fn lemma_built_bytes(buffer: Seq<u8>, code: Code, session_id: u16, tags: Seq<Tlv>)
    requires
        forall|i: int| 0 <= i < tags.len() ==> (#[trigger] tags[i]).value.len() <= 0xffff,
        encode_all(tags).len() <= MAX_PAYLOAD_LEN,
        HEADER_LEN + encode_all(tags).len() <= buffer.len(),
    ensures
        built(splice(buffer, 0, header_bytes(code, session_id, 0)), tags) == header_bytes(
            code,
            session_id,
            encode_all(tags).len() as u16,
        ) + encode_all(tags) + buffer.subrange(
            HEADER_LEN + encode_all(tags).len(),
            buffer.len() as int,
        ),
    decreases tags.len(),
{
    let start = splice(buffer, 0, header_bytes(code, session_id, 0));
    let all = encode_all(tags);
    if tags.len() == 0 {
        assert(start =~= header_bytes(code, session_id, 0) + all + buffer.subrange(
            HEADER_LEN as int,
            buffer.len() as int,
        ));
    } else {
        let init = tags.drop_last();
        let last = tags.last();
        let before = encode_all(init);
        assert(tags =~= init.push(last));
        crate::tags::tag::lemma_encode_all_push(init, last);
        assert forall|i: int| 0 <= i < init.len() implies (#[trigger] init[i]).value.len()
            <= 0xffff by {
            assert(init[i] == tags[i]);
        }
        lemma_built_bytes(buffer, code, session_id, init);
        let tail = buffer.subrange(HEADER_LEN + before.len(), buffer.len() as int);
        lemma_appended_written(code, session_id, before, encode(last), tail);
        assert(tail.subrange(encode(last).len() as int, tail.len() as int) =~= buffer.subrange(
            HEADER_LEN + all.len(),
            buffer.len() as int,
        ));
    }
}

/// What is built is what is read: where a header of `code` and `session_id` is
/// created in `buffer` and the tags `tags` are added one after the other, the
/// buffer is then found in order, and its tags read one after the other are `tags`,
/// in their order, the End-Of-List tag too where it was added as the last. This
/// holds of tags that can be written, that fit the buffer and the length field, with
/// a Service-Name tag among them and no tag twice that may occur once.
pub proof fn lemma_build_parse_roundtrip(
    buffer: Seq<u8>,
    code: Code,
    session_id: u16,
    tags: Seq<Tlv>,
)
    requires
        valid_run(tags),
        kinds_once(tags),
        has_kind(tags, TAG_SERVICE_NAME),
        encode_all(tags).len() <= MAX_PAYLOAD_LEN,
        HEADER_LEN + encode_all(tags).len() <= buffer.len(),
    ensures
        ({
            let bytes = built(splice(buffer, 0, header_bytes(code, session_id, 0)), tags);
            &&& parse(bytes, None) == Ok::<(), ParseError>(())
            &&& parse(bytes, Some(code)) == Ok::<(), ParseError>(())
            &&& frame_payload(bytes) == encode_all(tags)
            &&& tag_seq(frame_payload(bytes)) == tags
        }),
{
    lemma_built_bytes(buffer, code, session_id, tags);
    lemma_written_packet_parses(
        code,
        session_id,
        tags,
        buffer.subrange(HEADER_LEN + encode_all(tags).len(), buffer.len() as int),
    );
}

/// A header with the length of a run of tags, that run as it stands on the wire, and
/// anything behind it: such a buffer is found in order, and its tags are the run.
pub proof fn lemma_written_packet_parses(
    code: Code,
    session_id: u16,
    tags: Seq<Tlv>,
    slack: Seq<u8>,
)
    requires
        valid_run(tags),
        kinds_once(tags),
        has_kind(tags, TAG_SERVICE_NAME),
        encode_all(tags).len() <= MAX_PAYLOAD_LEN,
    ensures
        ({
            let payload = encode_all(tags);
            let bytes = header_bytes(code, session_id, payload.len() as u16) + payload + slack;
            &&& parse(bytes, None) == Ok::<(), ParseError>(())
            &&& parse(bytes, Some(code)) == Ok::<(), ParseError>(())
            &&& frame_payload(bytes) == payload
            &&& tag_seq(frame_payload(bytes)) == tags
        }),
{
    lemma_encoding_not_empty(tags);
    lemma_parse_of_written(code, session_id, encode_all(tags), slack);
    lemma_valid_run_accepted(tags);
    lemma_tag_seq_of_encoding(tags);
}

/// A run with a tag in it takes at least the four bytes of a tag's type and length.
pub proof fn lemma_encoding_not_empty(tags: Seq<Tlv>)
    requires
        tags.len() > 0,
    ensures
        encode_all(tags).len() >= TAG_HEADER_LEN,
{
    let first = tags[0];
    let others = tags.subrange(1, tags.len() as int);
    assert(encode_all(tags) == encode(first) + encode_all(others));
    assert(u16_be_bytes(first.kind).len() == 2);
    assert(u16_be_bytes(first.value.len() as u16).len() == 2);
    assert(encode(first).len() == TAG_HEADER_LEN + first.value.len());
}

} // verus!

verus! {

/// The tags of an offer that go into the request, in their order.
pub open spec fn copied(tags: Seq<Tlv>) -> Seq<Tlv>
    decreases tags.len(),
{
    if tags.len() == 0 {
        Seq::empty()
    } else if is_copied(tags[0].kind) {
        seq![tags[0]] + copied(tags.subrange(1, tags.len() as int))
    } else {
        copied(tags.subrange(1, tags.len() as int))
    }
}

/// Whether every tag of the type `kind` among `tags` has the value expected, where
/// one is expected.
pub open spec fn names_match(tags: Seq<Tlv>, kind: u16, expected: Option<Seq<u8>>) -> bool {
    expected is Some ==> forall|i: int|
        0 <= i < tags.len() && (#[trigger] tags[i]).kind == kind ==> tags[i].value == expected->0
}

/// The copied tags are tags that can be written and read back, each of a type that
/// is copied, none of them the End-Of-List tag; and they take no more bytes than all
/// the tags.
pub proof fn lemma_copied(tags: Seq<Tlv>)
    requires
        forall|i: int| 0 <= i < tags.len() ==> valid_tlv(#[trigger] tags[i]),
    ensures
        valid_run(copied(tags)),
        no_eol(copied(tags)),
        forall|i: int| 0 <= i < copied(tags).len() ==> is_copied((#[trigger] copied(tags)[i]).kind),
        encode_all(copied(tags)).len() <= encode_all(tags).len(),
    decreases tags.len(),
{
    if tags.len() > 0 {
        let others = tags.subrange(1, tags.len() as int);
        assert forall|i: int| 0 <= i < others.len() implies valid_tlv(#[trigger] others[i]) by {
            assert(others[i] == tags[i + 1]);
        }
        lemma_copied(others);
        if is_copied(tags[0].kind) {
            let all = copied(tags);
            assert(all[0] == tags[0]);
            assert(all.subrange(1, all.len() as int) =~= copied(others));
            assert forall|i: int| 0 <= i < all.len() implies {
                &&& valid_tlv(#[trigger] all[i])
                &&& all[i].kind != TAG_END_OF_LIST
                &&& is_copied(all[i].kind)
            } by {
                if i > 0 {
                    assert(all[i] == copied(others)[i - 1]);
                }
            }
        }
    }
}

/// What a request holds that was written: the header that `bytes` had, and behind
/// the payload that `bytes` had the copied tags of `tags`, as they stand on the wire
/// and in their order.
pub proof fn lemma_padr_from_tags(
    tags: Seq<Tlv>,
    bytes: Seq<u8>,
    has_service_name: bool,
    has_ac_name: bool,
    expected_service_name: Option<Seq<u8>>,
    expected_ac_name: Option<Seq<u8>>,
)
    requires
        holds_frame(bytes),
        padr_from_tags(
            tags,
            bytes,
            has_service_name,
            has_ac_name,
            expected_service_name,
            expected_ac_name,
        ) is Ok,
    ensures
        ({
            let out = padr_from_tags(
                tags,
                bytes,
                has_service_name,
                has_ac_name,
                expected_service_name,
                expected_ac_name,
            )->Ok_0;
            &&& out.len() == bytes.len()
            &&& holds_frame(out)
            &&& out.subrange(0, 4) == bytes.subrange(0, 4)
            &&& frame_payload(out) == frame_payload(bytes) + encode_all(copied(tags))
            &&& has_service_name || has_kind(tags, TAG_SERVICE_NAME)
            &&& has_ac_name || has_kind(tags, TAG_AC_NAME)
            &&& names_match(tags, TAG_SERVICE_NAME, expected_service_name)
            &&& names_match(tags, TAG_AC_NAME, expected_ac_name)
        }),
    decreases tags.len(),
{
    if tags.len() == 0 {
        assert(frame_payload(bytes) + encode_all(copied(tags)) =~= frame_payload(bytes));
    } else {
        let tag = tags[0];
        let others = tags.subrange(1, tags.len() as int);
        let next = if is_copied(tag.kind) {
            appended(bytes, encode(tag))
        } else {
            bytes
        };
        if is_copied(tag.kind) {
            assert(encode(tag).len() == TAG_HEADER_LEN + tag.value.len()) by {
                assert(u16_be_bytes(tag.kind).len() == 2);
                assert(u16_be_bytes(tag.value.len() as u16).len() == 2);
            }
            lemma_appended(bytes, encode(tag));
            let all = copied(tags);
            assert(all[0] == tag);
            assert(all.subrange(1, all.len() as int) =~= copied(others));
        }
        lemma_padr_from_tags(
            others,
            next,
            has_service_name || tag.kind == TAG_SERVICE_NAME,
            has_ac_name || tag.kind == TAG_AC_NAME,
            expected_service_name,
            expected_ac_name,
        );
        let out = padr_from_tags(
            tags,
            bytes,
            has_service_name,
            has_ac_name,
            expected_service_name,
            expected_ac_name,
        )->Ok_0;
        assert(frame_payload(out) =~= frame_payload(bytes) + encode_all(copied(tags)));
        assert(out.subrange(0, 4) =~= bytes.subrange(0, 4));
        if has_kind(others, TAG_SERVICE_NAME) {
            let i = choose|i: int|
                0 <= i < others.len() && (#[trigger] others[i]).kind == TAG_SERVICE_NAME;
            assert(tags[i + 1] == others[i]);
        }
        if has_kind(others, TAG_AC_NAME) {
            let i = choose|i: int| 0 <= i < others.len() && (#[trigger] others[i]).kind == TAG_AC_NAME;
            assert(tags[i + 1] == others[i]);
        }
        assert(names_match(tags, TAG_SERVICE_NAME, expected_service_name)) by {
            if expected_service_name is Some {
                assert forall|i: int|
                    0 <= i < tags.len() && (#[trigger] tags[i]).kind
                        == TAG_SERVICE_NAME implies tags[i].value == expected_service_name->0 by {
                    if i > 0 {
                        assert(others[i - 1] == tags[i]);
                    }
                }
            }
        }
        assert(names_match(tags, TAG_AC_NAME, expected_ac_name)) by {
            if expected_ac_name is Some {
                assert forall|i: int|
                    0 <= i < tags.len() && (#[trigger] tags[i]).kind
                        == TAG_AC_NAME implies tags[i].value == expected_ac_name->0 by {
                    if i > 0 {
                        assert(others[i - 1] == tags[i]);
                    }
                }
            }
        }
    }
}

/// When a request is written: the offer's tags name what is expected, a Service-Name
/// and an AC-Name tag are among them or were met before, and the copied tags fit the
/// room that `bytes` has.
pub proof fn lemma_padr_from_tags_succeeds(
    tags: Seq<Tlv>,
    bytes: Seq<u8>,
    has_service_name: bool,
    has_ac_name: bool,
    expected_service_name: Option<Seq<u8>>,
    expected_ac_name: Option<Seq<u8>>,
)
    requires
        holds_frame(bytes),
        forall|i: int| 0 <= i < tags.len() ==> valid_tlv(#[trigger] tags[i]),
        encode_all(copied(tags)).len() <= room(bytes),
        has_service_name || has_kind(tags, TAG_SERVICE_NAME),
        has_ac_name || has_kind(tags, TAG_AC_NAME),
        names_match(tags, TAG_SERVICE_NAME, expected_service_name),
        names_match(tags, TAG_AC_NAME, expected_ac_name),
    ensures
        padr_from_tags(
            tags,
            bytes,
            has_service_name,
            has_ac_name,
            expected_service_name,
            expected_ac_name,
        ) is Ok,
    decreases tags.len(),
{
    if tags.len() > 0 {
        let tag = tags[0];
        let others = tags.subrange(1, tags.len() as int);
        let next = if is_copied(tag.kind) {
            appended(bytes, encode(tag))
        } else {
            bytes
        };
        assert(valid_tlv(tag));
        assert(encode(tag).len() == TAG_HEADER_LEN + tag.value.len()) by {
            assert(u16_be_bytes(tag.kind).len() == 2);
            assert(u16_be_bytes(tag.value.len() as u16).len() == 2);
        }
        if is_copied(tag.kind) {
            let all = copied(tags);
            assert(all[0] == tag);
            assert(all.subrange(1, all.len() as int) =~= copied(others));
            assert(encode_all(all) == encode(tag) + encode_all(copied(others)));
            lemma_appended(bytes, encode(tag));
        }
        assert forall|i: int| 0 <= i < others.len() implies valid_tlv(#[trigger] others[i]) by {
            assert(others[i] == tags[i + 1]);
        }
        if has_kind(tags, TAG_SERVICE_NAME) && tag.kind != TAG_SERVICE_NAME {
            let i = choose|i: int| 0 <= i < tags.len() && (#[trigger] tags[i]).kind == TAG_SERVICE_NAME;
            assert(others[i - 1] == tags[i]);
        }
        if has_kind(tags, TAG_AC_NAME) && tag.kind != TAG_AC_NAME {
            let i = choose|i: int| 0 <= i < tags.len() && (#[trigger] tags[i]).kind == TAG_AC_NAME;
            assert(others[i - 1] == tags[i]);
        }
        assert(names_match(others, TAG_SERVICE_NAME, expected_service_name)) by {
            if expected_service_name is Some {
                assert forall|i: int|
                    0 <= i < others.len() && (#[trigger] others[i]).kind
                        == TAG_SERVICE_NAME implies others[i].value
                    == expected_service_name->0 by {
                    assert(others[i] == tags[i + 1]);
                }
            }
        }
        assert(names_match(others, TAG_AC_NAME, expected_ac_name)) by {
            if expected_ac_name is Some {
                assert forall|i: int|
                    0 <= i < others.len() && (#[trigger] others[i]).kind
                        == TAG_AC_NAME implies others[i].value == expected_ac_name->0 by {
                    assert(others[i] == tags[i + 1]);
                }
            }
        }
        lemma_padr_from_tags_succeeds(
            others,
            next,
            has_service_name || tag.kind == TAG_SERVICE_NAME,
            has_ac_name || tag.kind == TAG_AC_NAME,
            expected_service_name,
            expected_ac_name,
        );
    }
}

/// The request that answers an offer. It is written where the offer has a
/// Service-Name and an AC-Name tag, each with the value expected where one is
/// expected, and the buffer holds a header and the offer's Service-Name,
/// Relay-Session-Id and AC-Cookie tags. What is written then is a PADR header with
/// session id 0, and behind it those tags as they stood in the offer, in their
/// order and no other tag: reading the request's tags gives exactly them. And
/// where a request is written, the offer was such an offer.
pub proof fn lemma_padr_answers_pado(
    buffer: Seq<u8>,
    pado: Seq<u8>,
    expected_service_name: Option<Seq<u8>>,
    expected_ac_name: Option<Seq<u8>>,
)
    requires
        holds_frame(pado),
    ensures
        ({
            let tags = tag_seq(frame_payload(pado));
            let r = padr_from_pado(buffer, pado, expected_service_name, expected_ac_name);
            &&& r is Ok <==> {
                &&& HEADER_LEN + encode_all(copied(tags)).len() <= buffer.len()
                &&& has_kind(tags, TAG_SERVICE_NAME)
                &&& has_kind(tags, TAG_AC_NAME)
                &&& names_match(tags, TAG_SERVICE_NAME, expected_service_name)
                &&& names_match(tags, TAG_AC_NAME, expected_ac_name)
            }
            &&& r matches Ok(out) ==> {
                &&& out.len() == buffer.len()
                &&& holds_frame(out)
                &&& out.subrange(0, 4) == seq![VERSION_AND_TYPE, PADR, 0u8, 0u8]
                &&& frame_payload(out) == encode_all(copied(tags))
                &&& tag_seq(frame_payload(out)) == copied(tags)
                &&& forall|i: int|
                    0 <= i < copied(tags).len() ==> is_copied((#[trigger] copied(tags)[i]).kind)
            }
        }),
{
    let payload = frame_payload(pado);
    let tags = tag_seq(payload);
    let r = padr_from_pado(buffer, pado, expected_service_name, expected_ac_name);
    crate::tags::tag::lemma_tag_seq_valid(payload);
    crate::tags::tag::lemma_tag_seq_len(payload);
    lemma_copied(tags);
    lemma_tag_seq_of_encoding(copied(tags));
    assert(encode_all(copied(tags)).len() <= MAX_PAYLOAD_LEN);
    if buffer.len() >= HEADER_LEN {
        let start = splice(buffer, 0, header_bytes(Code::Padr, 0, 0));
        crate::wire::lemma_u16_be_roundtrip(0);
        assert(start.len() == buffer.len());
        assert(u16_be(start, 4) == u16_be(u16_be_bytes(0), 0));
        assert(payload_len(start) == 0);
        assert(holds_frame(start));
        assert(frame_payload(start) =~= Seq::<u8>::empty());
        assert(start.subrange(0, 4) =~= seq![VERSION_AND_TYPE, PADR, 0u8, 0u8]);
        if r is Ok {
            lemma_padr_from_tags(
                tags,
                start,
                false,
                false,
                expected_service_name,
                expected_ac_name,
            );
            let out = r->Ok_0;
            assert(frame_payload(out) =~= encode_all(copied(tags)));
            assert(frame_len(out) <= out.len());
        } else if HEADER_LEN + encode_all(copied(tags)).len() <= buffer.len() && has_kind(
            tags,
            TAG_SERVICE_NAME,
        ) && has_kind(tags, TAG_AC_NAME) && names_match(
            tags,
            TAG_SERVICE_NAME,
            expected_service_name,
        ) && names_match(tags, TAG_AC_NAME, expected_ac_name) {
            lemma_padr_from_tags_succeeds(
                tags,
                start,
                false,
                false,
                expected_service_name,
                expected_ac_name,
            );
        }
    }
}

} // verus!
