//! The tags of a discovery packet: a type, a length and a value each.

use crate::error::ParseError;
use crate::wire::{
    lemma_splice_chain, lemma_u16_bytes_of_window, low16, low16_of, read_u16_at, splice, u16_be, u16_be_bytes, write_bytes_at, write_u16_at,
};
use vstd::prelude::*;
use vstd::string::StringSliceAdditionalSpecFns;
use vstd::utf8::valid_utf8;

verus! {

// RFC 2516
pub const TAG_END_OF_LIST: u16 = 0x0000;

pub const TAG_SERVICE_NAME: u16 = 0x0101;

pub const TAG_AC_NAME: u16 = 0x0102;

pub const TAG_HOST_UNIQ: u16 = 0x0103;

pub const TAG_AC_COOKIE: u16 = 0x0104;

pub const TAG_VENDOR_SPECIFIC: u16 = 0x0105;

pub const TAG_RELAY_SESSION_ID: u16 = 0x0110;

pub const TAG_SERVICE_NAME_ERROR: u16 = 0x0201;

pub const TAG_AC_SYSTEM_ERROR: u16 = 0x0202;

pub const TAG_GENERIC_ERROR: u16 = 0x0203;

// RFC 4638
pub const TAG_PPP_MAX_PAYLOAD: u16 = 0x0120;

// RFC 5578
pub const TAG_CREDITS: u16 = 0x0106;

pub const TAG_METRICS: u16 = 0x0107;

pub const TAG_SEQUENCE_NUMBER: u16 = 0x0108;

pub const TAG_CREDIT_SCALE_FACTOR: u16 = 0x0109;

/// The bytes of a tag in front of its value: two of type, two of length.
pub const TAG_HEADER_LEN: usize = 4;

/// The error of `core::str::from_utf8`, carried through as it is.
#[verifier::external_type_specification]
#[verifier::external_body]
pub struct ExUtf8Error(core::str::Utf8Error);

/// A tag of a discovery packet. A value that is not a number is a slice of the buffer
/// the tag was read from.
#[derive(Debug, PartialEq, Eq, Clone, Copy)]
pub enum Tag<'a> {
    EndOfList,
    ServiceName(&'a [u8]),
    AcName(&'a [u8]),
    HostUniq(&'a [u8]),
    AcCookie(&'a [u8]),
    VendorSpecific(&'a [u8]),
    RelaySessionId(&'a [u8]),
    ServiceNameError(&'a [u8]),
    AcSystemError(&'a [u8]),
    GenericError(&'a [u8]),
    // RFC 4638
    PppMaxMtu(u16),
    // RFC 5578
    Credits((u16, u16)),
    Metrics(&'a [u8]),
    SequenceNumber(u16),
    CreditScaleFactor(u16),
    /// A tag of a type that this library does not know, with that type.
    Unknown((u16, &'a [u8])),
}

/// A tag as it stands on the wire: its type and the bytes of its value.
pub struct Tlv {
    pub kind: u16,
    pub value: Seq<u8>,
}

impl<'a> View for Tag<'a> {
    type V = Tlv;

    open spec fn view(&self) -> Tlv {
        match *self {
            Tag::EndOfList => Tlv { kind: TAG_END_OF_LIST, value: Seq::empty() },
            Tag::ServiceName(v) => Tlv { kind: TAG_SERVICE_NAME, value: v@ },
            Tag::AcName(v) => Tlv { kind: TAG_AC_NAME, value: v@ },
            Tag::HostUniq(v) => Tlv { kind: TAG_HOST_UNIQ, value: v@ },
            Tag::AcCookie(v) => Tlv { kind: TAG_AC_COOKIE, value: v@ },
            Tag::VendorSpecific(v) => Tlv { kind: TAG_VENDOR_SPECIFIC, value: v@ },
            Tag::RelaySessionId(v) => Tlv { kind: TAG_RELAY_SESSION_ID, value: v@ },
            Tag::ServiceNameError(v) => Tlv { kind: TAG_SERVICE_NAME_ERROR, value: v@ },
            Tag::AcSystemError(v) => Tlv { kind: TAG_AC_SYSTEM_ERROR, value: v@ },
            Tag::GenericError(v) => Tlv { kind: TAG_GENERIC_ERROR, value: v@ },
            Tag::PppMaxMtu(n) => Tlv { kind: TAG_PPP_MAX_PAYLOAD, value: u16_be_bytes(n) },
            Tag::Credits((a, b)) => Tlv {
                kind: TAG_CREDITS,
                value: u16_be_bytes(a) + u16_be_bytes(b),
            },
            Tag::Metrics(v) => Tlv { kind: TAG_METRICS, value: v@ },
            Tag::SequenceNumber(n) => Tlv { kind: TAG_SEQUENCE_NUMBER, value: u16_be_bytes(n) },
            Tag::CreditScaleFactor(n) => Tlv {
                kind: TAG_CREDIT_SCALE_FACTOR,
                value: u16_be_bytes(n),
            },
            Tag::Unknown((kind, v)) => Tlv { kind, value: v@ },
        }
    }
}

/// Whether `kind` is one of the types that have a variant of their own.
pub open spec fn is_known(kind: u16) -> bool {
    ||| kind == TAG_END_OF_LIST
    ||| kind == TAG_SERVICE_NAME
    ||| kind == TAG_AC_NAME
    ||| kind == TAG_HOST_UNIQ
    ||| kind == TAG_AC_COOKIE
    ||| kind == TAG_VENDOR_SPECIFIC
    ||| kind == TAG_RELAY_SESSION_ID
    ||| kind == TAG_SERVICE_NAME_ERROR
    ||| kind == TAG_AC_SYSTEM_ERROR
    ||| kind == TAG_GENERIC_ERROR
    ||| kind == TAG_PPP_MAX_PAYLOAD
    ||| kind == TAG_CREDITS
    ||| kind == TAG_METRICS
    ||| kind == TAG_SEQUENCE_NUMBER
    ||| kind == TAG_CREDIT_SCALE_FACTOR
}

/// The length that the value of a tag of this type must have, where it is fixed.
pub open spec fn fixed_width(kind: u16) -> Option<int> {
    if kind == TAG_END_OF_LIST {
        Some(0)
    } else if kind == TAG_PPP_MAX_PAYLOAD || kind == TAG_SEQUENCE_NUMBER || kind
        == TAG_CREDIT_SCALE_FACTOR {
        Some(2)
    } else if kind == TAG_CREDITS {
        Some(4)
    } else {
        None
    }
}

/// The bytes of a tag on the wire.
pub open spec fn encode(tlv: Tlv) -> Seq<u8>
    recommends
        tlv.value.len() <= 0xffff,
{
    u16_be_bytes(tlv.kind) + u16_be_bytes(tlv.value.len() as u16) + tlv.value
}

/// The tag at the start of `buf` and the number of bytes it takes, or what is wrong
/// with it.
pub open spec fn decode(buf: Seq<u8>) -> Result<(Tlv, int), ParseError> {
    if buf.len() < TAG_HEADER_LEN {
        Err(ParseError::IncompleteTag(buf.len() as u8))
    } else {
        let kind = u16_be(buf, 0);
        let total = u16_be(buf, 2) + TAG_HEADER_LEN;
        if total > buf.len() {
            Err(
                ParseError::TagLengthOutOfBound {
                    expected_tag_length: low16(total),
                    remaining_payload_length: low16(buf.len() as int),
                },
            )
        } else if fixed_width(kind) is Some && fixed_width(kind)->0 + TAG_HEADER_LEN != total {
            Err(ParseError::TagWithInvalidLength { tag_type: kind, length: u16_be(buf, 2) })
        } else {
            Ok((Tlv { kind, value: buf.subrange(TAG_HEADER_LEN as int, total) }, total))
        }
    }
}

/// The tags that an iteration over `payload` yields: one after the other up to the
/// end of the payload, the End-Of-List tag or a tag that cannot be read.
pub open spec fn tag_seq(payload: Seq<u8>) -> Seq<Tlv>
    decreases payload.len(),
{
    if payload.len() == 0 {
        Seq::empty()
    } else {
        match decode(payload) {
            Err(_) => Seq::empty(),
            Ok((tlv, used)) => if tlv.kind == TAG_END_OF_LIST {
                seq![tlv]
            } else {
                seq![tlv] + tag_seq(payload.subrange(used, payload.len() as int))
            },
        }
    }
}

/// `core::str::from_utf8`: the bytes as a string, where they are valid UTF-8, and
/// an error where they are not.
#[verifier::external_body]
pub(crate) fn str_from_utf8<'b>(bytes: &'b [u8]) -> (r: Result<&'b str, core::str::Utf8Error>)
    ensures
        r is Ok <==> valid_utf8(bytes@),
        r matches Ok(s) ==> s.spec_bytes() == bytes@,
{
    core::str::from_utf8(bytes)
}

impl<'a> Tag<'a> {
    /// Whether the variant is the one that the type stands for: `Unknown` holds no
    /// type that has a variant of its own.
    pub open spec fn wf(&self) -> bool {
        match *self {
            Tag::Unknown((kind, _)) => !is_known(kind),
            _ => true,
        }
    }

    /// Whether the value is a number of fixed width.
    pub open spec fn is_number(&self) -> bool {
        match *self {
            Tag::PppMaxMtu(_) | Tag::Credits(_) | Tag::SequenceNumber(_) | Tag::CreditScaleFactor(
                _,
            ) => true,
            _ => false,
        }
    }

    /// The size that `write` reports where the buffer is too small: the whole tag's
    /// for a number, the value's for every other tag.
    pub open spec fn spec_requested(&self) -> int {
        if self.is_number() {
            TAG_HEADER_LEN + self@.value.len()
        } else {
            self@.value.len() as int
        }
    }

    /// Whether a buffer of `room` bytes can take the tag: the length must fit its
    /// 16-bit field, and type, length and value the buffer.
    pub open spec fn fits(&self, room: int) -> bool {
        self@.value.len() <= 0xffff && TAG_HEADER_LEN + self@.value.len() <= room
    }

    /// Reads the tag at the start of `buffer` and returns it with the bytes behind it.
    pub fn from_buffer<'b>(buffer: &'b [u8]) -> (r: Result<(Tag<'b>, &'b [u8]), ParseError>)
        ensures
            match decode(buffer@) {
                Ok((tlv, used)) => r matches Ok((tag, rest)) && tag@ == tlv && tag.wf() && rest@
                    == buffer@.subrange(used, buffer@.len() as int),
                Err(e) => r matches Err(got) && got == e,
            },
    {
        let total_length = buffer.len();
        if total_length < TAG_HEADER_LEN {
            return Err(ParseError::IncompleteTag(total_length as u8));
        }
        let tag = read_u16_at(buffer, 0);
        let value_length = read_u16_at(buffer, 2);
        let length = value_length as usize + TAG_HEADER_LEN;
        if length > total_length {
            return Err(
                ParseError::TagLengthOutOfBound {
                    expected_tag_length: low16_of(length),
                    remaining_payload_length: low16_of(total_length),
                },
            );
        }
        let value = &buffer[TAG_HEADER_LEN..length];
        let rest = &buffer[length..total_length];
        let tag_enum = match tag {
            TAG_END_OF_LIST => {
                if length != 4 {
                    return Err(
                        ParseError::TagWithInvalidLength {
                            tag_type: tag,
                            length: value_length,
                        },
                    );
                }
                Tag::EndOfList
            },
            TAG_SERVICE_NAME => Tag::ServiceName(value),
            TAG_AC_NAME => Tag::AcName(value),
            TAG_HOST_UNIQ => Tag::HostUniq(value),
            TAG_AC_COOKIE => Tag::AcCookie(value),
            TAG_VENDOR_SPECIFIC => Tag::VendorSpecific(value),
            TAG_RELAY_SESSION_ID => Tag::RelaySessionId(value),
            TAG_SERVICE_NAME_ERROR => Tag::ServiceNameError(value),
            TAG_AC_SYSTEM_ERROR => Tag::AcSystemError(value),
            TAG_GENERIC_ERROR => Tag::GenericError(value),
            TAG_PPP_MAX_PAYLOAD => {
                if length != 6 {
                    return Err(
                        ParseError::TagWithInvalidLength {
                            tag_type: tag,
                            length: value_length,
                        },
                    );
                }
                let mtu = read_u16_at(buffer, 4);
                proof {
                    lemma_u16_bytes_of_window(buffer@, 4);
                }
                Tag::PppMaxMtu(mtu)
            },
            TAG_CREDITS => {
                if length != 8 {
                    return Err(
                        ParseError::TagWithInvalidLength {
                            tag_type: tag,
                            length: value_length,
                        },
                    );
                }
                let fcn = read_u16_at(buffer, 4);
                let bcn = read_u16_at(buffer, 6);
                proof {
                    lemma_u16_bytes_of_window(buffer@, 4);
                    lemma_u16_bytes_of_window(buffer@, 6);
                    assert(buffer@.subrange(4, 8) =~= buffer@.subrange(4, 6) + buffer@.subrange(
                        6,
                        8,
                    ));
                }
                Tag::Credits((fcn, bcn))
            },
            TAG_SEQUENCE_NUMBER => {
                if length != 6 {
                    return Err(
                        ParseError::TagWithInvalidLength {
                            tag_type: tag,
                            length: value_length,
                        },
                    );
                }
                let number = read_u16_at(buffer, 4);
                proof {
                    lemma_u16_bytes_of_window(buffer@, 4);
                }
                Tag::SequenceNumber(number)
            },
            TAG_CREDIT_SCALE_FACTOR => {
                if length != 6 {
                    return Err(
                        ParseError::TagWithInvalidLength {
                            tag_type: tag,
                            length: value_length,
                        },
                    );
                }
                let factor = read_u16_at(buffer, 4);
                proof {
                    lemma_u16_bytes_of_window(buffer@, 4);
                }
                Tag::CreditScaleFactor(factor)
            },
            TAG_METRICS => Tag::Metrics(value),
            _ => Tag::Unknown((tag, value)),
        };
        proof {
            assert(tag_enum@.kind == tag);
            assert(tag_enum@.value == buffer@.subrange(4, length as int));
        }
        Ok((tag_enum, rest))
    }

    /// The tag's type.
    pub fn get_tag_type(&self) -> (kind: u16)
        ensures
            kind == self@.kind,
    {
        match self {
            Tag::EndOfList => TAG_END_OF_LIST,
            Tag::ServiceName(_) => TAG_SERVICE_NAME,
            Tag::AcName(_) => TAG_AC_NAME,
            Tag::HostUniq(_) => TAG_HOST_UNIQ,
            Tag::AcCookie(_) => TAG_AC_COOKIE,
            Tag::VendorSpecific(_) => TAG_VENDOR_SPECIFIC,
            Tag::RelaySessionId(_) => TAG_RELAY_SESSION_ID,
            Tag::ServiceNameError(_) => TAG_SERVICE_NAME_ERROR,
            Tag::AcSystemError(_) => TAG_AC_SYSTEM_ERROR,
            Tag::GenericError(_) => TAG_GENERIC_ERROR,
            Tag::PppMaxMtu(_) => TAG_PPP_MAX_PAYLOAD,
            Tag::Credits(_) => TAG_CREDITS,
            Tag::Metrics(_) => TAG_METRICS,
            Tag::SequenceNumber(_) => TAG_SEQUENCE_NUMBER,
            Tag::CreditScaleFactor(_) => TAG_CREDIT_SCALE_FACTOR,
            Tag::Unknown((tag, _)) => *tag,
        }
    }

    /// The value as text: `None` for a tag without a value or with a number, an
    /// error where the value is not UTF-8.
    pub fn get_message(&self) -> (r: Result<Option<&str>, core::str::Utf8Error>)
        ensures
            self.is_number() || self is Metrics || self@.value.len() == 0 ==> r matches Ok(None),
            !self.is_number() && !(self is Metrics) && self@.value.len() > 0 ==> {
                &&& r is Ok <==> valid_utf8(self@.value)
                &&& r matches Ok(m) ==> m matches Some(text) && text.spec_bytes() == self@.value
            },
    {
        match self {
            Tag::EndOfList => Ok(None),
            Tag::ServiceName(msg)
            | Tag::AcName(msg)
            | Tag::HostUniq(msg)
            | Tag::AcCookie(msg)
            | Tag::VendorSpecific(msg)
            | Tag::RelaySessionId(msg)
            | Tag::ServiceNameError(msg)
            | Tag::AcSystemError(msg)
            | Tag::GenericError(msg)
            | Tag::Unknown((_, msg)) => {
                if msg.len() == 0 {
                    return Ok(None);
                }
                match str_from_utf8(msg) {
                    Ok(text) => Ok(Some(text)),
                    Err(e) => Err(e),
                }
            },
            _ => Ok(None),
        }
    }

    /// The type and the value of a tag whose value is not a number.
    pub fn get_tuple(&self) -> (r: (u16, &[u8]))
        requires
            !self.is_number(),
        ensures
            r.0 == self@.kind,
            r.1@ == self@.value,
    {
        match self {
            Tag::EndOfList => (TAG_END_OF_LIST, &[]),
            Tag::ServiceName(msg) => (TAG_SERVICE_NAME, msg),
            Tag::AcName(msg) => (TAG_AC_NAME, msg),
            Tag::HostUniq(msg) => (TAG_HOST_UNIQ, msg),
            Tag::AcCookie(msg) => (TAG_AC_COOKIE, msg),
            Tag::VendorSpecific(msg) => (TAG_VENDOR_SPECIFIC, msg),
            Tag::RelaySessionId(msg) => (TAG_RELAY_SESSION_ID, msg),
            Tag::ServiceNameError(msg) => (TAG_SERVICE_NAME_ERROR, msg),
            Tag::AcSystemError(msg) => (TAG_AC_SYSTEM_ERROR, msg),
            Tag::GenericError(msg) => (TAG_GENERIC_ERROR, msg),
            Tag::Metrics(msg) => (TAG_METRICS, msg),
            Tag::Unknown((num, msg)) => (*num, msg),
            _ => (TAG_END_OF_LIST, &[]),
        }
    }

    /// The length of the value on the wire.
    pub fn value_len(&self) -> (n: usize)
        ensures
            n == self@.value.len(),
    {
        match self {
            Tag::EndOfList => 0,
            Tag::ServiceName(msg)
            | Tag::AcName(msg)
            | Tag::HostUniq(msg)
            | Tag::AcCookie(msg)
            | Tag::VendorSpecific(msg)
            | Tag::RelaySessionId(msg)
            | Tag::ServiceNameError(msg)
            | Tag::AcSystemError(msg)
            | Tag::GenericError(msg)
            | Tag::Metrics(msg)
            | Tag::Unknown((_, msg)) => msg.len(),
            Tag::Credits(_) => 4,
            Tag::PppMaxMtu(_) | Tag::SequenceNumber(_) | Tag::CreditScaleFactor(_) => 2,
        }
    }

    /// The size that `write` reports where the buffer is too small.
    pub fn requested(&self) -> (n: usize)
        ensures
            n == self.spec_requested(),
    {
        match self {
            Tag::Credits(_) => 8,
            Tag::PppMaxMtu(_) | Tag::SequenceNumber(_) | Tag::CreditScaleFactor(_) => 6,
            _ => self.value_len(),
        }
    }

    /// Writes the value behind the four bytes of type and length.
    fn write_value(&self, buffer: &mut [u8])
        requires
            TAG_HEADER_LEN + self@.value.len() <= old(buffer).len(),
        ensures
            final(buffer)@ == splice(old(buffer)@, TAG_HEADER_LEN as int, self@.value),
    {
        match self {
            Tag::PppMaxMtu(n) | Tag::SequenceNumber(n) | Tag::CreditScaleFactor(n) => {
                write_u16_at(buffer, 4, *n);
            },
            Tag::Credits((fcn, bcn)) => {
                write_u16_at(buffer, 4, *fcn);
                write_u16_at(buffer, 6, *bcn);
                proof {
                    lemma_splice_chain(old(buffer)@, 4, u16_be_bytes(*fcn), u16_be_bytes(*bcn));
                }
            },
            Tag::EndOfList => {
                proof {
                    assert(buffer@ =~= splice(old(buffer)@, 4, Seq::<u8>::empty()));
                }
            },
            Tag::ServiceName(msg)
            | Tag::AcName(msg)
            | Tag::HostUniq(msg)
            | Tag::AcCookie(msg)
            | Tag::VendorSpecific(msg)
            | Tag::RelaySessionId(msg)
            | Tag::ServiceNameError(msg)
            | Tag::AcSystemError(msg)
            | Tag::GenericError(msg)
            | Tag::Metrics(msg)
            | Tag::Unknown((_, msg)) => {
                write_bytes_at(buffer, 4, msg);
            },
        }
    }

    /// Writes the tag at the start of `buffer` and returns the number of bytes
    /// written. A buffer that cannot take the tag is left as it is.
    pub fn write(&self, buffer: &mut [u8]) -> (r: Result<usize, ParseError>)
        ensures
            match r {
                Ok(n) => {
                    &&& self.fits(old(buffer)@.len() as int)
                    &&& n == encode(self@).len()
                    &&& final(buffer)@ == splice(old(buffer)@, 0, encode(self@))
                },
                Err(e) => {
                    &&& !self.fits(old(buffer)@.len() as int)
                    &&& e == ParseError::BufferTooSmallForTag {
                        available: low16(old(buffer)@.len() as int),
                        requested: self.spec_requested() as usize,
                    }
                    &&& final(buffer)@ == old(buffer)@
                },
            },
    {
        let value_len = self.value_len();
        let room = buffer.len();
        if value_len > 0xffff || room < TAG_HEADER_LEN || room - TAG_HEADER_LEN < value_len {
            return Err(
                ParseError::BufferTooSmallForTag {
                    available: low16_of(room),
                    requested: self.requested(),
                },
            );
        }
        let ghost kind_bytes = u16_be_bytes(self@.kind);
        let ghost len_bytes = u16_be_bytes(value_len as u16);
        write_u16_at(buffer, 0, self.get_tag_type());
        write_u16_at(buffer, 2, value_len as u16);
        proof {
            lemma_splice_chain(old(buffer)@, 0, kind_bytes, len_bytes);
        }
        self.write_value(buffer);
        proof {
            lemma_splice_chain(old(buffer)@, 0, kind_bytes + len_bytes, self@.value);
        }
        Ok(TAG_HEADER_LEN + value_len)
    }
}

} // verus!

verus! {

/// The tags of a payload, one after the other.
pub struct TagIterator<'a> {
    pub(crate) payload: &'a [u8],
}

impl<'a> View for TagIterator<'a> {
    type V = Seq<u8>;

    /// The bytes that are still to be read.
    closed spec fn view(&self) -> Seq<u8> {
        self.payload@
    }
}

impl<'a> TagIterator<'a> {
    /// An iterator over the tags in `payload`.
    pub fn new(payload: &'a [u8]) -> (it: TagIterator<'a>)
        ensures
            it@ == payload@,
    {
        TagIterator { payload }
    }

    /// The next tag. The iteration ends with the payload, behind the End-Of-List tag,
    /// and at a tag that cannot be read.
    pub fn next(&mut self) -> (r: Option<Tag<'a>>)
        ensures
            match r {
                Some(tag) => {
                    &&& old(self)@.len() > 0
                    &&& decode(old(self)@) matches Ok((tlv, used))
                    &&& tag@ == tlv
                    &&& tag.wf()
                    &&& final(self)@ == if tlv.kind == TAG_END_OF_LIST {
                        Seq::<u8>::empty()
                    } else {
                        old(self)@.subrange(used, old(self)@.len() as int)
                    }
                    &&& tag_seq(old(self)@) == seq![tag@] + tag_seq(final(self)@)
                },
                None => {
                    &&& old(self)@.len() == 0 || decode(old(self)@) is Err
                    &&& final(self)@.len() == 0
                    &&& tag_seq(old(self)@).len() == 0
                },
            },
    {
        if self.payload.len() == 0 {
            return None;
        }
        match Tag::from_buffer(self.payload) {
            Ok((tag, rest)) => {
                match tag {
                    Tag::EndOfList => {
                        self.payload = &rest[0..0];
                    },
                    _ => {
                        self.payload = rest;
                    },
                }
                proof {
                    assert(tag_seq(final(self)@.take(0)).len() == 0);
                    assert(tag_seq(old(self)@) =~= seq![tag@] + tag_seq(self@));
                }
                Some(tag)
            },
            Err(_) => {
                self.payload = &self.payload[0..0];
                None
            },
        }
    }
}

} // verus!

verus! {

/// Whether a tag can be written and read back: its value fits the 16-bit length, and
/// has the width that its type fixes, where it fixes one.
pub open spec fn valid_tlv(tlv: Tlv) -> bool {
    &&& tlv.value.len() <= 0xffff
    &&& fixed_width(tlv.kind) is Some ==> tlv.value.len() == fixed_width(tlv.kind)->0
}

/// The bytes of a run of tags on the wire, one tag after the other.
pub open spec fn encode_all(tags: Seq<Tlv>) -> Seq<u8>
    decreases tags.len(),
{
    if tags.len() == 0 {
        Seq::empty()
    } else {
        encode(tags[0]) + encode_all(tags.subrange(1, tags.len() as int))
    }
}

/// Whether every tag of a run can be written and read back, and none but the last
/// is the End-Of-List tag.
pub open spec fn valid_run(tags: Seq<Tlv>) -> bool {
    &&& forall|i: int| 0 <= i < tags.len() ==> valid_tlv(#[trigger] tags[i])
    &&& forall|i: int| 0 <= i < tags.len() - 1 ==> (#[trigger] tags[i]).kind != TAG_END_OF_LIST
}

/// A tag that was written is read back as it was, with what follows it left over.
pub proof fn lemma_decode_encode(tlv: Tlv, rest: Seq<u8>)
    requires
        valid_tlv(tlv),
    ensures
        decode(encode(tlv) + rest) == Ok::<_, ParseError>(
            (tlv, TAG_HEADER_LEN + tlv.value.len() as int),
        ),
        (encode(tlv) + rest).subrange(
            TAG_HEADER_LEN + tlv.value.len() as int,
            (encode(tlv) + rest).len() as int,
        ) == rest,
        encode(tlv).len() == TAG_HEADER_LEN + tlv.value.len(),
{
    let buf = encode(tlv) + rest;
    let used = TAG_HEADER_LEN + tlv.value.len() as int;
    crate::wire::lemma_u16_be_roundtrip(tlv.kind);
    crate::wire::lemma_u16_be_roundtrip(tlv.value.len() as u16);
    assert(u16_be(buf, 0) == u16_be(u16_be_bytes(tlv.kind), 0));
    assert(u16_be(buf, 2) == u16_be(u16_be_bytes(tlv.value.len() as u16), 0));
    assert(buf.subrange(TAG_HEADER_LEN as int, used) =~= tlv.value);
    assert(buf.subrange(used, buf.len() as int) =~= rest);
}

/// Writing one more tag behind a run is writing the run with that tag as its last.
pub proof fn lemma_encode_all_push(tags: Seq<Tlv>, tlv: Tlv)
    ensures
        encode_all(tags.push(tlv)) == encode_all(tags) + encode(tlv),
    decreases tags.len(),
{
    let more = tags.push(tlv);
    if tags.len() == 0 {
        assert(more.subrange(1, more.len() as int) =~= Seq::<Tlv>::empty());
        assert(encode_all(more) =~= encode(tlv) + encode_all(Seq::<Tlv>::empty()));
        assert(encode_all(more) =~= encode_all(tags) + encode(tlv));
    } else {
        let tail = tags.subrange(1, tags.len() as int);
        assert(more.subrange(1, more.len() as int) =~= tail.push(tlv));
        lemma_encode_all_push(tail, tlv);
        assert(encode_all(more) =~= encode_all(tags) + encode(tlv));
    }
}

/// Reading the tags of a run that was written gives the run: every tag, in the
/// order in which it was written, the End-Of-List tag too where it is the last.
pub proof fn lemma_tag_seq_of_encoding(tags: Seq<Tlv>)
    requires
        valid_run(tags),
    ensures
        tag_seq(encode_all(tags)) == tags,
    decreases tags.len(),
{
    if tags.len() == 0 {
        assert(tag_seq(encode_all(tags)) =~= tags);
    } else {
        let first = tags[0];
        let others = tags.subrange(1, tags.len() as int);
        let rest = encode_all(others);
        lemma_decode_encode(first, rest);
        assert(valid_run(others)) by {
            assert forall|i: int| 0 <= i < others.len() implies valid_tlv(#[trigger] others[i]) by {
                assert(others[i] == tags[i + 1]);
            }
            assert forall|i: int| 0 <= i < others.len() - 1 implies (#[trigger] others[i]).kind
                != TAG_END_OF_LIST by {
                assert(others[i] == tags[i + 1]);
            }
        }
        lemma_tag_seq_of_encoding(others);
        if first.kind == TAG_END_OF_LIST {
            assert(tags.len() == 1);
            assert(tag_seq(encode_all(tags)) =~= tags);
        } else {
            assert(tag_seq(encode_all(tags)) =~= seq![first] + others);
            assert(seq![first] + others =~= tags);
        }
    }
}

/// Two tags that stand on the wire alike are the same tag, where each is of the
/// variant that its type stands for.
pub proof fn lemma_tag_determined_by_view(a: Tag, b: Tag)
    requires
        a.wf(),
        b.wf(),
        a@ == b@,
    ensures
        a == b,
{
    match (a, b) {
        (Tag::ServiceName(x), Tag::ServiceName(y))
        | (Tag::AcName(x), Tag::AcName(y))
        | (Tag::HostUniq(x), Tag::HostUniq(y))
        | (Tag::AcCookie(x), Tag::AcCookie(y))
        | (Tag::VendorSpecific(x), Tag::VendorSpecific(y))
        | (Tag::RelaySessionId(x), Tag::RelaySessionId(y))
        | (Tag::ServiceNameError(x), Tag::ServiceNameError(y))
        | (Tag::AcSystemError(x), Tag::AcSystemError(y))
        | (Tag::GenericError(x), Tag::GenericError(y))
        | (Tag::Metrics(x), Tag::Metrics(y))
        | (Tag::Unknown((_, x)), Tag::Unknown((_, y))) => {
            assert(x@ == y@);
            assert(x =~= y);
        },
        (Tag::PppMaxMtu(x), Tag::PppMaxMtu(y))
        | (Tag::SequenceNumber(x), Tag::SequenceNumber(y))
        | (Tag::CreditScaleFactor(x), Tag::CreditScaleFactor(y)) => {
            crate::wire::lemma_u16_be_roundtrip(x);
            crate::wire::lemma_u16_be_roundtrip(y);
        },
        (Tag::Credits((x1, x2)), Tag::Credits((y1, y2))) => {
            let xs = u16_be_bytes(x1) + u16_be_bytes(x2);
            let ys = u16_be_bytes(y1) + u16_be_bytes(y2);
            assert(xs[0] == ys[0] && xs[1] == ys[1] && xs[2] == ys[2] && xs[3] == ys[3]);
        },
        _ => {},
    }
}

} // verus!

verus! {

/// Every tag that an iteration yields is one that can be written and read back.
pub proof fn lemma_tag_seq_valid(payload: Seq<u8>)
    ensures
        forall|i: int| 0 <= i < tag_seq(payload).len() ==> valid_tlv(#[trigger] tag_seq(payload)[i]),
    decreases payload.len(),
{
    if payload.len() > 0 {
        match decode(payload) {
            Err(_) => {},
            Ok((tlv, used)) => {
                assert(valid_tlv(tlv));
                if tlv.kind != TAG_END_OF_LIST {
                    let rest = payload.subrange(used, payload.len() as int);
                    lemma_tag_seq_valid(rest);
                    assert forall|i: int| 0 <= i < tag_seq(payload).len() implies valid_tlv(
                        #[trigger] tag_seq(payload)[i],
                    ) by {
                        if i > 0 {
                            assert(tag_seq(payload)[i] == tag_seq(rest)[i - 1]);
                        }
                    }
                }
            },
        }
    }
}

/// The tags that an iteration yields take no more bytes than the payload has.
pub proof fn lemma_tag_seq_len(payload: Seq<u8>)
    ensures
        encode_all(tag_seq(payload)).len() <= payload.len(),
    decreases payload.len(),
{
    let tags = tag_seq(payload);
    if payload.len() == 0 {
        assert(tags.len() == 0);
    } else {
        match decode(payload) {
            Err(_) => {
                assert(tags.len() == 0);
            },
            Ok((tlv, used)) => {
                assert(tlv.value.len() == used - TAG_HEADER_LEN);
                assert(u16_be_bytes(tlv.kind).len() == 2);
                assert(u16_be_bytes(tlv.value.len() as u16).len() == 2);
                assert(encode(tlv).len() == used);
                assert(tags[0] == tlv);
                let others = tags.subrange(1, tags.len() as int);
                assert(encode_all(tags) == encode(tlv) + encode_all(others));
                if tlv.kind != TAG_END_OF_LIST {
                    let rest = payload.subrange(used, payload.len() as int);
                    lemma_tag_seq_len(rest);
                    assert(others =~= tag_seq(rest));
                } else {
                    assert(others.len() == 0);
                }
            },
        }
    }
}

} // verus!
