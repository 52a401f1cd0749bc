use vstd::prelude::*;

verus! {

/// The error of the transport, carried through as it is.
#[verifier::external_type_specification]
#[verifier::external_body]
pub struct ExIoError(std::io::Error);

/// What is wrong with a buffer that was to be read or written as a packet.
#[allow(inconsistent_fields)]
#[derive(Debug, Eq, PartialEq, Clone, Copy, Structural)]
pub enum ParseError {
    /// The buffer is shorter than the header it should hold; for the access-loop
    /// information, shorter than its encoding, whose size is given.
    BufferTooSmall(usize),
    /// A tag does not fit behind the payload written so far.
    BufferTooSmallForTag { available: u16, requested: usize },
    InvalidPppoeVersion(u8),
    InvalidPppoeType(u8),
    InvalidPppoeCode(u8),
    /// The code is a discovery code, but not the one asked for.
    UnexpectedCode(u8),
    /// The length field points behind the end of the buffer.
    PayloadLengthOutOfBound { actual_packet_length: u16, payload_length: u16 },
    /// A tag's length field points behind the end of the payload.
    TagLengthOutOfBound { expected_tag_length: u16, remaining_payload_length: u16 },
    /// Fewer than four bytes are left behind the last whole tag.
    IncompleteTagAtPacketEnd { total_packet_length: u16, left_over_bytes: u16 },
    /// The End-Of-List tag carries a value, or something follows it.
    DataBehindEolTag,
    /// The buffer is too short for the four bytes of a tag's type and length.
    IncompleteTag(u8),
    /// A tag with a value of fixed width has another length.
    TagWithInvalidLength { tag_type: u16, length: u16 },
    InvalidTr101TagLength {
        tag_type: u8,
        expected_min_length: u16,
        expected_max_length: u16,
        actual_length: u16,
    },
    Tr101LengthOutOfBound { remaining_packet_length: u16, requested_tag_length: u16 },
    InvalidTr101Id(u32),
    TagIsNotVendorSpecific,
    InvalidTr101VendorId(u32),
    /// A tag that may occur once occurs again.
    DuplicateTag(u16),
    MissingServiceName,
    MissingAcName,
    ServiceNameMismatch,
    AcNameMismatch,
}

/// An error of the codec or of the transport below it.
#[derive(Debug)]
pub enum Error {
    Io(std::io::Error),
    ParseError(ParseError),
    TODO,
}

impl From<ParseError> for Error {
    fn from(error: ParseError) -> (r: Error) {
        Error::ParseError(error)
    }
}

impl vstd::std_specs::convert::FromSpecImpl<ParseError> for Error {
    open spec fn obeys_from_spec() -> bool {
        true
    }

    open spec fn from_spec(error: ParseError) -> Error {
        Error::ParseError(error)
    }
}

impl From<std::io::Error> for Error {
    fn from(error: std::io::Error) -> (r: Error) {
        Error::Io(error)
    }
}

impl vstd::std_specs::convert::FromSpecImpl<std::io::Error> for Error {
    open spec fn obeys_from_spec() -> bool {
        true
    }

    open spec fn from_spec(error: std::io::Error) -> Error {
        Error::Io(error)
    }
}

impl From<()> for Error {
    fn from(unit: ()) -> (r: Error) {
        Error::TODO
    }
}

impl vstd::std_specs::convert::FromSpecImpl<()> for Error {
    open spec fn obeys_from_spec() -> bool {
        true
    }

    open spec fn from_spec(unit: ()) -> Error {
        Error::TODO
    }
}

} // verus!
