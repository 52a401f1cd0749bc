//! The access-loop information of TR-101: sub-tags inside a Vendor-Specific tag that
//! starts with the vendor id of the Broadband Forum.

use crate::error::ParseError;
use crate::tags::tag::{str_from_utf8, tag_seq, Tag, TagIterator, Tlv, TAG_VENDOR_SPECIFIC};
use crate::wire::{
    lemma_splice_chain, low16, low16_of, read_u32_at, sat16, sat16_of, splice, u32_be, u32_be_bytes, write_bytes_at,
    write_u32_at,
};
use vstd::prelude::*;
use vstd::string::StringSliceAdditionalSpecFns;
use vstd::utf8::valid_utf8;

verus! {

pub const BROADBAND_FORUM_VENDOR_ID: u32 = 0x0DE9;

pub const AGENT_CIRCUIT_ID: u8 = 0x01;

pub const AGENT_REMOTE_ID: u8 = 0x02;

pub const ACTUAL_DATA_RATE_UP: u8 = 0x81;

pub const ACTUAL_DATA_RATE_DOWN: u8 = 0x82;

pub const MINIMUM_DATA_RATE_UP: u8 = 0x83;

pub const MINIMUM_DATA_RATE_DOWN: u8 = 0x84;

pub const ATTAINABLE_DATA_RATE_UP: u8 = 0x85;

pub const ATTAINABLE_DATA_RATE_DOWN: u8 = 0x86;

pub const MAXIMUM_DATA_RATE_UP: u8 = 0x87;

pub const MAXIMUM_DATA_RATE_DOWN: u8 = 0x88;

pub const MINIMUM_DATA_RATE_UP_LOW_POWER: u8 = 0x89;

pub const MINIMUM_DATA_RATE_DOWN_LOW_POWER: u8 = 0x8A;

pub const MAXIMUM_INTERLEAVING_DELAY_UP: u8 = 0x8B;

pub const ACTUAL_INTERLEAVING_DELAY_UP: u8 = 0x8C;

pub const MAXIMUM_INTERLEAVING_DELAY_DOWN: u8 = 0x8D;

pub const ACTUAL_INTERLEAVING_DELAY_DOWN: u8 = 0x8E;

pub const ACCESS_LOOP_ENCAPSULATION: u8 = 0x90;

/// The type that TR-101 gives to the DSL type. No sub-tag of this type is written,
/// and one that is read is passed over like any other that has no field.
pub const DSL_TYPE: u8 = 0x91;

/// The longest circuit or remote id.
pub const MAX_ID_LEN: usize = 63;

/// The size of the encoding without the two ids: the vendor id, the access-loop
/// encapsulation and fourteen rates and delays.
pub const BUFFER_MIN_SIZE: usize = 93;

/// A circuit or remote id of up to 63 bytes, held in place. An empty one stands for
/// none.
#[derive(Clone, Copy, Debug)]
pub struct Identifier {
    len: u8,
    bytes: [u8; 64],
}

impl View for Identifier {
    type V = Seq<u8>;

    closed spec fn view(&self) -> Seq<u8> {
        self.bytes@.take(self.len as int)
    }
}

impl Identifier {
    #[verifier::type_invariant]
    spec fn in_bounds(self) -> bool {
        self.len <= MAX_ID_LEN
    }

    /// No id.
    pub fn empty() -> (id: Identifier)
        ensures
            id@ == Seq::<u8>::empty(),
    {
        Identifier { len: 0, bytes: [0u8; 64] }
    }

    /// The id with these bytes, where they are 63 at most.
    pub fn from_bytes(bytes: &[u8]) -> (r: Option<Identifier>)
        ensures
            r is Some <==> bytes@.len() <= MAX_ID_LEN,
            r matches Some(id) ==> id@ == bytes@,
    {
        if bytes.len() > MAX_ID_LEN {
            None
        } else {
            Some(Identifier::from_short(bytes))
        }
    }

    /// The id with these bytes.
    pub fn from_short(bytes: &[u8]) -> (id: Identifier)
        requires
            bytes@.len() <= MAX_ID_LEN,
        ensures
            id@ == bytes@,
    {
        let len = bytes.len();
        let mut held = [0u8; 64];
        let mut i: usize = 0;
        while i < len
            invariant
                i <= len <= MAX_ID_LEN,
                len == bytes@.len(),
                held@.take(i as int) == bytes@.take(i as int),
            decreases len - i,
        {
            held[i] = bytes[i];
            i += 1;
            proof {
                assert(held@.take(i as int) =~= bytes@.take(i as int));
            }
        }
        proof {
            assert(bytes@.take(len as int) =~= bytes@);
        }
        Identifier { len: len as u8, bytes: held }
    }

    /// The bytes of the id.
    pub fn as_bytes(&self) -> (bytes: &[u8])
        ensures
            bytes@ == self@,
            bytes@.len() <= MAX_ID_LEN,
    {
        proof {
            use_type_invariant(self);
        }
        let all = self.bytes.as_slice();
        let part = &all[0..self.len as usize];
        proof {
            assert(part@ =~= self@);
        }
        part
    }

    /// The number of bytes of the id.
    pub fn len(&self) -> (n: usize)
        ensures
            n == self@.len(),
            n <= MAX_ID_LEN,
    {
        proof {
            use_type_invariant(self);
        }
        self.len as usize
    }
}

/// How the access loop carries its frames.
#[derive(Clone, Copy, Debug)]
pub struct AccessLoopEncapsulation {
    data_link: u8,
    encaps1: u8,
    encaps2: u8,
}

impl View for AccessLoopEncapsulation {
    type V = (u8, u8, u8);

    /// The data link and the two encapsulations.
    closed spec fn view(&self) -> (u8, u8, u8) {
        (self.data_link, self.encaps1, self.encaps2)
    }
}

impl Default for AccessLoopEncapsulation {
    fn default() -> (r: AccessLoopEncapsulation)
        ensures
            r@ == (0u8, 0u8, 0u8),
    {
        AccessLoopEncapsulation { data_link: 0, encaps1: 0, encaps2: 0 }
    }
}

/// What an access node tells about the line of a subscriber.
#[derive(Debug)]
pub struct Tr101Information {
    pub circuit_id: Identifier,
    pub remote_id: Identifier,
    pub act_data_rate_up: u32,
    pub act_data_rate_down: u32,
    pub min_data_rate_up: u32,
    pub min_data_rate_down: u32,
    pub att_data_rate_up: u32,
    pub att_data_rate_down: u32,
    pub max_data_rate_up: u32,
    pub max_data_rate_down: u32,
    pub min_data_rate_up_lp: u32,
    pub min_data_rate_down_lp: u32,
    pub max_interl_delay_up: u32,
    pub act_interl_delay_up: u32,
    pub max_interl_delay_down: u32,
    pub act_interl_delay_down: u32,
    /// Kept beside the rest; it has no sub-tag and is neither written nor read.
    pub dsl_type: u32,
    pub access_loop_encapsulation: AccessLoopEncapsulation,
}

/// The information as plain values.
#[verifier::ext_equal]
pub struct Tr101Model {
    pub circuit_id: Seq<u8>,
    pub remote_id: Seq<u8>,
    pub act_data_rate_up: u32,
    pub act_data_rate_down: u32,
    pub min_data_rate_up: u32,
    pub min_data_rate_down: u32,
    pub att_data_rate_up: u32,
    pub att_data_rate_down: u32,
    pub max_data_rate_up: u32,
    pub max_data_rate_down: u32,
    pub min_data_rate_up_lp: u32,
    pub min_data_rate_down_lp: u32,
    pub max_interl_delay_up: u32,
    pub act_interl_delay_up: u32,
    pub max_interl_delay_down: u32,
    pub act_interl_delay_down: u32,
    pub dsl_type: u32,
    pub access_loop_encapsulation: (u8, u8, u8),
}

impl View for Tr101Information {
    type V = Tr101Model;

    open spec fn view(&self) -> Tr101Model {
        Tr101Model {
            circuit_id: self.circuit_id@,
            remote_id: self.remote_id@,
            act_data_rate_up: self.act_data_rate_up,
            act_data_rate_down: self.act_data_rate_down,
            min_data_rate_up: self.min_data_rate_up,
            min_data_rate_down: self.min_data_rate_down,
            att_data_rate_up: self.att_data_rate_up,
            att_data_rate_down: self.att_data_rate_down,
            max_data_rate_up: self.max_data_rate_up,
            max_data_rate_down: self.max_data_rate_down,
            min_data_rate_up_lp: self.min_data_rate_up_lp,
            min_data_rate_down_lp: self.min_data_rate_down_lp,
            max_interl_delay_up: self.max_interl_delay_up,
            act_interl_delay_up: self.act_interl_delay_up,
            max_interl_delay_down: self.max_interl_delay_down,
            act_interl_delay_down: self.act_interl_delay_down,
            dsl_type: self.dsl_type,
            access_loop_encapsulation: self.access_loop_encapsulation@,
        }
    }
}

/// The information that holds nothing: no ids, every number zero.
pub open spec fn empty_model() -> Tr101Model {
    Tr101Model {
        circuit_id: Seq::empty(),
        remote_id: Seq::empty(),
        act_data_rate_up: 0,
        act_data_rate_down: 0,
        min_data_rate_up: 0,
        min_data_rate_down: 0,
        att_data_rate_up: 0,
        att_data_rate_down: 0,
        max_data_rate_up: 0,
        max_data_rate_down: 0,
        min_data_rate_up_lp: 0,
        min_data_rate_down_lp: 0,
        max_interl_delay_up: 0,
        act_interl_delay_up: 0,
        max_interl_delay_down: 0,
        act_interl_delay_down: 0,
        dsl_type: 0,
        access_loop_encapsulation: (0u8, 0u8, 0u8),
    }
}

/// A sub-tag as it stands on the wire: its type and the bytes of its value.
pub struct SubTlv {
    pub kind: u8,
    pub value: Seq<u8>,
}

/// The bytes of a sub-tag on the wire.
pub open spec fn sub_encode(sub: SubTlv) -> Seq<u8>
    recommends
        sub.value.len() <= 0xff,
{
    seq![sub.kind, sub.value.len() as u8] + sub.value
}

/// The sub-tag of an id, which is left out where there is no id.
pub open spec fn id_tlv(kind: u8, id: Seq<u8>) -> Seq<u8> {
    if id.len() == 0 {
        Seq::empty()
    } else {
        sub_encode(SubTlv { kind, value: id })
    }
}

/// The sub-tag of a rate or a delay.
pub open spec fn rate_tlv(kind: u8, rate: u32) -> Seq<u8> {
    sub_encode(SubTlv { kind, value: u32_be_bytes(rate) })
}

/// The sub-tag of the access-loop encapsulation.
pub open spec fn ale_tlv(ale: (u8, u8, u8)) -> Seq<u8> {
    sub_encode(SubTlv { kind: ACCESS_LOOP_ENCAPSULATION, value: seq![ale.0, ale.1, ale.2] })
}

/// The number of rates and delays.
pub const RATE_COUNT: usize = 14;

/// The rate or delay whose type is `ACTUAL_DATA_RATE_UP + i`.
pub open spec fn rate_of(m: Tr101Model, i: int) -> u32 {
    if i == 0 {
        m.act_data_rate_up
    } else if i == 1 {
        m.act_data_rate_down
    } else if i == 2 {
        m.min_data_rate_up
    } else if i == 3 {
        m.min_data_rate_down
    } else if i == 4 {
        m.att_data_rate_up
    } else if i == 5 {
        m.att_data_rate_down
    } else if i == 6 {
        m.max_data_rate_up
    } else if i == 7 {
        m.max_data_rate_down
    } else if i == 8 {
        m.min_data_rate_up_lp
    } else if i == 9 {
        m.min_data_rate_down_lp
    } else if i == 10 {
        m.max_interl_delay_up
    } else if i == 11 {
        m.act_interl_delay_up
    } else if i == 12 {
        m.max_interl_delay_down
    } else {
        m.act_interl_delay_down
    }
}

/// The sub-tags of the first `count` rates and delays, in the order of their types.
pub open spec fn encode_rates(m: Tr101Model, count: int) -> Seq<u8>
    decreases count,
{
    if count <= 0 {
        Seq::empty()
    } else {
        encode_rates(m, count - 1) + rate_tlv(
            (ACTUAL_DATA_RATE_UP + count - 1) as u8,
            rate_of(m, count - 1),
        )
    }
}

/// The encoding up to the rates and delays: the vendor id, the ids that are there
/// and the access-loop encapsulation.
pub open spec fn encode_head(m: Tr101Model) -> Seq<u8> {
    u32_be_bytes(BROADBAND_FORUM_VENDOR_ID) + id_tlv(AGENT_CIRCUIT_ID, m.circuit_id) + id_tlv(
        AGENT_REMOTE_ID,
        m.remote_id,
    ) + ale_tlv(m.access_loop_encapsulation)
}

/// The value of the Vendor-Specific tag that carries the information: the vendor id,
/// the ids that are there, the access-loop encapsulation, the rates and delays.
pub open spec fn encode(m: Tr101Model) -> Seq<u8> {
    encode_head(m) + encode_rates(m, RATE_COUNT as int)
}

/// The number of bytes of that value.
pub open spec fn encoded_len(m: Tr101Model) -> int {
    BUFFER_MIN_SIZE + (if m.circuit_id.len() == 0 {
        0
    } else {
        2 + m.circuit_id.len()
    }) + (if m.remote_id.len() == 0 {
        0
    } else {
        2 + m.remote_id.len()
    })
}

/// Whether `kind` is the type of a rate or a delay.
pub open spec fn is_rate(kind: u8) -> bool {
    ACTUAL_DATA_RATE_UP <= kind <= ACTUAL_INTERLEAVING_DELAY_DOWN
}

/// The sub-tag at the start of `buf` and the number of bytes it takes, or what is
/// wrong with it.
pub open spec fn sub_decode(buf: Seq<u8>) -> Result<(SubTlv, int), ParseError> {
    if buf.len() < 2 {
        Err(
            ParseError::Tr101LengthOutOfBound {
                remaining_packet_length: low16(buf.len() as int),
                requested_tag_length: 2,
            },
        )
    } else {
        let kind = buf[0];
        let len = buf[1] as int;
        if len + 2 > buf.len() {
            Err(
                ParseError::Tr101LengthOutOfBound {
                    remaining_packet_length: low16(buf.len() as int),
                    requested_tag_length: (len + 2) as u16,
                },
            )
        } else if (kind == AGENT_CIRCUIT_ID || kind == AGENT_REMOTE_ID) && len > MAX_ID_LEN {
            Err(
                ParseError::InvalidTr101TagLength {
                    tag_type: kind,
                    expected_min_length: 1,
                    expected_max_length: 63,
                    actual_length: len as u16,
                },
            )
        } else if is_rate(kind) && len != 4 {
            Err(
                ParseError::InvalidTr101TagLength {
                    tag_type: kind,
                    expected_min_length: 4,
                    expected_max_length: 4,
                    actual_length: len as u16,
                },
            )
        } else {
            Ok((SubTlv { kind, value: buf.subrange(2, len + 2) }, len + 2))
        }
    }
}

/// The information with what one sub-tag says taken in. A sub-tag of another type
/// changes nothing, nor does an access-loop encapsulation that is not three bytes.
pub open spec fn apply(m: Tr101Model, sub: SubTlv) -> Tr101Model {
    let n = u32_be(sub.value, 0);
    if sub.kind == AGENT_CIRCUIT_ID {
        Tr101Model { circuit_id: sub.value, ..m }
    } else if sub.kind == AGENT_REMOTE_ID {
        Tr101Model { remote_id: sub.value, ..m }
    } else if sub.kind == ACTUAL_DATA_RATE_UP {
        Tr101Model { act_data_rate_up: n, ..m }
    } else if sub.kind == ACTUAL_DATA_RATE_DOWN {
        Tr101Model { act_data_rate_down: n, ..m }
    } else if sub.kind == MINIMUM_DATA_RATE_UP {
        Tr101Model { min_data_rate_up: n, ..m }
    } else if sub.kind == MINIMUM_DATA_RATE_DOWN {
        Tr101Model { min_data_rate_down: n, ..m }
    } else if sub.kind == ATTAINABLE_DATA_RATE_UP {
        Tr101Model { att_data_rate_up: n, ..m }
    } else if sub.kind == ATTAINABLE_DATA_RATE_DOWN {
        Tr101Model { att_data_rate_down: n, ..m }
    } else if sub.kind == MAXIMUM_DATA_RATE_UP {
        Tr101Model { max_data_rate_up: n, ..m }
    } else if sub.kind == MAXIMUM_DATA_RATE_DOWN {
        Tr101Model { max_data_rate_down: n, ..m }
    } else if sub.kind == MINIMUM_DATA_RATE_UP_LOW_POWER {
        Tr101Model { min_data_rate_up_lp: n, ..m }
    } else if sub.kind == MINIMUM_DATA_RATE_DOWN_LOW_POWER {
        Tr101Model { min_data_rate_down_lp: n, ..m }
    } else if sub.kind == MAXIMUM_INTERLEAVING_DELAY_UP {
        Tr101Model { max_interl_delay_up: n, ..m }
    } else if sub.kind == ACTUAL_INTERLEAVING_DELAY_UP {
        Tr101Model { act_interl_delay_up: n, ..m }
    } else if sub.kind == MAXIMUM_INTERLEAVING_DELAY_DOWN {
        Tr101Model { max_interl_delay_down: n, ..m }
    } else if sub.kind == ACTUAL_INTERLEAVING_DELAY_DOWN {
        Tr101Model { act_interl_delay_down: n, ..m }
    } else if sub.kind == ACCESS_LOOP_ENCAPSULATION && sub.value.len() == 3 {
        Tr101Model { access_loop_encapsulation: (sub.value[0], sub.value[1], sub.value[2]), ..m }
    } else {
        m
    }
}

/// What `m` becomes when the sub-tags in `buf` are taken in one after the other, or
/// what is wrong with the first sub-tag that cannot be read.
pub open spec fn decode_from(buf: Seq<u8>, m: Tr101Model) -> Result<Tr101Model, ParseError>
    decreases buf.len(),
{
    if buf.len() == 0 {
        Ok(m)
    } else {
        match sub_decode(buf) {
            Err(e) => Err(e),
            Ok((sub, used)) => decode_from(buf.subrange(used, buf.len() as int), apply(m, sub)),
        }
    }
}

/// The information in the value of a Vendor-Specific tag.
pub open spec fn decode(value: Seq<u8>) -> Result<Tr101Model, ParseError> {
    if value.len() < 4 {
        Err(ParseError::IncompleteTag(value.len() as u8))
    } else if u32_be(value, 0) != BROADBAND_FORUM_VENDOR_ID {
        Err(ParseError::InvalidTr101VendorId(u32_be(value, 0)))
    } else {
        decode_from(value.subrange(4, value.len() as int), empty_model())
    }
}

/// The information with these two ids and nothing else, or the error for the id that
/// is too long, the remote id first.
pub open spec fn with_ids(circuit_id: Seq<u8>, remote_id: Seq<u8>) -> Result<
    Tr101Model,
    ParseError,
> {
    if remote_id.len() > MAX_ID_LEN {
        Err(id_too_long(AGENT_REMOTE_ID, remote_id.len() as int))
    } else if circuit_id.len() > MAX_ID_LEN {
        Err(id_too_long(AGENT_CIRCUIT_ID, circuit_id.len() as int))
    } else {
        Ok(Tr101Model { circuit_id, remote_id, ..empty_model() })
    }
}

/// The error for an id of `len` bytes, which is too long.
pub open spec fn id_too_long(kind: u8, len: int) -> ParseError {
    ParseError::InvalidTr101TagLength {
        tag_type: kind,
        expected_min_length: 1,
        expected_max_length: 63,
        actual_length: sat16(len),
    }
}

} // verus!

verus! {

impl Default for Tr101Information {
    fn default() -> (r: Tr101Information)
        ensures
            r@ == empty_model(),
    {
        Tr101Information {
            circuit_id: Identifier::empty(),
            remote_id: Identifier::empty(),
            act_data_rate_up: 0,
            act_data_rate_down: 0,
            min_data_rate_up: 0,
            min_data_rate_down: 0,
            att_data_rate_up: 0,
            att_data_rate_down: 0,
            max_data_rate_up: 0,
            max_data_rate_down: 0,
            min_data_rate_up_lp: 0,
            min_data_rate_down_lp: 0,
            max_interl_delay_up: 0,
            act_interl_delay_up: 0,
            max_interl_delay_down: 0,
            act_interl_delay_down: 0,
            access_loop_encapsulation: AccessLoopEncapsulation::default(),
            dsl_type: 0,
        }
    }
}

/// Writes the sub-tag `kind` with `value` at `at` and returns where it ends.
fn write_sub_tlv(buffer: &mut [u8], at: usize, kind: u8, value: &[u8]) -> (end: usize)
    requires
        value.len() <= 0xff,
        at + 2 + value.len() <= old(buffer).len(),
    ensures
        end == at + 2 + value.len(),
        final(buffer)@ == splice(
            old(buffer)@,
            at as int,
            sub_encode(SubTlv { kind, value: value@ }),
        ),
{
    buffer[at] = kind;
    buffer[at + 1] = value.len() as u8;
    write_bytes_at(buffer, at + 2, value);
    proof {
        assert(buffer@ =~= splice(
            old(buffer)@,
            at as int,
            sub_encode(SubTlv { kind, value: value@ }),
        ));
    }
    at + 2 + value.len()
}

/// Writes the sub-tag of a rate or a delay at `at` and returns where it ends.
fn write_rate(buffer: &mut [u8], at: usize, kind: u8, rate: u32) -> (end: usize)
    requires
        at + 6 <= old(buffer).len(),
    ensures
        end == at + 6,
        final(buffer)@ == splice(old(buffer)@, at as int, rate_tlv(kind, rate)),
{
    buffer[at] = kind;
    buffer[at + 1] = 4;
    write_u32_at(buffer, at + 2, rate);
    proof {
        assert(buffer@ =~= splice(old(buffer)@, at as int, rate_tlv(kind, rate)));
    }
    at + 6
}

/// Each rate or delay takes six bytes.
pub proof fn lemma_encode_rates_len(m: Tr101Model, count: int)
    requires
        0 <= count,
    ensures
        encode_rates(m, count).len() == 6 * count,
    decreases count,
{
    if count > 0 {
        lemma_encode_rates_len(m, count - 1);
    }
}

/// The encoding has the length that `encoded_len` gives.
pub proof fn lemma_encode_len(m: Tr101Model)
    ensures
        encode(m).len() == encoded_len(m),
        encode_head(m).len() + 6 * RATE_COUNT == encoded_len(m),
{
    lemma_encode_rates_len(m, RATE_COUNT as int);
}

impl Tr101Information {
    /// The information with a circuit id and nothing else.
    pub fn with_circuit_id(circuit_id: &str) -> (r: Result<Tr101Information, ParseError>)
        ensures
            match with_ids(circuit_id.spec_bytes(), Seq::empty()) {
                Ok(m) => r matches Ok(info) && info@ == m,
                Err(e) => r matches Err(got) && got == e,
            },
    {
        proof {
            reveal_strlit("");
            assert("".spec_bytes() =~= Seq::<u8>::empty()) by {
                assert(""@ =~= Seq::<char>::empty());
                reveal_with_fuel(vstd::utf8::encode_utf8, 1);
            }
        }
        Self::with_both_ids(circuit_id, "")
    }

    /// The information with a remote id and nothing else.
    pub fn with_remote_id(remote_id: &str) -> (r: Result<Tr101Information, ParseError>)
        ensures
            match with_ids(Seq::empty(), remote_id.spec_bytes()) {
                Ok(m) => r matches Ok(info) && info@ == m,
                Err(e) => r matches Err(got) && got == e,
            },
    {
        proof {
            reveal_strlit("");
            assert("".spec_bytes() =~= Seq::<u8>::empty()) by {
                assert(""@ =~= Seq::<char>::empty());
                reveal_with_fuel(vstd::utf8::encode_utf8, 1);
            }
        }
        Self::with_both_ids("", remote_id)
    }

    /// The information with both ids and nothing else. An id of more than 63 bytes
    /// is refused, the remote id first.
    pub fn with_both_ids(circuit_id: &str, remote_id: &str) -> (r: Result<
        Tr101Information,
        ParseError,
    >)
        ensures
            match with_ids(circuit_id.spec_bytes(), remote_id.spec_bytes()) {
                Ok(m) => r matches Ok(info) && info@ == m,
                Err(e) => r matches Err(got) && got == e,
            },
    {
        let mut tr101: Tr101Information = Tr101Information::default();
        match tr101.set_remote_id(remote_id) {
            Err(e) => {
                return Err(e);
            },
            Ok(()) => {},
        }
        match tr101.set_circuit_id(circuit_id) {
            Err(e) => {
                return Err(e);
            },
            Ok(()) => {},
        }
        Ok(tr101)
    }

    /// The remote id as text, or an error where its bytes are not UTF-8.
    pub fn remote_id(&self) -> (r: Result<&str, core::str::Utf8Error>)
        ensures
            r is Ok <==> valid_utf8(self@.remote_id),
            r matches Ok(text) ==> text.spec_bytes() == self@.remote_id,
    {
        str_from_utf8(self.remote_id.as_bytes())
    }

    /// The circuit id as text, or an error where its bytes are not UTF-8.
    pub fn circuit_id(&self) -> (r: Result<&str, core::str::Utf8Error>)
        ensures
            r is Ok <==> valid_utf8(self@.circuit_id),
            r matches Ok(text) ==> text.spec_bytes() == self@.circuit_id,
    {
        str_from_utf8(self.circuit_id.as_bytes())
    }

    /// Sets the remote id. One of more than 63 bytes is refused and changes nothing;
    /// an empty one takes the id away.
    pub fn set_remote_id(&mut self, remote_id: &str) -> (r: Result<(), ParseError>)
        ensures
            match r {
                Ok(_) => remote_id.spec_bytes().len() <= MAX_ID_LEN && final(self)@
                    =~= (Tr101Model { remote_id: remote_id.spec_bytes(), ..old(self)@ }),
                Err(e) => remote_id.spec_bytes().len() > MAX_ID_LEN && e == id_too_long(
                    AGENT_REMOTE_ID,
                    remote_id.spec_bytes().len() as int,
                ) && final(self)@ == old(self)@,
            },
    {
        let bytes = remote_id.as_bytes();
        match Identifier::from_bytes(bytes) {
            Some(id) => {
                self.remote_id = id;
                Ok(())
            },
            None => Err(
                ParseError::InvalidTr101TagLength {
                    tag_type: AGENT_REMOTE_ID,
                    expected_min_length: 1,
                    expected_max_length: 63,
                    actual_length: sat16_of(bytes.len()),
                },
            ),
        }
    }

    /// Sets the circuit id. One of more than 63 bytes is refused and changes nothing;
    /// an empty one takes the id away.
    pub fn set_circuit_id(&mut self, circuit_id: &str) -> (r: Result<(), ParseError>)
        ensures
            match r {
                Ok(_) => circuit_id.spec_bytes().len() <= MAX_ID_LEN && final(self)@
                    =~= (Tr101Model { circuit_id: circuit_id.spec_bytes(), ..old(self)@ }),
                Err(e) => circuit_id.spec_bytes().len() > MAX_ID_LEN && e == id_too_long(
                    AGENT_CIRCUIT_ID,
                    circuit_id.spec_bytes().len() as int,
                ) && final(self)@ == old(self)@,
            },
    {
        let bytes = circuit_id.as_bytes();
        match Identifier::from_bytes(bytes) {
            Some(id) => {
                self.circuit_id = id;
                Ok(())
            },
            None => Err(
                ParseError::InvalidTr101TagLength {
                    tag_type: AGENT_CIRCUIT_ID,
                    expected_min_length: 1,
                    expected_max_length: 63,
                    actual_length: sat16_of(bytes.len()),
                },
            ),
        }
    }

    /// The rate or delay whose type is `ACTUAL_DATA_RATE_UP + i`.
    pub fn rate(&self, i: usize) -> (n: u32)
        requires
            i < RATE_COUNT,
        ensures
            n == rate_of(self@, i as int),
    {
        match i {
            0 => self.act_data_rate_up,
            1 => self.act_data_rate_down,
            2 => self.min_data_rate_up,
            3 => self.min_data_rate_down,
            4 => self.att_data_rate_up,
            5 => self.att_data_rate_down,
            6 => self.max_data_rate_up,
            7 => self.max_data_rate_down,
            8 => self.min_data_rate_up_lp,
            9 => self.min_data_rate_down_lp,
            10 => self.max_interl_delay_up,
            11 => self.act_interl_delay_up,
            12 => self.max_interl_delay_down,
            _ => self.act_interl_delay_down,
        }
    }

    /// The number of bytes that `write` needs and writes.
    pub fn len(&self) -> (n: usize)
        ensures
            n == encoded_len(self@),
            n == encode(self@).len(),
    {
        proof {
            lemma_encode_len(self@);
        }
        let cid_len = self.circuit_id.len();
        let rid_len = self.remote_id.len();
        let mut n = BUFFER_MIN_SIZE;
        if cid_len != 0 {
            n = n + 2 + cid_len;
        }
        if rid_len != 0 {
            n = n + 2 + rid_len;
        }
        n
    }

    /// Writes the value of the Vendor-Specific tag at the start of `buffer` and
    /// returns its length. A buffer that is too small is left as it is.
    pub fn write(&self, buffer: &mut [u8]) -> (r: Result<usize, ParseError>)
        ensures
            match r {
                Ok(n) => {
                    &&& encoded_len(self@) <= old(buffer)@.len()
                    &&& n == encoded_len(self@)
                    &&& n == encode(self@).len()
                    &&& final(buffer)@ == splice(old(buffer)@, 0, encode(self@))
                },
                Err(e) => {
                    &&& encoded_len(self@) > old(buffer)@.len()
                    &&& e == ParseError::BufferTooSmall(encoded_len(self@) as usize)
                    &&& final(buffer)@ == old(buffer)@
                },
            },
    {
        let required_size = self.len();
        if buffer.len() < required_size {
            return Err(ParseError::BufferTooSmall(required_size));
        }
        let ghost m = self@;
        let ghost start = buffer@;
        proof {
            lemma_encode_len(m);
        }
        let ghost mut done = u32_be_bytes(BROADBAND_FORUM_VENDOR_ID);
        write_u32_at(buffer, 0, BROADBAND_FORUM_VENDOR_ID);
        let mut at: usize = 4;

        let cid = self.circuit_id.as_bytes();
        if cid.len() != 0 {
            at = write_sub_tlv(buffer, at, AGENT_CIRCUIT_ID, cid);
        }
        proof {
            lemma_splice_chain(start, 0, done, id_tlv(AGENT_CIRCUIT_ID, m.circuit_id));
            done = done + id_tlv(AGENT_CIRCUIT_ID, m.circuit_id);
            assert(buffer@ =~= splice(start, 0, done));
        }
        let rid = self.remote_id.as_bytes();
        if rid.len() != 0 {
            at = write_sub_tlv(buffer, at, AGENT_REMOTE_ID, rid);
        }
        proof {
            lemma_splice_chain(start, 0, done, id_tlv(AGENT_REMOTE_ID, m.remote_id));
            done = done + id_tlv(AGENT_REMOTE_ID, m.remote_id);
            assert(buffer@ =~= splice(start, 0, done));
        }
        let ale = [
            self.access_loop_encapsulation.data_link,
            self.access_loop_encapsulation.encaps1,
            self.access_loop_encapsulation.encaps2,
        ];
        at = write_sub_tlv(buffer, at, ACCESS_LOOP_ENCAPSULATION, ale.as_slice());
        proof {
            assert(ale@ =~= seq![
                m.access_loop_encapsulation.0,
                m.access_loop_encapsulation.1,
                m.access_loop_encapsulation.2,
            ]);
            lemma_splice_chain(start, 0, done, ale_tlv(m.access_loop_encapsulation));
            done = done + ale_tlv(m.access_loop_encapsulation);
            assert(done == encode_head(m));
            assert(encode_head(m) + encode_rates(m, 0) =~= encode_head(m));
        }
        let mut i: usize = 0;
        while i < RATE_COUNT
            invariant
                i <= RATE_COUNT,
                m == self@,
                start.len() == buffer@.len(),
                required_size <= buffer.len(),
                required_size == encode_head(m).len() + 6 * RATE_COUNT,
                at == encode_head(m).len() + 6 * i,
                encode_rates(m, i as int).len() == 6 * i,
                buffer@ == splice(start, 0, encode_head(m) + encode_rates(m, i as int)),
            decreases RATE_COUNT - i,
        {
            let ghost before = encode_head(m) + encode_rates(m, i as int);
            let kind = ACTUAL_DATA_RATE_UP + i as u8;
            let rate = self.rate(i);
            at = write_rate(buffer, at, kind, rate);
            proof {
                lemma_splice_chain(start, 0, before, rate_tlv(kind, rate));
                assert(before + rate_tlv(kind, rate) =~= encode_head(m) + encode_rates(
                    m,
                    i + 1,
                ));
            }
            i += 1;
        }
        Ok(required_size)
    }
}

} // verus!

verus! {

/// A sub-tag of the access-loop information. An id is a slice of the buffer the
/// sub-tag was read from.
#[derive(Debug, Clone, Copy)]
pub enum Tr101Tag<'a> {
    CircuitId(&'a [u8]),
    RemoteId(&'a [u8]),
    ActDataRateUp(u32),
    ActDataRateDown(u32),
    MinDataRateUp(u32),
    MinDataRateDown(u32),
    AttDataRateUp(u32),
    AttDataRateDown(u32),
    MaxDataRateUp(u32),
    MaxDataRateDown(u32),
    MinDataRateUpLp(u32),
    MinDataRateDownLp(u32),
    MaxInterlDelayUp(u32),
    ActInterlDelayUp(u32),
    MaxInterlDelayDown(u32),
    ActInterlDelayDown(u32),
    /// The DSL type. Reading gives no such sub-tag; one that is made by hand sets the
    /// DSL type of the information that takes it in.
    DslType(u32),
    AccessLoopEncapsulation(AccessLoopEncapsulation),
    /// A sub-tag that this library does not read, with its type.
    Unknown((u8, &'a [u8])),
}

impl<'a> View for Tr101Tag<'a> {
    type V = SubTlv;

    open spec fn view(&self) -> SubTlv {
        match *self {
            Tr101Tag::CircuitId(v) => SubTlv { kind: AGENT_CIRCUIT_ID, value: v@ },
            Tr101Tag::RemoteId(v) => SubTlv { kind: AGENT_REMOTE_ID, value: v@ },
            Tr101Tag::ActDataRateUp(n) => SubTlv {
                kind: ACTUAL_DATA_RATE_UP,
                value: u32_be_bytes(n),
            },
            Tr101Tag::ActDataRateDown(n) => SubTlv {
                kind: ACTUAL_DATA_RATE_DOWN,
                value: u32_be_bytes(n),
            },
            Tr101Tag::MinDataRateUp(n) => SubTlv {
                kind: MINIMUM_DATA_RATE_UP,
                value: u32_be_bytes(n),
            },
            Tr101Tag::MinDataRateDown(n) => SubTlv {
                kind: MINIMUM_DATA_RATE_DOWN,
                value: u32_be_bytes(n),
            },
            Tr101Tag::AttDataRateUp(n) => SubTlv {
                kind: ATTAINABLE_DATA_RATE_UP,
                value: u32_be_bytes(n),
            },
            Tr101Tag::AttDataRateDown(n) => SubTlv {
                kind: ATTAINABLE_DATA_RATE_DOWN,
                value: u32_be_bytes(n),
            },
            Tr101Tag::MaxDataRateUp(n) => SubTlv {
                kind: MAXIMUM_DATA_RATE_UP,
                value: u32_be_bytes(n),
            },
            Tr101Tag::MaxDataRateDown(n) => SubTlv {
                kind: MAXIMUM_DATA_RATE_DOWN,
                value: u32_be_bytes(n),
            },
            Tr101Tag::MinDataRateUpLp(n) => SubTlv {
                kind: MINIMUM_DATA_RATE_UP_LOW_POWER,
                value: u32_be_bytes(n),
            },
            Tr101Tag::MinDataRateDownLp(n) => SubTlv {
                kind: MINIMUM_DATA_RATE_DOWN_LOW_POWER,
                value: u32_be_bytes(n),
            },
            Tr101Tag::MaxInterlDelayUp(n) => SubTlv {
                kind: MAXIMUM_INTERLEAVING_DELAY_UP,
                value: u32_be_bytes(n),
            },
            Tr101Tag::ActInterlDelayUp(n) => SubTlv {
                kind: ACTUAL_INTERLEAVING_DELAY_UP,
                value: u32_be_bytes(n),
            },
            Tr101Tag::MaxInterlDelayDown(n) => SubTlv {
                kind: MAXIMUM_INTERLEAVING_DELAY_DOWN,
                value: u32_be_bytes(n),
            },
            Tr101Tag::ActInterlDelayDown(n) => SubTlv {
                kind: ACTUAL_INTERLEAVING_DELAY_DOWN,
                value: u32_be_bytes(n),
            },
            Tr101Tag::DslType(n) => SubTlv { kind: DSL_TYPE, value: u32_be_bytes(n) },
            Tr101Tag::AccessLoopEncapsulation(ale) => SubTlv {
                kind: ACCESS_LOOP_ENCAPSULATION,
                value: seq![ale@.0, ale@.1, ale@.2],
            },
            Tr101Tag::Unknown((kind, v)) => SubTlv { kind, value: v@ },
        }
    }
}

impl<'a> Tr101Tag<'a> {
    /// Whether the tag is one that reading gives, of the variant that its type and
    /// its length stand for: an id has 63 bytes at most, `Unknown` holds nothing that
    /// has a variant of its own, and no sub-tag is read as a DSL type.
    pub open spec fn wf(&self) -> bool {
        match *self {
            Tr101Tag::CircuitId(v) | Tr101Tag::RemoteId(v) => v@.len() <= MAX_ID_LEN,
            Tr101Tag::DslType(_) => false,
            Tr101Tag::Unknown((kind, v)) => {
                &&& kind != AGENT_CIRCUIT_ID
                &&& kind != AGENT_REMOTE_ID
                &&& !is_rate(kind)
                &&& !(kind == ACCESS_LOOP_ENCAPSULATION && v@.len() == 3)
            },
            _ => true,
        }
    }
}

/// The sub-tags behind the vendor id, one after the other.
pub struct Tr101TagIterator<'a> {
    buffer: &'a [u8],
}

impl<'a> View for Tr101TagIterator<'a> {
    type V = Seq<u8>;

    /// The bytes that are still to be read.
    closed spec fn view(&self) -> Seq<u8> {
        self.buffer@
    }
}

impl<'a> Tr101TagIterator<'a> {
    /// An iterator over the sub-tags in `buffer`.
    pub fn new(buffer: &'a [u8]) -> (it: Tr101TagIterator<'a>)
        ensures
            it@ == buffer@,
    {
        Tr101TagIterator { buffer }
    }

    /// The rate or delay of type `kind` with the value `rate`.
    fn rate_tag(kind: u8, rate: u32) -> (tag: Tr101Tag<'a>)
        requires
            is_rate(kind),
        ensures
            tag@ == (SubTlv { kind, value: u32_be_bytes(rate) }),
            tag.wf(),
    {
        if kind == ACTUAL_DATA_RATE_UP {
            Tr101Tag::ActDataRateUp(rate)
        } else if kind == ACTUAL_DATA_RATE_DOWN {
            Tr101Tag::ActDataRateDown(rate)
        } else if kind == MINIMUM_DATA_RATE_UP {
            Tr101Tag::MinDataRateUp(rate)
        } else if kind == MINIMUM_DATA_RATE_DOWN {
            Tr101Tag::MinDataRateDown(rate)
        } else if kind == ATTAINABLE_DATA_RATE_UP {
            Tr101Tag::AttDataRateUp(rate)
        } else if kind == ATTAINABLE_DATA_RATE_DOWN {
            Tr101Tag::AttDataRateDown(rate)
        } else if kind == MAXIMUM_DATA_RATE_UP {
            Tr101Tag::MaxDataRateUp(rate)
        } else if kind == MAXIMUM_DATA_RATE_DOWN {
            Tr101Tag::MaxDataRateDown(rate)
        } else if kind == MINIMUM_DATA_RATE_UP_LOW_POWER {
            Tr101Tag::MinDataRateUpLp(rate)
        } else if kind == MINIMUM_DATA_RATE_DOWN_LOW_POWER {
            Tr101Tag::MinDataRateDownLp(rate)
        } else if kind == MAXIMUM_INTERLEAVING_DELAY_UP {
            Tr101Tag::MaxInterlDelayUp(rate)
        } else if kind == ACTUAL_INTERLEAVING_DELAY_UP {
            Tr101Tag::ActInterlDelayUp(rate)
        } else if kind == MAXIMUM_INTERLEAVING_DELAY_DOWN {
            Tr101Tag::MaxInterlDelayDown(rate)
        } else {
            Tr101Tag::ActInterlDelayDown(rate)
        }
    }

    /// The next sub-tag, or what is wrong with it. The iteration ends with the buffer
    /// and behind an error.
    pub fn next(&mut self) -> (r: Option<Result<Tr101Tag<'a>, ParseError>>)
        ensures
            final(self)@.len() <= old(self)@.len(),
            match r {
                None => old(self)@.len() == 0 && final(self)@.len() == 0,
                Some(Ok(tag)) => {
                    &&& old(self)@.len() > 0
                    &&& sub_decode(old(self)@) matches Ok((sub, used))
                    &&& tag@ == sub
                    &&& tag.wf()
                    &&& final(self)@ == old(self)@.subrange(used, old(self)@.len() as int)
                },
                Some(Err(e)) => {
                    &&& old(self)@.len() > 0
                    &&& sub_decode(old(self)@) == Err::<(SubTlv, int), _>(e)
                    &&& final(self)@.len() == 0
                },
            },
    {
        let buffer = self.buffer;
        let remaining = buffer.len();
        if remaining == 0 {
            return None;
        }
        self.buffer = &buffer[0..0];
        if remaining < 2 {
            return Some(
                Err(
                    ParseError::Tr101LengthOutOfBound {
                        remaining_packet_length: low16_of(remaining),
                        requested_tag_length: 2,
                    },
                ),
            );
        }
        let tag_type = buffer[0];
        let length = buffer[1] as usize;
        let tag_length = length + 2;
        if tag_length > remaining {
            return Some(
                Err(
                    ParseError::Tr101LengthOutOfBound {
                        remaining_packet_length: low16_of(remaining),
                        requested_tag_length: tag_length as u16,
                    },
                ),
            );
        }
        let value = &buffer[2..tag_length];
        let tag = if tag_type == AGENT_CIRCUIT_ID || tag_type == AGENT_REMOTE_ID {
            if length > MAX_ID_LEN {
                return Some(
                    Err(
                        ParseError::InvalidTr101TagLength {
                            tag_type,
                            expected_min_length: 1,
                            expected_max_length: 63,
                            actual_length: length as u16,
                        },
                    ),
                );
            }
            if tag_type == AGENT_CIRCUIT_ID {
                Tr101Tag::CircuitId(value)
            } else {
                Tr101Tag::RemoteId(value)
            }
        } else if ACTUAL_DATA_RATE_UP <= tag_type && tag_type <= ACTUAL_INTERLEAVING_DELAY_DOWN {
            if length != 4 {
                return Some(
                    Err(
                        ParseError::InvalidTr101TagLength {
                            tag_type,
                            expected_min_length: 4,
                            expected_max_length: 4,
                            actual_length: length as u16,
                        },
                    ),
                );
            }
            proof {
                crate::wire::lemma_u32_bytes_of_window(buffer@, 2);
            }
            Self::rate_tag(tag_type, read_u32_at(buffer, 2))
        } else if tag_type == ACCESS_LOOP_ENCAPSULATION && length == 3 {
            proof {
                assert(value@ =~= seq![value@[0], value@[1], value@[2]]);
            }
            Tr101Tag::AccessLoopEncapsulation(
                AccessLoopEncapsulation {
                    data_link: value[0],
                    encaps1: value[1],
                    encaps2: value[2],
                },
            )
        } else {
            Tr101Tag::Unknown((tag_type, value))
        };
        self.buffer = &buffer[tag_length..remaining];
        Some(Ok(tag))
    }
}

} // verus!

verus! {

/// The information with what one sub-tag says taken in: a DSL type sets the DSL
/// type, every other sub-tag does what `apply` says of it as it stands on the wire.
pub open spec fn taken(m: Tr101Model, tag: Tr101Tag) -> Tr101Model {
    match tag {
        Tr101Tag::DslType(n) => Tr101Model { dsl_type: n, ..m },
        _ => apply(m, tag@),
    }
}

/// The information in a tag, which must be a Vendor-Specific one.
pub open spec fn decode_tag(tag: Tag) -> Result<Tr101Model, ParseError> {
    if tag is VendorSpecific {
        decode(tag@.value)
    } else {
        Err(ParseError::TagIsNotVendorSpecific)
    }
}

/// The first access-loop information among `tags`: that of the first Vendor-Specific
/// tag whose value can be read as one.
pub open spec fn first_information(tags: Seq<Tlv>) -> Option<Tr101Model>
    decreases tags.len(),
{
    if tags.len() == 0 {
        None
    } else if tags[0].kind == TAG_VENDOR_SPECIFIC && decode(tags[0].value) is Ok {
        Some(decode(tags[0].value)->Ok_0)
    } else {
        first_information(tags.subrange(1, tags.len() as int))
    }
}

impl Tr101Information {
    /// Takes in what one sub-tag says, as `taken` gives it.
    pub fn take(&mut self, tag: Tr101Tag)
        requires
            tag.wf() || tag is DslType,
        ensures
            final(self)@ == taken(old(self)@, tag),
    {
        proof {
            crate::wire::lemma_u32_be_roundtrip(u32_be(tag@.value, 0));
        }
        match tag {
            Tr101Tag::CircuitId(cid) => {
                self.circuit_id = Identifier::from_short(cid);
            },
            Tr101Tag::RemoteId(rid) => {
                self.remote_id = Identifier::from_short(rid);
            },
            Tr101Tag::ActDataRateUp(rate) => {
                proof {
                    crate::wire::lemma_u32_be_roundtrip(rate);
                }
                self.act_data_rate_up = rate;
            },
            Tr101Tag::ActDataRateDown(rate) => {
                proof {
                    crate::wire::lemma_u32_be_roundtrip(rate);
                }
                self.act_data_rate_down = rate;
            },
            Tr101Tag::MinDataRateUp(rate) => {
                proof {
                    crate::wire::lemma_u32_be_roundtrip(rate);
                }
                self.min_data_rate_up = rate;
            },
            Tr101Tag::MinDataRateDown(rate) => {
                proof {
                    crate::wire::lemma_u32_be_roundtrip(rate);
                }
                self.min_data_rate_down = rate;
            },
            Tr101Tag::AttDataRateUp(rate) => {
                proof {
                    crate::wire::lemma_u32_be_roundtrip(rate);
                }
                self.att_data_rate_up = rate;
            },
            Tr101Tag::AttDataRateDown(rate) => {
                proof {
                    crate::wire::lemma_u32_be_roundtrip(rate);
                }
                self.att_data_rate_down = rate;
            },
            Tr101Tag::MaxDataRateUp(rate) => {
                proof {
                    crate::wire::lemma_u32_be_roundtrip(rate);
                }
                self.max_data_rate_up = rate;
            },
            Tr101Tag::MaxDataRateDown(rate) => {
                proof {
                    crate::wire::lemma_u32_be_roundtrip(rate);
                }
                self.max_data_rate_down = rate;
            },
            Tr101Tag::MinDataRateUpLp(rate) => {
                proof {
                    crate::wire::lemma_u32_be_roundtrip(rate);
                }
                self.min_data_rate_up_lp = rate;
            },
            Tr101Tag::MinDataRateDownLp(rate) => {
                proof {
                    crate::wire::lemma_u32_be_roundtrip(rate);
                }
                self.min_data_rate_down_lp = rate;
            },
            Tr101Tag::MaxInterlDelayUp(rate) => {
                proof {
                    crate::wire::lemma_u32_be_roundtrip(rate);
                }
                self.max_interl_delay_up = rate;
            },
            Tr101Tag::ActInterlDelayUp(rate) => {
                proof {
                    crate::wire::lemma_u32_be_roundtrip(rate);
                }
                self.act_interl_delay_up = rate;
            },
            Tr101Tag::MaxInterlDelayDown(rate) => {
                proof {
                    crate::wire::lemma_u32_be_roundtrip(rate);
                }
                self.max_interl_delay_down = rate;
            },
            Tr101Tag::ActInterlDelayDown(rate) => {
                proof {
                    crate::wire::lemma_u32_be_roundtrip(rate);
                }
                self.act_interl_delay_down = rate;
            },
            Tr101Tag::DslType(dsl_type) => {
                self.dsl_type = dsl_type;
            },
            Tr101Tag::AccessLoopEncapsulation(ale) => {
                self.access_loop_encapsulation = ale;
            },
            Tr101Tag::Unknown(_) => {},
        }
        proof {
            assert(self@ =~= taken(old(self)@, tag));
        }
    }
}

impl<'a> TryFrom<Tag<'a>> for Tr101Information {
    type Error = ParseError;

    /// Reads the information from a Vendor-Specific tag.
    fn try_from(tag: Tag<'a>) -> (r: Result<Tr101Information, ParseError>)
        ensures
            match decode_tag(tag) {
                Ok(m) => r matches Ok(info) && info@ == m,
                Err(e) => r matches Err(got) && got == e,
            },
    {
        if let Tag::VendorSpecific(buffer) = tag {
            if buffer.len() < 4 {
                return Err(ParseError::IncompleteTag(buffer.len() as u8));
            }
            let vendor_id = read_u32_at(buffer, 0);
            if vendor_id != BROADBAND_FORUM_VENDOR_ID {
                return Err(ParseError::InvalidTr101VendorId(vendor_id));
            }
            let mut info = Tr101Information::default();
            let mut tr_iter = Tr101TagIterator::new(&buffer[4..buffer.len()]);
            loop
                invariant
                    decode_tag(tag) == decode_from(tr_iter@, info@),
                decreases tr_iter@.len(),
            {
                match tr_iter.next() {
                    None => {
                        return Ok(info);
                    },
                    Some(Err(e)) => {
                        return Err(e);
                    },
                    Some(Ok(tr_tag)) => {
                        info.take(tr_tag);
                    },
                }
            }
        }
        Err(ParseError::TagIsNotVendorSpecific)
    }
}

/// What comes out is stated by its view, in the clauses of `try_from` itself: no
/// spec function gives it as a value, for an id has bytes in store that it does not
/// use and that no contract speaks of.
impl<'a> vstd::std_specs::convert::TryFromSpecImpl<Tag<'a>> for Tr101Information {
    open spec fn obeys_try_from_spec() -> bool {
        false
    }

    open spec fn try_from_spec(tag: Tag<'a>) -> Result<Tr101Information, ParseError> {
        Err(ParseError::TagIsNotVendorSpecific)
    }
}

impl<'a> TryFrom<TagIterator<'a>> for Tr101Information {
    type Error = ();

    /// Reads the information from the first tag that holds it.
    fn try_from(tag_iterator: TagIterator<'a>) -> (r: Result<Tr101Information, ()>)
        ensures
            match first_information(tag_seq(tag_iterator@)) {
                Some(m) => r matches Ok(info) && info@ == m,
                None => r is Err,
            },
    {
        let mut tags = tag_iterator;
        loop
            invariant
                first_information(tag_seq(tag_iterator@)) == first_information(tag_seq(tags@)),
            decreases tag_seq(tags@).len(),
        {
            match tags.next() {
                None => {
                    return Err(());
                },
                Some(tag) => {
                    proof {
                        let all = seq![tag@] + tag_seq(tags@);
                        assert(all.subrange(1, all.len() as int) =~= tag_seq(tags@));
                    }
                    match Tr101Information::try_from(tag) {
                        Ok(info) => {
                            return Ok(info);
                        },
                        Err(_) => {},
                    }
                },
            }
        }
    }
}

/// What comes out is stated by its view, in the clauses of `try_from` itself.
impl<'a> vstd::std_specs::convert::TryFromSpecImpl<TagIterator<'a>> for Tr101Information {
    open spec fn obeys_try_from_spec() -> bool {
        false
    }

    open spec fn try_from_spec(tags: TagIterator<'a>) -> Result<Tr101Information, ()> {
        Err(())
    }
}

} // verus!

verus! {

/// Whether a sub-tag can be written and read back: its value fits the length byte,
/// an id has 63 bytes at most, a rate or delay has four.
pub open spec fn sub_valid(sub: SubTlv) -> bool {
    &&& sub.value.len() <= 0xff
    &&& (sub.kind == AGENT_CIRCUIT_ID || sub.kind == AGENT_REMOTE_ID) ==> sub.value.len()
        <= MAX_ID_LEN
    &&& is_rate(sub.kind) ==> sub.value.len() == 4
}

/// A sub-tag that was written is read back as it was, with what follows it left over.
pub proof fn lemma_sub_decode_encode(sub: SubTlv, rest: Seq<u8>)
    requires
        sub_valid(sub),
    ensures
        sub_decode(sub_encode(sub) + rest) == Ok::<_, ParseError>(
            (sub, 2 + sub.value.len() as int),
        ),
        (sub_encode(sub) + rest).subrange(
            2 + sub.value.len() as int,
            (sub_encode(sub) + rest).len() as int,
        ) == rest,
{
    let buf = sub_encode(sub) + rest;
    assert(buf.subrange(2, 2 + sub.value.len() as int) =~= sub.value);
    assert(buf.subrange(2 + sub.value.len() as int, buf.len() as int) =~= rest);
}

/// Reading sub-tags from a buffer that starts with a written sub-tag takes that
/// sub-tag in and goes on behind it.
pub proof fn lemma_decode_step(sub: SubTlv, rest: Seq<u8>, m: Tr101Model)
    requires
        sub_valid(sub),
    ensures
        decode_from(sub_encode(sub) + rest, m) == decode_from(rest, apply(m, sub)),
{
    lemma_sub_decode_encode(sub, rest);
}

/// `into` with the first `count` rates and delays of `from`.
pub open spec fn with_rates(into: Tr101Model, from: Tr101Model, count: int) -> Tr101Model
    decreases count,
{
    if count <= 0 {
        into
    } else {
        apply(
            with_rates(into, from, count - 1),
            SubTlv {
                kind: (ACTUAL_DATA_RATE_UP + count - 1) as u8,
                value: u32_be_bytes(rate_of(from, count - 1)),
            },
        )
    }
}

/// Reading the written rates and delays takes them in, one after the other.
proof fn lemma_decode_rates(from: Tr101Model, count: int, rest: Seq<u8>, into: Tr101Model)
    requires
        0 <= count <= RATE_COUNT,
    ensures
        decode_from(encode_rates(from, count) + rest, into) == decode_from(
            rest,
            with_rates(into, from, count),
        ),
    decreases count,
{
    if count == 0 {
        assert(encode_rates(from, 0) + rest =~= rest);
    } else {
        let sub = SubTlv {
            kind: (ACTUAL_DATA_RATE_UP + count - 1) as u8,
            value: u32_be_bytes(rate_of(from, count - 1)),
        };
        assert(encode_rates(from, count) + rest =~= encode_rates(from, count - 1) + (sub_encode(
            sub,
        ) + rest));
        lemma_decode_rates(from, count - 1, sub_encode(sub) + rest, into);
        lemma_decode_step(sub, rest, with_rates(into, from, count - 1));
    }
}

/// Taking in all the rates and delays of `from` leaves the rest of `into` alone.
proof fn lemma_with_all_rates(into: Tr101Model, from: Tr101Model)
    ensures
        with_rates(into, from, RATE_COUNT as int) == (Tr101Model {
            circuit_id: into.circuit_id,
            remote_id: into.remote_id,
            dsl_type: into.dsl_type,
            access_loop_encapsulation: into.access_loop_encapsulation,
            ..from
        }),
{
    crate::wire::lemma_u32_be_roundtrip(from.act_data_rate_up);
    crate::wire::lemma_u32_be_roundtrip(from.act_data_rate_down);
    crate::wire::lemma_u32_be_roundtrip(from.min_data_rate_up);
    crate::wire::lemma_u32_be_roundtrip(from.min_data_rate_down);
    crate::wire::lemma_u32_be_roundtrip(from.att_data_rate_up);
    crate::wire::lemma_u32_be_roundtrip(from.att_data_rate_down);
    crate::wire::lemma_u32_be_roundtrip(from.max_data_rate_up);
    crate::wire::lemma_u32_be_roundtrip(from.max_data_rate_down);
    crate::wire::lemma_u32_be_roundtrip(from.min_data_rate_up_lp);
    crate::wire::lemma_u32_be_roundtrip(from.min_data_rate_down_lp);
    crate::wire::lemma_u32_be_roundtrip(from.max_interl_delay_up);
    crate::wire::lemma_u32_be_roundtrip(from.act_interl_delay_up);
    crate::wire::lemma_u32_be_roundtrip(from.max_interl_delay_down);
    crate::wire::lemma_u32_be_roundtrip(from.act_interl_delay_down);
    reveal_with_fuel(with_rates, 15);
}

/// Reading a written id takes it in; an id that is not there is not written and
/// leaves the one that was there.
proof fn lemma_decode_id(kind: u8, id: Seq<u8>, rest: Seq<u8>, m: Tr101Model)
    requires
        kind == AGENT_CIRCUIT_ID || kind == AGENT_REMOTE_ID,
        id.len() <= MAX_ID_LEN,
    ensures
        decode_from(id_tlv(kind, id) + rest, m) == decode_from(
            rest,
            if id.len() == 0 {
                m
            } else {
                apply(m, SubTlv { kind, value: id })
            },
        ),
{
    if id.len() == 0 {
        assert(id_tlv(kind, id) + rest =~= rest);
    } else {
        lemma_decode_step(SubTlv { kind, value: id }, rest, m);
    }
}

/// Reading back what was written gives what was written: the two ids, the
/// access-loop encapsulation, the rates and the delays. (The DSL type is not
/// written, and reads as zero.)
pub proof fn lemma_write_read_roundtrip(m: Tr101Model)
    requires
        m.circuit_id.len() <= MAX_ID_LEN,
        m.remote_id.len() <= MAX_ID_LEN,
    ensures
        decode(encode(m)) == Ok::<_, ParseError>(Tr101Model { dsl_type: 0, ..m }),
{
    let e = empty_model();
    let vendor = u32_be_bytes(BROADBAND_FORUM_VENDOR_ID);
    let cid = id_tlv(AGENT_CIRCUIT_ID, m.circuit_id);
    let rid = id_tlv(AGENT_REMOTE_ID, m.remote_id);
    let ale_sub = SubTlv {
        kind: ACCESS_LOOP_ENCAPSULATION,
        value: seq![
            m.access_loop_encapsulation.0,
            m.access_loop_encapsulation.1,
            m.access_loop_encapsulation.2,
        ],
    };
    let rates = encode_rates(m, RATE_COUNT as int);
    let empty = Seq::<u8>::empty();
    let all = encode(m);
    crate::wire::lemma_u32_be_roundtrip(BROADBAND_FORUM_VENDOR_ID);
    assert(u32_be(all, 0) == u32_be(vendor, 0));
    let body = all.subrange(4, all.len() as int);
    assert(body =~= cid + (rid + (sub_encode(ale_sub) + (rates + empty))));
    let m1 = if m.circuit_id.len() == 0 {
        e
    } else {
        apply(e, SubTlv { kind: AGENT_CIRCUIT_ID, value: m.circuit_id })
    };
    lemma_decode_id(
        AGENT_CIRCUIT_ID,
        m.circuit_id,
        rid + (sub_encode(ale_sub) + (rates + empty)),
        e,
    );
    let m2 = if m.remote_id.len() == 0 {
        m1
    } else {
        apply(m1, SubTlv { kind: AGENT_REMOTE_ID, value: m.remote_id })
    };
    lemma_decode_id(AGENT_REMOTE_ID, m.remote_id, sub_encode(ale_sub) + (rates + empty), m1);
    let m3 = apply(m2, ale_sub);
    lemma_decode_step(ale_sub, rates + empty, m2);
    lemma_decode_rates(m, RATE_COUNT as int, empty, m3);
    lemma_with_all_rates(m3, m);
    assert(with_rates(m3, m, RATE_COUNT as int) =~= (Tr101Model { dsl_type: 0, ..m }));
}

} // verus!
