use pppoe::error::ParseError;
use pppoe::header::Header;
use pppoe::tags::tag::TagIterator;
use pppoe::tags::tr101::{Identifier, Tr101Information, Tr101Tag, Tr101TagIterator};
use pppoe::Tag;

fn info_with_numbers() -> Tr101Information {
    let mut info = Tr101Information::with_both_ids("circuit", "remote").unwrap();
    info.act_data_rate_up = 1_000_000;
    info.act_data_rate_down = 0x0102_0304;
    info.min_data_rate_up = 3;
    info.min_data_rate_down = 4;
    info.att_data_rate_up = 5;
    info.att_data_rate_down = 6;
    info.max_data_rate_up = 7;
    info.max_data_rate_down = 8;
    info.min_data_rate_up_lp = 9;
    info.min_data_rate_down_lp = 10;
    info.max_interl_delay_up = 11;
    info.act_interl_delay_up = 12;
    info.max_interl_delay_down = 13;
    info.act_interl_delay_down = u32::MAX;
    info
}

#[test]
fn default_information_is_empty() {
    let info = Tr101Information::default();
    assert_eq!(info.circuit_id(), Ok(""));
    assert_eq!(info.remote_id(), Ok(""));
    assert_eq!(info.len(), 93);
    for i in 0..14 {
        assert_eq!(info.rate(i), 0);
    }
    assert_eq!(info.dsl_type, 0);
}

#[test]
fn constructors_set_the_ids() {
    let info = Tr101Information::with_circuit_id("cid").unwrap();
    assert_eq!(info.circuit_id(), Ok("cid"));
    assert_eq!(info.remote_id(), Ok(""));
    let info = Tr101Information::with_remote_id("rid").unwrap();
    assert_eq!(info.circuit_id(), Ok(""));
    assert_eq!(info.remote_id(), Ok("rid"));
    let info = Tr101Information::with_both_ids("cid", "rid").unwrap();
    assert_eq!(info.circuit_id(), Ok("cid"));
    assert_eq!(info.remote_id(), Ok("rid"));
    assert_eq!(info.act_data_rate_up, 0);
}

#[test]
fn ids_have_63_bytes_at_most() {
    let fits = "x".repeat(63);
    let long = "x".repeat(64);
    let longer = "y".repeat(70_000);
    let mut info = Tr101Information::with_both_ids(&fits, &fits).unwrap();
    assert_eq!(info.len(), 93 + 65 + 65);
    assert_eq!(
        info.set_circuit_id(&long),
        Err(ParseError::InvalidTr101TagLength {
            tag_type: 0x01,
            expected_min_length: 1,
            expected_max_length: 63,
            actual_length: 64
        })
    );
    assert_eq!(
        info.set_remote_id(&longer),
        Err(ParseError::InvalidTr101TagLength {
            tag_type: 0x02,
            expected_min_length: 1,
            expected_max_length: 63,
            actual_length: u16::MAX
        })
    );
    // a refused id changes nothing
    assert_eq!(info.circuit_id(), Ok(fits.as_str()));
    assert_eq!(info.remote_id(), Ok(fits.as_str()));
    // the remote id is judged first
    assert_eq!(
        Tr101Information::with_both_ids(&long, &longer).unwrap_err(),
        ParseError::InvalidTr101TagLength {
            tag_type: 0x02,
            expected_min_length: 1,
            expected_max_length: 63,
            actual_length: u16::MAX
        }
    );
    assert_eq!(
        Tr101Information::with_circuit_id(&long).unwrap_err(),
        ParseError::InvalidTr101TagLength {
            tag_type: 0x01,
            expected_min_length: 1,
            expected_max_length: 63,
            actual_length: 64
        }
    );
    assert_eq!(
        Tr101Information::with_remote_id(&long).unwrap_err(),
        ParseError::InvalidTr101TagLength {
            tag_type: 0x02,
            expected_min_length: 1,
            expected_max_length: 63,
            actual_length: 64
        }
    );
    // an empty id takes the id away
    info.set_circuit_id("").unwrap();
    assert_eq!(info.circuit_id(), Ok(""));
    assert_eq!(info.len(), 93 + 65);
}

#[test]
fn identifier_holds_its_bytes() {
    assert_eq!(Identifier::empty().as_bytes(), &[0u8; 0]);
    assert_eq!(Identifier::empty().len(), 0);
    let id = Identifier::from_bytes(b"abc").unwrap();
    assert_eq!(id.as_bytes(), b"abc");
    assert_eq!(id.len(), 3);
    assert!(Identifier::from_bytes(&[0u8; 64]).is_none());
    assert_eq!(Identifier::from_bytes(&[7u8; 63]).unwrap().as_bytes(), &[7u8; 63]);
    assert_eq!(Identifier::from_short(b"xy").as_bytes(), b"xy");
}

#[test]
fn written_bytes() {
    let mut info = Tr101Information::with_circuit_id("ab").unwrap();
    info.act_data_rate_up = 1_000_000;
    info.act_interl_delay_down = 0x0a0b0c0d;
    assert_eq!(info.len(), 97);
    let mut buffer = [0xeeu8; 100];
    assert_eq!(info.write(&mut buffer), Ok(97));
    let mut expected = vec![0x00, 0x00, 0x0d, 0xe9];
    expected.extend_from_slice(&[0x01, 0x02, b'a', b'b']);
    expected.extend_from_slice(&[0x90, 0x03, 0, 0, 0]);
    expected.extend_from_slice(&[0x81, 0x04, 0x00, 0x0f, 0x42, 0x40]);
    for kind in 0x82..=0x8du8 {
        expected.extend_from_slice(&[kind, 0x04, 0, 0, 0, 0]);
    }
    expected.extend_from_slice(&[0x8e, 0x04, 0x0a, 0x0b, 0x0c, 0x0d]);
    expected.extend_from_slice(&[0xee, 0xee, 0xee]);
    assert_eq!(&buffer[..], &expected[..]);
}

#[test]
fn written_bytes_with_both_ids() {
    let info = Tr101Information::with_both_ids("circuit", "remote").unwrap();
    assert_eq!(info.len(), 110);
    let mut buffer = [0u8; 110];
    assert_eq!(info.write(&mut buffer), Ok(110));
    assert_eq!(
        &buffer[..26],
        &[
            0x00, 0x00, 0x0d, 0xe9, 0x01, 0x07, b'c', b'i', b'r', b'c', b'u', b'i', b't', 0x02,
            0x06, b'r', b'e', b'm', b'o', b't', b'e', 0x90, 0x03, 0, 0, 0
        ]
    );
    assert_eq!(&buffer[26..28], &[0x81, 0x04]);
    assert_eq!(&buffer[104..], &[0x8e, 0x04, 0, 0, 0, 0]);
}

#[test]
fn write_needs_the_whole_length() {
    let info = Tr101Information::default();
    let mut buffer = [0xeeu8; 92];
    assert_eq!(info.write(&mut buffer), Err(ParseError::BufferTooSmall(93)));
    assert_eq!(buffer, [0xee; 92]);
    let info = Tr101Information::with_both_ids("circuit", "remote").unwrap();
    let mut buffer = [0xeeu8; 109];
    assert_eq!(info.write(&mut buffer), Err(ParseError::BufferTooSmall(110)));
    assert_eq!(info.write(&mut buffer[..0]), Err(ParseError::BufferTooSmall(110)));
    assert_eq!(buffer, [0xee; 109]);
}

#[test]
fn round_trip() {
    let info = info_with_numbers();
    let mut buffer = [0u8; 256];
    let len = info.write(&mut buffer).unwrap();
    assert_eq!(len, 110);
    let read = Tr101Information::try_from(Tag::VendorSpecific(&buffer[..len])).unwrap();
    assert_eq!(read.circuit_id(), Ok("circuit"));
    assert_eq!(read.remote_id(), Ok("remote"));
    assert_eq!(read.act_data_rate_up, 1_000_000);
    assert_eq!(read.act_data_rate_down, 0x0102_0304);
    assert_eq!(read.min_data_rate_up, 3);
    assert_eq!(read.min_data_rate_down, 4);
    assert_eq!(read.att_data_rate_up, 5);
    assert_eq!(read.att_data_rate_down, 6);
    assert_eq!(read.max_data_rate_up, 7);
    assert_eq!(read.max_data_rate_down, 8);
    assert_eq!(read.min_data_rate_up_lp, 9);
    assert_eq!(read.min_data_rate_down_lp, 10);
    assert_eq!(read.max_interl_delay_up, 11);
    assert_eq!(read.act_interl_delay_up, 12);
    assert_eq!(read.max_interl_delay_down, 13);
    assert_eq!(read.act_interl_delay_down, u32::MAX);
    for i in 0..14 {
        assert_eq!(read.rate(i), info.rate(i));
    }
}

#[test]
fn round_trip_through_a_packet() {
    let buffer = &mut [0u8; 256];
    {
        let mut header = Header::create_padi(buffer).unwrap();
        header.add_tag(Tag::ServiceName(b"")).unwrap();
        header
            .add_vendor_tag_with_callback(|buffer| {
                let mut info = Tr101Information::with_both_ids("circuit", "remote")?;
                info.act_data_rate_up = 1_000_000;
                info.write(buffer)
            })
            .unwrap();
        header.add_tag(Tag::EndOfList).unwrap();
        assert_eq!(header.len(), 6 + 4 + 4 + 110 + 4);
    }
    let header = Header::from_buffer(buffer).unwrap();
    let mut tags = header.tag_iter();
    assert_eq!(tags.next(), Some(Tag::ServiceName(b"")));
    let vendor = tags.next().unwrap();
    assert_eq!(vendor.get_tag_type(), 0x0105);
    assert_eq!(vendor.value_len(), 110);
    let info = Tr101Information::try_from(vendor).unwrap();
    assert_eq!(info.circuit_id(), Ok("circuit"));
    assert_eq!(info.remote_id(), Ok("remote"));
    assert_eq!(info.act_data_rate_up, 1_000_000);
    assert_eq!(info.act_data_rate_down, 0);
    // and from the tags of the packet
    let info = Tr101Information::try_from(header.tag_iter()).unwrap();
    assert_eq!(info.circuit_id(), Ok("circuit"));
    assert_eq!(info.act_data_rate_up, 1_000_000);
}

#[test]
fn first_readable_vendor_tag_is_taken() {
    let mut first = [0u8; 128];
    let first_len = Tr101Information::with_circuit_id("one").unwrap().write(&mut first).unwrap();
    let mut second = [0u8; 128];
    let second_len = Tr101Information::with_circuit_id("two").unwrap().write(&mut second).unwrap();
    let buffer = &mut [0u8; 512];
    let mut header = Header::create_pado(buffer).unwrap();
    header.add_tag(Tag::ServiceName(b"")).unwrap();
    header.add_tag(Tag::VendorSpecific(&[0, 0, 0, 1, 2, 3])).unwrap();
    header.add_tag(Tag::VendorSpecific(&first[..first_len])).unwrap();
    header.add_tag(Tag::VendorSpecific(&second[..second_len])).unwrap();
    let info = Tr101Information::try_from(header.tag_iter()).unwrap();
    assert_eq!(info.circuit_id(), Ok("one"));

    let payload = [0x01, 0x01, 0, 0, 0x01, 0x05, 0, 4, 0, 0, 0, 1];
    assert_eq!(Tr101Information::try_from(TagIterator::new(&payload)).unwrap_err(), ());
    assert_eq!(Tr101Information::try_from(TagIterator::new(&[])).unwrap_err(), ());
}

#[test]
fn every_rate_has_its_own_field() {
    for i in 0..14u8 {
        let value = [0, 0, 0x0d, 0xe9, 0x81 + i, 4, 0x10, 0x20, 0x30, 0x40 + i];
        let info = Tr101Information::try_from(Tag::VendorSpecific(&value)).unwrap();
        for j in 0..14u8 {
            let expected = if i == j { 0x1020_3040 + u32::from(i) } else { 0 };
            assert_eq!(info.rate(usize::from(j)), expected);
        }
    }
    let value = [0, 0, 0x0d, 0xe9, 0x8b, 4, 0, 0, 0, 1, 0x8c, 4, 0, 0, 0, 2, 0x8d, 4, 0, 0, 0, 3];
    let info = Tr101Information::try_from(Tag::VendorSpecific(&value)).unwrap();
    assert_eq!(info.max_interl_delay_up, 1);
    assert_eq!(info.act_interl_delay_up, 2);
    assert_eq!(info.max_interl_delay_down, 3);
    assert_eq!(info.act_interl_delay_down, 0);
    assert_eq!(info.max_data_rate_up, 0);
    assert_eq!(info.act_data_rate_down, 0);
}

#[test]
fn later_sub_tags_overwrite_earlier_ones() {
    let value = [0, 0, 0x0d, 0xe9, 0x01, 1, b'a', 0x81, 4, 0, 0, 0, 1, 0x01, 2, b'b', b'c', 0x81, 4, 0, 0, 0, 2];
    let info = Tr101Information::try_from(Tag::VendorSpecific(&value)).unwrap();
    assert_eq!(info.circuit_id(), Ok("bc"));
    assert_eq!(info.act_data_rate_up, 2);
}

#[test]
fn unknown_sub_tags_are_passed_over() {
    let value = [0, 0, 0x0d, 0xe9, 0x55, 2, 1, 2, 0x02, 1, b'r', 0x90, 2, 7, 7, 0x00, 0];
    let info = Tr101Information::try_from(Tag::VendorSpecific(&value)).unwrap();
    assert_eq!(info.remote_id(), Ok("r"));
    assert_eq!(info.circuit_id(), Ok(""));
    let mut written = [0u8; 93 + 3];
    info.write(&mut written).unwrap();
    // the access-loop encapsulation of two bytes was not taken in
    assert_eq!(&written[4..12], &[0x02, 1, b'r', 0x90, 3, 0, 0, 0]);
}

#[test]
fn access_loop_encapsulation_is_read_and_written() {
    let value = [0, 0, 0x0d, 0xe9, 0x90, 3, 1, 2, 3];
    let info = Tr101Information::try_from(Tag::VendorSpecific(&value)).unwrap();
    let mut written = [0u8; 93];
    assert_eq!(info.write(&mut written), Ok(93));
    assert_eq!(&written[..9], &value);
}

#[test]
fn ids_that_are_no_text() {
    let value = [0, 0, 0x0d, 0xe9, 0x01, 2, 0xff, 0xfe, 0x02, 1, b'r'];
    let info = Tr101Information::try_from(Tag::VendorSpecific(&value)).unwrap();
    assert!(info.circuit_id().is_err());
    assert_eq!(info.circuit_id.as_bytes(), &[0xff, 0xfe]);
    assert_eq!(info.remote_id(), Ok("r"));
}

#[test]
fn decode_errors() {
    assert_eq!(
        Tr101Information::try_from(Tag::ServiceName(b"abcd")).unwrap_err(),
        ParseError::TagIsNotVendorSpecific
    );
    assert_eq!(
        Tr101Information::try_from(Tag::Unknown((0x0105, &[0, 0, 0x0d, 0xe9]))).unwrap_err(),
        ParseError::TagIsNotVendorSpecific
    );
    assert_eq!(
        Tr101Information::try_from(Tag::VendorSpecific(&[0, 0])).unwrap_err(),
        ParseError::IncompleteTag(2)
    );
    assert_eq!(
        Tr101Information::try_from(Tag::VendorSpecific(&[0, 0, 0, 1])).unwrap_err(),
        ParseError::InvalidTr101VendorId(1)
    );
    assert_eq!(
        Tr101Information::try_from(Tag::VendorSpecific(&[0x12, 0x34, 0x56, 0x78, 0]))
            .unwrap_err(),
        ParseError::InvalidTr101VendorId(0x1234_5678)
    );
    assert!(Tr101Information::try_from(Tag::VendorSpecific(&[0, 0, 0x0d, 0xe9])).is_ok());
    assert_eq!(
        Tr101Information::try_from(Tag::VendorSpecific(&[0, 0, 0x0d, 0xe9, 0x01, 5, b'a']))
            .unwrap_err(),
        ParseError::Tr101LengthOutOfBound { remaining_packet_length: 3, requested_tag_length: 7 }
    );
    assert_eq!(
        Tr101Information::try_from(Tag::VendorSpecific(&[0, 0, 0x0d, 0xe9, 0x01])).unwrap_err(),
        ParseError::Tr101LengthOutOfBound { remaining_packet_length: 1, requested_tag_length: 2 }
    );
    assert_eq!(
        Tr101Information::try_from(Tag::VendorSpecific(&[0, 0, 0x0d, 0xe9, 0x81, 2, 0, 0]))
            .unwrap_err(),
        ParseError::InvalidTr101TagLength {
            tag_type: 0x81,
            expected_min_length: 4,
            expected_max_length: 4,
            actual_length: 2
        }
    );
    assert_eq!(
        Tr101Information::try_from(Tag::VendorSpecific(&[
            0, 0, 0x0d, 0xe9, 0x8e, 5, 0, 0, 0, 0, 0
        ]))
        .unwrap_err(),
        ParseError::InvalidTr101TagLength {
            tag_type: 0x8e,
            expected_min_length: 4,
            expected_max_length: 4,
            actual_length: 5
        }
    );
    let mut value = vec![0, 0, 0x0d, 0xe9, 0x02, 64];
    value.extend_from_slice(&[b'x'; 64]);
    assert_eq!(
        Tr101Information::try_from(Tag::VendorSpecific(&value)).unwrap_err(),
        ParseError::InvalidTr101TagLength {
            tag_type: 0x02,
            expected_min_length: 1,
            expected_max_length: 63,
            actual_length: 64
        }
    );
    value[5] = 63;
    value.pop();
    let info = Tr101Information::try_from(Tag::VendorSpecific(&value)).unwrap();
    assert_eq!(info.remote_id.len(), 63);
}

#[test]
fn sub_tag_iterator() {
    let buffer = [0x01, 1, b'c', 0x02, 0, 0x83, 4, 0, 0, 1, 0, 0x90, 3, 1, 2, 3, 0x90, 1, 9, 0x77, 0, 0x81, 0];
    let mut iter = Tr101TagIterator::new(&buffer);
    assert!(matches!(iter.next(), Some(Ok(Tr101Tag::CircuitId(b"c")))));
    assert!(matches!(iter.next(), Some(Ok(Tr101Tag::RemoteId(b"")))));
    assert!(matches!(iter.next(), Some(Ok(Tr101Tag::MinDataRateUp(256)))));
    assert!(matches!(iter.next(), Some(Ok(Tr101Tag::AccessLoopEncapsulation(_)))));
    assert!(matches!(iter.next(), Some(Ok(Tr101Tag::Unknown((0x90, &[9]))))));
    assert!(matches!(iter.next(), Some(Ok(Tr101Tag::Unknown((0x77, &[]))))));
    assert!(matches!(
        iter.next(),
        Some(Err(ParseError::InvalidTr101TagLength {
            tag_type: 0x81,
            expected_min_length: 4,
            expected_max_length: 4,
            actual_length: 0
        }))
    ));
    // the iteration ends behind an error
    assert!(matches!(iter.next(), None));
    let mut iter = Tr101TagIterator::new(&[]);
    assert!(matches!(iter.next(), None));
}

#[test]
fn sub_tag_iterator_names_every_rate() {
    let mut buffer = vec![];
    for kind in 0x81..=0x8eu8 {
        buffer.extend_from_slice(&[kind, 4, 0, 0, 0, kind]);
    }
    let mut iter = Tr101TagIterator::new(&buffer);
    assert!(matches!(iter.next(), Some(Ok(Tr101Tag::ActDataRateUp(0x81)))));
    assert!(matches!(iter.next(), Some(Ok(Tr101Tag::ActDataRateDown(0x82)))));
    assert!(matches!(iter.next(), Some(Ok(Tr101Tag::MinDataRateUp(0x83)))));
    assert!(matches!(iter.next(), Some(Ok(Tr101Tag::MinDataRateDown(0x84)))));
    assert!(matches!(iter.next(), Some(Ok(Tr101Tag::AttDataRateUp(0x85)))));
    assert!(matches!(iter.next(), Some(Ok(Tr101Tag::AttDataRateDown(0x86)))));
    assert!(matches!(iter.next(), Some(Ok(Tr101Tag::MaxDataRateUp(0x87)))));
    assert!(matches!(iter.next(), Some(Ok(Tr101Tag::MaxDataRateDown(0x88)))));
    assert!(matches!(iter.next(), Some(Ok(Tr101Tag::MinDataRateUpLp(0x89)))));
    assert!(matches!(iter.next(), Some(Ok(Tr101Tag::MinDataRateDownLp(0x8a)))));
    assert!(matches!(iter.next(), Some(Ok(Tr101Tag::MaxInterlDelayUp(0x8b)))));
    assert!(matches!(iter.next(), Some(Ok(Tr101Tag::ActInterlDelayUp(0x8c)))));
    assert!(matches!(iter.next(), Some(Ok(Tr101Tag::MaxInterlDelayDown(0x8d)))));
    assert!(matches!(iter.next(), Some(Ok(Tr101Tag::ActInterlDelayDown(0x8e)))));
    assert!(matches!(iter.next(), None));
}

#[test]
fn dsl_type_is_taken_in_but_never_read() {
    let mut info = Tr101Information::default();
    info.take(Tr101Tag::DslType(7));
    assert_eq!(info.dsl_type, 7);
    assert_eq!(info.act_data_rate_up, 0);
    info.take(Tr101Tag::MaxDataRateUp(9));
    info.take(Tr101Tag::CircuitId(b"cid"));
    info.take(Tr101Tag::Unknown((0x55, b"x")));
    assert_eq!(info.dsl_type, 7);
    assert_eq!(info.max_data_rate_up, 9);
    assert_eq!(info.circuit_id(), Ok("cid"));
    // it is not written
    assert_eq!(info.len(), 93 + 5);
    // a sub-tag of its type is read as one that is not known
    let buffer = [0x91, 4, 0, 0, 0, 5];
    let mut iter = Tr101TagIterator::new(&buffer);
    assert!(matches!(iter.next(), Some(Ok(Tr101Tag::Unknown((0x91, &[0, 0, 0, 5]))))));
    assert!(matches!(iter.next(), None));
    let value = [0, 0, 0x0d, 0xe9, 0x91, 4, 0, 0, 0, 5];
    let read = Tr101Information::try_from(Tag::VendorSpecific(&value)).unwrap();
    assert_eq!(read.dsl_type, 0);
}
