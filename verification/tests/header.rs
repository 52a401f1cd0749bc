use pppoe::error::ParseError;
use pppoe::header::{Code, Header, PADI, PADO, PADR, PADS, PADT};
use pppoe::Tag;

fn minimal_header<'a>(buffer: &'a mut [u8], service_name: Option<&[u8]>) -> Header<'a> {
    let mut header = Header::create_padi(&mut buffer[..]).unwrap();
    if let Some(service_name) = service_name {
        header.add_tag(Tag::ServiceName(service_name)).unwrap();
    } else {
        header.add_tag(Tag::ServiceName(b"")).unwrap();
    }
    header
}

fn minimal_header_with_eol<'a>(buffer: &'a mut [u8], service_name: Option<&[u8]>) -> Header<'a> {
    let mut header = minimal_header(buffer, service_name);
    header.add_tag(Tag::EndOfList).unwrap();
    header
}

fn expect_parse_error(buffer: &mut [u8]) -> ParseError {
    let should_be_error = Header::from_buffer(&mut buffer[..]);
    assert!(should_be_error.is_err());
    should_be_error.unwrap_err()
}

#[test]
fn duplicate_tag_detection() {
    let buffer = &mut [0u8; 200];
    let content = b"abcdef123";
    let tags = vec![
        (Tag::ServiceName(content).get_tag_type(), Tag::ServiceName(content)),
        (Tag::AcName(content).get_tag_type(), Tag::AcName(content)),
        (Tag::HostUniq(content).get_tag_type(), Tag::HostUniq(content)),
        (Tag::RelaySessionId(content).get_tag_type(), Tag::RelaySessionId(content)),
    ];

    for (id, tag) in tags {
        let mut header = Header::create_padi(buffer).unwrap();
        header.add_tag(tag).unwrap();
        header.add_tag(tag).unwrap();

        let err = expect_parse_error(buffer);
        assert_eq!(err, ParseError::DuplicateTag(id));
    }
}

#[test]
fn reported_length_bigger_than_packet() {
    let buffer = &mut [0u8; 200];
    let mut header = minimal_header_with_eol(buffer, None);
    // the length field, set to 555
    header.get_ref_mut()[4] = 0x02;
    header.get_ref_mut()[5] = 0x2b;

    let err = expect_parse_error(buffer);
    assert!(match err {
        ParseError::PayloadLengthOutOfBound { .. } => true,
        _ => false,
    });
    assert_eq!(
        err,
        ParseError::PayloadLengthOutOfBound { actual_packet_length: 200, payload_length: 555 }
    );
}

#[test]
fn buffer_less_than_minimal_required_size_for_parsing() {
    let buffer = &mut [0u8; 4];
    let err = expect_parse_error(buffer);
    assert!(match err {
        ParseError::BufferTooSmall(_) => true,
        _ => false,
    });
}

#[test]
fn buffer_less_than_minimal_required_size_for_creation() {
    let buffer = &mut [0u8; 4];
    assert!(Header::create_padi(buffer).is_err());
}

#[test]
fn invalid_pppoe_version() {
    let buffer = &mut [0u8; 20];
    let err = expect_parse_error(buffer);
    assert!(match err {
        ParseError::InvalidPppoeVersion(_) => true,
        _ => false,
    })
}

#[test]
fn invalid_pppoe_type() {
    let buffer = &mut [0u8; 20];
    buffer[0] = 0x01 << 4;
    let err = expect_parse_error(buffer);
    assert!(match err {
        ParseError::InvalidPppoeType(_) => true,
        _ => false,
    });
}

#[test]
fn invalid_pppoe_code() {
    let buffer = &mut [0u8; 20];
    minimal_header(buffer, None);
    for code in 0..=u8::MAX {
        buffer[1] = code;
        match code {
            PADI | PADO | PADR | PADS | PADT => continue,
            _ => {
                let err = expect_parse_error(buffer);
                assert!(match err {
                    ParseError::InvalidPppoeCode(_) => true,
                    _ => false,
                });
            }
        }
    }
}

#[test]
fn missing_service_name() {
    let buffer = &mut [0u8; 20];
    buffer[0] = 0x11;
    buffer[1] = PADI;
    let err = expect_parse_error(buffer);
    assert!(match err {
        ParseError::MissingServiceName => true,
        _ => false,
    });

    Header::create_padi(buffer).unwrap().add_tag(Tag::EndOfList).unwrap();

    let err = expect_parse_error(buffer);
    assert!(match err {
        ParseError::MissingServiceName => true,
        _ => false,
    });
}

#[test]
fn pppoe_code_conditional_parsing() {
    let buffer = &mut [0u8; 200];
    let codes = [Code::Padi, Code::Pado, Code::Padr, Code::Pads, Code::Padt];
    let session_ids = [0, 0, 0, 1, 1];

    for (i, code) in codes.iter().cloned().enumerate() {
        Header::create_packet(buffer, code, session_ids[i])
            .unwrap()
            .add_tag(Tag::ServiceName(b"abc"))
            .unwrap();
        for (j, code) in codes.iter().cloned().enumerate() {
            let header = Header::from_buffer_with_code(buffer, Some(code));
            if j == i {
                assert!(header.is_ok())
            } else {
                assert!(header.is_err())
            }
        }
    }
}

#[test]
fn short_buffers_report_their_length() {
    for len in 0..6usize {
        let mut buffer = vec![0x11u8; len];
        assert_eq!(expect_parse_error(&mut buffer), ParseError::BufferTooSmall(len));
        let mut buffer = vec![0x11u8; len];
        assert_eq!(
            Header::create_padr(&mut buffer).unwrap_err(),
            ParseError::BufferTooSmall(len)
        );
    }
}

#[test]
fn version_is_judged_before_type() {
    for first in 0..=u8::MAX {
        if first == 0x11 {
            continue;
        }
        let mut buffer = [first, PADI, 0, 0, 0, 4, 1, 1, 0, 0];
        let err = expect_parse_error(&mut buffer);
        if first >> 4 != 1 {
            assert_eq!(err, ParseError::InvalidPppoeVersion(first >> 4));
        } else {
            assert_eq!(err, ParseError::InvalidPppoeType(first & 0x0f));
        }
    }
}

#[test]
fn invalid_code_is_reported_with_the_code() {
    let mut buffer = [0x11, 0x42, 0, 0, 0, 4, 1, 1, 0, 0];
    assert_eq!(expect_parse_error(&mut buffer), ParseError::InvalidPppoeCode(0x42));
}

#[test]
fn unexpected_code_is_reported_with_the_code() {
    let mut buffer = [0x11, PADI, 0, 0, 0, 4, 1, 1, 0, 0];
    assert!(Header::padi_from_buffer(&mut buffer).is_ok());
    assert_eq!(
        Header::padr_from_buffer(&mut buffer).unwrap_err(),
        ParseError::UnexpectedCode(PADI)
    );
    assert_eq!(
        Header::pado_from_buffer(&mut buffer).unwrap_err(),
        ParseError::UnexpectedCode(PADI)
    );
    assert_eq!(
        Header::pads_from_buffer(&mut buffer).unwrap_err(),
        ParseError::UnexpectedCode(PADI)
    );
    assert_eq!(
        Header::padt_from_buffer(&mut buffer).unwrap_err(),
        ParseError::UnexpectedCode(PADI)
    );
}

#[test]
fn codes_and_their_bytes() {
    assert_eq!(Code::try_from(0x09), Ok(Code::Padi));
    assert_eq!(Code::try_from(0x07), Ok(Code::Pado));
    assert_eq!(Code::try_from(0x19), Ok(Code::Padr));
    assert_eq!(Code::try_from(0x65), Ok(Code::Pads));
    assert_eq!(Code::try_from(0xa7), Ok(Code::Padt));
    assert_eq!(Code::try_from(0x00), Err(ParseError::InvalidPppoeCode(0)));
    assert_eq!(Code::Padi.to_u8(), 0x09);
    assert_eq!(Code::Pado.to_u8(), 0x07);
    assert_eq!(Code::Padr.to_u8(), 0x19);
    assert_eq!(Code::Pads.to_u8(), 0x65);
    assert_eq!(Code::Padt.to_u8(), 0xa7);
}

#[test]
fn payload_length_out_of_bound() {
    let mut buffer = [0x11, 0x09, 0x00, 0x00, 0x02, 0x00, 0x01, 0x01, 0x00, 0x00];
    assert_eq!(
        expect_parse_error(&mut buffer),
        ParseError::PayloadLengthOutOfBound { actual_packet_length: 10, payload_length: 512 }
    );
}

#[test]
fn empty_payload_misses_the_service_name() {
    let mut buffer = [0u8; 20];
    buffer[14..20].copy_from_slice(&[0x11, 0x09, 0x00, 0x00, 0x00, 0x00]);
    assert_eq!(expect_parse_error(&mut buffer[14..]), ParseError::MissingServiceName);
}

#[test]
fn payload_without_service_name_is_refused() {
    // one AC-Name tag and no End-Of-List tag
    let mut buffer = [0x11, PADO, 0, 0, 0, 6, 0x01, 0x02, 0, 2, b'a', b'c'];
    assert_eq!(expect_parse_error(&mut buffer), ParseError::MissingServiceName);
    assert_eq!(Header::validate_tags(&buffer[6..]), Err(ParseError::MissingServiceName));
}

#[test]
fn duplicate_ac_cookie() {
    let buffer = &mut [0u8; 64];
    let mut header = Header::create_pado(buffer).unwrap();
    header.add_tag(Tag::ServiceName(b"")).unwrap();
    header.add_tag(Tag::AcCookie(b"abc")).unwrap();
    header.add_tag(Tag::AcCookie(b"abc")).unwrap();
    assert_eq!(expect_parse_error(buffer), ParseError::DuplicateTag(0x0104));
}

#[test]
fn every_tag_that_may_occur_once_is_watched() {
    let once: [u16; 6] = [0x0101, 0x0102, 0x0103, 0x0104, 0x0110, 0x0120];
    for kind in once {
        let hi = (kind >> 8) as u8;
        let lo = kind as u8;
        // a Service-Name tag, another tag, then the tag twice; the second one is cut short
        let mut payload = vec![];
        if kind != 0x0101 {
            payload.extend_from_slice(&[0x01, 0x01, 0, 0]);
        }
        payload.extend_from_slice(&[0x02, 0x03, 0, 1, b'x']);
        payload.extend_from_slice(&[hi, lo, 0, 2, 0, 1]);
        payload.extend_from_slice(&[hi, lo, 0xff, 0xff]);
        assert_eq!(Header::validate_tags(&payload), Err(ParseError::DuplicateTag(kind)));
    }
    // others may repeat
    let payload = [0x01, 0x01, 0, 0, 0x02, 0x03, 0, 0, 0x02, 0x03, 0, 0, 0x01, 0x05, 0, 0, 0x01, 0x05, 0, 0];
    assert_eq!(Header::validate_tags(&payload), Ok(()));
}

#[test]
fn data_behind_the_end_of_list_tag() {
    // a byte behind the tag
    let payload = [0x01, 0x01, 0, 0, 0, 0, 0, 0, 7];
    assert_eq!(Header::validate_tags(&payload), Err(ParseError::DataBehindEolTag));
    // a zero byte behind the tag
    let payload = [0x01, 0x01, 0, 0, 0, 0, 0, 0, 0];
    assert_eq!(Header::validate_tags(&payload), Err(ParseError::DataBehindEolTag));
    // a value in the tag
    let payload = [0x01, 0x01, 0, 0, 0, 0, 0, 1, 7];
    assert_eq!(Header::validate_tags(&payload), Err(ParseError::DataBehindEolTag));
    // a length in the tag and nothing behind it
    let payload = [0x01, 0x01, 0, 0, 0, 0, 0, 5];
    assert_eq!(Header::validate_tags(&payload), Err(ParseError::DataBehindEolTag));
    // without a Service-Name tag, too
    let payload = [0, 0, 0, 0, 0x01, 0x01, 0, 0];
    assert_eq!(Header::validate_tags(&payload), Err(ParseError::DataBehindEolTag));
    // through the parser
    let mut buffer = [0x11, PADI, 0, 0, 0, 9, 0x01, 0x01, 0, 0, 0, 0, 0, 0, 1];
    assert_eq!(expect_parse_error(&mut buffer), ParseError::DataBehindEolTag);
}

#[test]
fn end_of_list_is_optional() {
    let payload = [0x01, 0x01, 0, 0];
    assert_eq!(Header::validate_tags(&payload), Ok(()));
    let payload = [0x01, 0x01, 0, 0, 0, 0, 0, 0];
    assert_eq!(Header::validate_tags(&payload), Ok(()));
    let payload = [0, 0, 0, 0];
    assert_eq!(Header::validate_tags(&payload), Err(ParseError::MissingServiceName));
    assert_eq!(Header::validate_tags(&[]), Err(ParseError::MissingServiceName));
}

#[test]
fn tag_length_behind_the_payload() {
    let payload = [0x01, 0x01, 0, 5, b'a', b'b'];
    assert_eq!(
        Header::validate_tags(&payload),
        Err(ParseError::TagLengthOutOfBound {
            expected_tag_length: 5,
            remaining_payload_length: 6
        })
    );
    // the payload ends where the header says, not where the buffer ends
    let mut buffer = [0x11, PADI, 0, 0, 0, 6, 0x01, 0x01, 0, 5, b'a', b'b', b'c', b'd', b'e'];
    assert_eq!(
        expect_parse_error(&mut buffer),
        ParseError::TagLengthOutOfBound { expected_tag_length: 5, remaining_payload_length: 6 }
    );
}

#[test]
fn incomplete_tag_at_packet_end() {
    let payload = [0x01, 0x01, 0, 0, 0x01, 0x02];
    assert_eq!(
        Header::validate_tags(&payload),
        Err(ParseError::IncompleteTagAtPacketEnd { total_packet_length: 6, left_over_bytes: 2 })
    );
    let payload = [0x01];
    assert_eq!(
        Header::validate_tags(&payload),
        Err(ParseError::IncompleteTagAtPacketEnd { total_packet_length: 1, left_over_bytes: 1 })
    );
}

#[test]
fn created_header_bytes() {
    let buffer = &mut [0xeeu8; 8];
    {
        let header = Header::create_pads(buffer, 0x1234).unwrap();
        assert_eq!(header.code(), PADS);
        assert_eq!(header.session_id(), 0x1234);
        assert_eq!(header.len(), 6);
        assert_eq!(header.payload(), &[0xee, 0xee]);
        assert_eq!(header.as_bytes(), &[0x11, 0x65, 0x12, 0x34, 0, 0, 0xee, 0xee]);
        assert_eq!(header.get_ref(), &[0x11, 0x65, 0x12, 0x34, 0, 0, 0xee, 0xee]);
    }
    assert_eq!(buffer, &[0x11, 0x65, 0x12, 0x34, 0, 0, 0xee, 0xee]);
    Header::create_padt(buffer, 0xa0b1).unwrap();
    assert_eq!(buffer, &[0x11, 0xa7, 0xa0, 0xb1, 0, 0, 0xee, 0xee]);
    Header::create_padi(buffer).unwrap();
    assert_eq!(buffer, &[0x11, 0x09, 0, 0, 0, 0, 0xee, 0xee]);
    Header::create_pado(buffer).unwrap();
    assert_eq!(buffer, &[0x11, 0x07, 0, 0, 0, 0, 0xee, 0xee]);
    Header::create_padr(buffer).unwrap();
    assert_eq!(buffer, &[0x11, 0x19, 0, 0, 0, 0, 0xee, 0xee]);
}

#[test]
fn set_code_changes_the_code_only() {
    let buffer = &mut [0u8; 10];
    let mut header = minimal_header(buffer, None);
    header.set_code(Code::Padr);
    assert_eq!(header.code(), PADR);
    assert_eq!(header.as_bytes(), &[0x11, 0x19, 0, 0, 0, 4, 0x01, 0x01, 0, 0]);
}

#[test]
fn add_tag_grows_the_length_by_the_tag() {
    let buffer = &mut [0u8; 64];
    let mut header = Header::create_padi(buffer).unwrap();
    assert_eq!(header.len(), 6);
    header.add_tag(Tag::ServiceName(b"svc")).unwrap();
    assert_eq!(header.len(), 6 + 7);
    header.add_tag(Tag::PppMaxMtu(1492)).unwrap();
    assert_eq!(header.len(), 6 + 7 + 6);
    header.add_tag(Tag::Credits((1, 2))).unwrap();
    assert_eq!(header.len(), 6 + 7 + 6 + 8);
    header.add_tag(Tag::HostUniq(b"")).unwrap();
    assert_eq!(header.len(), 6 + 7 + 6 + 8 + 4);
    header.add_end_tag().unwrap();
    assert_eq!(header.len(), 6 + 7 + 6 + 8 + 4 + 4);
    assert_eq!(
        &header.as_bytes()[..35],
        &[
            0x11, 0x09, 0, 0, 0, 29, 0x01, 0x01, 0, 3, b's', b'v', b'c', 0x01, 0x20, 0, 2, 0x05,
            0xd4, 0x01, 0x06, 0, 4, 0, 1, 0, 2, 0x01, 0x03, 0, 0, 0, 0, 0, 0
        ]
    );
}

#[test]
fn add_tag_without_room_changes_nothing() {
    let buffer = &mut [0u8; 8];
    let mut header = Header::create_padi(buffer).unwrap();
    assert_eq!(header.room(), 2);
    assert_eq!(
        header.add_tag(Tag::ServiceName(b"abc")),
        Err(ParseError::BufferTooSmallForTag { available: 2, requested: 3 })
    );
    assert_eq!(
        header.add_tag(Tag::PppMaxMtu(7)),
        Err(ParseError::BufferTooSmallForTag { available: 2, requested: 6 })
    );
    assert_eq!(
        header.add_end_tag(),
        Err(ParseError::BufferTooSmallForTag { available: 2, requested: 0 })
    );
    assert_eq!(header.as_bytes(), &[0x11, 0x09, 0, 0, 0, 0, 0, 0]);

    let buffer = &mut [0u8; 17];
    let mut header = minimal_header(buffer, Some(b"abc"));
    assert_eq!(header.room(), 4);
    assert_eq!(
        header.add_tag(Tag::AcName(b"x")),
        Err(ParseError::BufferTooSmallForTag { available: 4, requested: 1 })
    );
    assert_eq!(header.len(), 13);
    header.add_tag(Tag::AcName(b"")).unwrap();
    assert_eq!(header.len(), 17);
    assert_eq!(header.room(), 0);
}

#[test]
fn payload_never_outgrows_its_length_field() {
    let mut buffer = vec![0u8; 70_000];
    let big = vec![7u8; 65_000];
    let mut header = Header::create_padi(&mut buffer).unwrap();
    assert_eq!(header.room(), 65_535);
    header.add_tag(Tag::ServiceName(&big)).unwrap();
    assert_eq!(header.len(), 6 + 65_004);
    assert_eq!(header.room(), 531);
    assert_eq!(
        header.add_tag(Tag::HostUniq(&big[..528])),
        Err(ParseError::BufferTooSmallForTag { available: 4_990, requested: 528 })
    );
    header.add_tag(Tag::HostUniq(&big[..527])).unwrap();
    assert_eq!(header.len(), 6 + 65_535);
    assert_eq!(header.room(), 0);
    assert!(Header::from_buffer(&mut buffer).is_ok());
}

#[test]
fn clear_payload_resets_the_length() {
    let buffer = &mut [0u8; 32];
    let mut header = minimal_header_with_eol(buffer, Some(b"abc"));
    assert_eq!(header.len(), 17);
    header.clear_payload();
    assert_eq!(header.len(), 6);
    assert_eq!(&header.as_bytes()[..10], &[0x11, 0x09, 0, 0, 0, 0, 0x01, 0x01, 0, 3]);
    header.add_tag(Tag::AcName(b"z")).unwrap();
    assert_eq!(&header.as_bytes()[..11], &[0x11, 0x09, 0, 0, 0, 5, 0x01, 0x02, 0, 1, b'z']);
}

#[test]
fn clear_eol_takes_a_trailing_end_of_list_away() {
    let buffer = &mut [0u8; 32];
    let mut header = minimal_header_with_eol(buffer, Some(b"abc"));
    assert_eq!(header.len(), 17);
    header.clear_eol();
    assert_eq!(header.len(), 13);
    // no End-Of-List tag at the end: nothing happens
    header.clear_eol();
    assert_eq!(header.len(), 13);
    header.add_tag(Tag::AcCookie(b"ck")).unwrap();
    header.add_end_tag().unwrap();
    assert_eq!(header.len(), 23);
    header.clear_eol();
    assert_eq!(header.len(), 19);
    assert!(Header::from_buffer(buffer).is_ok());
}

#[test]
fn clear_eol_leaves_other_payloads_alone() {
    // an empty payload
    let buffer = &mut [0u8; 32];
    let mut header = Header::create_padi(buffer).unwrap();
    header.clear_eol();
    assert_eq!(header.len(), 6);
    // an End-Of-List tag that is not the last tag
    header.add_end_tag().unwrap();
    header.add_tag(Tag::ServiceName(b"")).unwrap();
    header.clear_eol();
    assert_eq!(header.len(), 14);
    // a last tag that points behind the payload
    let mut buffer = [0x11, PADI, 0, 0, 0, 8, 0x01, 0x01, 0, 0, 0, 0, 0, 9, 0, 0];
    let mut header = Header::create_padi(&mut buffer).unwrap();
    header.get_ref_mut()[5] = 8;
    header.clear_eol();
    assert_eq!(header.len(), 14);
}

#[test]
fn built_tags_are_read_back() {
    let buffer = &mut [0u8; 128];
    let tags = [
        Tag::HostUniq(b"\x01\x02"),
        Tag::ServiceName(b"internet"),
        Tag::PppMaxMtu(1500),
        Tag::Credits((0x0102, 0xfffe)),
        Tag::Metrics(b"\x00\x01\x02\x03"),
        Tag::SequenceNumber(9),
        Tag::CreditScaleFactor(0x8000),
        Tag::VendorSpecific(b"\x00\x00\x0d\xe9"),
        Tag::GenericError(b"oops"),
        Tag::GenericError(b"again"),
        Tag::ServiceNameError(b""),
        Tag::AcSystemError(b"e"),
        Tag::Unknown((0x4242, b"xyz")),
        Tag::EndOfList,
    ];
    {
        let mut header = Header::create_pado(buffer).unwrap();
        for tag in tags {
            header.add_tag(tag).unwrap();
        }
    }
    let header = Header::pado_from_buffer(buffer).unwrap();
    let mut iter = header.tag_iter();
    let mut read = vec![];
    while let Some(tag) = iter.next() {
        read.push(tag);
    }
    assert_eq!(read, tags);
    assert_eq!(iter.next(), None);
}

#[test]
fn built_packet_is_rebuilt_by_build() {
    let buffer = &mut [0u8; 32];
    let header = minimal_header_with_eol(buffer, Some(b"a"));
    let header = header.build().unwrap();
    assert_eq!(header.len(), 15);
    let buffer = &mut [0u8; 32];
    let header = Header::create_padi(buffer).unwrap();
    assert_eq!(header.build().unwrap_err(), ParseError::MissingServiceName);
}

#[test]
fn vendor_tag_is_written_by_the_callback() {
    let buffer = &mut [0u8; 32];
    let mut header = minimal_header(buffer, None);
    header
        .add_vendor_tag_with_callback(|tail| {
            assert_eq!(tail.len(), 32 - 10 - 4);
            tail[..5].copy_from_slice(&[0, 0, 0x0d, 0xe9, 0x2a]);
            Ok(5)
        })
        .unwrap();
    assert_eq!(header.len(), 19);
    assert_eq!(
        &header.as_bytes()[..19],
        &[0x11, 0x09, 0, 0, 0, 13, 0x01, 0x01, 0, 0, 0x01, 0x05, 0, 5, 0, 0, 0x0d, 0xe9, 0x2a]
    );
    let mut iter = header.tag_iter();
    assert_eq!(iter.next(), Some(Tag::ServiceName(b"")));
    assert_eq!(iter.next(), Some(Tag::VendorSpecific(&[0, 0, 0x0d, 0xe9, 0x2a])));
    assert_eq!(iter.next(), None);
}

#[test]
fn vendor_tag_that_fails_changes_no_length() {
    let buffer = &mut [0u8; 16];
    let mut header = minimal_header(buffer, None);
    // the callback fails
    assert_eq!(
        header.add_vendor_tag_with_callback(|_| Err(ParseError::BufferTooSmall(99))),
        Err(ParseError::BufferTooSmall(99))
    );
    assert_eq!(header.len(), 10);
    // the callback claims more than it was given
    assert_eq!(
        header.add_vendor_tag_with_callback(|tail| Ok(tail.len() + 1)),
        Err(ParseError::BufferTooSmallForTag { available: 6, requested: 3 })
    );
    assert_eq!(header.len(), 10);
    header.add_vendor_tag_with_callback(|tail| Ok(tail.len())).unwrap();
    assert_eq!(header.len(), 16);
    // no room for the four bytes of type and length
    let mut called = false;
    assert_eq!(
        header.add_vendor_tag_with_callback(|_| {
            called = true;
            Ok(0)
        }),
        Err(ParseError::BufferTooSmallForTag { available: 0, requested: 0 })
    );
    assert!(!called);
}

#[test]
fn close_vendor_tag_counts_what_was_written() {
    let buffer = &mut [0u8; 16];
    let mut header = minimal_header(buffer, None);
    header.get_ref_mut()[14] = 0xaa;
    header.get_ref_mut()[15] = 0xbb;
    assert_eq!(
        header.close_vendor_tag(3),
        Err(ParseError::BufferTooSmallForTag { available: 6, requested: 3 })
    );
    header.close_vendor_tag(2).unwrap();
    assert_eq!(
        header.as_bytes(),
        &[0x11, 0x09, 0, 0, 0, 10, 0x01, 0x01, 0, 0, 0x01, 0x05, 0, 2, 0xaa, 0xbb]
    );
}

fn pado<'a>(buffer: &'a mut [u8], tags: &[Tag]) -> Header<'a> {
    {
        let mut header = Header::create_pado(buffer).unwrap();
        for tag in tags {
            header.add_tag(*tag).unwrap();
        }
    }
    Header::pado_from_buffer(buffer).unwrap()
}

fn tags_of(header: &Header) -> Vec<(u16, Vec<u8>)> {
    let mut iter = header.tag_iter();
    let mut tags = vec![];
    while let Some(tag) = iter.next() {
        let (kind, value) = tag.get_tuple();
        tags.push((kind, value.to_vec()));
    }
    tags
}

#[test]
fn padr_from_pado() {
    let pado_buffer = &mut [0u8; 64];
    let pado = pado(
        pado_buffer,
        &[Tag::ServiceName(b"svc"), Tag::AcName(b"ac"), Tag::AcCookie(b"ck"), Tag::EndOfList],
    );
    let buffer = &mut [0u8; 64];
    let padr = Header::create_padr_from_pado(buffer, &pado, Some(b"svc"), Some(b"ac")).unwrap();
    assert_eq!(padr.code(), PADR);
    assert_eq!(padr.session_id(), 0);
    assert_eq!(
        tags_of(&padr),
        vec![(0x0101, b"svc".to_vec()), (0x0104, b"ck".to_vec())]
    );
    assert_eq!(
        &padr.as_bytes()[..19],
        &[0x11, 0x19, 0, 0, 0, 13, 0x01, 0x01, 0, 3, b's', b'v', b'c', 0x01, 0x04, 0, 2, b'c', b'k']
    );
}

#[test]
fn padr_from_pado_copies_in_order_and_leaves_the_rest_out() {
    let pado_buffer = &mut [0u8; 128];
    let pado = pado(
        pado_buffer,
        &[
            Tag::HostUniq(b"hu"),
            Tag::RelaySessionId(b"relay"),
            Tag::AcName(b"ac"),
            Tag::PppMaxMtu(1500),
            Tag::AcCookie(b"cookie"),
            Tag::ServiceName(b""),
            Tag::GenericError(b"x"),
        ],
    );
    let buffer = &mut [0u8; 64];
    let padr = Header::create_padr_from_pado(buffer, &pado, None, None).unwrap();
    assert_eq!(
        tags_of(&padr),
        vec![
            (0x0110, b"relay".to_vec()),
            (0x0104, b"cookie".to_vec()),
            (0x0101, b"".to_vec())
        ]
    );
}

#[test]
fn padr_from_pado_checks_the_names() {
    let pado_buffer = &mut [0u8; 64];
    let pado =
        pado(pado_buffer, &[Tag::ServiceName(b"svc"), Tag::AcName(b"ac"), Tag::AcCookie(b"ck")]);
    let buffer = &mut [0u8; 64];
    assert_eq!(
        Header::create_padr_from_pado(buffer, &pado, Some(b"other"), Some(b"ac")).unwrap_err(),
        ParseError::ServiceNameMismatch
    );
    assert_eq!(
        Header::create_padr_from_pado(buffer, &pado, Some(b"svc"), Some(b"a")).unwrap_err(),
        ParseError::AcNameMismatch
    );
    assert_eq!(
        Header::create_padr_from_pado(buffer, &pado, Some(b"sv"), Some(b"a")).unwrap_err(),
        ParseError::ServiceNameMismatch
    );
    assert!(Header::create_padr_from_pado(buffer, &pado, None, Some(b"ac")).is_ok());
    assert!(Header::create_padr_from_pado(buffer, &pado, Some(b"svc"), None).is_ok());
}

#[test]
fn padr_from_pado_needs_both_names() {
    let pado_buffer = &mut [0u8; 64];
    let pado = pado(pado_buffer, &[Tag::ServiceName(b"svc"), Tag::AcCookie(b"ck")]);
    let buffer = &mut [0u8; 64];
    assert_eq!(
        Header::create_padr_from_pado(buffer, &pado, None, None).unwrap_err(),
        ParseError::MissingAcName
    );
    // an offer that was never checked may lack the Service-Name tag
    let pado_buffer = &mut [0u8; 64];
    let mut pado = Header::create_pado(pado_buffer).unwrap();
    pado.add_tag(Tag::AcName(b"ac")).unwrap();
    assert_eq!(
        Header::create_padr_from_pado(buffer, &pado, None, None).unwrap_err(),
        ParseError::MissingServiceName
    );
    let pado_buffer = &mut [0u8; 64];
    let pado = Header::create_pado(pado_buffer).unwrap();
    assert_eq!(
        Header::create_padr_from_pado(buffer, &pado, None, None).unwrap_err(),
        ParseError::MissingServiceName
    );
}

#[test]
fn padr_from_pado_needs_room() {
    let pado_buffer = &mut [0u8; 64];
    let pado =
        pado(pado_buffer, &[Tag::ServiceName(b"svc"), Tag::AcName(b"ac"), Tag::AcCookie(b"ck")]);
    let buffer = &mut [0u8; 5];
    assert_eq!(
        Header::create_padr_from_pado(buffer, &pado, None, None).unwrap_err(),
        ParseError::BufferTooSmall(5)
    );
    let buffer = &mut [0u8; 12];
    assert_eq!(
        Header::create_padr_from_pado(buffer, &pado, None, None).unwrap_err(),
        ParseError::BufferTooSmallForTag { available: 6, requested: 3 }
    );
    let buffer = &mut [0u8; 18];
    assert_eq!(
        Header::create_padr_from_pado(buffer, &pado, None, None).unwrap_err(),
        ParseError::BufferTooSmallForTag { available: 5, requested: 2 }
    );
    let buffer = &mut [0u8; 19];
    assert!(Header::create_padr_from_pado(buffer, &pado, None, None).is_ok());
}

#[test]
fn available_is_what_the_buffer_has_left_in_its_low_16_bits() {
    let value = vec![1u8; 0xfffe];
    let mut buffer = vec![0u8; 6 + 0x1_0001];
    let mut header = Header::create_padi(&mut buffer).unwrap();
    assert_eq!(
        header.add_tag(Tag::ServiceName(&value)),
        Err(ParseError::BufferTooSmallForTag { available: 1, requested: 0xfffe })
    );
    assert_eq!(header.len(), 6);
    assert_eq!(
        header.close_vendor_tag(0xfffe),
        Err(ParseError::BufferTooSmallForTag { available: 1, requested: 0xfffe })
    );
    header.add_tag(Tag::ServiceName(&value[..0xfffb])).unwrap();
    assert_eq!(header.len(), 6 + 0xffff);
    assert_eq!(
        header.add_end_tag(),
        Err(ParseError::BufferTooSmallForTag { available: 2, requested: 0 })
    );
}
