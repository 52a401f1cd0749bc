use pppoe::error::{Error, ParseError};
use pppoe::eth;
use pppoe::packet::{Packet, PacketBuilder, PPPOE_DISCOVERY, PPPOE_SESSION};
use pppoe::{Code, Tag};

fn parse_error<T>(result: Result<T, Error>) -> ParseError {
    match result {
        Err(Error::ParseError(e)) => e,
        Err(other) => panic!("another error: {:?}", other),
        Ok(_) => panic!("no error"),
    }
}

#[test]
fn minimum_padi() {
    let buffer = &mut [0u8; 28];
    let mut packet =
        PacketBuilder::new_discovery_packet(buffer, [0x02; 6], [0xff; 6]).unwrap();
    assert_eq!(packet.len(), 20);
    packet.pppoe_header().add_tag(Tag::ServiceName(b"")).unwrap();
    packet.pppoe_header().add_tag(Tag::EndOfList).unwrap();
    assert_eq!(packet.len(), 28);
    assert!(!packet.is_empty());
    let expected = [
        0xff, 0xff, 0xff, 0xff, 0xff, 0xff, 0x02, 0x02, 0x02, 0x02, 0x02, 0x02, 0x88, 0x63, 0x11,
        0x09, 0x00, 0x00, 0x00, 0x08, 0x01, 0x01, 0x00, 0x00, 0x00, 0x00, 0x00, 0x00,
    ];
    assert_eq!(packet.as_bytes(), expected);
    let packet = packet.build().unwrap();
    assert_eq!(packet.as_bytes(), expected);
    assert_eq!(packet.len(), 28);
    assert!(!packet.is_empty());
    assert_eq!(buffer, &expected);
}

#[test]
fn padi_in_the_smallest_buffer() {
    let buffer = &mut [0xeeu8; 20];
    let mut packet =
        PacketBuilder::new_discovery_packet(buffer, [0x02; 6], [0xff; 6]).unwrap();
    assert_eq!(
        packet.as_bytes(),
        [
            0xff, 0xff, 0xff, 0xff, 0xff, 0xff, 0x02, 0x02, 0x02, 0x02, 0x02, 0x02, 0x88, 0x63,
            0x11, 0x09, 0x00, 0x00, 0x00, 0x00
        ]
    );
    assert_eq!(
        packet.pppoe_header().add_tag(Tag::ServiceName(b"")),
        Err(ParseError::BufferTooSmallForTag { available: 0, requested: 0 })
    );
    assert_eq!(parse_error(packet.build()), ParseError::MissingServiceName);
}

#[test]
fn packet_needs_both_headers() {
    for len in 0..20usize {
        let mut buffer = vec![0u8; len];
        assert_eq!(
            parse_error(PacketBuilder::new_discovery_packet(&mut buffer, [1; 6], [2; 6])),
            ParseError::BufferTooSmall(len)
        );
        assert_eq!(parse_error(Packet::with_buffer(&mut buffer)), ParseError::BufferTooSmall(len));
        // nothing was written
        assert!(buffer.iter().all(|b| *b == 0));
    }
}

#[test]
fn as_bytes_is_as_long_as_headers_and_payload() {
    let buffer = &mut [0u8; 256];
    let mut packet = PacketBuilder::new_discovery_packet(buffer, [1; 6], [2; 6]).unwrap();
    let mut payload = 0;
    for value in [&b""[..], &b"a"[..], &b"abcdef"[..]] {
        assert_eq!(packet.as_bytes().len(), 14 + 6 + payload);
        assert_eq!(packet.len(), 14 + 6 + payload);
        packet.pppoe_header().add_tag(Tag::GenericError(value)).unwrap();
        payload += 4 + value.len();
    }
    assert_eq!(packet.as_bytes().len(), 14 + 6 + payload);
    assert_eq!(packet.as_bytes().len(), 14 + 6 + 19);
}

#[test]
fn builder_parts_can_be_written_to() {
    let buffer = &mut [0u8; 64];
    let mut packet = PacketBuilder::new_discovery_packet(buffer, [1; 6], [2; 6]).unwrap();
    packet.ethernet_header().set_dst_address([9, 8, 7, 6, 5, 4]);
    packet.ethernet_header().set_src_address([0xa, 0xb, 0xc, 0xd, 0xe, 0xf]);
    packet.ethernet_header().set_ether_type(PPPOE_SESSION);
    packet.pppoe_header().set_code(Code::Padr);
    packet.pppoe_header().add_tag(Tag::ServiceName(b"s")).unwrap();
    assert_eq!(
        packet.as_bytes(),
        [
            9, 8, 7, 6, 5, 4, 0xa, 0xb, 0xc, 0xd, 0xe, 0xf, 0x88, 0x64, 0x11, 0x19, 0, 0, 0, 5,
            0x01, 0x01, 0, 1, b's'
        ]
    );
    let packet = packet.build().unwrap();
    assert_eq!(packet.ethernet_header().dst_address(), [9, 8, 7, 6, 5, 4]);
    assert_eq!(packet.ethernet_header().src_address(), [0xa, 0xb, 0xc, 0xd, 0xe, 0xf]);
    assert_eq!(packet.ethernet_header().ether_type(), 0x8864);
    assert_eq!(packet.pppoe_header().code(), 0x19);
    assert_eq!(packet.pppoe_header().len(), 11);
}

#[test]
fn read_packet() {
    let mut buffer = [
        0xff, 0xff, 0xff, 0xff, 0xff, 0xff, 0x02, 0x02, 0x02, 0x02, 0x02, 0x02, 0x88, 0x63, 0x11,
        0x07, 0x00, 0x00, 0x00, 0x08, 0x01, 0x01, 0x00, 0x00, 0x00, 0x00, 0x00, 0x00, 0xee, 0xee,
    ];
    let packet = Packet::with_buffer(&mut buffer).unwrap();
    assert_eq!(packet.len(), 28);
    assert_eq!(packet.ethernet_header().as_bytes().len(), 14);
    assert_eq!(packet.ethernet_header().ether_type(), PPPOE_DISCOVERY);
    assert_eq!(packet.pppoe_header().code(), 0x07);
    assert_eq!(packet.pppoe_header().session_id(), 0);
    let mut tags = packet.pppoe_header().tag_iter();
    assert_eq!(tags.next(), Some(Tag::ServiceName(b"")));
    assert_eq!(tags.next(), Some(Tag::EndOfList));
    assert_eq!(tags.next(), None);
    let bytes = packet.as_bytes();
    assert_eq!(bytes.len(), 28);
    assert_eq!(bytes, &buffer[..28]);
}

#[test]
fn read_packet_reports_what_is_wrong_behind_the_ethernet_header() {
    let mut buffer = [0u8; 20];
    assert_eq!(parse_error(Packet::with_buffer(&mut buffer)), ParseError::InvalidPppoeVersion(0));
    buffer[14..20].copy_from_slice(&[0x11, 0x09, 0x00, 0x00, 0x00, 0x00]);
    assert_eq!(parse_error(Packet::with_buffer(&mut buffer)), ParseError::MissingServiceName);
    buffer[19] = 1;
    assert_eq!(
        parse_error(Packet::with_buffer(&mut buffer)),
        ParseError::PayloadLengthOutOfBound { actual_packet_length: 6, payload_length: 1 }
    );
}

#[test]
fn errors_from_their_sources() {
    assert!(matches!(
        Error::from(ParseError::DataBehindEolTag),
        Error::ParseError(ParseError::DataBehindEolTag)
    ));
    assert!(matches!(Error::from(()), Error::TODO));
    let io = std::io::Error::new(std::io::ErrorKind::Other, "down");
    assert!(matches!(Error::from(io), Error::Io(_)));
}

#[test]
fn ethernet_header() {
    let mut short = [0u8; 13];
    assert_eq!(eth::Header::with_buffer(&mut short).unwrap_err(), ParseError::BufferTooSmall(13));
    assert!(matches!(
        eth::HeaderBuilder::with_buffer(&mut short),
        Err(ParseError::BufferTooSmall(13))
    ));
    let buffer = &mut [0u8; 16];
    let mut builder = eth::HeaderBuilder::with_buffer(buffer).unwrap();
    builder.set_src_address([1, 2, 3, 4, 5, 6]);
    builder.set_dst_address([7, 8, 9, 10, 11, 12]);
    builder.set_ether_type(0x8863);
    assert_eq!(
        builder.as_bytes(),
        &[7, 8, 9, 10, 11, 12, 1, 2, 3, 4, 5, 6, 0x88, 0x63, 0, 0]
    );
    builder.as_mut_bytes()[15] = 0x55;
    let header = builder.build().unwrap();
    assert_eq!(header.src_address(), [1, 2, 3, 4, 5, 6]);
    assert_eq!(header.dst_address(), [7, 8, 9, 10, 11, 12]);
    assert_eq!(header.ether_type(), 0x8863);
    assert_eq!(
        header.as_bytes(),
        &[7, 8, 9, 10, 11, 12, 1, 2, 3, 4, 5, 6, 0x88, 0x63, 0, 0x55]
    );
}

#[test]
fn discovery_exchange_without_a_socket() {
    // the client's PADI
    let mut buffer = [0u8; 1450];
    let mut packet = PacketBuilder::new_discovery_packet(
        &mut buffer[..],
        [0xfe, 0xb9, 0x04, 0x2a, 0xb2, 0x35],
        [0xff, 0xff, 0xff, 0xff, 0xff, 0xff],
    )
    .unwrap();
    {
        let pppoe_header = packet.pppoe_header();
        pppoe_header.add_tag(Tag::PppMaxMtu(2000)).unwrap();
        pppoe_header.add_tag(Tag::ServiceName(b"\0")).unwrap();
        pppoe_header.add_tag(Tag::RelaySessionId(b"abc")).unwrap();
        pppoe_header.add_tag(Tag::HostUniq(b"abcanretadi\0arnedt")).unwrap();
        pppoe_header.add_tag(Tag::EndOfList).unwrap();
    }
    assert_eq!(packet.as_bytes().len(), 20 + 6 + 5 + 7 + 22 + 4);

    // the concentrator's PADO
    let mut receive_buffer = [0u8; 1450];
    let len = {
        let mut offer = PacketBuilder::new_discovery_packet(
            &mut receive_buffer[..],
            [0x00, 0x11, 0x22, 0x33, 0x44, 0x55],
            [0xfe, 0xb9, 0x04, 0x2a, 0xb2, 0x35],
        )
        .unwrap();
        let header = offer.pppoe_header();
        header.set_code(Code::Pado);
        header.add_tag(Tag::ServiceName(b"\0")).unwrap();
        header.add_tag(Tag::AcName(b"ac")).unwrap();
        header.add_tag(Tag::AcCookie(b"cookie")).unwrap();
        offer.len()
    };
    let pado = Packet::with_buffer(&mut receive_buffer[..len]).unwrap();

    // the client's PADR
    let dst = pado.ethernet_header().src_address();
    packet.ethernet_header().set_dst_address(dst);
    let pppoe_header = packet.pppoe_header();
    pppoe_header.set_code(Code::Padr);
    pppoe_header.clear_eol();
    let mut tags = pado.pppoe_header().tag_iter();
    while let Some(tag) = tags.next() {
        if let Tag::AcCookie(cookie) = tag {
            pppoe_header.add_tag(Tag::AcCookie(cookie)).unwrap();
        }
    }
    pppoe_header.add_tag(Tag::EndOfList).unwrap();
    let bytes = packet.as_bytes();
    assert_eq!(&bytes[..6], &[0x00, 0x11, 0x22, 0x33, 0x44, 0x55]);
    assert_eq!(bytes[15], 0x19);
    assert_eq!(bytes.len(), 20 + 6 + 5 + 7 + 22 + 10 + 4);
    assert!(packet.build().is_ok());
}
