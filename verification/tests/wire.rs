use ip_tcp::addr::VirtualIp;
use ip_tcp::ip::link::{Link, LinkDefinition, ParseLinkError, ProtocolPayload, TTL};
use ip_tcp::net::ipv4::{
    datagram_payload, encode_datagram, read_datagram, with_ttl, DatagramError,
};
use ip_tcp::protocol::rip::{ParseRipError, RipCommand, RipEntry, RipMessage};
use ip_tcp::protocol::tcp::segment::{encode_segment, read_segment, SegmentError, SegmentHeader};
use ip_tcp::protocol::{ParseProtocolError, Protocol};

fn a() -> VirtualIp {
    VirtualIp::new(10, 0, 0, 1)
}

fn b() -> VirtualIp {
    VirtualIp::new(10, 0, 0, 2)
}

#[test]
fn datagram_has_the_expected_octets() {
    let d = encode_datagram(a(), b(), 0, 16, b"hi");
    assert_eq!(
        d,
        vec![
            0x45, 0, 0, 22, 0, 0, 0x40, 0, 16, 0, 0x56, 0xe6, 10, 0, 0, 1, 10, 0, 0, 2, b'h',
            b'i'
        ]
    );
}

#[test]
fn datagram_reads_back() {
    let d = encode_datagram(a(), b(), 200, 16, &[1, 2, 3, 4, 5]);
    let info = read_datagram(&d).unwrap();
    assert_eq!(info.source, a());
    assert_eq!(info.destination, b());
    assert_eq!(info.protocol, 200);
    assert_eq!(info.ttl, 16);
    assert_eq!(info.header_len, 20);
    assert_eq!(info.total_len, 25);
    assert_eq!(datagram_payload(&d, &info), &[1, 2, 3, 4, 5]);
}

#[test]
fn datagram_faults_are_told_apart() {
    let good = encode_datagram(a(), b(), 6, 16, &[9; 8]);
    assert_eq!(read_datagram(&good[..10]), Err(DatagramError::BadHeader));
    assert_eq!(read_datagram(&[]), Err(DatagramError::BadHeader));
    let mut v6 = good.clone();
    v6[0] = 0x65;
    assert_eq!(read_datagram(&v6), Err(DatagramError::BadHeader));
    let mut short_header = good.clone();
    short_header[0] = 0x44;
    assert_eq!(read_datagram(&short_header), Err(DatagramError::BadHeader));
    assert_eq!(read_datagram(&good[..24]), Err(DatagramError::Truncated));
    let mut flipped = good.clone();
    flipped[8] = 15;
    assert_eq!(read_datagram(&flipped), Err(DatagramError::BadChecksum));
    let mut wrong_sum = good.clone();
    wrong_sum[11] ^= 1;
    assert_eq!(read_datagram(&wrong_sum), Err(DatagramError::BadChecksum));
    // the payload is not covered by the header checksum
    let mut other_payload = good.clone();
    other_payload[21] = 0;
    assert!(read_datagram(&other_payload).is_ok());
}

#[test]
fn a_hop_changes_the_time_to_live_and_the_checksum_only() {
    let d = encode_datagram(a(), b(), 0, 16, b"payload");
    let older = with_ttl(&d, 15);
    assert_eq!(older.len(), d.len());
    for i in 0..d.len() {
        if i != 8 && i != 10 && i != 11 {
            assert_eq!(older[i], d[i]);
        }
    }
    assert_eq!(older[8], 15);
    let info = read_datagram(&older).unwrap();
    assert_eq!(info.ttl, 15);
    assert_eq!(older, encode_datagram(a(), b(), 0, 15, b"payload"));
}

fn syn() -> SegmentHeader {
    SegmentHeader {
        source_port: 1024,
        destination_port: 5656,
        sequence_number: 100,
        acknowledgment_number: 0,
        syn: true,
        ack: false,
        fin: false,
        rst: false,
        window_size: 65535,
    }
}

#[test]
fn segment_has_the_expected_octets() {
    let s = encode_segment(a(), b(), &syn(), &[]);
    assert_eq!(
        s,
        vec![4, 0, 22, 24, 0, 0, 0, 100, 0, 0, 0, 0, 80, 2, 255, 255, 129, 100, 0, 0]
    );
    let data = SegmentHeader {
        sequence_number: 101,
        acknowledgment_number: 7,
        syn: false,
        ack: true,
        window_size: 1000,
        ..syn()
    };
    let s = encode_segment(a(), b(), &data, b"hello world!");
    assert_eq!(
        s,
        vec![
            4, 0, 22, 24, 0, 0, 0, 101, 0, 0, 0, 7, 80, 16, 3, 232, 235, 106, 0, 0, 104, 101,
            108, 108, 111, 32, 119, 111, 114, 108, 100, 33
        ]
    );
}

#[test]
fn segment_reads_back() {
    let h = SegmentHeader {
        source_port: 65535,
        destination_port: 1,
        sequence_number: 0xdead_beef,
        acknowledgment_number: 0xffff_ffff,
        syn: false,
        ack: true,
        fin: true,
        rst: false,
        window_size: 513,
    };
    let s = encode_segment(a(), b(), &h, &[7; 100]);
    let (got, header_len) = read_segment(a(), b(), &s).unwrap();
    assert_eq!(got, h);
    assert_eq!(header_len, 20);
    assert_eq!(&s[header_len..], &[7; 100]);
    let rst = SegmentHeader { rst: true, fin: false, ..h };
    let s = encode_segment(a(), b(), &rst, &[]);
    assert_eq!(read_segment(a(), b(), &s).unwrap().0, rst);
}

#[test]
fn segment_faults_are_told_apart() {
    let s = encode_segment(a(), b(), &syn(), b"abc");
    assert_eq!(read_segment(a(), b(), &s[..19]), Err(SegmentError::BadHeader));
    let mut small_offset = s.clone();
    small_offset[12] = 0x40;
    assert_eq!(read_segment(a(), b(), &small_offset), Err(SegmentError::BadHeader));
    let mut flipped = s.clone();
    flipped[22] ^= 0xff;
    assert_eq!(read_segment(a(), b(), &flipped), Err(SegmentError::BadChecksum));
    // the addresses enter the checksum
    assert_eq!(read_segment(b(), a(), &s).map(|r| r.0), Ok(syn()));
    assert_eq!(
        read_segment(a(), VirtualIp::new(10, 0, 0, 3), &s),
        Err(SegmentError::BadChecksum)
    );
}

#[test]
fn rip_message_has_the_expected_octets() {
    let m = RipMessage {
        command: RipCommand::Response,
        entries: vec![
            RipEntry { cost: 0, address: a(), mask: 0xffff_ffff },
            RipEntry { cost: 16, address: b(), mask: 0xffff_ffff },
        ],
    };
    let bytes = m.to_bytes();
    assert_eq!(
        bytes,
        vec![
            0, 2, 0, 2, 0, 0, 0, 0, 10, 0, 0, 1, 255, 255, 255, 255, 0, 0, 0, 16, 10, 0, 0, 2,
            255, 255, 255, 255
        ]
    );
    assert_eq!(RipMessage::from_bytes(&bytes), Ok(m));
    let request = RipMessage { command: RipCommand::Request, entries: vec![] };
    assert_eq!(request.to_bytes(), vec![0, 1, 0, 0]);
    assert_eq!(RipMessage::from_bytes(&[0, 1, 0, 0]), Ok(request));
}

#[test]
fn rip_faults_are_told_apart() {
    assert_eq!(RipMessage::from_bytes(&[0, 2, 0]), Err(ParseRipError::TooShort));
    assert_eq!(RipMessage::from_bytes(&[0, 3, 0, 0]), Err(ParseRipError::UnknownCommand));
    assert_eq!(RipMessage::from_bytes(&[0, 0, 0, 0]), Err(ParseRipError::UnknownCommand));
    assert_eq!(RipMessage::from_bytes(&[0, 2, 0, 1]), Err(ParseRipError::BadLength));
    assert_eq!(RipMessage::from_bytes(&[0, 2, 0, 0, 9]), Err(ParseRipError::BadLength));
}

#[test]
fn protocol_numbers() {
    assert_eq!(Protocol::try_from(0u8), Ok(Protocol::Test));
    assert_eq!(Protocol::try_from(6u8), Ok(Protocol::Tcp));
    assert_eq!(Protocol::try_from(200u8), Ok(Protocol::Rip));
    assert_eq!(Protocol::try_from(17u8), Err(ParseProtocolError::Unsupported));
    assert_eq!(u8::from(Protocol::Rip), 200);
    assert_eq!(u8::from(Protocol::Test), 0);
    assert_eq!(u8::from(Protocol::Tcp), 6);
    assert_eq!(Protocol::Tcp.number(), 6);
    let text: Vec<char> = "200".chars().collect();
    assert_eq!(Protocol::from_text(&text), Ok(Protocol::Rip));
    let text: Vec<char> = "256".chars().collect();
    assert_eq!(Protocol::from_text(&text), Err(ParseProtocolError::Unsupported));
    let text: Vec<char> = "tcp".chars().collect();
    assert_eq!(Protocol::from_text(&text), Err(ParseProtocolError::Unsupported));
}

#[test]
fn link_lines() {
    assert_eq!(LinkDefinition::try_parse(""), Err(ParseLinkError::NoIp));
    assert_eq!(LinkDefinition::try_parse("localhost"), Err(ParseLinkError::NoPort));
    assert_eq!(LinkDefinition::try_parse("localhost port"), Err(ParseLinkError::MalformedPort));
    assert_eq!(LinkDefinition::try_parse("localhost 70000"), Err(ParseLinkError::MalformedPort));
    assert_eq!(LinkDefinition::try_parse("localhost 5001"), Err(ParseLinkError::NoSrcVirtualIp));
    assert_eq!(
        LinkDefinition::try_parse("localhost 5001 10.0.0"),
        Err(ParseLinkError::MalformedIp)
    );
    assert_eq!(
        LinkDefinition::try_parse("localhost 5001 10.0.0.1"),
        Err(ParseLinkError::NoDstVirtualIp)
    );
    assert_eq!(
        LinkDefinition::try_parse("localhost 5001 10.0.0.1 10.0.0.256"),
        Err(ParseLinkError::MalformedIp)
    );
    assert_eq!(
        LinkDefinition::try_parse("  localhost\t5001 10.0.0.1   10.0.0.2 "),
        Ok(LinkDefinition { dest_port: 5001, interface_ip: a(), dest_ip: b() })
    );
}

#[test]
fn a_link_sends_from_its_own_address_to_its_peer() {
    let link: Link = LinkDefinition { dest_port: 5001, interface_ip: a(), dest_ip: b() }.into_link();
    assert!(link.up);
    assert_eq!(TTL, 16);
    let d = link.send(ProtocolPayload::Test("hi".into()));
    assert_eq!(d, encode_datagram(a(), b(), 0, 16, b"hi"));
    let m = RipMessage { command: RipCommand::Request, entries: vec![] };
    let d = link.send(ProtocolPayload::RIP(m));
    assert_eq!(d, encode_datagram(a(), b(), 200, 16, &[0, 1, 0, 0]));
    assert_eq!(ProtocolPayload::Test("é".into()).into_bytes(), (0, vec![0xc3, 0xa9]));
}

#[test]
fn addresses() {
    let parse = |s: &str| {
        let c: Vec<char> = s.chars().collect();
        VirtualIp::parse(&c)
    };
    assert_eq!(parse("1.2.3.4"), Some(VirtualIp::new(1, 2, 3, 4)));
    assert_eq!(parse("255.255.255.255"), Some(VirtualIp::new(255, 255, 255, 255)));
    assert_eq!(parse("0.0.0.0"), Some(VirtualIp::new(0, 0, 0, 0)));
    assert_eq!(parse("1.2.3"), None);
    assert_eq!(parse("1.2.3.4.5"), None);
    assert_eq!(parse("1.2.3."), None);
    assert_eq!(parse(".1.2.3"), None);
    assert_eq!(parse("1..2.3"), None);
    assert_eq!(parse("256.1.1.1"), None);
    assert_eq!(parse("01.1.1.1"), None);
    assert_eq!(parse("1.1.1.1000"), None);
    assert_eq!(parse("+1.1.1.1"), None);
    assert_eq!(parse("1.1.1.1 "), None);
    assert_eq!(parse("a.b.c.d"), None);
    assert_eq!(parse(""), None);
    assert_eq!(VirtualIp::new(9, 8, 7, 6).octets(), [9, 8, 7, 6]);
    assert_eq!(VirtualIp::from_octets([9, 8, 7, 6]), VirtualIp(9, 8, 7, 6));
}
