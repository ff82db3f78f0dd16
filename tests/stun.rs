use shar::address::{IpAddress, SocketAddress};
use shar::stun::{bind_request, response_address, Attribute, Packet, MAGIC_COOKIE};

#[test]
fn deserialize() {
    const BYTES: &[u8] = b"\x01\x01\x00\x0c\
                           \x21\x12\xa4\x42\
                           \x4e\x58\x8f\x99\
                           \x8f\x37\x3e\x3a\
                           \x4e\xb8\x9f\x65\
                           \x00\x20\x00\x08\
                           \x00\x01\x8c\x8e\
                           \xd3\x4d\x10\xcc";

    let packet = Packet::parse(BYTES).unwrap();
    assert_eq!(packet.header().type_, 0x0101);
    assert_eq!(packet.header().len, 12);
    assert_eq!(packet.header().cookie, 0x2112a442);
    assert_eq!(
        packet.header().id,
        [0x4e, 0x58, 0x8f, 0x99, 0x8f, 0x37, 0x3e, 0x3a, 0x4e, 0xb8, 0x9f, 0x65]
    );

    let attributes = packet.attributes();
    // 242.95.180.142:44444
    assert_eq!(
        attributes.into_iter().next(),
        Some(Attribute::XorMappedIpAddr(SocketAddress { ip: IpAddress::V4(0xf25f_b48e), port: 44444 }))
    );
}

#[test]
fn bind_request_layout() {
    let id = [1, 2, 3, 4, 5, 6, 6, 5, 4, 3, 2, 1];
    let request = bind_request(id);
    assert_eq!(&request[..8], &[0x00, 0x01, 0x00, 0x00, 0x21, 0x12, 0xA4, 0x42]);
    assert_eq!(&request[8..], &id[..]);
    let parsed = Packet::parse(&request).unwrap();
    assert_eq!(parsed.header().cookie, MAGIC_COOKIE);
    assert_eq!(parsed.header().class(), 0);
    assert_eq!(parsed.header().method(), 1);
    assert_eq!(*parsed.header().id(), id);
    assert!(parsed.attributes().is_empty());
}

#[test]
fn response_class_and_wrong_cookie() {
    let mut bytes = bind_request([0; 12]).to_vec();
    bytes[0] = 0x01;
    bytes[1] = 0x01;
    let packet = Packet::parse(&bytes).unwrap();
    assert_eq!(packet.header().class(), 2);
    assert_eq!(packet.header().method(), 1);
    bytes[4] = 0;
    assert!(Packet::parse(&bytes).is_none());
    assert!(Packet::parse(&bytes[..19]).is_none());
}

#[test]
fn mapped_addresses_and_unknown_attributes() {
    let mut bytes = bind_request([7; 12]).to_vec();
    // unknown attribute 0x8022 with 2 bytes, padded to 4
    bytes.extend_from_slice(&[0x80, 0x22, 0x00, 0x02, 0xab, 0xcd, 0x00, 0x00]);
    // MAPPED-ADDRESS 10.0.0.1:3478
    bytes.extend_from_slice(&[0x00, 0x01, 0x00, 0x08, 0x00, 0x01, 0x0d, 0x96, 10, 0, 0, 1]);
    // IPv6 MAPPED-ADDRESS ::1 port 80
    bytes.extend_from_slice(&[0x00, 0x01, 0x00, 0x14, 0x00, 0x02, 0x00, 0x50]);
    bytes.extend_from_slice(&[0, 0, 0, 0, 0, 0, 0, 0, 0, 0, 0, 0, 0, 0, 0, 1]);
    // truncated attribute ends the list
    bytes.extend_from_slice(&[0x00, 0x20, 0x00, 0x08, 0x00]);
    let packet = Packet::parse(&bytes).unwrap();
    let attributes = packet.attributes();
    assert_eq!(
        attributes,
        vec![
            Attribute::Unknown(0x8022, vec![0xab, 0xcd]),
            Attribute::MappedAddress(SocketAddress { ip: IpAddress::V4(0x0a00_0001), port: 3478 }),
            Attribute::MappedAddress(SocketAddress { ip: IpAddress::V6(1), port: 80 }),
        ]
    );
}

#[test]
fn response_address_skips_unknown_attributes() {
    let id = [9; 12];
    let server = SocketAddress { ip: IpAddress::V4(0x0808_0808), port: 3478 };
    let mut bytes = bind_request(id).to_vec();
    bytes[1] = 0x01;
    bytes[0] = 0x01;
    // SOFTWARE with 3 bytes and one byte of padding
    bytes.extend_from_slice(&[0x80, 0x22, 0x00, 0x03, b'a', b'b', b'c', 0x00]);
    bytes.extend_from_slice(&[0x00, 0x20, 0x00, 0x08, 0x00, 0x01, 0x8c, 0x8e, 0xd3, 0x4d, 0x10, 0xcc]);
    let expected = SocketAddress { ip: IpAddress::V4(0xf25f_b48e), port: 44444 };
    assert_eq!(response_address(&bytes, server, server, id), Some(expected));
    let other = SocketAddress { ip: IpAddress::V4(0x0101_0101), port: 3478 };
    assert_eq!(response_address(&bytes, other, server, id), None);
    assert_eq!(response_address(&bytes, server, server, [8; 12]), None);
    assert_eq!(response_address(&bytes[..20], server, server, id), None);
}
