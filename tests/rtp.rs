use shar::address::{IpAddress, SocketAddress};
use shar::rtp_packet::{Header, Packet};
use shar::rtp_receiver::{ReceiveError, Receiver};
use shar::rtp_sender::Sender;

#[test]
fn parse_packet() {
    let data = b"\x80\x60\x32\x3a\x03\x4a\
        \x34\xc5\xd0\x1b\x17\xc4\x7c\x05\x97\x82\xcf\x39\xfc\xf3\xa8\xcf\
        \x68\xa9\x3c\x54\xbd\x6a\xd0\x75\x6e\x41\x2b\xf0\x97\x33\x00\x2f\
        \x8a\x34\xd6\x95\x82\x04\xbb\x4f\x08\xeb\x81\x31\x25\x13\xd0\x95\
        \xa6\x0e\x1e\xa8\x3c\x54\xd0\xc7\x89\xb0\xf8\x2b\x01\x1a\x56\xa4\
        \x03\xcc\xa3\x89\x6e\x10\xd4\x5d\xba\x2a\x8d\x49\xee\x67\x9d\x4f\
        \xf4\xb5\x8b\x9d\x18\xd1\xe6\xc2\x49\x8c\xca\x2b\x20\x2f\x1e\xf7\
        \x1d\xa1\xa3\x1a\x02\xe7\xcd\x39\xdd\x8a\xba\x49\xe0\xbd\xb9\x55\
        \x6f\x2a\x15\x9b\x1d\xed\x65\x4e\x8b\x7f\x6e\xe5\x47\xba\x2e\xd5\
        \xab\xef\xd8\x9b\x47\xef\x57\xe3\x3f\xb4\x01\x96\x80\xc6\x9f\x6c";

    let packet = Packet::parse(&data[..]).unwrap();
    let header = packet.header();
    assert_eq!(header.version(), 2);
    assert_eq!(header.has_padding(), false);
    assert_eq!(header.has_extensions(), false);
    assert_eq!(header.contributors_count(), 0);
    assert_eq!(header.marked(), false);
    assert_eq!(header.payload_type(), 96);
    assert_eq!(header.sequence(), 12858);
    assert_eq!(header.timestamp(), 55194821);
    assert_eq!(header.ssrc(), 0xd01b17c4);

    assert_eq!(&packet.payload()[..4], &[0x7c, 0x05, 0x97, 0x82][..]);
}

#[test]
fn set_fields() {
    let mut data = [0u8; 256];
    let mut packet = Packet::new(&mut data[..]).unwrap();

    {
        let header = packet.header_mut();
        header.set_version(2);
        header.set_payload_type(42);
        header.set_sequence(1337);
        header.set_timestamp(45678);
        header.set_ssrc(0xd34d10cc);
        packet.payload_mut()[..4].copy_from_slice(&[0xd3, 0x3d, 0x10, 0xcc]);
    }

    let header = packet.header();
    assert_eq!(header.version(), 2);
    assert_eq!(header.has_padding(), false);
    assert_eq!(header.has_extensions(), false);
    assert_eq!(header.contributors_count(), 0);
    assert_eq!(header.marked(), false);
    assert_eq!(header.sequence(), 1337);
    assert_eq!(header.timestamp(), 45678);
    assert_eq!(header.ssrc(), 0xd34d10cc);
    assert_eq!(&packet.payload()[..4], &[0xd3, 0x3d, 0x10, 0xcc]);
}

#[test]
fn header_survives_serialisation() {
    let mut packet = Packet::new(&[0u8; 16]).unwrap();
    {
        let header = packet.header_mut();
        header.set_version(2);
        header.set_payload_type(96);
        header.set_sequence(1337);
        header.set_timestamp(45678);
        header.set_ssrc(0xD34D10CC);
    }
    let bytes = packet.to_bytes();
    assert_eq!(bytes.len(), 16);
    assert_eq!(&bytes[..4], &[0x80, 96, 0x05, 0x39]);
    let parsed = Packet::parse(&bytes).unwrap();
    assert_eq!(*parsed.header(), *packet.header());
    assert_eq!(parsed.header().version(), 2);
    assert_eq!(parsed.header().payload_type(), 96);
    assert_eq!(parsed.header().sequence(), 1337);
    assert_eq!(parsed.header().timestamp(), 45678);
    assert_eq!(parsed.header().ssrc(), 0xD34D10CC);
    assert!(Packet::parse(&bytes[..11]).is_none());
}

#[test]
fn header_flag_setters() {
    let mut header = Header::zeroed();
    header.set_padding(true);
    header.set_extensions(true);
    assert!(header.has_padding() && header.has_extensions());
    header.set_padding(false);
    assert!(!header.has_padding() && header.has_extensions());
    header.payload_type = 0x80;
    header.set_payload_type(96);
    assert!(header.marked());
    assert_eq!(header.payload_type(), 96);
}

#[test]
fn sender_numbers_packets_and_wraps() {
    let mut sender = Sender::starting_at(65535);
    let unit = [0x00, 0x00, 0x00, 0x01, 0x65, 0x01, 0x02];
    let packets = sender.packets(&unit, 0x1_0000_0005);
    assert_eq!(packets.len(), 2);
    let first = Packet::parse(&packets[0]).unwrap();
    let second = Packet::parse(&packets[1]).unwrap();
    assert_eq!(first.header().sequence(), 65535);
    assert_eq!(second.header().sequence(), 0);
    assert_eq!(first.header().version(), 2);
    assert_eq!(first.header().payload_type(), 96);
    assert_eq!(first.header().timestamp(), 5);
    assert_eq!(first.payload(), &[0x7c, 0x80 | 5, 0x01, 0x02][..]);
    assert_eq!(second.payload(), &[0x7c, 0x40 | 5][..]);
    let more = sender.packets(&unit, 6);
    assert_eq!(Packet::parse(&more[0]).unwrap().header().sequence(), 1);
}

#[test]
fn large_units_are_cut_at_the_mtu() {
    let mut unit = vec![0x00, 0x00, 0x01, 0x65];
    unit.extend(std::iter::repeat(0x11).take(3000));
    let mut sender = Sender::new();
    let packets = sender.packets(&unit, 0);
    assert_eq!(packets.len(), 3);
    assert_eq!(packets[0].len(), 12 + 2 + 1400);
    assert_eq!(packets[2].len(), 12 + 2 + 200);
}

fn datagram(sequence: u16, timestamp: u32, header: u8, payload: &[u8]) -> Vec<u8> {
    let mut packet = Packet::new(&[0u8; 12]).unwrap();
    {
        let h = packet.header_mut();
        h.set_version(2);
        h.set_payload_type(96);
        h.set_sequence(sequence);
        h.set_timestamp(timestamp);
    }
    let mut bytes = packet.to_bytes();
    bytes.push(0x7c);
    bytes.push(header);
    bytes.extend_from_slice(payload);
    bytes
}

fn peer(port: u16) -> SocketAddress {
    SocketAddress { ip: IpAddress::V4(0x7f000001), port }
}

#[test]
fn receiver_drops_unit_across_gap_and_recovers_at_start() {
    let mut receiver = Receiver::new();
    let from = peer(5000);
    // unit at timestamp 10 spans 1, 2, (3 lost)
    assert_eq!(receiver.receive(&datagram(1, 10, 0x85, &[1, 2]), from), Ok(None));
    assert_eq!(receiver.receive(&datagram(2, 10, 0x05, &[3, 4]), from), Ok(None));
    // 4 starts a new unit at timestamp 20, 5 ends it
    assert_eq!(receiver.receive(&datagram(4, 20, 0x81, &[7]), from), Ok(None));
    assert_eq!(receiver.receive(&datagram(5, 20, 0x41, &[8]), from), Ok(None));
    // the next timestamp flushes the complete unit; the gapped one never came out
    let out = receiver.receive(&datagram(6, 30, 0x81, &[9]), from).unwrap();
    assert_eq!(out, Some(vec![0x00, 0x00, 0x00, 0x01, 0x61, 7, 8]));
}

#[test]
fn receiver_hands_on_complete_units_in_order() {
    let mut receiver = Receiver::new();
    let from = peer(5000);
    assert_eq!(receiver.receive(&datagram(1, 10, 0x85, &[1]), from), Ok(None));
    assert_eq!(receiver.receive(&datagram(2, 10, 0x45, &[]), from), Ok(None));
    let out = receiver.receive(&datagram(3, 20, 0x81, &[2]), from).unwrap();
    assert_eq!(out, Some(vec![0, 0, 0, 1, 0x65, 1]));
    assert_eq!(receiver.receive(&datagram(4, 20, 0x41, &[3]), from), Ok(None));
    let out = receiver.receive(&datagram(5, 30, 0x81, &[4]), from).unwrap();
    assert_eq!(out, Some(vec![0, 0, 0, 1, 0x61, 2, 3]));
}

#[test]
fn receiver_drops_on_source_change_and_refuses_short_datagrams() {
    let mut receiver = Receiver::new();
    assert_eq!(receiver.receive(&datagram(1, 10, 0x85, &[1]), peer(1)), Ok(None));
    // a packet in sequence but from another source forces a drop: a non-start fragment is ignored
    assert_eq!(receiver.receive(&datagram(2, 10, 0x45, &[2]), peer(2)), Ok(None));
    assert_eq!(receiver.receive(&datagram(3, 20, 0x85, &[3]), peer(2)), Ok(None));
    assert_eq!(receiver.receive(&[0x80, 0x60], peer(2)), Err(ReceiveError::Malformed));
}

#[test]
fn receiver_ignores_a_continuation_with_nothing_to_continue() {
    let mut receiver = Receiver::new();
    let from = peer(5000);
    // in sequence, but no start fragment came first
    assert_eq!(receiver.receive(&datagram(1, 10, 0x45, &[1]), from), Ok(None));
    assert_eq!(receiver.receive(&datagram(2, 20, 0x85, &[2]), from), Ok(None));
    assert_eq!(receiver.receive(&datagram(3, 20, 0x45, &[3]), from), Ok(None));
    let out = receiver.receive(&datagram(4, 30, 0x85, &[4]), from).unwrap();
    assert_eq!(out, Some(vec![0, 0, 0, 1, 0x65, 2, 3]));
}

#[test]
fn set_version_replaces_the_version_bits() {
    let mut header = Header::zeroed();
    header.flags = 0xff;
    header.set_version(1);
    assert_eq!(header.version(), 1);
    assert_eq!(header.flags, 0x7f);
    assert!(header.has_padding() && header.has_extensions());
    assert_eq!(header.contributors_count(), 15);
}
