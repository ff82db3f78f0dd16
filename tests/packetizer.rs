use shar::depacketizer::Depacketizer;
use shar::fragment::Fragment as WireFragment;
use shar::packetizer::{contains_idr, Fragment, Packetizer, PACKET_TYPE_FU_A};

const FIRST: u8 = 1 << 7;
const LAST: u8 = 1 << 6;

#[test]
fn empty_data() {
    let mut packetizer = Packetizer::with_mtu(20, b"");
    assert_eq!(packetizer.next(), None);
}

#[test]
fn packetize_full_units() {
    let mut data = [
        0x00, 0x00, 0x01, 0x09, 0x10, 0x00, 0x00, 0x01, 0x67, 0x42, 0x00, 0x20, 0xe9, 0x00, 0x80,
        0x0c, 0x32, 0x00, 0x00, 0x01, 0x68, 0xce, 0x3c, 0x80,
    ];

    let mut packetizer = Packetizer::with_mtu(20, &mut data);

    // first nal unit
    assert_eq!(
        packetizer.next(),
        Some(Fragment { indicator: PACKET_TYPE_FU_A, header: FIRST | 9, payload: &[0x10] })
    );

    assert_eq!(
        packetizer.next(),
        Some(Fragment { indicator: PACKET_TYPE_FU_A, header: LAST | 9, payload: &[] })
    );

    // second unit
    assert_eq!(
        packetizer.next(),
        Some(Fragment {
            indicator: PACKET_TYPE_FU_A | (3 << 5),
            header: FIRST | 7,
            payload: &[0x42, 0x00, 0x20, 0xe9, 0x00, 0x80, 0x0c, 0x32]
        })
    );

    assert_eq!(
        packetizer.next(),
        Some(Fragment { indicator: PACKET_TYPE_FU_A | (3 << 5), header: LAST | 7, payload: &[] })
    );

    // third and last
    assert_eq!(
        packetizer.next(),
        Some(Fragment {
            indicator: PACKET_TYPE_FU_A | (3 << 5),
            header: FIRST | 8,
            payload: &[0xce, 0x3c, 0x80]
        })
    );

    assert_eq!(
        packetizer.next(),
        Some(Fragment { indicator: PACKET_TYPE_FU_A | (3 << 5), header: LAST | 8, payload: &[] })
    );

    assert_eq!(packetizer.next(), None);
}

#[test]
fn packetize_partial_units() {
    let data = [0x00, 0x00, 0x01, 0x67, 0x42, 0x00, 0x20, 0xe9, 0x00, 0x80, 0x0c, 0x32];

    let mut packetizer = Packetizer::with_mtu(3, &data);

    assert_eq!(
        packetizer.next(),
        Some(Fragment {
            indicator: PACKET_TYPE_FU_A | (3 << 5),
            header: FIRST | 7,
            payload: &[0x42, 0x00, 0x20]
        })
    );

    assert_eq!(
        packetizer.next(),
        Some(Fragment { indicator: PACKET_TYPE_FU_A | (3 << 5), header: 7, payload: &[0xe9, 0x00, 0x80] })
    );

    assert_eq!(
        packetizer.next(),
        Some(Fragment { indicator: PACKET_TYPE_FU_A | (3 << 5), header: LAST | 7, payload: &[0x0c, 0x32] })
    );
}

fn wire(fragment: &Fragment) -> Vec<u8> {
    let mut bytes = vec![fragment.indicator, fragment.header];
    bytes.extend_from_slice(fragment.payload);
    bytes
}

#[test]
fn round_trip_restores_units_and_completes_once_per_unit() {
    // a 4-byte start code, then a 3-byte one; the second unit spans several fragments
    let data = [
        0x00, 0x00, 0x00, 0x01, 0x65, 0x88, 0x84, 0x21, 0x00, 0x00, 0x01, 0x41, 0x9a, 0x02, 0x03,
        0x04, 0x05, 0x06, 0x07,
    ];
    let mut packetizer = Packetizer::with_mtu(3, &data);
    let mut depacketizer = Depacketizer::new();
    let mut completions = Vec::new();
    while let Some(fragment) = packetizer.next() {
        let bytes = wire(&fragment);
        let parsed = WireFragment::parse(&bytes).unwrap();
        depacketizer.push(parsed);
        completions.push(depacketizer.complete());
    }
    assert_eq!(
        depacketizer.bytes(),
        &[
            0x00, 0x00, 0x00, 0x01, 0x65, 0x88, 0x84, 0x21, 0x00, 0x00, 0x01, 0x41, 0x9a, 0x02,
            0x03, 0x04, 0x05, 0x06, 0x07
        ][..]
    );
    // unit one: start (3 bytes) + empty end; unit two: 3 + 3 + end with 1
    assert_eq!(completions, vec![false, true, false, false, true]);
}

#[test]
fn short_start_codes_are_normalized_after_the_first_unit() {
    let data = [0x00, 0x00, 0x01, 0x09, 0x10, 0x00, 0x00, 0x00, 0x01, 0x68, 0xce];
    let mut packetizer = Packetizer::with_mtu(1400, &data);
    let mut depacketizer = Depacketizer::new();
    while let Some(fragment) = packetizer.next() {
        let bytes = wire(&fragment);
        depacketizer.push(WireFragment::parse(&bytes).unwrap());
    }
    assert_eq!(
        depacketizer.bytes(),
        &[0x00, 0x00, 0x00, 0x01, 0x09, 0x10, 0x00, 0x00, 0x01, 0x68, 0xce][..]
    );
    assert!(depacketizer.complete());
    depacketizer.clear();
    assert!(depacketizer.bytes().is_empty());
    assert!(!depacketizer.complete());
}

#[test]
fn no_fragment_has_both_start_and_end() {
    let data = [
        0x00, 0x00, 0x01, 0x09, 0x00, 0x00, 0x01, 0x67, 0x42, 0x00, 0x00, 0x00, 0x01, 0x68, 0xce,
        0x3c, 0x80, 0x11, 0x12,
    ];
    for mtu in 1..8 {
        let mut packetizer = Packetizer::with_mtu(mtu, &data);
        let mut count = 0;
        while let Some(fragment) = packetizer.next() {
            assert!(fragment.header & FIRST == 0 || fragment.header & LAST == 0);
            assert!(fragment.payload.len() <= mtu);
            count += 1;
        }
        assert!(count >= 6);
    }
}

#[test]
fn input_without_start_code_yields_nothing() {
    let mut packetizer = Packetizer::with_mtu(10, &[0x12, 0x34, 0x00, 0x00, 0x01, 0x09]);
    assert_eq!(packetizer.next(), None);
    let mut header_only = Packetizer::with_mtu(10, &[0x00, 0x00, 0x01]);
    assert_eq!(header_only.next(), None);
}

#[test]
fn fragment_view_reads_fields() {
    let bytes = [0x7c, 0x85, 0xaa, 0xbb];
    let fragment = WireFragment::parse(&bytes).unwrap();
    assert_eq!(fragment.indicator().nri(), 3);
    assert_eq!(fragment.indicator().packet_type(), 28);
    assert!(fragment.header().is_first());
    assert!(!fragment.header().is_last());
    assert_eq!(fragment.header().nal_type(), 5);
    assert_eq!(fragment.payload(), &[0xaa, 0xbb][..]);
    assert!(WireFragment::parse(&[0x7c]).is_none());
}

#[test]
fn idr_units_are_recognised() {
    assert!(contains_idr(&[0x00, 0x00, 0x00, 0x01, 0x67, 0x42, 0x00, 0x00, 0x01, 0x65, 0x88]));
    assert!(!contains_idr(&[0x00, 0x00, 0x01, 0x41, 0x9a, 0x00, 0x00, 0x01]));
    assert!(!contains_idr(&[0x65, 0x00, 0x00, 0x01]));
    assert!(!contains_idr(&[]));
}
