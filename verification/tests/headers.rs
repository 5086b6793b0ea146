use quic_client::packet::{Epoch, Header, LongType};
use quic_client::types::{packet_number_of, version_supported, DRAFT_10};

fn encoded(header: &Header) -> Vec<u8> {
    let mut buf = vec![0xee];
    header.encode(&mut buf);
    assert_eq!(buf[0], 0xee);
    buf[1..].to_vec()
}

#[test]
fn long_header_layout() {
    let header = Header::initial(0x8394_c8f0_3e51_5708, DRAFT_10, 2);
    assert_eq!(
        encoded(&header),
        vec![
            0xff, 0xff, 0x00, 0x00, 0x0a, 0x08, 0x83, 0x94, 0xc8, 0xf0, 0x3e, 0x51, 0x57, 0x08,
            0x00, 0x00, 0x00, 0x02
        ]
    );
}

#[test]
fn long_header_types_have_their_codes() {
    let cases = [
        (LongType::Initial, 0xff),
        (LongType::Retry, 0xfe),
        (LongType::Handshake, 0xfd),
        (LongType::ZeroRtt, 0xfc),
    ];
    for (ptype, first) in cases {
        let header = Header::Long { ptype, conn_id: 1, version: 2, number: 3 };
        let bytes = encoded(&header);
        assert_eq!(bytes[0], first);
        assert_eq!(bytes.len(), 18);
        assert_eq!(Header::decode(&bytes), Some((header, 18)));
        assert_eq!(LongType::from_code(ptype.code()), Some(ptype));
    }
    assert_eq!(LongType::from_code(0x7b), None);
    assert_eq!(LongType::from_code(0), None);
}

#[test]
fn short_header_layout() {
    let with_id = Header::Short { conn_id: Some(0x0102_0304_0506_0708), number: 0xa0b0_c0d0 };
    assert_eq!(
        encoded(&with_id),
        vec![0x12, 0x08, 1, 2, 3, 4, 5, 6, 7, 8, 0xa0, 0xb0, 0xc0, 0xd0]
    );
    let without = Header::Short { conn_id: None, number: 1 };
    assert_eq!(encoded(&without), vec![0x12, 0x00, 0, 0, 0, 1]);
    assert_eq!(Header::decode(&encoded(&with_id)), Some((with_id, 14)));
    assert_eq!(Header::decode(&encoded(&without)), Some((without, 6)));
}

#[test]
fn header_is_read_from_the_front_only() {
    let header = Header::Long {
        ptype: LongType::Handshake,
        conn_id: u64::MAX,
        version: u32::MAX,
        number: u32::MAX,
    };
    let mut bytes = encoded(&header);
    bytes.extend_from_slice(&[1, 2, 3]);
    assert_eq!(Header::decode(&bytes), Some((header, 18)));
}

#[test]
fn malformed_headers_are_refused() {
    assert_eq!(Header::decode(&[]), None);
    assert_eq!(Header::decode(&[0xff]), None);
    let good = encoded(&Header::initial(7, DRAFT_10, 9));
    assert_eq!(Header::decode(&good[..17]), None);
    let mut unknown_type = good.clone();
    unknown_type[0] = 0x80;
    assert_eq!(Header::decode(&unknown_type), None);
    let mut wrong_id_len = good.clone();
    wrong_id_len[5] = 4;
    assert_eq!(Header::decode(&wrong_id_len), None);
    assert_eq!(Header::decode(&[0x13, 0x00, 0, 0, 0, 1]), None);
    assert_eq!(Header::decode(&[0x12, 0x04, 0, 0, 0, 1, 0, 0, 0, 0, 0, 0, 0, 0]), None);
    assert_eq!(Header::decode(&[0x12, 0x00, 0, 0, 0]), None);
    assert_eq!(Header::decode(&[0x12, 0x08, 1, 2, 3, 4, 5, 6, 7, 8, 0, 0, 0]), None);
}

#[test]
fn connection_id_is_there_when_the_header_carries_one() {
    assert_eq!(Header::initial(42, DRAFT_10, 0).conn_id(), Some(42));
    assert_eq!(Header::Short { conn_id: Some(43), number: 0 }.conn_id(), Some(43));
    assert_eq!(Header::Short { conn_id: None, number: 0 }.conn_id(), None);
    assert_eq!(Header::Short { conn_id: None, number: 77 }.number(), 77);
    assert_eq!(Header::initial(42, DRAFT_10, 78).number(), 78);
}

#[test]
fn packet_type_decides_the_epoch() {
    let long = |ptype| Header::Long { ptype, conn_id: 0, version: DRAFT_10, number: 0 };
    assert_eq!(long(LongType::Initial).epoch(), Epoch::Initial);
    assert_eq!(long(LongType::Retry).epoch(), Epoch::Initial);
    assert_eq!(long(LongType::Handshake).epoch(), Epoch::Handshake);
    assert_eq!(long(LongType::ZeroRtt).epoch(), Epoch::Handshake);
    assert_eq!(Header::Short { conn_id: None, number: 0 }.epoch(), Epoch::OneRtt);
}

#[test]
fn version_is_matched_exactly() {
    assert_eq!(DRAFT_10, 0xff00_000a);
    assert!(version_supported(DRAFT_10));
    assert!(!version_supported(0xff00_000b));
    assert!(!version_supported(0));
    assert!(!version_supported(1));
}

#[test]
fn a_packet_number_is_the_high_half_of_its_draw() {
    assert_eq!(packet_number_of(0), 0);
    assert_eq!(packet_number_of(0xffff_ffff), 0);
    assert_eq!(packet_number_of(0x1_0000_0000), 1);
    assert_eq!(packet_number_of(0x1234_5678_9abc_def0), 0x1234_5678);
    assert_eq!(packet_number_of(u64::MAX), u32::MAX);
}
