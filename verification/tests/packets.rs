use quic_client::ack::{AckFrame, AckRange};
use quic_client::crypto::{derive_initial_keys, PacketKey};
use quic_client::error::{CryptoError, Error};
use quic_client::frame::{Frame, StreamFrame};
use quic_client::packet::{Header, LongType, Packet};
use quic_client::types::DRAFT_10;

fn hex(s: &str) -> Vec<u8> {
    (0..s.len()).step_by(2).map(|i| u8::from_str_radix(&s[i..i + 2], 16).unwrap()).collect()
}

fn stream(offset: u64, len: Option<u64>, data: &[u8]) -> Frame {
    Frame::Stream(StreamFrame { id: 0, fin: false, offset, len, data: data.to_vec() })
}

fn hello() -> Packet {
    Packet {
        header: Header::initial(0x8394_c8f0_3e51_5708, DRAFT_10, 2),
        payload: vec![stream(0, Some(5), b"hello")],
    }
}

fn sample_packets() -> Vec<Packet> {
    vec![
        hello(),
        Packet {
            header: Header::Long {
                ptype: LongType::Handshake,
                conn_id: u64::MAX,
                version: 1,
                number: u32::MAX,
            },
            payload: vec![
                Frame::Ack(AckFrame {
                    largest: 9,
                    delay: 1000,
                    first_range: 2,
                    ranges: vec![AckRange { gap: 1, len: 1 }],
                }),
                Frame::Padding,
                Frame::Padding,
                stream(1 << 40, None, &[0u8; 300]),
            ],
        },
        Packet { header: Header::Short { conn_id: None, number: 0 }, payload: vec![Frame::Ping] },
        Packet {
            header: Header::Short { conn_id: Some(77), number: 5 },
            payload: vec![stream(0, Some(0), &[]), stream(0, None, &[])],
        },
    ]
}

#[test]
fn datagram_of_a_known_packet() {
    let key = derive_initial_keys(0x8394_c8f0_3e51_5708).client_write;
    let mut buf = Vec::new();
    assert_eq!(hello().encode(&key, &mut buf), Ok(()));
    assert_eq!(
        buf,
        hex("ffff00000a088394c8f03e51570800000002d90d70f1dfdc856145de66ac5f48a995ea539adea8a04dab")
    );
}

#[test]
fn encode_then_decode_gives_the_packet_back() {
    let keys = derive_initial_keys(1234);
    for packet in sample_packets() {
        for key in [&keys.client_write, &keys.server_write] {
            let mut buf = Vec::new();
            assert_eq!(packet.encode(key, &mut buf), Ok(()));
            assert_eq!(Packet::decode(&buf, key), Ok(packet.clone()));
        }
    }
}

#[test]
fn the_header_travels_in_the_clear() {
    let key = derive_initial_keys(1).client_write;
    let packet = hello();
    let mut buf = Vec::new();
    packet.encode(&key, &mut buf).unwrap();
    assert_eq!(Header::decode(&buf), Some((packet.header, 18)));
    assert_eq!(buf.len(), 18 + 8 + 16);
    assert_ne!(&buf[18..26], &[0x12, 0x00, 0x05, b'h', b'e', b'l', b'l', b'o'][..]);
}

#[test]
fn encode_appends_to_the_buffer() {
    let key = derive_initial_keys(1).client_write;
    let mut alone = Vec::new();
    hello().encode(&key, &mut alone).unwrap();
    let mut buf = vec![1, 2, 3];
    hello().encode(&key, &mut buf).unwrap();
    assert_eq!(&buf[..3], &[1, 2, 3]);
    assert_eq!(&buf[3..], &alone[..]);
}

#[test]
fn decoding_no_bytes_is_malformed() {
    let key = derive_initial_keys(1).client_write;
    assert_eq!(Packet::decode(&[], &key), Err(Error::MalformedPacket));
}

#[test]
fn every_flipped_bit_is_detected() {
    let key = derive_initial_keys(0x8394_c8f0_3e51_5708).client_write;
    for packet in sample_packets() {
        let mut datagram = Vec::new();
        packet.encode(&key, &mut datagram).unwrap();
        for i in 0..datagram.len() {
            for bit in 0..8 {
                let mut mutated = datagram.clone();
                mutated[i] ^= 1 << bit;
                let outcome = Packet::decode(&mutated, &key);
                assert!(
                    outcome == Err(Error::MalformedPacket)
                        || outcome == Err(Error::Crypto(CryptoError::AuthenticationFailure)),
                    "byte {} bit {} gave {:?}",
                    i,
                    bit,
                    outcome
                );
            }
        }
    }
}

#[test]
fn cut_and_lengthened_datagrams_are_refused() {
    let key = derive_initial_keys(3).client_write;
    let mut datagram = Vec::new();
    hello().encode(&key, &mut datagram).unwrap();
    for n in 0..datagram.len() {
        let outcome = Packet::decode(&datagram[..n], &key);
        if n < 18 {
            assert_eq!(outcome, Err(Error::MalformedPacket));
        } else {
            assert_eq!(outcome, Err(Error::Crypto(CryptoError::AuthenticationFailure)));
        }
    }
    datagram.push(0);
    assert_eq!(
        Packet::decode(&datagram, &key),
        Err(Error::Crypto(CryptoError::AuthenticationFailure))
    );
}

#[test]
fn the_wrong_key_does_not_open() {
    let keys = derive_initial_keys(3);
    let mut datagram = Vec::new();
    hello().encode(&keys.client_write, &mut datagram).unwrap();
    let failure = Err(Error::Crypto(CryptoError::AuthenticationFailure));
    assert_eq!(Packet::decode(&datagram, &keys.server_write), failure);
    assert_eq!(Packet::decode(&datagram, &derive_initial_keys(4).client_write), failure);
}

#[test]
fn authentic_garbage_is_malformed() {
    let key = PacketKey::new(&[9; 16], &[8; 12]).unwrap();
    let header = Header::initial(1, DRAFT_10, 6);
    let mut head = Vec::new();
    header.encode(&mut head);
    for plaintext in [&[][..], &[0x01][..], &[0x12, 0x00, 0x09, 1][..], &[0x0d, 0x00][..]] {
        let mut datagram = head.clone();
        datagram.extend_from_slice(&key.seal(6, &head, plaintext).unwrap());
        assert_eq!(Packet::decode(&datagram, &key), Err(Error::MalformedPacket));
    }
    let mut datagram = head.clone();
    datagram.extend_from_slice(&key.seal(6, &head, &[0x07]).unwrap());
    assert_eq!(
        Packet::decode(&datagram, &key),
        Ok(Packet { header, payload: vec![Frame::Ping] })
    );
}

#[test]
fn packets_that_cannot_go_on_the_wire() {
    let key = derive_initial_keys(3).client_write;
    let header = Header::initial(1, DRAFT_10, 6);
    let invalid = vec![
        Vec::new(),
        vec![stream(0, None, b"open"), Frame::Ping],
        vec![stream(0, Some(3), b"four")],
        vec![stream(1 << 62, Some(0), b"")],
        vec![Frame::Stream(StreamFrame {
            id: 1 << 62,
            fin: true,
            offset: 0,
            len: None,
            data: Vec::new(),
        })],
        vec![Frame::Ack(AckFrame {
            largest: 0,
            delay: u64::MAX,
            first_range: 0,
            ranges: Vec::new(),
        })],
    ];
    for payload in invalid {
        assert_eq!(Packet::new(header, payload.clone()), Err(Error::MalformedPacket));
        let packet = Packet { header, payload };
        assert!(!packet.is_valid());
        let mut buf = vec![0xaa, 0xbb];
        assert_eq!(packet.encode(&key, &mut buf), Err(Error::MalformedPacket));
        assert_eq!(buf, vec![0xaa, 0xbb]);
    }
    let valid = Packet::new(header, vec![stream(0, Some(4), b"four")]).unwrap();
    assert!(valid.is_valid());
    assert_eq!(valid.header, header);
    assert_eq!(valid.payload, vec![stream(0, Some(4), b"four")]);
}

#[test]
fn packet_connection_id() {
    assert_eq!(hello().conn_id(), Some(0x8394_c8f0_3e51_5708));
    let short = Packet { header: Header::Short { conn_id: None, number: 0 }, payload: vec![] };
    assert_eq!(short.conn_id(), None);
}
