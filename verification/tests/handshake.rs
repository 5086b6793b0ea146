use quic_client::ack::AckFrame;
use quic_client::connect::{
    collect_handshake, initial_packet, Action, ConnectFuture, ConnectFutureState, Event,
    QuicStream, HANDSHAKE_STREAM, RECEIVE_CAPACITY,
};
use quic_client::crypto::{derive_handshake_keys, derive_initial_keys, PacketKey};
use quic_client::error::{CryptoError, Error};
use quic_client::frame::{Frame, StreamFrame};
use quic_client::packet::{Header, LongType, Packet};
use quic_client::types::{generate_connection_id, generate_packet_number, DRAFT_10};

const ID: u64 = 0x8394_c8f0_3e51_5708;
const SERVER: &str = "example.test";

fn stream(id: u64, offset: u64, data: &[u8]) -> Frame {
    Frame::Stream(StreamFrame {
        id,
        fin: false,
        offset,
        len: Some(data.len() as u64),
        data: data.to_vec(),
    })
}

fn long(ptype: LongType, number: u32) -> Header {
    Header::Long { ptype, conn_id: ID, version: DRAFT_10, number }
}

fn datagram(header: Header, key: &PacketKey, frames: Vec<Frame>) -> Vec<u8> {
    let packet = Packet { header, payload: frames };
    let mut buf = Vec::new();
    packet.encode(key, &mut buf).unwrap();
    buf
}

/// A datagram of the initial epoch from the server.
fn response(number: u32, frames: Vec<Frame>) -> Vec<u8> {
    let key = derive_initial_keys(ID).server_write;
    datagram(long(LongType::Initial, number), &key, frames)
}

fn received(datagram: &[u8]) -> Event {
    let mut buf = vec![0u8; RECEIVE_CAPACITY];
    buf[..datagram.len()].copy_from_slice(datagram);
    Event::Received(buf, datagram.len())
}

fn is_receive(action: &Action) -> bool {
    match action {
        Action::Receive(buf) => buf.len() == RECEIVE_CAPACITY,
        _ => false,
    }
}

fn sent(action: Action) -> Vec<u8> {
    match action {
        Action::Send(bytes) => bytes,
        other => panic!("not a send: {:?}", other),
    }
}

fn sending(number: u32, flight: &[u8]) -> (ConnectFuture, Vec<u8>) {
    QuicStream::connect_with(SERVER, ID, number, flight.to_vec()).unwrap()
}

fn waiting() -> ConnectFuture {
    let (mut future, datagram) = sending(10, b"client hello");
    assert!(is_receive(&future.poll(Event::Sent(datagram))));
    assert_eq!(future.state(), ConnectFutureState::WaitingForResponse);
    future
}

fn advancing() -> ConnectFuture {
    let mut future = waiting();
    let bytes = response(1, vec![stream(0, 0, b"server hello")]);
    assert_eq!(future.poll(received(&bytes)), Action::Deliver(b"server hello".to_vec()));
    assert_eq!(future.state(), ConnectFutureState::Advancing);
    future
}

#[test]
fn first_flight_of_512_bytes() {
    let blob: Vec<u8> = (0..512).map(|i| (i % 251) as u8).collect();
    let packet = initial_packet(7, 9, blob.clone());
    assert_eq!(
        packet.header,
        Header::Long { ptype: LongType::Initial, conn_id: 7, version: DRAFT_10, number: 9 }
    );
    assert_eq!(packet.payload.len(), 1);
    match &packet.payload[0] {
        Frame::Stream(frame) => {
            assert_eq!(frame.id, HANDSHAKE_STREAM);
            assert_eq!(frame.offset, 0);
            assert!(!frame.fin);
            assert_eq!(frame.len, Some(512));
            assert_eq!(frame.data.len(), 512);
            assert_eq!(frame.data, blob);
        }
        other => panic!("not a stream frame: {:?}", other),
    }
    assert!(packet.is_valid());
}

#[test]
fn connect_encodes_the_initial_packet_under_the_client_key() {
    let (future, datagram) = sending(10, b"client hello");
    assert_eq!(future.state(), ConnectFutureState::InitialSent);
    assert_eq!(future.conn_id(), ID);
    assert_eq!(future.number(), 10);
    assert!(!future.is_terminal());
    let key = derive_initial_keys(ID).client_write;
    let expected = initial_packet(ID, 10, b"client hello".to_vec());
    assert_eq!(Packet::decode(&datagram, &key), Ok(expected));
}

#[test]
fn connect_refuses_a_server_name_that_tls_cannot_verify() {
    let refused = [
        "",
        " ",
        "exa mple.test",
        "-example.test",
        "example-.test",
        "a..b",
        "1.2.3",
        "example.test/",
    ];
    for name in refused {
        let outcome = QuicStream::connect_with(name, ID, 10, b"client hello".to_vec());
        assert_eq!(outcome.err(), Some(Error::Configuration), "{:?}", name);
        let outcome = QuicStream::connect(name, b"client hello".to_vec());
        assert_eq!(outcome.err(), Some(Error::Configuration), "{:?}", name);
    }
    let accepted = [
        "example.test",
        "example.test.",
        "EXAMPLE.test",
        "a_b.example",
        "localhost",
        "127.0.0.1",
        "::1",
    ];
    for name in accepted {
        let outcome = QuicStream::connect_with(name, ID, 10, b"client hello".to_vec());
        assert!(outcome.is_ok(), "{:?}", name);
    }
}

#[test]
fn connect_draws_its_own_identifiers() {
    let (future, datagram) = QuicStream::connect(SERVER, b"client hello".to_vec()).unwrap();
    assert_eq!(future.state(), ConnectFutureState::InitialSent);
    let key = derive_initial_keys(future.conn_id()).client_write;
    let expected = initial_packet(future.conn_id(), future.number(), b"client hello".to_vec());
    assert_eq!(Packet::decode(&datagram, &key), Ok(expected));
    let (other, _) = QuicStream::connect(SERVER, b"client hello".to_vec()).unwrap();
    assert_ne!(other.conn_id(), future.conn_id());
}

#[test]
fn after_the_initial_send_one_receive_of_full_capacity() {
    let flight = vec![0x16u8; 1200 - 18 - 16 - 4];
    let (mut future, datagram) = sending(10, &flight);
    assert_eq!(datagram.len(), 1200);
    match future.poll(Event::Sent(datagram.clone())) {
        Action::Receive(buf) => {
            assert_eq!(buf.len(), 65536);
            assert_eq!(&buf[..1200], &datagram[..]);
            assert!(buf[1200..].iter().all(|b| *b == 0));
        }
        other => panic!("not a receive: {:?}", other),
    }
    assert_eq!(future.state(), ConnectFutureState::WaitingForResponse);
    assert_eq!(future.poll(Event::Sent(Vec::new())), Action::Wait);
    assert_eq!(future.state(), ConnectFutureState::WaitingForResponse);
}

#[test]
fn a_buffer_longer_than_the_capacity_is_cut() {
    let (mut future, _) = sending(10, b"");
    let action = future.poll(Event::Sent(vec![5u8; 70000]));
    assert_eq!(action, Action::Receive(vec![5u8; 65536]));
}

#[test]
fn connection_ids_do_not_repeat() {
    let mut ids: Vec<u64> = (0..1000).map(|_| generate_connection_id()).collect();
    ids.sort();
    ids.dedup();
    assert_eq!(ids.len(), 1000);
    assert_ne!(generate_connection_id(), generate_connection_id());
}

#[test]
fn packet_numbers_spread_over_the_range() {
    let numbers: Vec<u32> = (0..1000).map(|_| generate_packet_number()).collect();
    let mut distinct = numbers.clone();
    distinct.sort();
    distinct.dedup();
    assert!(distinct.len() > 990);
    assert!(numbers.iter().any(|n| *n >= 1 << 31));
    assert!(numbers.iter().any(|n| *n < 1 << 31));
    assert!(numbers.iter().any(|n| n % 2 == 1));
}

#[test]
fn the_response_is_decoded_and_handed_to_tls() {
    let future = advancing();
    assert_eq!(future.number(), 10);
}

#[test]
fn a_datagram_longer_than_reported_is_cut_to_length() {
    let mut future = waiting();
    let bytes = response(1, vec![stream(0, 0, b"sh")]);
    let mut buf = bytes.clone();
    buf.extend_from_slice(&[0xaa; 40]);
    assert_eq!(future.poll(Event::Received(buf, bytes.len())), Action::Deliver(b"sh".to_vec()));
}

#[test]
fn a_reported_length_beyond_the_buffer_takes_the_whole_buffer() {
    let mut future = waiting();
    let bytes = response(1, vec![stream(0, 0, b"sh")]);
    assert_eq!(future.poll(Event::Received(bytes, usize::MAX)), Action::Deliver(b"sh".to_vec()));
}

#[test]
fn datagrams_that_do_not_decode_are_dropped() {
    let mut future = waiting();
    let keys = derive_initial_keys(ID);
    let hello = || vec![stream(0, 0, b"sh")];
    let good = response(1, hello());
    let mut tampered = good.clone();
    tampered[30] ^= 0x80;
    let other_version =
        Header::Long { ptype: LongType::Initial, conn_id: ID, version: 0xff00_000b, number: 1 };
    let dropped: Vec<Vec<u8>> = vec![
        Vec::new(),
        vec![0u8; 100],
        good[..17].to_vec(),
        tampered,
        datagram(long(LongType::Initial, 1), &keys.client_write, hello()),
        datagram(other_version, &keys.server_write, hello()),
        datagram(long(LongType::Handshake, 1), &keys.server_write, hello()),
        response(1, vec![Frame::Ping]),
        response(1, vec![stream(0, 1, b"sh")]),
        response(1, vec![stream(4, 0, b"sh")]),
        response(1, vec![stream(0, 0, b"")]),
    ];
    for bytes in dropped {
        let action = future.poll(received(&bytes));
        assert!(is_receive(&action), "{:?}", action);
        assert_eq!(future.state(), ConnectFutureState::WaitingForResponse);
    }
    assert_eq!(future.poll(received(&good)), Action::Deliver(b"sh".to_vec()));
}

#[test]
fn short_header_datagrams_are_dropped_during_the_handshake() {
    let mut future = waiting();
    let key = derive_initial_keys(ID).server_write;
    let header = Header::Short { conn_id: Some(ID), number: 1 };
    let bytes = datagram(header, &key, vec![stream(0, 0, b"sh")]);
    assert!(is_receive(&future.poll(received(&bytes))));
    assert_eq!(future.state(), ConnectFutureState::WaitingForResponse);
}

#[test]
fn handshake_bytes_are_delivered_in_stream_order() {
    let mut future = waiting();
    let frames = vec![
        stream(0, 8, b"three"),
        Frame::Ack(AckFrame { largest: 10, delay: 0, first_range: 0, ranges: Vec::new() }),
        stream(3, 4, b"other stream "),
        stream(0, 4, b"two "),
        stream(0, 99, b"gap "),
        Frame::Padding,
        stream(0, 0, b"one "),
        stream(0, 4, b"2nd "),
    ];
    let bytes = response(1, frames);
    assert_eq!(future.poll(received(&bytes)), Action::Deliver(b"one two three".to_vec()));
    assert_eq!(future.poll(Event::Flight(Vec::new(), None)), Action::Receive(vec![0u8; 65536]));
    let again = response(2, vec![stream(0, 0, b"one ")]);
    assert!(is_receive(&future.poll(received(&again))));
    let next = response(3, vec![stream(0, 13, b" four")]);
    assert_eq!(future.poll(received(&next)), Action::Deliver(b" four".to_vec()));
}

#[test]
fn collecting_handshake_bytes() {
    let frames = vec![stream(0, 5, b"ab"), stream(0, 7, b"cd"), stream(0, 5, b"xy")];
    assert_eq!(collect_handshake(&frames, 5), b"abcd".to_vec());
    assert_eq!(collect_handshake(&frames, 7), b"cd".to_vec());
    assert_eq!(collect_handshake(&frames, 0), Vec::<u8>::new());
    assert_eq!(collect_handshake(&Vec::new(), 0), Vec::<u8>::new());
    let backwards = vec![stream(0, 2, b"c"), stream(0, 1, b"b"), stream(0, 0, b"a")];
    assert_eq!(collect_handshake(&backwards, 0), b"abc".to_vec());
    assert_eq!(collect_handshake(&backwards, 1), b"bc".to_vec());
    assert_eq!(collect_handshake(&backwards, 3), Vec::<u8>::new());
    let empty_first = vec![stream(0, 0, b""), stream(0, 0, b"a")];
    assert_eq!(collect_handshake(&empty_first, 0), b"a".to_vec());
    let max = 0x3fff_ffff_ffff_ffff;
    assert_eq!(collect_handshake(&vec![stream(0, max, b"")], max), Vec::<u8>::new());
    assert_eq!(collect_handshake(&vec![stream(0, max, b"z")], max), Vec::<u8>::new());
    assert_eq!(collect_handshake(&vec![stream(0, max - 1, b"z")], max - 1), b"z".to_vec());
    let open =
        Frame::Stream(StreamFrame { id: 0, fin: true, offset: 2, len: None, data: b"end".to_vec() });
    assert_eq!(collect_handshake(&vec![stream(0, 0, b"in"), open], 0), b"inend".to_vec());
}

#[test]
fn the_next_flight_goes_out_under_the_initial_keys_until_a_secret_arrives() {
    let mut future = advancing();
    let bytes = sent(future.poll(Event::Flight(b"finished".to_vec(), None)));
    assert_eq!(future.state(), ConnectFutureState::InitialSent);
    assert_eq!(future.number(), 11);
    let key = derive_initial_keys(ID).client_write;
    let expected =
        Packet { header: long(LongType::Initial, 11), payload: vec![stream(0, 12, b"finished")] };
    assert_eq!(Packet::decode(&bytes, &key), Ok(expected));
}

#[test]
fn a_whole_handshake() {
    let mut future = advancing();
    let secret = vec![0x42u8; 32];
    let keys = derive_handshake_keys(&secret).unwrap();

    let flight = Event::Flight(b"client finished".to_vec(), Some(secret.clone()));
    let bytes = sent(future.poll(flight));
    assert_eq!(future.state(), ConnectFutureState::InitialSent);
    let expected = Packet {
        header: long(LongType::Handshake, 11),
        payload: vec![stream(0, 12, b"client finished")],
    };
    assert_eq!(Packet::decode(&bytes, &keys.client_write), Ok(expected));
    assert_eq!(
        Packet::decode(&bytes, &derive_initial_keys(ID).client_write),
        Err(Error::Crypto(CryptoError::AuthenticationFailure))
    );

    assert!(is_receive(&future.poll(Event::Sent(bytes))));
    let answer = datagram(
        long(LongType::Handshake, 2),
        &keys.server_write,
        vec![stream(0, 12, b"server finished")],
    );
    assert_eq!(future.poll(received(&answer)), Action::Deliver(b"server finished".to_vec()));
    assert_eq!(future.poll(Event::HandshakeComplete), Action::Done);
    assert_eq!(future.state(), ConnectFutureState::Established);
    assert!(future.is_terminal());

    assert_eq!(future.poll(Event::TransportFailed), Action::Done);
    assert_eq!(future.poll(Event::Sent(Vec::new())), Action::Done);
    assert_eq!(future.poll(received(&answer)), Action::Done);
    assert_eq!(future.state(), ConnectFutureState::Established);
}

#[test]
fn a_later_secret_replaces_the_handshake_keys() {
    let mut future = advancing();
    let first = vec![1u8; 32];
    let second = vec![2u8; 48];
    sent(future.poll(Event::Flight(b"a".to_vec(), Some(first.clone()))));
    assert!(is_receive(&future.poll(Event::Sent(Vec::new()))));
    let keys = derive_handshake_keys(&first).unwrap();
    let answer =
        datagram(long(LongType::Handshake, 2), &keys.server_write, vec![stream(0, 12, b"b")]);
    assert_eq!(future.poll(received(&answer)), Action::Deliver(b"b".to_vec()));
    let bytes = sent(future.poll(Event::Flight(b"c".to_vec(), Some(second.clone()))));
    let newer = derive_handshake_keys(&second).unwrap();
    let expected =
        Packet { header: long(LongType::Handshake, 12), payload: vec![stream(0, 13, b"c")] };
    assert_eq!(Packet::decode(&bytes, &newer.client_write), Ok(expected));
}

#[test]
fn an_empty_flight_means_receive_again() {
    let mut future = advancing();
    let action = future.poll(Event::Flight(Vec::new(), None));
    assert_eq!(action, Action::Receive(vec![0u8; 65536]));
    assert_eq!(future.state(), ConnectFutureState::WaitingForResponse);
    assert_eq!(future.number(), 10);
}

#[test]
fn packet_numbers_wrap_around() {
    let (mut future, first) = sending(u32::MAX, b"ch");
    assert!(is_receive(&future.poll(Event::Sent(first))));
    let bytes = response(1, vec![stream(0, 0, b"sh")]);
    assert_eq!(future.poll(received(&bytes)), Action::Deliver(b"sh".to_vec()));
    sent(future.poll(Event::Flight(b"x".to_vec(), None)));
    assert_eq!(future.number(), 0);
}

#[test]
fn a_secret_of_a_refused_length_is_fatal() {
    for secret in [Vec::new(), vec![0u8; 8161]] {
        let mut future = advancing();
        let failure = Error::Crypto(CryptoError::InvalidLength);
        let action = future.poll(Event::Flight(b"x".to_vec(), Some(secret)));
        assert_eq!(action, Action::Fail(failure));
        assert_eq!(future.state(), ConnectFutureState::Failed(failure));
        assert!(future.is_terminal());
        assert_eq!(future.poll(Event::HandshakeComplete), Action::Fail(failure));
    }
}

#[test]
fn a_tls_failure_is_fatal() {
    let mut future = advancing();
    assert_eq!(future.poll(Event::HandshakeFailed), Action::Fail(Error::Handshake));
    assert_eq!(future.state(), ConnectFutureState::Failed(Error::Handshake));
    assert_eq!(future.poll(Event::Sent(Vec::new())), Action::Fail(Error::Handshake));
}

#[test]
fn a_transport_failure_is_fatal_in_every_live_state() {
    for mut future in [sending(10, b"").0, waiting(), advancing()] {
        assert_eq!(future.poll(Event::TransportFailed), Action::Fail(Error::Transport));
        assert_eq!(future.state(), ConnectFutureState::Failed(Error::Transport));
        assert_eq!(future.poll(Event::HandshakeComplete), Action::Fail(Error::Transport));
        assert_eq!(future.state(), ConnectFutureState::Failed(Error::Transport));
    }
}

#[test]
fn events_that_no_operation_is_waiting_for_change_nothing() {
    let secret = Some(vec![1u8; 32]);
    let (mut future, _) = sending(10, b"");
    for event in [
        received(&[1, 2, 3]),
        Event::Flight(b"x".to_vec(), secret.clone()),
        Event::HandshakeComplete,
        Event::HandshakeFailed,
    ] {
        assert_eq!(future.poll(event), Action::Wait);
        assert_eq!(future.state(), ConnectFutureState::InitialSent);
    }
    let mut future = waiting();
    for event in [
        Event::Sent(Vec::new()),
        Event::Flight(b"x".to_vec(), secret.clone()),
        Event::HandshakeComplete,
        Event::HandshakeFailed,
    ] {
        assert_eq!(future.poll(event), Action::Wait);
        assert_eq!(future.state(), ConnectFutureState::WaitingForResponse);
    }
    let mut future = advancing();
    for event in [Event::Sent(Vec::new()), received(&[1, 2, 3])] {
        assert_eq!(future.poll(event), Action::Wait);
        assert_eq!(future.state(), ConnectFutureState::Advancing);
    }
}

#[test]
fn which_errors_concern_one_datagram_only() {
    assert!(Error::MalformedPacket.is_discardable());
    assert!(Error::Crypto(CryptoError::AuthenticationFailure).is_discardable());
    assert!(!Error::Crypto(CryptoError::InvalidLength).is_discardable());
    assert!(!Error::Transport.is_discardable());
    assert!(!Error::Configuration.is_discardable());
    assert!(!Error::Handshake.is_discardable());
}
