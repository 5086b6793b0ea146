//! The client's side of connection establishment.
//!
//! The library decides; its caller owns the socket and the TLS engine. The
//! caller reports each finished operation as an [`Event`] and carries out
//! the [`Action`] that [`ConnectFuture::poll`] answers with. At most one
//! operation is under way at any time.

use crate::codec::{put_bytes, VARINT_MAX};
use crate::crypto::{
    derive_handshake_keys, derive_initial_keys, handshake_keys, initial_keys,
    secret_len_accepted, KeyPair, KeyPairView, PacketKey, PacketKeyView,
};
use crate::error::{CryptoError, Error};
use crate::frame::{frames_view, Frame, FrameView, StreamFrame, StreamFrameView};
use crate::packet::{
    decode_packet, encode_packet, Epoch, Header, LongType, Packet, PacketView,
};
use crate::types::{
    generate_connection_id, generate_packet_number, spec_version_supported, version_supported,
    ConnectionId, PacketNumber, DRAFT_10,
};
use rustls::pki_types::ServerName;
use vstd::prelude::*;
use vstd::slice::slice_subrange;

verus! {

/// Length of the buffer that every receive is issued with.
pub const RECEIVE_CAPACITY: usize = 65536;

/// The stream that carries the TLS handshake.
pub const HANDSHAKE_STREAM: u64 = 0;

/// Where a handshake stands.
#[derive(Clone, Copy, Debug, PartialEq, Eq)]
pub enum ConnectFutureState {
    /// A datagram with a handshake flight is being sent.
    InitialSent,
    /// A receive is under way.
    WaitingForResponse,
    /// The TLS engine is working on handshake bytes handed to it.
    Advancing,
    /// The handshake is complete.
    Established,
    /// The handshake failed for good.
    Failed(Error),
}

/// An operation that the caller finished.
#[derive(Clone, Debug, PartialEq, Eq)]
pub enum Event {
    /// The send is done; the transport hands the buffer back.
    Sent(Vec<u8>),
    /// The receive is done: the buffer, and the number of bytes of it that
    /// the datagram fills.
    Received(Vec<u8>, usize),
    /// The transport failed.
    TransportFailed,
    /// The TLS engine answered with its next flight, which may be empty,
    /// and with the secret of the handshake epoch if it has one to export.
    Flight(Vec<u8>, Option<Vec<u8>>),
    /// The TLS engine reports the handshake complete.
    HandshakeComplete,
    /// The TLS engine failed.
    HandshakeFailed,
}

/// What the caller is to do next.
#[derive(Clone, Debug, PartialEq, Eq)]
pub enum Action {
    /// Send this datagram to the peer, then report `Sent`.
    Send(Vec<u8>),
    /// Receive one datagram into this buffer, then report `Received`.
    Receive(Vec<u8>),
    /// Hand these handshake bytes to the TLS engine, then report what it
    /// answers.
    Deliver(Vec<u8>),
    /// The handshake is complete: stop.
    Done,
    /// The handshake failed: stop.
    Fail(Error),
    /// Nothing new: the operation under way is still the one to wait for.
    Wait,
}

/// Mathematical value of an [`Event`].
pub enum EventView {
    Sent(Seq<u8>),
    Received(Seq<u8>, usize),
    TransportFailed,
    Flight(Seq<u8>, Option<Seq<u8>>),
    HandshakeComplete,
    HandshakeFailed,
}

/// Mathematical value of an [`Action`].
pub enum ActionView {
    Send(Seq<u8>),
    Receive(Seq<u8>),
    Deliver(Seq<u8>),
    Done,
    Fail(Error),
    Wait,
}

impl View for Event {
    type V = EventView;

    open spec fn view(&self) -> EventView {
        match self {
            Event::Sent(buf) => EventView::Sent(buf@),
            Event::Received(buf, len) => EventView::Received(buf@, *len),
            Event::TransportFailed => EventView::TransportFailed,
            Event::Flight(data, secret) => EventView::Flight(
                data@,
                match secret {
                    Some(s) => Some(s@),
                    None => None,
                },
            ),
            Event::HandshakeComplete => EventView::HandshakeComplete,
            Event::HandshakeFailed => EventView::HandshakeFailed,
        }
    }
}

impl View for Action {
    type V = ActionView;

    open spec fn view(&self) -> ActionView {
        match self {
            Action::Send(d) => ActionView::Send(d@),
            Action::Receive(b) => ActionView::Receive(b@),
            Action::Deliver(d) => ActionView::Deliver(d@),
            Action::Done => ActionView::Done,
            Action::Fail(e) => ActionView::Fail(*e),
            Action::Wait => ActionView::Wait,
        }
    }
}

/// Mathematical value of a [`ConnectFuture`].
pub struct ConnectFutureView {
    pub state: ConnectFutureState,
    pub conn_id: ConnectionId,
    /// Number of the packet sent last.
    pub number: PacketNumber,
    /// Offset in the handshake stream of the next byte to send.
    pub send_offset: u64,
    /// Offset in the handshake stream of the next byte to hand to TLS.
    pub recv_offset: u64,
    pub initial: KeyPairView,
    pub handshake: Option<KeyPairView>,
}

/// The handshake of one connection, driven by [`ConnectFuture::poll`].
#[must_use]
pub struct ConnectFuture {
    state: ConnectFutureState,
    conn_id: ConnectionId,
    number: PacketNumber,
    send_offset: u64,
    recv_offset: u64,
    initial: KeyPair,
    handshake: Option<KeyPair>,
}

/// Entry point of the client.
pub struct QuicStream {}

/// Whether `name` names a server that TLS can verify: whether it reads as a
/// DNS name or as an IP address.
pub uninterp spec fn server_name_accepted(name: Seq<char>) -> bool;

/// `rustls::pki_types::ServerName::try_from` on `name`.
///
/// Trusted: whether the name is accepted is a function of the name.
#[verifier::external_body]
fn accepts_server_name(name: &str) -> (accepted: bool)
    ensures
        accepted == server_name_accepted(name@),
{
    ServerName::try_from(name).is_ok()
}

/// The datagram that opens a connection to `server`: the initial packet
/// around the first flight, under the client's initial key. There is none
/// for a server name that TLS cannot verify.
pub open spec fn first_datagram(
    server: Seq<char>,
    conn_id: ConnectionId,
    number: PacketNumber,
    first_flight: Seq<u8>,
) -> Result<Seq<u8>, Error> {
    if !server_name_accepted(server) {
        Err(Error::Configuration)
    } else {
        encode_packet(
            spec_initial_packet(conn_id, number, first_flight),
            initial_keys(conn_id).client_write,
        )
    }
}

/// The packet that carries a flight of the handshake: one stream frame on
/// the handshake stream, with an explicit length.
pub open spec fn flight_packet(
    ptype: LongType,
    conn_id: ConnectionId,
    number: PacketNumber,
    offset: u64,
    flight: Seq<u8>,
) -> PacketView {
    PacketView {
        header: Header::Long { ptype, conn_id, version: DRAFT_10, number },
        payload: seq![
            FrameView::Stream(
                StreamFrameView {
                    id: HANDSHAKE_STREAM,
                    fin: false,
                    offset,
                    len: Some(flight.len() as u64),
                    data: flight,
                },
            ),
        ],
    }
}

/// The first packet of a connection: type `Initial`, the first flight at
/// offset 0.
pub open spec fn spec_initial_packet(
    conn_id: ConnectionId,
    number: PacketNumber,
    first_flight: Seq<u8>,
) -> PacketView {
    flight_packet(LongType::Initial, conn_id, number, 0, first_flight)
}

/// A buffer brought to the length of a receive: cut, or filled up with
/// zeros.
pub open spec fn receive_buffer(buf: Seq<u8>) -> Seq<u8> {
    if buf.len() >= RECEIVE_CAPACITY {
        buf.take(RECEIVE_CAPACITY as int)
    } else {
        buf + Seq::new((RECEIVE_CAPACITY - buf.len()) as nat, |i: int| 0u8)
    }
}

/// The part of a receive buffer that the datagram fills.
pub open spec fn received_datagram(buf: Seq<u8>, len: usize) -> Seq<u8> {
    if len <= buf.len() {
        buf.take(len as int)
    } else {
        buf
    }
}

/// Whether `frame` brings the bytes of the handshake stream that start at
/// `offset`: at least one, and none beyond the largest stream offset.
pub open spec fn continues_at(frame: FrameView, offset: u64) -> bool {
    frame matches FrameView::Stream(s) && s.id == HANDSHAKE_STREAM && s.offset == offset && 0
        < s.data.len() && offset + s.data.len() <= VARINT_MAX
}

/// The data of the first frame of a payload that continues the handshake
/// stream at `offset`.
pub open spec fn next_chunk(frames: Seq<FrameView>, offset: u64) -> Option<Seq<u8>>
    decreases frames.len(),
{
    if frames.len() == 0 {
        None
    } else if continues_at(frames[0], offset) {
        Some(frames[0]->Stream_0.data)
    } else {
        next_chunk(frames.drop_first(), offset)
    }
}

/// The handshake bytes that a payload contributes from `offset` on, in
/// stream order, taking at most `rounds` frames.
pub open spec fn deliverable_in(frames: Seq<FrameView>, offset: u64, rounds: nat) -> Seq<u8>
    decreases rounds,
{
    if rounds == 0 {
        Seq::empty()
    } else {
        match next_chunk(frames, offset) {
            None => Seq::empty(),
            Some(data) => data + deliverable_in(
                frames,
                (offset + data.len()) as u64,
                (rounds - 1) as nat,
            ),
        }
    }
}

/// The handshake bytes that a payload contributes from `offset` on, in
/// stream order, wherever in the payload their frames stand: the frame
/// that starts at `offset`, then the one that starts where it ends, and so
/// on, until none continues. There are never more to take than there are
/// frames: see [`lemma_deliverable_complete`].
pub open spec fn deliverable(frames: Seq<FrameView>, offset: u64) -> Seq<u8> {
    deliverable_in(frames, offset, frames.len())
}

/// How many frames of a payload start at or behind `offset` of the
/// handshake stream.
pub open spec fn pending(frames: Seq<FrameView>, offset: u64) -> nat
    decreases frames.len(),
{
    if frames.len() == 0 {
        0
    } else {
        pending(frames.drop_first(), offset) + (if frames[0] matches FrameView::Stream(s) && s.id
            == HANDSHAKE_STREAM && s.offset >= offset {
            1nat
        } else {
            0nat
        })
    }
}

/// The number after `number`. It wraps around, so no number comes twice
/// among 2^32 packets in a row.
pub open spec fn next_number(number: PacketNumber) -> PacketNumber {
    if number == u32::MAX {
        0
    } else {
        (number + 1) as u32
    }
}

impl ConnectFutureView {
    /// The state right after the first flight went out.
    pub open spec fn start(conn_id: ConnectionId, number: PacketNumber, sent: nat) -> Self {
        ConnectFutureView {
            state: ConnectFutureState::InitialSent,
            conn_id,
            number,
            send_offset: sent as u64,
            recv_offset: 0,
            initial: initial_keys(conn_id),
            handshake: None,
        }
    }

    /// The same handshake in another state.
    pub open spec fn with_state(self, state: ConnectFutureState) -> Self {
        ConnectFutureView { state, ..self }
    }

    /// The state after a failure, and the action that reports it.
    pub open spec fn fail(self, e: Error) -> (Self, ActionView) {
        (self.with_state(ConnectFutureState::Failed(e)), ActionView::Fail(e))
    }

    /// Whether the handshake has ended, one way or the other.
    pub open spec fn terminal(self) -> bool {
        self.state is Established || self.state is Failed
    }

    /// The keys of `epoch`, if they are in place. Those of the initial
    /// epoch always are; those of the 1-RTT epoch never are before the
    /// handshake is over.
    pub open spec fn keys(self, epoch: Epoch) -> Option<KeyPairView> {
        match epoch {
            Epoch::Initial => Some(self.initial),
            Epoch::Handshake => self.handshake,
            Epoch::OneRtt => None,
        }
    }

    /// The type of the packets that carry the next flights: `Handshake`
    /// once the handshake keys are in place, `Initial` before.
    pub open spec fn flight_type(self) -> LongType {
        if self.handshake is Some {
            LongType::Handshake
        } else {
            LongType::Initial
        }
    }

    /// The key that a datagram from the peer is protected with, going by
    /// its header: the server's key of the header's epoch. `None` where the
    /// header does not parse, names another version, or belongs to an epoch
    /// whose keys are not in place.
    pub open spec fn response_key(self, datagram: Seq<u8>) -> Option<PacketKeyView> {
        match Header::parse(datagram) {
            None => None,
            Some((header, _)) => if header matches Header::Long { version, .. }
                && !spec_version_supported(version) {
                None
            } else {
                match self.keys(header.spec_epoch()) {
                    Some(keys) => Some(keys.server_write),
                    None => None,
                }
            },
        }
    }

    /// The handshake bytes that a datagram from the peer brings, if it
    /// decodes under the key that its header calls for and brings any.
    pub open spec fn delivery(self, datagram: Seq<u8>) -> Option<Seq<u8>> {
        match self.response_key(datagram) {
            None => None,
            Some(key) => match decode_packet(datagram, key) {
                Err(_) => None,
                Ok(packet) => {
                    let data = deliverable(packet.payload, self.recv_offset);
                    if data.len() == 0 {
                        None
                    } else {
                        Some(data)
                    }
                },
            },
        }
    }

    /// A datagram arrived while waiting for the response. One that does not
    /// decode, or brings nothing for the handshake, is dropped and the
    /// receive issued again. Else its handshake bytes go to the TLS engine.
    pub open spec fn on_datagram(self, buf: Seq<u8>, len: usize) -> (Self, ActionView) {
        match self.delivery(received_datagram(buf, len)) {
            None => (self, ActionView::Receive(receive_buffer(buf))),
            Some(data) => (
                ConnectFutureView {
                    state: ConnectFutureState::Advancing,
                    recv_offset: (self.recv_offset + data.len()) as u64,
                    ..self
                },
                ActionView::Deliver(data),
            ),
        }
    }

    /// The TLS engine answered. A secret it exports puts the handshake keys
    /// in place; one of a length that key derivation refuses is fatal. An
    /// empty flight means the engine waits for more: receive again. Else
    /// the flight goes out in the next packet, whose type says which epoch's
    /// keys protect it; a flight that cannot be encoded is fatal.
    pub open spec fn on_flight(self, flight: Seq<u8>, secret: Option<Seq<u8>>) -> (
        Self,
        ActionView,
    ) {
        if secret matches Some(s) && !secret_len_accepted(s.len()) {
            self.fail(Error::Crypto(CryptoError::InvalidLength))
        } else {
            let keyed = ConnectFutureView {
                handshake: match secret {
                    Some(s) => Some(handshake_keys(s)),
                    None => self.handshake,
                },
                ..self
            };
            if flight.len() == 0 {
                (
                    keyed.with_state(ConnectFutureState::WaitingForResponse),
                    ActionView::Receive(receive_buffer(Seq::empty())),
                )
            } else {
                let number = next_number(self.number);
                let ptype = keyed.flight_type();
                let packet = flight_packet(ptype, self.conn_id, number, self.send_offset, flight);
                match encode_packet(packet, keyed.keys(ptype.spec_epoch())->0.client_write) {
                    Err(e) => keyed.fail(e),
                    Ok(datagram) => (
                        ConnectFutureView {
                            state: ConnectFutureState::InitialSent,
                            number,
                            send_offset: (self.send_offset + flight.len()) as u64,
                            ..keyed
                        },
                        ActionView::Send(datagram),
                    ),
                }
            }
        }
    }

    /// The transition function: the state after `event`, and the action to
    /// take.
    ///
    /// An ended handshake stays as it is. A transport failure ends the
    /// handshake. Every other event counts only in the state that waits for
    /// it, and leaves everything as it is elsewhere.
    pub open spec fn step(self, event: EventView) -> (Self, ActionView) {
        match self.state {
            ConnectFutureState::Established => (self, ActionView::Done),
            ConnectFutureState::Failed(e) => (self, ActionView::Fail(e)),
            _ => match event {
                EventView::TransportFailed => self.fail(Error::Transport),
                EventView::Sent(buf) => if self.state is InitialSent {
                    (
                        self.with_state(ConnectFutureState::WaitingForResponse),
                        ActionView::Receive(receive_buffer(buf)),
                    )
                } else {
                    (self, ActionView::Wait)
                },
                EventView::Received(buf, len) => if self.state is WaitingForResponse {
                    self.on_datagram(buf, len)
                } else {
                    (self, ActionView::Wait)
                },
                EventView::Flight(flight, secret) => if self.state is Advancing {
                    self.on_flight(flight, secret)
                } else {
                    (self, ActionView::Wait)
                },
                EventView::HandshakeComplete => if self.state is Advancing {
                    (self.with_state(ConnectFutureState::Established), ActionView::Done)
                } else {
                    (self, ActionView::Wait)
                },
                EventView::HandshakeFailed => if self.state is Advancing {
                    self.fail(Error::Handshake)
                } else {
                    (self, ActionView::Wait)
                },
            },
        }
    }
}

impl View for ConnectFuture {
    type V = ConnectFutureView;

    closed spec fn view(&self) -> ConnectFutureView {
        ConnectFutureView {
            state: self.state,
            conn_id: self.conn_id,
            number: self.number,
            send_offset: self.send_offset,
            recv_offset: self.recv_offset,
            initial: self.initial@,
            handshake: match self.handshake {
                Some(keys) => Some(keys@),
                None => None,
            },
        }
    }
}

/// Handshake bytes that a payload contributes never lead past the largest
/// stream offset.
pub proof fn lemma_deliverable_bound(frames: Seq<FrameView>, offset: u64)
    ensures
        deliverable(frames, offset).len() > 0 ==> offset + deliverable(frames, offset).len()
            <= VARINT_MAX,
{
    lemma_deliverable_in_bound(frames, offset, frames.len());
}

/// The same for any number of rounds.
proof fn lemma_deliverable_in_bound(frames: Seq<FrameView>, offset: u64, rounds: nat)
    ensures
        deliverable_in(frames, offset, rounds).len() > 0 ==> offset + deliverable_in(
            frames,
            offset,
            rounds,
        ).len() <= VARINT_MAX,
    decreases rounds,
{
    if rounds > 0 {
        lemma_next_chunk(frames, offset);
        if let Some(data) = next_chunk(frames, offset) {
            lemma_deliverable_in_bound(frames, (offset + data.len()) as u64, (rounds - 1) as nat);
        }
    }
}

/// Taking more frames than the payload has adds nothing: the frames taken
/// start at ever larger offsets, so each is taken once.
pub proof fn lemma_deliverable_complete(frames: Seq<FrameView>, offset: u64, rounds: nat)
    requires
        rounds >= frames.len(),
    ensures
        deliverable_in(frames, offset, rounds) == deliverable(frames, offset),
{
    lemma_pending_bound(frames, offset, offset);
    lemma_deliverable_settles(frames, offset, frames.len(), rounds);
}

/// Once there are as many rounds as frames still pending, more rounds take
/// nothing more.
proof fn lemma_deliverable_settles(frames: Seq<FrameView>, offset: u64, few: nat, many: nat)
    requires
        pending(frames, offset) <= few <= many,
    ensures
        deliverable_in(frames, offset, few) == deliverable_in(frames, offset, many),
    decreases few,
{
    lemma_next_chunk(frames, offset);
    if let Some(data) = next_chunk(frames, offset) {
        let next = (offset + data.len()) as u64;
        lemma_pending_shrinks(frames, offset, next);
        lemma_deliverable_settles(frames, next, (few - 1) as nat, (many - 1) as nat);
    }
}

/// No more frames start at or behind a larger offset than at or behind a
/// smaller one.
proof fn lemma_pending_bound(frames: Seq<FrameView>, from: u64, to: u64)
    requires
        from <= to,
    ensures
        pending(frames, to) <= pending(frames, from) <= frames.len(),
    decreases frames.len(),
{
    if frames.len() > 0 {
        lemma_pending_bound(frames.drop_first(), from, to);
    }
}

/// Strictly fewer do where a frame starts right at the smaller offset.
proof fn lemma_pending_shrinks(frames: Seq<FrameView>, from: u64, to: u64)
    requires
        from < to,
        next_chunk(frames, from) is Some,
    ensures
        pending(frames, to) < pending(frames, from),
    decreases frames.len(),
{
    if frames.len() > 0 {
        lemma_pending_bound(frames.drop_first(), from, to);
        if !continues_at(frames[0], from) {
            lemma_pending_shrinks(frames.drop_first(), from, to);
        }
    }
}

/// A chunk found at `offset` is not empty and ends within the range of
/// stream offsets.
proof fn lemma_next_chunk(frames: Seq<FrameView>, offset: u64)
    ensures
        next_chunk(frames, offset) matches Some(data) ==> 0 < data.len() && offset + data.len()
            <= VARINT_MAX,
    decreases frames.len(),
{
    if frames.len() > 0 && !continues_at(frames[0], offset) {
        lemma_next_chunk(frames.drop_first(), offset);
    }
}

/// Every step starts at most one operation, and the state says which: a
/// send is under way in `InitialSent`, a receive in `WaitingForResponse`,
/// the TLS engine in `Advancing`. Every receive is issued with a buffer of
/// `RECEIVE_CAPACITY` bytes, and what goes to the TLS engine is never empty.
pub proof fn lemma_action_matches_state(s: ConnectFutureView, event: EventView)
    ensures
        ({
            let (t, action) = s.step(event);
            &&& action is Send ==> t.state is InitialSent
            &&& action matches ActionView::Receive(buf) ==> t.state is WaitingForResponse
                && buf.len() == RECEIVE_CAPACITY
            &&& action matches ActionView::Deliver(data) ==> t.state is Advancing && data.len() > 0
            &&& action is Done <==> t.state is Established
            &&& action matches ActionView::Fail(e) ==> t.state == ConnectFutureState::Failed(e)
            &&& t.state is Failed ==> action is Fail
            &&& action is Wait ==> t == s
        }),
{
}

/// The number `k` packets after `number`.
pub open spec fn number_after(number: PacketNumber, k: nat) -> PacketNumber
    decreases k,
{
    if k == 0 {
        number
    } else {
        next_number(number_after(number, (k - 1) as nat))
    }
}

/// No packet number comes back within 2^32 packets.
pub proof fn lemma_numbers_do_not_repeat(number: PacketNumber, k: nat)
    requires
        0 < k < 0x1_0000_0000,
    ensures
        number_after(number, k) != number,
{
    lemma_number_after(number, k);
}

/// Counting on is adding modulo 2^32.
proof fn lemma_number_after(number: PacketNumber, k: nat)
    ensures
        number_after(number, k) == (number + k) % 0x1_0000_0000,
    decreases k,
{
    if k > 0 {
        lemma_number_after(number, (k - 1) as nat);
    }
}

/// A packet goes out with the number after the last one, at the offset
/// where the last flight ended, under the client's key of the epoch that
/// its type belongs to. Nothing else moves the number or the offset.
pub proof fn lemma_flights_are_numbered(s: ConnectFutureView, event: EventView)
    ensures
        ({
            let (t, action) = s.step(event);
            match action {
                ActionView::Send(datagram) => exists|flight: Seq<u8>|
                    #![auto]
                    t.number == next_number(s.number) && t.send_offset == s.send_offset
                        + flight.len() && t.keys(t.flight_type().spec_epoch()) is Some
                        && encode_packet(
                        flight_packet(t.flight_type(), s.conn_id, t.number, s.send_offset, flight),
                        t.keys(t.flight_type().spec_epoch())->0.client_write,
                    ) == Ok::<Seq<u8>, Error>(datagram),
                _ => t.number == s.number && t.send_offset == s.send_offset,
            }
        }),
{
    let (t, action) = s.step(event);
    if let ActionView::Send(datagram) = action {
        if let EventView::Flight(flight, secret) = event {
            let packet = flight_packet(
                t.flight_type(),
                s.conn_id,
                t.number,
                s.send_offset,
                flight,
            );
            assert(t.number == next_number(s.number) && t.send_offset == s.send_offset
                + flight.len() && t.keys(t.flight_type().spec_epoch()) is Some && encode_packet(
                packet,
                t.keys(t.flight_type().spec_epoch())->0.client_write,
            ) == Ok::<Seq<u8>, Error>(datagram));
        }
    }
}

/// A datagram that does not decode under the key that its header calls
/// for never ends the handshake and never moves it: it is dropped, and the
/// receive is issued again.
pub proof fn lemma_bad_datagrams_are_dropped(s: ConnectFutureView, buf: Seq<u8>, len: usize)
    requires
        s.state is WaitingForResponse,
    ensures
        (s.response_key(received_datagram(buf, len)) matches Some(key) ==> decode_packet(
            received_datagram(buf, len),
            key,
        ) is Err) ==> s.step(EventView::Received(buf, len)) == (
            s,
            ActionView::Receive(receive_buffer(buf)),
        ),
{
}

/// An ended handshake stays ended: no event changes anything.
pub proof fn lemma_terminal_absorbs(s: ConnectFutureView, event: EventView)
    requires
        s.terminal(),
    ensures
        s.step(event).0 == s,
{
}

/// The connection id and the initial keys are fixed for the whole
/// handshake, and handshake keys, once in place, are never taken away.
pub proof fn lemma_identity_kept(s: ConnectFutureView, event: EventView)
    ensures
        s.step(event).0.conn_id == s.conn_id,
        s.step(event).0.initial == s.initial,
        s.handshake is Some ==> s.step(event).0.handshake is Some,
{
}

/// Brings `buf` to the length of a receive.
fn make_receive_buffer(buf: Vec<u8>) -> (out: Vec<u8>)
    ensures
        out@ == receive_buffer(buf@),
{
    let mut out = buf;
    out.resize(RECEIVE_CAPACITY, 0);
    out
}

/// Index of the first of `frames` that continues the handshake stream at
/// `offset`.
fn find_chunk(frames: &Vec<Frame>, offset: u64) -> (found: Option<usize>)
    ensures
        match next_chunk(frames_view(frames@), offset) {
            Some(data) => found matches Some(i) && i < frames@.len() && continues_at(
                frames@[i as int]@,
                offset,
            ) && frames@[i as int]@->Stream_0.data == data,
            None => found is None,
        },
{
    let ghost all = frames_view(frames@);
    let n: usize = frames.len();
    let mut i: usize = 0;
    proof {
        assert(all.skip(0) =~= all);
    }
    while i < n
        invariant
            i <= n,
            n == frames@.len(),
            all == frames_view(frames@),
            next_chunk(all, offset) == next_chunk(all.skip(i as int), offset),
        decreases n - i,
    {
        let ghost rest = all.skip(i as int);
        proof {
            assert(rest.drop_first() =~= all.skip(i + 1));
        }
        if let Frame::Stream(s) = &frames[i] {
            if s.id == HANDSHAKE_STREAM && s.offset == offset && s.data.len() > 0 && offset
                <= VARINT_MAX && s.data.len() as u64 <= VARINT_MAX - offset {
                return Some(i);
            }
        }
        i = i + 1;
    }
    None
}

/// The handshake bytes that `frames` contribute from `offset` on, in
/// stream order.
pub fn collect_handshake(frames: &Vec<Frame>, offset: u64) -> (data: Vec<u8>)
    ensures
        data@ == deliverable(frames_view(frames@), offset),
{
    let ghost all = frames_view(frames@);
    let n: usize = frames.len();
    let mut data: Vec<u8> = Vec::new();
    let mut at: u64 = offset;
    let mut rounds: usize = 0;
    while rounds < n
        invariant
            rounds <= n,
            n == frames@.len(),
            all == frames_view(frames@),
            deliverable(all, offset) == data@ + deliverable_in(all, at, (n - rounds) as nat),
        decreases n - rounds,
    {
        match find_chunk(frames, at) {
            None => {
                return data;
            },
            Some(i) => {
                if let Frame::Stream(s) = &frames[i] {
                    put_bytes(&mut data, s.data.as_slice());
                    at = at + s.data.len() as u64;
                }
            },
        }
        rounds = rounds + 1;
    }
    data
}

/// The packet that carries `flight` at `offset` of the handshake stream.
fn make_flight_packet(
    ptype: LongType,
    conn_id: ConnectionId,
    number: PacketNumber,
    offset: u64,
    flight: Vec<u8>,
) -> (p: Packet)
    ensures
        p@ == flight_packet(ptype, conn_id, number, offset, flight@),
{
    let len: u64 = flight.len() as u64;
    let frame = Frame::Stream(
        StreamFrame { id: HANDSHAKE_STREAM, fin: false, offset, len: Some(len), data: flight },
    );
    let mut payload: Vec<Frame> = Vec::new();
    payload.push(frame);
    let p = Packet { header: Header::Long { ptype, conn_id, version: DRAFT_10, number }, payload };
    assert(p@.payload =~= flight_packet(ptype, conn_id, number, offset, flight@).payload);
    p
}

/// Assembles the first packet of a connection around the first flight of
/// the TLS handshake.
pub fn initial_packet(conn_id: ConnectionId, number: PacketNumber, first_flight: Vec<u8>) -> (p:
    Packet)
    ensures
        p@ == spec_initial_packet(conn_id, number, first_flight@),
{
    make_flight_packet(LongType::Initial, conn_id, number, 0, first_flight)
}

impl QuicStream {
    /// Starts a handshake with `server`, with a connection id and a first
    /// packet number drawn at random. See [`QuicStream::connect_with`].
    pub fn connect(server: &str, first_flight: Vec<u8>) -> (r: Result<
        (ConnectFuture, Vec<u8>),
        Error,
    >)
        ensures
            match r {
                Ok((future, datagram)) => future@ == ConnectFutureView::start(
                    future@.conn_id,
                    future@.number,
                    first_flight@.len(),
                ) && first_datagram(server@, future@.conn_id, future@.number, first_flight@) == Ok::<
                    Seq<u8>,
                    Error,
                >(datagram@),
                Err(e) => exists|conn_id: ConnectionId, number: PacketNumber|
                    #![auto]
                    first_datagram(server@, conn_id, number, first_flight@) == Err::<
                        Seq<u8>,
                        Error,
                    >(e),
            },
    {
        let conn_id = generate_connection_id();
        let number = generate_packet_number();
        QuicStream::connect_with(server, conn_id, number, first_flight)
    }

    /// Starts a handshake with `server`: assembles the initial packet
    /// around `first_flight`, the first flight of the TLS handshake, derives
    /// the initial keys from `conn_id`, and encodes the packet under the
    /// client's key.
    ///
    /// Returns the handshake, in state `InitialSent`, and the datagram to
    /// send. Fails, before any handshake exists, with `Configuration` on a
    /// server name that TLS cannot verify, and else where the packet cannot
    /// be encoded.
    pub fn connect_with(
        server: &str,
        conn_id: ConnectionId,
        number: PacketNumber,
        first_flight: Vec<u8>,
    ) -> (r: Result<(ConnectFuture, Vec<u8>), Error>)
        ensures
            match first_datagram(server@, conn_id, number, first_flight@) {
                Ok(bytes) => r matches Ok((future, datagram)) && datagram@ == bytes && future@
                    == ConnectFutureView::start(conn_id, number, first_flight@.len()),
                Err(e) => r matches Err(f) && f == e,
            },
    {
        if !accepts_server_name(server) {
            return Err(Error::Configuration);
        }
        let sent: usize = first_flight.len();
        let packet = initial_packet(conn_id, number, first_flight);
        let keys = derive_initial_keys(conn_id);
        let mut buf: Vec<u8> = Vec::with_capacity(RECEIVE_CAPACITY);
        match packet.encode(&keys.client_write, &mut buf) {
            Err(e) => Err(e),
            Ok(()) => {
                let future = ConnectFuture {
                    state: ConnectFutureState::InitialSent,
                    conn_id,
                    number,
                    send_offset: sent as u64,
                    recv_offset: 0,
                    initial: keys,
                    handshake: None,
                };
                Ok((future, buf))
            },
        }
    }
}

impl ConnectFuture {
    pub fn state(&self) -> (s: ConnectFutureState)
        ensures
            s == self@.state,
    {
        self.state
    }

    pub fn conn_id(&self) -> (id: ConnectionId)
        ensures
            id == self@.conn_id,
    {
        self.conn_id
    }

    /// Number of the packet sent last.
    pub fn number(&self) -> (n: PacketNumber)
        ensures
            n == self@.number,
    {
        self.number
    }

    /// Whether the handshake has ended, one way or the other.
    pub fn is_terminal(&self) -> (b: bool)
        ensures
            b == self@.terminal(),
    {
        match self.state {
            ConnectFutureState::Established => true,
            ConnectFutureState::Failed(_) => true,
            _ => false,
        }
    }

    fn response_key(&self, datagram: &[u8]) -> (key: Option<&PacketKey>)
        ensures
            match self@.response_key(datagram@) {
                Some(k) => key matches Some(found) && found@ == k,
                None => key is None,
            },
    {
        let header = match Header::decode(datagram) {
            Some((h, _)) => h,
            None => { return None; },
        };
        if let Header::Long { version, .. } = header {
            if !version_supported(version) {
                return None;
            }
        }
        match header.epoch() {
            Epoch::Initial => Some(&self.initial.server_write),
            Epoch::Handshake => match &self.handshake {
                Some(keys) => Some(&keys.server_write),
                None => None,
            },
            Epoch::OneRtt => None,
        }
    }

    fn delivery(&self, datagram: &[u8]) -> (data: Option<Vec<u8>>)
        ensures
            match self@.delivery(datagram@) {
                Some(d) => data matches Some(found) && found@ == d,
                None => data is None,
            },
    {
        let key = match self.response_key(datagram) {
            Some(k) => k,
            None => { return None; },
        };
        let packet = match Packet::decode(datagram, key) {
            Ok(p) => p,
            Err(_) => { return None; },
        };
        let data = collect_handshake(&packet.payload, self.recv_offset);
        if data.len() == 0 {
            None
        } else {
            Some(data)
        }
    }

    fn fail(&mut self, e: Error) -> (action: Action)
        ensures
            (final(self)@, action@) == old(self)@.fail(e),
    {
        self.state = ConnectFutureState::Failed(e);
        Action::Fail(e)
    }

    fn on_datagram(&mut self, buf: Vec<u8>, len: usize) -> (action: Action)
        ensures
            (final(self)@, action@) == old(self)@.on_datagram(buf@, len),
    {
        let filled: usize = if len <= buf.len() {
            len
        } else {
            buf.len()
        };
        let datagram = slice_subrange(buf.as_slice(), 0, filled);
        assert(datagram@ =~= received_datagram(buf@, len));
        match self.delivery(datagram) {
            None => Action::Receive(make_receive_buffer(buf)),
            Some(data) => {
                proof {
                    let key = self@.response_key(datagram@)->0;
                    let packet = decode_packet(datagram@, key)->Ok_0;
                    lemma_deliverable_bound(packet.payload, self.recv_offset);
                }
                self.state = ConnectFutureState::Advancing;
                self.recv_offset = self.recv_offset + data.len() as u64;
                Action::Deliver(data)
            },
        }
    }

    fn on_flight(&mut self, flight: Vec<u8>, secret: Option<Vec<u8>>) -> (action: Action)
        ensures
            (final(self)@, action@) == old(self)@.on_flight(
                flight@,
                match secret {
                    Some(s) => Some(s@),
                    None => None,
                },
            ),
    {
        if let Some(s) = secret {
            match derive_handshake_keys(s.as_slice()) {
                Err(e) => {
                    return self.fail(e);
                },
                Ok(keys) => {
                    self.handshake = Some(keys);
                },
            }
        }
        if flight.len() == 0 {
            self.state = ConnectFutureState::WaitingForResponse;
            return Action::Receive(make_receive_buffer(Vec::new()));
        }
        let number: PacketNumber = if self.number == u32::MAX {
            0
        } else {
            self.number + 1
        };
        let sent: usize = flight.len();
        let ptype = if self.handshake.is_some() {
            LongType::Handshake
        } else {
            LongType::Initial
        };
        let packet = make_flight_packet(ptype, self.conn_id, number, self.send_offset, flight);
        let mut datagram: Vec<u8> = Vec::new();
        let outcome = match &self.handshake {
            Some(keys) => packet.encode(&keys.client_write, &mut datagram),
            None => packet.encode(&self.initial.client_write, &mut datagram),
        };
        match outcome {
            Err(e) => self.fail(e),
            Ok(()) => {
                self.state = ConnectFutureState::InitialSent;
                self.number = number;
                self.send_offset = self.send_offset + sent as u64;
                Action::Send(datagram)
            },
        }
    }

    /// Takes the operation that the caller finished and answers with the
    /// next thing to do, as [`ConnectFutureView::step`] lays down.
    pub fn poll(&mut self, event: Event) -> (action: Action)
        ensures
            (final(self)@, action@) == old(self)@.step(event@),
    {
        match self.state {
            ConnectFutureState::Established => { return Action::Done; },
            ConnectFutureState::Failed(e) => { return Action::Fail(e); },
            _ => {},
        }
        match event {
            Event::TransportFailed => self.fail(Error::Transport),
            Event::Sent(buf) => match self.state {
                ConnectFutureState::InitialSent => {
                    self.state = ConnectFutureState::WaitingForResponse;
                    Action::Receive(make_receive_buffer(buf))
                },
                _ => Action::Wait,
            },
            Event::Received(buf, len) => match self.state {
                ConnectFutureState::WaitingForResponse => self.on_datagram(buf, len),
                _ => Action::Wait,
            },
            Event::Flight(flight, secret) => match self.state {
                ConnectFutureState::Advancing => self.on_flight(flight, secret),
                _ => Action::Wait,
            },
            Event::HandshakeComplete => match self.state {
                ConnectFutureState::Advancing => {
                    self.state = ConnectFutureState::Established;
                    Action::Done
                },
                _ => Action::Wait,
            },
            Event::HandshakeFailed => match self.state {
                ConnectFutureState::Advancing => self.fail(Error::Handshake),
                _ => Action::Wait,
            },
        }
    }
}

} // verus!
