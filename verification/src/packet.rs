//! Headers and packets, and how a packet becomes a protected datagram.
//!
//! On the wire a packet is its header in the clear, followed by its frames
//! sealed under the packet key. The header is authenticated along with the
//! frames, and the nonce is made from the packet number.

use crate::codec::{
    be_bytes, be_value, get_be, lemma_be_bytes_len, lemma_be_bytes_of_value, lemma_be_round_trip,
    lemma_be_value_bound, lemma_pow256_values, put_be, put_bytes,
};
use crate::crypto::{protect, unprotect, PacketKey, PacketKeyView};
use crate::error::{CryptoError, Error};
use crate::frame::{
    check_frames, decode_frames, encode_frames, frames_bytes, frames_valid, frames_view,
    lemma_frames_round_trip, lemma_parse_frames_valid, parse_frames, Frame, FrameView,
};
use crate::types::{ConnectionId, PacketNumber, ProtocolVersion};
use vstd::prelude::*;
use vstd::slice::slice_subrange;

verus! {

/// High bit of the first byte: set in the long form, clear in the short.
pub const LONG_FORM: u8 = 0x80;

/// First byte of the short form.
pub const SHORT_FORM: u8 = 0x12;

/// Length of a connection id on the wire.
pub const CONNECTION_ID_LEN: u8 = 8;

/// Kinds of packet that travel under a long header.
#[derive(Clone, Copy, Debug, PartialEq, Eq)]
pub enum LongType {
    Initial,
    Retry,
    Handshake,
    ZeroRtt,
}

/// The successive key contexts of a connection.
#[derive(Clone, Copy, Debug, PartialEq, Eq)]
pub enum Epoch {
    Initial,
    Handshake,
    OneRtt,
}

#[derive(Clone, Copy, Debug, PartialEq, Eq)]
pub enum Header {
    /// Used until the 1-RTT keys are in place.
    Long { ptype: LongType, conn_id: ConnectionId, version: ProtocolVersion, number: PacketNumber },
    /// Used under 1-RTT keys. May leave the connection id out.
    Short { conn_id: Option<ConnectionId>, number: PacketNumber },
}

/// A header and the frames it carries, in order.
#[derive(Clone, Debug, PartialEq, Eq)]
pub struct Packet {
    pub header: Header,
    pub payload: Vec<Frame>,
}

/// Mathematical value of a [`Packet`].
pub struct PacketView {
    pub header: Header,
    pub payload: Seq<FrameView>,
}

impl View for Packet {
    type V = PacketView;

    open spec fn view(&self) -> PacketView {
        PacketView { header: self.header, payload: frames_view(self.payload@) }
    }
}

impl LongType {
    /// The seven type bits of the first byte.
    pub open spec fn spec_code(self) -> u8 {
        match self {
            LongType::Initial => 0x7f,
            LongType::Retry => 0x7e,
            LongType::Handshake => 0x7d,
            LongType::ZeroRtt => 0x7c,
        }
    }

    #[verifier::when_used_as_spec(spec_code)]
    pub fn code(self) -> (c: u8)
        ensures
            c == self.spec_code(),
    {
        match self {
            LongType::Initial => 0x7f,
            LongType::Retry => 0x7e,
            LongType::Handshake => 0x7d,
            LongType::ZeroRtt => 0x7c,
        }
    }

    /// The type that `code` stands for.
    pub open spec fn spec_from_code(code: u8) -> Option<LongType> {
        if code == 0x7f {
            Some(LongType::Initial)
        } else if code == 0x7e {
            Some(LongType::Retry)
        } else if code == 0x7d {
            Some(LongType::Handshake)
        } else if code == 0x7c {
            Some(LongType::ZeroRtt)
        } else {
            None
        }
    }

    #[verifier::when_used_as_spec(spec_from_code)]
    pub fn from_code(code: u8) -> (t: Option<LongType>)
        ensures
            t == LongType::spec_from_code(code),
    {
        if code == 0x7f {
            Some(LongType::Initial)
        } else if code == 0x7e {
            Some(LongType::Retry)
        } else if code == 0x7d {
            Some(LongType::Handshake)
        } else if code == 0x7c {
            Some(LongType::ZeroRtt)
        } else {
            None
        }
    }

    /// The epoch whose keys protect packets of this type.
    pub open spec fn spec_epoch(self) -> Epoch {
        match self {
            LongType::Initial => Epoch::Initial,
            LongType::Retry => Epoch::Initial,
            LongType::Handshake => Epoch::Handshake,
            LongType::ZeroRtt => Epoch::Handshake,
        }
    }

    #[verifier::when_used_as_spec(spec_epoch)]
    pub fn epoch(self) -> (e: Epoch)
        ensures
            e == self.spec_epoch(),
    {
        match self {
            LongType::Initial => Epoch::Initial,
            LongType::Retry => Epoch::Initial,
            LongType::Handshake => Epoch::Handshake,
            LongType::ZeroRtt => Epoch::Handshake,
        }
    }
}

impl Header {
    /// A long header of type `Initial`.
    pub fn initial(conn_id: ConnectionId, version: ProtocolVersion, number: PacketNumber) -> (h:
        Header)
        ensures
            h == (Header::Long { ptype: LongType::Initial, conn_id, version, number }),
    {
        Header::Long { ptype: LongType::Initial, conn_id, version, number }
    }

    pub open spec fn spec_conn_id(&self) -> Option<ConnectionId> {
        match self {
            Header::Long { conn_id, .. } => Some(*conn_id),
            Header::Short { conn_id, .. } => *conn_id,
        }
    }

    /// The connection id, where the header carries one: always in the long
    /// form.
    #[verifier::when_used_as_spec(spec_conn_id)]
    pub fn conn_id(&self) -> (id: Option<ConnectionId>)
        ensures
            id == self.spec_conn_id(),
    {
        match self {
            Header::Long { conn_id, .. } => Some(*conn_id),
            Header::Short { conn_id, .. } => *conn_id,
        }
    }

    pub open spec fn spec_number(&self) -> PacketNumber {
        match self {
            Header::Long { number, .. } => *number,
            Header::Short { number, .. } => *number,
        }
    }

    #[verifier::when_used_as_spec(spec_number)]
    pub fn number(&self) -> (n: PacketNumber)
        ensures
            n == self.spec_number(),
    {
        match self {
            Header::Long { number, .. } => *number,
            Header::Short { number, .. } => *number,
        }
    }

    /// The epoch whose keys protect the payload under this header: that of
    /// the packet type in the long form, 1-RTT in the short.
    pub open spec fn spec_epoch(&self) -> Epoch {
        match self {
            Header::Long { ptype, .. } => ptype.spec_epoch(),
            Header::Short { .. } => Epoch::OneRtt,
        }
    }

    #[verifier::when_used_as_spec(spec_epoch)]
    pub fn epoch(&self) -> (e: Epoch)
        ensures
            e == self.spec_epoch(),
    {
        match self {
            Header::Long { ptype, .. } => ptype.epoch(),
            Header::Short { .. } => Epoch::OneRtt,
        }
    }

    /// The header on the wire. Long: form bit and type, version,
    /// connection id length and id, packet number. Short: form byte,
    /// connection id length (zero without an id) and id, packet number.
    pub open spec fn bytes(self) -> Seq<u8> {
        match self {
            Header::Long { ptype, conn_id, version, number } => seq![
                (LONG_FORM + ptype.spec_code()) as u8,
            ] + (be_bytes(version as nat, 4) + (seq![CONNECTION_ID_LEN] + (be_bytes(
                conn_id as nat,
                8,
            ) + be_bytes(number as nat, 4)))),
            Header::Short { conn_id: Some(id), number } => seq![SHORT_FORM, CONNECTION_ID_LEN] + (
            be_bytes(id as nat, 8) + be_bytes(number as nat, 4)),
            Header::Short { conn_id: None, number } => seq![SHORT_FORM, 0u8] + be_bytes(
                number as nat,
                4,
            ),
        }
    }

    /// Reads a header from the front of `s`: the header and the number of
    /// bytes it took. `None` where `s` ends early, the form or type is
    /// unknown, or the connection id has a length other than announced.
    pub open spec fn parse(s: Seq<u8>) -> Option<(Header, nat)> {
        if s.len() < 2 {
            None
        } else if s[0] >= LONG_FORM {
            match LongType::spec_from_code((s[0] - LONG_FORM) as u8) {
                None => None,
                Some(ptype) => if s.len() < 18 || s[5] != CONNECTION_ID_LEN {
                    None
                } else {
                    Some(
                        (
                            Header::Long {
                                ptype,
                                version: be_value(s.subrange(1, 5)) as u32,
                                conn_id: be_value(s.subrange(6, 14)) as u64,
                                number: be_value(s.subrange(14, 18)) as u32,
                            },
                            18,
                        ),
                    )
                },
            }
        } else if s[0] != SHORT_FORM {
            None
        } else if s[1] == CONNECTION_ID_LEN {
            if s.len() < 14 {
                None
            } else {
                Some(
                    (
                        Header::Short {
                            conn_id: Some(be_value(s.subrange(2, 10)) as u64),
                            number: be_value(s.subrange(10, 14)) as u32,
                        },
                        14,
                    ),
                )
            }
        } else if s[1] == 0 {
            if s.len() < 6 {
                None
            } else {
                Some(
                    (Header::Short { conn_id: None, number: be_value(s.subrange(2, 6)) as u32 }, 6),
                )
            }
        } else {
            None
        }
    }

    /// Appends the header's bytes to `buf`.
    pub fn encode(&self, buf: &mut Vec<u8>)
        ensures
            final(buf)@ == old(buf)@ + self.bytes(),
    {
        match self {
            Header::Long { ptype, conn_id, version, number } => {
                buf.push(LONG_FORM + ptype.code());
                put_be(buf, *version as u64, 4);
                buf.push(CONNECTION_ID_LEN);
                put_be(buf, *conn_id, 8);
                put_be(buf, *number as u64, 4);
            },
            Header::Short { conn_id: Some(id), number } => {
                buf.push(SHORT_FORM);
                buf.push(CONNECTION_ID_LEN);
                put_be(buf, *id, 8);
                put_be(buf, *number as u64, 4);
            },
            Header::Short { conn_id: None, number } => {
                buf.push(SHORT_FORM);
                buf.push(0);
                put_be(buf, *number as u64, 4);
            },
        }
    }

    /// Reads the header at the front of `bytes`: the header and its length.
    pub fn decode(bytes: &[u8]) -> (r: Option<(Header, usize)>)
        ensures
            match Header::parse(bytes@) {
                Some((h, n)) => r matches Some((g, m)) && g == h && m == n && n <= bytes@.len(),
                None => r is None,
            },
    {
        let total: usize = bytes.len();
        if total < 2 {
            return None;
        }
        let first: u8 = bytes[0];
        if first >= LONG_FORM {
            let ptype = match LongType::from_code(first - LONG_FORM) {
                Some(t) => t,
                None => { return None; },
            };
            if total < 18 || bytes[5] != CONNECTION_ID_LEN {
                return None;
            }
            let version: u32 = get_be(bytes, 1, 4) as u32;
            let conn_id: u64 = get_be(bytes, 6, 8);
            let number: u32 = get_be(bytes, 14, 4) as u32;
            Some((Header::Long { ptype, conn_id, version, number }, 18))
        } else if first != SHORT_FORM {
            None
        } else if bytes[1] == CONNECTION_ID_LEN {
            if total < 14 {
                return None;
            }
            let id: u64 = get_be(bytes, 2, 8);
            let number: u32 = get_be(bytes, 10, 4) as u32;
            Some((Header::Short { conn_id: Some(id), number }, 14))
        } else if bytes[1] == 0 {
            if total < 6 {
                return None;
            }
            let number: u32 = get_be(bytes, 2, 4) as u32;
            Some((Header::Short { conn_id: None, number }, 6))
        } else {
            None
        }
    }
}

/// Parsing an encoded header, whatever follows it, gives the header back
/// and stops right behind it.
pub proof fn lemma_header_round_trip(h: Header, rest: Seq<u8>)
    ensures
        Header::parse(h.bytes() + rest) == Some((h, h.bytes().len())),
{
    let s = h.bytes() + rest;
    lemma_pow256_values();
    match h {
        Header::Long { ptype, conn_id, version, number } => {
            lemma_be_bytes_len(version as nat, 4);
            lemma_be_bytes_len(conn_id as nat, 8);
            lemma_be_bytes_len(number as nat, 4);
            lemma_be_round_trip(version as nat, 4);
            lemma_be_round_trip(conn_id as nat, 8);
            lemma_be_round_trip(number as nat, 4);
            assert(s.subrange(1, 5) =~= be_bytes(version as nat, 4));
            assert(s.subrange(6, 14) =~= be_bytes(conn_id as nat, 8));
            assert(s.subrange(14, 18) =~= be_bytes(number as nat, 4));
        },
        Header::Short { conn_id: Some(id), number } => {
            lemma_be_bytes_len(id as nat, 8);
            lemma_be_bytes_len(number as nat, 4);
            lemma_be_round_trip(id as nat, 8);
            lemma_be_round_trip(number as nat, 4);
            assert(s.subrange(2, 10) =~= be_bytes(id as nat, 8));
            assert(s.subrange(10, 14) =~= be_bytes(number as nat, 4));
        },
        Header::Short { conn_id: None, number } => {
            lemma_be_bytes_len(number as nat, 4);
            lemma_be_round_trip(number as nat, 4);
            assert(s.subrange(2, 6) =~= be_bytes(number as nat, 4));
        },
    }
}

/// A header parses only from its own encoding: the bytes that a parse took
/// are the bytes of the header it returned.
pub proof fn lemma_header_canonical(s: Seq<u8>)
    ensures
        Header::parse(s) matches Some((h, n)) ==> n <= s.len() && s.take(n as int) == h.bytes(),
{
    lemma_pow256_values();
    if let Some((h, n)) = Header::parse(s) {
        match h {
            Header::Long { ptype, conn_id, version, number } => {
                let v = s.subrange(1, 5);
                let c = s.subrange(6, 14);
                let m = s.subrange(14, 18);
                lemma_be_value_bound(v);
                lemma_be_value_bound(c);
                lemma_be_value_bound(m);
                lemma_be_bytes_of_value(v);
                lemma_be_bytes_of_value(c);
                lemma_be_bytes_of_value(m);
            },
            Header::Short { conn_id: Some(id), number } => {
                let c = s.subrange(2, 10);
                let m = s.subrange(10, 14);
                lemma_be_value_bound(c);
                lemma_be_value_bound(m);
                lemma_be_bytes_of_value(c);
                lemma_be_bytes_of_value(m);
            },
            Header::Short { conn_id: None, number } => {
                let m = s.subrange(2, 6);
                lemma_be_value_bound(m);
                lemma_be_bytes_of_value(m);
            },
        }
    }
}

impl PacketView {
    /// A packet carries at least one frame, each frame is valid, and every
    /// frame but the last says where it ends.
    pub open spec fn valid(self) -> bool {
        self.payload.len() > 0 && frames_valid(self.payload)
    }
}

/// The datagram that carries `p` under `key`: the header in the clear,
/// then the frames, sealed with the header as associated data.
pub open spec fn encode_packet(p: PacketView, key: PacketKeyView) -> Result<Seq<u8>, Error> {
    if !p.valid() {
        Err(Error::MalformedPacket)
    } else {
        match protect(key, p.header.spec_number(), p.header.bytes(), frames_bytes(p.payload)) {
            Some(sealed) => Ok(p.header.bytes() + sealed),
            None => Err(Error::Crypto(CryptoError::InvalidLength)),
        }
    }
}

/// The packet that datagram `s` carries under `key`. The header is read
/// first, in the clear; what follows it must be authentic together with the
/// header's bytes, and open to at least one frame.
pub open spec fn decode_packet(s: Seq<u8>, key: PacketKeyView) -> Result<PacketView, Error> {
    match Header::parse(s) {
        None => Err(Error::MalformedPacket),
        Some((header, n)) => match unprotect(
            key,
            header.spec_number(),
            s.take(n as int),
            s.skip(n as int),
        ) {
            None => Err(Error::Crypto(CryptoError::AuthenticationFailure)),
            Some(plaintext) => match parse_frames(plaintext) {
                None => Err(Error::MalformedPacket),
                Some(frames) => if frames.len() == 0 {
                    Err(Error::MalformedPacket)
                } else {
                    Ok(PacketView { header, payload: frames })
                },
            },
        },
    }
}

/// Round trip: where the cipher opens `sealed` to the frames of a valid
/// packet under the packet's header, the header followed by `sealed`
/// decodes to that packet.
pub proof fn lemma_packet_round_trip(p: PacketView, key: PacketKeyView, sealed: Seq<u8>)
    requires
        p.valid(),
        unprotect(key, p.header.spec_number(), p.header.bytes(), sealed) == Some(
            frames_bytes(p.payload),
        ),
    ensures
        decode_packet(p.header.bytes() + sealed, key) == Ok::<PacketView, Error>(p),
{
    let s = p.header.bytes() + sealed;
    let n = p.header.bytes().len();
    lemma_header_round_trip(p.header, sealed);
    lemma_frames_round_trip(p.payload);
    assert(s.take(n as int) =~= p.header.bytes());
    assert(s.skip(n as int) =~= sealed);
}

/// Whatever decodes is a valid packet, and was authenticated as the packet
/// it is: the datagram starts with the encoding of the packet's header,
/// and the cipher opened the rest, under the key, the packet's number and
/// that encoding, to bytes that parse as the packet's frames.
pub proof fn lemma_decoded_is_authentic(s: Seq<u8>, key: PacketKeyView)
    ensures
        decode_packet(s, key) matches Ok(p) ==> p.valid() && exists|
            sealed: Seq<u8>,
            plaintext: Seq<u8>,
        |
            #![auto]
            s == p.header.bytes() + sealed && unprotect(
                key,
                p.header.spec_number(),
                p.header.bytes(),
                sealed,
            ) == Some(plaintext) && parse_frames(plaintext) == Some(p.payload),
{
    lemma_header_canonical(s);
    if let Some((header, n)) = Header::parse(s) {
        let sealed = s.skip(n as int);
        if let Some(plaintext) = unprotect(key, header.spec_number(), s.take(n as int), sealed) {
            lemma_parse_frames_valid(plaintext);
            if let Ok(p) = decode_packet(s, key) {
                assert(s == p.header.bytes() + sealed && unprotect(
                    key,
                    p.header.spec_number(),
                    p.header.bytes(),
                    sealed,
                ) == Some(plaintext) && parse_frames(plaintext) == Some(p.payload));
            }
        }
    }
}

/// Tamper detection, as far as it is a theorem: decoding fails with
/// `MalformedPacket` or `AuthenticationFailure` and with nothing else, and
/// it does fail on every datagram whose body the cipher does not open under
/// its header. (That the cipher opens nothing but what was sealed under the
/// same key is the cipher's promise, and no theorem.)
pub proof fn lemma_unauthentic_is_rejected(s: Seq<u8>, key: PacketKeyView)
    ensures
        decode_packet(s, key) matches Err(e) ==> e == Error::MalformedPacket || e == Error::Crypto(
            CryptoError::AuthenticationFailure,
        ),
        (Header::parse(s) matches Some((header, n)) ==> unprotect(
            key,
            header.spec_number(),
            s.take(n as int),
            s.skip(n as int),
        ) is None) ==> decode_packet(s, key) is Err,
{
}

/// A datagram without a single byte is malformed.
pub proof fn lemma_empty_is_malformed(key: PacketKeyView)
    ensures
        decode_packet(Seq::empty(), key) == Err::<PacketView, Error>(Error::MalformedPacket),
{
}

impl Packet {
    /// A packet of `payload` under `header`. Fails with `MalformedPacket`
    /// unless there is at least one frame, each frame is valid, and every
    /// frame but the last says where it ends.
    pub fn new(header: Header, payload: Vec<Frame>) -> (r: Result<Packet, Error>)
        ensures
            match r {
                Ok(p) => p.header == header && p.payload == payload && p@.valid(),
                Err(e) => e == Error::MalformedPacket && !(PacketView {
                    header,
                    payload: frames_view(payload@),
                }).valid(),
            },
    {
        let p = Packet { header, payload };
        if p.is_valid() {
            Ok(p)
        } else {
            Err(Error::MalformedPacket)
        }
    }

    /// The connection id, where the header carries one.
    pub fn conn_id(&self) -> (id: Option<ConnectionId>)
        ensures
            id == self.header.spec_conn_id(),
    {
        self.header.conn_id()
    }

    /// Whether the packet can go on the wire.
    pub fn is_valid(&self) -> (b: bool)
        ensures
            b == self@.valid(),
    {
        self.payload.len() > 0 && check_frames(&self.payload)
    }

    /// Appends the protected datagram of this packet to `buf`.
    ///
    /// Fails with `MalformedPacket` on a packet that is not valid, and with
    /// `InvalidLength` where the cipher refuses the payload; `buf` is then
    /// left as it was. What was appended decodes, under the same key, to
    /// this packet.
    pub fn encode(&self, key: &PacketKey, buf: &mut Vec<u8>) -> (r: Result<(), Error>)
        ensures
            match encode_packet(self@, key@) {
                Ok(bytes) => r is Ok && final(buf)@ == old(buf)@ + bytes && decode_packet(
                    bytes,
                    key@,
                ) == Ok::<PacketView, Error>(self@),
                Err(e) => r == Err::<(), Error>(e) && final(buf)@ == old(buf)@,
            },
    {
        if !self.is_valid() {
            return Err(Error::MalformedPacket);
        }
        let mut header: Vec<u8> = Vec::new();
        self.header.encode(&mut header);
        let mut plaintext: Vec<u8> = Vec::new();
        encode_frames(&self.payload, &mut plaintext);
        match key.seal(self.header.number(), header.as_slice(), plaintext.as_slice()) {
            Err(e) => Err(e),
            Ok(sealed) => {
                proof {
                    lemma_packet_round_trip(self@, key@, sealed@);
                }
                put_bytes(buf, header.as_slice());
                put_bytes(buf, sealed.as_slice());
                Ok(())
            },
        }
    }

    /// Reads the packet that the datagram `bytes` carries under `key`.
    ///
    /// Fails with `MalformedPacket` where the header or the frames do not
    /// parse or there is no frame, and with `AuthenticationFailure` where
    /// the tag does not verify; no plaintext is looked at before it does.
    /// What is returned is a valid packet.
    pub fn decode(bytes: &[u8], key: &PacketKey) -> (r: Result<Packet, Error>)
        ensures
            match decode_packet(bytes@, key@) {
                Ok(p) => r matches Ok(q) && q@ == p && p.valid(),
                Err(e) => r matches Err(f) && f == e,
            },
    {
        proof {
            lemma_decoded_is_authentic(bytes@, key@);
        }
        let total: usize = bytes.len();
        let (header, n) = match Header::decode(bytes) {
            Some(x) => x,
            None => { return Err(Error::MalformedPacket); },
        };
        let aad = slice_subrange(bytes, 0, n);
        let body = slice_subrange(bytes, n, total);
        let plaintext = match key.open(header.number(), aad, body) {
            Ok(p) => p,
            Err(e) => { return Err(e); },
        };
        let payload = match decode_frames(plaintext.as_slice()) {
            Some(frames) => frames,
            None => { return Err(Error::MalformedPacket); },
        };
        if payload.len() == 0 {
            return Err(Error::MalformedPacket);
        }
        Ok(Packet { header, payload })
    }
}

} // verus!

