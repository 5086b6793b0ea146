//! Frames: the units that a packet's protected payload is made of.

use crate::ack::{
    lemma_ack_round_trip, lemma_parse_ack_valid, parse_ack, AckFrame, AckFrameView, FRAME_ACK,
};
use crate::codec::{
    get_varint, lemma_parse_varint_range, lemma_skip_skip, lemma_varint_round_trip, parse_varint,
    put_bytes, put_varint, varint_bytes, VARINT_MAX,
};
use vstd::prelude::*;
use vstd::slice::{slice_subrange, slice_to_vec};

verus! {

/// Wire tag of a padding frame.
pub const FRAME_PADDING: u8 = 0x00;

/// Wire tag of a ping frame.
pub const FRAME_PING: u8 = 0x07;

/// Lowest wire tag of a stream frame; the three low bits are flags.
pub const FRAME_STREAM: u8 = 0x10;

/// Stream data: `data` belongs at `offset` of stream `id`.
#[derive(Clone, Debug, PartialEq, Eq)]
pub struct StreamFrame {
    pub id: u64,
    /// Whether the stream ends with this frame.
    pub fin: bool,
    pub offset: u64,
    /// Explicit length of `data`. Without it the data runs to the end of
    /// the packet, so only a packet's last frame can leave it out.
    pub len: Option<u64>,
    pub data: Vec<u8>,
}

/// One frame of a packet's payload.
#[derive(Clone, Debug, PartialEq, Eq)]
pub enum Frame {
    /// One byte that carries nothing.
    Padding,
    /// Asks the peer for an acknowledgement.
    Ping,
    Ack(AckFrame),
    Stream(StreamFrame),
}

/// Mathematical value of a [`StreamFrame`].
pub struct StreamFrameView {
    pub id: u64,
    pub fin: bool,
    pub offset: u64,
    pub len: Option<u64>,
    pub data: Seq<u8>,
}

/// Mathematical value of a [`Frame`].
pub enum FrameView {
    Padding,
    Ping,
    Ack(AckFrameView),
    Stream(StreamFrameView),
}

impl View for StreamFrame {
    type V = StreamFrameView;

    open spec fn view(&self) -> StreamFrameView {
        StreamFrameView {
            id: self.id,
            fin: self.fin,
            offset: self.offset,
            len: self.len,
            data: self.data@,
        }
    }
}

impl View for Frame {
    type V = FrameView;

    open spec fn view(&self) -> FrameView {
        match self {
            Frame::Padding => FrameView::Padding,
            Frame::Ping => FrameView::Ping,
            Frame::Ack(a) => FrameView::Ack(a@),
            Frame::Stream(s) => FrameView::Stream(s@),
        }
    }
}

/// The values of the frames of a payload, in order.
pub open spec fn frames_view(frames: Seq<Frame>) -> Seq<FrameView> {
    Seq::new(frames.len(), |i: int| frames[i]@)
}

impl StreamFrameView {
    /// Every integer fits a variable-length integer, and an explicit length
    /// is the length of the data.
    pub open spec fn valid(self) -> bool {
        &&& self.id <= VARINT_MAX
        &&& self.offset <= VARINT_MAX
        &&& self.len matches Some(l) ==> l <= VARINT_MAX && l == self.data.len()
    }

    /// The tag byte: the stream tag plus a flag each for a nonzero offset
    /// (4), an explicit length (2) and the end of the stream (1).
    pub open spec fn tag(self) -> u8 {
        (FRAME_STREAM + (if self.offset > 0 {
            4int
        } else {
            0
        }) + (if self.len is Some {
            2int
        } else {
            0
        }) + (if self.fin {
            1int
        } else {
            0
        })) as u8
    }

    pub open spec fn offset_bytes(self) -> Seq<u8> {
        if self.offset > 0 {
            varint_bytes(self.offset)
        } else {
            Seq::empty()
        }
    }

    pub open spec fn len_bytes(self) -> Seq<u8> {
        match self.len {
            Some(l) => varint_bytes(l),
            None => Seq::empty(),
        }
    }

    /// Tag, stream id, offset if nonzero, length if explicit, data.
    pub open spec fn bytes(self) -> Seq<u8> {
        seq![self.tag()] + (varint_bytes(self.id) + (self.offset_bytes() + (self.len_bytes()
            + self.data)))
    }
}

impl FrameView {
    pub open spec fn valid(self) -> bool {
        match self {
            FrameView::Padding => true,
            FrameView::Ping => true,
            FrameView::Ack(a) => a.valid(),
            FrameView::Stream(s) => s.valid(),
        }
    }

    /// Whether the frame's own bytes say where it ends. Only a stream frame
    /// without an explicit length does not: it ends with the payload.
    pub open spec fn delimited(self) -> bool {
        !(self matches FrameView::Stream(s) && s.len is None)
    }

    pub open spec fn bytes(self) -> Seq<u8> {
        match self {
            FrameView::Padding => seq![FRAME_PADDING],
            FrameView::Ping => seq![FRAME_PING],
            FrameView::Ack(a) => a.bytes(),
            FrameView::Stream(s) => s.bytes(),
        }
    }
}

/// A payload is valid when each frame is, and every frame but the last says
/// where it ends.
pub open spec fn frames_valid(frames: Seq<FrameView>) -> bool {
    forall|i: int|
        0 <= i < frames.len() ==> (#[trigger] frames[i]).valid() && (i + 1 < frames.len()
            ==> frames[i].delimited())
}

/// The frames' bytes, one after the other.
pub open spec fn frames_bytes(frames: Seq<FrameView>) -> Seq<u8>
    decreases frames.len(),
{
    if frames.len() == 0 {
        Seq::empty()
    } else {
        frames[0].bytes() + frames_bytes(frames.drop_first())
    }
}

/// Reads the body of a stream frame with tag `tag`, which starts behind the
/// tag. Without an explicit length the frame takes all of `s`.
#[verifier::opaque]
pub open spec fn parse_stream(tag: u8, s: Seq<u8>) -> Option<(StreamFrameView, nat)> {
    let has_offset = tag >= FRAME_STREAM + 4;
    let has_len = tag % 4 >= 2;
    let fin = tag % 2 == 1;
    match parse_varint(s) {
        None => None,
        Some((id, n1)) => {
            let s1 = s.skip(n1 as int);
            match (if has_offset {
                parse_varint(s1)
            } else {
                Some((0u64, 0nat))
            }) {
                None => None,
                Some((offset, n2)) => {
                    let s2 = s1.skip(n2 as int);
                    if has_len {
                        match parse_varint(s2) {
                            None => None,
                            Some((l, n3)) => {
                                let s3 = s2.skip(n3 as int);
                                if s3.len() < l {
                                    None
                                } else {
                                    Some(
                                        (
                                            StreamFrameView {
                                                id,
                                                fin,
                                                offset,
                                                len: Some(l),
                                                data: s3.take(l as int),
                                            },
                                            n1 + n2 + n3 + l as nat,
                                        ),
                                    )
                                }
                            },
                        }
                    } else {
                        Some(
                            (StreamFrameView { id, fin, offset, len: None, data: s2 }, s.len()),
                        )
                    }
                },
            }
        },
    }
}

/// Reads one frame from the front of `s`: the frame and the number of
/// bytes it took. `None` where `s` is empty, starts with an unknown tag or
/// ends before the frame does.
pub open spec fn parse_frame(s: Seq<u8>) -> Option<(FrameView, nat)> {
    if s.len() == 0 {
        None
    } else if s[0] == FRAME_PADDING {
        Some((FrameView::Padding, 1))
    } else if s[0] == FRAME_PING {
        Some((FrameView::Ping, 1))
    } else if s[0] == FRAME_ACK {
        match parse_ack(s.skip(1)) {
            None => None,
            Some((a, n)) => Some((FrameView::Ack(a), n + 1)),
        }
    } else if FRAME_STREAM <= s[0] < FRAME_STREAM + 8 {
        match parse_stream(s[0], s.skip(1)) {
            None => None,
            Some((f, n)) => Some((FrameView::Stream(f), n + 1)),
        }
    } else {
        None
    }
}

/// Reads frames until `s` is used up. `None` if any of them does not parse.
pub open spec fn parse_frames(s: Seq<u8>) -> Option<Seq<FrameView>>
    decreases s.len(),
{
    if s.len() == 0 {
        Some(Seq::empty())
    } else {
        match parse_frame(s) {
            None => None,
            Some((f, n)) => if 0 < n <= s.len() {
                match parse_frames(s.skip(n as int)) {
                    None => None,
                    Some(rest) => Some(seq![f] + rest),
                }
            } else {
                None
            },
        }
    }
}

impl StreamFrame {
    pub fn is_valid(&self) -> (b: bool)
        ensures
            b == self@.valid(),
    {
        self.id <= VARINT_MAX && self.offset <= VARINT_MAX && match self.len {
            Some(l) => l <= VARINT_MAX && self.data.len() as u64 == l,
            None => true,
        }
    }

    /// Appends the frame's bytes to `buf`.
    pub fn encode(&self, buf: &mut Vec<u8>)
        requires
            self@.valid(),
        ensures
            final(buf)@ == old(buf)@ + self@.bytes(),
    {
        let mut tag: u8 = FRAME_STREAM;
        if self.offset > 0 {
            tag = tag + 4;
        }
        if self.len.is_some() {
            tag = tag + 2;
        }
        if self.fin {
            tag = tag + 1;
        }
        buf.push(tag);
        put_varint(buf, self.id);
        if self.offset > 0 {
            put_varint(buf, self.offset);
        }
        if let Some(l) = self.len {
            put_varint(buf, l);
        }
        put_bytes(buf, self.data.as_slice());
    }

    /// Reads the body of a stream frame with tag `tag` that starts at `pos`,
    /// behind the tag: the frame and the position behind it.
    pub fn decode(tag: u8, bytes: &[u8], pos: usize) -> (r: Option<(StreamFrame, usize)>)
        requires
            pos <= bytes@.len(),
            FRAME_STREAM <= tag < FRAME_STREAM + 8,
        ensures
            match parse_stream(tag, bytes@.skip(pos as int)) {
                Some((f, n)) => r matches Some((g, next)) && g@ == f && next == pos + n && pos + n
                    <= bytes@.len(),
                None => r is None,
            },
    {
        reveal(parse_stream);
        let total: usize = bytes.len();
        let has_offset: bool = tag >= FRAME_STREAM + 4;
        let has_len: bool = tag % 4 >= 2;
        let fin: bool = tag % 2 == 1;
        let (id, after_id) = match get_varint(bytes, pos) {
            Some(x) => x,
            None => { return None; },
        };
        proof {
            lemma_skip_skip(bytes@, pos as int, after_id - pos);
        }
        let (offset, after_offset) = if has_offset {
            match get_varint(bytes, after_id) {
                Some(x) => x,
                None => { return None; },
            }
        } else {
            (0u64, after_id)
        };
        proof {
            lemma_skip_skip(bytes@, after_id as int, after_offset - after_id);
        }
        if has_len {
            let (l, after_len) = match get_varint(bytes, after_offset) {
                Some(x) => x,
                None => { return None; },
            };
            proof {
                lemma_skip_skip(bytes@, after_offset as int, after_len - after_offset);
            }
            if l > (total - after_len) as u64 {
                return None;
            }
            let end: usize = after_len + l as usize;
            let data = slice_to_vec(slice_subrange(bytes, after_len, end));
            assert(data@ =~= bytes@.skip(after_len as int).take(l as int));
            Some((StreamFrame { id, fin, offset, len: Some(l), data }, end))
        } else {
            let data = slice_to_vec(slice_subrange(bytes, after_offset, total));
            Some((StreamFrame { id, fin, offset, len: None, data }, total))
        }
    }
}

impl Frame {
    pub fn is_valid(&self) -> (b: bool)
        ensures
            b == self@.valid(),
    {
        match self {
            Frame::Padding => true,
            Frame::Ping => true,
            Frame::Ack(a) => a.is_valid(),
            Frame::Stream(s) => s.is_valid(),
        }
    }

    /// Whether the frame's own bytes say where it ends.
    pub fn is_delimited(&self) -> (b: bool)
        ensures
            b == self@.delimited(),
    {
        match self {
            Frame::Stream(s) => s.len.is_some(),
            _ => true,
        }
    }

    /// Appends the frame's bytes to `buf`.
    pub fn encode(&self, buf: &mut Vec<u8>)
        requires
            self@.valid(),
        ensures
            final(buf)@ == old(buf)@ + self@.bytes(),
    {
        match self {
            Frame::Padding => {
                buf.push(FRAME_PADDING);
            },
            Frame::Ping => {
                buf.push(FRAME_PING);
            },
            Frame::Ack(a) => a.encode(buf),
            Frame::Stream(s) => s.encode(buf),
        }
    }

    /// Reads the frame that starts at `pos`: the frame and the position
    /// behind it.
    pub fn decode(bytes: &[u8], pos: usize) -> (r: Option<(Frame, usize)>)
        requires
            pos <= bytes@.len(),
        ensures
            match parse_frame(bytes@.skip(pos as int)) {
                Some((f, n)) => r matches Some((g, next)) && g@ == f && next == pos + n && 0 < n
                    && pos + n <= bytes@.len(),
                None => r is None,
            },
    {
        let total: usize = bytes.len();
        if pos >= total {
            return None;
        }
        let tag: u8 = bytes[pos];
        proof {
            lemma_skip_skip(bytes@, pos as int, 1);
        }
        if tag == FRAME_PADDING {
            Some((Frame::Padding, pos + 1))
        } else if tag == FRAME_PING {
            Some((Frame::Ping, pos + 1))
        } else if tag == FRAME_ACK {
            match AckFrame::decode(bytes, pos + 1) {
                Some((a, next)) => Some((Frame::Ack(a), next)),
                None => None,
            }
        } else if FRAME_STREAM <= tag && tag < FRAME_STREAM + 8 {
            match StreamFrame::decode(tag, bytes, pos + 1) {
                Some((f, next)) => Some((Frame::Stream(f), next)),
                None => None,
            }
        } else {
            None
        }
    }
}

/// Whether `frames` is a valid payload.
pub fn check_frames(frames: &Vec<Frame>) -> (b: bool)
    ensures
        b == frames_valid(frames_view(frames@)),
{
    let n: usize = frames.len();
    let mut i: usize = 0;
    while i < n
        invariant
            i <= n,
            n == frames@.len(),
            forall|j: int|
                0 <= j < i ==> (#[trigger] frames_view(frames@)[j]).valid() && (j + 1 < n
                    ==> frames_view(frames@)[j].delimited()),
        decreases n - i,
    {
        assert(frames_view(frames@)[i as int] == frames@[i as int]@);
        if !frames[i].is_valid() {
            return false;
        }
        if i + 1 < n && !frames[i].is_delimited() {
            return false;
        }
        i = i + 1;
    }
    true
}

/// Appends the bytes of all `frames` to `buf`.
pub fn encode_frames(frames: &Vec<Frame>, buf: &mut Vec<u8>)
    requires
        frames_valid(frames_view(frames@)),
    ensures
        final(buf)@ == old(buf)@ + frames_bytes(frames_view(frames@)),
{
    let ghost all = frames_view(frames@);
    let n: usize = frames.len();
    let mut i: usize = 0;
    proof {
        assert(all.skip(0) =~= all);
    }
    while i < n
        invariant
            i <= n,
            n == frames@.len(),
            all == frames_view(frames@),
            frames_valid(all),
            buf@ + frames_bytes(all.skip(i as int)) == old(buf)@ + frames_bytes(all),
        decreases n - i,
    {
        let ghost rest = all.skip(i as int);
        frames[i].encode(buf);
        proof {
            assert(rest.drop_first() =~= all.skip(i + 1));
        }
        i = i + 1;
    }
}

/// Reads `bytes` as a sequence of frames.
pub fn decode_frames(bytes: &[u8]) -> (r: Option<Vec<Frame>>)
    ensures
        match parse_frames(bytes@) {
            Some(frames) => r matches Some(v) && frames_view(v@) == frames,
            None => r is None,
        },
{
    let total: usize = bytes.len();
    let mut frames: Vec<Frame> = Vec::new();
    let mut pos: usize = 0;
    proof {
        assert(bytes@.skip(0) =~= bytes@);
    }
    while pos < total
        invariant
            pos <= total,
            total == bytes@.len(),
            parse_frames(bytes@) == (match parse_frames(bytes@.skip(pos as int)) {
                Some(rest) => Some(frames_view(frames@) + rest),
                None => None,
            }),
        decreases total - pos,
    {
        match Frame::decode(bytes, pos) {
            None => {
                return None;
            },
            Some((f, next)) => {
                proof {
                    lemma_skip_skip(bytes@, pos as int, next - pos);
                }
                frames.push(f);
                pos = next;
            },
        }
    }
    Some(frames)
}

/// Parsing the body of an encoded stream frame gives the frame back and
/// stops right behind it. A frame without an explicit length must be the
/// last thing in the buffer.
pub proof fn lemma_stream_round_trip(f: StreamFrameView, rest: Seq<u8>)
    requires
        f.valid(),
        f.len is Some || rest.len() == 0,
    ensures
        f.bytes().len() >= 1,
        FRAME_STREAM <= f.tag() < FRAME_STREAM + 8,
        f.bytes()[0] == f.tag(),
        parse_stream(f.tag(), f.bytes().skip(1) + rest) == Some((f, (f.bytes().len() - 1) as nat)),
{
    reveal(parse_stream);
    let tag = f.tag();
    let b1 = varint_bytes(f.id);
    let s = f.bytes().skip(1) + rest;
    let r1 = f.offset_bytes() + (f.len_bytes() + (f.data + rest));
    let r2 = f.len_bytes() + (f.data + rest);
    let r3 = f.data + rest;
    lemma_varint_round_trip(f.id, r1);
    assert(s =~= b1 + r1);
    assert(s.skip(b1.len() as int) =~= r1);
    let n2 = f.offset_bytes().len();
    if f.offset > 0 {
        lemma_varint_round_trip(f.offset, r2);
    }
    assert(r1.skip(n2 as int) =~= r2);
    if let Some(l) = f.len {
        lemma_varint_round_trip(l, r3);
    }
    match parse_stream(tag, s) {
        Some((g, _)) => {
            assert(g.data =~= f.data);
        },
        None => {
            assert(false);
        },
    }
}

/// Parsing an encoded frame, whatever follows it, gives the frame back and
/// stops right behind it. A frame that does not say where it ends must be
/// the last thing in the buffer.
pub proof fn lemma_frame_round_trip(f: FrameView, rest: Seq<u8>)
    requires
        f.valid(),
        f.delimited() || rest.len() == 0,
    ensures
        f.bytes().len() >= 1,
        parse_frame(f.bytes() + rest) == Some((f, f.bytes().len())),
{
    let s = f.bytes() + rest;
    match f {
        FrameView::Padding => {},
        FrameView::Ping => {},
        FrameView::Ack(a) => {
            lemma_ack_round_trip(a, rest);
            assert(s.skip(1) =~= a.bytes().skip(1) + rest);
        },
        FrameView::Stream(st) => {
            lemma_stream_round_trip(st, rest);
            assert(s.skip(1) =~= st.bytes().skip(1) + rest);
        },
    }
}

/// Parsing the bytes of a valid payload gives the payload back.
pub proof fn lemma_frames_round_trip(frames: Seq<FrameView>)
    requires
        frames_valid(frames),
    ensures
        parse_frames(frames_bytes(frames)) == Some(frames),
    decreases frames.len(),
{
    if frames.len() > 0 {
        let first = frames[0];
        let tail = frames.drop_first();
        let rest = frames_bytes(tail);
        let s = frames_bytes(frames);
        assert forall|i: int| 0 <= i < tail.len() implies (#[trigger] tail[i]).valid() && (i + 1
            < tail.len() ==> tail[i].delimited()) by {
            assert(tail[i] == frames[i + 1]);
        }
        lemma_frame_round_trip(first, rest);
        lemma_frames_round_trip(tail);
        assert(s.skip(first.bytes().len() as int) =~= rest);
    }
}

/// One parsed frame is valid, lies within the buffer, and either says
/// where it ends or takes the whole buffer.
pub proof fn lemma_parse_frame_valid(s: Seq<u8>)
    ensures
        parse_frame(s) matches Some((f, n)) ==> f.valid() && 0 < n <= s.len() && (f.delimited()
            || n == s.len()),
{
    reveal(parse_stream);
    if s.len() > 0 && s[0] == FRAME_ACK {
        lemma_parse_ack_valid(s.skip(1));
    } else if s.len() > 0 && FRAME_STREAM <= s[0] < FRAME_STREAM + 8 {
        let b = s.skip(1);
        lemma_parse_varint_range(b);
        if let Some((_, n1)) = parse_varint(b) {
            let b1 = b.skip(n1 as int);
            lemma_parse_varint_range(b1);
            let n2 = if s[0] >= FRAME_STREAM + 4 {
                match parse_varint(b1) {
                    Some((_, n)) => n,
                    None => 0,
                }
            } else {
                0
            };
            let b2 = b1.skip(n2 as int);
            lemma_parse_varint_range(b2);
        }
    }
}

/// Whatever parses as a payload is a valid payload.
pub proof fn lemma_parse_frames_valid(s: Seq<u8>)
    ensures
        parse_frames(s) matches Some(frames) ==> frames_valid(frames),
    decreases s.len(),
{
    if s.len() > 0 {
        lemma_parse_frame_valid(s);
        if let Some((f, n)) = parse_frame(s) {
            let later = s.skip(n as int);
            lemma_parse_frames_valid(later);
            if let Some(rest) = parse_frames(later) {
                let frames = seq![f] + rest;
                assert forall|i: int| 0 <= i < frames.len() implies (#[trigger] frames[i]).valid()
                    && (i + 1 < frames.len() ==> frames[i].delimited()) by {
                    if i > 0 {
                    }
                }
            }
        }
    }
}

} // verus!
