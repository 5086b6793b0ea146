//! Acknowledgement frames.
//!
//! An acknowledgement names the largest packet number received, the run of
//! numbers right below it, and then, going down, alternating gaps and
//! further runs.

use crate::codec::{
    get_varint, lemma_parse_varint_range, lemma_skip_skip, lemma_varint_round_trip, parse_varint,
    put_varint, varint_bytes, VARINT_MAX,
};
use vstd::prelude::*;

verus! {

/// Wire tag of an acknowledgement frame.
pub const FRAME_ACK: u8 = 0x0d;

/// A run of packets not received, then a run of packets received.
#[derive(Clone, Copy, Debug, PartialEq, Eq)]
pub struct AckRange {
    pub gap: u64,
    pub len: u64,
}

/// Acknowledgement of received packets.
#[derive(Clone, Debug, PartialEq, Eq)]
pub struct AckFrame {
    /// Largest packet number acknowledged.
    pub largest: u64,
    /// Time between receiving that packet and sending this frame.
    pub delay: u64,
    /// How many packets right below `largest` are acknowledged as well.
    pub first_range: u64,
    /// Further ranges, going down.
    pub ranges: Vec<AckRange>,
}

/// Mathematical value of an [`AckFrame`].
pub struct AckFrameView {
    pub largest: u64,
    pub delay: u64,
    pub first_range: u64,
    pub ranges: Seq<AckRange>,
}

impl View for AckFrame {
    type V = AckFrameView;

    open spec fn view(&self) -> AckFrameView {
        AckFrameView {
            largest: self.largest,
            delay: self.delay,
            first_range: self.first_range,
            ranges: self.ranges@,
        }
    }
}

impl AckRange {
    pub open spec fn valid(self) -> bool {
        self.gap <= VARINT_MAX && self.len <= VARINT_MAX
    }

    /// Gap, then length.
    pub open spec fn bytes(self) -> Seq<u8> {
        varint_bytes(self.gap) + varint_bytes(self.len)
    }

    pub fn is_valid(self) -> (b: bool)
        ensures
            b == self.valid(),
    {
        self.gap <= VARINT_MAX && self.len <= VARINT_MAX
    }
}

pub open spec fn ranges_valid(ranges: Seq<AckRange>) -> bool {
    forall|i: int| 0 <= i < ranges.len() ==> (#[trigger] ranges[i]).valid()
}

/// The ranges' bytes, one after the other.
pub open spec fn ranges_bytes(ranges: Seq<AckRange>) -> Seq<u8>
    decreases ranges.len(),
{
    if ranges.len() == 0 {
        Seq::empty()
    } else {
        ranges[0].bytes() + ranges_bytes(ranges.drop_first())
    }
}

/// Reads one range from the front of `s`.
pub open spec fn parse_range(s: Seq<u8>) -> Option<(AckRange, nat)> {
    match parse_varint(s) {
        None => None,
        Some((gap, n1)) => match parse_varint(s.skip(n1 as int)) {
            None => None,
            Some((len, n2)) => Some((AckRange { gap, len }, n1 + n2)),
        },
    }
}

/// Reads `count` ranges from the front of `s`: the ranges and the number of
/// bytes they took.
pub open spec fn parse_ranges(s: Seq<u8>, count: nat) -> Option<(Seq<AckRange>, nat)>
    decreases count,
{
    if count == 0 {
        Some((Seq::empty(), 0))
    } else {
        match parse_range(s) {
            None => None,
            Some((r, n)) => match parse_ranges(s.skip(n as int), (count - 1) as nat) {
                None => None,
                Some((rest, m)) => Some((seq![r] + rest, n + m)),
            },
        }
    }
}

impl AckFrameView {
    pub open spec fn valid(self) -> bool {
        &&& self.largest <= VARINT_MAX
        &&& self.delay <= VARINT_MAX
        &&& self.first_range <= VARINT_MAX
        &&& self.ranges.len() <= VARINT_MAX
        &&& ranges_valid(self.ranges)
    }

    /// Tag, largest acknowledged, delay, count of further ranges, first
    /// range, further ranges.
    pub open spec fn bytes(self) -> Seq<u8> {
        seq![FRAME_ACK] + (varint_bytes(self.largest) + (varint_bytes(self.delay) + (varint_bytes(
            self.ranges.len() as u64,
        ) + (varint_bytes(self.first_range) + ranges_bytes(self.ranges)))))
    }
}

/// Reads the body of an acknowledgement frame, which starts behind the tag.
#[verifier::opaque]
pub open spec fn parse_ack(s: Seq<u8>) -> Option<(AckFrameView, nat)> {
    match parse_varint(s) {
        None => None,
        Some((largest, n1)) => match parse_varint(s.skip(n1 as int)) {
            None => None,
            Some((delay, n2)) => match parse_varint(s.skip((n1 + n2) as int)) {
                None => None,
                Some((count, n3)) => match parse_varint(s.skip((n1 + n2 + n3) as int)) {
                    None => None,
                    Some((first_range, n4)) => match parse_ranges(
                        s.skip((n1 + n2 + n3 + n4) as int),
                        count as nat,
                    ) {
                        None => None,
                        Some((ranges, n5)) => Some(
                            (
                                AckFrameView { largest, delay, first_range, ranges },
                                n1 + n2 + n3 + n4 + n5,
                            ),
                        ),
                    },
                },
            },
        },
    }
}

/// Parsing an encoded range, whatever follows it, gives the range back.
pub proof fn lemma_range_round_trip(r: AckRange, rest: Seq<u8>)
    requires
        r.valid(),
    ensures
        parse_range(r.bytes() + rest) == Some((r, r.bytes().len())),
{
    let b1 = varint_bytes(r.gap);
    let b2 = varint_bytes(r.len);
    let s = r.bytes() + rest;
    lemma_varint_round_trip(r.gap, b2 + rest);
    lemma_varint_round_trip(r.len, rest);
    assert(s =~= b1 + (b2 + rest));
    assert(s.skip(b1.len() as int) =~= b2 + rest);
}

/// Parsing encoded ranges, whatever follows them, gives the ranges back.
pub proof fn lemma_ranges_round_trip(ranges: Seq<AckRange>, rest: Seq<u8>)
    requires
        ranges_valid(ranges),
    ensures
        parse_ranges(ranges_bytes(ranges) + rest, ranges.len()) == Some(
            (ranges, ranges_bytes(ranges).len()),
        ),
    decreases ranges.len(),
{
    if ranges.len() > 0 {
        let first = ranges[0];
        let tail = ranges.drop_first();
        let later = ranges_bytes(tail) + rest;
        let s = ranges_bytes(ranges) + rest;
        assert forall|i: int| 0 <= i < tail.len() implies (#[trigger] tail[i]).valid() by {
            assert(tail[i] == ranges[i + 1]);
        }
        lemma_range_round_trip(first, later);
        lemma_ranges_round_trip(tail, rest);
        assert(s =~= first.bytes() + later);
        assert(s.skip(first.bytes().len() as int) =~= later);
    }
}

/// Parsing the body of an encoded acknowledgement, whatever follows it,
/// gives the frame back and stops right behind it.
pub proof fn lemma_ack_round_trip(a: AckFrameView, rest: Seq<u8>)
    requires
        a.valid(),
    ensures
        a.bytes().len() >= 1,
        a.bytes()[0] == FRAME_ACK,
        parse_ack(a.bytes().skip(1) + rest) == Some((a, (a.bytes().len() - 1) as nat)),
{
    reveal(parse_ack);
    let count = a.ranges.len() as u64;
    let b1 = varint_bytes(a.largest);
    let b2 = varint_bytes(a.delay);
    let b3 = varint_bytes(count);
    let b4 = varint_bytes(a.first_range);
    let b5 = ranges_bytes(a.ranges);
    let s = a.bytes().skip(1) + rest;
    let r1 = b2 + (b3 + (b4 + (b5 + rest)));
    let r2 = b3 + (b4 + (b5 + rest));
    let r3 = b4 + (b5 + rest);
    let r4 = b5 + rest;
    lemma_varint_round_trip(a.largest, r1);
    lemma_varint_round_trip(a.delay, r2);
    lemma_varint_round_trip(count, r3);
    lemma_varint_round_trip(a.first_range, r4);
    lemma_ranges_round_trip(a.ranges, rest);
    assert(s =~= b1 + r1);
    assert(s.skip(b1.len() as int) =~= r1);
    assert(s.skip((b1.len() + b2.len()) as int) =~= r2);
    assert(s.skip((b1.len() + b2.len() + b3.len()) as int) =~= r3);
    assert(s.skip((b1.len() + b2.len() + b3.len() + b4.len()) as int) =~= r4);
}

/// Ranges that parse are valid, as many as asked for, and lie within the
/// buffer.
pub proof fn lemma_parse_ranges_valid(s: Seq<u8>, count: nat)
    ensures
        parse_ranges(s, count) matches Some((ranges, n)) ==> ranges_valid(ranges) && ranges.len()
            == count && n <= s.len(),
    decreases count,
{
    if count > 0 {
        lemma_parse_varint_range(s);
        if let Some((_, n1)) = parse_varint(s) {
            lemma_parse_varint_range(s.skip(n1 as int));
        }
        if let Some((r, n)) = parse_range(s) {
            lemma_parse_ranges_valid(s.skip(n as int), (count - 1) as nat);
            if let Some((rest, m)) = parse_ranges(s.skip(n as int), (count - 1) as nat) {
                let ranges = seq![r] + rest;
                assert forall|i: int| 0 <= i < ranges.len() implies (#[trigger] ranges[i]).valid() by {
                    if i > 0 {
                    }
                }
            }
        }
    }
}

/// An acknowledgement that parses is valid and lies within the buffer.
pub proof fn lemma_parse_ack_valid(s: Seq<u8>)
    ensures
        parse_ack(s) matches Some((a, n)) ==> a.valid() && n <= s.len(),
{
    reveal(parse_ack);
    lemma_parse_varint_range(s);
    if let Some((_, n1)) = parse_varint(s) {
        lemma_parse_varint_range(s.skip(n1 as int));
        if let Some((_, n2)) = parse_varint(s.skip(n1 as int)) {
            lemma_parse_varint_range(s.skip((n1 + n2) as int));
            if let Some((count, n3)) = parse_varint(s.skip((n1 + n2) as int)) {
                lemma_parse_varint_range(s.skip((n1 + n2 + n3) as int));
                if let Some((_, n4)) = parse_varint(s.skip((n1 + n2 + n3) as int)) {
                    lemma_parse_ranges_valid(s.skip((n1 + n2 + n3 + n4) as int), count as nat);
                }
            }
        }
    }
}

impl AckFrame {
    pub fn is_valid(&self) -> (b: bool)
        ensures
            b == self@.valid(),
    {
        if !(self.largest <= VARINT_MAX && self.delay <= VARINT_MAX && self.first_range
            <= VARINT_MAX && self.ranges.len() as u64 <= VARINT_MAX) {
            return false;
        }
        let n: usize = self.ranges.len();
        let mut i: usize = 0;
        while i < n
            invariant
                i <= n,
                n == self.ranges@.len(),
                forall|j: int| 0 <= j < i ==> (#[trigger] self.ranges@[j]).valid(),
            decreases n - i,
        {
            if !self.ranges[i].is_valid() {
                return false;
            }
            i = i + 1;
        }
        true
    }

    /// Appends the frame's bytes to `buf`.
    pub fn encode(&self, buf: &mut Vec<u8>)
        requires
            self@.valid(),
        ensures
            final(buf)@ == old(buf)@ + self@.bytes(),
    {
        let n: usize = self.ranges.len();
        buf.push(FRAME_ACK);
        put_varint(buf, self.largest);
        put_varint(buf, self.delay);
        put_varint(buf, n as u64);
        put_varint(buf, self.first_range);
        let ghost head = buf@;
        let ghost all = self.ranges@;
        let mut i: usize = 0;
        proof {
            assert(all.skip(0) =~= all);
        }
        while i < n
            invariant
                i <= n,
                n == self.ranges@.len(),
                all == self.ranges@,
                ranges_valid(all),
                buf@ + ranges_bytes(all.skip(i as int)) == head + ranges_bytes(all),
            decreases n - i,
        {
            let ghost rest = all.skip(i as int);
            let r = self.ranges[i];
            put_varint(buf, r.gap);
            put_varint(buf, r.len);
            proof {
                assert(rest.drop_first() =~= all.skip(i + 1));
            }
            i = i + 1;
        }
    }

    /// Reads the body of an acknowledgement frame that starts at `pos`,
    /// behind the tag: the frame and the position behind it.
    pub fn decode(bytes: &[u8], pos: usize) -> (r: Option<(AckFrame, usize)>)
        requires
            pos <= bytes@.len(),
        ensures
            match parse_ack(bytes@.skip(pos as int)) {
                Some((a, n)) => r matches Some((b, next)) && b@ == a && next == pos + n && next
                    <= bytes@.len(),
                None => r is None,
            },
    {
        reveal(parse_ack);
        let (largest, after_largest) = match get_varint(bytes, pos) {
            Some(x) => x,
            None => { return None; },
        };
        proof {
            lemma_skip_skip(bytes@, pos as int, after_largest - pos);
        }
        let (delay, after_delay) = match get_varint(bytes, after_largest) {
            Some(x) => x,
            None => { return None; },
        };
        proof {
            lemma_skip_skip(bytes@, pos as int, after_delay - pos);
        }
        let (count, after_count) = match get_varint(bytes, after_delay) {
            Some(x) => x,
            None => { return None; },
        };
        proof {
            lemma_skip_skip(bytes@, pos as int, after_count - pos);
        }
        let (first_range, start) = match get_varint(bytes, after_count) {
            Some(x) => x,
            None => { return None; },
        };
        proof {
            lemma_skip_skip(bytes@, pos as int, start - pos);
        }
        let ghost body = bytes@.skip(start as int);
        let mut ranges: Vec<AckRange> = Vec::new();
        let mut at: usize = start;
        let mut i: u64 = 0;
        while i < count
            invariant
                i <= count,
                pos <= start <= at <= bytes@.len(),
                body == bytes@.skip(start as int),
                parse_ack(bytes@.skip(pos as int)) == (match parse_ranges(body, count as nat) {
                    Some((found, m)) => Some(
                        (
                            AckFrameView { largest, delay, first_range, ranges: found },
                            (start - pos + m) as nat,
                        ),
                    ),
                    None => None,
                }),
                parse_ranges(body, count as nat) == (match parse_ranges(
                    bytes@.skip(at as int),
                    (count - i) as nat,
                ) {
                    Some((rest, m)) => Some((ranges@ + rest, (at - start + m) as nat)),
                    None => None,
                }),
            decreases count - i,
        {
            let (gap, after_gap) = match get_varint(bytes, at) {
                Some(x) => x,
                None => { return None; },
            };
            proof {
                lemma_skip_skip(bytes@, at as int, after_gap - at);
            }
            let (len, after_len) = match get_varint(bytes, after_gap) {
                Some(x) => x,
                None => { return None; },
            };
            proof {
                lemma_skip_skip(bytes@, at as int, after_len - at);
            }
            ranges.push(AckRange { gap, len });
            at = after_len;
            i = i + 1;
        }
        Some((AckFrame { largest, delay, first_range, ranges }, at))
    }
}

} // verus!
