//! Big-endian integers and variable-length integers on the wire.
//!
//! A variable-length integer spends the two high bits of its first byte on
//! its own size (1, 2, 4 or 8 bytes) and the remaining bits on the value,
//! so it holds values below 2^62.

use vstd::prelude::*;

verus! {

/// Largest value a variable-length integer can carry.
pub const VARINT_MAX: u64 = 0x3FFF_FFFF_FFFF_FFFF;

/// 256 to the power `n`.
pub open spec fn pow256(n: nat) -> nat
    decreases n,
{
    if n == 0 {
        1
    } else {
        256 * pow256((n - 1) as nat)
    }
}

/// The `n` low-order base-256 digits of `v`, most significant first.
pub open spec fn be_bytes(v: nat, n: nat) -> Seq<u8>
    decreases n,
{
    if n == 0 {
        Seq::empty()
    } else {
        be_bytes(v / 256, (n - 1) as nat).push((v % 256) as u8)
    }
}

/// The number that `s` spells in base 256, most significant digit first.
pub open spec fn be_value(s: Seq<u8>) -> nat
    decreases s.len(),
{
    if s.len() == 0 {
        0
    } else {
        be_value(s.drop_last()) * 256 + s.last() as nat
    }
}

pub proof fn lemma_pow256_values()
    ensures
        pow256(0) == 1,
        pow256(1) == 0x100,
        pow256(2) == 0x1_0000,
        pow256(3) == 0x100_0000,
        pow256(4) == 0x1_0000_0000,
        pow256(5) == 0x100_0000_0000,
        pow256(6) == 0x1_0000_0000_0000,
        pow256(7) == 0x100_0000_0000_0000,
        pow256(8) == 0x1_0000_0000_0000_0000,
{
    reveal_with_fuel(pow256, 9);
}

pub proof fn lemma_be_bytes_len(v: nat, n: nat)
    ensures
        be_bytes(v, n).len() == n,
    decreases n,
{
    if n > 0 {
        lemma_be_bytes_len(v / 256, (n - 1) as nat);
    }
}

/// A number read from `n` digits is below 256^n.
pub proof fn lemma_be_value_bound(s: Seq<u8>)
    ensures
        be_value(s) < pow256(s.len()),
    decreases s.len(),
{
    if s.len() > 0 {
        lemma_be_value_bound(s.drop_last());
    }
}

/// Reading back the digits of `v` gives `v`, as long as `v` fits in them.
pub proof fn lemma_be_round_trip(v: nat, n: nat)
    requires
        v < pow256(n),
    ensures
        be_value(be_bytes(v, n)) == v,
    decreases n,
{
    if n > 0 {
        let b = be_bytes(v, n);
        assert(b.drop_last() =~= be_bytes(v / 256, (n - 1) as nat));
        lemma_be_round_trip(v / 256, (n - 1) as nat);
    }
}

/// Writing the digits of a number read from `s` gives `s` again.
pub proof fn lemma_be_bytes_of_value(s: Seq<u8>)
    ensures
        be_bytes(be_value(s), s.len()) == s,
    decreases s.len(),
{
    if s.len() > 0 {
        lemma_be_bytes_of_value(s.drop_last());
    }
}

/// The leading digit weighs 256^(len - 1).
pub proof fn lemma_be_value_front(s: Seq<u8>)
    requires
        s.len() > 0,
    ensures
        be_value(s) == s[0] as nat * pow256((s.len() - 1) as nat) + be_value(s.drop_first()),
    decreases s.len(),
{
    let tail = s.drop_first();
    if s.len() == 1 {
        assert(be_value(s.drop_last()) == 0);
        assert(pow256(0) == 1);
        assert(s[0] as nat * pow256(0) == s[0] as nat);
    } else {
        let init = s.drop_last();
        lemma_be_value_front(init);
        assert(init.drop_first() =~= tail.drop_last());
        let weight = pow256((s.len() - 2) as nat);
        let lead = s[0] as nat;
        let rest = be_value(tail.drop_last());
        assert((lead * weight + rest) * 256 == lead * (256 * weight) + rest * 256)
            by (nonlinear_arith);
    }
}

/// Appends the `n` low-order bytes of `v` to `buf`, most significant first.
pub fn put_be(buf: &mut Vec<u8>, v: u64, n: usize)
    requires
        n <= 8,
    ensures
        final(buf)@ == old(buf)@ + be_bytes(v as nat, n as nat),
    decreases n,
{
    if n > 0 {
        put_be(buf, v / 256, n - 1);
        buf.push((v % 256) as u8);
    }
}

/// Reads the `n` bytes at `pos` as one big-endian number.
pub fn get_be(bytes: &[u8], pos: usize, n: usize) -> (v: u64)
    requires
        n <= 8,
        pos + n <= bytes@.len(),
    ensures
        v as nat == be_value(bytes@.subrange(pos as int, pos + n)),
{
    let total: usize = bytes.len();
    let mut acc: u64 = 0;
    let mut i: usize = 0;
    while i < n
        invariant
            i <= n <= 8,
            pos + n <= bytes@.len(),
            total == bytes@.len(),
            acc as nat == be_value(bytes@.subrange(pos as int, pos + i)),
        decreases n - i,
    {
        let ghost before = bytes@.subrange(pos as int, pos + i);
        let ghost after = bytes@.subrange(pos as int, pos + i + 1);
        proof {
            lemma_be_value_bound(before);
            lemma_pow256_values();
            assert(after.drop_last() =~= before);
            lemma_pow256_monotonic(i as nat, 7);
        }
        acc = acc * 256 + bytes[pos + i] as u64;
        i = i + 1;
    }
    acc
}

pub proof fn lemma_pow256_monotonic(a: nat, b: nat)
    requires
        a <= b,
    ensures
        pow256(a) <= pow256(b),
        pow256(a) >= 1,
    decreases b,
{
    if a < b {
        lemma_pow256_monotonic(a, (b - 1) as nat);
    } else if a > 0 {
        lemma_pow256_monotonic((a - 1) as nat, (a - 1) as nat);
    }
}

/// Number of bytes that the shortest encoding of `v` takes.
pub open spec fn varint_size(v: u64) -> nat {
    if v < 0x40 {
        1
    } else if v < 0x4000 {
        2
    } else if v < 0x4000_0000 {
        4
    } else {
        8
    }
}

/// What the two size bits add to a number written in `n` bytes.
pub open spec fn varint_mark(n: nat) -> nat {
    if n == 1 {
        0
    } else if n == 2 {
        0x4000
    } else if n == 4 {
        0x8000_0000
    } else {
        0xC000_0000_0000_0000
    }
}

/// Size that the first byte of a variable-length integer announces.
pub open spec fn varint_announced(first: u8) -> nat {
    if first < 0x40 {
        1
    } else if first < 0x80 {
        2
    } else if first < 0xC0 {
        4
    } else {
        8
    }
}

/// The shortest encoding of `v`, defined for `v <= VARINT_MAX`.
#[verifier::opaque]
pub open spec fn varint_bytes(v: u64) -> Seq<u8> {
    be_bytes(v as nat + varint_mark(varint_size(v)), varint_size(v))
}

/// Reads one variable-length integer from the front of `s`: the value and
/// the number of bytes it took, or `None` if `s` ends too early. Encodings
/// longer than necessary are read as well.
#[verifier::opaque]
pub open spec fn parse_varint(s: Seq<u8>) -> Option<(u64, nat)> {
    if s.len() == 0 {
        None
    } else {
        let n = varint_announced(s[0]);
        if s.len() < n {
            None
        } else {
            Some(((be_value(s.subrange(0, n as int)) - varint_mark(n)) as u64, n))
        }
    }
}

/// The digits behind an announced size spell the size's mark plus a value
/// below 2^62.
pub proof fn lemma_varint_raw_range(s: Seq<u8>)
    requires
        s.len() > 0,
        s.len() == varint_announced(s[0]),
    ensures
        varint_mark(s.len()) <= be_value(s),
        be_value(s) - varint_mark(s.len()) <= VARINT_MAX,
{
    lemma_be_value_split(s);
}

/// The front lemma with the weight written out, for the four sizes that a
/// variable-length integer can have.
proof fn lemma_be_value_split(s: Seq<u8>)
    requires
        s.len() == 1 || s.len() == 2 || s.len() == 4 || s.len() == 8,
    ensures
        s.len() == 1 ==> be_value(s) == s[0] as nat,
        s.len() == 2 ==> be_value(s) == s[0] as nat * 0x100 + be_value(s.drop_first())
            && be_value(s.drop_first()) < 0x100,
        s.len() == 4 ==> be_value(s) == s[0] as nat * 0x100_0000 + be_value(s.drop_first())
            && be_value(s.drop_first()) < 0x100_0000,
        s.len() == 8 ==> be_value(s) == s[0] as nat * 0x100_0000_0000_0000 + be_value(
            s.drop_first(),
        ) && be_value(s.drop_first()) < 0x100_0000_0000_0000,
{
    lemma_be_value_front(s);
    lemma_be_value_bound(s.drop_first());
    lemma_pow256_values();
    let w = pow256((s.len() - 1) as nat);
    let d = s[0] as nat;
    if s.len() == 1 {
        assert(d * w == d) by (nonlinear_arith)
            requires
                w == 1,
        ;
    } else if s.len() == 2 {
        assert(d * w == d * 0x100) by (nonlinear_arith)
            requires
                w == 0x100,
        ;
    } else if s.len() == 4 {
        assert(d * w == d * 0x100_0000) by (nonlinear_arith)
            requires
                w == 0x100_0000,
        ;
    } else {
        assert(d * w == d * 0x100_0000_0000_0000) by (nonlinear_arith)
            requires
                w == 0x100_0000_0000_0000,
        ;
    }
}

/// Every value that a parse returns fits in 62 bits, and the parse never
/// consumes more than is there.
pub proof fn lemma_parse_varint_range(s: Seq<u8>)
    ensures
        parse_varint(s) matches Some((v, n)) ==> v <= VARINT_MAX && 1 <= n <= s.len() && n <= 8
            && v as nat + varint_mark(n) == be_value(s.subrange(0, n as int)),
{
    reveal(parse_varint);
    if s.len() > 0 {
        let n = varint_announced(s[0]);
        if s.len() >= n {
            let head = s.subrange(0, n as int);
            lemma_varint_raw_range(head);
        }
    }
}

/// Parsing the encoding of `v`, whatever follows it, gives `v` back and
/// stops right behind it.
pub proof fn lemma_varint_round_trip(v: u64, rest: Seq<u8>)
    requires
        v <= VARINT_MAX,
    ensures
        varint_bytes(v).len() == varint_size(v),
        parse_varint(varint_bytes(v) + rest) == Some((v, varint_size(v))),
{
    reveal(parse_varint);
    reveal(varint_bytes);
    let n = varint_size(v);
    let x = v as nat + varint_mark(n);
    let b = varint_bytes(v);
    lemma_pow256_values();
    lemma_be_bytes_len(x, n);
    lemma_be_round_trip(x, n);
    lemma_be_value_split(b);
    let s = b + rest;
    assert(s.subrange(0, n as int) =~= b);
}

/// Appends the shortest encoding of `v` to `buf`.
pub fn put_varint(buf: &mut Vec<u8>, v: u64)
    requires
        v <= VARINT_MAX,
    ensures
        final(buf)@ == old(buf)@ + varint_bytes(v),
{
    reveal(varint_bytes);
    if v < 0x40 {
        put_be(buf, v, 1);
    } else if v < 0x4000 {
        put_be(buf, v + 0x4000, 2);
    } else if v < 0x4000_0000 {
        put_be(buf, v + 0x8000_0000, 4);
    } else {
        put_be(buf, v + 0xC000_0000_0000_0000, 8);
    }
}

/// Reads the variable-length integer that starts at `pos`: its value and
/// the position behind it.
pub fn get_varint(bytes: &[u8], pos: usize) -> (r: Option<(u64, usize)>)
    requires
        pos <= bytes@.len(),
    ensures
        match parse_varint(bytes@.skip(pos as int)) {
            Some((v, n)) => r matches Some((w, next)) && w == v && next == pos + n && next
                <= bytes@.len() && v <= VARINT_MAX,
            None => r is None,
        },
{
    reveal(parse_varint);
    let total: usize = bytes.len();
    if pos >= total {
        return None;
    }
    let first: u8 = bytes[pos];
    let n: usize = if first < 0x40 {
        1
    } else if first < 0x80 {
        2
    } else if first < 0xC0 {
        4
    } else {
        8
    };
    let ghost s = bytes@.skip(pos as int);
    if total - pos < n {
        return None;
    }
    let raw: u64 = get_be(bytes, pos, n);
    proof {
        assert(s.subrange(0, n as int) =~= bytes@.subrange(pos as int, pos + n));
        lemma_parse_varint_range(s);
    }
    let mark: u64 = if n == 1 {
        0
    } else if n == 2 {
        0x4000
    } else if n == 4 {
        0x8000_0000
    } else {
        0xC000_0000_0000_0000
    };
    Some((raw - mark, pos + n))
}

/// Skipping twice is skipping once by the sum.
pub proof fn lemma_skip_skip(s: Seq<u8>, a: int, b: int)
    requires
        0 <= a,
        0 <= b,
        a + b <= s.len(),
    ensures
        s.skip(a).skip(b) == s.skip(a + b),
{
}

/// Appends `data` to `buf`.
pub fn put_bytes(buf: &mut Vec<u8>, data: &[u8])
    ensures
        final(buf)@ == old(buf)@ + data@,
{
    buf.extend_from_slice(data);
}

} // verus!
