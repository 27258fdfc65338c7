//! Integers on the wire: fixed little-endian words and unsigned varints.

use vstd::prelude::*;

verus! {

/// The four bytes of a 32-bit word, least significant first.
pub open spec fn le_bytes_u32(x: u32) -> Seq<u8> {
    seq![
        (x % 256) as u8,
        (x / 256 % 256) as u8,
        (x / 65536 % 256) as u8,
        (x / 16777216) as u8,
    ]
}

/// The 32-bit word whose bytes, least significant first, open `s`.
pub open spec fn u32_from_le(s: Seq<u8>) -> u32
    recommends
        s.len() >= 4,
{
    (s[0] + 256 * s[1] + 65536 * s[2] + 16777216 * s[3]) as u32
}

/// The two bytes of a 16-bit word, least significant first.
pub open spec fn le_bytes_u16(x: u16) -> Seq<u8> {
    seq![(x % 256) as u8, (x / 256) as u8]
}

/// The 16-bit word whose bytes, least significant first, open `s`.
pub open spec fn u16_from_le(s: Seq<u8>) -> u16
    recommends
        s.len() >= 2,
{
    (s[0] + 256 * s[1]) as u16
}

/// Unsigned varint of `n`: its 7-bit groups, least significant first, each
/// but the last with the high bit set.
pub open spec fn varint(n: nat) -> Seq<u8>
    decreases n,
{
    if n < 128 {
        seq![n as u8]
    } else {
        seq![(n % 128 + 128) as u8] + varint(n / 128)
    }
}

/// The number that the varint at the head of `s` encodes and the count of
/// bytes it takes; `None` when `s` ends before a byte without the high bit.
pub open spec fn parse_varint(s: Seq<u8>) -> Option<(nat, nat)>
    decreases s.len(),
{
    if s.len() == 0 {
        None
    } else if s[0] < 128 {
        Some((s[0] as nat, 1))
    } else {
        match parse_varint(s.skip(1)) {
            Some((v, k)) => Some(((s[0] - 128 + 128 * v) as nat, k + 1)),
            None => None,
        }
    }
}

/// Reading back four little-endian bytes gives the word they were made of,
/// whatever follows them.
pub proof fn lemma_le_u32_roundtrip(x: u32, rest: Seq<u8>)
    ensures
        le_bytes_u32(x).len() == 4,
        u32_from_le(le_bytes_u32(x) + rest) == x,
{
    let s = le_bytes_u32(x) + rest;
    assert(s[0] == le_bytes_u32(x)[0]);
    assert(s[1] == le_bytes_u32(x)[1]);
    assert(s[2] == le_bytes_u32(x)[2]);
    assert(s[3] == le_bytes_u32(x)[3]);
}

/// Reading back two little-endian bytes gives the word they were made of.
pub proof fn lemma_le_u16_roundtrip(x: u16, rest: Seq<u8>)
    ensures
        le_bytes_u16(x).len() == 2,
        u16_from_le(le_bytes_u16(x) + rest) == x,
{
    let s = le_bytes_u16(x) + rest;
    assert(s[0] == le_bytes_u16(x)[0]);
    assert(s[1] == le_bytes_u16(x)[1]);
}

/// A varint is never empty, and parsing one that is followed by anything
/// gives back the number and the varint's own length.
pub proof fn lemma_varint_roundtrip(n: nat, rest: Seq<u8>)
    ensures
        varint(n).len() >= 1,
        parse_varint(varint(n) + rest) == Some((n, varint(n).len())),
    decreases n,
{
    let s = varint(n) + rest;
    if n < 128 {
        assert(s[0] == n as u8);
    } else {
        let tail = varint(n / 128);
        lemma_varint_roundtrip(n / 128, rest);
        assert(s[0] == (n % 128 + 128) as u8);
        assert(s.skip(1) == tail + rest);
    }
}

/// What was parsed from a buffer is parsed from any extension of it.
pub proof fn lemma_parse_varint_extend(s: Seq<u8>, rest: Seq<u8>)
    requires
        parse_varint(s) is Some,
    ensures
        parse_varint(s + rest) == parse_varint(s),
        parse_varint(s) matches Some((_, k)) ==> k <= s.len(),
    decreases s.len(),
{
    if s[0] >= 128 {
        lemma_parse_varint_extend(s.skip(1), rest);
        assert((s + rest).skip(1) == s.skip(1) + rest);
    }
    assert((s + rest)[0] == s[0]);
}

/// The four little-endian bytes of a word.
pub fn u32_le(x: u32) -> (out: Vec<u8>)
    ensures
        out@ == le_bytes_u32(x),
{
    let mut out: Vec<u8> = Vec::new();
    out.push((x % 256) as u8);
    out.push((x / 256 % 256) as u8);
    out.push((x / 65536 % 256) as u8);
    out.push((x / 16777216) as u8);
    assert(out@ =~= le_bytes_u32(x));
    out
}

/// The two little-endian bytes of a word.
pub fn u16_le(x: u16) -> (out: Vec<u8>)
    ensures
        out@ == le_bytes_u16(x),
{
    let mut out: Vec<u8> = Vec::new();
    out.push((x % 256) as u8);
    out.push((x / 256) as u8);
    assert(out@ =~= le_bytes_u16(x));
    out
}

/// The word whose little-endian bytes start at `at`.
pub fn read_u32_le(buf: &[u8], at: usize) -> (x: u32)
    requires
        at + 4 <= buf@.len(),
    ensures
        x == u32_from_le(buf@.skip(at as int)),
{
    let b0: u32 = buf[at] as u32;
    let b1: u32 = buf[at + 1] as u32;
    let b2: u32 = buf[at + 2] as u32;
    let b3: u32 = buf[at + 3] as u32;
    b0 + 256 * b1 + 65536 * b2 + 16777216 * b3
}

/// Varint of a length.
///
/// Calls `unsigned_varint::encode::usize`, which writes the 7-bit groups of
/// the number from the least significant up, sets the high bit on every
/// group and clears it on the last.
#[verifier::external_body]
fn varint_usize(n: usize) -> (out: Vec<u8>)
    ensures
        out@ == varint(n as nat),
{
    let mut buf = unsigned_varint::encode::usize_buffer();
    unsigned_varint::encode::usize(n, &mut buf).to_vec()
}

/// Appends the varint of `n` to `out`.
pub fn put_varint(out: &mut Vec<u8>, n: usize)
    ensures
        final(out)@ == old(out)@ + varint(n as nat),
{
    let mut encoded: Vec<u8> = varint_usize(n);
    out.append(&mut encoded);
}

/// What [`read_varint`] returns for the bytes `s`: the parsed number and its
/// length where the number fits a `usize`.
pub open spec fn varint_read(s: Seq<u8>) -> Option<(usize, usize)> {
    match parse_varint(s) {
        Some((v, k)) => if v <= usize::MAX {
            Some((v as usize, k as usize))
        } else {
            None
        },
        None => None,
    }
}

/// Reads the varint that starts at `at`: the number it encodes and how many
/// bytes it takes. `None` when the buffer ends inside the varint or the
/// number does not fit a `usize`.
pub fn read_varint(buf: &[u8], at: usize) -> (res: Option<(usize, usize)>)
    requires
        at <= buf@.len(),
    ensures
        res == varint_read(buf@.skip(at as int)),
        res matches Some((v, k)) ==> 1 <= k && at + k <= buf@.len() && parse_varint(
            buf@.skip(at as int),
        ) == Some((v as nat, k as nat)),
{
    let ghost s = buf@.skip(at as int);
    let n: usize = buf.len();
    let mut acc: u128 = 0;
    let mut scale: u128 = 1;
    let ghost mut weight: nat = 1;
    let mut j: usize = 0;
    assert(s.skip(0) == s);
    while j < n - at
        invariant
            n == buf@.len(),
            at + j <= n,
            s == buf@.skip(at as int),
            acc <= usize::MAX,
            weight >= 1,
            scale == weight || (scale > usize::MAX && weight > usize::MAX),
            scale <= 0x80_0000_0000_0000_0000,
            parse_varint(s) == match parse_varint(s.skip(j as int)) {
                Some((v, k)) => Some(((acc + weight * v) as nat, (k + j) as nat)),
                None => None,
            },
        decreases n - at - j,
    {
        let b: u8 = buf[at + j];
        let ghost here = parse_varint(s.skip(j as int));
        let ghost rest = parse_varint(s.skip(j as int + 1));
        assert(s.skip(j as int)[0] == b);
        assert(s.skip(j as int).skip(1) == s.skip(j as int + 1));
        let low: u8 = if b < 128 {
            b
        } else {
            b - 128
        };
        let ghost acc0: nat = acc as nat;
        if low != 0 {
            proof {
                if let Some((g, _)) = here {
                    lemma_weight_mono(weight, low as nat, g);
                }
            }
            if scale > usize::MAX as u128 {
                return None;
            }
            assert(low * scale <= 127 * 0xffff_ffff_ffff_ffff) by (nonlinear_arith)
                requires
                    low <= 127,
                    scale <= 0xffff_ffff_ffff_ffff,
            ;
            let next: u128 = acc + low as u128 * scale;
            if next > usize::MAX as u128 {
                assert(weight * (low as nat) == low * scale) by (nonlinear_arith)
                    requires
                        weight == scale,
                ;
                return None;
            }
            acc = next;
        }
        if b < 128 {
            assert(weight * (b as nat) == b * scale) by (nonlinear_arith)
                requires
                    weight == scale || b == 0,
            ;
            assert(here == Some((b as nat, 1nat)));
            assert(acc == acc0 + weight * (b as nat));
            return Some((acc as usize, j + 1));
        }
        proof {
            if let Some((v, _)) = rest {
                assert(weight * (low + 128 * v) == low * weight + (weight * 128) * v)
                    by (nonlinear_arith);
                assert(acc == acc0 + low * weight) by (nonlinear_arith)
                    requires
                        (low == 0 && acc == acc0) || (acc == acc0 + low * scale && weight
                            == scale),
                ;
            }
            weight = weight * 128;
        }
        if scale <= usize::MAX as u128 {
            scale = scale * 128;
        }
        j += 1;
    }
    assert(s.skip(j as int).len() == 0);
    None
}

/// A group weighs no less than its leading bits, and no less than its
/// weight when those are not zero.
proof fn lemma_weight_mono(weight: nat, low: nat, group: nat)
    requires
        1 <= low <= group,
    ensures
        weight * group >= weight * low >= weight,
{
    assert(weight * group >= weight * low >= weight) by (nonlinear_arith)
        requires
            1 <= low <= group,
    ;
}

} // verus!
