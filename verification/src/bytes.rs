//! Little-endian integer layout used by every binary format of the game.
use vstd::prelude::*;

verus! {

/// The value of the little-endian `u16` stored at `pos` in `s`.
pub open spec fn le_u16(s: Seq<u8>, pos: int) -> int {
    s[pos] as int + 256 * (s[pos + 1] as int)
}

/// The value of the little-endian `u32` stored at `pos` in `s`.
pub open spec fn le_u32(s: Seq<u8>, pos: int) -> int {
    s[pos] as int + 256 * (s[pos + 1] as int) + 65536 * (s[pos + 2] as int) + 16777216 * (
    s[pos + 3] as int)
}

/// The value of the little-endian `i32` stored at `pos` in `s` (two's complement).
pub open spec fn le_i32(s: Seq<u8>, pos: int) -> int {
    let u = le_u32(s, pos);
    if u >= 0x8000_0000 {
        u - 0x1_0000_0000
    } else {
        u
    }
}

/// The two bytes of `x` in little-endian order.
pub open spec fn u16_le_bytes(x: u16) -> Seq<u8> {
    seq![(x % 256) as u8, (x / 256) as u8]
}

/// The four bytes of `x` in little-endian order.
pub open spec fn u32_le_bytes(x: u32) -> Seq<u8> {
    seq![
        (x % 256) as u8,
        ((x / 256) % 256) as u8,
        ((x / 65536) % 256) as u8,
        (x / 16777216) as u8,
    ]
}

/// Reads the little-endian `u16` at `pos`.
pub fn read_u16_le(s: &[u8], pos: usize) -> (r: u16)
    requires
        pos + 2 <= s@.len(),
    ensures
        r as int == le_u16(s@, pos as int),
{
    (s[pos] as u16) + (s[pos + 1] as u16) * 256
}

/// Reads the little-endian `u32` at `pos`.
pub fn read_u32_le(s: &[u8], pos: usize) -> (r: u32)
    requires
        pos + 4 <= s@.len(),
    ensures
        r as int == le_u32(s@, pos as int),
{
    (s[pos] as u32) + (s[pos + 1] as u32) * 256 + (s[pos + 2] as u32) * 65536 + (s[pos
        + 3] as u32) * 16777216
}

/// Reads the little-endian two's complement `i32` at `pos`.
pub fn read_i32_le(s: &[u8], pos: usize) -> (r: i32)
    requires
        pos + 4 <= s@.len(),
    ensures
        r as int == le_i32(s@, pos as int),
{
    let u = read_u32_le(s, pos);
    if u >= 0x8000_0000 {
        let v: i64 = (u as i64) - 0x1_0000_0000i64;
        v as i32
    } else {
        u as i32
    }
}

/// Appends the little-endian bytes of `x`.
pub fn push_u16_le(out: &mut Vec<u8>, x: u16)
    ensures
        final(out)@ == old(out)@ + u16_le_bytes(x),
{
    out.push((x % 256) as u8);
    out.push((x / 256) as u8);
    assert(final(out)@ =~= old(out)@ + u16_le_bytes(x));
}

/// Appends the little-endian bytes of `x`.
pub fn push_u32_le(out: &mut Vec<u8>, x: u32)
    ensures
        final(out)@ == old(out)@ + u32_le_bytes(x),
{
    out.push((x % 256) as u8);
    out.push(((x / 256) % 256) as u8);
    out.push(((x / 65536) % 256) as u8);
    out.push((x / 16777216) as u8);
    assert(final(out)@ =~= old(out)@ + u32_le_bytes(x));
}

/// Reading back the bytes written for a `u16` gives the value again.
pub proof fn lemma_u16_round_trip(x: u16, prefix: Seq<u8>, suffix: Seq<u8>)
    ensures
        le_u16(prefix + u16_le_bytes(x) + suffix, prefix.len() as int) == x,
{
    let s = prefix + u16_le_bytes(x) + suffix;
    assert(s[prefix.len() as int] == (x % 256) as u8);
    assert(s[prefix.len() as int + 1] == (x / 256) as u8);
}

/// Reading back the bytes written for a `u32` gives the value again.
pub proof fn lemma_u32_round_trip(x: u32, prefix: Seq<u8>, suffix: Seq<u8>)
    ensures
        le_u32(prefix + u32_le_bytes(x) + suffix, prefix.len() as int) == x,
{
    let s = prefix + u32_le_bytes(x) + suffix;
    let p = prefix.len() as int;
    assert(s[p] == (x % 256) as u8);
    assert(s[p + 1] == ((x / 256) % 256) as u8);
    assert(s[p + 2] == ((x / 65536) % 256) as u8);
    assert(s[p + 3] == (x / 16777216) as u8);
}

/// The `u16` whose bytes stand at `pos` reads back.
pub proof fn lemma_le_u16_at(b: Seq<u8>, pos: int, x: u16)
    requires
        0 <= pos,
        pos + 2 <= b.len(),
        b.subrange(pos, pos + 2) == u16_le_bytes(x),
    ensures
        le_u16(b, pos) == x,
{
    assert(b[pos] == b.subrange(pos, pos + 2)[0]);
    assert(b[pos + 1] == b.subrange(pos, pos + 2)[1]);
}

/// The `u32` whose bytes stand at `pos` reads back.
pub proof fn lemma_le_u32_at(b: Seq<u8>, pos: int, x: u32)
    requires
        0 <= pos,
        pos + 4 <= b.len(),
        b.subrange(pos, pos + 4) == u32_le_bytes(x),
    ensures
        le_u32(b, pos) == x,
{
    let w = b.subrange(pos, pos + 4);
    assert(b[pos] == w[0]);
    assert(b[pos + 1] == w[1]);
    assert(b[pos + 2] == w[2]);
    assert(b[pos + 3] == w[3]);
}

} // verus!
