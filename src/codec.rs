//! Little-endian integer codecs for the wire format.
use vstd::prelude::*;

verus! {

/// The value of two bytes read as a little-endian integer.
pub open spec fn le16_value(s: Seq<u8>) -> int {
    s[0] as int + 256 * (s[1] as int)
}

/// The value of four bytes read as a little-endian integer.
pub open spec fn le32_value(s: Seq<u8>) -> int {
    s[0] as int + 256 * (s[1] as int) + 65536 * (s[2] as int) + 16777216 * (s[3] as int)
}

/// The four little-endian bytes of `x`.
pub open spec fn le32_bytes(x: u32) -> Seq<u8> {
    seq![
        (x % 256) as u8,
        ((x / 256) % 256) as u8,
        ((x / 65536) % 256) as u8,
        (x / 16777216) as u8,
    ]
}

/// Reading back the bytes of `x` gives `x`.
pub proof fn lemma_le32_round_trip(x: u32)
    ensures
        le32_bytes(x).len() == 4,
        le32_value(le32_bytes(x)) == x as int,
{
    let b = le32_bytes(x);
    assert(b[0] == x % 256);
    assert(b[1] == (x / 256) % 256);
    assert(b[2] == (x / 65536) % 256);
    assert(b[3] == x / 16777216);
    assert(x as int == (x % 256) + 256 * ((x / 256) % 256) + 65536 * ((x / 65536) % 256)
        + 16777216 * (x / 16777216)) by (nonlinear_arith);
}

/// Reads a little-endian `u16` from the first two bytes of `bs`.
pub fn decode_u16_le(bs: &[u8]) -> (r: u16)
    requires
        bs@.len() >= 2,
    ensures
        r as int == le16_value(bs@),
{
    bs[0] as u16 + (bs[1] as u16) * 256
}

/// Reads a little-endian `u32` from the first four bytes of `bs`.
pub fn decode_u32_le(bs: &[u8]) -> (r: u32)
    requires
        bs@.len() >= 4,
    ensures
        r as int == le32_value(bs@),
{
    bs[0] as u32 + (bs[1] as u32) * 256 + (bs[2] as u32) * 65536 + (bs[3] as u32) * 16777216
}

/// Writes `x` as four little-endian bytes over the start of `dest`.
pub fn encode_u32_le(dest: &mut [u8], x: u32)
    requires
        old(dest)@.len() >= 4,
    ensures
        final(dest)@ == le32_bytes(x) + old(dest)@.subrange(4, old(dest)@.len() as int),
{
    dest[0] = (x % 256) as u8;
    dest[1] = ((x / 256) % 256) as u8;
    dest[2] = ((x / 65536) % 256) as u8;
    dest[3] = (x / 16777216) as u8;
    assert(dest@ =~= le32_bytes(x) + old(dest)@.subrange(4, old(dest)@.len() as int));
}

/// Packs a byte payload into code units, four little-endian bytes each.
pub fn pack_u8s_to_u32s(bs: Vec<u8>) -> (r: Vec<u32>)
    requires
        bs@.len() % 4 == 0,
    ensures
        r@.len() * 4 == bs@.len(),
        forall|k: int|
            0 <= k < r@.len() ==> #[trigger] r@[k] as int == le32_value(
                bs@.subrange(4 * k, 4 * k + 4),
            ),
{
    let mut out: Vec<u32> = Vec::new();
    let mut i: usize = 0;
    while i < bs.len()
        invariant
            bs@.len() % 4 == 0,
            i % 4 == 0,
            i <= bs@.len(),
            out@.len() * 4 == i,
            forall|k: int|
                0 <= k < out@.len() ==> #[trigger] out@[k] as int == le32_value(
                    bs@.subrange(4 * k, 4 * k + 4),
                ),
        decreases bs@.len() - i,
    {
        let unit = decode_u32_le(&bs.as_slice()[i..i + 4]);
        out.push(unit);
        i = i + 4;
    }
    out
}

} // verus!
