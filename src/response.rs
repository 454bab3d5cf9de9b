//! Framing a response: a handler blob with its length fields filled in,
//! followed by the content blob, behind a total-length prefix.
use vstd::prelude::*;
use crate::codec::{encode_u32_le, le32_bytes, le32_value, lemma_le32_round_trip};

verus! {

/// Size of the header that every handler blob starts with.
pub const HANDLER_HEADER_LEN: usize = 20;

/// Content shorter than this is padded with zeros up to it.
pub const MIN_CONTENT_LEN: usize = 20;

/// Offset in the handler header of the handler's own length.
pub const HANDLER_LEN_OFFSET: usize = 12;

/// Largest total that the length prefix can carry.
pub const MAX_FRAME_LEN: u64 = 0xFFFF_FFFF;

/// Why a response could not be framed; either way the request is refused.
#[derive(Debug, Clone, Copy, PartialEq, Eq, Structural)]
pub enum PackError {
    /// The handler blob is too short to hold its header.
    MalformedHandler,
    /// Handler and content together do not fit the length prefix.
    Oversized,
}

/// The content, zero-padded to at least `MIN_CONTENT_LEN` bytes.
pub open spec fn padded(c: Seq<u8>) -> Seq<u8> {
    if c.len() < MIN_CONTENT_LEN {
        c + Seq::new((MIN_CONTENT_LEN - c.len()) as nat, |i: int| 0u8)
    } else {
        c
    }
}

/// The handler blob with both length fields written into its header.
pub open spec fn patched(h: Seq<u8>, content_len: int) -> Seq<u8> {
    h.subrange(0, HANDLER_LEN_OFFSET as int) + le32_bytes(h.len() as u32) + le32_bytes(
        content_len as u32,
    ) + h.subrange(HANDLER_HEADER_LEN as int, h.len() as int)
}

/// Total payload length of the response for handler `h` and content `c`.
pub open spec fn frame_total(h: Seq<u8>, c: Seq<u8>) -> int {
    (h.len() + padded(c).len()) as int
}

/// The whole response for handler `h` and content `c`.
pub open spec fn frame_of(h: Seq<u8>, c: Seq<u8>) -> Seq<u8> {
    le32_bytes(frame_total(h, c) as u32) + patched(h, padded(c).len() as int) + padded(c)
}

/// Pads `content` with zeros up to `MIN_CONTENT_LEN` bytes.
pub fn pad_content(content: &mut Vec<u8>)
    ensures
        final(content)@ == padded(old(content)@),
{
    while content.len() < MIN_CONTENT_LEN
        invariant
            padded(content@) == padded(old(content)@),
        decreases MIN_CONTENT_LEN - content@.len(),
    {
        let ghost before = content@;
        content.push(0u8);
        assert(padded(content@) =~= padded(before));
    }
}

fn push_u32_le(out: &mut Vec<u8>, x: u32)
    ensures
        final(out)@ == old(out)@ + le32_bytes(x),
{
    let mut buf: Vec<u8> = vec![0u8, 0u8, 0u8, 0u8];
    encode_u32_le(buf.as_mut_slice(), x);
    assert(buf@ =~= le32_bytes(x));
    out.append(&mut buf);
}

fn push_range(out: &mut Vec<u8>, src: &[u8], lo: usize, hi: usize)
    requires
        lo <= hi <= src@.len(),
    ensures
        final(out)@ == old(out)@ + src@.subrange(lo as int, hi as int),
{
    let mut i: usize = lo;
    while i < hi
        invariant
            lo <= i <= hi <= src@.len(),
            out@ == old(out)@ + src@.subrange(lo as int, i as int),
        decreases hi - i,
    {
        out.push(src[i]);
        i = i + 1;
        assert(out@ =~= old(out)@ + src@.subrange(lo as int, i as int));
    }
}

/// Frames the response for a handler blob and a content blob: the content
/// is padded, the handler's header gets both lengths, and the frame is the
/// total length followed by the two blobs.
pub fn pack_response(handler: Vec<u8>, content: Vec<u8>) -> (r: Result<Vec<u8>, PackError>)
    ensures
        handler@.len() < HANDLER_HEADER_LEN ==> r == Err::<Vec<u8>, PackError>(
            PackError::MalformedHandler,
        ),
        handler@.len() >= HANDLER_HEADER_LEN && frame_total(handler@, content@) > MAX_FRAME_LEN
            ==> r == Err::<Vec<u8>, PackError>(PackError::Oversized),
        handler@.len() >= HANDLER_HEADER_LEN && frame_total(handler@, content@) <= MAX_FRAME_LEN
            ==> (r matches Ok(frame) && frame@ == frame_of(handler@, content@)),
{
    if handler.len() < HANDLER_HEADER_LEN {
        return Err(PackError::MalformedHandler);
    }
    let ghost given = content@;
    let mut content = content;
    pad_content(&mut content);
    let handler_len = handler.len();
    let content_len = content.len();
    if handler_len as u64 > MAX_FRAME_LEN || content_len as u64 > MAX_FRAME_LEN - handler_len as u64 {
        return Err(PackError::Oversized);
    }
    let mut out: Vec<u8> = Vec::new();
    push_u32_le(&mut out, (handler_len + content_len) as u32);
    push_range(&mut out, handler.as_slice(), 0, HANDLER_LEN_OFFSET);
    push_u32_le(&mut out, handler_len as u32);
    push_u32_le(&mut out, content_len as u32);
    push_range(&mut out, handler.as_slice(), HANDLER_HEADER_LEN, handler_len);
    push_range(&mut out, content.as_slice(), 0, content_len);
    assert(content@.subrange(0, content_len as int) =~= content@);
    assert(out@ =~= frame_of(handler@, given));
    Ok(out)
}

/// Content shorter than the minimum is padded to exactly the minimum, and
/// the content length recorded in the handler header is that minimum.
pub proof fn lemma_short_content_padded(h: Seq<u8>, c: Seq<u8>)
    requires
        c.len() < MIN_CONTENT_LEN,
        h.len() >= HANDLER_HEADER_LEN,
        frame_total(h, c) <= MAX_FRAME_LEN,
    ensures
        padded(c).len() == MIN_CONTENT_LEN,
        padded(c).subrange(0, c.len() as int) == c,
        le32_value(frame_of(h, c).subrange(20, 24)) == MIN_CONTENT_LEN,
{
    assert(padded(c).subrange(0, c.len() as int) =~= c);
    lemma_frame_lengths(h, c);
}

/// The length prefix of a frame is the handler length plus the padded
/// content length, and the header records each of the two.
pub proof fn lemma_frame_lengths(h: Seq<u8>, c: Seq<u8>)
    requires
        h.len() >= HANDLER_HEADER_LEN,
        frame_total(h, c) <= MAX_FRAME_LEN,
    ensures
        frame_of(h, c).len() == 4 + frame_total(h, c),
        le32_value(frame_of(h, c).subrange(0, 4)) == h.len() + padded(c).len(),
        le32_value(frame_of(h, c).subrange(16, 20)) == h.len(),
        le32_value(frame_of(h, c).subrange(20, 24)) == padded(c).len(),
        frame_of(h, c).subrange(4 + h.len() as int, frame_of(h, c).len() as int) == padded(c),
{
    let f = frame_of(h, c);
    let total = frame_total(h, c) as u32;
    let hl = h.len() as u32;
    let cl = padded(c).len() as u32;
    lemma_le32_round_trip(total);
    lemma_le32_round_trip(hl);
    lemma_le32_round_trip(cl);
    assert(f.subrange(0, 4) =~= le32_bytes(total));
    assert(f.subrange(16, 20) =~= le32_bytes(hl));
    assert(f.subrange(20, 24) =~= le32_bytes(cl));
    assert(f.subrange(4 + h.len() as int, f.len() as int) =~= padded(c));
}

} // verus!
