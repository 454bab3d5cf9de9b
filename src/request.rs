//! The request frame: a little-endian `u16` length, then the path payload
//! in one of two encodings.
use vstd::prelude::*;

verus! {

/// Size of the request's length prefix.
pub const LENGTH_PREFIX_LEN: usize = 2;

/// Bytes per code unit in the glyph-code encoding.
pub const GLYPH_UNIT_LEN: usize = 4;

/// How the path payload is encoded.
#[derive(Debug, Clone, Copy, PartialEq, Eq, Structural)]
pub enum Encoding {
    /// One byte per character.
    RawBytes,
    /// One four-byte code unit per character, through a glyph table.
    GlyphCodes,
}

/// Bytes of payload that follow a length prefix declaring `declared`.
pub open spec fn payload_len_spec(encoding: Encoding, declared: u16) -> int {
    match encoding {
        Encoding::RawBytes => declared as int,
        Encoding::GlyphCodes => declared as int * GLYPH_UNIT_LEN,
    }
}

/// The number of payload bytes to read after the length prefix: the
/// declared count, in bytes or in four-byte code units.
pub fn payload_byte_count(encoding: Encoding, declared: u16) -> (r: usize)
    ensures
        r as int == payload_len_spec(encoding, declared),
{
    match encoding {
        Encoding::RawBytes => declared as usize,
        Encoding::GlyphCodes => declared as usize * GLYPH_UNIT_LEN,
    }
}

/// The glyph of a code unit, from what the glyph table made of it: a unit
/// stands for a character only where the table gives exactly one.
pub fn glyph_of_text(decoded: Option<Vec<char>>) -> (r: Option<char>)
    ensures
        r == (match decoded {
            Some(t) => if t@.len() == 1 {
                Some(t@[0])
            } else {
                None::<char>
            },
            None => None::<char>,
        }),
{
    match decoded {
        Some(t) => {
            if t.len() == 1 {
                Some(t[0])
            } else {
                None
            }
        },
        None => None,
    }
}

} // verus!
