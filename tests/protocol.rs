use glyph_server::codec::{decode_u16_le, decode_u32_le, encode_u32_le, pack_u8s_to_u32s};
use glyph_server::path::{decode_raw, resolve_route, Route};
use glyph_server::reader::{ExactRead, ReadError};
use glyph_server::request::{glyph_of_text, payload_byte_count, Encoding};
use glyph_server::response::{pack_response, pad_content, PackError};

fn chars(s: &str) -> Vec<char> {
    s.chars().collect()
}

fn resolve_str(s: &str) -> Option<Route> {
    resolve_route(&decode_raw(s.as_bytes()))
}

fn texts(route: &Route) -> Vec<String> {
    route.components.iter().map(|c| c.iter().collect()).collect()
}

#[test]
fn decodes_u16_little_endian() {
    assert_eq!(decode_u16_le(&[0x34, 0x12]), 0x1234);
    assert_eq!(decode_u16_le(&[0xff, 0xff, 0x00]), 0xffff);
}

#[test]
fn decodes_u32_little_endian() {
    assert_eq!(decode_u32_le(&[0x78, 0x56, 0x34, 0x12]), 0x1234_5678);
}

#[test]
fn encodes_u32_little_endian_over_prefix() {
    let mut buf = [9u8; 6];
    encode_u32_le(&mut buf, 0xA1B2_C3D4);
    assert_eq!(buf, [0xD4, 0xC3, 0xB2, 0xA1, 9, 9]);
}

#[test]
fn packs_code_units() {
    let units = pack_u8s_to_u32s(vec![1, 0, 0, 0, 0x78, 0x56, 0x34, 0x12]);
    assert_eq!(units, vec![1, 0x1234_5678]);
    assert!(pack_u8s_to_u32s(Vec::new()).is_empty());
}

#[test]
fn payload_lengths_by_encoding() {
    assert_eq!(payload_byte_count(Encoding::RawBytes, 7), 7);
    assert_eq!(payload_byte_count(Encoding::GlyphCodes, 7), 28);
    assert_eq!(payload_byte_count(Encoding::GlyphCodes, 0xffff), 0x3fffc);
}

#[test]
fn glyph_needs_exactly_one_character() {
    assert_eq!(glyph_of_text(Some(vec!['a'])), Some('a'));
    assert_eq!(glyph_of_text(Some(Vec::new())), None);
    assert_eq!(glyph_of_text(Some(vec!['a', 'b'])), None);
    assert_eq!(glyph_of_text(None), None);
}

#[test]
fn resolves_single_file() {
    let route = resolve_str("/index.html").unwrap();
    assert_eq!(texts(&route), vec!["index.html".to_string()]);
    assert_eq!(route.extension, chars("html"));
}

#[test]
fn skips_prefix_before_first_slash() {
    let route = resolve_str("host:5692/docs/a.txt").unwrap();
    assert_eq!(texts(&route), vec!["docs".to_string(), "a.txt".to_string()]);
    assert_eq!(route.extension, chars("txt"));
}

#[test]
fn path_without_slash_is_whole_payload() {
    let route = resolve_str("page.bin").unwrap();
    assert_eq!(texts(&route), vec!["page.bin".to_string()]);
    assert_eq!(route.extension, chars("bin"));
}

#[test]
fn rejoined_components_give_the_path() {
    let route = resolve_str("x/a/b.c/d.e").unwrap();
    let joined = texts(&route).join("/");
    assert_eq!(joined, "a/b.c/d.e");
}

#[test]
fn extension_scans_whole_path() {
    let route = resolve_str("/dir.d/file").unwrap();
    assert_eq!(route.extension, chars("d/file"));
}

#[test]
fn dot_only_components_rejected_anywhere() {
    assert!(resolve_str("/./a.txt").is_none());
    assert!(resolve_str("/../a.txt").is_none());
    assert!(resolve_str("/a/.../b.txt").is_none());
    assert!(resolve_str("/a/b.txt/..").is_none());
    assert!(resolve_str("/.").is_none());
}

#[test]
fn empty_components_rejected() {
    assert!(resolve_str("/a//b.txt").is_none());
    assert!(resolve_str("/a.txt/").is_none());
    assert!(resolve_str("/").is_none());
    assert!(resolve_str("").is_none());
}

#[test]
fn forbidden_characters_rejected() {
    assert!(resolve_str("/a b.txt").is_none());
    assert!(resolve_str("/a\\b.txt").is_none());
    assert!(resolve_str("/a\tb.txt").is_none());
    assert!(resolve_route(&decode_raw(&[b'/', 0x80, b'.', b't'])).is_none());
    assert!(resolve_route(&decode_raw(&[b'/', b'a', 0x7f, b'.', b't'])).is_some());
}

#[test]
fn undecodable_glyph_rejected() {
    let glyphs = vec![Some('/'), Some('a'), None, Some('.'), Some('t')];
    assert!(resolve_route(&glyphs).is_none());
    let before_path = vec![None, Some('/'), Some('a'), Some('.'), Some('t')];
    assert!(resolve_route(&before_path).is_none());
    let mapped_prefix = vec![Some('h'), Some('/'), Some('a'), Some('.'), Some('t')];
    let route = resolve_route(&mapped_prefix).unwrap();
    assert_eq!(route.extension, vec!['t']);
}

#[test]
fn no_extension_rejected_under_strict_policy() {
    assert!(resolve_str("noextension").is_none());
    assert!(resolve_str("/noextension").is_none());
}

#[test]
fn pads_short_content_to_twenty() {
    let mut content = vec![7u8; 3];
    pad_content(&mut content);
    assert_eq!(content.len(), 20);
    assert_eq!(&content[..3], &[7, 7, 7]);
    assert!(content[3..].iter().all(|b| *b == 0));
    let mut long = vec![1u8; 25];
    pad_content(&mut long);
    assert_eq!(long, vec![1u8; 25]);
}

#[test]
fn round_trip_index_html() {
    let route = resolve_str("/index.html").unwrap();
    assert_eq!(route.extension, chars("html"));
    let handler = vec![0xAAu8; 24];
    let content = vec![0x55u8; 10];
    let frame = pack_response(handler, content).unwrap();
    assert_eq!(decode_u32_le(&frame[0..4]), 44);
    assert_eq!(decode_u32_le(&frame[4 + 12..4 + 16]), 24);
    assert_eq!(decode_u32_le(&frame[4 + 16..4 + 20]), 20);
    assert_eq!(frame.len(), 48);
    assert_eq!(&frame[4..16], &[0xAA; 12]);
    assert_eq!(&frame[24..28], &[0xAA; 4]);
    assert_eq!(&frame[28..38], &[0x55; 10]);
    assert_eq!(&frame[38..48], &[0; 10]);
}

#[test]
fn frame_total_is_sum_for_long_content() {
    let handler = vec![0u8; 20];
    let content = vec![3u8; 100];
    let frame = pack_response(handler, content).unwrap();
    assert_eq!(decode_u32_le(&frame[0..4]), 120);
    assert_eq!(decode_u32_le(&frame[16..20]), 20);
    assert_eq!(decode_u32_le(&frame[20..24]), 100);
    assert_eq!(frame.len(), 124);
}

#[test]
fn short_handler_is_malformed() {
    assert_eq!(pack_response(vec![0u8; 19], vec![1u8; 5]), Err(PackError::MalformedHandler));
    assert_eq!(pack_response(Vec::new(), Vec::new()), Err(PackError::MalformedHandler));
}

#[test]
fn exact_read_completes() {
    let mut read = ExactRead::new(5);
    assert_eq!(read.needed(), 5);
    assert_eq!(read.absorb(&[1, 2]), Ok(()));
    assert!(!read.is_complete());
    assert_eq!(read.needed(), 3);
    assert_eq!(read.absorb(&[3, 4, 5]), Ok(()));
    assert!(read.is_complete());
    assert_eq!(read.into_bytes(), vec![1, 2, 3, 4, 5]);
}

#[test]
fn early_close_is_truncated_input() {
    let mut read = ExactRead::new(8);
    assert_eq!(read.absorb(&[b'/', b'a']), Ok(()));
    assert_eq!(read.absorb(&[]), Err(ReadError::TruncatedInput));
    let mut empty = ExactRead::new(2);
    assert_eq!(empty.absorb(&[]), Err(ReadError::TruncatedInput));
}

#[test]
fn zero_length_read_is_complete_at_once() {
    let mut read = ExactRead::new(0);
    assert!(read.is_complete());
    assert_eq!(read.absorb(&[]), Ok(()));
    assert!(read.into_bytes().is_empty());
}
