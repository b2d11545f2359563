use flacrs::text::read_text;
use flacrs::{parse_vorbis_comment, ParseError, VorbisComment};

fn prefixed(text: &[u8]) -> Vec<u8> {
    let mut out = (text.len() as u32).to_le_bytes().to_vec();
    out.extend_from_slice(text);
    out
}

fn comment_body(vendor: &[u8], entries: &[&[u8]]) -> Vec<u8> {
    let mut out = prefixed(vendor);
    out.extend_from_slice(&(entries.len() as u32).to_le_bytes());
    for entry in entries {
        out.extend_from_slice(&prefixed(entry));
    }
    out
}

#[test]
fn comment_empty_vendor_and_no_entries() {
    let body = [0u8; 8];
    assert_eq!(
        parse_vorbis_comment(&body),
        Ok(VorbisComment { vendor_string: String::new(), user_comments: vec![] })
    );
}

#[test]
fn comment_vendor_length_zero_gives_empty_vendor() {
    let body = comment_body(b"", &[b"a=1"]);
    let comment = parse_vorbis_comment(&body).unwrap();
    assert_eq!(comment.vendor_string, "");
    assert_eq!(comment.user_comments, vec!["a=1".to_string()]);
}

#[test]
fn comment_entry_count_zero_gives_no_entries() {
    let body = comment_body(b"libFLAC 1.3.2 20170101", &[]);
    let comment = parse_vorbis_comment(&body).unwrap();
    assert_eq!(comment.vendor_string, "libFLAC 1.3.2 20170101");
    assert!(comment.user_comments.is_empty());
}

#[test]
fn comment_keeps_the_order_of_entries() {
    let body = comment_body(b"v", &[b"a=1", b"b=2"]);
    let comment = parse_vorbis_comment(&body).unwrap();
    assert_eq!(comment.user_comments, vec!["a=1".to_string(), "b=2".to_string()]);
    let body = comment_body(b"v", &[b"b=2", b"a=1"]);
    let comment = parse_vorbis_comment(&body).unwrap();
    assert_eq!(comment.user_comments, vec!["b=2".to_string(), "a=1".to_string()]);
}

#[test]
fn comment_literal_bytes() {
    let body: [u8; 27] = [
        0x03, 0x00, 0x00, 0x00, b'a', b'b', b'c', // vendor
        0x02, 0x00, 0x00, 0x00, // two entries
        0x03, 0x00, 0x00, 0x00, b'a', b'=', b'1', //
        0x05, 0x00, 0x00, 0x00, b'b', b'b', b'=', b'2', b'2',
    ];
    assert_eq!(
        parse_vorbis_comment(&body),
        Ok(VorbisComment {
            vendor_string: "abc".to_string(),
            user_comments: vec!["a=1".to_string(), "bb=22".to_string()],
        })
    );
}

#[test]
fn comment_lengths_are_little_endian() {
    let text = vec![b'x'; 0x0102];
    let mut body = vec![0x02, 0x01, 0x00, 0x00];
    body.extend_from_slice(&text);
    body.extend_from_slice(&[0, 0, 0, 0]);
    let comment = parse_vorbis_comment(&body).unwrap();
    assert_eq!(comment.vendor_string.len(), 258);
}

#[test]
fn comment_keeps_duplicates_and_empty_entries() {
    let body = comment_body(b"", &[b"a=1", b"", b"a=1"]);
    let comment = parse_vorbis_comment(&body).unwrap();
    assert_eq!(
        comment.user_comments,
        vec!["a=1".to_string(), String::new(), "a=1".to_string()]
    );
}

#[test]
fn comment_decodes_text_beyond_ascii() {
    let vendor = "Ünïcödé ♫".as_bytes();
    let entry = "TITLE=日本語".as_bytes();
    let body = comment_body(vendor, &[entry]);
    let comment = parse_vorbis_comment(&body).unwrap();
    assert_eq!(comment.vendor_string, "Ünïcödé ♫");
    assert_eq!(comment.user_comments, vec!["TITLE=日本語".to_string()]);
    assert_eq!(comment.vendor_string.chars().count(), 9);
}

#[test]
fn comment_ignores_bytes_behind_the_last_entry() {
    let mut body = comment_body(b"v", &[b"a=1"]);
    body.extend_from_slice(&[0xff, 0xff, 0xff, 0xff, 0xff]);
    let comment = parse_vorbis_comment(&body).unwrap();
    assert_eq!(comment.vendor_string, "v");
    assert_eq!(comment.user_comments, vec!["a=1".to_string()]);
}

#[test]
fn comment_entry_longer_than_the_rest_is_out_of_range() {
    let mut body = comment_body(b"v", &[b"a=1"]);
    let at = body.len() - 7;
    body[at] = 4;
    assert_eq!(parse_vorbis_comment(&body), Err(ParseError::OutOfRangeLength));
}

#[test]
fn comment_second_entry_longer_than_the_rest_is_out_of_range() {
    let mut body = comment_body(b"vendor", &[b"a=1", b"b=2"]);
    let at = body.len() - 7;
    body[at + 3] = 0x80;
    assert_eq!(parse_vorbis_comment(&body), Err(ParseError::OutOfRangeLength));
}

#[test]
fn comment_huge_entry_length_is_out_of_range() {
    let mut body = comment_body(b"", &[]);
    body[4] = 1;
    body.extend_from_slice(&[0xff, 0xff, 0xff, 0xff]);
    assert_eq!(parse_vorbis_comment(&body), Err(ParseError::OutOfRangeLength));
}

#[test]
fn comment_vendor_longer_than_the_body_is_out_of_range() {
    let body = [0x05, 0x00, 0x00, 0x00, b'a', b'b', b'c', b'd'];
    assert_eq!(parse_vorbis_comment(&body), Err(ParseError::OutOfRangeLength));
    let body = [0xff, 0xff, 0xff, 0xff];
    assert_eq!(parse_vorbis_comment(&body), Err(ParseError::OutOfRangeLength));
}

#[test]
fn comment_body_too_short_for_a_length_is_out_of_range() {
    for len in 0..4 {
        let body = vec![0u8; len];
        assert_eq!(parse_vorbis_comment(&body), Err(ParseError::OutOfRangeLength));
    }
}

#[test]
fn comment_missing_entry_count_is_out_of_range() {
    let body = prefixed(b"vendor");
    assert_eq!(parse_vorbis_comment(&body), Err(ParseError::OutOfRangeLength));
    let mut body = prefixed(b"vendor");
    body.extend_from_slice(&[0, 0, 0]);
    assert_eq!(parse_vorbis_comment(&body), Err(ParseError::OutOfRangeLength));
}

#[test]
fn comment_count_beyond_the_entries_present_is_out_of_range() {
    let mut body = comment_body(b"v", &[b"a=1", b"b=2"]);
    body[5] = 3;
    assert_eq!(parse_vorbis_comment(&body), Err(ParseError::OutOfRangeLength));
    let mut body = comment_body(b"v", &[]);
    body[5] = 0xff;
    body[6] = 0xff;
    body[7] = 0xff;
    body[8] = 0xff;
    assert_eq!(parse_vorbis_comment(&body), Err(ParseError::OutOfRangeLength));
}

#[test]
fn comment_vendor_that_is_no_utf8_is_text_decode_error() {
    let body = comment_body(&[0xff, 0xfe], &[]);
    assert_eq!(parse_vorbis_comment(&body), Err(ParseError::TextDecodeError));
    let body = comment_body(&[0xc3], &[]);
    assert_eq!(parse_vorbis_comment(&body), Err(ParseError::TextDecodeError));
}

#[test]
fn comment_entry_that_is_no_utf8_is_text_decode_error() {
    let body = comment_body(b"v", &[b"a=1", &[b'b', b'=', 0x80]]);
    assert_eq!(parse_vorbis_comment(&body), Err(ParseError::TextDecodeError));
}

#[test]
fn comment_refuses_surrogates_and_overlong_forms() {
    let body = comment_body(&[0xed, 0xa0, 0x80], &[]);
    assert_eq!(parse_vorbis_comment(&body), Err(ParseError::TextDecodeError));
    let body = comment_body(&[0xc0, 0x80], &[]);
    assert_eq!(parse_vorbis_comment(&body), Err(ParseError::TextDecodeError));
    let body = comment_body(&[0xf4, 0x90, 0x80, 0x80], &[]);
    assert_eq!(parse_vorbis_comment(&body), Err(ParseError::TextDecodeError));
}

#[test]
fn comment_first_failure_in_stream_order_decides() {
    // The vendor is read before the count is looked for.
    let body = prefixed(&[0xff]);
    assert_eq!(parse_vorbis_comment(&body), Err(ParseError::TextDecodeError));
    // The first entry is read before the second one is found to be too long.
    let mut body = comment_body(b"v", &[&[0xff], b"b=2"]);
    let at = body.len() - 7;
    body[at] = 0x7f;
    assert_eq!(parse_vorbis_comment(&body), Err(ParseError::TextDecodeError));
    // A span that does not fit is out of range, whatever its bytes are.
    let body = [0x02, 0x00, 0x00, 0x00, 0xff];
    assert_eq!(parse_vorbis_comment(&body), Err(ParseError::OutOfRangeLength));
}

#[test]
fn text_is_read_at_an_offset() {
    let mut buf = vec![0xaa, 0xbb];
    buf.extend_from_slice(&prefixed(b"hello"));
    buf.push(0xcc);
    assert_eq!(read_text(&buf, 2), Ok(("hello".to_string(), 11)));
}

#[test]
fn text_of_length_zero_is_empty() {
    let buf = [0u8; 4];
    assert_eq!(read_text(&buf, 0), Ok((String::new(), 4)));
}

#[test]
fn text_at_the_end_or_beyond_is_out_of_range() {
    let buf = prefixed(b"hello");
    assert_eq!(read_text(&buf, buf.len()), Err(ParseError::OutOfRangeLength));
    assert_eq!(read_text(&buf, buf.len() + 1), Err(ParseError::OutOfRangeLength));
    assert_eq!(read_text(&buf, usize::MAX), Err(ParseError::OutOfRangeLength));
    assert_eq!(read_text(&buf, 6), Err(ParseError::OutOfRangeLength));
}

#[test]
fn text_may_end_exactly_at_the_end() {
    let buf = prefixed(b"xyz");
    assert_eq!(read_text(&buf, 0), Ok(("xyz".to_string(), 7)));
    assert_eq!(read_text(&buf[..6], 0), Err(ParseError::OutOfRangeLength));
}
