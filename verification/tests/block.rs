use flacrs::{parse_block, Block, ParseError, VorbisComment};

#[test]
fn block_type_0_is_stream_info() {
    let block = parse_block(0, &[0u8; 34]).unwrap();
    assert!(matches!(block, Block::StreamInfo(_)));
}

#[test]
fn block_type_0_of_wrong_length_is_invalid_block_size() {
    assert_eq!(parse_block(0, &[0u8; 33]), Err(ParseError::InvalidBlockSize));
    assert_eq!(parse_block(0, &[]), Err(ParseError::InvalidBlockSize));
}

#[test]
fn block_type_4_is_a_comment() {
    let body = [1, 0, 0, 0, b'v', 0, 0, 0, 0];
    assert_eq!(
        parse_block(4, &body),
        Ok(Block::VorbisComment(VorbisComment {
            vendor_string: "v".to_string(),
            user_comments: vec![],
        }))
    );
}

#[test]
fn block_type_4_passes_the_decoder_error_on() {
    assert_eq!(parse_block(4, &[]), Err(ParseError::OutOfRangeLength));
    assert_eq!(parse_block(4, &[1, 0, 0, 0, 0xff]), Err(ParseError::TextDecodeError));
}

#[test]
fn block_types_without_content() {
    let body = [0xde, 0xad, 0xbe, 0xef];
    assert_eq!(parse_block(1, &body), Ok(Block::Padding));
    assert_eq!(parse_block(2, &body), Ok(Block::Application));
    assert_eq!(parse_block(3, &body), Ok(Block::SeekTable));
    assert_eq!(parse_block(5, &body), Ok(Block::CueSheet));
    assert_eq!(parse_block(6, &body), Ok(Block::Picture));
    assert_eq!(parse_block(1, &[]), Ok(Block::Padding));
}

#[test]
fn block_types_7_to_126_are_reserved() {
    for code in 7u8..=126 {
        assert_eq!(parse_block(code, &[1, 2, 3]), Ok(Block::Reserved(code)));
    }
}

#[test]
fn block_type_127_and_above_is_invalid() {
    for code in 127u8..=255 {
        assert_eq!(parse_block(code, &[1, 2, 3]), Ok(Block::Invalid(code)));
    }
}
