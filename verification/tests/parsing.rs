use fdt::parsing::aligned::AlignedParser;
use fdt::parsing::{BigEndianU32, StringsBlock, StructsBlock, UnalignedParser};
use fdt::FdtError;

#[test]
fn advance_u32() {
    let n = BigEndianU32::from_ne(0xF00DCAFE);
    let bytes = n.to_be().to_ne_bytes();
    let mut parser = UnalignedParser::new(&bytes, StringsBlock(&[]), StructsBlock(&[]));
    let m = parser.advance_u32().unwrap();

    assert_eq!(n, m);
}

#[test]
fn big_endian_u32_round_trips() {
    let n = BigEndianU32::from_ne(0x1234_5678);
    assert_eq!(n.to_ne(), 0x1234_5678);
    assert_eq!(n.to_be().to_ne_bytes(), [0x12, 0x34, 0x56, 0x78]);
    assert_eq!(BigEndianU32::from_be(n.to_be()), n);
    assert_eq!(BigEndianU32::from_le(0x1234_5678u32.to_le()).to_ne(), 0x1234_5678);
}

#[test]
fn big_endian_u32_is_read_from_big_endian_bytes() {
    let bytes = [0xd0u8, 0x0d, 0xfe, 0xed];
    let mut parser = UnalignedParser::new(&bytes, StringsBlock(&[]), StructsBlock(&[]));
    assert_eq!(parser.advance_u32().unwrap().to_ne(), 0xd00dfeed);
}

#[test]
fn advance_u32_reports_end_of_data() {
    let bytes = [0xd0u8, 0x0d, 0xfe];
    let mut parser = UnalignedParser::new(&bytes, StringsBlock(&[]), StructsBlock(&[]));
    assert!(matches!(
        parser.advance_u32(),
        Err(FdtError::ParseError(fdt::parsing::ParseError::UnexpectedEndOfData))
    ));
}

/// The words that `bytes` occupy in memory, `bytes` being a multiple of four long.
fn words_of(bytes: &[u8]) -> Vec<u32> {
    bytes.chunks(4).map(|c| u32::from_ne_bytes([c[0], c[1], c[2], c[3]])).collect()
}

#[test]
fn aligned_parser_reads_words_as_big_endian() {
    let words = words_of(&[0xd0, 0x0d, 0xfe, 0xed, 0, 0, 0, 4, 0, 0, 0, 1]);
    let mut parser = AlignedParser::new(&words, StringsBlock(&[]), StructsBlock(&[]));
    assert_eq!(parser.peek_u32().unwrap().to_ne(), 0xd00dfeed);
    assert_eq!(parser.advance_u32().unwrap().to_ne(), 0xd00dfeed);
    // A NOP is skipped on the way to the token.
    assert_eq!(parser.advance_token().unwrap().value(), 1);
    assert!(parser.data().is_empty());
    assert!(matches!(
        parser.advance_u32(),
        Err(FdtError::ParseError(fdt::parsing::ParseError::UnexpectedEndOfData))
    ));
}

#[test]
fn aligned_parser_refuses_unknown_tokens() {
    let words = words_of(&[0, 0, 0, 7]);
    let mut parser = AlignedParser::new(&words, StringsBlock(&[]), StructsBlock(&[]));
    assert!(matches!(
        parser.advance_token(),
        Err(FdtError::ParseError(fdt::parsing::ParseError::InvalidTokenValue))
    ));
}

#[test]
fn aligned_parser_reads_strings_and_properties_like_the_byte_parser() {
    let bytes: Vec<u8> = vec![
        b'c', b'p', b'u', b's', b'@', b'1', 0, 0, // name and padding
        0, 0, 0, 3, 0, 0, 0, 5, 0, 0, 0, 12, // PROP, length 5, name offset 12
        b'h', b'e', b'l', b'l', b'o', 0, 0, 0, // value and padding
        0, 0, 0, 9,
    ];
    let words = words_of(&bytes);
    let mut aligned = AlignedParser::new(&words, StringsBlock(&[]), StructsBlock(&[]));
    let mut unaligned = UnalignedParser::new(&bytes, StringsBlock(&[]), StructsBlock(&[]));
    assert_eq!(aligned.advance_cstr().unwrap(), b"cpus@1".to_vec());
    assert_eq!(unaligned.advance_cstr().unwrap(), b"cpus@1");
    let (off, value) = aligned.parse_raw_property().unwrap();
    assert_eq!((off, value.as_slice()), (12, &b"hello"[..]));
    let (uoff, uvalue) = unaligned.parse_raw_property().unwrap();
    assert_eq!((uoff, uvalue), (12, &b"hello"[..]));
    assert_eq!(aligned.byte_data(), unaligned.byte_data().to_vec());
    assert_eq!(aligned.advance_token().unwrap().value(), 9);
}

#[test]
fn aligned_parser_string_without_nul_is_refused() {
    let words = words_of(b"abcd");
    let mut parser = AlignedParser::new(&words, StringsBlock(&[]), StructsBlock(&[]));
    assert!(matches!(
        parser.advance_cstr(),
        Err(FdtError::ParseError(fdt::parsing::ParseError::InvalidCStrValue))
    ));
    assert_eq!(parser.data().len(), 1);
}

#[test]
fn aligned_parser_reads_a_header() {
    let mut bytes = Vec::new();
    for v in [0xd00dfeedu32, 100, 56, 90, 40, 17, 16, 0, 10, 34] {
        bytes.extend_from_slice(&v.to_be_bytes());
    }
    bytes.extend_from_slice(&[0, 0, 0, 1]);
    let words = words_of(&bytes);
    let mut parser = AlignedParser::new(&words, StringsBlock(&[]), StructsBlock(&[]));
    let h = parser.parse_header().unwrap();
    assert_eq!((h.magic, h.total_size, h.structs_offset, h.strings_offset), (0xd00dfeed, 100, 56, 90));
    assert_eq!((h.version, h.strings_size, h.structs_size), (17, 10, 34));
    assert_eq!(parser.data().len(), 1);
    let short = AlignedParser::new(&words[..9], StringsBlock(&[]), StructsBlock(&[])).parse_header();
    assert!(matches!(short, Err(FdtError::ParseError(fdt::parsing::ParseError::UnexpectedEndOfData))));
}
