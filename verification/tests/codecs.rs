use regpol::policy_file_entry::{expect_char, read_char, read_sz_string, read_type, read_u32, read_vec};
use regpol::registry_value::{format_hex, hex_digit_char, join_strings, quote};
use regpol::string_codec::{accept_decoded, pop_trailing_empty, split_on_nul, strip_trailing_nul};
use regpol::utf16::{decode_pair, decode_unit};
use regpol::{
    parse_reg_multi_sz, parse_reg_sz_raw, words_to_string_lossy, Cell, DecodeError, ErrorKind,
    KeyValueDataType, RegistryValue, U16Reader,
};

fn le_bytes(text: &str) -> Vec<u8> {
    let mut out = Vec::new();
    for unit in text.encode_utf16() {
        out.push((unit & 0xff) as u8);
        out.push((unit >> 8) as u8);
    }
    out
}

fn strings(items: &[&str]) -> Vec<String> {
    items.iter().map(|s| s.to_string()).collect()
}

#[test]
fn reader_composes_words_little_endian() {
    let mut reader = U16Reader::new(vec![0x34, 0x12, 0xff]);
    assert_eq!(reader.next(), Some(0x1234));
    assert_eq!(reader.remaining_len(), 1);
    assert_eq!(reader.next(), None);
    assert_eq!(reader.remaining_len(), 1);
}

#[test]
fn reader_reads_integers() {
    let mut reader = U16Reader::new(vec![1, 2, 3, 4, 1, 2, 3, 4, 1, 2, 3, 4, 5, 6, 7, 8, 9]);
    assert_eq!(reader.read_u32_le(), Some(0x04030201));
    assert_eq!(reader.read_u32_be(), Some(0x01020304));
    assert_eq!(reader.read_u64_le(), Some(0x0807060504030201));
    assert_eq!(reader.read_u32_le(), None);
    assert_eq!(reader.read_u64_le(), None);
    assert_eq!(reader.remaining_len(), 1);
}

#[test]
fn reader_takes_bytes_or_nothing() {
    let mut reader = U16Reader::new(vec![1, 2, 3]);
    assert_eq!(reader.take(4), None);
    assert_eq!(reader.remaining_len(), 3);
    assert_eq!(reader.take(2), Some(vec![1, 2]));
    assert_eq!(reader.take(0), Some(vec![]));
    assert_eq!(reader.remaining_len(), 1);
    assert!(U16Reader::accepts(3));
    assert!(!U16Reader::accepts(usize::MAX));
}

#[test]
fn well_formed_units_come_back_as_the_text() {
    let text = "Grüße, 世界 \u{1F600}!";
    let words: Vec<u16> = text.encode_utf16().collect();
    assert_eq!(words_to_string_lossy(words), text);
    assert_eq!(words_to_string_lossy(vec![]), "");
}

#[test]
fn each_lone_surrogate_becomes_one_replacement() {
    assert_eq!(words_to_string_lossy(vec![0xD800]), "\u{FFFD}");
    assert_eq!(words_to_string_lossy(vec![0xDC00, 0xD800]), "\u{FFFD}\u{FFFD}");
    assert_eq!(words_to_string_lossy(vec![0xD800, 0xD800, 0xDC00]), "\u{FFFD}\u{10000}");
    assert_eq!(words_to_string_lossy(vec![0x41, 0xDFFF, 0x42, 0xDBFF]), "A\u{FFFD}B\u{FFFD}");
}

#[test]
fn single_units_and_pairs_decode() {
    assert_eq!(decode_unit(0x5B), '[');
    assert_eq!(decode_unit(0xD800), '\u{FFFD}');
    assert_eq!(decode_unit(0xFFFF), '\u{FFFF}');
    assert_eq!(decode_pair(0xD83D, 0xDE00), '\u{1F600}');
    assert_eq!(decode_pair(0xDBFF, 0xDFFF), '\u{10FFFF}');
}

#[test]
fn nul_terminated_string_stops_at_the_terminator() {
    let mut bytes = le_bytes("Key\0");
    bytes.extend_from_slice(&[9, 9]);
    let mut reader = U16Reader::new(bytes);
    assert_eq!(read_sz_string(&mut reader), Ok("Key".to_string()));
    assert_eq!(reader.remaining_len(), 2);
}

#[test]
fn nul_terminated_string_replaces_ill_formed_units() {
    let mut reader = U16Reader::new(vec![0x41, 0x00, 0x00, 0xD8, 0x00, 0x00]);
    assert_eq!(read_sz_string(&mut reader), Ok("A\u{FFFD}".to_string()));
}

#[test]
fn nul_terminated_string_without_terminator_is_truncated() {
    let mut reader = U16Reader::new(vec![0x41, 0x00, 0x42, 0x00, 0x43]);
    assert_eq!(read_sz_string(&mut reader), Err(DecodeError::UnexpectedEnd));
    assert_eq!(reader.remaining_len(), 1);
}

#[test]
fn characters_and_delimiters() {
    let mut reader = U16Reader::new(le_bytes("[;"));
    assert_eq!(read_char(&mut reader), Ok('['));
    assert_eq!(
        expect_char(&mut reader, ']'),
        Err(DecodeError::WrongDelimiter { expected: ']', found: ';' })
    );
    assert_eq!(reader.remaining_len(), 0);
    assert_eq!(expect_char(&mut reader, ']'), Err(DecodeError::UnexpectedEnd));
    let mut lone = U16Reader::new(vec![0x00, 0xDC]);
    assert_eq!(read_char(&mut lone), Ok('\u{FFFD}'));
}

#[test]
fn integers_and_type_tags() {
    let mut reader = U16Reader::new(vec![7, 0, 0, 0, 12, 0, 0, 0, 16, 0, 0, 0, 1, 2]);
    assert_eq!(read_u32(&mut reader), Ok(7));
    assert_eq!(read_type(&mut reader), Err(DecodeError::UnknownTypeTag(12)));
    assert_eq!(read_type(&mut reader), Ok(KeyValueDataType::RegFileTime));
    assert_eq!(read_u32(&mut reader), Err(DecodeError::UnexpectedEnd));
    assert_eq!(read_vec(&mut reader, 3), Err(DecodeError::UnexpectedEnd));
    assert_eq!(read_vec(&mut reader, 2), Ok(vec![1, 2]));
}

#[test]
fn tags_name_types_both_ways() {
    let all = [
        (KeyValueDataType::RegNone, 0),
        (KeyValueDataType::RegSZ, 1),
        (KeyValueDataType::RegExpandSZ, 2),
        (KeyValueDataType::RegBinary, 3),
        (KeyValueDataType::RegDWord, 4),
        (KeyValueDataType::RegDWordBigEndian, 5),
        (KeyValueDataType::RegLink, 6),
        (KeyValueDataType::RegMultiSZ, 7),
        (KeyValueDataType::RegResourceList, 8),
        (KeyValueDataType::RegFullResourceDescriptor, 9),
        (KeyValueDataType::RegResourceRequirementsList, 10),
        (KeyValueDataType::RegQWord, 11),
        (KeyValueDataType::RegFileTime, 16),
    ];
    for (data_type, tag) in all {
        assert_eq!(data_type.tag(), tag);
        assert_eq!(KeyValueDataType::from_tag(tag), Some(data_type));
    }
    assert_eq!(KeyValueDataType::from_tag(12), None);
    assert_eq!(KeyValueDataType::from_tag(u32::MAX), None);
    assert!(KeyValueDataType::RegMultiSZ.is_implemented());
    assert!(!KeyValueDataType::RegFileTime.is_implemented());
    assert!(!KeyValueDataType::RegResourceList.is_implemented());
}

#[test]
fn raw_string_decodes_utf16_and_strips_one_nul() {
    assert_eq!(parse_reg_sz_raw(&le_bytes("hello\0")), Ok("hello".to_string()));
    assert_eq!(parse_reg_sz_raw(&le_bytes("hello")), Ok("hello".to_string()));
    assert_eq!(parse_reg_sz_raw(&le_bytes("a\0\0")), Ok("a\0".to_string()));
    assert_eq!(parse_reg_sz_raw(&le_bytes("\u{20AC}\u{1F600}\0")), Ok("\u{20AC}\u{1F600}".to_string()));
    assert_eq!(parse_reg_sz_raw(&[]), Ok(String::new()));
}

#[test]
fn raw_string_falls_back_to_latin9() {
    // Three bytes cannot be UTF-16; in ISO-8859-15 the byte A4 is the euro sign.
    assert_eq!(parse_reg_sz_raw(&[0x61, 0x62, 0xA4]), Ok("ab\u{20AC}".to_string()));
    // A lone surrogate is malformed UTF-16; both bytes are read as Latin-9.
    assert_eq!(parse_reg_sz_raw(&[0x41, 0xD8]), Ok("A\u{D8}".to_string()));
    assert_eq!(parse_reg_sz_raw(&[0x41, 0x00, 0x00]), Ok("A\0".to_string()));
}

#[test]
fn raw_string_that_no_decoder_takes_is_undecodable() {
    // A UTF-8 byte order mark makes both decoders read UTF-8, and FF is no UTF-8.
    assert_eq!(parse_reg_sz_raw(&[0xEF, 0xBB, 0xBF, 0xFF]), Err(DecodeError::UndecodableString));
    assert_eq!(
        parse_reg_multi_sz(&[0xEF, 0xBB, 0xBF, 0xFF]),
        Err(DecodeError::UndecodableString)
    );
    assert_eq!(DecodeError::UndecodableString.kind(), ErrorKind::StringDecode);
}

#[test]
fn candidate_decodings_are_judged() {
    assert_eq!(accept_decoded("ab\0".to_string(), false), Some("ab".to_string()));
    assert_eq!(accept_decoded("ab".to_string(), false), Some("ab".to_string()));
    assert_eq!(accept_decoded("ab".to_string(), true), None);
    assert_eq!(strip_trailing_nul("\0\0".to_string()), "\0");
    assert_eq!(strip_trailing_nul(String::new()), "");
    assert_eq!(strip_trailing_nul("\0a".to_string()), "\0a");
}

#[test]
fn splitting_at_nul() {
    assert_eq!(split_on_nul(""), strings(&[""]));
    assert_eq!(split_on_nul("abc"), strings(&["abc"]));
    assert_eq!(split_on_nul("a\0b"), strings(&["a", "b"]));
    assert_eq!(split_on_nul("\0a\0\0b\0"), strings(&["", "a", "", "b", ""]));
}

#[test]
fn at_most_two_trailing_empties_go() {
    assert_eq!(parse_reg_multi_sz(&le_bytes("a\0\0b\0\0")), Ok(strings(&["a", "", "b"])));
    assert_eq!(parse_reg_multi_sz(&le_bytes("a\0\0\0\0\0")), Ok(strings(&["a", "", ""])));
    assert_eq!(parse_reg_multi_sz(&le_bytes("a\0\0\0")), Ok(strings(&["a"])));
    assert_eq!(parse_reg_multi_sz(&le_bytes("a\0b")), Ok(strings(&["a", "b"])));
    assert_eq!(parse_reg_multi_sz(&le_bytes("\0")), Ok(strings(&[])));
    assert_eq!(parse_reg_multi_sz(&[]), Ok(strings(&[])));
    let mut items = strings(&["a", "", ""]);
    pop_trailing_empty(&mut items);
    assert_eq!(items, strings(&["a", ""]));
    let mut kept = strings(&["", "a"]);
    pop_trailing_empty(&mut kept);
    assert_eq!(kept, strings(&["", "a"]));
    let mut none: Vec<String> = Vec::new();
    pop_trailing_empty(&mut none);
    assert_eq!(none, strings(&[]));
}

#[test]
fn hexadecimal_formatting() {
    assert_eq!(format_hex(5, 8), "0x00000005");
    assert_eq!(format_hex(0xdeadbeef, 8), "0xdeadbeef");
    assert_eq!(format_hex(u64::MAX, 16), "0xffffffffffffffff");
    assert_eq!(format_hex(0x1234, 2), "0x34");
    assert_eq!(format_hex(7, 0), "0x");
    assert_eq!(hex_digit_char(0), '0');
    assert_eq!(hex_digit_char(9), '9');
    assert_eq!(hex_digit_char(10), 'a');
    assert_eq!(hex_digit_char(15), 'f');
}

#[test]
fn quoting_and_joining() {
    assert_eq!(quote("a\"b"), "\"a\"b\"");
    assert_eq!(quote(""), "\"\"");
    assert_eq!(join_strings(&strings(&[]), ","), "");
    assert_eq!(join_strings(&strings(&["a"]), ","), "a");
    assert_eq!(join_strings(&strings(&["a", "", "c"]), ", "), "a, , c");
}

#[test]
fn values_as_cells() {
    assert_eq!(RegistryValue::RegNone.to_cell(), Some(Cell::Empty));
    assert_eq!(RegistryValue::RegUnknown.to_cell(), Some(Cell::Empty));
    assert_eq!(RegistryValue::RegSZ("x".into()).to_cell(), Some(Cell::Text("x".into())));
    assert_eq!(RegistryValue::RegExpandSZ("%A%".into()).to_cell(), Some(Cell::Text("%A%".into())));
    assert_eq!(
        RegistryValue::RegBinary(vec![1, 2, 3, 15, 16, 255]).to_cell(),
        Some(Cell::Text("0102030f10ff".into()))
    );
    assert_eq!(RegistryValue::RegBinary(vec![]).to_cell(), Some(Cell::Text(String::new())));
    assert_eq!(RegistryValue::RegDWord(7).to_cell(), Some(Cell::U32(7)));
    assert_eq!(RegistryValue::RegDWordBigEndian(8).to_cell(), Some(Cell::U32(8)));
    assert_eq!(RegistryValue::RegLink("l".into()).to_cell(), Some(Cell::Text("l".into())));
    assert_eq!(
        RegistryValue::RegMultiSZ(strings(&["a", "b"])).to_cell(),
        Some(Cell::Text("a,b".into()))
    );
    assert_eq!(RegistryValue::RegResourceList("r".into()).to_cell(), Some(Cell::Text("r".into())));
    assert_eq!(
        RegistryValue::RegFullResourceDescriptor("d".into()).to_cell(),
        Some(Cell::Text("d".into()))
    );
    assert_eq!(RegistryValue::RegResourceRequirementsList("q".into()).to_cell(), None);
    assert_eq!(RegistryValue::RegQWord(9).to_cell(), Some(Cell::U64(9)));
    assert_eq!(RegistryValue::RegFileTime.to_cell(), None);
}

#[test]
fn values_as_text() {
    assert_eq!(RegistryValue::RegNone.display_text(), Some("None".to_string()));
    assert_eq!(RegistryValue::RegUnknown.display_text(), Some("Unknown".to_string()));
    assert_eq!(RegistryValue::RegSZ("x".into()).display_text(), Some("\"x\"".to_string()));
    assert_eq!(RegistryValue::RegExpandSZ("y".into()).display_text(), Some("\"y\"".to_string()));
    assert_eq!(RegistryValue::RegLink("z".into()).display_text(), Some("\"z\"".to_string()));
    assert_eq!(RegistryValue::RegBinary(vec![1, 255]).display_text(), Some("[1, 255]".to_string()));
    assert_eq!(
        RegistryValue::RegBinary((0..20).collect()).display_text(),
        Some("[0, 1, 2, 3, 4, 5, 6, 7, 8, 9, 10, 11, 12, 13, 14, 15]".to_string())
    );
    assert_eq!(RegistryValue::RegDWord(5).display_text(), Some("0x00000005".to_string()));
    assert_eq!(
        RegistryValue::RegDWordBigEndian(0xabcdef01).display_text(),
        Some("0xabcdef01".to_string())
    );
    assert_eq!(
        RegistryValue::RegQWord(0x1_0000_0000).display_text(),
        Some("0x0000000100000000".to_string())
    );
    assert_eq!(
        RegistryValue::RegMultiSZ(strings(&["a", "b\"c"])).display_text(),
        Some("[\"a\", \"b\\\"c\"]".to_string())
    );
    assert_eq!(
        RegistryValue::RegResourceRequirementsList("q".into()).display_text(),
        Some("\"q\"".to_string())
    );
    assert_eq!(RegistryValue::RegFileTime.display_text(), None);
}
