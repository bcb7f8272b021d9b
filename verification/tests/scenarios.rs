use regpol::{
    decode_policy_file, parse_reg_multi_sz, DecodeError, ErrorKind, KeyValueDataType,
    PolicyFileEntry, RegistryValue, U16Reader,
};
use regpol::policy_file_entry::read_data;

fn utf16le(text: &str) -> Vec<u8> {
    let mut out = Vec::new();
    for unit in text.encode_utf16() {
        out.push((unit & 0xff) as u8);
        out.push((unit >> 8) as u8);
    }
    out
}

fn dword_entry() -> Vec<u8> {
    let mut bytes = utf16le("[Software\\Policies\\Test\0;MyValue\0;");
    bytes.extend_from_slice(&[4, 0, 0, 0]);
    bytes.extend_from_slice(&utf16le(";"));
    bytes.extend_from_slice(&[4, 0, 0, 0]);
    bytes.extend_from_slice(&utf16le(";"));
    bytes.extend_from_slice(&[5, 0, 0, 0]);
    bytes.extend_from_slice(&utf16le("]"));
    bytes
}

fn with_header(body: &[u8]) -> Vec<u8> {
    let mut bytes = b"PReg\x01\0\0\0".to_vec();
    bytes.extend_from_slice(body);
    bytes
}

#[test]
fn multi_string_block_of_three() {
    let items = parse_reg_multi_sz(&utf16le("a\0b\0c\0\0")).unwrap();
    assert_eq!(items, vec!["a".to_string(), "b".to_string(), "c".to_string()]);
}

#[test]
fn multi_string_block_of_none() {
    let items = parse_reg_multi_sz(&utf16le("\0\0")).unwrap();
    assert_eq!(items, Vec::<String>::new());
}

#[test]
fn dword_is_little_endian() {
    let mut reader = U16Reader::new(vec![1, 0, 0, 0]);
    let value = read_data(&mut reader, &KeyValueDataType::RegDWord, 4).unwrap();
    assert_eq!(value, RegistryValue::RegDWord(1));
    assert_eq!(reader.remaining_len(), 0);
}

#[test]
fn dword_big_endian_is_big_endian() {
    let mut reader = U16Reader::new(vec![0, 0, 0, 1]);
    let value = read_data(&mut reader, &KeyValueDataType::RegDWordBigEndian, 4).unwrap();
    assert_eq!(value, RegistryValue::RegDWordBigEndian(1));
    assert_eq!(reader.remaining_len(), 0);
}

#[test]
fn dword_entry_decodes() {
    let mut reader = U16Reader::new(dword_entry());
    let entry = PolicyFileEntry::read(&mut reader).unwrap();
    assert_eq!(entry.pol_key(), "Software\\Policies\\Test");
    assert_eq!(entry.pol_value(), "MyValue");
    assert_eq!(*entry.pol_type(), KeyValueDataType::RegDWord);
    assert_eq!(*entry.pol_size(), 4);
    assert_eq!(*entry.pol_data(), RegistryValue::RegDWord(5));
    assert_eq!(reader.remaining_len(), 0);
}

#[test]
fn stream_ending_in_front_of_an_entry_ends_cleanly() {
    let (entries, error) = decode_policy_file(with_header(&dword_entry())).unwrap();
    assert_eq!(entries.len(), 1);
    assert_eq!(error, None);
}

#[test]
fn stream_truncated_after_the_key_is_a_grammar_error() {
    let body = utf16le("[Software\\Policies\\Test\0");
    let (entries, error) = decode_policy_file(with_header(&body)).unwrap();
    assert_eq!(entries.len(), 0);
    assert_eq!(error, Some(DecodeError::UnexpectedEnd));
    assert_eq!(error.unwrap().kind(), ErrorKind::Grammar);
}
