use regpol::policy_file_entry::read_data as decode_value;
use regpol::{
    check_header, decode_policy_file, DecodeError, ErrorKind, KeyValueDataType, PolicyFile,
    PolicyFileEntry, RegistryValue, U16Reader,
};

fn wide(text: &str) -> Vec<u8> {
    let mut out = Vec::new();
    for unit in text.encode_utf16() {
        out.push((unit & 0xff) as u8);
        out.push((unit >> 8) as u8);
    }
    out
}

fn entry(key: &str, value: &str, tag: u32, size: u32, payload: &[u8]) -> Vec<u8> {
    let mut bytes = wide("[");
    bytes.extend_from_slice(&wide(key));
    bytes.extend_from_slice(&wide("\0;"));
    bytes.extend_from_slice(&wide(value));
    bytes.extend_from_slice(&wide("\0;"));
    bytes.extend_from_slice(&tag.to_le_bytes());
    bytes.extend_from_slice(&wide(";"));
    bytes.extend_from_slice(&size.to_le_bytes());
    bytes.extend_from_slice(&wide(";"));
    bytes.extend_from_slice(payload);
    bytes.extend_from_slice(&wide("]"));
    bytes
}

fn file(body: &[u8]) -> Vec<u8> {
    let mut bytes = b"PReg\x01\0\0\0".to_vec();
    bytes.extend_from_slice(body);
    bytes
}

fn value_of(tag: KeyValueDataType, size: u32, payload: &[u8]) -> (Result<RegistryValue, DecodeError>, usize) {
    let mut reader = U16Reader::new(payload.to_vec());
    let value = decode_value(&mut reader, &tag, size);
    (value, reader.remaining_len())
}

#[test]
fn header_is_accepted_only_with_magic_and_version() {
    assert_eq!(check_header(b"PReg\x01\0\0\0"), Ok(()));
    assert_eq!(check_header(b"PReg\x01\0\0\0rest"), Ok(()));
    assert_eq!(check_header(b"preg\x01\0\0\0"), Err(DecodeError::InvalidMagic));
    assert_eq!(check_header(b"PReh\x01\0\0\0"), Err(DecodeError::InvalidMagic));
    assert_eq!(check_header(b"PReg\x02\0\0\0"), Err(DecodeError::InvalidVersion));
    assert_eq!(check_header(b"PReg\x01\0\0\x01"), Err(DecodeError::InvalidVersion));
    assert_eq!(check_header(b"XXXX\x02\0\0\0"), Err(DecodeError::InvalidMagic));
    assert_eq!(check_header(b"XXXX"), Err(DecodeError::InvalidMagic));
    assert_eq!(check_header(b"PRe"), Err(DecodeError::TruncatedHeader));
    assert_eq!(check_header(b"PReg\x01\0\0"), Err(DecodeError::TruncatedHeader));
    assert_eq!(check_header(b""), Err(DecodeError::TruncatedHeader));
    for error in [DecodeError::InvalidMagic, DecodeError::InvalidVersion, DecodeError::TruncatedHeader] {
        assert_eq!(error.kind(), ErrorKind::Header);
    }
}

#[test]
fn bad_header_is_fatal() {
    let mut bytes = b"PReg\x02\0\0\0".to_vec();
    bytes.extend_from_slice(&entry("k", "v", 4, 4, &[5, 0, 0, 0]));
    assert_eq!(decode_policy_file(bytes.clone()), Err(DecodeError::InvalidVersion));
    assert!(matches!(PolicyFile::open(bytes), Err(DecodeError::InvalidVersion)));
    assert_eq!(decode_policy_file(b"nope".to_vec()), Err(DecodeError::InvalidMagic));
}

#[test]
fn header_alone_is_an_empty_file() {
    assert_eq!(decode_policy_file(file(&[])), Ok((vec![], None)));
    // One stray byte is no code unit: the stream is at its end.
    assert_eq!(decode_policy_file(file(&[0x5B])), Ok((vec![], None)));
}

#[test]
fn every_value_type_decodes() {
    assert_eq!(value_of(KeyValueDataType::RegNone, 9, &[1, 2]), (Ok(RegistryValue::RegNone), 2));
    assert_eq!(
        value_of(KeyValueDataType::RegSZ, 6, &wide("ab\0!")),
        (Ok(RegistryValue::RegSZ("ab".into())), 2)
    );
    assert_eq!(
        value_of(KeyValueDataType::RegExpandSZ, 8, &wide("%a%\0")),
        (Ok(RegistryValue::RegExpandSZ("%a%".into())), 0)
    );
    assert_eq!(
        value_of(KeyValueDataType::RegLink, 2, &wide("l")),
        (Ok(RegistryValue::RegLink("l".into())), 0)
    );
    assert_eq!(
        value_of(KeyValueDataType::RegBinary, 3, &[9, 8, 7, 6]),
        (Ok(RegistryValue::RegBinary(vec![9, 8, 7])), 1)
    );
    assert_eq!(
        value_of(KeyValueDataType::RegDWord, 0, &[0x78, 0x56, 0x34, 0x12, 0]),
        (Ok(RegistryValue::RegDWord(0x12345678)), 1)
    );
    assert_eq!(
        value_of(KeyValueDataType::RegDWordBigEndian, 4, &[0x12, 0x34, 0x56, 0x78]),
        (Ok(RegistryValue::RegDWordBigEndian(0x12345678)), 0)
    );
    assert_eq!(
        value_of(KeyValueDataType::RegQWord, 8, &[1, 2, 3, 4, 5, 6, 7, 8]),
        (Ok(RegistryValue::RegQWord(0x0807060504030201)), 0)
    );
    assert_eq!(
        value_of(KeyValueDataType::RegMultiSZ, 12, &wide("a\0bc\0\0")),
        (Ok(RegistryValue::RegMultiSZ(vec!["a".into(), "bc".into()])), 0)
    );
}

#[test]
fn declared_size_zero_is_an_empty_payload() {
    assert_eq!(value_of(KeyValueDataType::RegSZ, 0, &[1]), (Ok(RegistryValue::RegSZ(String::new())), 1));
    assert_eq!(
        value_of(KeyValueDataType::RegExpandSZ, 0, &[]),
        (Ok(RegistryValue::RegExpandSZ(String::new())), 0)
    );
    assert_eq!(value_of(KeyValueDataType::RegLink, 0, &[]), (Ok(RegistryValue::RegLink(String::new())), 0));
    assert_eq!(value_of(KeyValueDataType::RegBinary, 0, &[1]), (Ok(RegistryValue::RegBinary(vec![])), 1));
    assert_eq!(value_of(KeyValueDataType::RegMultiSZ, 0, &[1]), (Ok(RegistryValue::RegMultiSZ(vec![])), 1));
}

#[test]
fn types_without_decoder_fail_fast() {
    for data_type in [
        KeyValueDataType::RegResourceList,
        KeyValueDataType::RegFullResourceDescriptor,
        KeyValueDataType::RegResourceRequirementsList,
        KeyValueDataType::RegFileTime,
    ] {
        let (value, left) = value_of(data_type, 2, &[1, 2, 3]);
        assert_eq!(value, Err(DecodeError::UnsupportedType(data_type)));
        assert_eq!(value.unwrap_err().kind(), ErrorKind::UnsupportedType);
        assert_eq!(left, 3);
    }
}

#[test]
fn short_payloads_are_truncation() {
    assert_eq!(value_of(KeyValueDataType::RegDWord, 4, &[1, 2, 3]), (Err(DecodeError::UnexpectedEnd), 3));
    assert_eq!(
        value_of(KeyValueDataType::RegDWordBigEndian, 4, &[]),
        (Err(DecodeError::UnexpectedEnd), 0)
    );
    assert_eq!(value_of(KeyValueDataType::RegQWord, 8, &[0; 7]), (Err(DecodeError::UnexpectedEnd), 7));
    assert_eq!(value_of(KeyValueDataType::RegSZ, 4, &[0x41, 0]), (Err(DecodeError::UnexpectedEnd), 2));
    assert_eq!(value_of(KeyValueDataType::RegBinary, 4, &[1]), (Err(DecodeError::UnexpectedEnd), 1));
    assert_eq!(value_of(KeyValueDataType::RegMultiSZ, 4, &[1]), (Err(DecodeError::UnexpectedEnd), 1));
}

#[test]
fn undecodable_payload_is_consumed_all_the_same() {
    let payload = [0xEF, 0xBB, 0xBF, 0xFF, 0x5D, 0x00];
    assert_eq!(value_of(KeyValueDataType::RegSZ, 4, &payload), (Err(DecodeError::UndecodableString), 2));
    assert_eq!(
        value_of(KeyValueDataType::RegMultiSZ, 4, &payload),
        (Err(DecodeError::UndecodableString), 2)
    );
}

#[test]
fn entries_come_in_order_until_the_end() {
    let mut body = entry("Software\\A", "One", 1, 6, &wide("hi\0"));
    body.extend_from_slice(&entry("Software\\B", "", 11, 8, &[1, 0, 0, 0, 0, 0, 0, 0]));
    body.extend_from_slice(&entry("", "Three", 0, 0, &[]));
    let (entries, error) = decode_policy_file(file(&body)).unwrap();
    assert_eq!(error, None);
    assert_eq!(
        entries,
        vec![
            PolicyFileEntry::new(
                "Software\\A".into(),
                "One".into(),
                KeyValueDataType::RegSZ,
                6,
                RegistryValue::RegSZ("hi".into())
            ),
            PolicyFileEntry::new(
                "Software\\B".into(),
                String::new(),
                KeyValueDataType::RegQWord,
                8,
                RegistryValue::RegQWord(1)
            ),
            PolicyFileEntry::new(
                String::new(),
                "Three".into(),
                KeyValueDataType::RegNone,
                0,
                RegistryValue::RegNone
            ),
        ]
    );
    let parts = PolicyFileEntry::new("k".into(), "v".into(), KeyValueDataType::RegDWord, 4, RegistryValue::RegDWord(1))
        .into_parts();
    assert_eq!(parts, ("k".into(), "v".into(), KeyValueDataType::RegDWord, 4, RegistryValue::RegDWord(1)));
}

#[test]
fn entries_in_front_of_an_error_are_kept() {
    let good = entry("k", "v", 4, 4, &[5, 0, 0, 0]);
    let cases: Vec<(Vec<u8>, DecodeError, ErrorKind)> = vec![
        (entry("k", "v", 12, 4, &[5, 0, 0, 0]), DecodeError::UnknownTypeTag(12), ErrorKind::UnknownTypeTag),
        (
            entry("k", "v", 16, 0, &[]),
            DecodeError::UnsupportedType(KeyValueDataType::RegFileTime),
            ErrorKind::UnsupportedType,
        ),
        (entry("k", "v", 1, 4, &[0xEF, 0xBB, 0xBF, 0xFF]), DecodeError::UndecodableString, ErrorKind::StringDecode),
        (wide("(k\0;"), DecodeError::WrongDelimiter { expected: '[', found: '(' }, ErrorKind::Grammar),
        (wide("[k\0:"), DecodeError::WrongDelimiter { expected: ';', found: ':' }, ErrorKind::Grammar),
        (entry("k", "v", 4, 4, &[5, 0, 0, 0, 0, 0]), DecodeError::WrongDelimiter { expected: ']', found: '\0' }, ErrorKind::Grammar),
    ];
    for (bad, expected, kind) in cases {
        let mut body = good.clone();
        body.extend_from_slice(&bad);
        body.extend_from_slice(&good);
        let (entries, error) = decode_policy_file(file(&body)).unwrap();
        assert_eq!(entries.len(), 1);
        assert_eq!(*entries[0].pol_data(), RegistryValue::RegDWord(5));
        assert_eq!(error, Some(expected));
        assert_eq!(expected.kind(), kind);
    }
}

#[test]
fn truncation_anywhere_inside_an_entry_is_a_grammar_error() {
    let good = entry("key", "value", 1, 6, &wide("hi\0"));
    for cut in 2..good.len() {
        let mut body = good.clone();
        body.extend_from_slice(&good[..cut]);
        let (entries, error) = decode_policy_file(file(&body)).unwrap();
        assert_eq!(entries.len(), 1);
        assert_eq!(error, Some(DecodeError::UnexpectedEnd));
        assert_eq!(error.unwrap().kind(), ErrorKind::Grammar);
    }
}

#[test]
fn sequence_is_lazy_and_stops_for_good() {
    let mut body = entry("k", "v", 4, 4, &[5, 0, 0, 0]);
    body.extend_from_slice(&wide("]"));
    body.extend_from_slice(&entry("k", "v", 4, 4, &[6, 0, 0, 0]));
    let mut policy = PolicyFile::open(file(&body)).unwrap();
    assert!(!policy.stopped());
    let first = policy.next_entry().unwrap().unwrap();
    assert_eq!(first.pol_key(), "k");
    assert!(!policy.stopped());
    assert_eq!(
        policy.next_entry(),
        Some(Err(DecodeError::WrongDelimiter { expected: '[', found: ']' }))
    );
    assert!(policy.stopped());
    assert_eq!(policy.next_entry(), None);
    assert_eq!(policy.read_all(), (vec![], None));

    let mut clean = PolicyFile::open(file(&entry("k", "v", 4, 4, &[5, 0, 0, 0]))).unwrap();
    let (entries, error) = clean.read_all();
    assert_eq!((entries.len(), error), (1, None));
    assert!(clean.stopped());
    assert_eq!(clean.next_entry(), None);
}

#[test]
fn key_with_supplementary_characters_round_trips() {
    let key = "Software\\\u{1F600}\\Policies";
    let mut reader = U16Reader::new(entry(key, "Värde", 2, 4, &wide("%x")));
    let decoded = PolicyFileEntry::read(&mut reader).unwrap();
    assert_eq!(decoded.pol_key(), key);
    assert_eq!(decoded.pol_value(), "Värde");
    assert_eq!(*decoded.pol_type(), KeyValueDataType::RegExpandSZ);
    assert_eq!(*decoded.pol_size(), 4);
    assert_eq!(*decoded.pol_data(), RegistryValue::RegExpandSZ("%x".into()));
}
