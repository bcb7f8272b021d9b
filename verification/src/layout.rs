//! The byte layout of an entry, and the proof that the decoder reads a
//! well-formed layout back as the entry it was made from.

use vstd::prelude::*;
use crate::key_value_datatype::KeyValueDataType;
use crate::error::DecodeError;
use crate::policy_file::{
    header_len, lemma_entry_used, magic, spec_entries, spec_policy_file, supported_version,
};
use crate::policy_file_entry::{
    closed_by, spec_data, spec_data_field, spec_delimiter, spec_entry, spec_size_field,
    spec_string_field, spec_sz_string, spec_type, spec_type_field, spec_u32, sz_words, EntryModel,
    Step,
};
use crate::registry_value::ValueModel;
use crate::string_codec::{multi_sz_strings, nul_free, sz_text};
use crate::utf16::{
    encode_utf16, is_surrogate, lemma_decode_encode, lemma_encode_no_zero, unit_char,
};
use crate::word_reader::{be32, first_word, le32, le64};

verus! {

/// The two bytes of a code unit, lowest first.
pub open spec fn word_bytes(w: u16) -> Seq<u8> {
    seq![(w % 0x100) as u8, (w / 0x100) as u8]
}

/// The bytes of a sequence of code units.
pub open spec fn words_bytes(words: Seq<u16>) -> Seq<u8>
    decreases words.len(),
{
    if words.len() == 0 {
        Seq::empty()
    } else {
        word_bytes(words[0]) + words_bytes(words.skip(1))
    }
}

/// The bytes of a text as a NUL-terminated UTF-16LE string.
pub open spec fn sz_bytes(text: Seq<char>) -> Seq<u8> {
    words_bytes(encode_utf16(text)) + word_bytes(0)
}

/// The four bytes of a 32-bit integer, lowest first.
pub open spec fn u32_bytes(n: u32) -> Seq<u8> {
    seq![
        (n % 0x100) as u8,
        (n / 0x100 % 0x100) as u8,
        (n / 0x1_0000 % 0x100) as u8,
        (n / 0x100_0000) as u8,
    ]
}

/// A character that one code unit can carry.
pub open spec fn is_single_unit(c: char) -> bool {
    (c as u32) < 0xD800
}

/// The bytes of a structural character.
pub open spec fn delimiter_bytes(c: char) -> Seq<u8> {
    word_bytes(c as u16)
}

/// The bytes of an entry with the given key, value name, type tag, declared
/// size and payload.
pub open spec fn entry_bytes(
    key: Seq<char>,
    value: Seq<char>,
    tag: u32,
    size: u32,
    payload: Seq<u8>,
) -> Seq<u8> {
    delimiter_bytes('[') + sz_bytes(key) + delimiter_bytes(';') + sz_bytes(value)
        + delimiter_bytes(';') + u32_bytes(tag) + delimiter_bytes(';') + u32_bytes(size)
        + delimiter_bytes(';') + payload + delimiter_bytes(']')
}

/// A code unit is read back from its two bytes.
pub proof fn lemma_word_layout(w: u16, rest: Seq<u8>)
    ensures
        first_word(word_bytes(w) + rest) == Some(w),
        (word_bytes(w) + rest).skip(2) == rest,
{
    let s = word_bytes(w) + rest;
    assert(s[0] == (w % 0x100) as u8);
    assert(s[1] == (w / 0x100) as u8);
    assert(s.skip(2) =~= rest);
}

/// The bytes of a sequence of code units are two for each unit.
pub proof fn lemma_words_bytes_len(words: Seq<u16>)
    ensures
        words_bytes(words).len() == 2 * words.len(),
    decreases words.len(),
{
    if words.len() > 0 {
        lemma_words_bytes_len(words.skip(1));
    }
}

/// Code units without a zero among them, followed by a zero unit, are read
/// back as the units in front of the terminator.
pub proof fn lemma_sz_words_layout(words: Seq<u16>, rest: Seq<u8>)
    requires
        forall|i: int| 0 <= i < words.len() ==> words[i] != 0,
    ensures
        sz_words(words_bytes(words) + word_bytes(0) + rest) == Some(words),
    decreases words.len(),
{
    let s = words_bytes(words) + word_bytes(0) + rest;
    if words.len() == 0 {
        assert(s =~= word_bytes(0) + rest);
        lemma_word_layout(0, rest);
        assert(words =~= Seq::<u16>::empty());
    } else {
        let tail = words.skip(1);
        let after = words_bytes(tail) + word_bytes(0) + rest;
        assert(s =~= word_bytes(words[0]) + after);
        lemma_word_layout(words[0], after);
        assert forall|i: int| 0 <= i < tail.len() implies tail[i] != 0 by {
            assert(tail[i] == words[i + 1]);
        }
        lemma_sz_words_layout(tail, rest);
        assert(seq![words[0]] + tail =~= words);
    }
}

/// Reading a NUL-terminated string gives back the text that was written:
/// for every text without a NUL character, the string reader turns the
/// UTF-16LE encoding of the text, followed by a terminator and by anything
/// at all, into that text, and stops right after the terminator.
pub proof fn lemma_sz_string_round_trip(text: Seq<char>, rest: Seq<u8>)
    requires
        nul_free(text),
    ensures
        spec_sz_string(sz_bytes(text) + rest) == (Step::<Seq<char>> {
            outcome: Ok(text),
            used: sz_bytes(text).len(),
        }),
        sz_bytes(text).len() == 2 * encode_utf16(text).len() + 2,
{
    let words = encode_utf16(text);
    lemma_encode_no_zero(text);
    lemma_sz_words_layout(words, rest);
    lemma_decode_encode(text);
    lemma_words_bytes_len(words);
}

/// A 32-bit integer is read back from its four bytes.
pub proof fn lemma_u32_layout(n: u32, rest: Seq<u8>)
    ensures
        spec_u32(u32_bytes(n) + rest) == (Step::<u32> { outcome: Ok(n), used: 4 }),
        (u32_bytes(n) + rest).skip(4) == rest,
{
    let s = u32_bytes(n) + rest;
    assert(s[0] == (n % 0x100) as u8);
    assert(s[1] == (n / 0x100 % 0x100) as u8);
    assert(s[2] == (n / 0x1_0000 % 0x100) as u8);
    assert(s[3] == (n / 0x100_0000) as u8);
    assert(s.skip(4) =~= rest);
}

/// A structural character is read back from its two bytes and accepted.
pub proof fn lemma_delimiter_layout(c: char, rest: Seq<u8>)
    requires
        is_single_unit(c),
    ensures
        spec_delimiter(delimiter_bytes(c) + rest, c) == (Step::<()> { outcome: Ok(()), used: 2 }),
        (delimiter_bytes(c) + rest).skip(2) == rest,
{
    lemma_word_layout(c as u16, rest);
    assert(!is_surrogate(c as u16));
    assert(unit_char(c as u16) == c);
}

/// A step that succeeds on its own bytes, followed by the structural
/// character, succeeds as a field.
pub proof fn lemma_closed_by_layout<T>(
    first: Step<T>,
    own: Seq<u8>,
    c: char,
    rest: Seq<u8>,
)
    requires
        is_single_unit(c),
        first.outcome is Ok,
        first.used == own.len(),
    ensures
        closed_by(first, own + delimiter_bytes(c) + rest, c) == (Step::<T> {
            outcome: first.outcome,
            used: own.len() + 2,
        }),
        (own + delimiter_bytes(c) + rest).skip((own.len() + 2) as int) == rest,
{
    let s = own + delimiter_bytes(c) + rest;
    assert(s.skip(own.len() as int) =~= delimiter_bytes(c) + rest);
    lemma_delimiter_layout(c, rest);
    assert(s.skip((own.len() + 2) as int) =~= rest);
}

/// A NUL-terminated string and its semicolon are read back as the text.
pub proof fn lemma_string_field_layout(text: Seq<char>, rest: Seq<u8>)
    requires
        nul_free(text),
    ensures
        spec_string_field(sz_bytes(text) + delimiter_bytes(';') + rest) == (Step::<Seq<char>> {
            outcome: Ok(text),
            used: sz_bytes(text).len() + 2,
        }),
        (sz_bytes(text) + delimiter_bytes(';') + rest).skip((sz_bytes(text).len() + 2) as int)
            == rest,
{
    let s = sz_bytes(text) + delimiter_bytes(';') + rest;
    lemma_sz_string_round_trip(text, delimiter_bytes(';') + rest);
    assert(sz_bytes(text) + (delimiter_bytes(';') + rest) =~= s);
    lemma_closed_by_layout(spec_sz_string(s), sz_bytes(text), ';', rest);
}

/// A type tag and its semicolon are read back as the type.
pub proof fn lemma_type_field_layout(data_type: KeyValueDataType, rest: Seq<u8>)
    ensures
        spec_type_field(u32_bytes(data_type.spec_tag()) + delimiter_bytes(';') + rest) == (Step::<
            KeyValueDataType,
        > { outcome: Ok(data_type), used: 6 }),
        (u32_bytes(data_type.spec_tag()) + delimiter_bytes(';') + rest).skip(6) == rest,
{
    let own = u32_bytes(data_type.spec_tag());
    let s = own + delimiter_bytes(';') + rest;
    lemma_u32_layout(data_type.spec_tag(), delimiter_bytes(';') + rest);
    assert(own + (delimiter_bytes(';') + rest) =~= s);
    KeyValueDataType::lemma_tag_round_trip(data_type);
    lemma_closed_by_layout(spec_type(s), own, ';', rest);
}

/// A declared size and its semicolon are read back as the size.
pub proof fn lemma_size_field_layout(size: u32, rest: Seq<u8>)
    ensures
        spec_size_field(u32_bytes(size) + delimiter_bytes(';') + rest) == (Step::<u32> {
            outcome: Ok(size),
            used: 6,
        }),
        (u32_bytes(size) + delimiter_bytes(';') + rest).skip(6) == rest,
{
    let own = u32_bytes(size);
    let s = own + delimiter_bytes(';') + rest;
    lemma_u32_layout(size, delimiter_bytes(';') + rest);
    assert(own + (delimiter_bytes(';') + rest) =~= s);
    lemma_closed_by_layout(spec_u32(s), own, ';', rest);
}

/// The bytes of an entry from its part number `part` on, with `rest` after
/// them: part 0 is the opening bracket, parts 1 to 5 are the five fields.
spec fn entry_tail(
    part: nat,
    key: Seq<char>,
    value: Seq<char>,
    tag: u32,
    size: u32,
    payload: Seq<u8>,
    rest: Seq<u8>,
) -> Seq<u8> {
    let f5 = payload + delimiter_bytes(']') + rest;
    let f4 = u32_bytes(size) + delimiter_bytes(';') + f5;
    let f3 = u32_bytes(tag) + delimiter_bytes(';') + f4;
    let f2 = sz_bytes(value) + delimiter_bytes(';') + f3;
    let f1 = sz_bytes(key) + delimiter_bytes(';') + f2;
    if part == 5 {
        f5
    } else if part == 4 {
        f4
    } else if part == 3 {
        f3
    } else if part == 2 {
        f2
    } else if part == 1 {
        f1
    } else {
        delimiter_bytes('[') + f1
    }
}

/// The bytes of an entry are its parts one after the other.
proof fn lemma_entry_bytes_parts(
    key: Seq<char>,
    value: Seq<char>,
    tag: u32,
    size: u32,
    payload: Seq<u8>,
    rest: Seq<u8>,
)
    ensures
        entry_bytes(key, value, tag, size, payload) + rest == entry_tail(
            0,
            key,
            value,
            tag,
            size,
            payload,
            rest,
        ),
        entry_bytes(key, value, tag, size, payload).len() == sz_bytes(key).len() + sz_bytes(
            value,
        ).len() + payload.len() + 20,
{
    assert(entry_bytes(key, value, tag, size, payload) + rest =~= entry_tail(
        0,
        key,
        value,
        tag,
        size,
        payload,
        rest,
    ));
}

/// Skipping in two goes is skipping the sum.
proof fn lemma_skip_twice(s: Seq<u8>, a: nat, b: nat, t: Seq<u8>, u: Seq<u8>)
    requires
        a <= s.len(),
        s.skip(a as int) == t,
        b <= t.len(),
        t.skip(b as int) == u,
    ensures
        s.skip((a + b) as int) == u,
{
    assert(s.skip(a as int).skip(b as int) =~= s.skip((a + b) as int));
}

/// Decoding reads an entry back from its layout. For every key and value
/// name without a NUL character, every type and declared size, and every
/// payload that the value decoder accepts in full, the entry decoder turns
/// the bytes of the entry, followed by anything at all, into that entry, and
/// stops right after the closing bracket.
pub proof fn lemma_entry_round_trip(
    key: Seq<char>,
    value: Seq<char>,
    data_type: KeyValueDataType,
    size: u32,
    payload: Seq<u8>,
    data: ValueModel,
    rest: Seq<u8>,
)
    requires
        nul_free(key),
        nul_free(value),
        spec_data(data_type, size, payload + delimiter_bytes(']') + rest) == (Step::<ValueModel> {
            outcome: Ok(data),
            used: payload.len(),
        }),
    ensures
        spec_entry(entry_bytes(key, value, data_type.spec_tag(), size, payload) + rest) == (Step::<
            EntryModel,
        > {
            outcome: Ok(EntryModel { key, value, data_type, size, data }),
            used: entry_bytes(key, value, data_type.spec_tag(), size, payload).len(),
        }),
{
    let tag = data_type.spec_tag();
    let whole = entry_tail(0, key, value, tag, size, payload, rest);
    let f1 = entry_tail(1, key, value, tag, size, payload, rest);
    let f2 = entry_tail(2, key, value, tag, size, payload, rest);
    let f3 = entry_tail(3, key, value, tag, size, payload, rest);
    let f4 = entry_tail(4, key, value, tag, size, payload, rest);
    let f5 = entry_tail(5, key, value, tag, size, payload, rest);
    let k1 = sz_bytes(key).len() + 2;
    let k2 = sz_bytes(value).len() + 2;
    lemma_entry_bytes_parts(key, value, tag, size, payload, rest);
    lemma_delimiter_layout('[', f1);
    lemma_string_field_layout(key, f2);
    lemma_string_field_layout(value, f3);
    lemma_type_field_layout(data_type, f4);
    lemma_size_field_layout(size, f5);
    lemma_closed_by_layout(spec_data(data_type, size, f5), payload, ']', rest);
    let n1: nat = 2;
    let n2: nat = n1 + k1;
    let n3: nat = n2 + k2;
    let n4: nat = n3 + 6;
    let n5: nat = n4 + 6;
    assert(whole.skip(n1 as int) == f1);
    lemma_skip_twice(whole, n1, k1, f1, f2);
    lemma_skip_twice(whole, n2, k2, f2, f3);
    lemma_skip_twice(whole, n3, 6, f3, f4);
    lemma_skip_twice(whole, n4, 6, f4, f5);
    assert(spec_string_field(whole.skip(n1 as int)).outcome == Ok::<
        Seq<char>,
        DecodeError,
    >(key));
    assert(spec_string_field(whole.skip(n2 as int)).outcome == Ok::<
        Seq<char>,
        DecodeError,
    >(value));
    assert(spec_type_field(whole.skip(n3 as int)).outcome == Ok::<
        KeyValueDataType,
        DecodeError,
    >(data_type));
    assert(spec_size_field(whole.skip(n4 as int)).outcome == Ok::<u32, DecodeError>(
        size,
    ));
    assert(spec_data_field(data_type, size, whole.skip(n5 as int)).outcome == Ok::<
        ValueModel,
        DecodeError,
    >(data));
}

/// The value that a payload of an entry stands for, given the type and the
/// declared size of the entry; `None` where the payload does not fit them.
/// Text, binary data and string lists fill the declared size exactly, the
/// integers have four or eight bytes, and a value of type none has no
/// payload.
pub open spec fn payload_value(data_type: KeyValueDataType, size: u32, payload: Seq<u8>) -> Option<
    ValueModel,
> {
    let text = if payload.len() == size {
        sz_text(payload)
    } else {
        None
    };
    match data_type {
        KeyValueDataType::RegNone => if payload.len() == 0 {
            Some(ValueModel::RegNone)
        } else {
            None
        },
        KeyValueDataType::RegSZ => match text {
            Some(t) => Some(ValueModel::RegSZ(t)),
            None => None,
        },
        KeyValueDataType::RegExpandSZ => match text {
            Some(t) => Some(ValueModel::RegExpandSZ(t)),
            None => None,
        },
        KeyValueDataType::RegLink => match text {
            Some(t) => Some(ValueModel::RegLink(t)),
            None => None,
        },
        KeyValueDataType::RegMultiSZ => match text {
            Some(t) => Some(ValueModel::RegMultiSZ(multi_sz_strings(t))),
            None => None,
        },
        KeyValueDataType::RegBinary => if payload.len() == size {
            Some(ValueModel::RegBinary(payload))
        } else {
            None
        },
        KeyValueDataType::RegDWord => if payload.len() == 4 {
            Some(ValueModel::RegDWord(le32(payload)))
        } else {
            None
        },
        KeyValueDataType::RegDWordBigEndian => if payload.len() == 4 {
            Some(ValueModel::RegDWordBigEndian(be32(payload)))
        } else {
            None
        },
        KeyValueDataType::RegQWord => if payload.len() == 8 {
            Some(ValueModel::RegQWord(le64(payload)))
        } else {
            None
        },
        _ => None,
    }
}

/// The value decoder reads a payload that fits its type as the value it
/// stands for, whatever comes after it, and stops at the end of the payload.
pub proof fn lemma_data_layout(
    data_type: KeyValueDataType,
    size: u32,
    payload: Seq<u8>,
    rest: Seq<u8>,
)
    requires
        payload_value(data_type, size, payload) is Some,
    ensures
        spec_data(data_type, size, payload + rest) == (Step::<ValueModel> {
            outcome: Ok(payload_value(data_type, size, payload)->0),
            used: payload.len(),
        }),
{
    let s = payload + rest;
    assert(s.take(payload.len() as int) =~= payload);
    if data_type is RegDWord || data_type is RegDWordBigEndian {
        assert(s[0] == payload[0] && s[1] == payload[1] && s[2] == payload[2] && s[3]
            == payload[3]);
    }
    if data_type is RegQWord {
        assert(s[0] == payload[0] && s[1] == payload[1] && s[2] == payload[2] && s[3]
            == payload[3]);
        assert(s.skip(4)[0] == payload.skip(4)[0] && s.skip(4)[1] == payload.skip(4)[1]
            && s.skip(4)[2] == payload.skip(4)[2] && s.skip(4)[3] == payload.skip(4)[3]);
    }
}

/// The parts that an entry is written from.
pub struct EntryLayout {
    pub key: Seq<char>,
    pub value: Seq<char>,
    pub data_type: KeyValueDataType,
    pub size: u32,
    pub payload: Seq<u8>,
}

impl EntryLayout {
    /// Whether the parts make an entry that can be read back: no NUL in the
    /// key or the value name, and a payload that fits type and size.
    pub open spec fn well_formed(self) -> bool {
        &&& nul_free(self.key)
        &&& nul_free(self.value)
        &&& payload_value(self.data_type, self.size, self.payload) is Some
    }

    /// The bytes of the entry.
    pub open spec fn bytes(self) -> Seq<u8> {
        entry_bytes(self.key, self.value, self.data_type.spec_tag(), self.size, self.payload)
    }

    /// The entry that the parts stand for.
    pub open spec fn model(self) -> EntryModel {
        EntryModel {
            key: self.key,
            value: self.value,
            data_type: self.data_type,
            size: self.size,
            data: payload_value(self.data_type, self.size, self.payload)->0,
        }
    }
}

/// The bytes of a run of entries, one after the other.
pub open spec fn body_bytes(entries: Seq<EntryLayout>) -> Seq<u8>
    decreases entries.len(),
{
    if entries.len() == 0 {
        Seq::empty()
    } else {
        entries[0].bytes() + body_bytes(entries.skip(1))
    }
}

/// The bytes of a file: the header and the entries.
pub open spec fn file_bytes(entries: Seq<EntryLayout>) -> Seq<u8> {
    magic() + u32_bytes(supported_version()) + body_bytes(entries)
}

/// A well-formed entry is read back from its bytes, whatever comes after it.
pub proof fn lemma_layout_round_trip(entry: EntryLayout, rest: Seq<u8>)
    requires
        entry.well_formed(),
    ensures
        spec_entry(entry.bytes() + rest) == (Step::<EntryModel> {
            outcome: Ok(entry.model()),
            used: entry.bytes().len(),
        }),
        entry.bytes().len() >= 22,
{
    lemma_data_layout(entry.data_type, entry.size, entry.payload, delimiter_bytes(']') + rest);
    assert(entry.payload + (delimiter_bytes(']') + rest) =~= entry.payload + delimiter_bytes(']')
        + rest);
    lemma_entry_round_trip(
        entry.key,
        entry.value,
        entry.data_type,
        entry.size,
        entry.payload,
        entry.model().data,
        rest,
    );
    lemma_entry_used(entry.bytes() + rest);
}

/// A stream that ends where an entry would start ends cleanly: a run of
/// well-formed entries decodes to those entries, in order, with no error.
pub proof fn lemma_body_round_trip(entries: Seq<EntryLayout>)
    requires
        forall|i: int| 0 <= i < entries.len() ==> (#[trigger] entries[i]).well_formed(),
    ensures
        spec_entries(body_bytes(entries)) == (
            entries.map_values(|e: EntryLayout| e.model()),
            None::<DecodeError>,
        ),
    decreases entries.len(),
{
    let models = entries.map_values(|e: EntryLayout| e.model());
    if entries.len() == 0 {
        assert(models =~= Seq::<EntryModel>::empty());
    } else {
        let rest = entries.skip(1);
        let tail = body_bytes(rest);
        assert(entries[0].well_formed());
        assert forall|i: int| 0 <= i < rest.len() implies (#[trigger] rest[i]).well_formed() by {
            assert(rest[i] == entries[i + 1]);
        }
        lemma_layout_round_trip(entries[0], tail);
        lemma_body_round_trip(rest);
        let s = body_bytes(entries);
        assert(s.skip(entries[0].bytes().len() as int) =~= tail);
        assert(seq![entries[0].model()] + rest.map_values(|e: EntryLayout| e.model()) =~= models);
    }
}

/// A file made of the header and well-formed entries decodes to those
/// entries, in order, with no error.
pub proof fn lemma_file_round_trip(entries: Seq<EntryLayout>)
    requires
        forall|i: int| 0 <= i < entries.len() ==> (#[trigger] entries[i]).well_formed(),
    ensures
        spec_policy_file(file_bytes(entries)) == Ok::<
            (Seq<EntryModel>, Option<DecodeError>),
            DecodeError,
        >((entries.map_values(|e: EntryLayout| e.model()), None::<DecodeError>)),
{
    let data = file_bytes(entries);
    let version = u32_bytes(supported_version());
    assert(data.take(4) =~= magic());
    assert(data.skip(4) =~= version + body_bytes(entries));
    lemma_u32_layout(supported_version(), body_bytes(entries));
    assert(data.skip(header_len() as int) =~= body_bytes(entries));
    lemma_body_round_trip(entries);
}

} // verus!
