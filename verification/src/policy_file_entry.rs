//! One entry of a policy file: its grammar and its decoder.
//!
//! An entry is `[key;value;type;size;data]`. The brackets and semicolons are
//! UTF-16LE code units, key and value are NUL-terminated UTF-16LE strings,
//! type and size are 32-bit little-endian integers, and the layout of the
//! data depends on the type.

use vstd::prelude::*;
use crate::error::DecodeError;
use crate::key_value_datatype::KeyValueDataType;
use crate::registry_value::{RegistryValue, ValueModel};
use crate::string_codec::{multi_sz_strings, parse_reg_multi_sz, parse_reg_sz_raw, sz_text};
use crate::utf16::{decode_unit, decode_utf16_lossy, unit_char, words_to_string_lossy};
use crate::word_reader::{advanced, be32, first_word, le32, le64, lemma_advanced_twice, U16Reader};

verus! {

/// What one step of the grammar does to the bytes in front of it: the value
/// it reads or the error it stops with, and the number of bytes it consumes.
pub struct Step<T> {
    pub outcome: Result<T, DecodeError>,
    pub used: nat,
}

/// What an entry stands for.
pub struct EntryModel {
    pub key: Seq<char>,
    pub value: Seq<char>,
    pub data_type: KeyValueDataType,
    pub size: u32,
    pub data: ValueModel,
}

/// One character: a single code unit, decoded on its own.
pub open spec fn spec_char(s: Seq<u8>) -> Step<char> {
    match first_word(s) {
        Some(w) => Step { outcome: Ok(unit_char(w)), used: 2 },
        None => Step { outcome: Err(DecodeError::UnexpectedEnd), used: 0 },
    }
}

/// One structural character, which has to be `expected`. A different
/// character is consumed all the same.
pub open spec fn spec_delimiter(s: Seq<u8>, expected: char) -> Step<()> {
    let c = spec_char(s);
    Step {
        outcome: match c.outcome {
            Ok(found) => if found == expected {
                Ok(())
            } else {
                Err(DecodeError::WrongDelimiter { expected, found })
            },
            Err(e) => Err(e),
        },
        used: c.used,
    }
}

/// The code units of `s` in front of its first zero unit; `None` where `s`
/// runs out before a zero unit.
pub open spec fn sz_words(s: Seq<u8>) -> Option<Seq<u16>>
    decreases s.len(),
{
    match first_word(s) {
        None => None,
        Some(w) => if w == 0 {
            Some(Seq::empty())
        } else {
            match sz_words(s.skip(2)) {
                Some(rest) => Some(seq![w] + rest),
                None => None,
            }
        },
    }
}

/// A NUL-terminated string of unknown length. The terminator is consumed and
/// left out of the text. A string that runs into the end of the input has
/// consumed every whole code unit on the way.
pub open spec fn spec_sz_string(s: Seq<u8>) -> Step<Seq<char>> {
    match sz_words(s) {
        Some(words) => Step {
            outcome: Ok(decode_utf16_lossy(words)),
            used: 2 * (words.len() + 1),
        },
        None => Step { outcome: Err(DecodeError::UnexpectedEnd), used: 2 * (s.len() / 2) },
    }
}

/// A 32-bit little-endian integer.
pub open spec fn spec_u32(s: Seq<u8>) -> Step<u32> {
    if s.len() >= 4 {
        Step { outcome: Ok(le32(s)), used: 4 }
    } else {
        Step { outcome: Err(DecodeError::UnexpectedEnd), used: 0 }
    }
}

/// The type tag. A number that names no type is consumed and rejected.
pub open spec fn spec_type(s: Seq<u8>) -> Step<KeyValueDataType> {
    let n = spec_u32(s);
    Step {
        outcome: match n.outcome {
            Ok(tag) => match KeyValueDataType::spec_from_tag(tag) {
                Some(t) => Ok(t),
                None => Err(DecodeError::UnknownTypeTag(tag)),
            },
            Err(e) => Err(e),
        },
        used: n.used,
    }
}

/// A run of `n` bytes. Where fewer are left, nothing is consumed.
pub open spec fn spec_bytes(n: nat, s: Seq<u8>) -> Step<Seq<u8>> {
    if n <= s.len() {
        Step { outcome: Ok(s.take(n as int)), used: n }
    } else {
        Step { outcome: Err(DecodeError::UnexpectedEnd), used: 0 }
    }
}

/// A text payload of `size` bytes. The bytes are consumed whether or not
/// they can be decoded.
pub open spec fn spec_text(size: u32, s: Seq<u8>) -> Step<Seq<char>> {
    let raw = spec_bytes(size as nat, s);
    Step {
        outcome: match raw.outcome {
            Ok(bytes) => match sz_text(bytes) {
                Some(text) => Ok(text),
                None => Err(DecodeError::UndecodableString),
            },
            Err(e) => Err(e),
        },
        used: raw.used,
    }
}

/// The value of an entry whose type is `data_type` and whose declared size
/// is `size`. Strings, binary data and string lists take `size` bytes; the
/// integers take four or eight bytes whatever the declared size is; a value
/// of type none takes no bytes; a type without a decoder is rejected before
/// any byte is read.
pub open spec fn spec_data(data_type: KeyValueDataType, size: u32, s: Seq<u8>) -> Step<
    ValueModel,
> {
    let text = spec_text(size, s);
    let raw = spec_bytes(size as nat, s);
    match data_type {
        KeyValueDataType::RegNone => Step { outcome: Ok(ValueModel::RegNone), used: 0 },
        KeyValueDataType::RegSZ => Step {
            outcome: match text.outcome {
                Ok(t) => Ok(ValueModel::RegSZ(t)),
                Err(e) => Err(e),
            },
            used: text.used,
        },
        KeyValueDataType::RegExpandSZ => Step {
            outcome: match text.outcome {
                Ok(t) => Ok(ValueModel::RegExpandSZ(t)),
                Err(e) => Err(e),
            },
            used: text.used,
        },
        KeyValueDataType::RegLink => Step {
            outcome: match text.outcome {
                Ok(t) => Ok(ValueModel::RegLink(t)),
                Err(e) => Err(e),
            },
            used: text.used,
        },
        KeyValueDataType::RegMultiSZ => Step {
            outcome: match text.outcome {
                Ok(t) => Ok(ValueModel::RegMultiSZ(multi_sz_strings(t))),
                Err(e) => Err(e),
            },
            used: text.used,
        },
        KeyValueDataType::RegBinary => Step {
            outcome: match raw.outcome {
                Ok(bytes) => Ok(ValueModel::RegBinary(bytes)),
                Err(e) => Err(e),
            },
            used: raw.used,
        },
        KeyValueDataType::RegDWord => if s.len() >= 4 {
            Step { outcome: Ok(ValueModel::RegDWord(le32(s))), used: 4 }
        } else {
            Step { outcome: Err(DecodeError::UnexpectedEnd), used: 0 }
        },
        KeyValueDataType::RegDWordBigEndian => if s.len() >= 4 {
            Step { outcome: Ok(ValueModel::RegDWordBigEndian(be32(s))), used: 4 }
        } else {
            Step { outcome: Err(DecodeError::UnexpectedEnd), used: 0 }
        },
        KeyValueDataType::RegQWord => if s.len() >= 8 {
            Step { outcome: Ok(ValueModel::RegQWord(le64(s))), used: 8 }
        } else {
            Step { outcome: Err(DecodeError::UnexpectedEnd), used: 0 }
        },
        KeyValueDataType::RegResourceList
        | KeyValueDataType::RegFullResourceDescriptor
        | KeyValueDataType::RegResourceRequirementsList
        | KeyValueDataType::RegFileTime => Step {
            outcome: Err(DecodeError::UnsupportedType(data_type)),
            used: 0,
        },
    }
}

/// The result of a run of steps that stopped with `error` after `used` bytes.
pub open spec fn stopped<T>(error: DecodeError, used: nat) -> Step<T> {
    Step { outcome: Err(error), used }
}

/// The step `first`, made on `s`, and after it the structural character
/// `expected`. Where `first` failed, that is the end of it.
pub open spec fn closed_by<T>(first: Step<T>, s: Seq<u8>, expected: char) -> Step<T> {
    let close = spec_delimiter(s.skip(first.used as int), expected);
    if first.outcome is Err {
        first
    } else if close.outcome is Err {
        stopped(close.outcome->Err_0, first.used + close.used)
    } else {
        Step { outcome: first.outcome, used: first.used + close.used }
    }
}

/// A NUL-terminated string and the semicolon after it.
pub open spec fn spec_string_field(s: Seq<u8>) -> Step<Seq<char>> {
    closed_by(spec_sz_string(s), s, ';')
}

/// The type tag and the semicolon after it.
pub open spec fn spec_type_field(s: Seq<u8>) -> Step<KeyValueDataType> {
    closed_by(spec_type(s), s, ';')
}

/// The declared size and the semicolon after it.
pub open spec fn spec_size_field(s: Seq<u8>) -> Step<u32> {
    closed_by(spec_u32(s), s, ';')
}

/// The data and the closing bracket after it.
pub open spec fn spec_data_field(data_type: KeyValueDataType, size: u32, s: Seq<u8>) -> Step<
    ValueModel,
> {
    closed_by(spec_data(data_type, size, s), s, ']')
}

/// One entry: `[`, then key, value name, type and size, each with a
/// semicolon after it, then the data and `]`. Each part is read where the
/// one before it ended. The first part that fails ends the entry with its
/// error; what was consumed up to there stays consumed.
pub open spec fn spec_entry(s: Seq<u8>) -> Step<EntryModel> {
    let open = spec_delimiter(s, '[');
    let n1 = open.used;
    let key = spec_string_field(s.skip(n1 as int));
    let n2 = n1 + key.used;
    let value = spec_string_field(s.skip(n2 as int));
    let n3 = n2 + value.used;
    let data_type = spec_type_field(s.skip(n3 as int));
    let n4 = n3 + data_type.used;
    let size = spec_size_field(s.skip(n4 as int));
    let n5 = n4 + size.used;
    let data = spec_data_field(data_type.outcome->Ok_0, size.outcome->Ok_0, s.skip(n5 as int));
    let n6 = n5 + data.used;
    if open.outcome is Err {
        stopped(open.outcome->Err_0, n1)
    } else if key.outcome is Err {
        stopped(key.outcome->Err_0, n2)
    } else if value.outcome is Err {
        stopped(value.outcome->Err_0, n3)
    } else if data_type.outcome is Err {
        stopped(data_type.outcome->Err_0, n4)
    } else if size.outcome is Err {
        stopped(size.outcome->Err_0, n5)
    } else if data.outcome is Err {
        stopped(data.outcome->Err_0, n6)
    } else {
        Step {
            outcome: Ok(
                EntryModel {
                    key: key.outcome->Ok_0,
                    value: value.outcome->Ok_0,
                    data_type: data_type.outcome->Ok_0,
                    size: size.outcome->Ok_0,
                    data: data.outcome->Ok_0,
                },
            ),
            used: n6,
        }
    }
}

/// One decoded entry of a policy file.
#[derive(Debug, PartialEq, Eq)]
pub struct PolicyFileEntry {
    pol_key: String,
    pol_value: String,
    pol_type: KeyValueDataType,
    pol_size: u32,
    pol_data: RegistryValue,
}

impl View for PolicyFileEntry {
    type V = EntryModel;

    closed spec fn view(&self) -> EntryModel {
        EntryModel {
            key: self.pol_key@,
            value: self.pol_value@,
            data_type: self.pol_type,
            size: self.pol_size,
            data: self.pol_data@,
        }
    }
}

impl PolicyFileEntry {
    /// An entry made of its five parts.
    pub fn new(
        pol_key: String,
        pol_value: String,
        pol_type: KeyValueDataType,
        pol_size: u32,
        pol_data: RegistryValue,
    ) -> (r: Self)
        ensures
            r@ == (EntryModel {
                key: pol_key@,
                value: pol_value@,
                data_type: pol_type,
                size: pol_size,
                data: pol_data@,
            }),
    {
        PolicyFileEntry { pol_key, pol_value, pol_type, pol_size, pol_data }
    }

    /// The registry key that the entry is about.
    pub fn pol_key(&self) -> (r: &String)
        ensures
            r@ == self@.key,
    {
        &self.pol_key
    }

    /// The name of the value under that key.
    pub fn pol_value(&self) -> (r: &String)
        ensures
            r@ == self@.value,
    {
        &self.pol_value
    }

    /// The data type that the entry declares.
    pub fn pol_type(&self) -> (r: &KeyValueDataType)
        ensures
            *r == self@.data_type,
    {
        &self.pol_type
    }

    /// The size in bytes that the entry declares for its data.
    pub fn pol_size(&self) -> (r: &u32)
        ensures
            *r == self@.size,
    {
        &self.pol_size
    }

    /// The decoded data.
    pub fn pol_data(&self) -> (r: &RegistryValue)
        ensures
            r@ == self@.data,
    {
        &self.pol_data
    }

    /// Takes the entry apart: key, value name, type, declared size, data.
    pub fn into_parts(self) -> (r: (String, String, KeyValueDataType, u32, RegistryValue))
        ensures
            self@ == (EntryModel {
                key: r.0@,
                value: r.1@,
                data_type: r.2,
                size: r.3,
                data: r.4@,
            }),
    {
        (self.pol_key, self.pol_value, self.pol_type, self.pol_size, self.pol_data)
    }

    /// Decodes one entry at the reader's position. An entry that fails is
    /// given up where it failed: the reader is not moved back, and nothing of
    /// the entry is returned.
    pub fn read(reader: &mut U16Reader) -> (r: Result<PolicyFileEntry, DecodeError>)
        ensures
            match r {
                Ok(entry) => spec_entry(old(reader).remaining()).outcome == Ok::<
                    EntryModel,
                    DecodeError,
                >(entry@),
                Err(e) => spec_entry(old(reader).remaining()).outcome == Err::<
                    EntryModel,
                    DecodeError,
                >(e),
            },
            advanced(*old(reader), *final(reader), spec_entry(old(reader).remaining()).used),
    {
        let ghost r0 = *reader;
        let ghost s = r0.remaining();
        let open = expect_char(reader, '[');
        let ghost r1 = *reader;
        let ghost n1 = spec_delimiter(s, '[').used;
        if let Err(e) = open {
            return Err(e);
        }
        let key = read_string_field(reader);
        let ghost r2 = *reader;
        let ghost n2 = n1 + spec_string_field(s.skip(n1 as int)).used;
        proof {
            lemma_advanced_twice(r0, r1, r2, n1, (n2 - n1) as nat);
        }
        let pol_key = match key {
            Ok(text) => text,
            Err(e) => {
                return Err(e);
            },
        };
        let value = read_string_field(reader);
        let ghost r3 = *reader;
        let ghost n3 = n2 + spec_string_field(s.skip(n2 as int)).used;
        proof {
            lemma_advanced_twice(r0, r2, r3, n2, (n3 - n2) as nat);
        }
        let pol_value = match value {
            Ok(text) => text,
            Err(e) => {
                return Err(e);
            },
        };
        let data_type = read_type_field(reader);
        let ghost r4 = *reader;
        let ghost n4 = n3 + spec_type_field(s.skip(n3 as int)).used;
        proof {
            lemma_advanced_twice(r0, r3, r4, n3, (n4 - n3) as nat);
        }
        let pol_type = match data_type {
            Ok(t) => t,
            Err(e) => {
                return Err(e);
            },
        };
        let size = read_size_field(reader);
        let ghost r5 = *reader;
        let ghost n5 = n4 + spec_size_field(s.skip(n4 as int)).used;
        proof {
            lemma_advanced_twice(r0, r4, r5, n4, (n5 - n4) as nat);
        }
        let pol_size = match size {
            Ok(n) => n,
            Err(e) => {
                return Err(e);
            },
        };
        let data = read_data_field(reader, &pol_type, pol_size);
        let ghost n6 = n5 + spec_data_field(pol_type, pol_size, s.skip(n5 as int)).used;
        proof {
            lemma_advanced_twice(r0, r5, *reader, n5, (n6 - n5) as nat);
        }
        match data {
            Ok(pol_data) => Ok(PolicyFileEntry { pol_key, pol_value, pol_type, pol_size, pol_data }),
            Err(e) => Err(e),
        }
    }
}

/// Reads a NUL-terminated string and the semicolon after it.
fn read_string_field(reader: &mut U16Reader) -> (r: Result<String, DecodeError>)
    ensures
        match r {
            Ok(text) => spec_string_field(old(reader).remaining()).outcome == Ok::<
                Seq<char>,
                DecodeError,
            >(text@),
            Err(e) => spec_string_field(old(reader).remaining()).outcome == Err::<
                Seq<char>,
                DecodeError,
            >(e),
        },
        advanced(*old(reader), *final(reader), spec_string_field(old(reader).remaining()).used),
{
    let text = read_sz_string(reader);
    let ghost mid = *reader;
    let text = match text {
        Ok(text) => text,
        Err(e) => {
            return Err(e);
        },
    };
    let close = expect_char(reader, ';');
    proof {
        lemma_advanced_twice(
            *old(reader),
            mid,
            *reader,
            spec_sz_string(old(reader).remaining()).used,
            spec_delimiter(mid.remaining(), ';').used,
        );
    }
    match close {
        Ok(()) => Ok(text),
        Err(e) => Err(e),
    }
}

/// Reads the type tag and the semicolon after it.
fn read_type_field(reader: &mut U16Reader) -> (r: Result<KeyValueDataType, DecodeError>)
    ensures
        r == spec_type_field(old(reader).remaining()).outcome,
        advanced(*old(reader), *final(reader), spec_type_field(old(reader).remaining()).used),
{
    let data_type = read_type(reader);
    let ghost mid = *reader;
    let data_type = match data_type {
        Ok(t) => t,
        Err(e) => {
            return Err(e);
        },
    };
    let close = expect_char(reader, ';');
    proof {
        lemma_advanced_twice(
            *old(reader),
            mid,
            *reader,
            spec_type(old(reader).remaining()).used,
            spec_delimiter(mid.remaining(), ';').used,
        );
    }
    match close {
        Ok(()) => Ok(data_type),
        Err(e) => Err(e),
    }
}

/// Reads the declared size and the semicolon after it.
fn read_size_field(reader: &mut U16Reader) -> (r: Result<u32, DecodeError>)
    ensures
        r == spec_size_field(old(reader).remaining()).outcome,
        advanced(*old(reader), *final(reader), spec_size_field(old(reader).remaining()).used),
{
    let size = read_u32(reader);
    let ghost mid = *reader;
    let size = match size {
        Ok(n) => n,
        Err(e) => {
            return Err(e);
        },
    };
    let close = expect_char(reader, ';');
    proof {
        lemma_advanced_twice(
            *old(reader),
            mid,
            *reader,
            spec_u32(old(reader).remaining()).used,
            spec_delimiter(mid.remaining(), ';').used,
        );
    }
    match close {
        Ok(()) => Ok(size),
        Err(e) => Err(e),
    }
}

/// Reads the data and the closing bracket after it.
fn read_data_field(reader: &mut U16Reader, pol_type: &KeyValueDataType, pol_size: u32) -> (r:
    Result<RegistryValue, DecodeError>)
    ensures
        match r {
            Ok(v) => spec_data_field(*pol_type, pol_size, old(reader).remaining()).outcome == Ok::<
                ValueModel,
                DecodeError,
            >(v@),
            Err(e) => spec_data_field(*pol_type, pol_size, old(reader).remaining()).outcome
                == Err::<ValueModel, DecodeError>(e),
        },
        advanced(
            *old(reader),
            *final(reader),
            spec_data_field(*pol_type, pol_size, old(reader).remaining()).used,
        ),
{
    let data = read_data(reader, pol_type, pol_size);
    let ghost mid = *reader;
    let data = match data {
        Ok(v) => v,
        Err(e) => {
            return Err(e);
        },
    };
    let close = expect_char(reader, ']');
    proof {
        lemma_advanced_twice(
            *old(reader),
            mid,
            *reader,
            spec_data(*pol_type, pol_size, old(reader).remaining()).used,
            spec_delimiter(mid.remaining(), ']').used,
        );
    }
    match close {
        Ok(()) => Ok(data),
        Err(e) => Err(e),
    }
}

/// Reads one character: a single code unit, replaced where it is a surrogate.
pub fn read_char(reader: &mut U16Reader) -> (r: Result<char, DecodeError>)
    ensures
        r == spec_char(old(reader).remaining()).outcome,
        advanced(*old(reader), *final(reader), spec_char(old(reader).remaining()).used),
{
    match reader.next() {
        Some(w) => Ok(decode_unit(w)),
        None => Err(DecodeError::UnexpectedEnd),
    }
}

/// Reads one structural character and checks that it is `expected`.
pub fn expect_char(reader: &mut U16Reader, expected: char) -> (r: Result<(), DecodeError>)
    ensures
        r == spec_delimiter(old(reader).remaining(), expected).outcome,
        advanced(
            *old(reader),
            *final(reader),
            spec_delimiter(old(reader).remaining(), expected).used,
        ),
{
    match read_char(reader) {
        Ok(found) => if found == expected {
            Ok(())
        } else {
            Err(DecodeError::WrongDelimiter { expected, found })
        },
        Err(e) => Err(e),
    }
}

/// Reads exactly `bytes` bytes.
pub fn read_vec(reader: &mut U16Reader, bytes: usize) -> (r: Result<Vec<u8>, DecodeError>)
    ensures
        match r {
            Ok(v) => spec_bytes(bytes as nat, old(reader).remaining()).outcome == Ok::<
                Seq<u8>,
                DecodeError,
            >(v@),
            Err(e) => spec_bytes(bytes as nat, old(reader).remaining()).outcome == Err::<
                Seq<u8>,
                DecodeError,
            >(e),
        },
        advanced(
            *old(reader),
            *final(reader),
            spec_bytes(bytes as nat, old(reader).remaining()).used,
        ),
{
    match reader.take(bytes) {
        Some(v) => Ok(v),
        None => Err(DecodeError::UnexpectedEnd),
    }
}

/// Reads a NUL-terminated UTF-16LE string. Ill-formed code units are
/// replaced, never rejected.
pub fn read_sz_string(reader: &mut U16Reader) -> (r: Result<String, DecodeError>)
    ensures
        match r {
            Ok(text) => spec_sz_string(old(reader).remaining()).outcome == Ok::<
                Seq<char>,
                DecodeError,
            >(text@),
            Err(e) => spec_sz_string(old(reader).remaining()).outcome == Err::<
                Seq<char>,
                DecodeError,
            >(e),
        },
        advanced(*old(reader), *final(reader), spec_sz_string(old(reader).remaining()).used),
{
    let ghost start = old(reader).remaining();
    let mut words: Vec<u16> = Vec::new();
    proof {
        assert(start.skip(0) =~= start);
        assert(words@ + sz_words(start)->0 =~= sz_words(start)->0);
    }
    loop
        invariant
            advanced(*old(reader), *reader, 2 * words@.len()),
            start == old(reader).remaining(),
            match sz_words(reader.remaining()) {
                Some(rest) => sz_words(start) == Some(words@ + rest),
                None => sz_words(start) is None,
            },
            forall|i: int| 0 <= i < words@.len() ==> words@[i] != 0,
        decreases reader.remaining().len(),
    {
        let ghost before = *reader;
        let next = reader.next();
        proof {
            lemma_advanced_twice(
                *old(reader),
                before,
                *reader,
                2 * words@.len(),
                if next is Some {
                    2nat
                } else {
                    0nat
                },
            );
        }
        match next {
            None => {
                return Err(DecodeError::UnexpectedEnd);
            },
            Some(w) => {
                if w == 0 {
                    proof {
                        assert(words@ + Seq::<u16>::empty() =~= words@);
                    }
                    return Ok(words_to_string_lossy(words));
                }
                proof {
                    let rest = sz_words(before.remaining().skip(2));
                    if rest is Some {
                        assert(words@.push(w) + rest->0 =~= words@ + (seq![w] + rest->0));
                    }
                }
                words.push(w);
            },
        }
    }
}

/// Reads a 32-bit little-endian integer.
pub fn read_u32(reader: &mut U16Reader) -> (r: Result<u32, DecodeError>)
    ensures
        r == spec_u32(old(reader).remaining()).outcome,
        advanced(*old(reader), *final(reader), spec_u32(old(reader).remaining()).used),
{
    match reader.read_u32_le() {
        Some(n) => Ok(n),
        None => Err(DecodeError::UnexpectedEnd),
    }
}

/// Reads the type tag of an entry.
pub fn read_type(reader: &mut U16Reader) -> (r: Result<KeyValueDataType, DecodeError>)
    ensures
        r == spec_type(old(reader).remaining()).outcome,
        advanced(*old(reader), *final(reader), spec_type(old(reader).remaining()).used),
{
    match read_u32(reader) {
        Ok(tag) => match KeyValueDataType::from_tag(tag) {
            Some(t) => Ok(t),
            None => Err(DecodeError::UnknownTypeTag(tag)),
        },
        Err(e) => Err(e),
    }
}

/// Reads a text payload of `size` bytes.
fn read_text(reader: &mut U16Reader, size: u32) -> (r: Result<String, DecodeError>)
    ensures
        match r {
            Ok(text) => spec_text(size, old(reader).remaining()).outcome == Ok::<
                Seq<char>,
                DecodeError,
            >(text@),
            Err(e) => spec_text(size, old(reader).remaining()).outcome == Err::<
                Seq<char>,
                DecodeError,
            >(e),
        },
        advanced(*old(reader), *final(reader), spec_text(size, old(reader).remaining()).used),
{
    match reader.take(size as usize) {
        Some(bytes) => parse_reg_sz_raw(bytes.as_slice()),
        None => Err(DecodeError::UnexpectedEnd),
    }
}

/// Decodes the value of an entry from its type and its declared size.
pub fn read_data(reader: &mut U16Reader, pol_type: &KeyValueDataType, pol_size: u32) -> (r: Result<
    RegistryValue,
    DecodeError,
>)
    ensures
        match r {
            Ok(v) => spec_data(*pol_type, pol_size, old(reader).remaining()).outcome == Ok::<
                ValueModel,
                DecodeError,
            >(v@),
            Err(e) => spec_data(*pol_type, pol_size, old(reader).remaining()).outcome == Err::<
                ValueModel,
                DecodeError,
            >(e),
        },
        advanced(
            *old(reader),
            *final(reader),
            spec_data(*pol_type, pol_size, old(reader).remaining()).used,
        ),
{
    proof {
        assert(old(reader).remaining().skip(0) =~= old(reader).remaining());
    }
    match pol_type {
        KeyValueDataType::RegNone => {
            let _ = reader.remaining_len();
            Ok(RegistryValue::RegNone)
        },
        KeyValueDataType::RegSZ => match read_text(reader, pol_size) {
            Ok(text) => Ok(RegistryValue::RegSZ(text)),
            Err(e) => Err(e),
        },
        KeyValueDataType::RegExpandSZ => match read_text(reader, pol_size) {
            Ok(text) => Ok(RegistryValue::RegExpandSZ(text)),
            Err(e) => Err(e),
        },
        KeyValueDataType::RegBinary => match read_vec(reader, pol_size as usize) {
            Ok(bytes) => Ok(RegistryValue::RegBinary(bytes)),
            Err(e) => Err(e),
        },
        KeyValueDataType::RegDWord => match reader.read_u32_le() {
            Some(n) => Ok(RegistryValue::RegDWord(n)),
            None => Err(DecodeError::UnexpectedEnd),
        },
        KeyValueDataType::RegDWordBigEndian => match reader.read_u32_be() {
            Some(n) => Ok(RegistryValue::RegDWordBigEndian(n)),
            None => Err(DecodeError::UnexpectedEnd),
        },
        KeyValueDataType::RegLink => match read_text(reader, pol_size) {
            Ok(text) => Ok(RegistryValue::RegLink(text)),
            Err(e) => Err(e),
        },
        KeyValueDataType::RegMultiSZ => match reader.take(pol_size as usize) {
            Some(bytes) => match parse_reg_multi_sz(bytes.as_slice()) {
                Ok(strings) => Ok(RegistryValue::RegMultiSZ(strings)),
                Err(e) => Err(e),
            },
            None => Err(DecodeError::UnexpectedEnd),
        },
        KeyValueDataType::RegQWord => match reader.read_u64_le() {
            Some(n) => Ok(RegistryValue::RegQWord(n)),
            None => Err(DecodeError::UnexpectedEnd),
        },
        KeyValueDataType::RegResourceList => {
            let _ = reader.remaining_len();
            Err(DecodeError::UnsupportedType(KeyValueDataType::RegResourceList))
        },
        KeyValueDataType::RegFullResourceDescriptor => {
            let _ = reader.remaining_len();
            Err(DecodeError::UnsupportedType(KeyValueDataType::RegFullResourceDescriptor))
        },
        KeyValueDataType::RegResourceRequirementsList => {
            let _ = reader.remaining_len();
            Err(DecodeError::UnsupportedType(KeyValueDataType::RegResourceRequirementsList))
        },
        KeyValueDataType::RegFileTime => {
            let _ = reader.remaining_len();
            Err(DecodeError::UnsupportedType(KeyValueDataType::RegFileTime))
        },
    }
}

} // verus!
