//! A whole policy file: the fixed header and the entries after it.

use vstd::prelude::*;
use crate::error::{DecodeError, ErrorKind};
use crate::policy_file_entry::{
    spec_data_field, spec_delimiter, spec_entry, spec_size_field, spec_string_field,
    spec_sz_string, spec_type_field, EntryModel, PolicyFileEntry,
};
use crate::trusted::decodable_len;
use crate::word_reader::{le32, U16Reader};

verus! {

/// The four bytes that every policy file starts with: `PReg`.
pub open spec fn magic() -> Seq<u8> {
    seq![0x50u8, 0x52u8, 0x65u8, 0x67u8]
}

/// The only version of the format.
pub open spec fn supported_version() -> u32 {
    1
}

/// Length of the header: the magic and a 32-bit version.
pub open spec fn header_len() -> nat {
    8
}

/// The verdict on the header of `data`. The magic is judged as soon as its
/// four bytes are there, the version after it.
pub open spec fn spec_header(data: Seq<u8>) -> Result<(), DecodeError> {
    if data.len() < 4 {
        Err(DecodeError::TruncatedHeader)
    } else if data.take(4) != magic() {
        Err(DecodeError::InvalidMagic)
    } else if data.len() < 8 {
        Err(DecodeError::TruncatedHeader)
    } else if le32(data.skip(4)) != supported_version() {
        Err(DecodeError::InvalidVersion)
    } else {
        Ok(())
    }
}

/// The entries of a file, given the bytes after its header: the entries that
/// decode, in order, up to the end of the input or to the first entry that
/// fails, and the error of that entry. Fewer than two bytes in front of an
/// entry are the end of the input, not an error.
pub open spec fn spec_entries(s: Seq<u8>) -> (Seq<EntryModel>, Option<DecodeError>)
    decreases s.len(),
    via spec_entries_decreases
{
    if s.len() < 2 {
        (Seq::empty(), None)
    } else {
        let step = spec_entry(s);
        match step.outcome {
            Err(e) => (Seq::empty(), Some(e)),
            Ok(entry) => {
                let rest = spec_entries(s.skip(step.used as int));
                (seq![entry] + rest.0, rest.1)
            },
        }
    }
}

#[via_fn]
proof fn spec_entries_decreases(s: Seq<u8>) {
    lemma_entry_used(s);
}

/// A NUL-terminated string never reaches past the end of the input, and one
/// that is there takes at least its terminator.
pub proof fn lemma_sz_string_used(s: Seq<u8>)
    ensures
        spec_sz_string(s).used <= s.len(),
        spec_sz_string(s).outcome is Ok ==> spec_sz_string(s).used >= 2,
    decreases s.len(),
{
    if s.len() >= 2 {
        lemma_sz_string_used(s.skip(2));
    }
}

/// An entry never reaches past the end of the input, and one that decodes
/// takes at least the bytes of its fixed parts.
pub proof fn lemma_entry_used(s: Seq<u8>)
    ensures
        spec_entry(s).used <= s.len(),
        spec_entry(s).outcome is Ok ==> spec_entry(s).used >= 22,
{
    let step = spec_entry(s);
    let open = spec_delimiter(s, '[');
    let n1 = open.used;
    let s1 = s.skip(n1 as int);
    lemma_sz_string_used(s1);
    let key = spec_string_field(s1);
    let n2 = n1 + key.used;
    let s2 = s.skip(n2 as int);
    lemma_sz_string_used(s2);
    let value = spec_string_field(s2);
    let n3 = n2 + value.used;
    let data_type = spec_type_field(s.skip(n3 as int));
    let n4 = n3 + data_type.used;
    let size = spec_size_field(s.skip(n4 as int));
    let n5 = n4 + size.used;
    let data = spec_data_field(
        data_type.outcome->Ok_0,
        size.outcome->Ok_0,
        s.skip(n5 as int),
    );
    assert(n1 <= s.len());
    assert(key.used <= s1.len());
    assert(n2 <= s.len());
    assert(value.used <= s2.len());
    assert(n3 <= s.len());
    assert(n4 <= s.len());
    assert(n5 <= s.len());
}

/// The texts of a list of entries.
pub open spec fn entries_view(entries: Seq<PolicyFileEntry>) -> Seq<EntryModel> {
    entries.map_values(|e: PolicyFileEntry| e@)
}

/// Checks the header at the start of `data`.
pub fn check_header(data: &[u8]) -> (r: Result<(), DecodeError>)
    ensures
        r == spec_header(data@),
        r matches Err(e) ==> e.spec_kind() == ErrorKind::Header,
        data@.len() >= header_len() ==> (r is Err <==> (data@.take(4) != magic() || le32(
            data@.skip(4),
        ) != supported_version())),
{
    if data.len() < 4 {
        return Err(DecodeError::TruncatedHeader);
    }
    if data[0] != 0x50 || data[1] != 0x52 || data[2] != 0x65 || data[3] != 0x67 {
        proof {
            assert(data@.take(4)[0] == data@[0]);
            assert(data@.take(4)[1] == data@[1]);
            assert(data@.take(4)[2] == data@[2]);
            assert(data@.take(4)[3] == data@[3]);
        }
        return Err(DecodeError::InvalidMagic);
    }
    proof {
        assert(data@.take(4) =~= magic());
    }
    if data.len() < 8 {
        return Err(DecodeError::TruncatedHeader);
    }
    let version: u32 = data[4] as u32 + 0x100 * (data[5] as u32) + 0x1_0000 * (data[6] as u32)
        + 0x100_0000 * (data[7] as u32);
    if version != 1 {
        return Err(DecodeError::InvalidVersion);
    }
    Ok(())
}

/// A policy file that is being decoded: a sequence of entries that is read
/// front to back, once. After the last entry, or after the first entry that
/// fails, it is stopped and gives nothing more.
pub struct PolicyFile {
    reader: U16Reader,
    stopped: bool,
}

impl PolicyFile {
    /// The bytes that have not been decoded yet.
    pub closed spec fn remaining(&self) -> Seq<u8> {
        self.reader.remaining()
    }

    /// Whether the sequence has ended, cleanly or with an error.
    pub closed spec fn is_stopped(&self) -> bool {
        self.stopped
    }

    /// Takes the bytes of a file and checks its header. No entry is looked at
    /// before the header has been accepted.
    pub fn open(data: Vec<u8>) -> (r: Result<PolicyFile, DecodeError>)
        requires
            decodable_len(data@.len()),
        ensures
            match r {
                Ok(file) => spec_header(data@) is Ok && !file.is_stopped() && file.remaining()
                    == data@.skip(header_len() as int),
                Err(e) => spec_header(data@) == Err::<(), DecodeError>(e) && e.spec_kind()
                    == ErrorKind::Header,
            },
    {
        match check_header(data.as_slice()) {
            Err(e) => Err(e),
            Ok(()) => {
                let mut reader = U16Reader::new(data);
                let ghost fresh = reader;
                let _ = reader.take(8);
                proof {
                    assert(fresh.remaining() == data@);
                }
                Ok(PolicyFile { reader, stopped: false })
            },
        }
    }

    /// Whether the sequence has ended.
    pub fn stopped(&self) -> (b: bool)
        ensures
            b == self.is_stopped(),
    {
        self.stopped
    }

    /// Decodes the next entry. `None` is the end of the sequence: the input
    /// is used up, or an earlier call has reported an error. An error is
    /// reported once, and the sequence ends with it.
    pub fn next_entry(&mut self) -> (r: Option<Result<PolicyFileEntry, DecodeError>>)
        ensures
            final(self).remaining() == old(self).remaining().skip(
                next_used(old(self).is_stopped(), old(self).remaining()) as int,
            ),
            final(self).is_stopped() == next_stops(old(self).is_stopped(), old(self).remaining()),
            match r {
                None => old(self).is_stopped() || old(self).remaining().len() < 2,
                Some(Ok(entry)) => !old(self).is_stopped() && old(self).remaining().len() >= 2
                    && spec_entry(old(self).remaining()).outcome == Ok::<EntryModel, DecodeError>(
                    entry@,
                ),
                Some(Err(e)) => !old(self).is_stopped() && old(self).remaining().len() >= 2
                    && spec_entry(old(self).remaining()).outcome == Err::<EntryModel, DecodeError>(
                    e,
                ),
            },
    {
        proof {
            assert(self.remaining().skip(0) =~= self.remaining());
        }
        if self.stopped {
            return None;
        }
        if self.reader.remaining_len() < 2 {
            self.stopped = true;
            return None;
        }
        match PolicyFileEntry::read(&mut self.reader) {
            Ok(entry) => Some(Ok(entry)),
            Err(e) => {
                self.stopped = true;
                Some(Err(e))
            },
        }
    }

    /// Decodes all entries that are left. The entries that decoded before an
    /// error are returned together with the error.
    pub fn read_all(&mut self) -> (r: (Vec<PolicyFileEntry>, Option<DecodeError>))
        ensures
            final(self).is_stopped(),
            !old(self).is_stopped() ==> entries_view(r.0@) == spec_entries(old(self).remaining()).0
                && r.1 == spec_entries(old(self).remaining()).1,
            old(self).is_stopped() ==> r.0@.len() == 0 && r.1 is None,
    {
        let mut entries: Vec<PolicyFileEntry> = Vec::new();
        let ghost start = self.remaining();
        proof {
            assert(entries_view(entries@) + spec_entries(start).0 =~= spec_entries(start).0);
        }
        loop
            invariant
                start == old(self).remaining(),
                self.is_stopped() == old(self).is_stopped(),
                old(self).is_stopped() ==> entries@.len() == 0,
                !self.is_stopped() ==> entries_view(entries@) + spec_entries(self.remaining()).0
                    == spec_entries(start).0 && spec_entries(self.remaining()).1 == spec_entries(
                    start,
                ).1,
            decreases self.remaining().len() + (if self.is_stopped() { 0nat } else { 1nat }),
        {
            let ghost before = self.remaining();
            let ghost done = entries_view(entries@);
            proof {
                lemma_entry_used(before);
            }
            match self.next_entry() {
                None => {
                    proof {
                        assert(done + Seq::<EntryModel>::empty() =~= done);
                    }
                    return (entries, None);
                },
                Some(Err(e)) => {
                    proof {
                        assert(done + Seq::<EntryModel>::empty() =~= done);
                    }
                    return (entries, Some(e));
                },
                Some(Ok(entry)) => {
                    proof {
                        let rest = spec_entries(self.remaining()).0;
                        assert(entries_view(entries@.push(entry)) =~= done.push(entry@));
                        assert(done.push(entry@) + rest =~= done + (seq![entry@] + rest));
                    }
                    entries.push(entry);
                },
            }
        }
    }
}

/// Bytes that `next_entry` consumes, given whether the sequence had stopped
/// and the bytes in front of it.
pub open spec fn next_used(stopped: bool, s: Seq<u8>) -> nat {
    if stopped || s.len() < 2 {
        0
    } else {
        spec_entry(s).used
    }
}

/// Whether the sequence is stopped after `next_entry`.
pub open spec fn next_stops(stopped: bool, s: Seq<u8>) -> bool {
    stopped || s.len() < 2 || spec_entry(s).outcome is Err
}

/// What a whole file decodes to: the error of its header, or the entries
/// after the header with the error that ended them, if one did.
pub open spec fn spec_policy_file(data: Seq<u8>) -> Result<
    (Seq<EntryModel>, Option<DecodeError>),
    DecodeError,
> {
    match spec_header(data) {
        Err(e) => Err(e),
        Ok(()) => Ok(spec_entries(data.skip(header_len() as int))),
    }
}

/// Decodes a whole policy file from its bytes. A bad header is fatal: it is
/// the error of the call. After a good header the call gives the entries
/// that decode, in order; where an entry fails, the entries in front of it
/// are kept and the error comes with them.
pub fn decode_policy_file(data: Vec<u8>) -> (r: Result<
    (Vec<PolicyFileEntry>, Option<DecodeError>),
    DecodeError,
>)
    requires
        decodable_len(data@.len()),
    ensures
        match r {
            Ok((entries, error)) => spec_policy_file(data@) == Ok::<
                (Seq<EntryModel>, Option<DecodeError>),
                DecodeError,
            >((entries_view(entries@), error)),
            Err(e) => spec_policy_file(data@) == Err::<
                (Seq<EntryModel>, Option<DecodeError>),
                DecodeError,
            >(e) && e.spec_kind() == ErrorKind::Header,
        },
{
    match PolicyFile::open(data) {
        Err(e) => Err(e),
        Ok(mut file) => Ok(file.read_all()),
    }
}

} // verus!
