//! Decoder for registry policy files: the `PReg` container that group-policy
//! tooling uses to carry an ordered list of registry value assignments.
//!
//! The decoder works on bytes that are already in memory. Every function is
//! verified against a model of the format stated over sequences of bytes,
//! UTF-16 code units and characters.

pub mod error;
pub mod key_value_datatype;
pub mod layout;
pub mod policy_file;
pub mod policy_file_entry;
pub mod registry_value;
pub mod string_codec;
pub mod trusted;
pub mod utf16;
pub mod word_reader;

pub use error::{DecodeError, ErrorKind};
pub use key_value_datatype::KeyValueDataType;
pub use policy_file::{check_header, decode_policy_file, PolicyFile};
pub use policy_file_entry::{EntryModel, PolicyFileEntry, Step};
pub use registry_value::{Cell, CellModel, RegistryValue, ValueModel};
pub use string_codec::{parse_reg_multi_sz, parse_reg_sz_raw};
pub use utf16::words_to_string_lossy;
pub use word_reader::U16Reader;
