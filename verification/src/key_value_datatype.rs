//! The data-type tag that an entry carries in front of its value.

use vstd::prelude::*;

verus! {

/// Registry data types, as the 32-bit tag of an entry names them.
#[derive(Clone, Copy, Debug, PartialEq, Eq, Structural)]
pub enum KeyValueDataType {
    RegNone,
    RegSZ,
    RegExpandSZ,
    RegBinary,
    RegDWord,
    RegDWordBigEndian,
    RegLink,
    RegMultiSZ,
    RegResourceList,
    RegFullResourceDescriptor,
    RegResourceRequirementsList,
    RegQWord,
    RegFileTime,
}

impl KeyValueDataType {
    /// The number that stands for this type in a file.
    pub open spec fn spec_tag(self) -> u32 {
        match self {
            KeyValueDataType::RegNone => 0,
            KeyValueDataType::RegSZ => 1,
            KeyValueDataType::RegExpandSZ => 2,
            KeyValueDataType::RegBinary => 3,
            KeyValueDataType::RegDWord => 4,
            KeyValueDataType::RegDWordBigEndian => 5,
            KeyValueDataType::RegLink => 6,
            KeyValueDataType::RegMultiSZ => 7,
            KeyValueDataType::RegResourceList => 8,
            KeyValueDataType::RegFullResourceDescriptor => 9,
            KeyValueDataType::RegResourceRequirementsList => 10,
            KeyValueDataType::RegQWord => 11,
            KeyValueDataType::RegFileTime => 16,
        }
    }

    /// The type that `tag` stands for: the one type whose tag it is, if any.
    pub open spec fn spec_from_tag(tag: u32) -> Option<KeyValueDataType> {
        if exists|t: KeyValueDataType| t.spec_tag() == tag {
            Some(choose|t: KeyValueDataType| t.spec_tag() == tag)
        } else {
            None
        }
    }

    /// Whether values of this type can be decoded. The resource descriptors
    /// and the file time have no decoder: their layout is not guessed.
    pub open spec fn spec_is_implemented(self) -> bool {
        !(self is RegResourceList || self is RegFullResourceDescriptor
            || self is RegResourceRequirementsList || self is RegFileTime)
    }

    #[verifier::when_used_as_spec(spec_tag)]
    pub fn tag(self) -> (n: u32)
        ensures
            n == self.spec_tag(),
    {
        match self {
            KeyValueDataType::RegNone => 0,
            KeyValueDataType::RegSZ => 1,
            KeyValueDataType::RegExpandSZ => 2,
            KeyValueDataType::RegBinary => 3,
            KeyValueDataType::RegDWord => 4,
            KeyValueDataType::RegDWordBigEndian => 5,
            KeyValueDataType::RegLink => 6,
            KeyValueDataType::RegMultiSZ => 7,
            KeyValueDataType::RegResourceList => 8,
            KeyValueDataType::RegFullResourceDescriptor => 9,
            KeyValueDataType::RegResourceRequirementsList => 10,
            KeyValueDataType::RegQWord => 11,
            KeyValueDataType::RegFileTime => 16,
        }
    }

    /// Maps a tag to its type; a number that names no type gives `None`.
    #[verifier::when_used_as_spec(spec_from_tag)]
    pub fn from_tag(tag: u32) -> (r: Option<KeyValueDataType>)
        ensures
            r == Self::spec_from_tag(tag),
            r matches Some(t) ==> t.spec_tag() == tag,
            r is None ==> forall|t: KeyValueDataType| t.spec_tag() != tag,
    {
        let r = match tag {
            0 => Some(KeyValueDataType::RegNone),
            1 => Some(KeyValueDataType::RegSZ),
            2 => Some(KeyValueDataType::RegExpandSZ),
            3 => Some(KeyValueDataType::RegBinary),
            4 => Some(KeyValueDataType::RegDWord),
            5 => Some(KeyValueDataType::RegDWordBigEndian),
            6 => Some(KeyValueDataType::RegLink),
            7 => Some(KeyValueDataType::RegMultiSZ),
            8 => Some(KeyValueDataType::RegResourceList),
            9 => Some(KeyValueDataType::RegFullResourceDescriptor),
            10 => Some(KeyValueDataType::RegResourceRequirementsList),
            11 => Some(KeyValueDataType::RegQWord),
            16 => Some(KeyValueDataType::RegFileTime),
            _ => None,
        };
        proof {
            Self::lemma_tag_names_one_type();
            if let Some(t) = r {
                assert(t.spec_tag() == tag);
            }
        }
        r
    }

    #[verifier::when_used_as_spec(spec_is_implemented)]
    pub fn is_implemented(self) -> (b: bool)
        ensures
            b == self.spec_is_implemented(),
    {
        match self {
            KeyValueDataType::RegResourceList => false,
            KeyValueDataType::RegFullResourceDescriptor => false,
            KeyValueDataType::RegResourceRequirementsList => false,
            KeyValueDataType::RegFileTime => false,
            _ => true,
        }
    }

    /// No two types share a tag.
    pub proof fn lemma_tag_names_one_type()
        ensures
            forall|a: KeyValueDataType, b: KeyValueDataType|
                a.spec_tag() == b.spec_tag() ==> a == b,
    {
    }

    /// Reading back the tag of a type gives that type.
    pub proof fn lemma_tag_round_trip(t: KeyValueDataType)
        ensures
            Self::spec_from_tag(t.spec_tag()) == Some(t),
    {
        Self::lemma_tag_names_one_type();
    }
}

} // verus!
