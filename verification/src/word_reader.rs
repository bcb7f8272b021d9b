//! Forward-only cursor over the bytes of a policy file.

use vstd::prelude::*;
use vstd::slice::slice_to_vec;
use crate::trusted::decodable_len;

verus! {

/// The 16-bit value whose little-endian encoding is `lo`, `hi`.
pub open spec fn le16(lo: u8, hi: u8) -> u16 {
    (lo + 0x100 * hi) as u16
}

/// The 32-bit value that the first four bytes of `s` encode, lowest byte first.
pub open spec fn le32(s: Seq<u8>) -> u32 {
    (s[0] + 0x100 * s[1] + 0x1_0000 * s[2] + 0x100_0000 * s[3]) as u32
}

/// The 32-bit value that the first four bytes of `s` encode, highest byte first.
pub open spec fn be32(s: Seq<u8>) -> u32 {
    (s[3] + 0x100 * s[2] + 0x1_0000 * s[1] + 0x100_0000 * s[0]) as u32
}

/// The 64-bit value that the first eight bytes of `s` encode, lowest byte first.
pub open spec fn le64(s: Seq<u8>) -> u64 {
    (le32(s) + 0x1_0000_0000 * le32(s.skip(4))) as u64
}

/// The first code unit of `s`, if `s` holds a whole one.
pub open spec fn first_word(s: Seq<u8>) -> Option<u16> {
    if s.len() >= 2 {
        Some(le16(s[0], s[1]))
    } else {
        None
    }
}

/// A byte buffer with a read position that only moves forward.
pub struct U16Reader {
    data: Vec<u8>,
    pos: usize,
}

/// `after` is `before` once `n` more bytes have been read: the same input,
/// the position `n` further on.
pub open spec fn advanced(before: U16Reader, after: U16Reader, n: nat) -> bool {
    &&& after.bytes() == before.bytes()
    &&& after.position() == before.position() + n
    &&& n <= before.remaining().len()
    &&& after.remaining() == before.remaining().skip(n as int)
}

/// Reading `n` bytes and then `m` more is reading `n + m` bytes.
pub proof fn lemma_advanced_twice(a: U16Reader, b: U16Reader, c: U16Reader, n: nat, m: nat)
    requires
        advanced(a, b, n),
        advanced(b, c, m),
    ensures
        advanced(a, c, n + m),
{
    assert(a.remaining().skip(n as int).skip(m as int) =~= a.remaining().skip((n + m) as int));
}

impl U16Reader {
    #[verifier::type_invariant]
    spec fn inv(&self) -> bool {
        self.pos <= self.data@.len() && decodable_len(self.data@.len())
    }

    /// All bytes of the input, read or not.
    pub closed spec fn bytes(&self) -> Seq<u8> {
        self.data@
    }

    /// Number of bytes read so far.
    pub closed spec fn position(&self) -> nat {
        self.pos as nat
    }

    /// The bytes that have not been read yet.
    pub open spec fn remaining(&self) -> Seq<u8> {
        self.bytes().skip(self.position() as int)
    }

    /// Whether an input of this length can be handed to `new`.
    pub fn accepts(len: usize) -> (b: bool)
        ensures
            b == decodable_len(len as nat),
    {
        len <= usize::MAX / 8
    }

    /// A reader placed at the first byte of `data`.
    pub fn new(data: Vec<u8>) -> (r: Self)
        requires
            decodable_len(data@.len()),
        ensures
            r.bytes() == data@,
            r.position() == 0,
            r.remaining() == data@,
    {
        let r = U16Reader { data, pos: 0 };
        proof {
            assert(r.remaining() =~= data@);
        }
        r
    }

    /// Number of bytes that are left to read. The position never passes the
    /// end of the input, and the input is short enough for any part of it to
    /// be decoded as text.
    pub fn remaining_len(&self) -> (n: usize)
        ensures
            n == self.remaining().len(),
            self.position() + n == self.bytes().len(),
            decodable_len(self.bytes().len()),
    {
        proof {
            use_type_invariant(self);
        }
        self.data.len() - self.pos
    }

    /// Reads one little-endian code unit. With fewer than two bytes left the
    /// reader is at the end of its input: nothing is read and nothing consumed.
    pub fn next(&mut self) -> (r: Option<u16>)
        ensures
            r == first_word(old(self).remaining()),
            advanced(*old(self), *final(self), if r is Some { 2nat } else { 0nat }),
    {
        proof {
            use_type_invariant(&*self);
        }
        if self.data.len() - self.pos < 2 {
            proof {
                assert(self.remaining().skip(0) =~= self.remaining());
            }
            return None;
        }
        let lo: u8 = self.data[self.pos];
        let hi: u8 = self.data[self.pos + 1];
        self.pos = self.pos + 2;
        proof {
            assert(self.remaining() =~= old(self).remaining().skip(2));
        }
        Some(lo as u16 + 0x100 * (hi as u16))
    }

    /// Reads a 32-bit integer, lowest byte first. Where fewer than four bytes
    /// are left, nothing is consumed.
    pub fn read_u32_le(&mut self) -> (r: Option<u32>)
        ensures
            r is Some <==> old(self).remaining().len() >= 4,
            r matches Some(n) ==> n == le32(old(self).remaining()),
            advanced(*old(self), *final(self), if r is Some { 4nat } else { 0nat }),
    {
        proof {
            use_type_invariant(&*self);
        }
        if self.data.len() - self.pos < 4 {
            proof {
                assert(self.remaining().skip(0) =~= self.remaining());
            }
            return None;
        }
        let b0: u8 = self.data[self.pos];
        let b1: u8 = self.data[self.pos + 1];
        let b2: u8 = self.data[self.pos + 2];
        let b3: u8 = self.data[self.pos + 3];
        self.pos = self.pos + 4;
        proof {
            assert(self.remaining() =~= old(self).remaining().skip(4));
        }
        Some(b0 as u32 + 0x100 * (b1 as u32) + 0x1_0000 * (b2 as u32) + 0x100_0000 * (b3 as u32))
    }

    /// Reads a 32-bit integer, highest byte first. Where fewer than four bytes
    /// are left, nothing is consumed.
    pub fn read_u32_be(&mut self) -> (r: Option<u32>)
        ensures
            r is Some <==> old(self).remaining().len() >= 4,
            r matches Some(n) ==> n == be32(old(self).remaining()),
            advanced(*old(self), *final(self), if r is Some { 4nat } else { 0nat }),
    {
        proof {
            use_type_invariant(&*self);
        }
        if self.data.len() - self.pos < 4 {
            proof {
                assert(self.remaining().skip(0) =~= self.remaining());
            }
            return None;
        }
        let b0: u8 = self.data[self.pos];
        let b1: u8 = self.data[self.pos + 1];
        let b2: u8 = self.data[self.pos + 2];
        let b3: u8 = self.data[self.pos + 3];
        self.pos = self.pos + 4;
        proof {
            assert(self.remaining() =~= old(self).remaining().skip(4));
        }
        Some(b3 as u32 + 0x100 * (b2 as u32) + 0x1_0000 * (b1 as u32) + 0x100_0000 * (b0 as u32))
    }

    /// Reads a 64-bit integer, lowest byte first. Where fewer than eight bytes
    /// are left, nothing is consumed.
    pub fn read_u64_le(&mut self) -> (r: Option<u64>)
        ensures
            r is Some <==> old(self).remaining().len() >= 8,
            r matches Some(n) ==> n == le64(old(self).remaining()),
            advanced(*old(self), *final(self), if r is Some { 8nat } else { 0nat }),
    {
        if self.remaining_len() < 8 {
            proof {
                assert(self.remaining().skip(0) =~= self.remaining());
            }
            return None;
        }
        let ghost mid = old(self).remaining().skip(4);
        let low = self.read_u32_le();
        let ghost half = *self;
        let high = self.read_u32_le();
        proof {
            lemma_advanced_twice(*old(self), half, *self, 4, 4);
        }
        match (low, high) {
            (Some(lo), Some(hi)) => Some(lo as u64 + 0x1_0000_0000 * (hi as u64)),
            _ => None,
        }
    }

    /// Reads exactly `n` bytes. Where fewer are left, nothing is consumed.
    pub fn take(&mut self, n: usize) -> (r: Option<Vec<u8>>)
        ensures
            r is Some <==> n <= old(self).remaining().len(),
            r matches Some(v) ==> v@ == old(self).remaining().take(n as int) && decodable_len(
                v@.len(),
            ),
            advanced(*old(self), *final(self), if r is Some { n as nat } else { 0nat }),
    {
        proof {
            use_type_invariant(&*self);
        }
        if self.data.len() - self.pos < n {
            proof {
                assert(self.remaining().skip(0) =~= self.remaining());
            }
            return None;
        }
        let part = slice_to_vec(vstd::slice::slice_subrange(self.data.as_slice(), self.pos, self.pos + n));
        proof {
            assert(part@ =~= old(self).remaining().take(n as int));
        }
        self.pos = self.pos + n;
        proof {
            assert(self.remaining() =~= old(self).remaining().skip(n as int));
        }
        Some(part)
    }
}

} // verus!
