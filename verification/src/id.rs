//! The opaque 12-byte identifier.
//!
//! Layout: a 6-byte big-endian timestamp, a 2-byte big-endian counter and a
//! 4-byte big-endian random salt.  The codec itself only reads and writes
//! the 12 bytes verbatim; generating fresh identifiers (clock, process-wide
//! counter, randomness) is a collaborator's job and sits outside this
//! library's verified core.

use vstd::prelude::*;

use crate::hex::{hex_bytes_of, hex_chars_of, hex_decode, hex_encode, valid_hex_str};

verus! {

/// Why building an identifier from text failed.
#[derive(Debug, Clone, Copy, PartialEq, Eq, Structural)]
pub enum Error {
    /// The text is valid hex but not 12 bytes of it.
    ArgumentError,
    /// The text is not valid hex.
    FromHexError,
}

/// An opaque 12-byte identifier.
#[derive(Debug, Clone, Copy, PartialEq, Eq, PartialOrd, Ord, Hash)]
pub struct Id {
    pub bytes: [u8; 12],
}

impl View for Id {
    type V = Seq<u8>;

    open spec fn view(&self) -> Seq<u8> {
        self.bytes@
    }
}

impl Id {
    /// Packs a timestamp, a counter and a random salt into the 12-byte
    /// big-endian layout.  Only the low 48 bits of the timestamp are kept.
    pub fn new_raw(timestamp: u64, count: u16, random: u32) -> (r: Id)
        ensures
            r.bytes@ =~= seq![
                (timestamp / 0x100_0000_0000 % 256) as u8,
                (timestamp / 0x1_0000_0000 % 256) as u8,
                (timestamp / 0x100_0000 % 256) as u8,
                (timestamp / 0x1_0000 % 256) as u8,
                (timestamp / 0x100 % 256) as u8,
                (timestamp % 256) as u8,
                (count / 0x100 % 256) as u8,
                (count % 256) as u8,
                (random / 0x100_0000 % 256) as u8,
                (random / 0x1_0000 % 256) as u8,
                (random / 0x100 % 256) as u8,
                (random % 256) as u8,
            ],
    {
        let bytes: [u8; 12] = [
            (timestamp / 0x100_0000_0000 % 256) as u8,
            (timestamp / 0x1_0000_0000 % 256) as u8,
            (timestamp / 0x100_0000 % 256) as u8,
            (timestamp / 0x1_0000 % 256) as u8,
            (timestamp / 0x100 % 256) as u8,
            (timestamp % 256) as u8,
            (count / 0x100 % 256) as u8,
            (count % 256) as u8,
            (random / 0x100_0000 % 256) as u8,
            (random / 0x1_0000 % 256) as u8,
            (random / 0x100 % 256) as u8,
            (random % 256) as u8,
        ];
        Id { bytes }
    }

    /// An identifier over the given 12 bytes.
    pub fn with_bytes(bytes: [u8; 12]) -> (r: Id)
        ensures
            r.bytes == bytes,
    {
        Id { bytes }
    }

    /// The 12-byte binary representation of this identifier.
    pub fn bytes(&self) -> (r: [u8; 12])
        ensures
            r == self.bytes,
    {
        self.bytes
    }

    /// The timestamp packed into the first six bytes, big endian.
    pub fn timestamp(&self) -> (r: u64)
        ensures
            r == (self.bytes@[0] as u64) * 0x100_0000_0000 + (self.bytes@[1] as u64) * 0x1_0000_0000
                + (self.bytes@[2] as u64) * 0x100_0000 + (self.bytes@[3] as u64) * 0x1_0000 + (
            self.bytes@[4] as u64) * 0x100 + (self.bytes@[5] as u64),
    {
        (self.bytes[0] as u64) * 0x100_0000_0000 + (self.bytes[1] as u64) * 0x1_0000_0000 + (
        self.bytes[2] as u64) * 0x100_0000 + (self.bytes[3] as u64) * 0x1_0000 + (self.bytes[4]
            as u64) * 0x100 + (self.bytes[5] as u64)
    }

    /// The lowercase 24-digit hexadecimal form of this identifier.
    pub fn to_hex(&self) -> (r: String)
        ensures
            r@ == hex_chars_of(self.bytes@),
    {
        hex_encode(self.bytes.as_slice())
    }

    /// An identifier from its hexadecimal form: exactly 12 bytes of hex,
    /// an optional `0x` prefix allowed.
    pub fn with_string(s: &str) -> (r: Result<Id, Error>)
        ensures
            match r {
                Ok(id) => valid_hex_str(s@) && id.bytes@ == hex_bytes_of(s@),
                Err(Error::FromHexError) => !valid_hex_str(s@),
                Err(Error::ArgumentError) => valid_hex_str(s@) && hex_bytes_of(s@).len() != 12,
            },
    {
        let v = match hex_decode(s) {
            Some(v) => v,
            None => {
                return Err(Error::FromHexError);
            },
        };
        if v.len() != 12 {
            return Err(Error::ArgumentError);
        }
        let bytes: [u8; 12] = [
            v[0],
            v[1],
            v[2],
            v[3],
            v[4],
            v[5],
            v[6],
            v[7],
            v[8],
            v[9],
            v[10],
            v[11],
        ];
        proof {
            assert(bytes@ =~= hex_bytes_of(s@));
        }
        Ok(Id { bytes })
    }

    /// The all-zero identifier.
    pub fn zero() -> (r: Id)
        ensures
            forall|i: int| 0 <= i < 12 ==> r.bytes@[i] == 0u8,
    {
        Id { bytes: [0, 0, 0, 0, 0, 0, 0, 0, 0, 0, 0, 0] }
    }

    /// Whether every byte of this identifier is zero.
    pub fn is_zero(&self) -> (r: bool)
        ensures
            r <==> (forall|i: int| 0 <= i < 12 ==> self.bytes@[i] == 0u8),
    {
        let mut i: usize = 0;
        while i < 12
            invariant
                0 <= i <= 12,
                forall|j: int| 0 <= j < i ==> self.bytes@[j] == 0u8,
            decreases 12 - i,
        {
            if self.bytes[i] != 0 {
                return false;
            }
            i = i + 1;
        }
        true
    }
}

} // verus!
