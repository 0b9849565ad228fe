//! The 80-byte block header record: its layout, its decoding from raw bytes,
//! and from hexadecimal text.
use vstd::prelude::*;

use crate::error::ChainError;
use crate::magnitude::{magnitude, u32_from_le};

verus! {

/// The length in bytes of a header record.
pub const HEADER_LEN: usize = 80;

/// A block header cut into its fields. Integer fields keep their four
/// little-endian bytes; hash fields are raw bytes.
#[derive(Debug, Clone, Copy, PartialEq, Eq)]
pub struct BlockHeader {
    pub version: [u8; 4],
    pub prev_hash: [u8; 32],
    pub merkle_root: [u8; 32],
    pub time: [u8; 4],
    pub bits: [u8; 4],
    pub nonce: [u8; 4],
}

/// Bytes 0 to 3 of a record: the version.
pub open spec fn version_field(rec: Seq<u8>) -> Seq<u8> {
    rec.subrange(0, 4)
}

/// Bytes 4 to 35 of a record: the hash of the preceding header.
pub open spec fn prev_hash_field(rec: Seq<u8>) -> Seq<u8> {
    rec.subrange(4, 36)
}

/// Bytes 36 to 67 of a record: the merkle root.
pub open spec fn merkle_root_field(rec: Seq<u8>) -> Seq<u8> {
    rec.subrange(36, 68)
}

/// Bytes 68 to 71 of a record: the timestamp.
pub open spec fn time_field(rec: Seq<u8>) -> Seq<u8> {
    rec.subrange(68, 72)
}

/// Bytes 72 to 75 of a record: the compact difficulty.
pub open spec fn bits_field(rec: Seq<u8>) -> Seq<u8> {
    rec.subrange(72, 76)
}

/// Bytes 76 to 79 of a record: the nonce.
pub open spec fn nonce_field(rec: Seq<u8>) -> Seq<u8> {
    rec.subrange(76, 80)
}

impl BlockHeader {
    /// Whether the fields are those of the record `rec`.
    pub open spec fn decodes(self, rec: Seq<u8>) -> bool {
        &&& self.version@ == version_field(rec)
        &&& self.prev_hash@ == prev_hash_field(rec)
        &&& self.merkle_root@ == merkle_root_field(rec)
        &&& self.time@ == time_field(rec)
        &&& self.bits@ == bits_field(rec)
        &&& self.nonce@ == nonce_field(rec)
    }

    /// The version, as a number.
    pub fn version_number(&self) -> (r: u32)
        ensures
            r == magnitude(self.version@),
    {
        u32_from_le(&self.version)
    }

    /// The timestamp, in Unix seconds.
    pub fn timestamp(&self) -> (r: u32)
        ensures
            r == magnitude(self.time@),
    {
        u32_from_le(&self.time)
    }

    /// The compact difficulty, as a number (exponent in the top byte).
    pub fn difficulty_bits(&self) -> (r: u32)
        ensures
            r == magnitude(self.bits@),
    {
        u32_from_le(&self.bits)
    }

    /// The nonce, as a number.
    pub fn nonce_number(&self) -> (r: u32)
        ensures
            r == magnitude(self.nonce@),
    {
        u32_from_le(&self.nonce)
    }

    /// Cuts an 80-byte record into its fields; any other length is
    /// `MalformedHeader`.
    pub fn parse(record: &[u8]) -> (r: Result<BlockHeader, ChainError>)
        ensures
            r is Ok <==> record@.len() == HEADER_LEN,
            r is Ok ==> r->Ok_0.decodes(record@),
            r is Err ==> r == Err::<BlockHeader, ChainError>(ChainError::MalformedHeader),
    {
        if record.len() != HEADER_LEN {
            return Err(ChainError::MalformedHeader);
        }
        Ok(BlockHeader {
            version: copy_bytes(record, 0),
            prev_hash: copy_bytes(record, 4),
            merkle_root: copy_bytes(record, 36),
            time: copy_bytes(record, 68),
            bits: copy_bytes(record, 72),
            nonce: copy_bytes(record, 76),
        })
    }
}

/// The `N` bytes of `s` that start at `start`.
fn copy_bytes<const N: usize>(s: &[u8], start: usize) -> (r: [u8; N])
    requires
        start + N <= s@.len(),
    ensures
        r@ == s@.subrange(start as int, start + N),
{
    let len = s.len();
    let mut r = [0u8; N];
    let mut i: usize = 0;
    while i < N
        invariant
            i <= N,
            len == s@.len(),
            start + N <= s@.len(),
            r@.len() == N,
            forall|k: int| 0 <= k < i ==> r@[k] == s@[start + k],
        decreases N - i,
    {
        r[i] = s[start + i];
        i = i + 1;
    }
    assert(r@ =~= s@.subrange(start as int, start + N));
    r
}

/// Whether `c` is one of `0-9`, `a-f`, `A-F`.
pub open spec fn is_hex_digit(c: char) -> bool {
    ('0' as u32 <= c as u32 <= '9' as u32) || ('a' as u32 <= c as u32 <= 'f' as u32) || ('A' as u32
        <= c as u32 <= 'F' as u32)
}

/// The value of a hexadecimal digit.
pub open spec fn hex_digit_value(c: char) -> nat {
    if '0' as u32 <= c as u32 <= '9' as u32 {
        (c as u32 - '0' as u32) as nat
    } else if 'a' as u32 <= c as u32 <= 'f' as u32 {
        (c as u32 - 'a' as u32 + 10) as nat
    } else {
        (c as u32 - 'A' as u32 + 10) as nat
    }
}

/// Whether the text is an even number of hexadecimal digits.
pub open spec fn is_hex_text(s: Seq<char>) -> bool {
    &&& s.len() % 2 == 0
    &&& forall|i: int| 0 <= i < s.len() ==> is_hex_digit(#[trigger] s[i])
}

/// The bytes that hexadecimal text stands for, two digits each, the high
/// digit first.
pub open spec fn hex_bytes(s: Seq<char>) -> Seq<u8> {
    Seq::new(
        s.len() / 2,
        |i: int| (16 * hex_digit_value(s[2 * i]) + hex_digit_value(s[2 * i + 1])) as u8,
    )
}

#[verifier::external_type_specification]
#[verifier::external_body]
pub struct ExFromHexError(hex::FromHexError);

/// Relies on `hex::decode`: text of even length made only of the digits
/// `0-9`, `a-f`, `A-F` decodes to one byte per pair of digits, high digit
/// first; anything else is an error. A character outside ASCII is never a
/// digit, so reading the text as characters or as its UTF-8 bytes gives the
/// same answer.
#[verifier::external_body]
fn hex_decode(text: &str) -> (r: Result<Vec<u8>, hex::FromHexError>)
    ensures
        r is Ok <==> is_hex_text(text@),
        r is Ok ==> r->Ok_0@ == hex_bytes(text@),
{
    hex::decode(text)
}

/// Decodes a header record written as hexadecimal text. Text that is not
/// hexadecimal, or that does not hold exactly 80 bytes, is `MalformedHeader`.
pub fn header_from_hex(text: &str) -> (r: Result<Vec<u8>, ChainError>)
    ensures
        r is Ok <==> is_hex_text(text@) && text@.len() == 2 * HEADER_LEN,
        r is Ok ==> r->Ok_0@ == hex_bytes(text@),
        r is Err ==> r == Err::<Vec<u8>, ChainError>(ChainError::MalformedHeader),
{
    match hex_decode(text) {
        Ok(bytes) => {
            if bytes.len() == HEADER_LEN {
                Ok(bytes)
            } else {
                Err(ChainError::MalformedHeader)
            }
        },
        Err(_) => Err(ChainError::MalformedHeader),
    }
}

} // verus!
