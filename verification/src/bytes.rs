//! Little-endian byte encoding of 32-bit lengths.

use vstd::prelude::*;

verus! {

/// The four bytes of `value`, least significant first.
pub open spec fn le_bytes(value: u32) -> Seq<u8> {
    seq![
        (value as int % 256) as u8,
        (value as int / 256 % 256) as u8,
        (value as int / 65536 % 256) as u8,
        (value as int / 16777216 % 256) as u8,
    ]
}

/// The number whose little-endian encoding starts `bytes`.
pub open spec fn le_value(bytes: Seq<u8>) -> int
    recommends
        bytes.len() >= 4,
{
    bytes[0] as int + 256 * (bytes[1] as int) + 65536 * (bytes[2] as int) + 16777216 * (
    bytes[3] as int)
}

/// Decoding the encoding of a 32-bit number gives the number back.
pub proof fn lemma_le_bytes_round_trip(value: u32)
    ensures
        le_bytes(value).len() == 4,
        le_value(le_bytes(value)) == value,
{
}

/// Encoding the number read from four bytes gives the same four bytes.
pub proof fn lemma_le_value_round_trip(bytes: Seq<u8>)
    requires
        bytes.len() == 4,
    ensures
        0 <= le_value(bytes) <= u32::MAX,
        le_bytes(le_value(bytes) as u32) == bytes,
{
    assert(le_bytes(le_value(bytes) as u32) =~= bytes);
}

/// Numbers that have a little-endian encoding.
pub trait IntoLeBytes: Sized {
    type Bytes;

    /// Whether `bytes` is the little-endian encoding of `self`.
    spec fn encodes(self, bytes: Self::Bytes) -> bool;

    fn into_le_bytes(self) -> (bytes: Self::Bytes)
        ensures
            self.encodes(bytes),
    ;
}

/// Numbers that can be read from their little-endian encoding.
pub trait FromLeBytes<T> {
    type Bytes;

    /// The value that `buf` encodes.
    spec fn decodes(buf: Self::Bytes) -> T;

    fn from_le_bytes(buf: Self::Bytes) -> (value: T)
        ensures
            value == Self::decodes(buf),
    ;
}

impl IntoLeBytes for u32 {
    type Bytes = [u8; 4];

    open spec fn encodes(self, bytes: [u8; 4]) -> bool {
        bytes@ == le_bytes(self)
    }

    fn into_le_bytes(self) -> (bytes: [u8; 4]) {
        let b1: u8 = ((self >> 24) & 0xff) as u8;
        let b2: u8 = ((self >> 16) & 0xff) as u8;
        let b3: u8 = ((self >> 8) & 0xff) as u8;
        let b4: u8 = (self & 0xff) as u8;
        assert(self & 0xff == self % 256) by (bit_vector);
        assert((self >> 8) & 0xff == self / 256 % 256) by (bit_vector);
        assert((self >> 16) & 0xff == self / 65536 % 256) by (bit_vector);
        assert((self >> 24) & 0xff == self / 16777216 % 256) by (bit_vector);
        let bytes = [b4, b3, b2, b1];
        assert(bytes@ =~= le_bytes(self));
        bytes
    }
}

impl FromLeBytes<u32> for u32 {
    type Bytes = [u8; 4];

    open spec fn decodes(buf: [u8; 4]) -> u32 {
        le_value(buf@) as u32
    }

    fn from_le_bytes(buf: [u8; 4]) -> (value: u32) {
        let b0: u32 = buf[0] as u32;
        let b1: u32 = buf[1] as u32;
        let b2: u32 = buf[2] as u32;
        let b3: u32 = buf[3] as u32;
        assert(b1 << 8 == b1 * 256) by (bit_vector)
            requires
                b1 < 256,
        ;
        assert(b2 << 16 == b2 * 65536) by (bit_vector)
            requires
                b2 < 256,
        ;
        assert(b3 << 24 == b3 * 16777216) by (bit_vector)
            requires
                b3 < 256,
        ;
        b0 + (b1 << 8) + (b2 << 16) + (b3 << 24)
    }
}

} // verus!
