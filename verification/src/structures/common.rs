//! What the structure parsers share: their error, and little-endian fields.
use vstd::prelude::*;

verus! {

/// The data does not hold the structure that was asked for.
#[derive(Debug, Clone, Copy, PartialEq, Eq, Structural)]
pub struct StructureError;

/// The little-endian 16-bit value whose first byte is `data[at]`.
pub open spec fn le16(data: Seq<u8>, at: int) -> int {
    data[at] + 0x100 * data[at + 1]
}

/// The little-endian 32-bit value whose first byte is `data[at]`.
pub open spec fn le32(data: Seq<u8>, at: int) -> int {
    le16(data, at) + 0x1_0000 * le16(data, at + 2)
}

/// Reads a little-endian `u16` field as a size.
pub fn read_le16(data: &[u8], at: usize) -> (value: usize)
    requires
        at + 2 <= data.len(),
    ensures
        value == le16(data@, at as int),
        value == data@[at as int] + 0x100 * data@[at + 1],
        value <= u16::MAX,
{
    data[at] as usize + 0x100 * data[at + 1] as usize
}

/// Reads a little-endian `u32` field as a size.
pub fn read_le32(data: &[u8], at: usize) -> (value: usize)
    requires
        at + 4 <= data.len(),
    ensures
        value == le32(data@, at as int),
        value == data@[at as int] + 0x100 * data@[at + 1] + 0x1_0000 * data@[at + 2] + 0x100_0000
            * data@[at + 3],
        value <= u32::MAX,
{
    read_le16(data, at) + 0x1_0000 * read_le16(data, at + 2)
}

/// The two bytes of a little-endian 16-bit value.
pub open spec fn le16_bytes(value: int) -> Seq<u8> {
    seq![(value % 0x100) as u8, (value / 0x100) as u8]
}

/// The four bytes of a little-endian 32-bit value.
pub open spec fn le32_bytes(value: int) -> Seq<u8> {
    le16_bytes(value % 0x1_0000) + le16_bytes(value / 0x1_0000)
}

/// A 16-bit field reads back as the value that was stored in it.
pub proof fn law_le16_reads_back(data: Seq<u8>, at: int, value: int)
    requires
        0 <= value <= u16::MAX,
        0 <= at,
        at + 2 <= data.len(),
        data.subrange(at, at + 2) == le16_bytes(value),
    ensures
        le16(data, at) == value,
{
    let bytes = data.subrange(at, at + 2);
    assert(data[at] == bytes[0] && data[at + 1] == bytes[1]);
}

/// A 32-bit field reads back as the value that was stored in it.
pub proof fn law_le32_reads_back(data: Seq<u8>, at: int, value: int)
    requires
        0 <= value <= u32::MAX,
        0 <= at,
        at + 4 <= data.len(),
        data.subrange(at, at + 4) == le32_bytes(value),
    ensures
        le32(data, at) == value,
{
    let bytes = data.subrange(at, at + 4);
    assert(data.subrange(at, at + 2) =~= bytes.subrange(0, 2));
    assert(bytes.subrange(0, 2) =~= le16_bytes(value % 0x1_0000));
    assert(data.subrange(at + 2, at + 4) =~= bytes.subrange(2, 4));
    assert(bytes.subrange(2, 4) =~= le16_bytes(value / 0x1_0000));
    law_le16_reads_back(data, at, value % 0x1_0000);
    law_le16_reads_back(data, at + 2, value / 0x1_0000);
}

/// What a 16-bit field reads as, stored again, is the field.
pub proof fn law_le16_is_stored_back(data: Seq<u8>, at: int)
    requires
        0 <= at,
        at + 2 <= data.len(),
    ensures
        le16_bytes(le16(data, at)) == data.subrange(at, at + 2),
        0 <= le16(data, at) <= u16::MAX,
{
    assert(le16_bytes(le16(data, at)) =~= data.subrange(at, at + 2));
}

/// What a 32-bit field reads as, stored again, is the field.
pub proof fn law_le32_is_stored_back(data: Seq<u8>, at: int)
    requires
        0 <= at,
        at + 4 <= data.len(),
    ensures
        le32_bytes(le32(data, at)) == data.subrange(at, at + 4),
        0 <= le32(data, at) <= u32::MAX,
{
    law_le16_is_stored_back(data, at);
    law_le16_is_stored_back(data, at + 2);
    assert(le32(data, at) % 0x1_0000 == le16(data, at));
    assert(le32(data, at) / 0x1_0000 == le16(data, at + 2));
    assert(data.subrange(at, at + 4) =~= data.subrange(at, at + 2) + data.subrange(
        at + 2,
        at + 4,
    ));
}

} // verus!
