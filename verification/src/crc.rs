//! CRC-32 as used by IEEE 802.3: reflected polynomial `0xEDB88320`, register
//! preset to all ones, result inverted.

use vstd::prelude::*;

verus! {

/// The generator polynomial with its bits reflected.
pub const CRC_POLYNOMIAL: u32 = 0xEDB8_8320;

/// Preset of the register, and the value that the result is inverted with.
pub const CRC_PRESET: u32 = 0xFFFF_FFFF;

/// One step of the shift register: the lowest bit leaves, and the polynomial
/// is added when that bit was set.
pub open spec fn crc_shift(register: u32) -> u32 {
    (register >> 1) ^ (if register & 1 != 0 {
        CRC_POLYNOMIAL
    } else {
        0
    })
}

/// `count` steps of the shift register.
pub open spec fn crc_shifts(register: u32, count: nat) -> u32
    decreases count,
{
    if count == 0 {
        register
    } else {
        crc_shift(crc_shifts(register, (count - 1) as nat))
    }
}

/// The register after one more byte: the byte is added to the low bits, then
/// the register steps once per bit.
pub open spec fn crc_feed(register: u32, byte: u8) -> u32 {
    crc_shifts(register ^ (byte as u32), 8)
}

/// The register after all of `data`, starting from the preset.
pub open spec fn crc_register(data: Seq<u8>) -> u32
    decreases data.len(),
{
    if data.len() == 0 {
        CRC_PRESET
    } else {
        crc_feed(crc_register(data.drop_last()), data.last())
    }
}

/// The CRC-32 checksum of `data`.
pub open spec fn crc32_spec(data: Seq<u8>) -> u32 {
    !crc_register(data)
}

/// Feeds one byte into the register.
pub fn feed(register: u32, byte: u8) -> (next: u32)
    ensures
        next == crc_feed(register, byte),
{
    let mut crc: u32 = register ^ (byte as u32);
    let mut bit: u8 = 0;
    while bit < 8
        invariant
            bit <= 8,
            crc == crc_shifts(register ^ (byte as u32), bit as nat),
        decreases 8 - bit,
    {
        let mask: u32 = if crc & 1 != 0 {
            CRC_POLYNOMIAL
        } else {
            0
        };
        crc = (crc >> 1) ^ mask;
        bit += 1;
    }
    crc
}

/// Computes the CRC-32 checksum of `data[start..end]`.
pub fn crc32_range(data: &[u8], start: usize, end: usize) -> (crc: u32)
    requires
        start <= end <= data@.len(),
    ensures
        crc == crc32_spec(data@.subrange(start as int, end as int)),
{
    let mut crc: u32 = CRC_PRESET;
    let mut at: usize = start;
    while at < end
        invariant
            start <= at <= end <= data@.len(),
            crc == crc_register(data@.subrange(start as int, at as int)),
        decreases end - at,
    {
        proof {
            let next = data@.subrange(start as int, at + 1);
            assert(next.drop_last() =~= data@.subrange(start as int, at as int));
            assert(next.last() == data@[at as int]);
        }
        crc = feed(crc, data[at]);
        at += 1;
    }
    !crc
}

/// Computes the CRC-32 checksum of `data`.
pub fn crc32(data: &[u8]) -> (crc: u32)
    ensures
        crc == crc32_spec(data@),
{
    assert(data@.subrange(0, data@.len() as int) =~= data@);
    crc32_range(data, 0, data.len())
}

} // verus!
