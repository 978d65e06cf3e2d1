//! Bit-by-bit CRC-32C (Castagnoli) and CRC-16-IBM, without lookup tables.
use vstd::prelude::*;

verus! {

/// One shift of the reflected CRC-32C register (polynomial 0x82F63B78).
pub open spec fn crc32c_shift(crc: u32) -> u32 {
    if crc & 1 != 0 {
        (crc >> 1) ^ 0x82F63B78u32
    } else {
        crc >> 1
    }
}

/// `n` shifts of the CRC-32C register.
pub open spec fn crc32c_shifts(crc: u32, n: nat) -> u32
    decreases n,
{
    if n == 0 {
        crc
    } else {
        crc32c_shift(crc32c_shifts(crc, (n - 1) as nat))
    }
}

/// The CRC-32C register after feeding one byte.
pub open spec fn crc32c_byte(crc: u32, b: u8) -> u32 {
    crc32c_shifts(crc ^ (b as u32), 8)
}

/// The CRC-32C register after feeding `bytes`, starting from `crc`.
pub open spec fn crc32c_register(crc: u32, bytes: Seq<u8>) -> u32
    decreases bytes.len(),
{
    if bytes.len() == 0 {
        crc
    } else {
        crc32c_byte(crc32c_register(crc, bytes.drop_last()), bytes.last())
    }
}

/// CRC-32C of a byte sequence: initial value all ones, final complement.
pub open spec fn spec_crc32c(bytes: Seq<u8>) -> u32 {
    !crc32c_register(0xFFFF_FFFFu32, bytes)
}

/// One shift of the MSB-first CRC-16 register (polynomial 0x8005).
pub open spec fn crc16_shift(crc: u16) -> u16 {
    if crc & 0x8000 != 0 {
        ((crc << 1u16) ^ 0x8005u16) as u16
    } else {
        (crc << 1u16) as u16
    }
}

/// `n` shifts of the CRC-16 register.
pub open spec fn crc16_shifts(crc: u16, n: nat) -> u16
    decreases n,
{
    if n == 0 {
        crc
    } else {
        crc16_shift(crc16_shifts(crc, (n - 1) as nat))
    }
}

/// The CRC-16 register after feeding one byte into its high half.
pub open spec fn crc16_byte(crc: u16, b: u8) -> u16 {
    crc16_shifts(crc ^ (((b as u16) << 8u16) as u16), 8)
}

/// The CRC-16 register after feeding `bytes`, starting from `crc`.
pub open spec fn crc16_register(crc: u16, bytes: Seq<u8>) -> u16
    decreases bytes.len(),
{
    if bytes.len() == 0 {
        crc
    } else {
        crc16_byte(crc16_register(crc, bytes.drop_last()), bytes.last())
    }
}

/// CRC-16-IBM of a byte sequence: initial value zero, no final XOR.
pub open spec fn spec_crc16_ibm(bytes: Seq<u8>) -> u16 {
    crc16_register(0u16, bytes)
}

/// CRC-32C (Castagnoli), computed one bit at a time.
pub fn crc32c(buf: &[u8]) -> (res: u32)
    ensures
        res == spec_crc32c(buf@),
{
    let mut crc: u32 = 0xFFFF_FFFF;
    let mut i: usize = 0;
    while i < buf.len()
        invariant
            i <= buf.len(),
            crc == crc32c_register(0xFFFF_FFFFu32, buf@.take(i as int)),
        decreases buf.len() - i,
    {
        let b = buf[i];
        assert(buf@.take(i + 1).drop_last() =~= buf@.take(i as int));
        let start = crc ^ (b as u32);
        crc = start;
        let mut k: usize = 0;
        while k < 8
            invariant
                k <= 8,
                crc == crc32c_shifts(start, k as nat),
            decreases 8 - k,
        {
            crc = if crc & 1 != 0 {
                (crc >> 1) ^ 0x82F6_3B78
            } else {
                crc >> 1
            };
            k += 1;
        }
        i += 1;
    }
    assert(buf@.take(buf.len() as int) =~= buf@);
    !crc
}

/// CRC-16-IBM (polynomial 0x8005, initial 0, no final XOR), computed one bit at a time.
pub fn crc16_ibm(buf: &[u8]) -> (res: u16)
    ensures
        res == spec_crc16_ibm(buf@),
{
    let mut crc: u16 = 0;
    let mut i: usize = 0;
    while i < buf.len()
        invariant
            i <= buf.len(),
            crc == crc16_register(0u16, buf@.take(i as int)),
        decreases buf.len() - i,
    {
        let b = buf[i];
        assert(buf@.take(i + 1).drop_last() =~= buf@.take(i as int));
        let start: u16 = crc ^ ((b as u16) << 8u16);
        crc = start;
        let mut k: usize = 0;
        while k < 8
            invariant
                k <= 8,
                crc == crc16_shifts(start, k as nat),
            decreases 8 - k,
        {
            crc = if crc & 0x8000 != 0 {
                (crc << 1u16) ^ 0x8005
            } else {
                crc << 1u16
            };
            k += 1;
        }
        i += 1;
    }
    assert(buf@.take(buf.len() as int) =~= buf@);
    crc
}

} // verus!
