//! Values exchanged with the gas sensor collaborator.
//!
//! The sensor itself — its I2C transactions, command set and lifecycle —
//! is an external collaborator; this module holds the data model of one
//! reading and the CRC-8 that protects the sensor's wire words
//! (polynomial 0x31, initial value 0xFF, no final XOR).

use vstd::prelude::*;

verus! {

/// One sensor reading. Temperature and humidity are carried in tenths
/// (deci-degrees Celsius and deci-percent relative humidity), so the
/// rendering pipeline works on plain integers.
#[derive(Clone, Copy, Debug, PartialEq, Eq, Structural)]
pub struct MeasureResult {
    pub co2_ppm: u16,
    pub temp_tenths: i32,
    pub hum_tenths: u16,
}

/// One shift-and-conditionally-xor round of the CRC.
pub open spec fn crc8_round(c: u8) -> u8 {
    if c & 0x80 != 0 {
        (c << 1) ^ 0x31
    } else {
        c << 1
    }
}

/// `n` rounds of the CRC applied to a register value.
pub open spec fn crc8_rounds(c: u8, n: nat) -> u8
    decreases n,
{
    if n == 0 {
        c
    } else {
        crc8_round(crc8_rounds(c, (n - 1) as nat))
    }
}

/// The register after absorbing one input byte: xor it in, then run the
/// eight bit rounds.
pub open spec fn crc8_step(c: u8, byte: u8) -> u8 {
    crc8_rounds(c ^ byte, 8)
}

/// CRC-8 of a byte sequence, from the initial register 0xFF.
pub open spec fn crc8_of(data: Seq<u8>) -> u8
    decreases data.len(),
{
    if data.len() == 0 {
        0xff
    } else {
        crc8_step(crc8_of(data.drop_last()), data.last())
    }
}

/// Computes the sensor's CRC-8 over a message.
pub fn crc(data: &[u8]) -> (r: u8)
    ensures
        r == crc8_of(data@),
{
    let mut c: u8 = 0xff;
    let n = data.len();
    let mut i: usize = 0;
    while i < n
        invariant
            n == data@.len(),
            0 <= i <= n,
            c == crc8_of(data@.take(i as int)),
        decreases n - i,
    {
        c = c ^ data[i];
        let mut round: usize = 0;
        while round < 8
            invariant
                0 <= round <= 8,
                c == crc8_rounds(
                    crc8_of(data@.take(i as int)) ^ data@[i as int],
                    round as nat,
                ),
            decreases 8 - round,
        {
            if c & 0x80 != 0 {
                c = (c << 1) ^ 0x31;
            } else {
                c = c << 1;
            }
            round = round + 1;
        }
        proof {
            assert(data@.take(i + 1).drop_last() =~= data@.take(i as int));
            assert(data@.take(i + 1).last() == data@[i as int]);
        }
        i = i + 1;
    }
    proof {
        assert(data@.take(n as int) =~= data@);
    }
    c
}

} // verus!
