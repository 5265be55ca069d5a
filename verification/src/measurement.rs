//! Packet codec: checksum arithmetic and typed decoding of response packets.
//! Stateless, pure functions; checksum validation and discriminator checks
//! are separate, separately reported conditions.

use vstd::prelude::*;

use crate::PAYLOAD_SIZE;
use crate::error::Error;
use vstd::arithmetic::div_mod::lemma_add_mod_noop;
use vstd::arithmetic::div_mod::lemma_fundamental_div_mod;
use vstd::arithmetic::div_mod::lemma_small_mod;

verus! {

/// Sum of a byte sequence with 8-bit wraparound.
pub open spec fn wrapping_sum(s: Seq<u8>) -> u8
    decreases s.len(),
{
    if s.len() == 0 {
        0u8
    } else {
        ((wrapping_sum(s.drop_last()) + s.last()) % 256) as u8
    }
}

/// Bitwise complement plus one with 8-bit wraparound: the two's-complement
/// negation the sensor uses to form its checksum byte.
pub open spec fn complement_inc(x: u8) -> u8 {
    (((!x) + 1) % 256) as u8
}

/// The checksum the sensor expects in byte 8: interior bytes 1..=7 summed
/// modulo 256, complemented, plus one.
pub open spec fn spec_checksum(p: Seq<u8>) -> u8 {
    complement_inc(wrapping_sum(p.subrange(1, 8)))
}

/// A packet is checksum-valid when its byte 8 carries the checksum of its
/// interior bytes.
pub open spec fn spec_checksum_valid(p: Seq<u8>) -> bool {
    spec_checksum(p) == p[8]
}

/// A 16-bit field read big-endian from two bytes.
pub open spec fn be_u16(hi: u8, lo: u8) -> u16 {
    (hi * 256 + lo) as u16
}

/// Decoded response to the "read final CO2" command.
#[derive(Debug, Clone, Copy, PartialEq, Eq)]
pub struct Measurement {
    /// CO2 concentration, PPM.
    pub co2: u16,
    /// Temperature, degrees Celsius plus 40.
    pub temp: u8,
    /// If ABC is turned on - counter in "ticks" within a calibration cycle.
    pub calib_ticks: u8,
    /// If ABC is turned on - the number of performed calibration cycles.
    pub calib_cycles: u8,
}

/// Decoded response to the "read raw CO2" command.
#[derive(Debug, Clone, Copy, PartialEq, Eq)]
pub struct RawMeasurement {
    /// Smoothed temperature ADC value.
    pub adc_temp: u16,
    /// CO2 level before clamping.
    pub co2: u16,
    /// Minimum light ADC value.
    pub adc_min_light: u16,
}

/// What a final-CO2 response packet decodes to: its fields when the header
/// bytes match, nothing otherwise. The checksum is no concern of decoding.
pub open spec fn spec_parse_measurement(p: Seq<u8>) -> Option<Measurement> {
    if p[0] == 0xffu8 && p[1] == 0x86u8 {
        Some(
            Measurement {
                co2: be_u16(p[2], p[3]),
                temp: p[4],
                calib_ticks: p[5],
                calib_cycles: p[6],
            },
        )
    } else {
        None
    }
}

/// What a raw-CO2 response packet decodes to.
pub open spec fn spec_parse_raw_measurement(p: Seq<u8>) -> Option<RawMeasurement> {
    if p[0] == 0xffu8 && p[1] == 0x85u8 {
        Some(
            RawMeasurement {
                adc_temp: be_u16(p[2], p[3]),
                co2: be_u16(p[4], p[5]),
                adc_min_light: be_u16(p[6], p[7]),
            },
        )
    } else {
        None
    }
}

/// The plain integer sum of a byte sequence, without wraparound.
pub open spec fn sum_int(s: Seq<u8>) -> int
    decreases s.len(),
{
    if s.len() == 0 {
        0
    } else {
        sum_int(s.drop_last()) + s.last()
    }
}

/// The wrapping sum is the plain sum reduced modulo 256.
pub proof fn lemma_wrapping_sum_is_mod(s: Seq<u8>)
    ensures
        wrapping_sum(s) == sum_int(s) % 256,
        sum_int(s) >= 0,
    decreases s.len(),
{
    if s.len() > 0 {
        lemma_wrapping_sum_is_mod(s.drop_last());
        lemma_small_mod(s.last() as nat, 256);
        lemma_add_mod_noop(sum_int(s.drop_last()), s.last() as int, 256);
    }
}

/// Replacing one byte shifts the plain sum by exactly the byte's change.
pub proof fn lemma_sum_int_update(s: Seq<u8>, i: int, v: u8)
    requires
        0 <= i < s.len(),
    ensures
        sum_int(s.update(i, v)) == sum_int(s) - s[i] + v,
    decreases s.len(),
{
    if i == s.len() - 1 {
        assert(s.update(i, v).drop_last() =~= s.drop_last());
    } else {
        assert(s.update(i, v).drop_last() =~= s.drop_last().update(i, v));
        lemma_sum_int_update(s.drop_last(), i, v);
    }
}

/// The complement-plus-one transform, written arithmetically: it negates its
/// argument modulo 256.
pub proof fn lemma_complement_inc_formula(x: u8)
    ensures
        complement_inc(x) == if x == 0 {
            0u8
        } else {
            (256 - x) as u8
        },
{
    assert(complement_inc(x) == if x == 0 {
        0u8
    } else {
        (256 - x) as u8
    }) by (bit_vector);
}

/// Law: the checksum transform is an involution. For the interior sum of any
/// 7-byte sequence, applying the complement-plus-one negation twice gives the
/// sum back unchanged.
pub proof fn lemma_checksum_involution(s: Seq<u8>)
    requires
        s.len() == 7,
    ensures
        complement_inc(complement_inc(wrapping_sum(s))) == wrapping_sum(s),
{
    let x = wrapping_sum(s);
    lemma_complement_inc_formula(x);
    lemma_complement_inc_formula(complement_inc(x));
}

/// Law: changing any single interior byte of a checksum-valid packet
/// invalidates the checksum.
pub proof fn lemma_interior_corruption_invalidates(p: Seq<u8>, i: int, v: u8)
    requires
        p.len() == PAYLOAD_SIZE,
        spec_checksum_valid(p),
        1 <= i <= 7,
        v != p[i],
    ensures
        !spec_checksum_valid(p.update(i, v)),
{
    let q = p.update(i, v);
    let psub = p.subrange(1, 8);
    let qsub = q.subrange(1, 8);
    assert(qsub =~= psub.update(i - 1, v));
    lemma_sum_int_update(psub, i - 1, v);
    lemma_wrapping_sum_is_mod(psub);
    lemma_wrapping_sum_is_mod(qsub);
    // The two interior sums differ modulo 256, because they differ by the
    // byte's change, which is nonzero and strictly within one wraparound.
    let a = sum_int(psub);
    let b = sum_int(qsub);
    assert(b == a - psub[i - 1] + v);
    lemma_fundamental_div_mod(a, 256);
    lemma_fundamental_div_mod(b, 256);
    assert(wrapping_sum(psub) != wrapping_sum(qsub));
    lemma_complement_inc_formula(wrapping_sum(psub));
    lemma_complement_inc_formula(wrapping_sum(qsub));
    assert(q[8] == p[8]);
}

/// Law: a packet built from a measurement's field values decodes back to
/// exactly those values, whatever the two trailing bytes hold.
pub proof fn lemma_measurement_round_trip(
    co2: u16,
    temp: u8,
    calib_ticks: u8,
    calib_cycles: u8,
    b7: u8,
    b8: u8,
)
    ensures
        ({
            let p = seq![
                0xffu8,
                0x86u8,
                (co2 / 256) as u8,
                (co2 % 256) as u8,
                temp,
                calib_ticks,
                calib_cycles,
                b7,
                b8,
            ];
            spec_parse_measurement(p) == Some(
                Measurement { co2, temp, calib_ticks, calib_cycles },
            )
        }),
{
    lemma_fundamental_div_mod(co2 as int, 256);
}

/// Computes the checksum over bytes 1..=7 of a packet.
pub fn checksum(bytes: &[u8; PAYLOAD_SIZE]) -> (r: u8)
    ensures
        r == spec_checksum(bytes@),
{
    let mut acc: u8 = 0;
    let mut i: usize = 1;
    while i < 8
        invariant
            1 <= i <= 8,
            acc == wrapping_sum(bytes@.subrange(1, i as int)),
        decreases 8 - i,
    {
        proof {
            assert(bytes@.subrange(1, i + 1).drop_last() =~= bytes@.subrange(1, i as int));
            assert(bytes@.subrange(1, i + 1).last() == bytes@[i as int]);
        }
        acc = acc.wrapping_add(bytes[i]);
        i = i + 1;
    }
    (!acc).wrapping_add(1)
}

/// Tells whether byte 8 of the packet matches the checksum of its interior.
pub fn checksum_valid(bytes: &[u8; PAYLOAD_SIZE]) -> (r: bool)
    ensures
        r == spec_checksum_valid(bytes@),
{
    checksum(bytes) == bytes[8]
}

impl Measurement {
    /// Decodes a final-CO2 response. The header must carry the start marker
    /// and the final-reading discriminator; the checksum is the caller's
    /// business and must have been checked before.
    pub fn parse_response<RxError, TxError>(p: [u8; PAYLOAD_SIZE]) -> (r: Result<
        Self,
        Error<RxError, TxError>,
    >)
        ensures
            r is Ok <==> (p@[0] == 0xffu8 && p@[1] == 0x86u8),
            r is Ok ==> r == Ok::<Self, Error<RxError, TxError>>(
                spec_parse_measurement(p@).unwrap(),
            ),
            r is Err ==> r == Err::<Self, Error<RxError, TxError>>(Error::InvalidPacket),
    {
        if p[0] != 0xff || p[1] != 0x86 {
            return Err(Error::InvalidPacket);
        }
        Ok(
            Measurement {
                co2: (p[2] as u16) * 256 + (p[3] as u16),
                temp: p[4],
                calib_ticks: p[5],
                calib_cycles: p[6],
            },
        )
    }
}

impl RawMeasurement {
    /// Decodes a raw-CO2 response, under the raw-reading discriminator.
    pub fn parse_response<RxError, TxError>(p: [u8; PAYLOAD_SIZE]) -> (r: Result<
        Self,
        Error<RxError, TxError>,
    >)
        ensures
            r is Ok <==> (p@[0] == 0xffu8 && p@[1] == 0x85u8),
            r is Ok ==> r == Ok::<Self, Error<RxError, TxError>>(
                spec_parse_raw_measurement(p@).unwrap(),
            ),
            r is Err ==> r == Err::<Self, Error<RxError, TxError>>(Error::InvalidPacket),
    {
        if p[0] != 0xff || p[1] != 0x85 {
            return Err(Error::InvalidPacket);
        }
        Ok(
            RawMeasurement {
                adc_temp: (p[2] as u16) * 256 + (p[3] as u16),
                co2: (p[4] as u16) * 256 + (p[5] as u16),
                adc_min_light: (p[6] as u16) * 256 + (p[7] as u16),
            },
        )
    }
}

/// Validates and decodes a final-CO2 response packet, in the order the
/// transaction demands: checksum first, header second.
pub fn decode_co2_response<TxError, RxError>(p: [u8; PAYLOAD_SIZE]) -> (r: Result<
    Measurement,
    Error<TxError, RxError>,
>)
    ensures
        !spec_checksum_valid(p@) ==> r == Err::<Measurement, Error<TxError, RxError>>(
            Error::InvalidChecksum,
        ),
        spec_checksum_valid(p@) ==> match spec_parse_measurement(p@) {
            Some(m) => r == Ok::<Measurement, Error<TxError, RxError>>(m),
            None => r == Err::<Measurement, Error<TxError, RxError>>(Error::InvalidPacket),
        },
{
    if !checksum_valid(&p) {
        return Err(Error::InvalidChecksum);
    }
    Measurement::parse_response(p)
}

/// Validates and decodes a raw-CO2 response packet: checksum first, header
/// second.
pub fn decode_raw_co2_response<TxError, RxError>(p: [u8; PAYLOAD_SIZE]) -> (r: Result<
    RawMeasurement,
    Error<TxError, RxError>,
>)
    ensures
        !spec_checksum_valid(p@) ==> r == Err::<RawMeasurement, Error<TxError, RxError>>(
            Error::InvalidChecksum,
        ),
        spec_checksum_valid(p@) ==> match spec_parse_raw_measurement(p@) {
            Some(m) => r == Ok::<RawMeasurement, Error<TxError, RxError>>(m),
            None => r == Err::<RawMeasurement, Error<TxError, RxError>>(Error::InvalidPacket),
        },
{
    if !checksum_valid(&p) {
        return Err(Error::InvalidChecksum);
    }
    RawMeasurement::parse_response(p)
}

} // verus!
