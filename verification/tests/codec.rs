use mhz::Error;
use mhz::Measurement;
use mhz::RawMeasurement;
use mhz::checksum;
use mhz::checksum_valid;
use mhz::commands;
use mhz::decode_co2_response;
use mhz::decode_raw_co2_response;
use mhz::max;
use mhz::MHZ;
use mhz::PAYLOAD_SIZE;

#[test]
fn parse_measurement() {
    let p = [0xFF, 0x86, 0x01, 0x00, 0x00, 0x00, 0x00, 0x00, 0x79];
    Measurement::parse_response::<(), ()>(p).unwrap();

    // checksum mismatch
    let p = [0xFF, 0x86, 0x01, 0x00, 0x00, 0x00, 0x00, 0x00, 0x78];
    assert!(!checksum_valid(&p));

    // invalid command field
    let p = [0xFF, 0x87, 0x01, 0x00, 0x00, 0x00, 0x00, 0x00, 0x78];
    assert!(checksum_valid(&p));
    Measurement::parse_response::<(), ()>(p).unwrap_err();

    // byte0 is not 0xFF
    let p = [0xFE, 0x86, 0x01, 0x00, 0x00, 0x00, 0x00, 0x00, 0x79];
    assert!(checksum_valid(&p));
    Measurement::parse_response::<(), ()>(p).unwrap_err();
}

#[test]
fn packet_checksum() {
    let p = [0xFF, 0x86, 0x01, 0x00, 0x00, 0x00, 0x00, 0x00, 0x79];
    assert!(checksum_valid(&p));

    for i in 1..PAYLOAD_SIZE - 1 {
        let mut corrupted = p;
        corrupted[i] = corrupted[i].wrapping_add(1);
        assert!(!checksum_valid(&corrupted));
    }

    assert!(checksum_valid(&commands::READ_CO2));
    assert!(checksum_valid(&commands::READ_RAW_CO2));
}

#[test]
fn checksum_exact_value() {
    assert_eq!(checksum(&commands::READ_CO2), 0x79);
    assert_eq!(checksum(&commands::READ_RAW_CO2), 0x7a);
    assert_eq!(checksum(&[0xFF, 0x86, 0x01, 0x00, 0x00, 0x00, 0x00, 0x00, 0x00]), 0x79);
}

#[test]
fn decode_measurement_fields() {
    let p = [0xFF, 0x86, 0x01, 0x00, 0x00, 0x00, 0x00, 0x00, 0x79];
    let m = decode_co2_response::<(), ()>(p).unwrap();
    assert_eq!(m.co2, 256);
    assert_eq!(m.temp, 0);
    assert_eq!(m.calib_ticks, 0);
    assert_eq!(m.calib_cycles, 0);
}

#[test]
fn decode_rejects_bad_checksum() {
    // last byte corrupted on an otherwise valid packet
    let p = [0xFF, 0x86, 0x01, 0x00, 0x00, 0x00, 0x00, 0x00, 0x78];
    assert!(!checksum_valid(&p));
    let err = decode_co2_response::<(), ()>(p).unwrap_err();
    assert_eq!(err, Error::InvalidChecksum);
}

#[test]
fn decode_rejects_unknown_discriminator() {
    // byte 1 changed, checksum recomputed so it is valid for the new bytes
    let p = [0xFF, 0x87, 0x01, 0x00, 0x00, 0x00, 0x00, 0x00, 0x78];
    assert!(checksum_valid(&p));
    let err = decode_co2_response::<(), ()>(p).unwrap_err();
    assert_eq!(err, Error::InvalidPacket);
}

#[test]
fn decode_raw_measurement_fields() {
    let p = [0xFF, 0x85, 0x12, 0x34, 0x01, 0x02, 0x00, 0x05, 0x2D];
    assert!(checksum_valid(&p));
    let m = decode_raw_co2_response::<(), ()>(p).unwrap();
    assert_eq!(m.adc_temp, 0x1234);
    assert_eq!(m.co2, 0x0102);
    assert_eq!(m.adc_min_light, 5);

    let err = RawMeasurement::parse_response::<(), ()>([
        0xFF, 0x86, 0x01, 0x00, 0x00, 0x00, 0x00, 0x00, 0x79,
    ])
    .unwrap_err();
    assert_eq!(err, Error::InvalidPacket);
}

#[test]
fn max_picks_larger() {
    assert_eq!(max(3, 7), 7);
    assert_eq!(max(7, 3), 7);
    assert_eq!(max(5, 5), 5);
}

#[test]
fn from_tx_rx_keeps_halves() {
    let dev = MHZ::from_tx_rx(1u8, 2u16);
    assert_eq!(dev.uart_tx, 1);
    assert_eq!(dev.uart_rx, 2);
}
