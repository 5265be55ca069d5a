use core::convert::Infallible;

use mhz::Error;
use mhz::FramingReader;
use mhz::PAYLOAD_SIZE;

/// Drives the framing engine over a fixed list of reads, the way a transport
/// loop would: each slice is the outcome of one stream read, and running out
/// of reads is the stream closing.
fn run_reads(reads: &[&[u8]]) -> Result<[u8; PAYLOAD_SIZE], Error<Infallible, Infallible>> {
    let mut reader = FramingReader::new();
    for chunk in reads {
        if let Some(package) = reader.accept_chunk(chunk) {
            return Ok(package);
        }
    }
    Err(Error::ReadingEOF)
}

// Even though we have a full package available we should ignore it since we
// got more than the package length of data. That usually means this package
// is old and should be ignored.

#[test]
fn reject_one_with_trailing_data() {
    let eof_err = run_reads(&[&[255, 2, 3, 4, 5, 6, 7, 8, 9, 10]]).unwrap_err();
    assert_eq!(eof_err, Error::ReadingEOF)
}

#[test]
fn reject_two_reads_with_trailing_data() {
    let eof_err = run_reads(&[&[255, 2, 3, 4, 5, 6, 7, 8, 9, 10], &[11, 12, 13]]).unwrap_err();
    assert_eq!(eof_err, Error::ReadingEOF)
}

#[test]
fn two_packages_accept_last() {
    let package = run_reads(&[
        &[255, 2, 3, 4, 5, 6, 7, 8, 9, 10],
        &[1, 2, 3, 255, 12, 13, 14], // new package starts
        &[15, 16, 17, 18, 19],       // package ends without newer data available
    ])
    .unwrap();
    assert_eq!(package, [255, 12, 13, 14, 15, 16, 17, 18, 19])
}

#[test]
fn three_packages_accept_last() {
    let package = run_reads(&[
        &[255, 2, 3, 4, 5, 6, 7, 8, 9, 10],
        &[255, 2, 3, 4, 5, 6, 7, 8, 9, 10],
        &[255, 12, 13, 14, 15, 16, 17, 18, 19],
    ])
    .unwrap();
    assert_eq!(package, [255, 12, 13, 14, 15, 16, 17, 18, 19])
}

#[test]
fn read_second_package() {
    let package = run_reads(&[
        &[255, 2, 3, 4],
        &[5, 6, 7, 8, 9, 10], // element 10 is unexpected and too much
        &[255, 12, 13, 14, 15, 16, 17, 18, 19], // a whole package again
    ])
    .unwrap();
    assert_eq!(package, [255, 12, 13, 14, 15, 16, 17, 18, 19])
}

#[test]
fn eof() {
    let err = run_reads(&[&[255, 2, 3, 4], &[5, 6]]).unwrap_err();
    assert_eq!(err, Error::ReadingEOF)
}

#[test]
fn accept_last_package() {
    let package = run_reads(&[&[
        255, 2, 3, 4, 5, 6, 7, 8, 9, 10, 255, 22, 23, 24, 25, 26, 27, 28, 29, 255, 2, 3, 4, 5, 6,
        7, 8, 9, 10, 255, 12, 13, 14, 15, 16, 17, 18, 19,
    ]])
    .unwrap();
    assert_eq!(package, [255, 12, 13, 14, 15, 16, 17, 18, 19])
}

#[test]
fn partial_then_eof() {
    // a start marker plus three body bytes, then the stream closes
    let err = run_reads(&[&[255, 1, 2, 3]]).unwrap_err();
    assert_eq!(err, Error::ReadingEOF)
}

#[test]
fn no_marker_then_valid_packet() {
    // garbage without a start marker is consumed and ignored; the valid
    // packet in the next read comes through uncorrupted
    let package = run_reads(&[
        &[1, 2, 3, 4, 5],
        &[255, 134, 1, 0, 0, 0, 0, 0, 121],
    ])
    .unwrap();
    assert_eq!(package, [255, 134, 1, 0, 0, 0, 0, 0, 121])
}

#[test]
fn two_packets_one_read_returns_second() {
    let package = run_reads(&[&[
        255, 2, 3, 4, 5, 6, 7, 8, 9, 255, 12, 13, 14, 15, 16, 17, 18, 19,
    ]])
    .unwrap();
    assert_eq!(package, [255, 12, 13, 14, 15, 16, 17, 18, 19])
}

#[test]
fn three_packets_one_read_returns_third() {
    let package = run_reads(&[&[
        255, 2, 3, 4, 5, 6, 7, 8, 9, 255, 22, 23, 24, 25, 26, 27, 28, 29, 255, 12, 13, 14, 15, 16,
        17, 18, 19,
    ]])
    .unwrap();
    assert_eq!(package, [255, 12, 13, 14, 15, 16, 17, 18, 19])
}

#[test]
fn packet_across_many_reads() {
    // an engine fed chunk by chunk keeps its candidate across reads
    let package = run_reads(&[&[255, 134], &[1, 0], &[0, 0, 0], &[0, 121]]).unwrap();
    assert_eq!(package, [255, 134, 1, 0, 0, 0, 0, 0, 121])
}
