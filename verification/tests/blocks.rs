use enx_wasm_parser::bytes::{read_i16, read_i32, read_u16, u16_le, i16_le};
use enx_wasm_parser::echo_intensity::EchoIntensityBlock;
use enx_wasm_parser::error::{BlockKind, ParseError};
use enx_wasm_parser::fixed_leader::FixedLeader;
use enx_wasm_parser::header::Header;
use enx_wasm_parser::variable_leader::VariableLeader;
use enx_wasm_parser::velocity::{VelocityBin, VelocityBlock};
use enx_wasm_parser::vmdas_nav::{is_valid_coord, VmDasNav};

fn fixed_leader_block(num_cells: u8, cell_size_cm: u16, blank_cm: u16) -> Vec<u8> {
    let mut b = vec![0u8; 59];
    b[9] = num_cells;
    b[12..14].copy_from_slice(&cell_size_cm.to_le_bytes());
    b[14..16].copy_from_slice(&blank_cm.to_le_bytes());
    b
}

fn variable_leader_block(time: [u8; 7], depth_dm: u16) -> Vec<u8> {
    let mut b = vec![0u8; 65];
    b[0..2].copy_from_slice(&0x0080u16.to_le_bytes());
    b[4..11].copy_from_slice(&time);
    b[16..18].copy_from_slice(&depth_dm.to_le_bytes());
    b
}

fn velocity_block(bins: &[(i16, i16, i16)]) -> Vec<u8> {
    let mut b = 0x0100u16.to_le_bytes().to_vec();
    for &(u, v, w) in bins {
        b.extend_from_slice(&u.to_le_bytes());
        b.extend_from_slice(&v.to_le_bytes());
        b.extend_from_slice(&w.to_le_bytes());
        b.extend_from_slice(&0i16.to_le_bytes());
    }
    b
}

fn echo_block(bins: &[[u8; 4]]) -> Vec<u8> {
    let mut b = 0x0300u16.to_le_bytes().to_vec();
    for beams in bins {
        b.extend_from_slice(beams);
    }
    b
}

fn nav_block(first: (i32, i32), last: (i32, i32)) -> Vec<u8> {
    let mut b = vec![0u8; 92];
    b[0..2].copy_from_slice(&0x2000u16.to_le_bytes());
    b[14..18].copy_from_slice(&first.0.to_le_bytes());
    b[18..22].copy_from_slice(&first.1.to_le_bytes());
    b[26..30].copy_from_slice(&last.0.to_le_bytes());
    b[30..34].copy_from_slice(&last.1.to_le_bytes());
    b
}

#[test]
fn little_endian_readers() {
    assert_eq!(u16_le(0x34, 0x12), 0x1234);
    assert_eq!(i16_le(0x00, 0x80), -32768);
    assert_eq!(i16_le(0xFF, 0xFF), -1);
    assert_eq!(i16_le(0xFF, 0x7F), 32767);
    let buf = [0x01u8, 0x02, 0xFE, 0xFF, 0xFF, 0xFF, 0x00, 0x00, 0x00, 0x80];
    assert_eq!(read_u16(&buf, 0), 0x0201);
    assert_eq!(read_i16(&buf, 2), -2);
    assert_eq!(read_i32(&buf, 2), -2);
    assert_eq!(read_i32(&buf, 6), i32::MIN);
    assert_eq!(read_i32(&[0x78, 0x56, 0x34, 0x12], 0), 0x12345678);
}

#[test]
fn header_parses_offsets_and_block_ids() {
    // magic, length 20, reserved, 2 types, offsets 10 and 14
    let mut buf = vec![0x7F, 0x7F, 20, 0, 0, 2, 10, 0, 14, 0];
    buf.extend_from_slice(&[0x00, 0x00, 0xAA, 0xBB]); // block at 10: ID 0x0000
    buf.extend_from_slice(&[0x80, 0x00, 0xCC, 0xDD]); // block at 14: ID 0x0080
    let h = Header::parse(&buf).unwrap();
    assert_eq!(h.bytes_in_ensemble, 20);
    assert_eq!(h.offsets, vec![(0x0000, 10), (0x0080, 14)]);
}

#[test]
fn header_errors() {
    assert_eq!(Header::parse(&[0x7F, 0x7F, 0, 0, 0]).err(), Some(ParseError::HeaderTooShort));
    assert_eq!(
        Header::parse(&[0x7F, 0x7E, 0, 0, 0, 0]).err(),
        Some(ParseError::BadMagic { first: 0x7F, second: 0x7E })
    );
    assert_eq!(Header::parse(&[0x7F, 0x7F, 0, 0, 0, 2, 8, 0]).err(), Some(ParseError::OffsetTableTooShort));
    // offset 9 leaves one byte: no room for an ID
    assert_eq!(
        Header::parse(&[0x7F, 0x7F, 0, 0, 0, 1, 9, 0, 0, 0]).err(),
        Some(ParseError::OffsetOutsideEnsemble { offset: 9, index: 0 })
    );
    // offset 9 fits in the data (12 bytes) but not in the 10-byte ensemble
    assert_eq!(
        Header::parse(&[0x7F, 0x7F, 8, 0, 0, 1, 9, 0, 0, 0, 0, 0]).err(),
        Some(ParseError::OffsetOutsideEnsemble { offset: 9, index: 0 })
    );
    let ok = Header::parse(&[0x7F, 0x7F, 9, 0, 0, 0]).unwrap();
    assert_eq!(ok.bytes_in_ensemble, 9);
    assert!(ok.offsets.is_empty());
}

#[test]
fn fixed_leader_fields() {
    let fl = FixedLeader::parse(&fixed_leader_block(30, 400, 176)).unwrap();
    assert_eq!(fl, FixedLeader { num_cells: 30, cell_size_cm: 400, blank_distance_cm: 176 });
}

#[test]
fn fixed_leader_errors() {
    assert_eq!(
        FixedLeader::parse(&vec![0u8; 58]).err(),
        Some(ParseError::BlockTooShort { kind: BlockKind::FixedLeader, len: 58, expected: 59 })
    );
    let mut b = fixed_leader_block(1, 1, 1);
    b[0] = 0x80;
    assert_eq!(
        FixedLeader::parse(&b).err(),
        Some(ParseError::WrongBlockId { kind: BlockKind::FixedLeader, found: 0x0080 })
    );
}

#[test]
fn variable_leader_timestamp_and_depth() {
    let vl = VariableLeader::parse(&variable_leader_block([23, 7, 14, 12, 34, 56, 0], 52)).unwrap();
    assert_eq!(vl.timestamp, "2023-07-14T12:34:56.00Z");
    assert_eq!(vl.timestamp.len(), 23);
    assert_eq!(vl.transducer_depth_dm, 52);
    let vl = VariableLeader::parse(&variable_leader_block([5, 1, 2, 3, 4, 5, 99], 0)).unwrap();
    assert_eq!(vl.timestamp, "2005-01-02T03:04:05.99Z");
}

#[test]
fn variable_leader_wide_fields_are_not_truncated() {
    // {:02} pads but never cuts: a byte of 123 prints as three digits
    let vl = VariableLeader::parse(&variable_leader_block([255, 123, 7, 200, 0, 9, 100], 0)).unwrap();
    assert_eq!(vl.timestamp, "2255-123-07T200:00:09.100Z");
}

#[test]
fn variable_leader_errors() {
    assert_eq!(
        VariableLeader::parse(&vec![0u8; 55]).err(),
        Some(ParseError::BlockTooShort { kind: BlockKind::VariableLeader, len: 55, expected: 56 })
    );
    let mut b = variable_leader_block([0; 7], 0);
    b[0] = 0x00;
    assert_eq!(
        VariableLeader::parse(&b).err(),
        Some(ParseError::WrongBlockId { kind: BlockKind::VariableLeader, found: 0x0000 })
    );
}

#[test]
fn velocity_sentinel_marks_missing_bins() {
    let b = velocity_block(&[(100, -200, 3), (-32768, 5, 5), (-1, 0, 32767)]);
    let v = VelocityBlock::parse(&b, 3).unwrap();
    assert_eq!(
        v.bins,
        vec![
            Some(VelocityBin { u_mm_s: 100, v_mm_s: -200, w_mm_s: 3 }),
            None,
            Some(VelocityBin { u_mm_s: -1, v_mm_s: 0, w_mm_s: 32767 }),
        ]
    );
    // fewer cells than the block holds: only those are read
    assert_eq!(VelocityBlock::parse(&b, 1).unwrap().bins.len(), 1);
}

#[test]
fn velocity_errors() {
    let b = velocity_block(&[(1, 2, 3)]);
    assert_eq!(
        VelocityBlock::parse(&b, 2).err(),
        Some(ParseError::BlockTooShort { kind: BlockKind::Velocity, len: 10, expected: 18 })
    );
    let mut b = velocity_block(&[(1, 2, 3)]);
    b[1] = 0x03;
    assert_eq!(
        VelocityBlock::parse(&b, 1).err(),
        Some(ParseError::WrongBlockId { kind: BlockKind::Velocity, found: 0x0300 })
    );
}

#[test]
fn echo_intensity_beam_sums() {
    let b = echo_block(&[[10, 20, 30, 40], [255, 255, 255, 255], [0, 0, 0, 1]]);
    let e = EchoIntensityBlock::parse(&b, 3).unwrap();
    assert_eq!(e.beam_sums, vec![100, 1020, 1]);
    // the mean intensity is a quarter of the sum
    assert_eq!(e.beam_sums[0] as f32 / 4.0, 25.0);
}

#[test]
fn echo_intensity_errors() {
    assert_eq!(
        EchoIntensityBlock::parse(&echo_block(&[[1, 2, 3, 4]]), 2).err(),
        Some(ParseError::BlockTooShort { kind: BlockKind::EchoIntensity, len: 6, expected: 10 })
    );
    let mut b = echo_block(&[[1, 2, 3, 4]]);
    b[1] = 0x01;
    assert_eq!(
        EchoIntensityBlock::parse(&b, 1).err(),
        Some(ParseError::WrongBlockId { kind: BlockKind::EchoIntensity, found: 0x0100 })
    );
}

#[test]
fn coordinate_validity_in_raw_units() {
    assert!(is_valid_coord(1, 90));
    assert!(!is_valid_coord(0, 90));
    assert!(is_valid_coord(0x3FFF_FFFF, 90));
    assert!(is_valid_coord(0x4000_0000, 90)); // exactly 90 degrees
    assert!(is_valid_coord(-0x4000_0000, 90)); // exactly -90 degrees
    assert!(!is_valid_coord(0x4000_0001, 90));
    assert!(!is_valid_coord(-0x4000_0001, 90));
    assert!(is_valid_coord(0x4000_0000, 180));
    assert!(is_valid_coord(i32::MAX, 180));
    assert!(is_valid_coord(i32::MIN, 180)); // exactly -180 degrees
    assert!(!is_valid_coord(0, 180));
}

#[test]
fn nav_accepts_the_range_bounds() {
    // last fix at exactly 90 degrees north, 22.5 degrees east; first fix zero
    let mut b = vec![0u8; 34];
    b[1] = 0x20;
    b[29] = 0x40;
    b[33] = 0x10;
    assert_eq!(VmDasNav::parse(&b).unwrap(), VmDasNav { latitude_raw: 0x4000_0000, longitude_raw: 0x1000_0000 });
    let n = VmDasNav::parse(&nav_block((1, 1), (-0x4000_0000, i32::MIN))).unwrap();
    assert_eq!(n, VmDasNav { latitude_raw: -0x4000_0000, longitude_raw: i32::MIN });
}

#[test]
fn nav_prefers_last_fix() {
    let n = VmDasNav::parse(&nav_block((100, 200), (300, 400))).unwrap();
    assert_eq!(n, VmDasNav { latitude_raw: 300, longitude_raw: 400 });
}

#[test]
fn nav_falls_back_to_first_fix() {
    let n = VmDasNav::parse(&nav_block((100, 200), (0x4000_0001, 400))).unwrap();
    assert_eq!(n, VmDasNav { latitude_raw: 100, longitude_raw: 200 });
    let n = VmDasNav::parse(&nav_block((-5, -6), (7, 0))).unwrap();
    assert_eq!(n, VmDasNav { latitude_raw: -5, longitude_raw: -6 });
}

#[test]
fn nav_errors() {
    assert_eq!(
        VmDasNav::parse(&nav_block((0, 1), (2, 0))).err(),
        Some(ParseError::NoValidGpsFix { last_lat: 2, last_lon: 0, first_lat: 0, first_lon: 1 })
    );
    assert_eq!(
        VmDasNav::parse(&vec![0u8; 33]).err(),
        Some(ParseError::BlockTooShort { kind: BlockKind::VmDasNav, len: 33, expected: 34 })
    );
    let mut b = nav_block((1, 1), (1, 1));
    b[1] = 0x21;
    assert_eq!(
        VmDasNav::parse(&b).err(),
        Some(ParseError::WrongBlockId { kind: BlockKind::VmDasNav, found: 0x2100 })
    );
}
