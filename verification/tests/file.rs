use enx_wasm_parser::checksum::validate_checksum;
use enx_wasm_parser::ensemble::{parse_ensemble, DepthBin};
use enx_wasm_parser::error::{BlockKind, ParseError};
use enx_wasm_parser::header::Header;
use enx_wasm_parser::parser::parse_file;
use enx_wasm_parser::vmdas_nav::VmDasNav;

fn fixed_leader_block(num_cells: u8, cell_size_cm: u16, blank_cm: u16) -> Vec<u8> {
    let mut b = vec![0u8; 59];
    b[9] = num_cells;
    b[12..14].copy_from_slice(&cell_size_cm.to_le_bytes());
    b[14..16].copy_from_slice(&blank_cm.to_le_bytes());
    b
}

fn variable_leader_block(time: [u8; 7], depth_dm: u16) -> Vec<u8> {
    let mut b = vec![0u8; 65];
    b[0..2].copy_from_slice(&0x0080u16.to_le_bytes());
    b[4..11].copy_from_slice(&time);
    b[16..18].copy_from_slice(&depth_dm.to_le_bytes());
    b
}

fn velocity_block(bins: &[(i16, i16, i16)]) -> Vec<u8> {
    let mut b = 0x0100u16.to_le_bytes().to_vec();
    for &(u, v, w) in bins {
        b.extend_from_slice(&u.to_le_bytes());
        b.extend_from_slice(&v.to_le_bytes());
        b.extend_from_slice(&w.to_le_bytes());
        b.extend_from_slice(&0i16.to_le_bytes());
    }
    b
}

fn echo_block(bins: &[[u8; 4]]) -> Vec<u8> {
    let mut b = 0x0300u16.to_le_bytes().to_vec();
    for beams in bins {
        b.extend_from_slice(beams);
    }
    b
}

fn nav_block(lat: i32, lon: i32) -> Vec<u8> {
    let mut b = vec![0u8; 92];
    b[0..2].copy_from_slice(&0x2000u16.to_le_bytes());
    b[26..30].copy_from_slice(&lat.to_le_bytes());
    b[30..34].copy_from_slice(&lon.to_le_bytes());
    b
}

fn checksum(bytes: &[u8]) -> u16 {
    bytes.iter().fold(0u32, |acc, &b| acc + b as u32) as u16
}

/// An ensemble holding `blocks` in order, with a correct checksum.
fn ensemble(blocks: &[Vec<u8>]) -> Vec<u8> {
    let header_len = 6 + 2 * blocks.len();
    let body_len: usize = blocks.iter().map(|b| b.len()).sum();
    let total = header_len + body_len;
    let mut e = vec![0x7F, 0x7F];
    e.extend_from_slice(&(total as u16).to_le_bytes());
    e.push(0);
    e.push(blocks.len() as u8);
    let mut off = header_len;
    for b in blocks {
        e.extend_from_slice(&(off as u16).to_le_bytes());
        off += b.len();
    }
    for b in blocks {
        e.extend_from_slice(b);
    }
    let c = checksum(&e);
    e.extend_from_slice(&c.to_le_bytes());
    e
}

/// An ensemble holding `blocks` in order, its table listing them in `order`.
fn ensemble_listed(blocks: &[Vec<u8>], order: &[usize]) -> Vec<u8> {
    let header_len = 6 + 2 * order.len();
    let mut offsets = Vec::new();
    let mut off = header_len;
    for b in blocks {
        offsets.push(off as u16);
        off += b.len();
    }
    let mut e = vec![0x7F, 0x7F];
    e.extend_from_slice(&(off as u16).to_le_bytes());
    e.push(0);
    e.push(order.len() as u8);
    for &i in order {
        e.extend_from_slice(&offsets[i].to_le_bytes());
    }
    for b in blocks {
        e.extend_from_slice(b);
    }
    let c = checksum(&e);
    e.extend_from_slice(&c.to_le_bytes());
    e
}

fn full_ensemble(bins: &[(i16, i16, i16)], nav: Option<(i32, i32)>) -> Vec<u8> {
    let n = bins.len() as u8;
    let mut blocks = vec![
        fixed_leader_block(n, 100, 50),
        variable_leader_block([23, 7, 14, 12, 34, 56, 0], 30),
        velocity_block(bins),
        echo_block(&vec![[10, 20, 30, 40]; bins.len()]),
    ];
    if let Some((lat, lon)) = nav {
        blocks.push(nav_block(lat, lon));
    }
    ensemble(&blocks)
}

#[test]
fn checksum_accepts_matching_sum() {
    let mut e = vec![1u8, 2, 3, 250];
    e.extend_from_slice(&256u16.to_le_bytes());
    assert_eq!(validate_checksum(&e), Ok(()));
    assert_eq!(validate_checksum(&[0x34, 0x12]), Err(ParseError::ChecksumMismatch { computed: 0, stored: 0x1234 }));
}

#[test]
fn checksum_wraps_modulo_2_16() {
    let mut e = vec![0xFFu8; 300]; // sum 76500 = 0x12AD4
    e.extend_from_slice(&0x2AD4u16.to_le_bytes());
    assert_eq!(validate_checksum(&e), Ok(()));
}

#[test]
fn checksum_errors() {
    assert_eq!(validate_checksum(&[7]), Err(ParseError::ChecksumTooShort));
    assert_eq!(
        validate_checksum(&[1, 2, 3, 0, 0]),
        Err(ParseError::ChecksumMismatch { computed: 6, stored: 0 })
    );
}

#[test]
fn checksum_roundtrip_and_single_byte_corruption() {
    let payload: Vec<u8> = (0..=255u8).chain(0..40u8).collect();
    let c = checksum(&payload);
    let mut e = payload.clone();
    e.push((c % 256) as u8);
    e.push((c / 256) as u8);
    assert_eq!(validate_checksum(&e), Ok(()));
    for i in [0usize, 17, 255, payload.len() - 1] {
        let mut bad = e.clone();
        bad[i] = bad[i].wrapping_add(1);
        assert!(matches!(validate_checksum(&bad), Err(ParseError::ChecksumMismatch { .. })));
    }
}

#[test]
fn file_must_start_with_magic() {
    assert_eq!(parse_file(&[]).err(), Some(ParseError::FileMagic));
    assert_eq!(parse_file(&[0x7F]).err(), Some(ParseError::FileMagic));
    assert_eq!(parse_file(&[0x00, 0x7F, 0x7F]).err(), Some(ParseError::FileMagic));
}

#[test]
fn parses_complete_ensembles() {
    let mut data = full_ensemble(&[(100, -200, 3), (-32768, 0, 0), (1000, 0, -5)], Some((300, 400)));
    data.extend(full_ensemble(&[(7, 8, 9)], None));
    let r = parse_file(&data).unwrap();
    assert_eq!(r.total_pings, 2);
    assert_eq!(r.dropped_corrupt_bins, 1);
    assert_eq!(r.pings_without_gps, 1);
    assert_eq!(r.pings.len(), 2);
    let p = &r.pings[0];
    assert_eq!(p.timestamp, "2023-07-14T12:34:56.00Z");
    assert_eq!(p.nav, Some(VmDasNav { latitude_raw: 300, longitude_raw: 400 }));
    assert_eq!((p.blank_distance_cm, p.cell_size_cm, p.transducer_depth_dm), (50, 100, 30));
    assert_eq!(
        p.bins,
        vec![
            DepthBin { bin_index: 0, u_mm_s: 100, v_mm_s: -200, w_mm_s: 3, beam_sum: 100 },
            DepthBin { bin_index: 2, u_mm_s: 1000, v_mm_s: 0, w_mm_s: -5, beam_sum: 100 },
        ]
    );
    assert_eq!(r.pings[1].nav, None);
    assert_eq!(r.pings[1].bins.len(), 1);
}

#[test]
fn garbage_between_ensembles_is_skipped() {
    let mut data = full_ensemble(&[(1, 2, 3)], Some((5, 6)));
    data.extend_from_slice(&[0x00, 0x7F, 0x12, 0xAB]);
    data.extend(full_ensemble(&[(4, 5, 6)], Some((5, 6))));
    data.push(0x7F); // a lone trailing magic byte is not an ensemble
    let r = parse_file(&data).unwrap();
    assert_eq!(r.total_pings, 2);
    assert_eq!(r.pings.len(), 2);
}

#[test]
fn truncated_last_ensemble_ends_the_parse() {
    let mut data = full_ensemble(&[(1, 2, 3)], Some((5, 6)));
    let second = full_ensemble(&[(4, 5, 6)], Some((5, 6)));
    data.extend_from_slice(&second[..second.len() - 1]);
    let r = parse_file(&data).unwrap();
    assert_eq!(r.total_pings, 1);
    assert_eq!(r.pings.len(), 1);
}

#[test]
fn all_bins_missing_drops_the_ping() {
    let data = full_ensemble(&[(-32768, 0, 0), (-32768, 1, 1)], Some((5, 6)));
    let r = parse_file(&data).unwrap();
    assert_eq!(r.total_pings, 1);
    assert_eq!(r.dropped_corrupt_bins, 2);
    assert_eq!(r.pings_without_gps, 0);
    assert!(r.pings.is_empty());
}

#[test]
fn missing_required_block_gives_no_ping() {
    // no echo intensity block
    let data = ensemble(&[
        fixed_leader_block(1, 100, 50),
        variable_leader_block([23, 1, 1, 0, 0, 0, 0], 0),
        velocity_block(&[(1, 1, 1)]),
    ]);
    let r = parse_file(&data).unwrap();
    assert_eq!(r.total_pings, 1);
    assert_eq!(r.pings_without_gps, 0);
    assert!(r.pings.is_empty());
}

#[test]
fn block_order_does_not_matter() {
    let fl = fixed_leader_block(2, 100, 50);
    let vl = variable_leader_block([23, 1, 1, 0, 0, 0, 0], 7);
    let vel = velocity_block(&[(1, 2, 3), (4, 5, 6)]);
    let ec = echo_block(&[[1, 1, 1, 1], [2, 2, 2, 2]]);
    let nav = nav_block(10, 20);
    let a = parse_file(&ensemble(&[fl.clone(), vl.clone(), vel.clone(), ec.clone(), nav.clone()])).unwrap();
    let b = parse_file(&ensemble(&[vel, ec, nav, vl, fl])).unwrap();
    assert_eq!(a.pings.len(), 1);
    assert_eq!(b.pings.len(), 1);
    assert_eq!(a.pings[0].bins, b.pings[0].bins);
    assert_eq!(a.pings[0].nav, b.pings[0].nav);
    assert_eq!(a.pings[0].timestamp, b.pings[0].timestamp);
    assert_eq!(
        b.pings[0].bins,
        vec![
            DepthBin { bin_index: 0, u_mm_s: 1, v_mm_s: 2, w_mm_s: 3, beam_sum: 4 },
            DepthBin { bin_index: 1, u_mm_s: 4, v_mm_s: 5, w_mm_s: 6, beam_sum: 8 },
        ]
    );
}

#[test]
fn last_fixed_leader_gives_the_cell_count() {
    let data = ensemble(&[
        fixed_leader_block(2, 100, 50),
        velocity_block(&[(1, 1, 1), (2, 2, 2), (3, 3, 3)]),
        echo_block(&[[1, 1, 1, 1], [1, 1, 1, 1], [1, 1, 1, 1]]),
        fixed_leader_block(3, 100, 50),
        variable_leader_block([23, 1, 1, 0, 0, 0, 0], 0),
    ]);
    let r = parse_file(&data).unwrap();
    assert_eq!(r.pings.len(), 1);
    assert_eq!(r.pings[0].bins.len(), 3);
}

#[test]
fn invalid_nav_block_is_ignored() {
    let data = full_ensemble(&[(1, 2, 3)], Some((0, 0)));
    let r = parse_file(&data).unwrap();
    assert_eq!(r.pings_without_gps, 1);
    assert_eq!(r.pings[0].nav, None);
}

#[test]
fn checksum_mismatch_is_fatal() {
    let mut data = full_ensemble(&[(1, 2, 3)], Some((5, 6)));
    let mut bad = full_ensemble(&[(1, 2, 3)], Some((5, 6)));
    let n = bad.len();
    bad[n - 1] ^= 0x01;
    data.extend(bad);
    assert!(matches!(parse_file(&data), Err(ParseError::ChecksumMismatch { .. })));
}

#[test]
fn malformed_required_block_is_fatal() {
    let mut vl = variable_leader_block([23, 1, 1, 0, 0, 0, 0], 0);
    vl.truncate(40); // the block runs on to the end of the ensemble: its two checksum bytes count
    let data = ensemble(&[fixed_leader_block(1, 100, 50), vl]);
    assert_eq!(
        parse_file(&data).err(),
        Some(ParseError::BlockTooShort { kind: BlockKind::VariableLeader, len: 42, expected: 56 })
    );
}

#[test]
fn header_error_mid_file_is_fatal() {
    let mut data = full_ensemble(&[(1, 2, 3)], Some((5, 6)));
    data.extend_from_slice(&[0x7F, 0x7F, 0x00]);
    assert_eq!(parse_file(&data).err(), Some(ParseError::HeaderTooShort));
}

#[test]
fn offset_past_ensemble_is_fatal() {
    // one block whose offset lies inside the file but past the ensemble
    let mut data = vec![0x7F, 0x7F, 8, 0, 0, 1, 20, 0];
    let c = checksum(&data);
    data.extend_from_slice(&c.to_le_bytes());
    data.extend_from_slice(&[0u8; 16]);
    assert_eq!(parse_file(&data).err(), Some(ParseError::OffsetOutsideEnsemble { offset: 20, index: 0 }));
}

#[test]
fn block_id_on_the_checksum_and_a_stray_byte_is_fatal() {
    // a 10-byte ensemble whose only offset is 9, then one stray byte
    let mut data = vec![0x7F, 0x7F, 8, 0, 0, 1, 9, 0];
    let c = checksum(&data);
    data.extend_from_slice(&c.to_le_bytes());
    data.push(0x00);
    assert_eq!(parse_file(&data).err(), Some(ParseError::OffsetOutsideEnsemble { offset: 9, index: 0 }));
}

#[test]
fn concatenated_files_parse_piecewise() {
    let e = full_ensemble(&[(1, 2, 3), (-32768, 0, 0)], None);
    let f = full_ensemble(&[(4, 5, 6)], Some((5, 6)));
    let a = parse_file(&e).unwrap();
    let b = parse_file(&f).unwrap();
    let mut ef = e.clone();
    ef.extend_from_slice(&f);
    let r = parse_file(&ef).unwrap();
    assert_eq!(r.total_pings, a.total_pings + b.total_pings);
    assert_eq!(r.dropped_corrupt_bins, a.dropped_corrupt_bins + b.dropped_corrupt_bins);
    assert_eq!(r.pings_without_gps, a.pings_without_gps + b.pings_without_gps);
    assert_eq!(r.pings.len(), 2);
    assert_eq!(r.pings[0].bins, a.pings[0].bins);
    assert_eq!(r.pings[1].bins, b.pings[0].bins);
}

#[test]
fn filler_between_ensembles_changes_nothing() {
    let e = full_ensemble(&[(1, 2, 3)], None);
    let f = full_ensemble(&[(4, 5, 6)], Some((5, 6)));
    let mut with_filler = e.clone();
    with_filler.extend_from_slice(&[0x00, 0xFF, 0x7E, 0x12]);
    with_filler.extend_from_slice(&f);
    let mut without = e.clone();
    without.extend_from_slice(&f);
    let r1 = parse_file(&with_filler).unwrap();
    let r2 = parse_file(&without).unwrap();
    assert_eq!(r1.total_pings, r2.total_pings);
    assert_eq!(r1.pings.len(), r2.pings.len());
    assert_eq!(r1.pings[1].bins, r2.pings[1].bins);
}

#[test]
fn parse_ensemble_counts() {
    let e = full_ensemble(&[(-32768, 0, 0), (3, 4, 5)], None);
    let h = Header::parse(&e).unwrap();
    let mut dropped = 10u32;
    let mut without = 0u32;
    match parse_ensemble(&e, &h, &mut dropped, &mut without) {
        Ok(Some(p)) => {
            assert_eq!(p.bins, vec![DepthBin { bin_index: 1, u_mm_s: 3, v_mm_s: 4, w_mm_s: 5, beam_sum: 100 }]);
        }
        _ => panic!("expected a ping"),
    }
    assert_eq!(dropped, 11);
    assert_eq!(without, 1);
}

#[test]
fn bad_first_checksum_is_fatal() {
    let mut data = full_ensemble(&[(1, 2, 3)], Some((5, 6)));
    data[8] ^= 0x10; // a payload byte
    data.extend(full_ensemble(&[(1, 2, 3)], Some((5, 6))));
    assert!(matches!(parse_file(&data), Err(ParseError::ChecksumMismatch { .. })));
}

#[test]
fn totals_agree_with_pings() {
    let mut data = Vec::new();
    data.extend(full_ensemble(&[(1, 2, 3), (-32768, 0, 0)], None));
    data.extend(full_ensemble(&[(-32768, 0, 0)], Some((9, 9))));
    data.extend(ensemble(&[fixed_leader_block(1, 100, 50)]));
    data.extend(full_ensemble(&[(4, 5, 6)], Some((9, 9))));
    let r = parse_file(&data).unwrap();
    assert_eq!(r.total_pings, 4);
    assert_eq!(r.pings.len(), 2);
    assert_eq!(r.dropped_corrupt_bins, 2);
    assert_eq!(r.pings_without_gps, 1);
    for p in &r.pings {
        assert!(!p.bins.is_empty());
        assert!(p.bins.iter().all(|b| b.u_mm_s != -32768 && b.beam_sum <= 1020));
    }
}

#[test]
fn parse_ensemble_error_leaves_counters() {
    let mut vl = variable_leader_block([23, 1, 1, 0, 0, 0, 0], 0);
    vl.truncate(20);
    let e = ensemble(&[fixed_leader_block(1, 100, 50), vl]);
    let h = Header::parse(&e).unwrap();
    let mut dropped = 3u32;
    let mut without = 4u32;
    assert!(matches!(
        parse_ensemble(&e, &h, &mut dropped, &mut without),
        Err(ParseError::BlockTooShort { kind: BlockKind::VariableLeader, .. })
    ));
    assert_eq!((dropped, without), (3, 4));
}

fn dup_variable_blocks() -> Vec<Vec<u8>> {
    let mut bad = variable_leader_block([23, 1, 1, 0, 0, 0, 0], 0);
    bad.truncate(10); // placed last: its block runs to the end of the ensemble, 12 bytes
    vec![
        fixed_leader_block(1, 100, 50),
        variable_leader_block([23, 1, 1, 0, 0, 0, 0], 0),
        velocity_block(&[(1, 1, 1)]),
        echo_block(&[[1, 1, 1, 1]]),
        bad,
    ]
}

#[test]
fn malformed_duplicate_block_is_fatal_listed_last() {
    let data = ensemble_listed(&dup_variable_blocks(), &[0, 1, 2, 3, 4]);
    assert_eq!(
        parse_file(&data).err(),
        Some(ParseError::BlockTooShort { kind: BlockKind::VariableLeader, len: 12, expected: 56 })
    );
}

#[test]
fn malformed_duplicate_block_is_fatal_listed_first() {
    let data = ensemble_listed(&dup_variable_blocks(), &[4, 0, 1, 2, 3]);
    assert_eq!(
        parse_file(&data).err(),
        Some(ParseError::BlockTooShort { kind: BlockKind::VariableLeader, len: 12, expected: 56 })
    );
}

#[test]
fn earlier_valid_fix_survives_a_later_invalid_one() {
    let blocks = vec![
        fixed_leader_block(1, 100, 50),
        variable_leader_block([23, 1, 1, 0, 0, 0, 0], 0),
        velocity_block(&[(1, 1, 1)]),
        echo_block(&[[1, 1, 1, 1]]),
        nav_block(11, 22),
        nav_block(0, 0),
    ];
    let r = parse_file(&ensemble_listed(&blocks, &[0, 1, 2, 3, 4, 5])).unwrap();
    assert_eq!(r.pings_without_gps, 0);
    assert_eq!(r.pings[0].nav, Some(VmDasNav { latitude_raw: 11, longitude_raw: 22 }));
    // a later valid fix replaces an earlier one
    let r = parse_file(&ensemble_listed(&blocks, &[0, 1, 2, 3, 5, 4])).unwrap();
    assert_eq!(r.pings[0].nav, Some(VmDasNav { latitude_raw: 11, longitude_raw: 22 }));
}

#[test]
fn offset_at_the_ensemble_end_is_a_length_error() {
    let e = full_ensemble(&[(1, 2, 3)], None);
    let h = Header { bytes_in_ensemble: (e.len() - 2) as u16, offsets: vec![(0x0000, e.len() as u16)] };
    let mut dropped = 0u32;
    let mut without = 0u32;
    assert!(matches!(
        parse_ensemble(&e, &h, &mut dropped, &mut without),
        Err(ParseError::BlockTooShort { kind: BlockKind::FixedLeader, len: 0, expected: 59 })
    ));
    // an unknown ID at the very end is ignored
    let h = Header { bytes_in_ensemble: (e.len() - 2) as u16, offsets: vec![(0x1234, e.len() as u16)] };
    assert!(matches!(parse_ensemble(&e, &h, &mut dropped, &mut without), Ok(None)));
}
