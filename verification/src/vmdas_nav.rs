//! The VmDas Navigation block (ID `0x2000`).
//!
//! Offsets are from the block start (the 2-byte ID included). Coordinates
//! are i32 LE in units of 180 / 2^31 degrees:
//!
//!  Bytes 14–17: latitude  – first GPS fix
//!  Bytes 18–21: longitude – first GPS fix
//!  Bytes 26–29: latitude  – last GPS fix   (primary)
//!  Bytes 30–33: longitude – last GPS fix   (primary)
//!
//! A fix is a valid position when its latitude lies in [-90, 90] and its
//! longitude in [-180, 180] degrees, neither being zero. The last fix is used
//! when it is valid, else the first fix.

use crate::bytes::{read_i32, read_u16, spec_i32_le, twos_complement_32, u16_at};
use crate::error::{BlockKind, ParseError};
use vstd::prelude::*;

verus! {

/// A GPS position in raw VmDas units: degrees = raw × 180 / 2^31.
#[derive(Debug, Clone, Copy, PartialEq, Eq, Structural)]
pub struct VmDasNav {
    /// Latitude in units of 180 / 2^31 degrees.
    pub latitude_raw: i32,
    /// Longitude in units of 180 / 2^31 degrees.
    pub longitude_raw: i32,
}

/// `2^31`, the raw value that stands for 180 degrees.
pub open spec fn raw_half_turn() -> int {
    0x8000_0000
}

/// The coordinate `raw × 180 / 2^31` degrees lies in the closed range
/// `[-limit, limit]` degrees and is not zero.
pub open spec fn coord_in_range(raw: i32, limit: int) -> bool {
    &&& -limit * raw_half_turn() <= raw * 180
    &&& raw * 180 <= limit * raw_half_turn()
    &&& raw != 0
}

/// In raw units, a valid latitude lies in [-2^30, 2^30] (±90 degrees) and is
/// not zero; every raw longitude but zero is valid (the i32 range is
/// exactly [-180, 180) degrees).
pub proof fn lemma_valid_coord_raw(raw: i32)
    ensures
        coord_in_range(raw, 90) <==> (-0x4000_0000 <= raw <= 0x4000_0000 && raw != 0),
        coord_in_range(raw, 180) <==> raw != 0,
{
}

/// Whether `raw × 180 / 2^31` degrees is a usable coordinate for the limit
/// `limit` (in degrees): inside [-limit, limit] and not zero.
pub fn is_valid_coord(raw: i32, limit: i64) -> (r: bool)
    ensures
        r == coord_in_range(raw, limit as int),
{
    let scaled: i128 = (raw as i128) * 180;
    let bound: i128 = (limit as i128) * 0x8000_0000;
    scaled >= -bound && scaled <= bound && raw != 0
}

/// A position both of whose coordinates are valid (latitude within ±90 and
/// longitude within ±180 degrees, bounds included, neither zero).
pub open spec fn valid_position(lat: i32, lon: i32) -> bool {
    coord_in_range(lat, 90) && coord_in_range(lon, 180)
}

/// What [`VmDasNav::parse`] gives for `block`.
pub open spec fn spec_vmdas_nav(block: Seq<u8>) -> Result<VmDasNav, ParseError> {
    if block.len() < 34 {
        Err(ParseError::BlockTooShort { kind: BlockKind::VmDasNav, len: block.len() as usize, expected: 34 })
    } else if u16_at(block, 0) != 0x2000 {
        Err(ParseError::WrongBlockId { kind: BlockKind::VmDasNav, found: u16_at(block, 0) })
    } else {
        let lat = spec_i32_le(block, 26);
        let lon = spec_i32_le(block, 30);
        let lat1 = spec_i32_le(block, 14);
        let lon1 = spec_i32_le(block, 18);
        if valid_position(lat, lon) {
            Ok(VmDasNav { latitude_raw: lat, longitude_raw: lon })
        } else if valid_position(lat1, lon1) {
            Ok(VmDasNav { latitude_raw: lat1, longitude_raw: lon1 })
        } else {
            Err(ParseError::NoValidGpsFix { last_lat: lat, last_lon: lon, first_lat: lat1, first_lon: lon1 })
        }
    }
}

/// A navigation block decodes exactly when it has at least 34 bytes, starts
/// with the ID bytes `00 20`, and its last fix (bytes 26–33) or first fix
/// (bytes 14–21) is a valid position; the last fix is taken when valid,
/// else the first. Each coordinate is the signed little-endian i32 of its
/// four bytes.
pub proof fn lemma_nav_fields(block: Seq<u8>)
    requires
        block.len() >= 34,
    ensures
        ({
            let last_lat = twos_complement_32(block[26], block[27], block[28], block[29]);
            let last_lon = twos_complement_32(block[30], block[31], block[32], block[33]);
            let first_lat = twos_complement_32(block[14], block[15], block[16], block[17]);
            let first_lon = twos_complement_32(block[18], block[19], block[20], block[21]);
            let id_ok = block[0] == 0 && block[1] == 0x20;
            let last_ok = coord_in_range(last_lat as i32, 90) && coord_in_range(last_lon as i32, 180);
            let first_ok = coord_in_range(first_lat as i32, 90) && coord_in_range(first_lon as i32, 180);
            &&& (spec_vmdas_nav(block) is Ok <==> id_ok && (last_ok || first_ok))
            &&& (spec_vmdas_nav(block) matches Ok(n) ==> if last_ok {
                n.latitude_raw as int == last_lat && n.longitude_raw as int == last_lon
            } else {
                n.latitude_raw as int == first_lat && n.longitude_raw as int == first_lon
            })
        }),
{
}

impl VmDasNav {
    /// Decodes the navigation block `block`, which starts at the block's ID.
    pub fn parse(block: &[u8]) -> (r: Result<VmDasNav, ParseError>)
        ensures
            r == spec_vmdas_nav(block@),
            r matches Ok(n) ==> valid_position(n.latitude_raw, n.longitude_raw),
    {
        if block.len() < 34 {
            return Err(ParseError::BlockTooShort { kind: BlockKind::VmDasNav, len: block.len(), expected: 34 });
        }
        let id = read_u16(block, 0);
        if id != 0x2000 {
            return Err(ParseError::WrongBlockId { kind: BlockKind::VmDasNav, found: id });
        }
        // Primary: last GPS fix
        let lat = read_i32(block, 26);
        let lon = read_i32(block, 30);
        if is_valid_coord(lat, 90) && is_valid_coord(lon, 180) {
            return Ok(VmDasNav { latitude_raw: lat, longitude_raw: lon });
        }
        // Fallback: first GPS fix
        let lat1 = read_i32(block, 14);
        let lon1 = read_i32(block, 18);
        if is_valid_coord(lat1, 90) && is_valid_coord(lon1, 180) {
            return Ok(VmDasNav { latitude_raw: lat1, longitude_raw: lon1 });
        }
        Err(ParseError::NoValidGpsFix { last_lat: lat, last_lon: lon, first_lat: lat1, first_lon: lon1 })
    }
}

} // verus!
