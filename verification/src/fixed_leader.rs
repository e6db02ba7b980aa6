//! The Fixed Leader block (ID `0x0000`, 59 bytes): the instrument geometry
//! that places the depth bins.
//!
//! Byte 9 holds the number of cells, bytes 12–13 the cell size in cm and
//! bytes 14–15 the blank-after-transmit distance in cm (u16 LE).

use crate::bytes::{read_u16, u16_at};
use crate::error::{BlockKind, ParseError};
use vstd::prelude::*;

verus! {

/// The fields of the Fixed Leader that the depth-bin geometry needs.
#[derive(Debug, Clone, Copy, PartialEq, Eq, Structural)]
pub struct FixedLeader {
    pub num_cells: u8,
    /// Raw cell size in centimeters.
    pub cell_size_cm: u16,
    /// Blank-after-transmit distance in centimeters.
    pub blank_distance_cm: u16,
}

/// What [`FixedLeader::parse`] gives for `block`.
pub open spec fn spec_fixed_leader(block: Seq<u8>) -> Result<FixedLeader, ParseError> {
    if block.len() < 59 {
        Err(ParseError::BlockTooShort { kind: BlockKind::FixedLeader, len: block.len() as usize, expected: 59 })
    } else if u16_at(block, 0) != 0x0000 {
        Err(ParseError::WrongBlockId { kind: BlockKind::FixedLeader, found: u16_at(block, 0) })
    } else {
        Ok(FixedLeader {
            num_cells: block[9],
            cell_size_cm: u16_at(block, 12),
            blank_distance_cm: u16_at(block, 14),
        })
    }
}

/// A Fixed Leader decodes exactly when the block has at least 59 bytes and
/// starts with the ID bytes `00 00`; its fields are byte 9 and the full
/// little-endian u16 at bytes 12–13 and 14–15.
pub proof fn lemma_fixed_leader_fields(block: Seq<u8>)
    ensures
        spec_fixed_leader(block) is Ok <==> (block.len() >= 59 && block[0] == 0 && block[1] == 0),
        spec_fixed_leader(block) matches Ok(f) ==> {
            &&& f.num_cells == block[9]
            &&& f.cell_size_cm as int == block[12] + 256 * block[13]
            &&& f.blank_distance_cm as int == block[14] + 256 * block[15]
        },
{
}

impl FixedLeader {
    /// Decodes a Fixed Leader from `block`, which starts at the block's ID.
    pub fn parse(block: &[u8]) -> (r: Result<FixedLeader, ParseError>)
        ensures
            r == spec_fixed_leader(block@),
            r matches Ok(f) ==> {
                &&& f.num_cells == block@[9]
                &&& f.cell_size_cm as int == block@[12] + 256 * block@[13]
                &&& f.blank_distance_cm as int == block@[14] + 256 * block@[15]
            },
    {
        proof {
            lemma_fixed_leader_fields(block@);
        }
        if block.len() < 59 {
            return Err(ParseError::BlockTooShort { kind: BlockKind::FixedLeader, len: block.len(), expected: 59 });
        }
        let id = read_u16(block, 0);
        if id != 0x0000 {
            return Err(ParseError::WrongBlockId { kind: BlockKind::FixedLeader, found: id });
        }
        Ok(FixedLeader {
            num_cells: block[9],
            cell_size_cm: read_u16(block, 12),
            blank_distance_cm: read_u16(block, 14),
        })
    }
}

} // verus!
