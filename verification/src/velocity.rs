//! The Velocity Profile block (ID `0x0100`).
//!
//! Each depth bin holds four i16 LE velocities (East/U, North/V, Vertical/W,
//! Error) in mm/s, 8 bytes per bin after the 2-byte ID. An East velocity of
//! -32768 is Teledyne's "missing data" sentinel: that bin has no data.

use crate::bytes::{i16_at, read_i16, u16_at, read_u16};
use crate::error::{BlockKind, ParseError};
use vstd::prelude::*;

verus! {

/// Teledyne's "no valid data" value for the East velocity.
pub const MISSING_VELOCITY: i16 = -32768;

/// The three velocity components of one depth bin.
#[derive(Debug, Clone, Copy, PartialEq, Eq, Structural)]
pub struct VelocityBin {
    /// East velocity in mm/s.
    pub u_mm_s: i16,
    /// North velocity in mm/s.
    pub v_mm_s: i16,
    /// Vertical velocity in mm/s.
    pub w_mm_s: i16,
}

/// A decoded velocity profile.
pub struct VelocityBlock {
    /// One entry per depth bin; `None` where the bin carries the missing-data sentinel.
    pub bins: Vec<Option<VelocityBin>>,
}

impl View for VelocityBlock {
    type V = Seq<Option<VelocityBin>>;

    open spec fn view(&self) -> Seq<Option<VelocityBin>> {
        self.bins@
    }
}

/// Number of bytes a velocity block of `num_cells` bins needs.
pub open spec fn velocity_block_len(num_cells: u8) -> int {
    2 + 8 * num_cells
}

/// Bin `i` of the velocity block `block`.
pub open spec fn spec_velocity_bin(block: Seq<u8>, i: int) -> Option<VelocityBin> {
    let base = 2 + 8 * i;
    if i16_at(block, base) == MISSING_VELOCITY {
        None
    } else {
        Some(VelocityBin {
            u_mm_s: i16_at(block, base),
            v_mm_s: i16_at(block, base + 2),
            w_mm_s: i16_at(block, base + 4),
        })
    }
}

/// What [`VelocityBlock::parse`] gives for `block` and `num_cells`.
pub open spec fn spec_velocity_block(block: Seq<u8>, num_cells: u8) -> Result<Seq<Option<VelocityBin>>, ParseError> {
    if block.len() < velocity_block_len(num_cells) {
        Err(ParseError::BlockTooShort {
            kind: BlockKind::Velocity,
            len: block.len() as usize,
            expected: velocity_block_len(num_cells) as usize,
        })
    } else if u16_at(block, 0) != 0x0100 {
        Err(ParseError::WrongBlockId { kind: BlockKind::Velocity, found: u16_at(block, 0) })
    } else {
        Ok(Seq::new(num_cells as nat, |i: int| spec_velocity_bin(block, i)))
    }
}

/// The two's-complement value of the little-endian bytes `b0`, `b1`.
pub open spec fn twos_complement_16(b0: u8, b1: u8) -> int {
    let x = b0 + 256 * b1;
    if x < 0x8000 { x } else { x - 0x1_0000 }
}

/// A velocity profile of `num_cells` cells decodes exactly when the block
/// holds `2 + 8 * num_cells` bytes and starts with the ID bytes `00 01`. It
/// has one entry per cell; cell `i` is missing exactly when its East
/// velocity (bytes `2 + 8i`, `3 + 8i`) is -32768, and otherwise carries the
/// signed little-endian East, North and Vertical velocities at bytes
/// `2 + 8i`, `4 + 8i` and `6 + 8i`.
pub proof fn lemma_velocity_fields(block: Seq<u8>, num_cells: u8)
    ensures
        spec_velocity_block(block, num_cells) is Ok <==> (block.len() >= 2 + 8 * num_cells && block[0] == 0
            && block[1] == 1),
        spec_velocity_block(block, num_cells) matches Ok(v) ==> {
            &&& v.len() == num_cells
            &&& forall|i: int|
                0 <= i < num_cells ==> {
                    let b = 2 + 8 * i;
                    &&& (#[trigger] v[i] is None <==> twos_complement_16(block[b], block[b + 1]) == -32768)
                    &&& (v[i] matches Some(x) ==> {
                        &&& x.u_mm_s as int == twos_complement_16(block[b], block[b + 1])
                        &&& x.v_mm_s as int == twos_complement_16(block[b + 2], block[b + 3])
                        &&& x.w_mm_s as int == twos_complement_16(block[b + 4], block[b + 5])
                    })
                }
        },
{
    if let Ok(v) = spec_velocity_block(block, num_cells) {
        assert forall|i: int| 0 <= i < num_cells implies {
            let b = 2 + 8 * i;
            &&& (#[trigger] v[i] is None <==> twos_complement_16(block[b], block[b + 1]) == -32768)
            &&& (v[i] matches Some(x) ==> {
                &&& x.u_mm_s as int == twos_complement_16(block[b], block[b + 1])
                &&& x.v_mm_s as int == twos_complement_16(block[b + 2], block[b + 3])
                &&& x.w_mm_s as int == twos_complement_16(block[b + 4], block[b + 5])
            })
        } by {
            assert(v[i] == spec_velocity_bin(block, i));
        }
    }
}

impl VelocityBlock {
    /// Decodes a velocity block of `num_cells` bins (the count comes from the
    /// Fixed Leader) from `block`, which starts at the block's ID.
    pub fn parse(block: &[u8], num_cells: u8) -> (r: Result<VelocityBlock, ParseError>)
        ensures
            r is Ok <==> spec_velocity_block(block@, num_cells) is Ok,
            r matches Ok(v) ==> spec_velocity_block(block@, num_cells) == Ok::<Seq<Option<VelocityBin>>, ParseError>(v@),
            r matches Err(e) ==> spec_velocity_block(block@, num_cells) == Err::<Seq<Option<VelocityBin>>, ParseError>(e),
            r matches Ok(v) ==> v@.len() == num_cells && forall|i: int|
                0 <= i < num_cells ==> {
                    let b = 2 + 8 * i;
                    &&& (#[trigger] v@[i] is None <==> twos_complement_16(block@[b], block@[b + 1]) == -32768)
                    &&& (v@[i] matches Some(x) ==> {
                        &&& x.u_mm_s as int == twos_complement_16(block@[b], block@[b + 1])
                        &&& x.v_mm_s as int == twos_complement_16(block@[b + 2], block@[b + 3])
                        &&& x.w_mm_s as int == twos_complement_16(block@[b + 4], block@[b + 5])
                    })
                },
    {
        proof {
            lemma_velocity_fields(block@, num_cells);
        }
        let expected = 2 + 8 * num_cells as usize;
        if block.len() < expected {
            return Err(ParseError::BlockTooShort { kind: BlockKind::Velocity, len: block.len(), expected });
        }
        let id = read_u16(block, 0);
        if id != 0x0100 {
            return Err(ParseError::WrongBlockId { kind: BlockKind::Velocity, found: id });
        }
        let mut bins: Vec<Option<VelocityBin>> = Vec::with_capacity(num_cells as usize);
        let mut i: usize = 0;
        while i < num_cells as usize
            invariant
                i <= num_cells,
                block@.len() >= velocity_block_len(num_cells),
                bins@.len() == i,
                forall|j: int| 0 <= j < i ==> bins@[j] == spec_velocity_bin(block@, j),
            decreases num_cells - i,
        {
            let base = 2 + i * 8;
            let u = read_i16(block, base);
            if u == MISSING_VELOCITY {
                bins.push(None);  // missing data sentinel
            } else {
                let v = read_i16(block, base + 2);
                let w = read_i16(block, base + 4);
                bins.push(Some(VelocityBin { u_mm_s: u, v_mm_s: v, w_mm_s: w }));
            }
            i = i + 1;
        }
        proof {
            assert(bins@ =~= Seq::new(num_cells as nat, |i: int| spec_velocity_bin(block@, i)));
        }
        Ok(VelocityBlock { bins })
    }
}

} // verus!
