//! The Echo Intensity block (ID `0x0300`).
//!
//! Four u8 beam counts per depth bin, 4 bytes per bin after the 2-byte ID.
//! The intensity of a bin is the mean of its four beams; the library keeps
//! the exact sum of the four counts, of which the mean is a quarter.

use crate::bytes::{read_u16, u16_at};
use crate::error::{BlockKind, ParseError};
use vstd::prelude::*;

verus! {

/// A decoded echo intensity profile.
pub struct EchoIntensityBlock {
    /// Sum of the four beam counts of each bin (0–1020); the mean intensity
    /// in counts (0–255) is this value divided by four.
    pub beam_sums: Vec<u16>,
}

impl View for EchoIntensityBlock {
    type V = Seq<u16>;

    open spec fn view(&self) -> Seq<u16> {
        self.beam_sums@
    }
}

/// Number of bytes an echo intensity block of `num_cells` bins needs.
pub open spec fn echo_block_len(num_cells: u8) -> int {
    2 + 4 * num_cells
}

/// Sum of the four beam counts of bin `i` in `block`.
pub open spec fn spec_beam_sum(block: Seq<u8>, i: int) -> u16 {
    let base = 2 + 4 * i;
    (block[base] + block[base + 1] + block[base + 2] + block[base + 3]) as u16
}

/// What [`EchoIntensityBlock::parse`] gives for `block` and `num_cells`.
pub open spec fn spec_echo_block(block: Seq<u8>, num_cells: u8) -> Result<Seq<u16>, ParseError> {
    if block.len() < echo_block_len(num_cells) {
        Err(ParseError::BlockTooShort {
            kind: BlockKind::EchoIntensity,
            len: block.len() as usize,
            expected: echo_block_len(num_cells) as usize,
        })
    } else if u16_at(block, 0) != 0x0300 {
        Err(ParseError::WrongBlockId { kind: BlockKind::EchoIntensity, found: u16_at(block, 0) })
    } else {
        Ok(Seq::new(num_cells as nat, |i: int| spec_beam_sum(block, i)))
    }
}

/// An echo intensity profile of `num_cells` cells decodes exactly when the
/// block holds `2 + 4 * num_cells` bytes and starts with the ID bytes
/// `00 03`; entry `i` is the sum of the four beam bytes `2 + 4i` to `5 + 4i`.
pub proof fn lemma_echo_fields(block: Seq<u8>, num_cells: u8)
    ensures
        spec_echo_block(block, num_cells) is Ok <==> (block.len() >= 2 + 4 * num_cells && block[0] == 0
            && block[1] == 3),
        spec_echo_block(block, num_cells) matches Ok(e) ==> {
            &&& e.len() == num_cells
            &&& forall|i: int|
                0 <= i < num_cells ==> #[trigger] e[i] as int == block[2 + 4 * i] + block[3 + 4 * i] + block[4
                    + 4 * i] + block[5 + 4 * i]
        },
{
    if let Ok(e) = spec_echo_block(block, num_cells) {
        assert forall|i: int| 0 <= i < num_cells implies #[trigger] e[i] as int == block[2 + 4 * i] + block[3 + 4
            * i] + block[4 + 4 * i] + block[5 + 4 * i] by {
            assert(e[i] == spec_beam_sum(block, i));
        }
    }
}

impl EchoIntensityBlock {
    /// Decodes an echo intensity block of `num_cells` bins from `block`,
    /// which starts at the block's ID.
    pub fn parse(block: &[u8], num_cells: u8) -> (r: Result<EchoIntensityBlock, ParseError>)
        ensures
            r is Ok <==> spec_echo_block(block@, num_cells) is Ok,
            r matches Ok(e) ==> spec_echo_block(block@, num_cells) == Ok::<Seq<u16>, ParseError>(e@),
            r matches Err(e) ==> spec_echo_block(block@, num_cells) == Err::<Seq<u16>, ParseError>(e),
            r matches Ok(e) ==> forall|i: int| 0 <= i < e@.len() ==> #[trigger] e@[i] <= 1020,
            r matches Ok(e) ==> e@.len() == num_cells && forall|i: int|
                0 <= i < num_cells ==> #[trigger] e@[i] as int == block@[2 + 4 * i] + block@[3 + 4 * i]
                    + block@[4 + 4 * i] + block@[5 + 4 * i],
    {
        proof {
            lemma_echo_fields(block@, num_cells);
        }
        let expected = 2 + 4 * num_cells as usize;
        if block.len() < expected {
            return Err(ParseError::BlockTooShort { kind: BlockKind::EchoIntensity, len: block.len(), expected });
        }
        let id = read_u16(block, 0);
        if id != 0x0300 {
            return Err(ParseError::WrongBlockId { kind: BlockKind::EchoIntensity, found: id });
        }
        let mut beam_sums: Vec<u16> = Vec::with_capacity(num_cells as usize);
        let mut i: usize = 0;
        while i < num_cells as usize
            invariant
                i <= num_cells,
                block@.len() >= echo_block_len(num_cells),
                beam_sums@.len() == i,
                forall|j: int| 0 <= j < i ==> beam_sums@[j] == spec_beam_sum(block@, j),
                forall|j: int| 0 <= j < i ==> #[trigger] beam_sums@[j] <= 1020,
            decreases num_cells - i,
        {
            let base = 2 + i * 4;
            let sum = block[base] as u16 + block[base + 1] as u16 + block[base + 2] as u16
                + block[base + 3] as u16;
            beam_sums.push(sum);
            i = i + 1;
        }
        proof {
            assert(beam_sums@ =~= Seq::new(num_cells as nat, |i: int| spec_beam_sum(block@, i)));
        }
        Ok(EchoIntensityBlock { beam_sums })
    }
}

} // verus!
