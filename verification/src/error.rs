//! The error type of the parser. Every error is fatal: it stops the parse of
//! the whole file.

use vstd::prelude::*;

verus! {

/// The data blocks of an ensemble that the parser decodes.
#[derive(Debug, Clone, Copy, PartialEq, Eq, Structural)]
pub enum BlockKind {
    /// Fixed Leader, ID `0x0000`.
    FixedLeader,
    /// Variable Leader, ID `0x0080`.
    VariableLeader,
    /// Velocity profile, ID `0x0100`.
    Velocity,
    /// Echo intensity, ID `0x0300`.
    EchoIntensity,
    /// VmDas navigation, ID `0x2000`.
    VmDasNav,
}

/// Why a parse failed.
#[derive(Debug, Clone, Copy, PartialEq, Eq, Structural)]
pub enum ParseError {
    /// The file does not start with the bytes `0x7F 0x7F`.
    FileMagic,
    /// Fewer than six bytes remain where an ensemble header starts.
    HeaderTooShort,
    /// The ensemble does not start with `0x7F 0x7F`; the two bytes found.
    BadMagic { first: u8, second: u8 },
    /// The offset table runs past the end of the data.
    OffsetTableTooShort,
    /// Entry `index` of the offset table holds `offset`, which leaves no room
    /// for a two-byte block ID.
    OffsetOutsideEnsemble { offset: u16, index: usize },
    /// An ensemble shorter than its two-byte checksum.
    ChecksumTooShort,
    /// The byte sum of the ensemble (modulo 2^16) differs from the stored checksum.
    ChecksumMismatch { computed: u16, stored: u16 },
    /// A block of `len` bytes where `expected` bytes are needed.
    BlockTooShort { kind: BlockKind, len: usize, expected: usize },
    /// A block whose two-byte ID is not the one its kind requires.
    WrongBlockId { kind: BlockKind, found: u16 },
    /// A navigation block in which neither the last nor the first GPS fix is a
    /// valid position; the four raw coordinates read.
    NoValidGpsFix { last_lat: i32, last_lon: i32, first_lat: i32, first_lon: i32 },
}

} // verus!
