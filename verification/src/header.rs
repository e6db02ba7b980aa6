//! The PD0 ensemble header: magic bytes, ensemble length and the table of
//! block offsets.
//!
//! Layout: bytes 0–1 are `0x7F 0x7F`, bytes 2–3 the ensemble length without
//! the checksum (u16 LE), byte 4 is reserved, byte 5 the number of data
//! types `n`, and bytes `6 + 2i` hold the offset of block `i` (u16 LE).
//! The ID of each block is the u16 LE found at its offset, which must lie
//! inside the ensemble (its `bytes_in_ensemble + 2` bytes, checksum
//! included) and inside the data. An offset of 3 or 4 points into the
//! header itself, and the ID is then read from the header bytes.

use crate::bytes::{read_u16, u16_at};
use crate::error::ParseError;
use vstd::prelude::*;

verus! {

/// A decoded ensemble header.
pub struct Header {
    /// Total bytes in this ensemble **excluding** the 2-byte checksum.
    pub bytes_in_ensemble: u16,
    /// (block_id, offset_from_ensemble_start) for every data type in this ensemble.
    pub offsets: Vec<(u16, u16)>,
}

/// The mathematical value of a [`Header`].
pub struct HeaderView {
    pub bytes_in_ensemble: u16,
    pub offsets: Seq<(u16, u16)>,
}

impl View for Header {
    type V = HeaderView;

    open spec fn view(&self) -> HeaderView {
        HeaderView { bytes_in_ensemble: self.bytes_in_ensemble, offsets: self.offsets@ }
    }
}

/// The offset stored in entry `i` of the offset table.
pub open spec fn offset_entry(buf: Seq<u8>, i: int) -> u16 {
    u16_at(buf, 6 + 2 * i)
}

/// The first `k` entries of the offset table, each paired with the block ID
/// found at its offset, or the error for the first entry whose offset leaves
/// no room for an ID inside the ensemble or inside `buf`.
pub open spec fn offset_table(buf: Seq<u8>, k: nat) -> Result<Seq<(u16, u16)>, ParseError>
    decreases k,
{
    if k == 0 {
        Ok(Seq::empty())
    } else {
        match offset_table(buf, (k - 1) as nat) {
            Err(e) => Err(e),
            Ok(s) => {
                let off = offset_entry(buf, k - 1);
                if off + 2 > buf.len() || off + 2 > ensemble_len(buf) {
                    Err(ParseError::OffsetOutsideEnsemble { offset: off, index: (k - 1) as usize })
                } else {
                    Ok(s.push((u16_at(buf, off as int), off)))
                }
            },
        }
    }
}

/// The length of the ensemble that starts `buf`, checksum included.
pub open spec fn ensemble_len(buf: Seq<u8>) -> int {
    u16_at(buf, 2) + 2
}

/// What [`Header::parse`] gives for `buf`.
pub open spec fn spec_parse_header(buf: Seq<u8>) -> Result<HeaderView, ParseError> {
    if buf.len() < 6 {
        Err(ParseError::HeaderTooShort)
    } else if buf[0] != 0x7F || buf[1] != 0x7F {
        Err(ParseError::BadMagic { first: buf[0], second: buf[1] })
    } else if buf.len() < 6 + 2 * buf[5] {
        Err(ParseError::OffsetTableTooShort)
    } else {
        match offset_table(buf, buf[5] as nat) {
            Ok(o) => Ok(HeaderView { bytes_in_ensemble: u16_at(buf, 2), offsets: o }),
            Err(e) => Err(e),
        }
    }
}

/// Once a prefix of the offset table fails, every longer prefix fails the same way.
proof fn lemma_offset_table_err_persists(buf: Seq<u8>, k: nat, m: nat)
    requires
        k <= m,
        offset_table(buf, k) is Err,
    ensures
        offset_table(buf, m) == offset_table(buf, k),
    decreases m - k,
{
    if k < m {
        lemma_offset_table_err_persists(buf, k, (m - 1) as nat);
    }
}

/// A successful offset table of `k` entries has exactly `k` entries, and
/// each offset leaves room for a block ID.
pub proof fn lemma_offset_table_ok(buf: Seq<u8>, k: nat)
    requires
        offset_table(buf, k) is Ok,
    ensures
        offset_table(buf, k)->Ok_0.len() == k,
        forall|i: int|
            0 <= i < k ==> {
                let e = #[trigger] offset_table(buf, k)->Ok_0[i];
                &&& e.1 + 2 <= buf.len()
                &&& e.1 + 2 <= ensemble_len(buf)
                &&& e.0 == u16_at(buf, e.1 as int)
                &&& e.1 == offset_entry(buf, i)
            },
    decreases k,
{
    if k > 0 {
        lemma_offset_table_ok(buf, (k - 1) as nat);
    }
}

/// Every block offset of a decoded header leaves room for a block ID inside
/// the ensemble.
pub proof fn lemma_header_offsets_inside(buf: Seq<u8>)
    ensures
        spec_parse_header(buf) matches Ok(h) ==> forall|i: int|
            0 <= i < h.offsets.len() ==> #[trigger] h.offsets[i].1 + 2 <= h.bytes_in_ensemble + 2,
{
    if let Ok(h) = spec_parse_header(buf) {
        lemma_offset_table_ok(buf, buf[5] as nat);
    }
}

/// The decoded header carries the little-endian values of its bytes: the
/// ensemble length from bytes 2–3, one table entry per data type (byte 5),
/// entry `i` holding the full u16 at bytes `6 + 2i`, `7 + 2i` and, beside
/// it, the full u16 found at that offset.
pub proof fn lemma_header_fields(buf: Seq<u8>)
    ensures
        spec_parse_header(buf) matches Ok(h) ==> {
            &&& h.bytes_in_ensemble as int == buf[2] + 256 * buf[3]
            &&& h.offsets.len() == buf[5]
            &&& forall|i: int|
                0 <= i < h.offsets.len() ==> {
                    let e = #[trigger] h.offsets[i];
                    &&& e.1 as int == buf[6 + 2 * i] + 256 * buf[7 + 2 * i]
                    &&& e.1 + 2 <= buf.len()
                    &&& e.0 as int == buf[e.1 as int] + 256 * buf[e.1 + 1]
                }
        },
{
    if let Ok(h) = spec_parse_header(buf) {
        lemma_offset_table_ok(buf, buf[5] as nat);
    }
}

/// Bytes after the data do not change an offset table that decodes.
proof fn lemma_offset_table_extend(x: Seq<u8>, y: Seq<u8>, k: nat)
    requires
        x.len() >= 6 + 2 * k,
        offset_table(x, k) is Ok,
    ensures
        offset_table(x + y, k) == offset_table(x, k),
    decreases k,
{
    if k > 0 {
        lemma_offset_table_extend(x, y, (k - 1) as nat);
        let xy = x + y;
        assert(xy[2] == x[2] && xy[3] == x[3]);
        assert(xy[6 + 2 * (k - 1)] == x[6 + 2 * (k - 1)]);
        assert(xy[6 + 2 * (k - 1) + 1] == x[6 + 2 * (k - 1) + 1]);
        let off = offset_entry(x, k - 1);
        assert(off + 2 <= x.len());
        assert(xy[off as int] == x[off as int] && xy[off + 1] == x[off + 1]);
    }
}

/// A header that decodes from `x` decodes the same with more bytes after it.
pub proof fn lemma_header_extend(x: Seq<u8>, y: Seq<u8>)
    requires
        spec_parse_header(x) is Ok,
    ensures
        spec_parse_header(x + y) == spec_parse_header(x),
{
    let xy = x + y;
    assert(xy[0] == x[0] && xy[1] == x[1] && xy[2] == x[2] && xy[3] == x[3] && xy[5] == x[5]);
    lemma_offset_table_extend(x, y, x[5] as nat);
}

impl Header {
    /// Decodes the header at the start of `buf`, which must begin at the
    /// ensemble's magic bytes.
    pub fn parse(buf: &[u8]) -> (r: Result<Header, ParseError>)
        ensures
            r is Ok <==> spec_parse_header(buf@) is Ok,
            r matches Ok(h) ==> spec_parse_header(buf@) == Ok::<HeaderView, ParseError>(h@),
            r matches Err(e) ==> spec_parse_header(buf@) == Err::<HeaderView, ParseError>(e),
            r matches Ok(h) ==> {
                &&& h.offsets@.len() == buf@[5]
                &&& forall|i: int|
                    0 <= i < h.offsets@.len() ==> {
                        let e = #[trigger] h.offsets@[i];
                        &&& e.1 + 2 <= buf@.len()
                        &&& e.1 + 2 <= h.bytes_in_ensemble + 2
                        &&& e.0 == u16_at(buf@, e.1 as int)
                        &&& e.1 == offset_entry(buf@, i)
                    }
            },
            r matches Ok(h) ==> {
                &&& h.bytes_in_ensemble as int == buf@[2] + 256 * buf@[3]
                &&& forall|i: int|
                    0 <= i < h.offsets@.len() ==> {
                        let e = #[trigger] h.offsets@[i];
                        &&& e.1 as int == buf@[6 + 2 * i] + 256 * buf@[7 + 2 * i]
                        &&& e.0 as int == buf@[e.1 as int] + 256 * buf@[e.1 + 1]
                    }
            },
    {
        if buf.len() < 6 {
            return Err(ParseError::HeaderTooShort);
        }
        if buf[0] != 0x7F || buf[1] != 0x7F {
            return Err(ParseError::BadMagic { first: buf[0], second: buf[1] });
        }
        let bytes_in_ensemble = read_u16(buf, 2);
        // buf[4] is reserved
        let num_types = buf[5] as usize;
        let header_size = 6 + num_types * 2;
        if buf.len() < header_size {
            return Err(ParseError::OffsetTableTooShort);
        }
        let mut offsets: Vec<(u16, u16)> = Vec::with_capacity(num_types);
        let mut i: usize = 0;
        while i < num_types
            invariant
                0 <= i <= num_types,
                num_types == buf@[5],
                buf@[0] == 0x7F && buf@[1] == 0x7F,
                bytes_in_ensemble == u16_at(buf@, 2),
                6 + 2 * num_types <= buf@.len(),
                offset_table(buf@, i as nat) == Ok::<Seq<(u16, u16)>, ParseError>(offsets@),
            decreases num_types - i,
        {
            let off_pos = 6 + i * 2;
            let offset = read_u16(buf, off_pos);
            if (offset as usize) + 2 > buf.len() || offset > bytes_in_ensemble {
                proof {
                    assert(offset_table(buf@, (i + 1) as nat) == Err::<Seq<(u16, u16)>, ParseError>(
                        ParseError::OffsetOutsideEnsemble { offset, index: i },
                    ));
                    lemma_offset_table_err_persists(buf@, (i + 1) as nat, num_types as nat);
                }
                return Err(ParseError::OffsetOutsideEnsemble { offset, index: i });
            }
            let block_id = read_u16(buf, offset as usize);
            offsets.push((block_id, offset));
            i = i + 1;
        }
        proof {
            lemma_offset_table_ok(buf@, num_types as nat);
            lemma_header_fields(buf@);
        }
        Ok(Header { bytes_in_ensemble, offsets })
    }
}

} // verus!
