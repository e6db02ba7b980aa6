//! The ensemble checksum: the last two bytes of an ensemble hold, as u16 LE,
//! the sum of all preceding bytes modulo 2^16.

use crate::bytes::{read_u16, u16_at};
use crate::error::ParseError;
use vstd::prelude::*;

verus! {

/// The sum of the bytes of `s`.
pub open spec fn byte_sum(s: Seq<u8>) -> nat
    decreases s.len(),
{
    if s.len() == 0 {
        0
    } else {
        byte_sum(s.drop_last()) + (s.last() as nat)
    }
}

/// The checksum of `payload`: its byte sum modulo 2^16.
pub open spec fn checksum_of(payload: Seq<u8>) -> u16 {
    (byte_sum(payload) % 0x1_0000) as u16
}

/// What [`validate_checksum`] gives for `ensemble`.
pub open spec fn spec_validate_checksum(ensemble: Seq<u8>) -> Result<(), ParseError> {
    if ensemble.len() < 2 {
        Err(ParseError::ChecksumTooShort)
    } else {
        let computed = checksum_of(ensemble.subrange(0, ensemble.len() - 2));
        let stored = u16_at(ensemble, ensemble.len() - 2);
        if computed != stored {
            Err(ParseError::ChecksumMismatch { computed, stored })
        } else {
            Ok(())
        }
    }
}

/// An ensemble built from a payload followed by the payload's checksum in
/// little-endian order passes validation.
pub proof fn lemma_checksum_roundtrip(payload: Seq<u8>)
    ensures
        spec_validate_checksum(
            payload + seq![(checksum_of(payload) % 256) as u8, (checksum_of(payload) / 256) as u8],
        ) == Ok::<(), ParseError>(()),
{
    let c = checksum_of(payload);
    let ens = payload + seq![(c % 256) as u8, (c / 256) as u8];
    assert(ens.subrange(0, ens.len() - 2) =~= payload);
}

/// Changing the byte at `i` to `v` changes the byte sum by `v - s[i]`.
proof fn lemma_byte_sum_update(s: Seq<u8>, i: int, v: u8)
    requires
        0 <= i < s.len(),
    ensures
        byte_sum(s.update(i, v)) == byte_sum(s) - s[i] + v,
    decreases s.len(),
{
    let t = s.update(i, v);
    if i == s.len() - 1 {
        assert(t.drop_last() =~= s.drop_last());
    } else {
        lemma_byte_sum_update(s.drop_last(), i, v);
        assert(t.drop_last() =~= s.drop_last().update(i, v));
    }
}

/// A single corrupted payload byte never goes unnoticed: if an ensemble
/// passes validation, changing any one byte before its checksum to another
/// value makes it fail with a checksum mismatch.
pub proof fn lemma_single_byte_corruption_detected(ensemble: Seq<u8>, i: int, v: u8)
    requires
        spec_validate_checksum(ensemble) is Ok,
        0 <= i < ensemble.len() - 2,
        v != ensemble[i],
    ensures
        spec_validate_checksum(ensemble.update(i, v)) matches Err(ParseError::ChecksumMismatch { .. }),
{
    let len = ensemble.len();
    let corrupted = ensemble.update(i, v);
    let payload = ensemble.subrange(0, len - 2);
    assert(corrupted.subrange(0, len - 2) =~= payload.update(i, v));
    lemma_byte_sum_update(payload, i, v);
    assert(u16_at(corrupted, len - 2) == u16_at(ensemble, len - 2));
    let a = byte_sum(payload) as int;
    let b = byte_sum(payload.update(i, v)) as int;
    assert(b == a - ensemble[i] + v);
    assert(a % 0x1_0000 != b % 0x1_0000) by {
        let d = b - a;
        assert(-256 < d < 256 && d != 0);
        if a % 0x1_0000 == b % 0x1_0000 {
            assert((b - a) % 0x1_0000 == 0) by (nonlinear_arith)
                requires
                    a % 0x1_0000 == b % 0x1_0000,
            ;
        }
    }
}

/// Checks the stored checksum at the end of `ensemble` against the byte sum
/// of the rest of it.
pub fn validate_checksum(ensemble: &[u8]) -> (r: Result<(), ParseError>)
    ensures
        r == spec_validate_checksum(ensemble@),
        r is Ok <==> ensemble@.len() >= 2 && byte_sum(ensemble@.subrange(0, ensemble@.len() - 2)) % 0x1_0000
            == ensemble@[ensemble@.len() - 2] + 256 * ensemble@[ensemble@.len() - 1],
{
    let len = ensemble.len();
    if len < 2 {
        return Err(ParseError::ChecksumTooShort);
    }
    let stored = read_u16(ensemble, len - 2);
    let mut acc: u32 = 0;
    let mut i: usize = 0;
    while i < len - 2
        invariant
            len == ensemble@.len(),
            len >= 2,
            i <= len - 2,
            acc < 0x1_0000,
            acc == byte_sum(ensemble@.take(i as int)) % 0x1_0000,
        decreases len - 2 - i,
    {
        proof {
            assert(ensemble@.take(i + 1).drop_last() =~= ensemble@.take(i as int));
        }
        acc = (acc + ensemble[i] as u32) % 0x1_0000;
        i = i + 1;
    }
    let computed = acc as u16;
    proof {
        assert(ensemble@.take(i as int) =~= ensemble@.subrange(0, len - 2));
    }
    if computed != stored {
        return Err(ParseError::ChecksumMismatch { computed, stored });
    }
    Ok(())
}

} // verus!
