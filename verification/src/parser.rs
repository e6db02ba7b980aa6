//! The file-level loop: finds each ensemble by its `0x7F 0x7F` magic bytes,
//! validates its header and checksum, and decodes it.
//!
//! Bytes that do not start an ensemble are skipped one at a time. A header
//! error, a checksum mismatch or a malformed required block stops the whole
//! parse. An ensemble that runs past the end of the data ends the parse
//! normally.

use crate::checksum::{spec_validate_checksum, validate_checksum};
use crate::ensemble::{
    lemma_ensemble_summary_bounds, parse_ensemble, ping_well_formed, spec_ensemble, Ping, PingView,
};
use crate::error::ParseError;
use crate::header::{lemma_header_extend, lemma_header_offsets_inside, spec_parse_header, Header};
use vstd::prelude::*;

verus! {

/// The pings of a file and the counts reported beside them.
pub struct ParseResult {
    /// The pings kept, in file order.
    pub pings: Vec<Ping>,
    /// Every ensemble that passed its checksum.
    pub total_pings: u32,
    /// Bins dropped for carrying the missing-data sentinel.
    pub dropped_corrupt_bins: u32,
    /// Ensembles with all acoustic blocks but no valid navigation block.
    pub pings_without_gps: u32,
}

/// The mathematical value of a [`ParseResult`], and the running totals of the scan.
pub struct ScanTotals {
    pub pings: Seq<PingView>,
    pub total_pings: nat,
    pub dropped_corrupt_bins: nat,
    pub pings_without_gps: nat,
}

impl View for ParseResult {
    type V = ScanTotals;

    open spec fn view(&self) -> ScanTotals {
        ScanTotals {
            pings: self.pings@.map_values(|p: Ping| p@),
            total_pings: self.total_pings as nat,
            dropped_corrupt_bins: self.dropped_corrupt_bins as nat,
            pings_without_gps: self.pings_without_gps as nat,
        }
    }
}

/// Nothing counted yet.
pub open spec fn empty_totals() -> ScanTotals {
    ScanTotals { pings: Seq::empty(), total_pings: 0, dropped_corrupt_bins: 0, pings_without_gps: 0 }
}

/// The totals after one more decoded ensemble.
pub open spec fn add_ensemble(acc: ScanTotals, ping: Option<PingView>, dropped: nat, without_gps: nat) -> ScanTotals {
    ScanTotals {
        pings: match ping {
            Some(p) => acc.pings.push(p),
            None => acc.pings,
        },
        total_pings: acc.total_pings + 1,
        dropped_corrupt_bins: acc.dropped_corrupt_bins + dropped,
        pings_without_gps: acc.pings_without_gps + without_gps,
    }
}

/// The totals of two parts taken together: pings one after the other,
/// counts added.
pub open spec fn combine(a: ScanTotals, b: ScanTotals) -> ScanTotals {
    ScanTotals {
        pings: a.pings + b.pings,
        total_pings: a.total_pings + b.total_pings,
        dropped_corrupt_bins: a.dropped_corrupt_bins + b.dropped_corrupt_bins,
        pings_without_gps: a.pings_without_gps + b.pings_without_gps,
    }
}

/// The parse of `data` from position `pos` on, with `acc` counted so far.
pub open spec fn scan(data: Seq<u8>, pos: nat, acc: ScanTotals) -> Result<ScanTotals, ParseError>
    decreases data.len() - pos,
{
    if pos + 2 > data.len() {
        Ok(acc)
    } else if data[pos as int] != 0x7F || data[(pos + 1) as int] != 0x7F {
        scan(data, pos + 1, acc)
    } else {
        match spec_parse_header(data.subrange(pos as int, data.len() as int)) {
            Err(e) => Err(e),
            Ok(h) => {
                let elen = h.bytes_in_ensemble + 2;
                if pos + elen > data.len() {
                    Ok(acc)
                } else {
                    let ens = data.subrange(pos as int, pos + elen);
                    match spec_validate_checksum(ens) {
                        Err(e) => Err(e),
                        Ok(_) => match spec_ensemble(ens, h.offsets) {
                            Err(e) => Err(e),
                            Ok(s) => scan(
                                data,
                                (pos + elen) as nat,
                                add_ensemble(acc, s.ping, s.dropped, s.without_gps),
                            ),
                        },
                    }
                }
            },
        }
    }
}

/// What parsing the whole file `data` gives.
pub open spec fn spec_parse_file(data: Seq<u8>) -> Result<ScanTotals, ParseError> {
    if data.len() < 2 || data[0] != 0x7F || data[1] != 0x7F {
        Err(ParseError::FileMagic)
    } else {
        scan(data, 0, empty_totals())
    }
}

/// The counts of a parse agree with its pings: no more pings than
/// ensembles, no more ensembles without GPS than ensembles, and every ping
/// well formed (1 to 255 bins in cell order, none with the missing-data
/// sentinel, every mean intensity within 0–255).
pub open spec fn totals_consistent(t: ScanTotals) -> bool {
    &&& t.pings.len() <= t.total_pings
    &&& t.pings_without_gps <= t.total_pings
    &&& forall|i: int| 0 <= i < t.pings.len() ==> ping_well_formed(#[trigger] t.pings[i])
}

proof fn lemma_scan_consistent(data: Seq<u8>, pos: nat, acc: ScanTotals)
    requires
        totals_consistent(acc),
    ensures
        scan(data, pos, acc) matches Ok(t) ==> totals_consistent(t),
    decreases data.len() - pos,
{
    if pos + 2 > data.len() {
    } else if data[pos as int] != 0x7F || data[(pos + 1) as int] != 0x7F {
        lemma_scan_consistent(data, pos + 1, acc);
    } else if let Ok(h) = spec_parse_header(data.subrange(pos as int, data.len() as int)) {
        let elen = h.bytes_in_ensemble + 2;
        if pos + elen <= data.len() {
            let ens = data.subrange(pos as int, pos + elen);
            lemma_header_offsets_inside(data.subrange(pos as int, data.len() as int));
            lemma_ensemble_summary_bounds(ens, h.offsets);
            if let Ok(s) = spec_ensemble(ens, h.offsets) {
                let next = add_ensemble(acc, s.ping, s.dropped, s.without_gps);
                assert forall|i: int| 0 <= i < next.pings.len() implies ping_well_formed(#[trigger] next.pings[i]) by {
                    if i < acc.pings.len() {
                        assert(next.pings[i] == acc.pings[i]);
                    }
                }
                lemma_scan_consistent(data, (pos + elen) as nat, next);
            }
        }
    }
}

/// The counts reported for a parsed file agree with its pings: there are no
/// more valid pings and no more pings without GPS than ensembles, and every
/// ping kept has between 1 and 255 bins, in cell order, none of them a
/// missing-data bin, each with a mean intensity within 0–255.
pub proof fn lemma_parse_file_consistent(data: Seq<u8>)
    ensures
        spec_parse_file(data) matches Ok(t) ==> totals_consistent(t),
{
    if !(data.len() < 2 || data[0] != 0x7F || data[1] != 0x7F) {
        lemma_scan_consistent(data, 0, empty_totals());
    }
}

/// Strictness: when the first ensemble of a file fits in it but fails its
/// checksum, the whole parse fails with that checksum error.
pub proof fn lemma_bad_first_checksum_is_fatal(data: Seq<u8>)
    requires
        data.len() >= 2,
        data[0] == 0x7F && data[1] == 0x7F,
        spec_parse_header(data) is Ok,
        spec_parse_header(data)->Ok_0.bytes_in_ensemble + 2 <= data.len(),
        spec_validate_checksum(data.subrange(0, spec_parse_header(data)->Ok_0.bytes_in_ensemble + 2)) is Err,
    ensures
        spec_parse_file(data) == Err::<ScanTotals, ParseError>(
            spec_validate_checksum(data.subrange(0, spec_parse_header(data)->Ok_0.bytes_in_ensemble + 2))->Err_0,
        ),
{
    assert(data.subrange(0, data.len() as int) =~= data);
}

/// The result of a scan with totals `acc` already counted, given its result
/// from scratch.
pub open spec fn after(acc: ScanTotals, r: Result<ScanTotals, ParseError>) -> Result<ScanTotals, ParseError> {
    match r {
        Ok(t) => Ok(combine(acc, t)),
        Err(e) => Err(e),
    }
}

/// A scan with totals already counted ends with those totals combined with
/// what the same scan counts from scratch.
proof fn lemma_scan_after(data: Seq<u8>, pos: nat, acc: ScanTotals)
    ensures
        scan(data, pos, acc) == after(acc, scan(data, pos, empty_totals())),
    decreases data.len() - pos,
{
    if pos + 2 > data.len() {
        assert(combine(acc, empty_totals()).pings =~= acc.pings);
        assert(combine(acc, empty_totals()) == acc);
    } else if data[pos as int] != 0x7F || data[(pos + 1) as int] != 0x7F {
        lemma_scan_after(data, pos + 1, acc);
        lemma_scan_after(data, pos + 1, empty_totals());
    } else if let Ok(h) = spec_parse_header(data.subrange(pos as int, data.len() as int)) {
        let elen = h.bytes_in_ensemble + 2;
        if pos + elen <= data.len() {
            let ens = data.subrange(pos as int, pos + elen);
            if spec_validate_checksum(ens) is Ok {
                if let Ok(s) = spec_ensemble(ens, h.offsets) {
                    let next = (pos + elen) as nat;
                    let a1 = add_ensemble(acc, s.ping, s.dropped, s.without_gps);
                    let a0 = add_ensemble(empty_totals(), s.ping, s.dropped, s.without_gps);
                    lemma_scan_after(data, next, a1);
                    lemma_scan_after(data, next, a0);
                    lemma_scan_after(data, next, empty_totals());
                    if let Ok(t) = scan(data, next, empty_totals()) {
                        assert(combine(acc, combine(a0, t)).pings =~= combine(a1, t).pings);
                        assert(combine(acc, combine(a0, t)) == combine(a1, t));
                    }
                }
            }
        }
    } else {
    }
}

/// Scanning a part that follows `e` is scanning that part alone.
proof fn lemma_scan_shift(e: Seq<u8>, f: Seq<u8>, q: nat, acc: ScanTotals)
    ensures
        scan(e + f, e.len() + q, acc) == scan(f, q, acc),
    decreases f.len() - q,
{
    let x = e + f;
    let p = e.len() + q;
    if q + 2 <= f.len() {
        assert(x[p as int] == f[q as int] && x[(p + 1) as int] == f[(q + 1) as int]);
        assert(x.subrange(p as int, x.len() as int) =~= f.subrange(q as int, f.len() as int));
        if f[q as int] != 0x7F || f[(q + 1) as int] != 0x7F {
            lemma_scan_shift(e, f, q + 1, acc);
        } else if let Ok(h) = spec_parse_header(f.subrange(q as int, f.len() as int)) {
            let elen = h.bytes_in_ensemble + 2;
            if q + elen <= f.len() {
                assert(x.subrange(p as int, p + elen) =~= f.subrange(q as int, q + elen));
                let ens = f.subrange(q as int, q + elen);
                if spec_validate_checksum(ens) is Ok {
                    if let Ok(s) = spec_ensemble(ens, h.offsets) {
                        lemma_scan_shift(e, f, (q + elen) as nat, add_ensemble(acc, s.ping, s.dropped, s.without_gps));
                    }
                }
            }
        }
    }
}

/// `data` from `pos` on is a run of whole ensembles, each starting with the
/// magic bytes, with a header that decodes and the length it announces, the
/// last one ending exactly at the end of `data`.
pub open spec fn tiles(data: Seq<u8>, pos: nat) -> bool
    decreases data.len() - pos,
{
    if pos >= data.len() {
        pos == data.len()
    } else if pos + 2 > data.len() {
        false
    } else if data[pos as int] != 0x7F || data[(pos + 1) as int] != 0x7F {
        false
    } else {
        match spec_parse_header(data.subrange(pos as int, data.len() as int)) {
            Err(_) => false,
            Ok(h) => {
                if pos + h.bytes_in_ensemble + 2 > data.len() {
                    false
                } else {
                    tiles(data, (pos + h.bytes_in_ensemble + 2) as nat)
                }
            },
        }
    }
}

/// `data` is a non-empty run of whole ensembles.
pub open spec fn is_ensemble_run(data: Seq<u8>) -> bool {
    data.len() > 0 && tiles(data, 0)
}

/// Scanning a run of whole ensembles followed by anything visits the run
/// exactly as it visits it alone, then goes on from its end.
proof fn lemma_scan_prefix(e: Seq<u8>, f: Seq<u8>, pos: nat, acc: ScanTotals)
    requires
        tiles(e, pos),
    ensures
        scan(e + f, pos, acc) == (match scan(e, pos, acc) {
            Ok(t) => scan(e + f, e.len(), t),
            Err(err) => Err(err),
        }),
    decreases e.len() - pos,
{
    let x = e + f;
    if pos < e.len() {
        assert(x[pos as int] == e[pos as int] && x[(pos + 1) as int] == e[(pos + 1) as int]);
        let be = e.subrange(pos as int, e.len() as int);
        let h = spec_parse_header(be)->Ok_0;
        assert(x.subrange(pos as int, x.len() as int) =~= be + f);
        lemma_header_extend(be, f);
        let elen = h.bytes_in_ensemble + 2;
        assert(x.subrange(pos as int, pos + elen) =~= e.subrange(pos as int, pos + elen));
        let ens = e.subrange(pos as int, pos + elen);
        if spec_validate_checksum(ens) is Ok {
            if let Ok(s) = spec_ensemble(ens, h.offsets) {
                lemma_scan_prefix(e, f, (pos + elen) as nat, add_ensemble(acc, s.ping, s.dropped, s.without_gps));
            }
        }
    }
}

/// Files made of whole ensembles parse piecewise: parsing a run of whole
/// ensembles `e` followed by a file `f` gives the pings of `e` then those of
/// `f`, with the counts added.
pub proof fn lemma_parse_file_concat(e: Seq<u8>, f: Seq<u8>)
    requires
        is_ensemble_run(e),
        spec_parse_file(e) is Ok,
        spec_parse_file(f) is Ok,
    ensures
        spec_parse_file(e + f) == Ok::<ScanTotals, ParseError>(
            combine(spec_parse_file(e)->Ok_0, spec_parse_file(f)->Ok_0),
        ),
{
    let x = e + f;
    assert(x[0] == e[0] && x[1] == e[1]);
    lemma_scan_prefix(e, f, 0, empty_totals());
    let a = spec_parse_file(e)->Ok_0;
    lemma_scan_shift(e, f, 0, a);
    lemma_scan_after(f, 0, a);
}

/// Filler between ensembles is skipped: bytes holding no `0x7F` placed after
/// a run of whole ensembles change nothing in the parse.
pub proof fn lemma_parse_file_skips_filler(e: Seq<u8>, g: Seq<u8>, f: Seq<u8>)
    requires
        is_ensemble_run(e),
        forall|i: int| 0 <= i < g.len() ==> #[trigger] g[i] != 0x7F,
    ensures
        spec_parse_file(e + g + f) == spec_parse_file(e + f),
{
    let x = e + (g + f);
    assert(e + g + f =~= x);
    assert(x[0] == e[0] && x[1] == e[1]);
    assert((e + f)[0] == e[0] && (e + f)[1] == e[1]);
    lemma_scan_prefix(e, g + f, 0, empty_totals());
    lemma_scan_prefix(e, f, 0, empty_totals());
    if let Ok(a) = scan(e, 0, empty_totals()) {
        lemma_scan_shift(e, g + f, 0, a);
        lemma_scan_shift(e, f, 0, a);
        lemma_scan_filler(g, f, 0, a);
    }
}

/// Scanning through filler bytes reaches the part after them unchanged.
proof fn lemma_scan_filler(g: Seq<u8>, f: Seq<u8>, i: nat, acc: ScanTotals)
    requires
        i <= g.len(),
        forall|k: int| 0 <= k < g.len() ==> #[trigger] g[k] != 0x7F,
    ensures
        scan(g + f, i, acc) == scan(f, 0, acc),
    decreases g.len() - i,
{
    if i == g.len() {
        lemma_scan_shift(g, f, 0, acc);
    } else {
        let x = g + f;
        assert(x[i as int] == g[i as int]);
        lemma_scan_filler(g, f, i + 1, acc);
    }
}

/// Parses the file `data`: every ensemble in it, its pings and the counts
/// reported beside them.
pub fn parse_file(data: &[u8]) -> (r: Result<ParseResult, ParseError>)
    requires
        data@.len() <= u32::MAX,
    ensures
        match spec_parse_file(data@) {
            Ok(t) => r matches Ok(res) && res@ == t,
            Err(e) => r matches Err(e2) && e2 == e,
        },
        r matches Ok(res) ==> totals_consistent(res@),
{
    proof {
        lemma_parse_file_consistent(data@);
    }
    if data.len() < 2 || data[0] != 0x7F || data[1] != 0x7F {
        return Err(ParseError::FileMagic);
    }
    let mut pings: Vec<Ping> = Vec::new();
    let mut total_pings: u32 = 0;
    let mut dropped_corrupt_bins: u32 = 0;
    let mut pings_without_gps: u32 = 0;
    let mut pos: usize = 0;
    assert(pings@.map_values(|p: Ping| p@) =~= Seq::<PingView>::empty());
    while data.len() - pos >= 2
        invariant
            pos <= data@.len() <= u32::MAX,
            total_pings + dropped_corrupt_bins <= pos,
            pings_without_gps <= total_pings,
            spec_parse_file(data@) matches Ok(t) ==> totals_consistent(t),
            spec_parse_file(data@) == scan(
                data@,
                pos as nat,
                ScanTotals {
                    pings: pings@.map_values(|p: Ping| p@),
                    total_pings: total_pings as nat,
                    dropped_corrupt_bins: dropped_corrupt_bins as nat,
                    pings_without_gps: pings_without_gps as nat,
                },
            ),
        decreases data@.len() - pos,
    {
        if data[pos] != 0x7F || data[pos + 1] != 0x7F {
            pos = pos + 1;
        } else {
            let header = match Header::parse(&data[pos..data.len()]) {
                Ok(h) => h,
                Err(e) => {
                    return Err(e);
                },
            };
            let ensemble_len = header.bytes_in_ensemble as usize + 2;
            if ensemble_len > data.len() - pos {
                return Ok(ParseResult { pings, total_pings, dropped_corrupt_bins, pings_without_gps });
            }
            let ensemble = &data[pos..pos + ensemble_len];
            match validate_checksum(ensemble) {
                Ok(()) => {},
                Err(e) => {
                    return Err(e);
                },
            }
            proof {
                lemma_ensemble_summary_bounds(ensemble@, header.offsets@);
            }
            let ghost old_pings = pings@;
            total_pings = total_pings + 1;
            match parse_ensemble(ensemble, &header, &mut dropped_corrupt_bins, &mut pings_without_gps) {
                Ok(p) => {
                    match p {
                        Some(ping) => {
                            pings.push(ping);
                            proof {
                                assert(pings@.map_values(|p: Ping| p@) =~= old_pings.map_values(
                                    |p: Ping| p@,
                                ).push(pings@.last()@));
                            }
                        },
                        None => {},
                    }
                },
                Err(e) => {
                    return Err(e);
                },
            }
            pos = pos + ensemble_len;
        }
    }
    Ok(ParseResult { pings, total_pings, dropped_corrupt_bins, pings_without_gps })
}

} // verus!
