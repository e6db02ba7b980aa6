//! Decoding one ensemble: finding its blocks by ID and assembling the ping
//! from them.
//!
//! Blocks are found by their ID, not by their place in the offset table.
//! Every Fixed Leader, Variable Leader, velocity and echo intensity block
//! that the table lists must decode; any failure is fatal. The kinds are
//! decoded in a fixed order (Fixed Leaders, Variable Leaders, velocity, echo
//! intensity, each kind in table order), so for a table with distinct IDs
//! the order of the table does not matter. The velocity and echo intensity
//! profiles are decoded with the cell count of the last Fixed Leader, and
//! only where there is one. Where a kind is listed more than once, the last
//! block listed is kept. For navigation, the last block with a valid fix is
//! kept; a navigation block without a valid fix is ignored.
//!
//! An ensemble lacking one of the four acoustic blocks is not an error: it
//! counts among the ensembles read but yields no ping. A ping without a
//! valid navigation block is kept, without a position, and counted as
//! lacking GPS. Bins whose East velocity is the missing-data sentinel are
//! dropped and counted; a ping left with no bin is dropped.

use crate::echo_intensity::{spec_beam_sum, spec_echo_block, EchoIntensityBlock};
use crate::error::ParseError;
use crate::fixed_leader::{spec_fixed_leader, FixedLeader};
use crate::header::Header;
use crate::variable_leader::{spec_variable_leader, VariableLeader, VariableLeaderView};
use crate::velocity::{spec_velocity_bin, spec_velocity_block, VelocityBin, VelocityBlock, MISSING_VELOCITY};
use crate::vmdas_nav::{spec_vmdas_nav, VmDasNav};
use vstd::prelude::*;

verus! {

/// Block ID of the Fixed Leader.
pub const FIXED_LEADER_ID: u16 = 0x0000;
/// Block ID of the Variable Leader.
pub const VARIABLE_LEADER_ID: u16 = 0x0080;
/// Block ID of the velocity profile.
pub const VELOCITY_ID: u16 = 0x0100;
/// Block ID of the echo intensity profile.
pub const ECHO_INTENSITY_ID: u16 = 0x0300;
/// Block ID of the VmDas navigation block.
pub const VMDAS_NAV_ID: u16 = 0x2000;

/// One valid depth bin of a ping, in the instrument's integer units.
#[derive(Debug, Clone, Copy, PartialEq, Eq, Structural)]
pub struct DepthBin {
    /// 0-based index of the bin, counted from the transducer.
    pub bin_index: usize,
    /// East velocity in mm/s.
    pub u_mm_s: i16,
    /// North velocity in mm/s.
    pub v_mm_s: i16,
    /// Vertical velocity in mm/s.
    pub w_mm_s: i16,
    /// Sum of the four beam intensities (the mean is a quarter of it).
    pub beam_sum: u16,
}

/// One decoded ping.
pub struct Ping {
    /// ISO-8601 timestamp of the ensemble.
    pub timestamp: String,
    /// GPS position, where the ensemble has a valid navigation block.
    pub nav: Option<VmDasNav>,
    /// Blank-after-transmit distance in centimeters.
    pub blank_distance_cm: u16,
    /// Cell size in centimeters.
    pub cell_size_cm: u16,
    /// Transducer depth in decimeters.
    pub transducer_depth_dm: u16,
    /// The valid bins, in increasing bin order.
    pub bins: Vec<DepthBin>,
}

/// The mathematical value of a [`Ping`].
pub struct PingView {
    pub timestamp: Seq<char>,
    pub nav: Option<VmDasNav>,
    pub blank_distance_cm: u16,
    pub cell_size_cm: u16,
    pub transducer_depth_dm: u16,
    pub bins: Seq<DepthBin>,
}

impl View for Ping {
    type V = PingView;

    open spec fn view(&self) -> PingView {
        PingView {
            timestamp: self.timestamp@,
            nav: self.nav,
            blank_distance_cm: self.blank_distance_cm,
            cell_size_cm: self.cell_size_cm,
            transducer_depth_dm: self.transducer_depth_dm,
            bins: self.bins@,
        }
    }
}

/// The blocks decoded from an ensemble.
pub struct Blocks {
    pub fixed: Option<FixedLeader>,
    pub variable: Option<VariableLeaderView>,
    pub velocity: Option<Seq<Option<VelocityBin>>>,
    pub echo: Option<Seq<u16>>,
    pub nav: Option<VmDasNav>,
}

/// The last offset that the table `offsets` lists for the block ID `id`
/// (for a table with distinct IDs, the only one).
pub open spec fn offset_of(offsets: Seq<(u16, u16)>, id: u16) -> Option<u16>
    decreases offsets.len(),
{
    if offsets.len() == 0 {
        None
    } else if offsets.last().0 == id {
        Some(offsets.last().1)
    } else {
        offset_of(offsets.drop_last(), id)
    }
}

/// Every offset of the table lies inside `len` bytes.
pub open spec fn offsets_inside(offsets: Seq<(u16, u16)>, len: int) -> bool {
    forall|i: int| 0 <= i < offsets.len() ==> #[trigger] offsets[i].1 <= len
}

/// The bytes of `ens` from `off` to its end.
pub open spec fn block_at(ens: Seq<u8>, off: u16) -> Seq<u8> {
    ens.subrange(off as int, ens.len() as int)
}

/// The value of a decoded required block.
pub enum BlockValue {
    Fixed(FixedLeader),
    Variable(VariableLeaderView),
    Velocity(Seq<Option<VelocityBin>>),
    Echo(Seq<u16>),
}

/// Decodes the block of the required kind `id` at `off`, profiles with
/// `num_cells` cells.
pub open spec fn decode_required(ens: Seq<u8>, id: u16, off: u16, num_cells: u8) -> Result<BlockValue, ParseError> {
    let b = block_at(ens, off);
    if id == FIXED_LEADER_ID {
        match spec_fixed_leader(b) {
            Ok(f) => Ok(BlockValue::Fixed(f)),
            Err(e) => Err(e),
        }
    } else if id == VARIABLE_LEADER_ID {
        match spec_variable_leader(b) {
            Ok(v) => Ok(BlockValue::Variable(v)),
            Err(e) => Err(e),
        }
    } else if id == VELOCITY_ID {
        match spec_velocity_block(b, num_cells) {
            Ok(v) => Ok(BlockValue::Velocity(v)),
            Err(e) => Err(e),
        }
    } else {
        match spec_echo_block(b, num_cells) {
            Ok(v) => Ok(BlockValue::Echo(v)),
            Err(e) => Err(e),
        }
    }
}

/// Every block that the table `offsets` lists with the required ID `id` is
/// decoded, in table order: the first failure, or the last block decoded
/// (`None` where the table lists none).
pub open spec fn last_required(ens: Seq<u8>, offsets: Seq<(u16, u16)>, id: u16, num_cells: u8) -> Result<Option<BlockValue>, ParseError>
    decreases offsets.len(),
{
    if offsets.len() == 0 {
        Ok(None)
    } else {
        match last_required(ens, offsets.drop_last(), id, num_cells) {
            Err(e) => Err(e),
            Ok(prev) => {
                if offsets.last().0 == id {
                    match decode_required(ens, id, offsets.last().1, num_cells) {
                        Ok(v) => Ok(Some(v)),
                        Err(e) => Err(e),
                    }
                } else {
                    Ok(prev)
                }
            },
        }
    }
}

/// The last navigation block listed in `offsets` that holds a valid fix.
pub open spec fn last_valid_nav(ens: Seq<u8>, offsets: Seq<(u16, u16)>) -> Option<VmDasNav>
    decreases offsets.len(),
{
    if offsets.len() == 0 {
        None
    } else if offsets.last().0 == VMDAS_NAV_ID && spec_vmdas_nav(block_at(ens, offsets.last().1)) is Ok {
        Some(spec_vmdas_nav(block_at(ens, offsets.last().1))->Ok_0)
    } else {
        last_valid_nav(ens, offsets.drop_last())
    }
}

/// The Fixed Leader in a decoded block value.
pub open spec fn as_fixed(v: Option<BlockValue>) -> Option<FixedLeader> {
    match v {
        Some(BlockValue::Fixed(f)) => Some(f),
        _ => None,
    }
}

/// The Variable Leader in a decoded block value.
pub open spec fn as_variable(v: Option<BlockValue>) -> Option<VariableLeaderView> {
    match v {
        Some(BlockValue::Variable(x)) => Some(x),
        _ => None,
    }
}

/// The velocity profile in a decoded block value.
pub open spec fn as_velocity(v: Option<BlockValue>) -> Option<Seq<Option<VelocityBin>>> {
    match v {
        Some(BlockValue::Velocity(x)) => Some(x),
        _ => None,
    }
}

/// The echo intensity profile in a decoded block value.
pub open spec fn as_echo(v: Option<BlockValue>) -> Option<Seq<u16>> {
    match v {
        Some(BlockValue::Echo(x)) => Some(x),
        _ => None,
    }
}

/// All blocks of the ensemble `ens` with the table `offsets`. Every Fixed
/// Leader, Variable Leader, velocity and echo intensity block listed must
/// decode, the profiles with the cell count of the last Fixed Leader (and
/// only where there is one); the error reported is the first failure in
/// table order among Fixed Leaders, then Variable Leaders, then velocity,
/// then echo intensity blocks. The last block of each kind is kept; for the
/// navigation, the last block with a valid fix.
pub open spec fn decode_blocks(ens: Seq<u8>, offsets: Seq<(u16, u16)>) -> Result<Blocks, ParseError> {
    match last_required(ens, offsets, FIXED_LEADER_ID, 0) {
        Err(e) => Err(e),
        Ok(f) => match last_required(ens, offsets, VARIABLE_LEADER_ID, 0) {
            Err(e) => Err(e),
            Ok(v) => match as_fixed(f) {
                None => Ok(
                    Blocks {
                        fixed: None,
                        variable: as_variable(v),
                        velocity: None,
                        echo: None,
                        nav: last_valid_nav(ens, offsets),
                    },
                ),
                Some(fl) => match last_required(ens, offsets, VELOCITY_ID, fl.num_cells) {
                    Err(e) => Err(e),
                    Ok(ve) => match last_required(ens, offsets, ECHO_INTENSITY_ID, fl.num_cells) {
                        Err(e) => Err(e),
                        Ok(ec) => Ok(
                            Blocks {
                                fixed: Some(fl),
                                variable: as_variable(v),
                                velocity: as_velocity(ve),
                                echo: as_echo(ec),
                                nav: last_valid_nav(ens, offsets),
                            },
                        ),
                    },
                },
            },
        },
    }
}

/// The valid bins among the first `k` cells: those whose velocity is present,
/// each with the beam sum of its cell.
pub open spec fn collect_bins(vel: Seq<Option<VelocityBin>>, echo: Seq<u16>, k: nat) -> Seq<DepthBin>
    decreases k,
{
    if k == 0 {
        Seq::empty()
    } else {
        let prev = collect_bins(vel, echo, (k - 1) as nat);
        match vel[k - 1] {
            None => prev,
            Some(b) => prev.push(
                DepthBin {
                    bin_index: (k - 1) as usize,
                    u_mm_s: b.u_mm_s,
                    v_mm_s: b.v_mm_s,
                    w_mm_s: b.w_mm_s,
                    beam_sum: echo[k - 1],
                },
            ),
        }
    }
}

/// The number of missing-data bins among the first `k` cells.
pub open spec fn count_missing(vel: Seq<Option<VelocityBin>>, k: nat) -> nat
    decreases k,
{
    if k == 0 {
        0
    } else {
        count_missing(vel, (k - 1) as nat) + if vel[k - 1] is None { 1nat } else { 0nat }
    }
}

/// What one ensemble contributes: the ping it yields, if any, the number of
/// missing-data bins dropped, and whether it lacked GPS (0 or 1).
pub struct EnsembleSummary {
    pub ping: Option<PingView>,
    pub dropped: nat,
    pub without_gps: nat,
}

/// What decoding the ensemble `ens` with the header table `offsets` gives.
pub open spec fn spec_ensemble(ens: Seq<u8>, offsets: Seq<(u16, u16)>) -> Result<EnsembleSummary, ParseError> {
    match decode_blocks(ens, offsets) {
        Err(e) => Err(e),
        Ok(b) => {
            if b.fixed is Some && b.variable is Some && b.velocity is Some && b.echo is Some {
                let fl = b.fixed->0;
                let vl = b.variable->0;
                let vel = b.velocity->0;
                let echo = b.echo->0;
                let n = fl.num_cells as nat;
                let bins = collect_bins(vel, echo, n);
                Ok(
                    EnsembleSummary {
                        ping: if bins.len() == 0 {
                            None
                        } else {
                            Some(
                                PingView {
                                    timestamp: vl.timestamp,
                                    nav: b.nav,
                                    blank_distance_cm: fl.blank_distance_cm,
                                    cell_size_cm: fl.cell_size_cm,
                                    transducer_depth_dm: vl.transducer_depth_dm,
                                    bins,
                                },
                            )
                        },
                        dropped: count_missing(vel, n),
                        without_gps: if b.nav is Some { 0 } else { 1 },
                    },
                )
            } else {
                Ok(EnsembleSummary { ping: None, dropped: 0, without_gps: 0 })
            }
        },
    }
}

/// The value of an optional ping.
pub open spec fn opt_ping_view(p: Option<Ping>) -> Option<PingView> {
    match p {
        Some(p) => Some(p@),
        None => None,
    }
}

/// No decoded velocity bin carries the missing-data sentinel.
pub open spec fn sentinels_removed(vel: Seq<Option<VelocityBin>>) -> bool {
    forall|i: int| 0 <= i < vel.len() ==> (#[trigger] vel[i] matches Some(b) ==> b.u_mm_s != MISSING_VELOCITY)
}

/// Every beam sum is at most four times 255.
pub open spec fn beam_sums_bounded(echo: Seq<u16>) -> bool {
    forall|i: int| 0 <= i < echo.len() ==> #[trigger] echo[i] <= 1020
}

/// A failure while decoding a prefix of the table is the failure of the whole table.
proof fn lemma_required_err_persists(ens: Seq<u8>, offsets: Seq<(u16, u16)>, id: u16, n: u8, k: nat)
    requires
        k <= offsets.len(),
        last_required(ens, offsets.take(k as int), id, n) is Err,
    ensures
        last_required(ens, offsets, id, n) == last_required(ens, offsets.take(k as int), id, n),
    decreases offsets.len() - k,
{
    if k < offsets.len() {
        assert(offsets.take((k + 1) as int).drop_last() =~= offsets.take(k as int));
        lemma_required_err_persists(ens, offsets, id, n, (k + 1) as nat);
    } else {
        assert(offsets.take(k as int) =~= offsets);
    }
}

/// A decoded velocity profile has one entry per cell, fits in the ensemble
/// and carries no sentinel; a decoded echo profile has one entry per cell and
/// beam sums of at most 1020.
proof fn lemma_last_required_props(ens: Seq<u8>, offsets: Seq<(u16, u16)>, id: u16, n: u8)
    requires
        offsets_inside(offsets, ens.len() as int),
    ensures
        id == VELOCITY_ID ==> (last_required(ens, offsets, id, n) matches Ok(Some(v)) ==> {
            &&& v is Velocity
            &&& v->Velocity_0.len() == n
            &&& 2 + 8 * n <= ens.len()
            &&& sentinels_removed(v->Velocity_0)
        }),
        id == ECHO_INTENSITY_ID ==> (last_required(ens, offsets, id, n) matches Ok(Some(v)) ==> {
            &&& v is Echo
            &&& v->Echo_0.len() == n
            &&& beam_sums_bounded(v->Echo_0)
        }),
    decreases offsets.len(),
{
    if offsets.len() > 0 {
        let t = offsets.drop_last();
        assert forall|i: int| 0 <= i < t.len() implies #[trigger] t[i].1 <= ens.len() by {
            assert(t[i] == offsets[i]);
        }
        lemma_last_required_props(ens, t, id, n);
        let (lid, off) = offsets.last();
        assert(offsets.last() == offsets[offsets.len() - 1]);
        let block = block_at(ens, off);
        if lid == id && id == VELOCITY_ID {
            if let Ok(v) = spec_velocity_block(block, n) {
                assert forall|i: int| 0 <= i < v.len() implies (#[trigger] v[i] matches Some(x)
                    ==> x.u_mm_s != MISSING_VELOCITY) by {
                    assert(v[i] == spec_velocity_bin(block, i));
                }
            }
        }
        if lid == id && id == ECHO_INTENSITY_ID {
            if let Ok(e) = spec_echo_block(block, n) {
                assert forall|i: int| 0 <= i < e.len() implies #[trigger] e[i] <= 1020 by {
                    assert(e[i] == spec_beam_sum(block, i));
                }
            }
        }
    }
}

/// Decoded profiles have one entry per cell of the Fixed Leader, fit inside
/// the ensemble, and hold what the block decoders guarantee.
pub proof fn lemma_decoded_blocks(ens: Seq<u8>, offsets: Seq<(u16, u16)>)
    requires
        offsets_inside(offsets, ens.len() as int),
    ensures
        decode_blocks(ens, offsets) matches Ok(b) ==> {
            &&& (b.velocity matches Some(v) ==> {
                &&& b.fixed is Some
                &&& v.len() == b.fixed->0.num_cells
                &&& 2 + 8 * v.len() <= ens.len()
                &&& sentinels_removed(v)
            })
            &&& (b.echo matches Some(e) ==> {
                &&& b.fixed is Some
                &&& e.len() == b.fixed->0.num_cells
                &&& beam_sums_bounded(e)
            })
        },
{
    if let Ok(f) = last_required(ens, offsets, FIXED_LEADER_ID, 0) {
        if let Some(fl) = as_fixed(f) {
            lemma_last_required_props(ens, offsets, VELOCITY_ID, fl.num_cells);
            lemma_last_required_props(ens, offsets, ECHO_INTENSITY_ID, fl.num_cells);
        }
    }
}

/// The bins of a ping as the library keeps them: between 1 and 255 of them,
/// in strictly increasing cell order, none with the missing-data sentinel,
/// each with a beam sum of at most 1020 (a mean intensity within 0–255).
pub open spec fn ping_well_formed(p: PingView) -> bool {
    &&& 0 < p.bins.len() <= 255
    &&& forall|i: int|
        0 <= i < p.bins.len() ==> {
            &&& (#[trigger] p.bins[i]).bin_index < 255
            &&& p.bins[i].u_mm_s != MISSING_VELOCITY
            &&& p.bins[i].beam_sum <= 1020
        }
    &&& forall|i: int, j: int|
        0 <= i < j < p.bins.len() ==> (#[trigger] p.bins[i]).bin_index < (#[trigger] p.bins[j]).bin_index
}

/// The bins collected from the first `k` cells are in cell order, each with
/// the data of its own cell.
pub proof fn lemma_collect_bins_props(vel: Seq<Option<VelocityBin>>, echo: Seq<u16>, k: nat)
    requires
        k <= 255,
        k <= vel.len(),
        k <= echo.len(),
        sentinels_removed(vel),
        beam_sums_bounded(echo),
    ensures
        collect_bins(vel, echo, k).len() <= k,
        forall|i: int|
            0 <= i < collect_bins(vel, echo, k).len() ==> {
                let b = #[trigger] collect_bins(vel, echo, k)[i];
                &&& b.bin_index < k
                &&& vel[b.bin_index as int] == Some(
                    VelocityBin { u_mm_s: b.u_mm_s, v_mm_s: b.v_mm_s, w_mm_s: b.w_mm_s },
                )
                &&& b.u_mm_s != MISSING_VELOCITY
                &&& b.beam_sum == echo[b.bin_index as int]
                &&& b.beam_sum <= 1020
            },
        forall|i: int, j: int|
            0 <= i < j < collect_bins(vel, echo, k).len() ==> (#[trigger] collect_bins(vel, echo, k)[i]).bin_index
                < (#[trigger] collect_bins(vel, echo, k)[j]).bin_index,
    decreases k,
{
    if k > 0 {
        lemma_collect_bins_props(vel, echo, (k - 1) as nat);
        let prev = collect_bins(vel, echo, (k - 1) as nat);
        let cur = collect_bins(vel, echo, k);
        if let Some(b) = vel[k - 1] {
            assert(vel[k - 1] matches Some(x) ==> x.u_mm_s != MISSING_VELOCITY);
            assert(echo[k - 1] <= 1020);
            assert(cur == prev.push(
                DepthBin {
                    bin_index: (k - 1) as usize,
                    u_mm_s: b.u_mm_s,
                    v_mm_s: b.v_mm_s,
                    w_mm_s: b.w_mm_s,
                    beam_sum: echo[k - 1],
                },
            ));
            assert forall|i: int| 0 <= i < cur.len() implies {
                let x = #[trigger] cur[i];
                &&& x.bin_index < k
                &&& vel[x.bin_index as int] == Some(
                    VelocityBin { u_mm_s: x.u_mm_s, v_mm_s: x.v_mm_s, w_mm_s: x.w_mm_s },
                )
                &&& x.u_mm_s != MISSING_VELOCITY
                &&& x.beam_sum == echo[x.bin_index as int]
                &&& x.beam_sum <= 1020
            } by {
                if i < prev.len() {
                    assert(cur[i] == prev[i]);
                }
            }
            assert forall|i: int, j: int| 0 <= i < j < cur.len() implies (#[trigger] cur[i]).bin_index
                < (#[trigger] cur[j]).bin_index by {
                assert(cur[i] == prev[i]);
                if j < prev.len() {
                    assert(cur[j] == prev[j]);
                } else {
                    assert(prev[i].bin_index < k - 1);
                }
            }
        }
    }
}

/// Every cell among the first `k` whose velocity is present has its bin.
proof fn lemma_collect_bins_cover(vel: Seq<Option<VelocityBin>>, echo: Seq<u16>, k: nat)
    requires
        k <= 255,
    ensures
        forall|i: int|
            0 <= i < k && (#[trigger] vel[i]) is Some ==> exists|j: int|
                0 <= j < collect_bins(vel, echo, k).len() && collect_bins(vel, echo, k)[j].bin_index == i,
    decreases k,
{
    if k > 0 {
        lemma_collect_bins_cover(vel, echo, (k - 1) as nat);
        let prev = collect_bins(vel, echo, (k - 1) as nat);
        let cur = collect_bins(vel, echo, k);
        assert forall|i: int| 0 <= i < k && (#[trigger] vel[i]) is Some implies exists|j: int|
            0 <= j < cur.len() && cur[j].bin_index == i by {
            if let Some(b) = vel[k - 1] {
                assert(cur == prev.push(
                    DepthBin {
                        bin_index: (k - 1) as usize,
                        u_mm_s: b.u_mm_s,
                        v_mm_s: b.v_mm_s,
                        w_mm_s: b.w_mm_s,
                        beam_sum: echo[k - 1],
                    },
                ));
                if i == k - 1 {
                    assert(cur[prev.len() as int].bin_index == i);
                } else {
                    let j = choose|j: int| 0 <= j < prev.len() && prev[j].bin_index == i;
                    assert(cur[j] == prev[j]);
                }
            } else {
                assert(cur == prev);
            }
        }
    }
}

/// Every one of the first `k` cells is either kept as a bin or counted as missing.
pub proof fn lemma_bins_partition(vel: Seq<Option<VelocityBin>>, echo: Seq<u16>, k: nat)
    ensures
        collect_bins(vel, echo, k).len() + count_missing(vel, k) == k,
    decreases k,
{
    if k > 0 {
        lemma_bins_partition(vel, echo, (k - 1) as nat);
    }
}

/// The number of missing-data bins grows with the number of cells walked.
proof fn lemma_count_missing_mono(vel: Seq<Option<VelocityBin>>, i: nat, k: nat)
    requires
        i <= k,
    ensures
        count_missing(vel, i) <= count_missing(vel, k),
    decreases k - i,
{
    if i < k {
        lemma_count_missing_mono(vel, i, (k - 1) as nat);
    }
}

/// What one ensemble contributes is bounded by its size: its dropped bins
/// (at most 255) fit in its velocity block, it lacks GPS at most once, and a
/// ping it yields is well formed.
pub proof fn lemma_ensemble_summary_bounds(ens: Seq<u8>, offsets: Seq<(u16, u16)>)
    requires
        offsets_inside(offsets, ens.len() as int),
    ensures
        spec_ensemble(ens, offsets) matches Ok(s) ==> {
            &&& s.dropped <= 255
            &&& s.dropped == 0 || 2 + 8 * s.dropped <= ens.len()
            &&& s.without_gps <= 1
            &&& (s.ping matches Some(p) ==> ping_well_formed(p))
        },
{
    lemma_decoded_blocks(ens, offsets);
    if let Ok(b) = decode_blocks(ens, offsets) {
        if b.fixed is Some && b.variable is Some && b.velocity is Some && b.echo is Some {
            let n = b.fixed->0.num_cells as nat;
            let vel = b.velocity->0;
            let echo = b.echo->0;
            lemma_bins_partition(vel, echo, n);
            lemma_collect_bins_props(vel, echo, n);
        }
    }
}

/// The bins that an ensemble summary holds (none where it yields no ping).
pub open spec fn summary_bins(s: EnsembleSummary) -> Seq<DepthBin> {
    match s.ping {
        Some(p) => p.bins,
        None => Seq::empty(),
    }
}

/// The bins of `s` are exactly the cells among the first `n` of `vel` with
/// velocity data: each such cell gives a bin with its index, its East, North
/// and Vertical velocity and its own beam sum; no other bin exists; kept bins
/// and dropped cells add up to `n`; and there is no ping exactly when no cell
/// has velocity data.
pub open spec fn bins_match_cells(s: EnsembleSummary, n: int, vel: Seq<Option<VelocityBin>>, echo: Seq<u16>) -> bool {
    &&& s.dropped + summary_bins(s).len() == n
    &&& (s.ping is None <==> forall|i: int| 0 <= i < n ==> vel[i] is None)
    &&& forall|i: int|
        0 <= i < n && (#[trigger] vel[i]) is Some ==> exists|j: int|
            0 <= j < summary_bins(s).len() && summary_bins(s)[j].bin_index == i
    &&& forall|j: int|
        0 <= j < summary_bins(s).len() ==> {
            let x = #[trigger] summary_bins(s)[j];
            &&& x.bin_index < n
            &&& vel[x.bin_index as int] == Some(
                VelocityBin { u_mm_s: x.u_mm_s, v_mm_s: x.v_mm_s, w_mm_s: x.w_mm_s },
            )
            &&& x.beam_sum == echo[x.bin_index as int]
        }
}

/// The bins of a ping are exactly its cells with velocity data: when all
/// four acoustic blocks decode, every cell whose velocity is present gives
/// one bin (same index, same velocities, its own beam sum), no other bin
/// exists, and the cells dropped are the others.
pub proof fn lemma_ensemble_bins(ens: Seq<u8>, offsets: Seq<(u16, u16)>)
    requires
        offsets_inside(offsets, ens.len() as int),
    ensures
        decode_blocks(ens, offsets) matches Ok(b) ==> (b.fixed is Some && b.variable is Some && b.velocity is Some
            && b.echo is Some ==> (spec_ensemble(ens, offsets) matches Ok(s) && bins_match_cells(
            s,
            b.fixed->0.num_cells as int,
            b.velocity->0,
            b.echo->0,
        ))),
{
    lemma_decoded_blocks(ens, offsets);
    if let Ok(b) = decode_blocks(ens, offsets) {
        if b.fixed is Some && b.variable is Some && b.velocity is Some && b.echo is Some {
            let n = b.fixed->0.num_cells as nat;
            let vel = b.velocity->0;
            let echo = b.echo->0;
            lemma_bins_partition(vel, echo, n);
            lemma_collect_bins_props(vel, echo, n);
            lemma_collect_bins_cover(vel, echo, n);
            let bins = collect_bins(vel, echo, n);
            let sm = spec_ensemble(ens, offsets)->Ok_0;
            assert(spec_ensemble(ens, offsets) is Ok);
            let pbins = summary_bins(sm);
            assert(pbins =~= bins);
            assert(sm.dropped == count_missing(vel, n));
            if bins.len() == 0 {
                assert forall|i: int| 0 <= i < n implies vel[i] is None by {
                    if vel[i] is Some {
                        let j = choose|j: int| 0 <= j < bins.len() && bins[j].bin_index == i;
                    }
                }
            } else {
                let x = bins[0];
                assert(vel[x.bin_index as int] is Some);
            }
            assert(sm.dropped + pbins.len() == n);
            assert(forall|i: int| 0 <= i < n && (#[trigger] vel[i]) is Some ==> exists|j: int|
                    0 <= j < pbins.len() && pbins[j].bin_index == i);
            assert(sm.ping is None <==> forall|i: int| 0 <= i < n ==> vel[i] is None);
            assert forall|j: int| 0 <= j < pbins.len() implies {
                let x = #[trigger] pbins[j];
                &&& x.bin_index < n
                &&& vel[x.bin_index as int] == Some(
                    VelocityBin { u_mm_s: x.u_mm_s, v_mm_s: x.v_mm_s, w_mm_s: x.w_mm_s },
                )
                &&& x.beam_sum == echo[x.bin_index as int]
            } by {
                assert(pbins[j] == bins[j]);
            }
            assert(bins_match_cells(sm, n as int, vel, echo));
        }
    }
}

/// No two entries of the table share a block ID.
pub open spec fn distinct_ids(offsets: Seq<(u16, u16)>) -> bool {
    forall|i: int, j: int| 0 <= i < j < offsets.len() ==> (#[trigger] offsets[i]).0 != (#[trigger] offsets[j]).0
}

/// In a table with distinct IDs, the offset found for an ID is the one entry
/// listed with it.
proof fn lemma_offset_of_distinct(s: Seq<(u16, u16)>, id: u16, o: u16)
    requires
        distinct_ids(s),
    ensures
        offset_of(s, id) == Some(o) <==> s.contains((id, o)),
        offset_of(s, id) is None <==> (forall|i: int| 0 <= i < s.len() ==> (#[trigger] s[i]).0 != id),
    decreases s.len(),
{
    if s.len() > 0 {
        let t = s.drop_last();
        assert forall|i: int, j: int| 0 <= i < j < t.len() implies (#[trigger] t[i]).0 != (#[trigger] t[j]).0 by {
            assert(t[i] == s[i] && t[j] == s[j]);
        }
        lemma_offset_of_distinct(t, id, o);
        let last = s[s.len() - 1];
        assert(s.last() == last);
        if s.contains((id, o)) {
            let k = choose|k: int| 0 <= k < s.len() && s[k] == (id, o);
            if k < s.len() - 1 {
                assert(t[k] == s[k]);
                assert(t.contains((id, o)));
            }
        }
        if t.contains((id, o)) {
            let k = choose|k: int| 0 <= k < t.len() && t[k] == (id, o);
            assert(s[k] == t[k]);
        }
        if last.0 == id {
            if t.contains((id, o)) {
                let k = choose|k: int| 0 <= k < t.len() && t[k] == (id, o);
                assert(s[k] == t[k]);
                assert(s[k].0 != s[s.len() - 1].0);
            }
        } else {
            assert forall|i: int| 0 <= i < t.len() implies #[trigger] t[i] == s[i] by {}
        }
        if (forall|i: int| 0 <= i < t.len() ==> (#[trigger] t[i]).0 != id) && last.0 != id {
            assert forall|i: int| 0 <= i < s.len() implies (#[trigger] s[i]).0 != id by {
                if i < s.len() - 1 {
                    assert(t[i] == s[i]);
                }
            }
        }
        if forall|i: int| 0 <= i < s.len() ==> (#[trigger] s[i]).0 != id {
            assert forall|i: int| 0 <= i < t.len() implies (#[trigger] t[i]).0 != id by {
                assert(t[i] == s[i]);
            }
        }
    }
}

/// Two tables with distinct IDs listing the same entries give the same offset for every ID.
proof fn lemma_offset_of_same_entries(o1: Seq<(u16, u16)>, o2: Seq<(u16, u16)>, id: u16)
    requires
        distinct_ids(o1),
        distinct_ids(o2),
        forall|x: (u16, u16)| o1.contains(x) <==> o2.contains(x),
    ensures
        offset_of(o1, id) == offset_of(o2, id),
{
    match offset_of(o1, id) {
        Some(a) => {
            lemma_offset_of_distinct(o1, id, a);
            lemma_offset_of_distinct(o2, id, a);
        },
        None => {
            if let Some(b) = offset_of(o2, id) {
                lemma_offset_of_distinct(o2, id, b);
                lemma_offset_of_distinct(o1, id, b);
            }
        },
    }
}

/// A table listing no block with ID `id` decodes none of that kind.
proof fn lemma_absent(ens: Seq<u8>, s: Seq<(u16, u16)>, id: u16, n: u8)
    requires
        forall|i: int| 0 <= i < s.len() ==> (#[trigger] s[i]).0 != id,
    ensures
        last_required(ens, s, id, n) == Ok::<Option<BlockValue>, ParseError>(None),
        id == VMDAS_NAV_ID ==> last_valid_nav(ens, s) is None,
    decreases s.len(),
{
    if s.len() > 0 {
        let t = s.drop_last();
        assert forall|i: int| 0 <= i < t.len() implies (#[trigger] t[i]).0 != id by {
            assert(t[i] == s[i]);
        }
        assert(s.last() == s[s.len() - 1]);
        lemma_absent(ens, t, id, n);
    }
}

/// In a table with distinct IDs, the block of a kind is the one listed with
/// its ID, if any.
proof fn lemma_distinct_decode(ens: Seq<u8>, s: Seq<(u16, u16)>, id: u16, n: u8)
    requires
        distinct_ids(s),
    ensures
        last_required(ens, s, id, n) == (match offset_of(s, id) {
            None => Ok(None),
            Some(off) => match decode_required(ens, id, off, n) {
                Ok(v) => Ok(Some(v)),
                Err(e) => Err(e),
            },
        }),
        id == VMDAS_NAV_ID ==> last_valid_nav(ens, s) == (match offset_of(s, id) {
            None => None,
            Some(off) => match spec_vmdas_nav(block_at(ens, off)) {
                Ok(x) => Some(x),
                Err(_) => None,
            },
        }),
    decreases s.len(),
{
    if s.len() > 0 {
        let t = s.drop_last();
        assert forall|i: int, j: int| 0 <= i < j < t.len() implies (#[trigger] t[i]).0 != (#[trigger] t[j]).0 by {
            assert(t[i] == s[i] && t[j] == s[j]);
        }
        assert(s.last() == s[s.len() - 1]);
        if s.last().0 == id {
            assert forall|i: int| 0 <= i < t.len() implies (#[trigger] t[i]).0 != id by {
                assert(t[i] == s[i]);
            }
            lemma_absent(ens, t, id, n);
        } else {
            lemma_distinct_decode(ens, t, id, n);
        }
    }
}

/// Blocks are found by ID, not by position: two tables with distinct block
/// IDs that list the same (ID, offset) entries, in any order, decode the
/// ensemble the same way.
pub proof fn lemma_ensemble_order_independent(ens: Seq<u8>, o1: Seq<(u16, u16)>, o2: Seq<(u16, u16)>)
    requires
        distinct_ids(o1),
        distinct_ids(o2),
        forall|x: (u16, u16)| o1.contains(x) <==> o2.contains(x),
    ensures
        spec_ensemble(ens, o1) == spec_ensemble(ens, o2),
{
    lemma_offset_of_same_entries(o1, o2, FIXED_LEADER_ID);
    lemma_offset_of_same_entries(o1, o2, VARIABLE_LEADER_ID);
    lemma_offset_of_same_entries(o1, o2, VELOCITY_ID);
    lemma_offset_of_same_entries(o1, o2, ECHO_INTENSITY_ID);
    lemma_offset_of_same_entries(o1, o2, VMDAS_NAV_ID);
    lemma_distinct_decode(ens, o1, FIXED_LEADER_ID, 0);
    lemma_distinct_decode(ens, o2, FIXED_LEADER_ID, 0);
    lemma_distinct_decode(ens, o1, VARIABLE_LEADER_ID, 0);
    lemma_distinct_decode(ens, o2, VARIABLE_LEADER_ID, 0);
    lemma_distinct_decode(ens, o1, VMDAS_NAV_ID, 0);
    lemma_distinct_decode(ens, o2, VMDAS_NAV_ID, 0);
    if let Ok(f) = last_required(ens, o1, FIXED_LEADER_ID, 0) {
        if let Some(fl) = as_fixed(f) {
            lemma_distinct_decode(ens, o1, VELOCITY_ID, fl.num_cells);
            lemma_distinct_decode(ens, o2, VELOCITY_ID, fl.num_cells);
            lemma_distinct_decode(ens, o1, ECHO_INTENSITY_ID, fl.num_cells);
            lemma_distinct_decode(ens, o2, ECHO_INTENSITY_ID, fl.num_cells);
        }
    }
}

/// A Fixed Leader as a decoded block value.
pub open spec fn fixed_value(x: Option<FixedLeader>) -> Option<BlockValue> {
    match x {
        Some(f) => Some(BlockValue::Fixed(f)),
        None => None,
    }
}

/// A Variable Leader as a decoded block value.
pub open spec fn variable_value(x: Option<VariableLeader>) -> Option<BlockValue> {
    match x {
        Some(v) => Some(BlockValue::Variable(v@)),
        None => None,
    }
}

/// A velocity profile as a decoded block value.
pub open spec fn velocity_value(x: Option<VelocityBlock>) -> Option<BlockValue> {
    match x {
        Some(v) => Some(BlockValue::Velocity(v@)),
        None => None,
    }
}

/// An echo intensity profile as a decoded block value.
pub open spec fn echo_value(x: Option<EchoIntensityBlock>) -> Option<BlockValue> {
    match x {
        Some(e) => Some(BlockValue::Echo(e@)),
        None => None,
    }
}

/// Decodes every Fixed Leader the table lists; the last one, or the first failure.
fn decode_all_fixed(ensemble: &[u8], offsets: &Vec<(u16, u16)>) -> (r: Result<Option<FixedLeader>, ParseError>)
    requires
        offsets_inside(offsets@, ensemble@.len() as int),
    ensures
        match last_required(ensemble@, offsets@, FIXED_LEADER_ID, 0) {
            Ok(v) => r matches Ok(x) && v == fixed_value(x),
            Err(e) => r matches Err(e2) && e2 == e,
        },
{
    let ghost ens = ensemble@;
    let ghost offs = offsets@;
    let n_offsets = offsets.len();
    let mut cur: Option<FixedLeader> = None;
    let mut k: usize = 0;
    while k < n_offsets
        invariant
            ens == ensemble@,
            offs == offsets@,
            n_offsets == offs.len(),
            k <= n_offsets,
            offsets_inside(offs, ens.len() as int),
            last_required(ens, offs.take(k as int), FIXED_LEADER_ID, 0) == Ok::<Option<BlockValue>, ParseError>(fixed_value(cur)),
        decreases n_offsets - k,
    {
        let (block_id, offset) = offsets[k];
        proof {
            assert(offs.take(k + 1).drop_last() =~= offs.take(k as int));
            assert(offs.take(k + 1).last() == (block_id, offset));
            assert(offs[k as int].1 <= ens.len());
        }
        if block_id == FIXED_LEADER_ID {
            match FixedLeader::parse(&ensemble[offset as usize..ensemble.len()]) {
                Ok(x) => {
                    cur = Some(x);
                },
                Err(e) => {
                    proof {
                        lemma_required_err_persists(ens, offs, FIXED_LEADER_ID, 0, (k + 1) as nat);
                    }
                    return Err(e);
                },
            }
        }
        k = k + 1;
    }
    proof {
        assert(offs.take(n_offsets as int) =~= offs);
    }
    Ok(cur)
}

/// Decodes every Variable Leader the table lists; the last one, or the first failure.
fn decode_all_variable(ensemble: &[u8], offsets: &Vec<(u16, u16)>) -> (r: Result<Option<VariableLeader>, ParseError>)
    requires
        offsets_inside(offsets@, ensemble@.len() as int),
    ensures
        match last_required(ensemble@, offsets@, VARIABLE_LEADER_ID, 0) {
            Ok(v) => r matches Ok(x) && v == variable_value(x),
            Err(e) => r matches Err(e2) && e2 == e,
        },
{
    let ghost ens = ensemble@;
    let ghost offs = offsets@;
    let n_offsets = offsets.len();
    let mut cur: Option<VariableLeader> = None;
    let mut k: usize = 0;
    while k < n_offsets
        invariant
            ens == ensemble@,
            offs == offsets@,
            n_offsets == offs.len(),
            k <= n_offsets,
            offsets_inside(offs, ens.len() as int),
            last_required(ens, offs.take(k as int), VARIABLE_LEADER_ID, 0) == Ok::<Option<BlockValue>, ParseError>(variable_value(cur)),
        decreases n_offsets - k,
    {
        let (block_id, offset) = offsets[k];
        proof {
            assert(offs.take(k + 1).drop_last() =~= offs.take(k as int));
            assert(offs.take(k + 1).last() == (block_id, offset));
            assert(offs[k as int].1 <= ens.len());
        }
        if block_id == VARIABLE_LEADER_ID {
            match VariableLeader::parse(&ensemble[offset as usize..ensemble.len()]) {
                Ok(x) => {
                    cur = Some(x);
                },
                Err(e) => {
                    proof {
                        lemma_required_err_persists(ens, offs, VARIABLE_LEADER_ID, 0, (k + 1) as nat);
                    }
                    return Err(e);
                },
            }
        }
        k = k + 1;
    }
    proof {
        assert(offs.take(n_offsets as int) =~= offs);
    }
    Ok(cur)
}

/// Decodes every velocity block the table lists with `num_cells` cells; the last one, or the first failure.
fn decode_all_velocity(ensemble: &[u8], offsets: &Vec<(u16, u16)>, num_cells: u8) -> (r: Result<Option<VelocityBlock>, ParseError>)
    requires
        offsets_inside(offsets@, ensemble@.len() as int),
    ensures
        match last_required(ensemble@, offsets@, VELOCITY_ID, num_cells) {
            Ok(v) => r matches Ok(x) && v == velocity_value(x),
            Err(e) => r matches Err(e2) && e2 == e,
        },
{
    let ghost ens = ensemble@;
    let ghost offs = offsets@;
    let n_offsets = offsets.len();
    let mut cur: Option<VelocityBlock> = None;
    let mut k: usize = 0;
    while k < n_offsets
        invariant
            ens == ensemble@,
            offs == offsets@,
            n_offsets == offs.len(),
            k <= n_offsets,
            offsets_inside(offs, ens.len() as int),
            last_required(ens, offs.take(k as int), VELOCITY_ID, num_cells) == Ok::<Option<BlockValue>, ParseError>(velocity_value(cur)),
        decreases n_offsets - k,
    {
        let (block_id, offset) = offsets[k];
        proof {
            assert(offs.take(k + 1).drop_last() =~= offs.take(k as int));
            assert(offs.take(k + 1).last() == (block_id, offset));
            assert(offs[k as int].1 <= ens.len());
        }
        if block_id == VELOCITY_ID {
            match VelocityBlock::parse(&ensemble[offset as usize..ensemble.len()], num_cells) {
                Ok(x) => {
                    cur = Some(x);
                },
                Err(e) => {
                    proof {
                        lemma_required_err_persists(ens, offs, VELOCITY_ID, num_cells, (k + 1) as nat);
                    }
                    return Err(e);
                },
            }
        }
        k = k + 1;
    }
    proof {
        assert(offs.take(n_offsets as int) =~= offs);
    }
    Ok(cur)
}

/// Decodes every echo intensity block the table lists with `num_cells` cells; the last one, or the first failure.
fn decode_all_echo(ensemble: &[u8], offsets: &Vec<(u16, u16)>, num_cells: u8) -> (r: Result<Option<EchoIntensityBlock>, ParseError>)
    requires
        offsets_inside(offsets@, ensemble@.len() as int),
    ensures
        match last_required(ensemble@, offsets@, ECHO_INTENSITY_ID, num_cells) {
            Ok(v) => r matches Ok(x) && v == echo_value(x),
            Err(e) => r matches Err(e2) && e2 == e,
        },
{
    let ghost ens = ensemble@;
    let ghost offs = offsets@;
    let n_offsets = offsets.len();
    let mut cur: Option<EchoIntensityBlock> = None;
    let mut k: usize = 0;
    while k < n_offsets
        invariant
            ens == ensemble@,
            offs == offsets@,
            n_offsets == offs.len(),
            k <= n_offsets,
            offsets_inside(offs, ens.len() as int),
            last_required(ens, offs.take(k as int), ECHO_INTENSITY_ID, num_cells) == Ok::<Option<BlockValue>, ParseError>(echo_value(cur)),
        decreases n_offsets - k,
    {
        let (block_id, offset) = offsets[k];
        proof {
            assert(offs.take(k + 1).drop_last() =~= offs.take(k as int));
            assert(offs.take(k + 1).last() == (block_id, offset));
            assert(offs[k as int].1 <= ens.len());
        }
        if block_id == ECHO_INTENSITY_ID {
            match EchoIntensityBlock::parse(&ensemble[offset as usize..ensemble.len()], num_cells) {
                Ok(x) => {
                    cur = Some(x);
                },
                Err(e) => {
                    proof {
                        lemma_required_err_persists(ens, offs, ECHO_INTENSITY_ID, num_cells, (k + 1) as nat);
                    }
                    return Err(e);
                },
            }
        }
        k = k + 1;
    }
    proof {
        assert(offs.take(n_offsets as int) =~= offs);
    }
    Ok(cur)
}

/// The last navigation block the table lists that holds a valid fix.
fn find_valid_nav(ensemble: &[u8], offsets: &Vec<(u16, u16)>) -> (r: Option<VmDasNav>)
    requires
        offsets_inside(offsets@, ensemble@.len() as int),
    ensures
        r == last_valid_nav(ensemble@, offsets@),
{
    let ghost ens = ensemble@;
    let ghost offs = offsets@;
    let n_offsets = offsets.len();
    let mut cur: Option<VmDasNav> = None;
    let mut k: usize = 0;
    while k < n_offsets
        invariant
            ens == ensemble@,
            offs == offsets@,
            n_offsets == offs.len(),
            k <= n_offsets,
            offsets_inside(offs, ens.len() as int),
            cur == last_valid_nav(ens, offs.take(k as int)),
        decreases n_offsets - k,
    {
        let (block_id, offset) = offsets[k];
        proof {
            assert(offs.take(k + 1).drop_last() =~= offs.take(k as int));
            assert(offs.take(k + 1).last() == (block_id, offset));
            assert(offs[k as int].1 <= ens.len());
        }
        if block_id == VMDAS_NAV_ID {
            match VmDasNav::parse(&ensemble[offset as usize..ensemble.len()]) {
                Ok(n) => {
                    cur = Some(n);
                },
                Err(_) => {},
            }
        }
        k = k + 1;
    }
    proof {
        assert(offs.take(n_offsets as int) =~= offs);
    }
    cur
}

/// Decodes the ensemble `ensemble` with the block table of `header`, adding
/// its missing-data bins to `dropped` and, where it has every acoustic block
/// but no valid navigation block, one to `without_gps`. On an error neither
/// counter changes.
pub fn parse_ensemble(ensemble: &[u8], header: &Header, dropped: &mut u32, without_gps: &mut u32) -> (r: Result<Option<Ping>, ParseError>)
    requires
        offsets_inside(header.offsets@, ensemble@.len() as int),
        spec_ensemble(ensemble@, header.offsets@) matches Ok(s) ==> {
            &&& *old(dropped) + s.dropped <= u32::MAX
            &&& *old(without_gps) + s.without_gps <= u32::MAX
        },
    ensures
        match spec_ensemble(ensemble@, header.offsets@) {
            Ok(s) => {
                &&& r matches Ok(p) && opt_ping_view(p) == s.ping
                &&& *final(dropped) == *old(dropped) + s.dropped
                &&& *final(without_gps) == *old(without_gps) + s.without_gps
            },
            Err(e) => {
                &&& r matches Err(e2) && e2 == e
                &&& *final(dropped) == *old(dropped)
                &&& *final(without_gps) == *old(without_gps)
            },
        },
{
    let ghost ens = ensemble@;
    let ghost offs = header.offsets@;
    proof {
        lemma_decoded_blocks(ens, offs);
    }
    let fixed = match decode_all_fixed(ensemble, &header.offsets) {
        Ok(f) => f,
        Err(e) => {
            return Err(e);
        },
    };
    let variable = match decode_all_variable(ensemble, &header.offsets) {
        Ok(v) => v,
        Err(e) => {
            return Err(e);
        },
    };
    let (velocity, echo) = match &fixed {
        Some(fl) => {
            let velocity = match decode_all_velocity(ensemble, &header.offsets, fl.num_cells) {
                Ok(v) => v,
                Err(e) => {
                    return Err(e);
                },
            };
            let echo = match decode_all_echo(ensemble, &header.offsets, fl.num_cells) {
                Ok(v) => v,
                Err(e) => {
                    return Err(e);
                },
            };
            (velocity, echo)
        },
        None => (None, None),
    };
    let nav = find_valid_nav(ensemble, &header.offsets);
    let (fl, vl, vel, ec) = match (fixed, variable, velocity, echo) {
        (Some(fl), Some(vl), Some(vel), Some(ec)) => (fl, vl, vel, ec),
        _ => {
            return Ok(None);
        },
    };
    let ghost d0 = *dropped;
    let ghost total_missing = count_missing(vel@, fl.num_cells as nat);
    let n = fl.num_cells as usize;
    let mut bins: Vec<DepthBin> = Vec::with_capacity(n);
    let mut i: usize = 0;
    while i < n
        invariant
            n == fl.num_cells,
            i <= n,
            vel@.len() == n,
            ec@.len() == n,
            d0 + total_missing <= u32::MAX,
            total_missing == count_missing(vel@, n as nat),
            bins@ == collect_bins(vel@, ec@, i as nat),
            *dropped == d0 + count_missing(vel@, i as nat),
        decreases n - i,
    {
        proof {
            lemma_count_missing_mono(vel@, (i + 1) as nat, n as nat);
        }
        match vel.bins[i] {
            None => {
                *dropped = *dropped + 1;
            },
            Some(b) => {
                bins.push(
                    DepthBin {
                        bin_index: i,
                        u_mm_s: b.u_mm_s,
                        v_mm_s: b.v_mm_s,
                        w_mm_s: b.w_mm_s,
                        beam_sum: ec.beam_sums[i],
                    },
                );
            },
        }
        i = i + 1;
    }
    if nav.is_none() {
        *without_gps = *without_gps + 1;
    }
    if bins.len() == 0 {
        return Ok(None);
    }
    Ok(
        Some(
            Ping {
                timestamp: vl.timestamp,
                nav,
                blank_distance_cm: fl.blank_distance_cm,
                cell_size_cm: fl.cell_size_cm,
                transducer_depth_dm: vl.transducer_depth_dm,
                bins,
            },
        ),
    )
}

} // verus!
