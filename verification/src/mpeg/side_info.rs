//! Side information of MPEG audio Layer III frames, for all versions.
use crate::bite::{bit_count_after_read, Biter, BiterError};
use crate::mpeg::header::{bit_field, MPEGHeader, MPEGMode, MPEGVersion};
use vstd::prelude::*;

verus! {

/// Why the side information could not be read.
#[derive(Debug, Clone, Copy, PartialEq, Eq)]
pub enum MpegParseSideInfoError {
    /// The bit reader failed.
    IOError(BiterError),
    /// Window switching is on but the block type is 0 (forbidden).
    InvalidBlockType(u32),
}

pub const MAX_CHANNELS: usize = 2;

pub const MAX_GRANULES: usize = 2;

pub const MAX_SCFI_BANDS: usize = 4;

pub const MAX_WINDOW: usize = 3;

pub const MAX_TABLE_SELECT: usize = 3;

/// Cells of a per channel and band table.
pub const SCFSI_CELLS: usize = MAX_CHANNELS * MAX_SCFI_BANDS;

/// Cells of a per granule and channel table.
pub const GRANULE_CELLS: usize = MAX_GRANULES * MAX_CHANNELS;

/// Cells of a per granule, channel and region (or window) table.
pub const REGION_CELLS: usize = MAX_GRANULES * MAX_CHANNELS * MAX_TABLE_SELECT;

/// Scalefactor selection information, per channel and band.
#[derive(Debug, Clone, Copy)]
pub struct SCFSI([u8; SCFSI_CELLS]);

impl View for SCFSI {
    type V = Seq<u8>;

    closed spec fn view(&self) -> Seq<u8> {
        self.0@
    }
}

impl SCFSI {
    /// All zero.
    pub fn new() -> (r: Self)
        ensures
            r@ == Seq::new(SCFSI_CELLS as nat, |i: int| 0u8),
    {
        let r = SCFSI([0; SCFSI_CELLS]);
        assert(r@ =~= Seq::new(SCFSI_CELLS as nat, |i: int| 0u8));
        r
    }

    /// Sets the entry of `channel` and `band`.
    pub fn set(&mut self, channel: usize, band: usize, value: u8)
        requires
            channel < MAX_CHANNELS,
            band < MAX_SCFI_BANDS,
        ensures
            final(self)@ == old(self)@.update(channel * MAX_SCFI_BANDS + band, value),
    {
        self.0[channel * MAX_SCFI_BANDS + band] = value;
    }

    /// The entry of `channel` and `band`.
    pub fn get(&self, channel: usize, band: usize) -> (r: u8)
        requires
            channel < MAX_CHANNELS,
            band < MAX_SCFI_BANDS,
        ensures
            r == self@[channel * MAX_SCFI_BANDS + band],
    {
        self.0[channel * MAX_SCFI_BANDS + band]
    }
}

/// One value per granule and channel.
#[derive(Debug, Clone, Copy)]
pub struct PerGranuleData<T>([T; GRANULE_CELLS]);

impl<T> View for PerGranuleData<T> {
    type V = Seq<T>;

    closed spec fn view(&self) -> Seq<T> {
        self.0@
    }
}

impl<T: Default + Copy> PerGranuleData<T> {
    /// Every entry holds the default value of `T`.
    pub fn new() -> (r: Self)
        ensures
            r@.len() == GRANULE_CELLS,
            forall|i: int| 0 <= i < GRANULE_CELLS ==> call_ensures(T::default, (), #[trigger] r@[i]),
    {
        let d = T::default();
        PerGranuleData([d; GRANULE_CELLS])
    }
}

impl<T: Copy> PerGranuleData<T> {
    /// Sets the entry of `granule` and `channel`.
    pub fn set(&mut self, granule: usize, channel: usize, value: T)
        requires
            granule < MAX_GRANULES,
            channel < MAX_CHANNELS,
        ensures
            final(self)@ == old(self)@.update(granule * MAX_CHANNELS + channel, value),
    {
        self.0[granule * MAX_CHANNELS + channel] = value;
    }

    /// The entry of `granule` and `channel`.
    pub fn get(&self, granule: usize, channel: usize) -> (r: T)
        requires
            granule < MAX_GRANULES,
            channel < MAX_CHANNELS,
        ensures
            r == self@[granule * MAX_CHANNELS + channel],
    {
        self.0[granule * MAX_CHANNELS + channel]
    }
}

/// Huffman table selection per granule, channel and region.
#[derive(Debug, Clone, Copy)]
pub struct TableSelect([u32; REGION_CELLS]);

impl View for TableSelect {
    type V = Seq<u32>;

    closed spec fn view(&self) -> Seq<u32> {
        self.0@
    }
}

impl TableSelect {
    /// All zero.
    pub fn new() -> (r: Self)
        ensures
            r@ == Seq::new(REGION_CELLS as nat, |i: int| 0u32),
    {
        let r = TableSelect([0; REGION_CELLS]);
        assert(r@ =~= Seq::new(REGION_CELLS as nat, |i: int| 0u32));
        r
    }

    /// Sets the entry of `granule`, `channel` and `region`.
    pub fn set(&mut self, granule: usize, channel: usize, region: usize, value: u32)
        requires
            granule < MAX_GRANULES,
            channel < MAX_CHANNELS,
            region < MAX_TABLE_SELECT,
        ensures
            final(self)@ == old(self)@.update(
                granule * MAX_CHANNELS * MAX_TABLE_SELECT + channel * MAX_TABLE_SELECT + region,
                value,
            ),
    {
        self.0[granule * MAX_CHANNELS * MAX_TABLE_SELECT + channel * MAX_TABLE_SELECT + region] =
            value;
    }

    /// The entry of `granule`, `channel` and `region`.
    pub fn get(&self, granule: usize, channel: usize, region: usize) -> (r: u32)
        requires
            granule < MAX_GRANULES,
            channel < MAX_CHANNELS,
            region < MAX_TABLE_SELECT,
        ensures
            r == self@[granule * MAX_CHANNELS * MAX_TABLE_SELECT + channel * MAX_TABLE_SELECT
                + region],
    {
        self.0[granule * MAX_CHANNELS * MAX_TABLE_SELECT + channel * MAX_TABLE_SELECT + region]
    }
}

/// Gain of each short window per granule and channel.
#[derive(Debug, Clone, Copy)]
pub struct SubblockGain([u32; REGION_CELLS]);

impl View for SubblockGain {
    type V = Seq<u32>;

    closed spec fn view(&self) -> Seq<u32> {
        self.0@
    }
}

impl SubblockGain {
    /// All zero.
    pub fn new() -> (r: Self)
        ensures
            r@ == Seq::new(REGION_CELLS as nat, |i: int| 0u32),
    {
        let r = SubblockGain([0; REGION_CELLS]);
        assert(r@ =~= Seq::new(REGION_CELLS as nat, |i: int| 0u32));
        r
    }

    /// Sets the entry of `granule`, `channel` and `window`.
    pub fn set(&mut self, granule: usize, channel: usize, window: usize, value: u32)
        requires
            granule < MAX_GRANULES,
            channel < MAX_CHANNELS,
            window < MAX_WINDOW,
        ensures
            final(self)@ == old(self)@.update(granule * 6 + channel * 3 + window, value),
    {
        self.0[granule * 6 + channel * 3 + window] = value;
    }

    /// The entry of `granule`, `channel` and `window`.
    pub fn get(&self, granule: usize, channel: usize, window: usize) -> (r: u32)
        requires
            granule < MAX_GRANULES,
            channel < MAX_CHANNELS,
            window < MAX_WINDOW,
        ensures
            r == self@[granule * 6 + channel * 3 + window],
    {
        self.0[granule * 6 + channel * 3 + window]
    }
}

/// A scalefactor selection entry read after it was set is the value set;
/// the other entries keep theirs.
pub proof fn law_scfsi_set_get(
    before: SCFSI,
    after: SCFSI,
    channel: int,
    band: int,
    value: u8,
    channel2: int,
    band2: int,
)
    requires
        after@ == before@.update(channel * MAX_SCFI_BANDS + band, value),
        0 <= channel < MAX_CHANNELS && 0 <= band < MAX_SCFI_BANDS,
        0 <= channel2 < MAX_CHANNELS && 0 <= band2 < MAX_SCFI_BANDS,
    ensures
        after@[channel2 * MAX_SCFI_BANDS + band2] == if channel2 == channel && band2 == band {
            value
        } else {
            before@[channel2 * MAX_SCFI_BANDS + band2]
        },
{
    broadcast use vstd::array::group_array_axioms;
    assert(before@.len() == SCFSI_CELLS);
}

/// An entry per granule and channel read after it was set is the value set;
/// the other entries keep theirs.
pub proof fn law_per_granule_set_get<T>(
    before: PerGranuleData<T>,
    after: PerGranuleData<T>,
    granule: int,
    channel: int,
    value: T,
    granule2: int,
    channel2: int,
)
    requires
        after@ == before@.update(granule * MAX_CHANNELS + channel, value),
        0 <= granule < MAX_GRANULES && 0 <= channel < MAX_CHANNELS,
        0 <= granule2 < MAX_GRANULES && 0 <= channel2 < MAX_CHANNELS,
    ensures
        after@[granule2 * MAX_CHANNELS + channel2] == if granule2 == granule && channel2 == channel {
            value
        } else {
            before@[granule2 * MAX_CHANNELS + channel2]
        },
{
    broadcast use vstd::array::group_array_axioms;
    assert(before@.len() == GRANULE_CELLS);
}

/// A table selection read after it was set is the value set; the other
/// entries keep theirs.
pub proof fn law_table_select_set_get(
    before: TableSelect,
    after: TableSelect,
    granule: int,
    channel: int,
    region: int,
    value: u32,
    granule2: int,
    channel2: int,
    region2: int,
)
    requires
        after@ == before@.update(
            granule * MAX_CHANNELS * MAX_TABLE_SELECT + channel * MAX_TABLE_SELECT + region,
            value,
        ),
        0 <= granule < MAX_GRANULES && 0 <= channel < MAX_CHANNELS && 0 <= region < MAX_TABLE_SELECT,
        0 <= granule2 < MAX_GRANULES && 0 <= channel2 < MAX_CHANNELS && 0 <= region2
            < MAX_TABLE_SELECT,
    ensures
        after@[granule2 * MAX_CHANNELS * MAX_TABLE_SELECT + channel2 * MAX_TABLE_SELECT + region2]
            == if granule2 == granule && channel2 == channel && region2 == region {
            value
        } else {
            before@[granule2 * MAX_CHANNELS * MAX_TABLE_SELECT + channel2 * MAX_TABLE_SELECT
                + region2]
        },
{
    broadcast use vstd::array::group_array_axioms;
    assert(before@.len() == REGION_CELLS);
}

/// A subblock gain read after it was set is the value set; the other
/// entries keep theirs.
pub proof fn law_subblock_gain_set_get(
    before: SubblockGain,
    after: SubblockGain,
    granule: int,
    channel: int,
    window: int,
    value: u32,
    granule2: int,
    channel2: int,
    window2: int,
)
    requires
        after@ == before@.update(granule * 6 + channel * 3 + window, value),
        0 <= granule < MAX_GRANULES && 0 <= channel < MAX_CHANNELS && 0 <= window < MAX_WINDOW,
        0 <= granule2 < MAX_GRANULES && 0 <= channel2 < MAX_CHANNELS && 0 <= window2 < MAX_WINDOW,
    ensures
        after@[granule2 * 6 + channel2 * 3 + window2] == if granule2 == granule && channel2
            == channel && window2 == window {
            value
        } else {
            before@[granule2 * 6 + channel2 * 3 + window2]
        },
{
    broadcast use vstd::array::group_array_axioms;
    assert(before@.len() == REGION_CELLS);
}

/// Side information of one frame.
#[derive(Debug, Clone, Copy)]
pub struct MPEGSideInfo {
    pub private_bits: u32,
    pub nch: usize,
    pub ngr: usize,
    pub scfsi: SCFSI,
    pub part2_3_length: PerGranuleData<u32>,
    pub big_values: PerGranuleData<u32>,
    pub global_gain: PerGranuleData<u32>,
    pub scalefac_compress: PerGranuleData<u32>,
    pub window_switching_flag: PerGranuleData<u32>,
    pub block_type: PerGranuleData<u32>,
    pub mixed_block_flag: PerGranuleData<u32>,
    pub table_select: TableSelect,
    pub subblock_gain: SubblockGain,
    pub preflag: PerGranuleData<u32>,
    pub region0_count: PerGranuleData<u32>,
    pub region1_count: PerGranuleData<u32>,
    pub scalefac_scale: PerGranuleData<u32>,
    pub count1table_select: PerGranuleData<u32>,
}


/// Whether the frame is MPEG-1 (two granules, scalefactor selection present).
pub open spec fn side_v1(h: MPEGHeader) -> bool {
    h.version == MPEGVersion::MPEG1
}

/// Number of channels: 1 in single channel mode, 2 otherwise.
pub open spec fn side_nch(h: MPEGHeader) -> int {
    if h.mode is SingleChannel {
        1
    } else {
        2
    }
}

/// Number of granules: 2 for MPEG-1, 1 for MPEG-2 and MPEG-2.5.
pub open spec fn side_ngr(h: MPEGHeader) -> int {
    if side_v1(h) {
        2
    } else {
        1
    }
}

/// Width of `main_data_begin`.
pub open spec fn mdb_len(h: MPEGHeader) -> int {
    if side_v1(h) {
        9
    } else {
        8
    }
}

/// Width of the private bits.
pub open spec fn private_len(h: MPEGHeader) -> int {
    if side_v1(h) {
        if h.mode is SingleChannel {
            5
        } else {
            3
        }
    } else {
        if h.mode is SingleChannel {
            1
        } else {
            2
        }
    }
}

/// Bits before the first granule/channel block.
pub open spec fn side_head_len(h: MPEGHeader) -> int {
    mdb_len(h) + private_len(h) + if side_v1(h) {
        4 * side_nch(h)
    } else {
        0int
    }
}

/// Width of `scalefac_compress`.
pub open spec fn sc_len(h: MPEGHeader) -> int {
    if side_v1(h) {
        4
    } else {
        9
    }
}

/// Offset of the window switching flag inside a block.
pub open spec fn wsf_offset(h: MPEGHeader) -> int {
    29 + sc_len(h)
}

/// Width of one granule/channel block.
pub open spec fn block_len(h: MPEGHeader) -> int {
    wsf_offset(h) + 23 + if side_v1(h) {
        3int
    } else {
        2int
    }
}

/// Start of block `k` (blocks in granule-major order).
pub open spec fn block_base(h: MPEGHeader, k: int) -> int {
    side_head_len(h) + k * block_len(h)
}

/// Width of the whole side information.
pub open spec fn side_info_len(h: MPEGHeader) -> int {
    block_base(h, side_ngr(h) * side_nch(h))
}

/// Whether the block at bit `base` switches windows with the forbidden block type 0.
pub open spec fn bad_at(r: Seq<bool>, h: MPEGHeader, base: int) -> bool {
    let o = base + wsf_offset(h);
    bit_field(r, o, 1) == 1 && bit_field(r, o + 1, 2) == 0
}

/// Whether block `k` switches windows with the forbidden block type 0.
pub open spec fn block_bad(r: Seq<bool>, h: MPEGHeader, k: int) -> bool {
    bad_at(r, h, block_base(h, k))
}

/// How reading the side information at the start of `r` ends.
#[derive(Debug, Clone, Copy, PartialEq, Eq)]
pub enum SideInfoOutcome {
    Decoded,
    Truncated,
    BadBlockType,
}

/// How reading blocks `k` onwards ends: the first block that cannot be
/// reached up to its block type, or that has a forbidden block type, decides.
#[verifier::opaque]
pub open spec fn side_info_outcome(r: Seq<bool>, h: MPEGHeader, k: int) -> SideInfoOutcome
    decreases side_ngr(h) * side_nch(h) - k,
{
    let n = side_ngr(h) * side_nch(h);
    if k >= n {
        if r.len() >= block_base(h, n) {
            SideInfoOutcome::Decoded
        } else {
            SideInfoOutcome::Truncated
        }
    } else if r.len() < block_base(h, k) + wsf_offset(h) + 4 {
        SideInfoOutcome::Truncated
    } else if block_bad(r, h, k) {
        SideInfoOutcome::BadBlockType
    } else {
        side_info_outcome(r, h, k + 1)
    }
}

proof fn lemma_outcome_step(r: Seq<bool>, h: MPEGHeader, k: int)
    requires
        0 <= k,
    ensures
        side_info_outcome(r, h, k) == if k >= side_ngr(h) * side_nch(h) {
            if r.len() >= block_base(h, side_ngr(h) * side_nch(h)) {
                SideInfoOutcome::Decoded
            } else {
                SideInfoOutcome::Truncated
            }
        } else if r.len() < block_base(h, k) + wsf_offset(h) + 4 {
            SideInfoOutcome::Truncated
        } else if block_bad(r, h, k) {
            SideInfoOutcome::BadBlockType
        } else {
            side_info_outcome(r, h, k + 1)
        },
{
    reveal(side_info_outcome);
}

/// The fields of one granule/channel block.
#[derive(Debug, Clone, Copy)]
pub struct GranuleChannel {
    pub part2_3_length: u32,
    pub big_values: u32,
    pub global_gain: u32,
    pub scalefac_compress: u32,
    pub window_switching_flag: u32,
    pub block_type: u32,
    pub mixed_block_flag: u32,
    pub table_select: (u32, u32, u32),
    pub subblock_gain: (u32, u32, u32),
    pub preflag: u32,
    pub region0_count: u32,
    pub region1_count: u32,
    pub scalefac_scale: u32,
    pub count1table_select: u32,
}

/// The fields of the block that starts at bit `base` of `r`.
pub open spec fn block_fields(r: Seq<bool>, h: MPEGHeader, base: int) -> GranuleChannel {
    let o = base + wsf_offset(h);
    let wsf = bit_field(r, o, 1);
    let switched = wsf == 1;
    let bt = if switched {
        bit_field(r, o + 1, 2)
    } else {
        0
    };
    let mbf = if switched {
        bit_field(r, o + 3, 1)
    } else {
        0
    };
    let r0: u32 = if switched {
        if bt == 2 {
            if mbf == 1 {
                7
            } else {
                8
            }
        } else {
            7
        }
    } else {
        bit_field(r, o + 16, 4)
    };
    let r1: u32 = if switched {
        if bt == 2 {
            (20 - r0) as u32
        } else {
            13
        }
    } else {
        bit_field(r, o + 20, 3)
    };
    let t = o + 23;
    let p = if side_v1(h) {
        1int
    } else {
        0int
    };
    GranuleChannel {
        part2_3_length: bit_field(r, base, 12),
        big_values: bit_field(r, base + 12, 9),
        global_gain: bit_field(r, base + 21, 8),
        scalefac_compress: bit_field(r, base + 29, sc_len(h)),
        window_switching_flag: wsf,
        block_type: bt,
        mixed_block_flag: mbf,
        table_select: if switched {
            (bit_field(r, o + 4, 5), bit_field(r, o + 9, 5), 0)
        } else {
            (bit_field(r, o + 1, 5), bit_field(r, o + 6, 5), bit_field(r, o + 11, 5))
        },
        subblock_gain: if switched {
            (bit_field(r, o + 14, 3), bit_field(r, o + 17, 3), bit_field(r, o + 20, 3))
        } else {
            (0, 0, 0)
        },
        preflag: if side_v1(h) {
            bit_field(r, t, 1)
        } else {
            0
        },
        region0_count: r0,
        region1_count: r1,
        scalefac_scale: bit_field(r, t + p, 1),
        count1table_select: bit_field(r, t + p + 1, 1),
    }
}

/// A block with every field zero.
pub open spec fn zero_block() -> GranuleChannel {
    GranuleChannel {
        part2_3_length: 0,
        big_values: 0,
        global_gain: 0,
        scalefac_compress: 0,
        window_switching_flag: 0,
        block_type: 0,
        mixed_block_flag: 0,
        table_select: (0, 0, 0),
        subblock_gain: (0, 0, 0),
        preflag: 0,
        region0_count: 0,
        region1_count: 0,
        scalefac_scale: 0,
        count1table_select: 0,
    }
}

/// The tables of `si` hold `g` for granule `gr` and channel `ch`.
pub open spec fn cell_holds(si: MPEGSideInfo, gr: int, ch: int, g: GranuleChannel) -> bool {
    let i = gr * 2 + ch;
    let t = gr * 6 + ch * 3;
    &&& si.part2_3_length@[i] == g.part2_3_length
    &&& si.big_values@[i] == g.big_values
    &&& si.global_gain@[i] == g.global_gain
    &&& si.scalefac_compress@[i] == g.scalefac_compress
    &&& si.window_switching_flag@[i] == g.window_switching_flag
    &&& si.block_type@[i] == g.block_type
    &&& si.mixed_block_flag@[i] == g.mixed_block_flag
    &&& si.table_select@[t] == g.table_select.0
    &&& si.table_select@[t + 1] == g.table_select.1
    &&& si.table_select@[t + 2] == g.table_select.2
    &&& si.subblock_gain@[t] == g.subblock_gain.0
    &&& si.subblock_gain@[t + 1] == g.subblock_gain.1
    &&& si.subblock_gain@[t + 2] == g.subblock_gain.2
    &&& si.preflag@[i] == g.preflag
    &&& si.region0_count@[i] == g.region0_count
    &&& si.region1_count@[i] == g.region1_count
    &&& si.scalefac_scale@[i] == g.scalefac_scale
    &&& si.count1table_select@[i] == g.count1table_select
}

/// The table lengths of `si`.
pub open spec fn side_tables_sized(si: MPEGSideInfo) -> bool {
    &&& si.scfsi@.len() == SCFSI_CELLS
    &&& si.part2_3_length@.len() == GRANULE_CELLS
    &&& si.big_values@.len() == GRANULE_CELLS
    &&& si.global_gain@.len() == GRANULE_CELLS
    &&& si.scalefac_compress@.len() == GRANULE_CELLS
    &&& si.window_switching_flag@.len() == GRANULE_CELLS
    &&& si.block_type@.len() == GRANULE_CELLS
    &&& si.mixed_block_flag@.len() == GRANULE_CELLS
    &&& si.table_select@.len() == REGION_CELLS
    &&& si.subblock_gain@.len() == REGION_CELLS
    &&& si.preflag@.len() == GRANULE_CELLS
    &&& si.region0_count@.len() == GRANULE_CELLS
    &&& si.region1_count@.len() == GRANULE_CELLS
    &&& si.scalefac_scale@.len() == GRANULE_CELLS
    &&& si.count1table_select@.len() == GRANULE_CELLS
}

/// `si` and `mdb` are the side information decoded from the start of `r`.
pub open spec fn side_info_matches(si: MPEGSideInfo, mdb: usize, r: Seq<bool>, h: MPEGHeader) -> bool {
    &&& side_tables_sized(si)
    &&& mdb == bit_field(r, 0, mdb_len(h))
    &&& si.private_bits == bit_field(r, mdb_len(h), private_len(h))
    &&& si.nch == side_nch(h)
    &&& si.ngr == side_ngr(h)
    &&& forall|ch: int, band: int|
        0 <= ch < 2 && 0 <= band < 4 ==> #[trigger] si.scfsi@[ch * 4 + band] == if side_v1(h)
            && ch < side_nch(h) {
            bit_field(r, mdb_len(h) + private_len(h) + ch * 4 + band, 1) as u8
        } else {
            0u8
        }
    &&& forall|gr: int, ch: int|
        0 <= gr < 2 && 0 <= ch < 2 ==> #[trigger] cell_holds(si, gr, ch, expected_block(r, h, gr, ch))
}

/// What the tables hold for granule `gr` and channel `ch`: the block read for
/// them, or zero for a granule or channel the frame does not have.
pub open spec fn expected_block(r: Seq<bool>, h: MPEGHeader, gr: int, ch: int) -> GranuleChannel {
    if gr < side_ngr(h) && ch < side_nch(h) {
        block_fields(r, h, block_base(h, gr * side_nch(h) + ch))
    } else {
        zero_block()
    }
}

/// The reservoir size `bc` after `consumed` bits of a read that started with
/// `l0` bits in the reservoir: congruent to `l0 - consumed` modulo 8, and below
/// 8 once a byte had to be pulled in.
pub open spec fn reservoir_tracks(bc: nat, consumed: int, l0: nat) -> bool {
    &&& (bc + consumed) % 8 == l0 % 8
    &&& (bc < 8 || bc + consumed == l0)
}

/// Reads the field of `bits` bits at offset `off` of the bits `r0` that the
/// reader held at the start of the side information.
pub(crate) fn read_si<const BUF_SIZE: usize>(
    biter: &mut Biter<BUF_SIZE>,
    bits: usize,
    Ghost(r0): Ghost<Seq<bool>>,
    Ghost(off): Ghost<int>,
    Ghost(l0): Ghost<nat>,
) -> (r: Result<u32, MpegParseSideInfoError>)
    requires
        old(biter).wf(),
        0 < bits <= 32,
        0 <= off <= r0.len(),
        old(biter).remaining() == r0.skip(off),
        reservoir_tracks(old(biter).bit_count(), off, l0),
    ensures
        final(biter).wf(),
        final(biter).reader().data() == old(biter).reader().data(),
        r is Ok <==> off + bits <= r0.len(),
        r matches Ok(v) ==> v == bit_field(r0, off, bits as int) && final(biter).remaining()
            == r0.skip(off + bits) && reservoir_tracks(final(biter).bit_count(), off + bits, l0),
        r is Err ==> r == Err::<u32, MpegParseSideInfoError>(
            MpegParseSideInfoError::IOError(BiterError::EOF),
        ),
{
    let ghost b = old(biter).bit_count();
    match biter.read_bits_u32(bits) {
        Ok(v) => {
            assert(r0.skip(off).take(bits as int) =~= r0.subrange(off, off + bits));
            assert(r0.skip(off).skip(bits as int) =~= r0.skip(off + bits));
            proof {
                let nb = bit_count_after_read(b, bits as nat);
                if b < bits {
                    assert(nb == (b - bits) % 8);
                    assert((nb + off + bits) % 8 == (b + off) % 8) by (nonlinear_arith)
                        requires
                            nb == (b - bits) % 8,
                    ;
                }
            }
            Ok(v)
        },
        Err(e) => Err(MpegParseSideInfoError::IOError(e)),
    }
}


/// Reads the block of one granule and channel, which starts at bit `base` of `r0`.
fn parse_granule_channel<const BUF_SIZE: usize>(
    header: &MPEGHeader,
    v1: bool,
    biter: &mut Biter<BUF_SIZE>,
    Ghost(r0): Ghost<Seq<bool>>,
    Ghost(base): Ghost<int>,
    Ghost(l0): Ghost<nat>,
) -> (r: Result<GranuleChannel, MpegParseSideInfoError>)
    requires
        old(biter).wf(),
        0 <= base <= r0.len(),
        old(biter).remaining() == r0.skip(base),
        reservoir_tracks(old(biter).bit_count(), base, l0),
        v1 == side_v1(*header),
    ensures
        final(biter).wf(),
        final(biter).reader().data() == old(biter).reader().data(),
        r0.len() < base + wsf_offset(*header) + 4 ==> r == Err::<
            GranuleChannel,
            MpegParseSideInfoError,
        >(MpegParseSideInfoError::IOError(BiterError::EOF)),
        r0.len() >= base + wsf_offset(*header) + 4 && bad_at(r0, *header, base) ==> r == Err::<
            GranuleChannel,
            MpegParseSideInfoError,
        >(MpegParseSideInfoError::InvalidBlockType(0)),
        r0.len() >= base + wsf_offset(*header) + 4 && !bad_at(r0, *header, base) && r0.len() < base
            + block_len(*header) ==> r == Err::<GranuleChannel, MpegParseSideInfoError>(
            MpegParseSideInfoError::IOError(BiterError::EOF),
        ),
        r0.len() >= base + block_len(*header) && !bad_at(r0, *header, base) ==> (r matches Ok(g)
            && g == block_fields(r0, *header, base) && final(biter).remaining() == r0.skip(
            base + block_len(*header),
        ) && reservoir_tracks(final(biter).bit_count(), base + block_len(*header), l0)),
{
    let ghost h = *header;
    let ghost o = base + wsf_offset(h);
    let sc_bits: usize = if v1 {
        4
    } else {
        9
    };
    let part2_3_length = read_si(biter, 12, Ghost(r0), Ghost(base), Ghost(l0))?;
    let big_values = read_si(biter, 9, Ghost(r0), Ghost(base + 12), Ghost(l0))?;
    let global_gain = read_si(biter, 8, Ghost(r0), Ghost(base + 21), Ghost(l0))?;
    let scalefac_compress = read_si(biter, sc_bits, Ghost(r0), Ghost(base + 29), Ghost(l0))?;
    let wsf = read_si(biter, 1, Ghost(r0), Ghost(o), Ghost(l0))?;
    let block_type;
    let mixed_block_flag;
    let table_select;
    let subblock_gain;
    let region0_count;
    let region1_count;
    if wsf == 1 {
        let bt = read_si(biter, 2, Ghost(r0), Ghost(o + 1), Ghost(l0))?;
        let mbf = read_si(biter, 1, Ghost(r0), Ghost(o + 3), Ghost(l0))?;
        block_type = bt;
        mixed_block_flag = mbf;
        if bt == 0 {
            return Err(MpegParseSideInfoError::InvalidBlockType(bt));
        }
        let ts0 = read_si(biter, 5, Ghost(r0), Ghost(o + 4), Ghost(l0))?;
        let ts1 = read_si(biter, 5, Ghost(r0), Ghost(o + 9), Ghost(l0))?;
        table_select = (ts0, ts1, 0);
        let g0 = read_si(biter, 3, Ghost(r0), Ghost(o + 14), Ghost(l0))?;
        let g1 = read_si(biter, 3, Ghost(r0), Ghost(o + 17), Ghost(l0))?;
        let g2 = read_si(biter, 3, Ghost(r0), Ghost(o + 20), Ghost(l0))?;
        subblock_gain = (g0, g1, g2);
        if bt == 2 {
            let r0c: u32 = if mbf == 1 {
                7
            } else {
                8
            };
            region0_count = r0c;
            region1_count = 20 - r0c;
        } else {
            region0_count = 7;
            region1_count = 13;
        }
    } else {
        block_type = 0;
        mixed_block_flag = 0;
        let ts0 = read_si(biter, 5, Ghost(r0), Ghost(o + 1), Ghost(l0))?;
        let ts1 = read_si(biter, 5, Ghost(r0), Ghost(o + 6), Ghost(l0))?;
        let ts2 = read_si(biter, 5, Ghost(r0), Ghost(o + 11), Ghost(l0))?;
        table_select = (ts0, ts1, ts2);
        subblock_gain = (0, 0, 0);
        region0_count = read_si(biter, 4, Ghost(r0), Ghost(o + 16), Ghost(l0))?;
        region1_count = read_si(biter, 3, Ghost(r0), Ghost(o + 20), Ghost(l0))?;
    }
    let preflag = if v1 {
        read_si(biter, 1, Ghost(r0), Ghost(o + 23), Ghost(l0))?
    } else {
        0
    };
    let ghost t = if v1 {
        o + 24
    } else {
        o + 23
    };
    let scalefac_scale = read_si(biter, 1, Ghost(r0), Ghost(t), Ghost(l0))?;
    let count1table_select = read_si(biter, 1, Ghost(r0), Ghost(t + 1), Ghost(l0))?;
    Ok(
        GranuleChannel {
            part2_3_length,
            big_values,
            global_gain,
            scalefac_compress,
            window_switching_flag: wsf,
            block_type,
            mixed_block_flag,
            table_select,
            subblock_gain,
            preflag,
            region0_count,
            region1_count,
            scalefac_scale,
            count1table_select,
        },
    )
}


/// What the tables hold for granule `gr` and channel `ch` once the first `k`
/// blocks have been read.
pub open spec fn partial_block(r: Seq<bool>, h: MPEGHeader, k: int, gr: int, ch: int) -> GranuleChannel {
    if gr * side_nch(h) + ch < k {
        expected_block(r, h, gr, ch)
    } else {
        zero_block()
    }
}

/// Stores the block `g` of granule `gr` and channel `ch`.
fn store_block(si: &mut MPEGSideInfo, gr: usize, ch: usize, g: &GranuleChannel)
    requires
        gr < 2,
        ch < 2,
        side_tables_sized(*old(si)),
    ensures
        side_tables_sized(*final(si)),
        cell_holds(*final(si), gr as int, ch as int, *g),
        forall|g2: int, c2: int, x: GranuleChannel|
            0 <= g2 < 2 && 0 <= c2 < 2 && !(g2 == gr && c2 == ch) && cell_holds(*old(si), g2, c2, x)
                ==> cell_holds(*final(si), g2, c2, x),
        final(si).scfsi == old(si).scfsi,
        final(si).private_bits == old(si).private_bits,
        final(si).nch == old(si).nch,
        final(si).ngr == old(si).ngr,
{
    si.part2_3_length.set(gr, ch, g.part2_3_length);
    si.big_values.set(gr, ch, g.big_values);
    si.global_gain.set(gr, ch, g.global_gain);
    si.scalefac_compress.set(gr, ch, g.scalefac_compress);
    si.window_switching_flag.set(gr, ch, g.window_switching_flag);
    si.block_type.set(gr, ch, g.block_type);
    si.mixed_block_flag.set(gr, ch, g.mixed_block_flag);
    si.table_select.set(gr, ch, 0, g.table_select.0);
    si.table_select.set(gr, ch, 1, g.table_select.1);
    si.table_select.set(gr, ch, 2, g.table_select.2);
    si.subblock_gain.set(gr, ch, 0, g.subblock_gain.0);
    si.subblock_gain.set(gr, ch, 1, g.subblock_gain.1);
    si.subblock_gain.set(gr, ch, 2, g.subblock_gain.2);
    si.preflag.set(gr, ch, g.preflag);
    si.region0_count.set(gr, ch, g.region0_count);
    si.region1_count.set(gr, ch, g.region1_count);
    si.scalefac_scale.set(gr, ch, g.scalefac_scale);
    si.count1table_select.set(gr, ch, g.count1table_select);
}

/// The side information is a whole number of bytes, at least nine.
proof fn lemma_side_info_len(h: MPEGHeader)
    ensures
        side_info_len(h) % 8 == 0,
        side_info_len(h) >= 72,
        side_head_len(h) <= block_base(h, 0) + wsf_offset(h) + 4,
        side_ngr(h) * side_nch(h) >= 1,
{
    if side_v1(h) {
        assert(side_ngr(h) == 2);
        assert(block_len(h) == 59);
        if h.mode is SingleChannel {
            assert(side_nch(h) == 1);
            assert(side_head_len(h) == 18);
            assert(side_info_len(h) == 18 + 2 * 59);
        } else {
            assert(side_nch(h) == 2);
            assert(side_head_len(h) == 20);
            assert(side_info_len(h) == 20 + 4 * 59);
        }
    } else {
        assert(side_ngr(h) == 1);
        assert(block_len(h) == 63);
        if h.mode is SingleChannel {
            assert(side_nch(h) == 1);
            assert(side_head_len(h) == 9);
            assert(side_info_len(h) == 9 + 1 * 63);
        } else {
            assert(side_nch(h) == 2);
            assert(side_head_len(h) == 10);
            assert(side_info_len(h) == 10 + 2 * 63);
        }
    }
}

/// Reads `main_data_begin`, the private bits and, for MPEG-1, the scalefactor selection.
fn read_side_info_head<const BUF_SIZE: usize>(
    header: &MPEGHeader,
    v1: bool,
    single: bool,
    biter: &mut Biter<BUF_SIZE>,
    Ghost(rem): Ghost<Seq<bool>>,
    Ghost(l0): Ghost<nat>,
) -> (r: Result<(u32, u32, SCFSI), MpegParseSideInfoError>)
    requires
        old(biter).wf(),
        old(biter).remaining() == rem,
        reservoir_tracks(old(biter).bit_count(), 0, l0),
        v1 == side_v1(*header),
        single == (header.mode is SingleChannel),
    ensures
        final(biter).wf(),
        final(biter).reader().data() == old(biter).reader().data(),
        r is Ok <==> side_head_len(*header) <= rem.len(),
        r is Err ==> r == Err::<(u32, u32, SCFSI), MpegParseSideInfoError>(
            MpegParseSideInfoError::IOError(BiterError::EOF),
        ),
        r matches Ok((mdb, private, scfsi)) ==> ({
            let h = *header;
            &&& mdb == bit_field(rem, 0, mdb_len(h))
            &&& private == bit_field(rem, mdb_len(h), private_len(h))
            &&& scfsi@.len() == SCFSI_CELLS
            &&& forall|c: int, b: int|
                0 <= c < 2 && 0 <= b < 4 ==> #[trigger] scfsi@[c * 4 + b] == if side_v1(h) && c
                    < side_nch(h) {
                    bit_field(rem, mdb_len(h) + private_len(h) + c * 4 + b, 1) as u8
                } else {
                    0u8
                }
            &&& final(biter).remaining() == rem.skip(side_head_len(h))
            &&& reservoir_tracks(final(biter).bit_count(), side_head_len(h), l0)
        }),
{
    let ghost h = *header;
    assert(rem.skip(0) =~= rem);
    let mdb_bits: usize = if v1 {
        9
    } else {
        8
    };
    let main_data_begin = read_si(biter, mdb_bits, Ghost(rem), Ghost(0), Ghost(l0))?;
    let private_width: usize = if v1 {
        if single {
            5
        } else {
            3
        }
    } else {
        if single {
            1
        } else {
            2
        }
    };
    let private_bits = read_si(biter, private_width, Ghost(rem), Ghost(mdb_len(h)), Ghost(l0))?;
    // Number of channels. 1 for single_channel mode, 2 in other modes.
    let nch: usize = if single {
        1
    } else {
        2
    };
    let mut scfsi = SCFSI::new();
    if v1 {
        let mut ch: usize = 0;
        while ch < nch
            invariant
                biter.wf(),
                biter.reader().data() == old(biter).reader().data(),
                h == *header,
                v1 == side_v1(h),
                v1,
                nch == side_nch(h),
                ch <= nch,
                mdb_len(h) + private_len(h) + 4 * ch <= rem.len(),
                biter.remaining() == rem.skip(mdb_len(h) + private_len(h) + 4 * ch),
                reservoir_tracks(biter.bit_count(), mdb_len(h) + private_len(h) + 4 * ch, l0),
                scfsi@.len() == SCFSI_CELLS,
                forall|c: int, b: int|
                    0 <= c < 2 && 0 <= b < 4 ==> #[trigger] scfsi@[c * 4 + b] == if c < ch {
                        bit_field(rem, mdb_len(h) + private_len(h) + c * 4 + b, 1) as u8
                    } else {
                        0u8
                    },
            decreases nch - ch,
        {
            let mut band: usize = 0;
            while band < MAX_SCFI_BANDS
                invariant
                    biter.wf(),
                    biter.reader().data() == old(biter).reader().data(),
                    h == *header,
                    v1,
                    v1 == side_v1(h),
                    nch == side_nch(h),
                    ch < nch,
                    band <= 4,
                    mdb_len(h) + private_len(h) + 4 * ch + band <= rem.len(),
                    biter.remaining() == rem.skip(mdb_len(h) + private_len(h) + 4 * ch + band),
                    reservoir_tracks(
                        biter.bit_count(),
                        mdb_len(h) + private_len(h) + 4 * ch + band,
                        l0,
                    ),
                    scfsi@.len() == SCFSI_CELLS,
                    forall|c: int, b: int|
                        0 <= c < 2 && 0 <= b < 4 ==> #[trigger] scfsi@[c * 4 + b] == if c < ch || (
                        c == ch && b < band) {
                            bit_field(rem, mdb_len(h) + private_len(h) + c * 4 + b, 1) as u8
                        } else {
                            0u8
                        },
                decreases 4 - band,
            {
                let ghost off = mdb_len(h) + private_len(h) + 4 * ch + band;
                let bit = read_si(biter, 1, Ghost(rem), Ghost(off), Ghost(l0))?;
                proof {
                    crate::bits::lemma_bits_value_bound(rem.subrange(off, off + 1));
                    vstd::arithmetic::power2::lemma2_to64();
                    assert(bit < 2);
                }
                scfsi.set(ch, band, bit as u8);
                band = band + 1;
            }
            ch = ch + 1;
        }
    }
    Ok((main_data_begin, private_bits, scfsi))
}

/// Reads the blocks of every granule and channel into `si`.
fn read_granule_blocks<const BUF_SIZE: usize>(
    header: &MPEGHeader,
    v1: bool,
    nch: usize,
    ngr: usize,
    biter: &mut Biter<BUF_SIZE>,
    si: &mut MPEGSideInfo,
    Ghost(rem): Ghost<Seq<bool>>,
    Ghost(l0): Ghost<nat>,
) -> (r: Result<(), MpegParseSideInfoError>)
    requires
        old(biter).wf(),
        v1 == side_v1(*header),
        nch == side_nch(*header),
        ngr == side_ngr(*header),
        side_head_len(*header) <= rem.len(),
        old(biter).remaining() == rem.skip(side_head_len(*header)),
        reservoir_tracks(old(biter).bit_count(), side_head_len(*header), l0),
        side_tables_sized(*old(si)),
        forall|g2: int, c2: int|
            0 <= g2 < 2 && 0 <= c2 < 2 ==> #[trigger] cell_holds(*old(si), g2, c2, zero_block()),
    ensures
        final(biter).wf(),
        final(biter).reader().data() == old(biter).reader().data(),
        side_tables_sized(*final(si)),
        final(si).scfsi == old(si).scfsi,
        final(si).private_bits == old(si).private_bits,
        final(si).nch == old(si).nch,
        final(si).ngr == old(si).ngr,
        r is Ok <==> side_info_outcome(rem, *header, 0) == SideInfoOutcome::Decoded,
        side_info_outcome(rem, *header, 0) == SideInfoOutcome::Truncated ==> r == Err::<
            (),
            MpegParseSideInfoError,
        >(MpegParseSideInfoError::IOError(BiterError::EOF)),
        side_info_outcome(rem, *header, 0) == SideInfoOutcome::BadBlockType ==> r == Err::<
            (),
            MpegParseSideInfoError,
        >(MpegParseSideInfoError::InvalidBlockType(0)),
        r is Ok ==> final(biter).remaining() == rem.skip(side_info_len(*header)) && reservoir_tracks(
            final(biter).bit_count(),
            side_info_len(*header),
            l0,
        ) && forall|g2: int, c2: int|
            0 <= g2 < 2 && 0 <= c2 < 2 ==> #[trigger] cell_holds(
                *final(si),
                g2,
                c2,
                expected_block(rem, *header, g2, c2),
            ),
{
    let ghost h = *header;
    let ghost n = side_ngr(h) * side_nch(h);
    let mut gr: usize = 0;
    let ghost mut k: int = 0;
    proof {
        lemma_side_info_len(h);
        assert(block_base(h, 0) == side_head_len(h));
        assert forall|g2: int, c2: int| 0 <= g2 < 2 && 0 <= c2 < 2 implies #[trigger] cell_holds(
            *si,
            g2,
            c2,
            partial_block(rem, h, 0, g2, c2),
        ) by {
            assert(cell_holds(*old(si), g2, c2, zero_block()));
        }
    }
    while gr < ngr
        invariant
            biter.wf(),
            biter.reader().data() == old(biter).reader().data(),
            h == *header,
            v1 == side_v1(h),
            nch == side_nch(h),
            ngr == side_ngr(h),
            n == ngr * nch,
            gr <= ngr,
            k == gr * nch,
            0 <= k <= n,
            biter.remaining() == rem.skip(block_base(h, k)),
            block_base(h, k) <= rem.len(),
            reservoir_tracks(biter.bit_count(), block_base(h, k), l0),
            side_info_outcome(rem, h, 0) == side_info_outcome(rem, h, k),
            side_tables_sized(*si),
            si.scfsi == old(si).scfsi,
            si.private_bits == old(si).private_bits,
            si.nch == old(si).nch,
            si.ngr == old(si).ngr,
            forall|g2: int, c2: int|
                0 <= g2 < 2 && 0 <= c2 < 2 ==> #[trigger] cell_holds(
                    *si,
                    g2,
                    c2,
                    partial_block(rem, h, k, g2, c2),
                ),
        decreases ngr - gr,
    {
        let mut ch: usize = 0;
        while ch < nch
            invariant
                biter.wf(),
                biter.reader().data() == old(biter).reader().data(),
                h == *header,
                v1 == side_v1(h),
                nch == side_nch(h),
                ngr == side_ngr(h),
                n == ngr * nch,
                gr < ngr,
                ch <= nch,
                k == gr * nch + ch,
                0 <= k <= n,
                biter.remaining() == rem.skip(block_base(h, k)),
                block_base(h, k) <= rem.len(),
                reservoir_tracks(biter.bit_count(), block_base(h, k), l0),
                side_info_outcome(rem, h, 0) == side_info_outcome(rem, h, k),
                side_tables_sized(*si),
                si.scfsi == old(si).scfsi,
                si.private_bits == old(si).private_bits,
                si.nch == old(si).nch,
                si.ngr == old(si).ngr,
                forall|g2: int, c2: int|
                    0 <= g2 < 2 && 0 <= c2 < 2 ==> #[trigger] cell_holds(
                        *si,
                        g2,
                        c2,
                        partial_block(rem, h, k, g2, c2),
                    ),
            decreases nch - ch,
        {
            let ghost base = block_base(h, k);
            proof {
                assert(k < n) by (nonlinear_arith)
                    requires
                        gr < ngr,
                        ch < nch,
                        n == ngr * nch,
                        k == gr * nch + ch,
                ;
                lemma_outcome_step(rem, h, k);
                assert(block_base(h, k + 1) == base + block_len(h)) by (nonlinear_arith)
                    requires
                        base == side_head_len(h) + k * block_len(h),
                        block_base(h, k + 1) == side_head_len(h) + (k + 1) * block_len(h),
                ;
                lemma_outcome_step(rem, h, k + 1);
            }
            let g = parse_granule_channel(header, v1, biter, Ghost(rem), Ghost(base), Ghost(l0))?;
            let ghost before = *si;
            store_block(si, gr, ch, &g);
            proof {
                assert(g == expected_block(rem, h, gr as int, ch as int));
                assert forall|g2: int, c2: int| 0 <= g2 < 2 && 0 <= c2 < 2 implies #[trigger] cell_holds(
                    *si,
                    g2,
                    c2,
                    partial_block(rem, h, k + 1, g2, c2),
                ) by {
                    if g2 == gr && c2 == ch {
                    } else {
                        assert(cell_holds(before, g2, c2, partial_block(rem, h, k, g2, c2)));
                        if g2 < ngr && c2 < nch && g2 * nch + c2 == k {
                            assert(g2 == gr && c2 == ch) by (nonlinear_arith)
                                requires
                                    g2 * nch + c2 == gr * nch + ch,
                                    0 <= c2 < nch,
                                    0 <= ch < nch,
                                    0 <= g2,
                                    0 <= gr,
                            {
                                if g2 < gr {
                                    assert(g2 * nch + c2 < (g2 + 1) * nch);
                                    assert((g2 + 1) * nch <= gr * nch);
                                } else if g2 > gr {
                                    assert(gr * nch + ch < (gr + 1) * nch);
                                    assert((gr + 1) * nch <= g2 * nch);
                                }
                            };
                        }
                        assert(partial_block(rem, h, k + 1, g2, c2) == partial_block(
                            rem,
                            h,
                            k,
                            g2,
                            c2,
                        ));
                    }
                }
                k = k + 1;
            }
            ch = ch + 1;
        }
        proof {
            assert(k == (gr + 1) * nch) by (nonlinear_arith)
                requires
                    k == gr * nch + nch,
            ;
        }
        gr = gr + 1;
    }
    proof {
        lemma_outcome_step(rem, h, n);
        assert forall|g2: int, c2: int| 0 <= g2 < 2 && 0 <= c2 < 2 implies #[trigger] cell_holds(
            *si,
            g2,
            c2,
            expected_block(rem, h, g2, c2),
        ) by {
            assert(cell_holds(*si, g2, c2, partial_block(rem, h, k, g2, c2)));
            if g2 < ngr && c2 < nch {
                assert(g2 * nch + c2 < n) by (nonlinear_arith)
                    requires
                        0 <= g2 < ngr,
                        0 <= c2 < nch,
                        n == ngr * nch,
                {
                    assert(g2 * nch + c2 < (g2 + 1) * nch);
                    assert((g2 + 1) * nch <= ngr * nch);
                };
            }
        }
    }
    Ok(())
}

/// Reads the side information that follows a frame header: `main_data_begin`
/// (returned apart), the private bits, the scalefactor selection (MPEG-1) and
/// one block per granule and channel. The reader must stand on a byte boundary.
pub fn parse_side_info<const BUF_SIZE: usize>(header: &MPEGHeader, biter: &mut Biter<BUF_SIZE>) -> (r:
    Result<(MPEGSideInfo, usize), MpegParseSideInfoError>)
    requires
        old(biter).wf(),
        old(biter).is_byte_aligned(),
    ensures
        final(biter).wf(),
        final(biter).reader().data() == old(biter).reader().data(),
        ({
            let rem = old(biter).remaining();
            let out = side_info_outcome(rem, *header, 0);
            &&& r is Ok <==> out == SideInfoOutcome::Decoded
            &&& out == SideInfoOutcome::Truncated ==> r == Err::<
                (MPEGSideInfo, usize),
                MpegParseSideInfoError,
            >(MpegParseSideInfoError::IOError(BiterError::EOF))
            &&& out == SideInfoOutcome::BadBlockType ==> r == Err::<
                (MPEGSideInfo, usize),
                MpegParseSideInfoError,
            >(MpegParseSideInfoError::InvalidBlockType(0))
            &&& r matches Ok((si, mdb)) ==> side_info_matches(si, mdb, rem, *header) && final(
                biter).remaining() == rem.skip(side_info_len(*header)) && final(biter).bit_count()
                == 0
        }),
{
    let ghost h = *header;
    let ghost rem = old(biter).remaining();
    let ghost l0 = old(biter).bit_count();
    proof {
        old(biter).lemma_bit_count_bound();
        lemma_side_info_len(h);
        lemma_outcome_step(rem, h, 0);
    }
    let v1 = match header.version {
        MPEGVersion::MPEG1 => true,
        _ => false,
    };
    let single = match header.mode {
        MPEGMode::SingleChannel => true,
        _ => false,
    };
    let (main_data_begin, private_bits, scfsi) = read_side_info_head(
        header,
        v1,
        single,
        biter,
        Ghost(rem),
        Ghost(l0),
    )?;
    // Number of channels. 1 for single_channel mode, 2 in other modes.
    let nch: usize = if single {
        1
    } else {
        2
    };
    // Number of granules; equals 2 for MPEG1, 1 for MPEG2 and MPEG2.5.
    let ngr: usize = if v1 {
        2
    } else {
        1
    };
    let mut si = MPEGSideInfo {
        private_bits,
        nch,
        ngr,
        scfsi,
        part2_3_length: PerGranuleData::<u32>::new(),
        big_values: PerGranuleData::<u32>::new(),
        global_gain: PerGranuleData::<u32>::new(),
        scalefac_compress: PerGranuleData::<u32>::new(),
        window_switching_flag: PerGranuleData::<u32>::new(),
        block_type: PerGranuleData::<u32>::new(),
        mixed_block_flag: PerGranuleData::<u32>::new(),
        table_select: TableSelect::new(),
        subblock_gain: SubblockGain::new(),
        preflag: PerGranuleData::<u32>::new(),
        region0_count: PerGranuleData::<u32>::new(),
        region1_count: PerGranuleData::<u32>::new(),
        scalefac_scale: PerGranuleData::<u32>::new(),
        count1table_select: PerGranuleData::<u32>::new(),
    };
    read_granule_blocks(header, v1, nch, ngr, biter, &mut si, Ghost(rem), Ghost(l0))?;
    Ok((si, main_data_begin as usize))
}

} // verus!
