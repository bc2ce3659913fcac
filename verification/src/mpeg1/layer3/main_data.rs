//! Main data of MPEG-1 Layer III frames: the scalefactors and the Huffman
//! coded spectral values of each granule and channel.
use crate::bite::{bit_count_after_read, Biter, BiterError, DEFAULT_BUF_SIZE};
use crate::bits::{bits_value, lemma_bits_value_bound};
use vstd::arithmetic::power2::{lemma2_to64, lemma_pow2_strictly_increases, pow2};
use crate::mpeg::header::{bit_field, MPEGHeader};
use crate::mpeg1::layer3::huffman::{
    big_feed, big_path, law_big_walk_restarts, BigHuffmanDecoder, BigHuffmanDecoderResult, BigHuffmanTable, BigHuffmanTableNode, HuffmanTables, TableSet,
    count1_feed, Count1HuffmanDecoder, Count1HuffmanDecoderResult, Count1HuffmanTable,
    Count1HuffmanTableNode, Count1HuffmanTableNodeValue,
    BigHuffmanTableNodeValue,
};
use crate::mpeg1::layer3::side_info::{
    scfsi_flag, scfsi_group, BlockType, Granule, MPEGSideInfo, SCFSI,
};
use vstd::prelude::*;

verus! {

/// Why the main data of a frame could not be decoded.
#[derive(Debug, Clone, Copy, PartialEq, Eq)]
pub enum DecodeMainDataError {
    /// A read from the bit reader failed.
    BiterError(BiterError),
    /// The scalefactor bands or the spectral lines ran past their tables.
    InvalidBandState,
    /// The scalefactors, or a read of the Huffman coded part after them, went
    /// past the granule's `part2_3_length` bits.
    Part23Overread,
    /// A big-values code led nowhere in its Huffman tree.
    InvalidBigHuffmanCode,
    /// The count1 region could not be decoded.
    InvalidCount1HuffmanCode,
}

/// The sampling frequencies that have a scalefactor band table, in table order.
pub open spec fn frequency_index(sf: u32) -> Option<int> {
    if sf == 8000 {
        Some(0)
    } else if sf == 11025 {
        Some(1)
    } else if sf == 12000 {
        Some(2)
    } else if sf == 16000 {
        Some(3)
    } else if sf == 22050 {
        Some(4)
    } else if sf == 24000 {
        Some(5)
    } else if sf == 32000 {
        Some(6)
    } else if sf == 44100 {
        Some(7)
    } else if sf == 48000 {
        Some(8)
    } else {
        None
    }
}

/// The band table a block type uses: short blocks have their own, all others the long one.
pub open spec fn block_index(bt: BlockType) -> int {
    if bt == BlockType::Short {
        1
    } else {
        0
    }
}

/// The widths of the 21 scalefactor bands for frequency table `f` and block table `b`.
pub open spec fn band_widths(f: int, b: int) -> Seq<u8> {
    if f == 0 {
        if b == 0 {
            seq![12u8, 12, 12, 12, 12, 12, 16, 20, 24, 28, 32, 40, 48, 56, 64, 76, 90, 2, 2, 2, 2]
        } else {
            seq![8u8, 8, 8, 12, 16, 20, 24, 28, 36, 2, 2, 2, 0, 0, 0, 0, 0, 0, 0, 0, 0]
        }
    } else if f <= 3 {
        if b == 0 {
            seq![6u8, 6, 6, 6, 6, 6, 8, 10, 12, 14, 16, 20, 24, 28, 32, 38, 46, 52, 60, 68, 58]
        } else {
            seq![4u8, 4, 4, 6, 8, 10, 12, 14, 18, 24, 30, 40, 0, 0, 0, 0, 0, 0, 0, 0, 0]
        }
    } else if f == 4 {
        if b == 0 {
            seq![6u8, 6, 6, 6, 6, 6, 8, 10, 12, 14, 16, 20, 24, 28, 32, 38, 46, 52, 60, 68, 58]
        } else {
            seq![4u8, 4, 4, 6, 6, 8, 10, 14, 18, 26, 32, 42, 0, 0, 0, 0, 0, 0, 0, 0, 0]
        }
    } else if f == 5 {
        if b == 0 {
            seq![6u8, 6, 6, 6, 6, 6, 8, 10, 12, 14, 16, 18, 22, 26, 32, 38, 46, 54, 62, 70, 76]
        } else {
            seq![4u8, 4, 4, 6, 8, 10, 12, 14, 18, 24, 32, 44, 0, 0, 0, 0, 0, 0, 0, 0, 0]
        }
    } else if f == 6 {
        if b == 0 {
            seq![4u8, 4, 4, 4, 4, 4, 6, 6, 8, 10, 12, 16, 20, 24, 30, 38, 46, 56, 68, 84, 102]
        } else {
            seq![4u8, 4, 4, 4, 6, 8, 12, 16, 20, 26, 34, 42, 0, 0, 0, 0, 0, 0, 0, 0, 0]
        }
    } else if f == 7 {
        if b == 0 {
            seq![4u8, 4, 4, 4, 4, 4, 6, 6, 8, 8, 10, 12, 16, 20, 24, 28, 34, 42, 50, 54, 76]
        } else {
            seq![4u8, 4, 4, 4, 6, 8, 10, 12, 14, 18, 22, 30, 0, 0, 0, 0, 0, 0, 0, 0, 0]
        }
    } else {
        if b == 0 {
            seq![4u8, 4, 4, 4, 4, 4, 6, 6, 6, 8, 10, 12, 16, 18, 22, 28, 34, 40, 46, 54, 54]
        } else {
            seq![4u8, 4, 4, 4, 6, 6, 10, 12, 14, 16, 20, 26, 0, 0, 0, 0, 0, 0, 0, 0, 0]
        }
    }
}

/// The band widths for sampling frequency `sf` and block type `bt`.
pub open spec fn widths_for(sf: u32, bt: BlockType) -> Seq<u8> {
    band_widths(frequency_index(sf).unwrap(), block_index(bt))
}

fn band_row(f: usize, b: usize) -> (r: [u8; 21])
    requires
        f < 9,
        b < 2,
    ensures
        r@ == band_widths(f as int, b as int),
{
    let r: [u8; 21] = if f == 0 {
        if b == 0 {
            [12, 12, 12, 12, 12, 12, 16, 20, 24, 28, 32, 40, 48, 56, 64, 76, 90, 2, 2, 2, 2]
        } else {
            [8, 8, 8, 12, 16, 20, 24, 28, 36, 2, 2, 2, 0, 0, 0, 0, 0, 0, 0, 0, 0]
        }
    } else if f <= 3 {
        if b == 0 {
            [6, 6, 6, 6, 6, 6, 8, 10, 12, 14, 16, 20, 24, 28, 32, 38, 46, 52, 60, 68, 58]
        } else {
            [4, 4, 4, 6, 8, 10, 12, 14, 18, 24, 30, 40, 0, 0, 0, 0, 0, 0, 0, 0, 0]
        }
    } else if f == 4 {
        if b == 0 {
            [6, 6, 6, 6, 6, 6, 8, 10, 12, 14, 16, 20, 24, 28, 32, 38, 46, 52, 60, 68, 58]
        } else {
            [4, 4, 4, 6, 6, 8, 10, 14, 18, 26, 32, 42, 0, 0, 0, 0, 0, 0, 0, 0, 0]
        }
    } else if f == 5 {
        if b == 0 {
            [6, 6, 6, 6, 6, 6, 8, 10, 12, 14, 16, 18, 22, 26, 32, 38, 46, 54, 62, 70, 76]
        } else {
            [4, 4, 4, 6, 8, 10, 12, 14, 18, 24, 32, 44, 0, 0, 0, 0, 0, 0, 0, 0, 0]
        }
    } else if f == 6 {
        if b == 0 {
            [4, 4, 4, 4, 4, 4, 6, 6, 8, 10, 12, 16, 20, 24, 30, 38, 46, 56, 68, 84, 102]
        } else {
            [4, 4, 4, 4, 6, 8, 12, 16, 20, 26, 34, 42, 0, 0, 0, 0, 0, 0, 0, 0, 0]
        }
    } else if f == 7 {
        if b == 0 {
            [4, 4, 4, 4, 4, 4, 6, 6, 8, 8, 10, 12, 16, 20, 24, 28, 34, 42, 50, 54, 76]
        } else {
            [4, 4, 4, 4, 6, 8, 10, 12, 14, 18, 22, 30, 0, 0, 0, 0, 0, 0, 0, 0, 0]
        }
    } else {
        if b == 0 {
            [4, 4, 4, 4, 4, 4, 6, 6, 6, 8, 10, 12, 16, 18, 22, 28, 34, 40, 46, 54, 54]
        } else {
            [4, 4, 4, 4, 6, 6, 10, 12, 14, 16, 20, 26, 0, 0, 0, 0, 0, 0, 0, 0, 0]
        }
    };
    assert(r@ =~= band_widths(f as int, b as int));
    r
}

/// Line `l`'s scalefactor band and region for each of the 576 spectral lines of a granule.
struct SpectralMap {
    map: [(u8, u8); 576],
}

/// The first `l` entries of `map` hold the band and the region of their line.
pub open spec fn map_upto(map: Seq<(u8, u8)>, sf: u32, g: Granule, l: int) -> bool {
    forall|j: int|
        0 <= j < l ==> (#[trigger] map[j]).1 == line_region(sf, g, j as nat) && map[j].0
            == line_band(sf, g, j as nat)
}

/// The first line past band `s`: the sum of the widths of bands `0..=s`.
pub open spec fn band_end(w: Seq<u8>, s: nat) -> nat
    decreases s,
{
    if s == 0 {
        w[0] as nat
    } else {
        band_end(w, (s - 1) as nat) + w[s as int] as nat
    }
}

/// The first line of band `s`.
pub open spec fn band_start(w: Seq<u8>, s: nat) -> nat {
    if s == 0 {
        0
    } else {
        band_end(w, (s - 1) as nat)
    }
}

/// The band, from band `s` on, that holds line `l`: band `t` holds the lines
/// from `band_start(w, t)` below `band_end(w, t)`, and the last band, 20,
/// runs on to the last line.
pub open spec fn band_from(w: Seq<u8>, l: nat, s: nat) -> nat
    decreases 20 - s,
{
    if s >= 20 {
        20
    } else if l < band_end(w, s) {
        s
    } else {
        band_from(w, l, s + 1)
    }
}

/// The region (0, 1 or 2) of scalefactor band `sfb` for a granule: region 0
/// has `region0_count + 1` bands, region 1 the next `region1_count + 1` bands.
pub open spec fn band_region(g: Granule, sfb: nat) -> u8 {
    if sfb <= g.region0_count {
        0
    } else if sfb <= g.region0_count + g.region1_count + 1 {
        1
    } else {
        2
    }
}

/// The regions split the scalefactor bands in order: region 0 is the first
/// `region0_count + 1` bands, region 1 the next `region1_count + 1`, and
/// region 2 the rest; a later band is never in an earlier region.
pub proof fn law_band_region(g: Granule, a: nat, b: nat)
    ensures
        a <= b ==> band_region(g, a) <= band_region(g, b),
        band_region(g, a) <= 2,
        (band_region(g, a) == 0) == (a < g.region0_count + 1),
        (band_region(g, a) <= 1) == (a < (g.region0_count + 1) + (g.region1_count + 1)),
{
}

/// The scalefactor band of spectral line `l` of a granule.
pub open spec fn line_band(sf: u32, g: Granule, l: nat) -> nat {
    band_from(widths_for(sf, g.block_type), l, 0)
}

/// The region of spectral line `l` of a granule.
pub open spec fn line_region(sf: u32, g: Granule, l: nat) -> u8 {
    band_region(g, line_band(sf, g, l))
}

proof fn lemma_band_end_mono(w: Seq<u8>, a: nat, b: nat)
    requires
        a <= b,
    ensures
        band_end(w, a) <= band_end(w, b),
    decreases b - a,
{
    if a < b {
        lemma_band_end_mono(w, a, (b - 1) as nat);
    }
}

proof fn lemma_band_end_bound(w: Seq<u8>, s: nat)
    requires
        w.len() == 21,
        s < 21,
    ensures
        band_end(w, s) <= 255 * (s + 1),
    decreases s,
{
    if s > 0 {
        lemma_band_end_bound(w, (s - 1) as nat);
    }
}

/// The bands before `s` all end at or before line `l`, so the search for the band
/// of line `l` can start at `s`.
proof fn lemma_band_from_skip(w: Seq<u8>, l: nat, s: nat)
    requires
        s <= 20,
        band_start(w, s) <= l,
    ensures
        band_from(w, l, 0) == band_from(w, l, s),
    decreases s,
{
    if s > 0 {
        let t = (s - 1) as nat;
        lemma_band_end_mono(w, if t == 0 { 0 } else { (t - 1) as nat }, t);
        if t > 0 {
            lemma_band_end_mono(w, (t - 1) as nat, t);
        }
        lemma_band_from_skip(w, l, t);
    }
}

/// The first line of each of the 21 scalefactor bands, then the line where
/// band 20's table width ends, at sampling frequency `sf` (8, 11.025, 12,
/// 16, 22.05, 24, 32, 44.1 or 48 kHz; the last row is 48 kHz) for long or
/// short blocks: the boundaries of the scalefactor band tables.
pub open spec fn band_starts(sf: u32, short: bool) -> Seq<nat> {
    if sf == 8000 {
        if !short {
            seq![0nat, 12, 24, 36, 48, 60, 72, 88, 108, 132, 160, 192, 232, 280, 336, 400, 476, 566, 568, 570, 572, 574]
        } else {
            seq![0nat, 8, 16, 24, 36, 52, 72, 96, 124, 160, 162, 164, 166, 166, 166, 166, 166, 166, 166, 166, 166, 166]
        }
    } else if sf == 11025 || sf == 12000 || sf == 16000 {
        if !short {
            seq![0nat, 6, 12, 18, 24, 30, 36, 44, 54, 66, 80, 96, 116, 140, 168, 200, 238, 284, 336, 396, 464, 522]
        } else {
            seq![0nat, 4, 8, 12, 18, 26, 36, 48, 62, 80, 104, 134, 174, 174, 174, 174, 174, 174, 174, 174, 174, 174]
        }
    } else if sf == 22050 {
        if !short {
            seq![0nat, 6, 12, 18, 24, 30, 36, 44, 54, 66, 80, 96, 116, 140, 168, 200, 238, 284, 336, 396, 464, 522]
        } else {
            seq![0nat, 4, 8, 12, 18, 24, 32, 42, 56, 74, 100, 132, 174, 174, 174, 174, 174, 174, 174, 174, 174, 174]
        }
    } else if sf == 24000 {
        if !short {
            seq![0nat, 6, 12, 18, 24, 30, 36, 44, 54, 66, 80, 96, 114, 136, 162, 194, 232, 278, 332, 394, 464, 540]
        } else {
            seq![0nat, 4, 8, 12, 18, 26, 36, 48, 62, 80, 104, 136, 180, 180, 180, 180, 180, 180, 180, 180, 180, 180]
        }
    } else if sf == 32000 {
        if !short {
            seq![0nat, 4, 8, 12, 16, 20, 24, 30, 36, 44, 54, 66, 82, 102, 126, 156, 194, 240, 296, 364, 448, 550]
        } else {
            seq![0nat, 4, 8, 12, 16, 22, 30, 42, 58, 78, 104, 138, 180, 180, 180, 180, 180, 180, 180, 180, 180, 180]
        }
    } else if sf == 44100 {
        if !short {
            seq![0nat, 4, 8, 12, 16, 20, 24, 30, 36, 44, 52, 62, 74, 90, 110, 134, 162, 196, 238, 288, 342, 418]
        } else {
            seq![0nat, 4, 8, 12, 16, 22, 30, 40, 52, 66, 84, 106, 136, 136, 136, 136, 136, 136, 136, 136, 136, 136]
        }
    } else {
        if !short {
            seq![0nat, 4, 8, 12, 16, 20, 24, 30, 36, 42, 50, 60, 72, 88, 106, 128, 156, 190, 230, 276, 330, 384]
        } else {
            seq![0nat, 4, 8, 12, 16, 22, 28, 38, 50, 64, 80, 100, 126, 126, 126, 126, 126, 126, 126, 126, 126, 126]
        }
    }
}

/// A walk for the band of line `l` started at band `t` ends at or past `t`.
proof fn lemma_band_from_ge(w: Seq<u8>, l: nat, t: nat)
    ensures
        t <= 20 ==> t <= band_from(w, l, t) <= 20,
    decreases 20 - t,
{
    if t < 20 && !(l < band_end(w, t)) {
        lemma_band_from_ge(w, l, t + 1);
    }
}

/// The walk from band `t`, at or below line `l`, stops at band `s` exactly
/// when `s` starts at or below `l` and ends past it (or is the last band).
proof fn lemma_band_from_is(w: Seq<u8>, l: nat, t: nat, s: nat)
    requires
        t <= s <= 20,
        band_start(w, t) <= l,
    ensures
        band_from(w, l, t) == s <==> (band_start(w, s) <= l && (s == 20 || l < band_end(w, s))),
    decreases 20 - t,
{
    if t < 20 {
        if l < band_end(w, t) {
            if s > t {
                lemma_band_end_mono(w, t, (s - 1) as nat);
            }
        } else {
            lemma_band_from_ge(w, l, t + 1);
            if s > t {
                lemma_band_from_is(w, l, t + 1, s);
            }
        }
    }
}

/// Widths that are the differences of consecutive boundaries `e` (the
/// first one 0) end their bands at those boundaries.
proof fn lemma_band_ends_at(w: Seq<u8>, e: Seq<nat>, s: nat)
    requires
        e.len() == 22,
        e[0] == 0,
        w =~= Seq::new(21, |i: int| (e[i + 1] - e[i]) as u8),
        forall|i: int| 0 <= i < 21 ==> e[i] <= #[trigger] e[i + 1] <= e[i] + 255,
        s < 21,
    ensures
        band_end(w, s) == e[s + 1int],
    decreases s,
{
    assert(e[s as int] <= e[s + 1int] <= e[s as int] + 255);
    if s > 0 {
        lemma_band_ends_at(w, e, (s - 1) as nat);
    }
}

/// Each band table's widths are the differences of its boundaries.
proof fn lemma_band_table(sf: u32, bt: BlockType, s: nat)
    requires
        frequency_index(sf) is Some,
        s < 21,
    ensures
        band_end(widths_for(sf, bt), s) == band_starts(sf, bt == BlockType::Short)[s + 1int],
{
    let e = band_starts(sf, bt == BlockType::Short);
    let w = widths_for(sf, bt);
    assert(forall|i: int| 0 <= i < 21 ==> e[i] <= #[trigger] e[i + 1] <= e[i] + 255);
    assert(w =~= Seq::new(21, |i: int| (e[i + 1] - e[i]) as u8));
    lemma_band_ends_at(w, e, s);
}

/// Line `l` of a granule lies in scalefactor band `s` exactly when `l` is at
/// or past the first line of band `s` and before the first line of band
/// `s + 1`; the last band, 20, runs on to the last line. The band table is
/// that of the sampling frequency, for short blocks when the granule's
/// blocks are short and for long blocks otherwise.
pub proof fn law_line_band(sf: u32, g: Granule, l: nat, s: nat)
    requires
        frequency_index(sf) is Some,
        s <= 20,
    ensures
        ({
            let e = band_starts(sf, g.block_type == BlockType::Short);
            line_band(sf, g, l) == s <==> (e[s as int] <= l && (s == 20 || l < e[s + 1int]))
        }),
{
    let w = widths_for(sf, g.block_type);
    lemma_band_from_is(w, l, 0, s);
    lemma_band_table(sf, g.block_type, s);
    if s > 0 {
        lemma_band_table(sf, g.block_type, (s - 1) as nat);
    }
}

impl SpectralMap {
    /// The width of scalefactor band `sfb` for the granule's block type at sampling frequency `sf`.
    fn sfb_width(sf: u32, grsi: &Granule, sfb: usize) -> (r: u8)
        requires
            frequency_index(sf) is Some,
            sfb < 21,
        ensures
            r == widths_for(sf, grsi.block_type)[sfb as int],
    {
        let findex: usize = if sf == 8000 {
            0
        } else if sf == 11025 {
            1
        } else if sf == 12000 {
            2
        } else if sf == 16000 {
            3
        } else if sf == 22050 {
            4
        } else if sf == 24000 {
            5
        } else if sf == 32000 {
            6
        } else if sf == 44100 {
            7
        } else {
            8
        };
        let bindex: usize = match grsi.block_type {
            BlockType::Long | BlockType::Start | BlockType::End => 0,
            BlockType::Short => 1,
        };
        let row = band_row(findex, bindex);
        row[sfb]
    }

    /// Lays out the 576 lines of a granule: band `s` holds the lines from the
    /// sum of the widths of the bands before it on, for its own width, and the
    /// last band runs on to the last line.
    fn new(sf: u32, grsi: &Granule) -> (m: Self)
        requires
            frequency_index(sf) is Some,
        ensures
            forall|l: int|
                0 <= l < 576 ==> #[trigger] m.region_at(l) == line_region(sf, *grsi, l as nat)
                    && m.band_at(l) == line_band(sf, *grsi, l as nat),
    {
        let ghost w = widths_for(sf, grsi.block_type);
        let region0_max: usize = grsi.region0_count as usize;
        let region1_max: usize = grsi.region0_count as usize + grsi.region1_count as usize + 1;
        let mut map: [(u8, u8); 576] = [(0u8, 0u8); 576];
        let mut sfb: usize = 0;
        let mut sfb_threshold: usize = Self::sfb_width(sf, grsi, 0) as usize;
        let mut l: usize = 0;
        proof {
            assert(w.len() == 21);
        }
        while l < 576
            invariant
                frequency_index(sf) is Some,
                w == widths_for(sf, grsi.block_type),
                w.len() == 21,
                region0_max == grsi.region0_count,
                region1_max == grsi.region0_count + grsi.region1_count + 1,
                l <= 576,
                sfb <= 20,
                sfb_threshold == band_end(w, sfb as nat),
                band_start(w, sfb as nat) <= l,
                map_upto(map@, sf, *grsi, l as int),
            decreases 576 - l,
        {
            while l >= sfb_threshold && sfb < 20
                invariant
                    frequency_index(sf) is Some,
                    w == widths_for(sf, grsi.block_type),
                    w.len() == 21,
                    l < 576,
                    sfb <= 20,
                    sfb_threshold == band_end(w, sfb as nat),
                    band_start(w, sfb as nat) <= l,
                    region0_max == grsi.region0_count,
                    region1_max == grsi.region0_count + grsi.region1_count + 1,
                    map_upto(map@, sf, *grsi, l as int),
                decreases 20 - sfb,
            {
                proof {
                    lemma_band_end_bound(w, sfb as nat);
                }
                sfb = sfb + 1;
                sfb_threshold = sfb_threshold + Self::sfb_width(sf, grsi, sfb) as usize;
            }
            proof {
                lemma_band_from_skip(w, l as nat, sfb as nat);
                assert(band_from(w, l as nat, sfb as nat) == sfb as nat);
            }
            let region: u8 = if sfb <= region0_max {
                0
            } else if sfb <= region1_max {
                1
            } else {
                2
            };
            let ghost before = map;
            map[l] = (sfb as u8, region);
            proof {
                assert(line_band(sf, *grsi, l as nat) == sfb);
                assert(map@[l as int].1 == line_region(sf, *grsi, l as nat));
                assert forall|j: int| 0 <= j < l + 1 implies (#[trigger] map@[j]).1 == line_region(
                    sf,
                    *grsi,
                    j as nat,
                ) && map@[j].0 == line_band(sf, *grsi, j as nat) by {
                    if j < l {
                        assert(map@[j] == before@[j]);
                    }
                }
            }
            l = l + 1;
        }
        SpectralMap { map }
    }

    /// The region of line `l`.
    spec fn region_at(self, l: int) -> u8 {
        self.map[l].1
    }

    /// The scalefactor band of line `l`.
    spec fn band_at(self, l: int) -> nat {
        self.map[l].0 as nat
    }

    /// The scalefactor band of line `l`.
    fn get_line_sfb(&self, l: usize) -> (r: u8)
        requires
            l < 576,
        ensures
            r == self.band_at(l as int),
    {
        self.map[l].0
    }

    /// The region of line `l`.
    fn get_line_region_index(&self, l: usize) -> (r: u8)
        requires
            l < 576,
        ensures
            r == self.region_at(l as int),
    {
        self.map[l].1
    }
}

/// The scalefactors of one granule and channel: 21 long bands, and 12 bands
/// for each of the three short windows.
#[derive(Debug, Clone, Copy)]
pub struct GranuleScaleFactors {
    long: [u8; 21],
    short: [[u8; 12]; 3],
}

impl GranuleScaleFactors {
    /// The long-band scalefactors.
    pub closed spec fn long_view(self) -> Seq<u8> {
        self.long@
    }

    /// The scalefactors of short window `win`.
    pub closed spec fn short_view(self, win: int) -> Seq<u8> {
        self.short[win]@
    }

    /// Scalefactors that are all zero.
    pub fn zeroed() -> (r: Self)
        ensures
            r.long_view() == Seq::new(21, |i: int| 0u8),
            forall|w: int| 0 <= w < 3 ==> #[trigger] r.short_view(w) == Seq::new(12, |i: int| 0u8),
    {
        let r = GranuleScaleFactors { long: [0u8; 21], short: [[0u8; 12]; 3] };
        assert(r.long_view() =~= Seq::new(21, |i: int| 0u8));
        assert forall|w: int| 0 <= w < 3 implies #[trigger] r.short_view(w) == Seq::new(
            12,
            |i: int| 0u8,
        ) by {
            assert(r.short_view(w) =~= Seq::new(12, |i: int| 0u8));
        }
        r
    }

    /// The scalefactor of long band `sfb` (below 21).
    pub fn long(&self, sfb: usize) -> (r: u8)
        requires
            sfb < 21,
        ensures
            r == self.long_view()[sfb as int],
    {
        self.long[sfb]
    }

    /// The scalefactor of band `sfb` (below 12) of short window `win` (below 3).
    pub fn short(&self, win: usize, sfb: usize) -> (r: u8)
        requires
            win < 3,
            sfb < 12,
        ensures
            r == self.short_view(win as int)[sfb as int],
    {
        self.short[win][sfb]
    }
}

impl Default for GranuleScaleFactors {
    fn default() -> (r: Self)
        ensures
            r.long_view() == Seq::new(21, |i: int| 0u8),
            forall|w: int| 0 <= w < 3 ==> #[trigger] r.short_view(w) == Seq::new(12, |i: int| 0u8),
    {
        Self::zeroed()
    }
}

/// The 576 spectral values of one granule and channel.
#[derive(Debug, Clone, Copy)]
pub struct GranuleSpectralValues([i16; 576]);

impl GranuleSpectralValues {
    /// The values, lowest line first.
    pub closed spec fn values(self) -> Seq<i16> {
        self.0@
    }

    /// The value of line `l` (below 576).
    pub fn line(&self, l: usize) -> (r: i16)
        requires
            l < 576,
        ensures
            r == self.values()[l as int],
    {
        self.0[l]
    }
}

impl Default for GranuleSpectralValues {
    fn default() -> (r: Self)
        ensures
            r.values() == Seq::new(576, |i: int| 0i16),
    {
        let r = GranuleSpectralValues([0i16; 576]);
        assert(r.values() =~= Seq::new(576, |i: int| 0i16));
        r
    }
}

/// The decoded main data of a frame, by granule and channel.
#[derive(Debug)]
pub struct MainData {
    pub scale_factors: [[GranuleScaleFactors; 2]; 2],
    pub spectral_values: [[GranuleSpectralValues; 2]; 2],
}

// The scale factors are divided into two groups: bands 0-10 and 11-20 for
// long windows, 0-5 and 6-11 for short windows; `slen1` gives the width of
// a scalefactor in the first group, `slen2` in the second.

/// Width of a scalefactor of short band `sfb`.
fn short_group_bits(slen1: u8, slen2: u8, sfb: usize) -> (r: usize)
    ensures
        r == group_bits(slen1, slen2, false, sfb as int),
{
    if sfb <= 5 {
        slen1 as usize
    } else {
        slen2 as usize
    }
}

/// Width of a scalefactor of long band `sfb`.
fn long_group_bits(slen1: u8, slen2: u8, sfb: usize) -> (r: usize)
    ensures
        r == group_bits(slen1, slen2, true, sfb as int),
{
    if sfb <= 10 {
        slen1 as usize
    } else {
        slen2 as usize
    }
}

/// Width of a scalefactor of band `sfb`, of a long band or of a short one.
pub open spec fn group_bits(slen1: u8, slen2: u8, long: bool, sfb: int) -> nat {
    if long {
        if sfb <= 10 {
            slen1 as nat
        } else {
            slen2 as nat
        }
    } else {
        if sfb <= 5 {
            slen1 as nat
        } else {
            slen2 as nat
        }
    }
}

/// Short windows over long lower bands.
pub open spec fn sf_mixed(g: Granule) -> bool {
    g.window_switching_flag && g.block_type == BlockType::Short && g.mixed_block_flag
}

/// Short windows alone.
pub open spec fn sf_short(g: Granule) -> bool {
    g.window_switching_flag && g.block_type == BlockType::Short && !g.mixed_block_flag
}

/// How many scalefactors a granule reads or takes over, in order: 8 long
/// then 27 short ones for mixed blocks, 36 short ones for short blocks,
/// 21 long ones otherwise.
pub open spec fn sf_slot_count(g: Granule) -> nat {
    if sf_mixed(g) {
        35
    } else if sf_short(g) {
        36
    } else {
        21
    }
}

/// Where scalefactor `k` of a granule goes: a long band, or a band of a
/// short window (window within band, bands in order).
pub open spec fn sf_slot(g: Granule, k: int) -> (bool, int, int) {
    if sf_mixed(g) {
        if k < 8 {
            (true, 0, k)
        } else {
            (false, (k - 8) % 3, 3 + (k - 8) / 3)
        }
    } else if sf_short(g) {
        (false, k % 3, k / 3)
    } else {
        (true, 0, k)
    }
}

/// The slot that long band `i` is read into, if any.
pub open spec fn long_slot(g: Granule, i: int) -> Option<int> {
    if sf_short(g) {
        None
    } else if sf_mixed(g) {
        if i < 8 {
            Some(i)
        } else {
            None
        }
    } else {
        Some(i)
    }
}

/// The slot that band `b` of short window `w` is read into, if any.
pub open spec fn short_slot(g: Granule, w: int, b: int) -> Option<int> {
    if sf_short(g) {
        Some(b * 3 + w)
    } else if sf_mixed(g) {
        if b >= 3 {
            Some(8 + (b - 3) * 3 + w)
        } else {
            None
        }
    } else {
        None
    }
}

/// Long band `sfb` shares its scalefactor with granule 0 under `scfsi`.
pub open spec fn scfsi_shared(scfsi: SCFSI, sfb: int) -> bool {
    match scfsi_group(sfb) {
        Some(gp) => scfsi_flag(scfsi.value(), gp),
        None => false,
    }
}

/// Slot `k` takes granule 0's scalefactor instead of reading one: long
/// blocks of granule 1 with the band's selection flag set.
pub open spec fn sf_copied(g: Granule, scfsi: SCFSI, has_prev: bool, k: int) -> bool {
    !sf_mixed(g) && !sf_short(g) && has_prev && scfsi_shared(scfsi, k)
}

/// The width of slot `k`'s scalefactor.
pub open spec fn sf_slot_bits(g: Granule, k: int) -> nat {
    let (long, _, b) = sf_slot(g, k);
    group_bits(g.slen1, g.slen2, long, b)
}

/// The bits that slot `k` takes from the stream.
pub open spec fn sf_slot_len(g: Granule, scfsi: SCFSI, has_prev: bool, k: int) -> nat {
    if sf_copied(g, scfsi, has_prev, k) {
        0
    } else {
        sf_slot_bits(g, k)
    }
}

/// The bits taken by the slots before slot `k`.
pub open spec fn sf_offset(g: Granule, scfsi: SCFSI, has_prev: bool, k: nat) -> nat
    decreases k,
{
    if k == 0 {
        0
    } else {
        sf_offset(g, scfsi, has_prev, (k - 1) as nat) + sf_slot_len(
            g,
            scfsi,
            has_prev,
            (k - 1) as int,
        )
    }
}

/// How many of the first `k` scalefactors of a granule are `slen1` wide:
/// those of long bands 0 to 10 and of short bands 0 to 5.
pub open spec fn slen1_count(g: Granule, k: nat) -> nat {
    let split: nat = if sf_mixed(g) {
        17
    } else if sf_short(g) {
        18
    } else {
        11
    };
    if k <= split {
        k
    } else {
        split
    }
}

/// The scalefactor widths of a granule that takes none over from granule 0:
/// long blocks read bands 0 to 10 with `slen1` bits and bands 11 to 20 with
/// `slen2`; short blocks read bands 0 to 5 of each window with `slen1` and
/// bands 6 to 11 with `slen2`; mixed blocks read long bands 0 to 7 and short
/// bands 3 to 5 with `slen1`, short bands 6 to 11 with `slen2`. So the first
/// `k` scalefactors take `slen1` bits each up to the split, then `slen2`,
/// and the whole set takes 11·slen1 + 10·slen2 bits (long), 18·slen1 +
/// 18·slen2 (short) or 17·slen1 + 18·slen2 (mixed).
pub proof fn law_scalefactor_widths(g: Granule, scfsi: SCFSI, has_prev: bool, k: nat)
    requires
        k <= sf_slot_count(g),
        !sf_mixed(g) && !sf_short(g) ==> !has_prev,
    ensures
        sf_offset(g, scfsi, has_prev, k) == slen1_count(g, k) * g.slen1 + (k - slen1_count(g, k))
            * g.slen2,
        k == sf_slot_count(g) ==> sf_offset(g, scfsi, has_prev, k) == if sf_mixed(g) {
            17 * g.slen1 + 18 * g.slen2
        } else if sf_short(g) {
            18 * g.slen1 + 18 * g.slen2
        } else {
            11 * g.slen1 + 10 * g.slen2
        },
    decreases k,
{
    let a = g.slen1 as int;
    let b = g.slen2 as int;
    if k > 0 {
        let j = (k - 1) as nat;
        law_scalefactor_widths(g, scfsi, has_prev, j);
        let c = slen1_count(g, j) as int;
        let w = sf_slot_bits(g, j as int);
        assert(!sf_copied(g, scfsi, has_prev, j as int));
        assert(sf_offset(g, scfsi, has_prev, k) == sf_offset(g, scfsi, has_prev, j) + w);
        if slen1_count(g, k) == slen1_count(g, j) + 1 {
            assert(w == a);
            assert((c + 1) * a + (k - (c + 1)) * b == c * a + (j - c) * b + a) by (nonlinear_arith)
                requires
                    k == j + 1,
            ;
            assert(sf_offset(g, scfsi, has_prev, k) == (c + 1) * a + (k - (c + 1)) * b);
        } else {
            assert(w == b);
            assert(c * a + (k - c) * b == c * a + (j - c) * b + b) by (nonlinear_arith)
                requires
                    k == j + 1,
            ;
            assert(sf_offset(g, scfsi, has_prev, k) == c * a + (k - c) * b);
        }
    } else {
        assert(sf_offset(g, scfsi, has_prev, k) == 0);
        assert(slen1_count(g, k) == 0);
    }
    if k == sf_slot_count(g) {
        assert(slen1_count(g, k) * a + (k - slen1_count(g, k)) * b == if sf_mixed(g) {
            17 * a + 18 * b
        } else if sf_short(g) {
            18 * a + 18 * b
        } else {
            11 * a + 10 * b
        });
    }
}

/// Why a read of `n` bits at offset `p` of the bits `r` fails, if it does.
pub open spec fn read_fault(r: Seq<bool>, p: int, n: nat) -> Option<BiterError> {
    if n > 32 {
        Some(BiterError::TooManyBits)
    } else if p + n > r.len() {
        Some(BiterError::EOF)
    } else {
        None
    }
}

/// The first failure among the reads of the slots before slot `k`, from the bits `r`.
pub open spec fn sf_fault(g: Granule, scfsi: SCFSI, has_prev: bool, r: Seq<bool>, k: nat) -> Option<
    BiterError,
>
    decreases k,
{
    if k == 0 {
        None
    } else {
        match sf_fault(g, scfsi, has_prev, r, (k - 1) as nat) {
            Some(e) => Some(e),
            None => if sf_copied(g, scfsi, has_prev, (k - 1) as int) {
                None
            } else {
                read_fault(r, sf_offset(g, scfsi, has_prev, (k - 1) as nat) as int, sf_slot_bits(g, (k - 1) as int))
            },
        }
    }
}

/// The scalefactor of slot `k`: taken over from granule 0's long bands
/// `prev`, or read from the bits `r`.
pub open spec fn sf_value(g: Granule, scfsi: SCFSI, prev: Option<Seq<u8>>, r: Seq<bool>, k: int) -> u8 {
    if sf_copied(g, scfsi, prev is Some, k) {
        prev.unwrap()[k]
    } else {
        bit_field(r, sf_offset(g, scfsi, prev is Some, k as nat) as int, sf_slot_bits(g, k) as int) as u8
    }
}

/// The scalefactor of long band `i`, once slots below `k` are done.
pub open spec fn sf_long_upto(g: Granule, scfsi: SCFSI, prev: Option<Seq<u8>>, r: Seq<bool>, i: int, k: int) -> u8 {
    match long_slot(g, i) {
        Some(j) => if j < k {
            sf_value(g, scfsi, prev, r, j)
        } else {
            0
        },
        None => 0,
    }
}

/// The scalefactor of band `b` of short window `w`, once slots below `k` are done.
pub open spec fn sf_short_upto(
    g: Granule,
    scfsi: SCFSI,
    prev: Option<Seq<u8>>,
    r: Seq<bool>,
    w: int,
    b: int,
    k: int,
) -> u8 {
    match short_slot(g, w, b) {
        Some(j) => if j < k {
            sf_value(g, scfsi, prev, r, j)
        } else {
            0
        },
        None => 0,
    }
}

/// `gs` holds the scalefactors of the slots below `k`, and zero elsewhere.
pub open spec fn sf_filled(
    gs: GranuleScaleFactors,
    g: Granule,
    scfsi: SCFSI,
    prev: Option<Seq<u8>>,
    r: Seq<bool>,
    k: int,
) -> bool {
    &&& gs.long_view().len() == 21
    &&& forall|i: int| 0 <= i < 21 ==> #[trigger] gs.long_view()[i] == sf_long_upto(g, scfsi, prev, r, i, k)
    &&& forall|w: int| 0 <= w < 3 ==> (#[trigger] gs.short_view(w)).len() == 12
    &&& forall|w: int, b: int|
        0 <= w < 3 && 0 <= b < 12 ==> #[trigger] gs.short_view(w)[b] == sf_short_upto(
            g,
            scfsi,
            prev,
            r,
            w,
            b,
            k,
        )
}

/// Granule 0's long-band scalefactors, where there is a granule 0.
pub open spec fn prev_longs(p: Option<GranuleScaleFactors>) -> Option<Seq<u8>> {
    match p {
        Some(gs) => Some(gs.long_view()),
        None => None,
    }
}

/// Once a read among the slots has failed, that failure stands.
proof fn lemma_sf_fault_stays(g: Granule, scfsi: SCFSI, hp: bool, r: Seq<bool>, k: nat, n: nat)
    requires
        k <= n,
        sf_fault(g, scfsi, hp, r, k) is Some,
    ensures
        sf_fault(g, scfsi, hp, r, n) == sf_fault(g, scfsi, hp, r, k),
    decreases n - k,
{
    if k < n {
        lemma_sf_fault_stays(g, scfsi, hp, r, k, (n - 1) as nat);
    }
}

/// Reads `bits` bits as an unsigned value.
fn read_field<const BUF_SIZE: usize>(biter: &mut Biter<BUF_SIZE>, bits: usize) -> (r: Result<
    u32,
    DecodeMainDataError,
>)
    requires
        old(biter).wf(),
    ensures
        final(biter).wf(),
        final(biter).reader().data() == old(biter).reader().data(),
        r is Ok <==> read_fault(old(biter).remaining(), 0, bits as nat) is None,
        read_fault(old(biter).remaining(), 0, bits as nat) matches Some(e) ==> r == Err::<
            u32,
            DecodeMainDataError,
        >(DecodeMainDataError::BiterError(e)),
        r matches Ok(v) ==> v == bit_field(old(biter).remaining(), 0, bits as int) && old(
            biter,
        ).advanced(*final(biter), bits as nat),
{
    match biter.uimsbf::<u32>(bits) {
        Ok(v) => {
            assert(old(biter).remaining().take(bits as int) =~= old(biter).remaining().subrange(
                0,
                bits as int,
            ));
            Ok(v)
        },
        Err(e) => Err(DecodeMainDataError::BiterError(e)),
    }
}

/// Reads the scalefactor of slot `k`, which is not taken over, `start`
/// being the reader before slot 0 and `rem` its bits.
fn read_slot<const BUF_SIZE: usize>(
    biter: &mut Biter<BUF_SIZE>,
    bits: usize,
    Ghost(g): Ghost<Granule>,
    Ghost(scfsi): Ghost<SCFSI>,
    Ghost(prev): Ghost<Option<Seq<u8>>>,
    Ghost(start): Ghost<Biter<BUF_SIZE>>,
    Ghost(k): Ghost<nat>,
) -> (r: Result<u8, DecodeMainDataError>)
    requires
        old(biter).wf(),
        start.advanced(*old(biter), sf_offset(g, scfsi, prev is Some, k)),
        sf_fault(g, scfsi, prev is Some, start.remaining(), k) is None,
        !sf_copied(g, scfsi, prev is Some, k as int),
        bits == sf_slot_bits(g, k as int),
    ensures
        final(biter).wf(),
        final(biter).reader().data() == old(biter).reader().data(),
        r is Ok <==> sf_fault(g, scfsi, prev is Some, start.remaining(), k + 1) is None,
        r matches Err(e) ==> sf_fault(g, scfsi, prev is Some, start.remaining(), k + 1) matches Some(x)
            && e == DecodeMainDataError::BiterError(x),
        r matches Ok(v) ==> v == sf_value(g, scfsi, prev, start.remaining(), k as int)
            && start.advanced(*final(biter), sf_offset(g, scfsi, prev is Some, k + 1)),
{
    let ghost rem = start.remaining();
    let ghost off = sf_offset(g, scfsi, prev is Some, k);
    proof {
        assert(old(biter).remaining() == rem.skip(off as int));
        if off + bits <= rem.len() {
            assert(rem.skip(off as int).subrange(0, bits as int) =~= rem.subrange(
                off as int,
                off + bits,
            ));
        }
    }
    let v = read_field(biter, bits)?;
    proof {
        Biter::<BUF_SIZE>::lemma_advanced_trans(start, *old(biter), *biter, off, bits as nat);
    }
    Ok(v as u8)
}

/// Reads the scalefactors of one granule and channel. Long blocks of
/// granule 1 take granule 0's scalefactor for the bands whose selection
/// flag is set; `prev_granule` is granule 0's scalefactors when this is granule 1.
fn decode_scale_factors<const BUF_SIZE: usize>(
    prev_granule: Option<GranuleScaleFactors>,
    scfsi: &SCFSI,
    grsi: &Granule,
    biter: &mut Biter<BUF_SIZE>,
) -> (r: Result<GranuleScaleFactors, DecodeMainDataError>)
    requires
        old(biter).wf(),
    ensures
        final(biter).wf(),
        final(biter).reader().data() == old(biter).reader().data(),
        ({
            let rem = old(biter).remaining();
            let prev = prev_longs(prev_granule);
            let n = sf_slot_count(*grsi);
            let fault = sf_fault(*grsi, *scfsi, prev is Some, rem, n);
            &&& r is Ok <==> fault is None
            &&& fault matches Some(e) ==> r == Err::<GranuleScaleFactors, DecodeMainDataError>(
                DecodeMainDataError::BiterError(e),
            )
            &&& r matches Ok(gs) ==> sf_filled(gs, *grsi, *scfsi, prev, rem, n as int) && old(
                biter,
            ).advanced(*final(biter), sf_offset(*grsi, *scfsi, prev is Some, n))
        }),
{
    let ghost start = *old(biter);
    let ghost rem = start.remaining();
    let ghost prev = prev_longs(prev_granule);
    let ghost g = *grsi;
    let ghost s = *scfsi;
    let ghost hp = prev_granule is Some;
    let mut granule = GranuleScaleFactors::zeroed();
    proof {
        start.lemma_advanced_none();
        assert(sf_filled(granule, g, s, prev, rem, 0));
    }
    if grsi.window_switching_flag && grsi.block_type == BlockType::Short && grsi.mixed_block_flag {
        // Short block with mixed lower long bands.
        let mut sfb: usize = 0;
        while sfb < 8
            invariant
                sf_mixed(g),
                g == *grsi,
                start.advanced(*biter, sf_offset(g, s, hp, sfb as nat)),
                rem == start.remaining(),
                start == *old(biter),
                s == *scfsi,
                prev == prev_longs(prev_granule),
                hp == (prev is Some),
                biter.reader().data() == old(biter).reader().data(),
                sfb <= 8,
                sf_fault(g, s, hp, rem, sfb as nat) is None,
                sf_filled(granule, g, s, prev, rem, sfb as int),
            decreases 8 - sfb,
        {
            let bits = long_group_bits(grsi.slen1, grsi.slen2, sfb);
            let v = match read_slot(
                biter,
                bits,
                Ghost(g),
                Ghost(s),
                Ghost(prev),
                Ghost(start),
                Ghost(sfb as nat),
            ) {
                Ok(v) => v,
                Err(e) => {
                    proof {
                        lemma_sf_fault_stays(g, s, hp, rem, (sfb + 1) as nat, 35);
                    }
                    return Err(e);
                },
            };
            let ghost before = granule;
            granule.long[sfb] = v;
            proof {
                assert(granule.long_view() =~= before.long_view().update(sfb as int, v));
                assert forall|w: int| 0 <= w < 3 implies #[trigger] granule.short_view(w)
                    == before.short_view(w) by {}
            }
            sfb = sfb + 1;
        }
        let mut sfb: usize = 3;
        while sfb < 12
            invariant
                sf_mixed(g),
                g == *grsi,
                3 <= sfb <= 12,
                start.advanced(*biter, sf_offset(g, s, hp, (8 + (sfb - 3) * 3) as nat)),
                rem == start.remaining(),
                start == *old(biter),
                s == *scfsi,
                prev == prev_longs(prev_granule),
                hp == (prev is Some),
                biter.reader().data() == old(biter).reader().data(),
                sf_fault(g, s, hp, rem, (8 + (sfb - 3) * 3) as nat) is None,
                sf_filled(granule, g, s, prev, rem, 8 + (sfb - 3) * 3),
            decreases 12 - sfb,
        {
            let bits = short_group_bits(grsi.slen1, grsi.slen2, sfb);
            let mut win: usize = 0;
            while win < 3
                invariant
                    sf_mixed(g),
                    g == *grsi,
                    3 <= sfb < 12,
                    win <= 3,
                    bits == group_bits(g.slen1, g.slen2, false, sfb as int),
                    start.advanced(*biter, sf_offset(g, s, hp, (8 + (sfb - 3) * 3 + win) as nat)),
                    rem == start.remaining(),
                    start == *old(biter),
                    s == *scfsi,
                start == *old(biter),
                s == *scfsi,
                    prev == prev_longs(prev_granule),
                    hp == (prev is Some),
                    biter.reader().data() == old(biter).reader().data(),
                    sf_fault(g, s, hp, rem, (8 + (sfb - 3) * 3 + win) as nat) is None,
                    sf_filled(granule, g, s, prev, rem, 8 + (sfb - 3) * 3 + win),
                decreases 3 - win,
            {
                let ghost k: int = 8 + (sfb - 3) * 3 + win;
                proof {
                    assert((k - 8) % 3 == win as int && (k - 8) / 3 == sfb - 3) by (nonlinear_arith)
                        requires
                            k - 8 == (sfb - 3) * 3 + win,
                            win < 3,
                            sfb >= 3,
                    ;
                }
                let v = match read_slot(
                    biter,
                    bits,
                    Ghost(g),
                    Ghost(s),
                    Ghost(prev),
                    Ghost(start),
                    Ghost(k as nat),
                ) {
                    Ok(v) => v,
                    Err(e) => {
                        proof {
                            lemma_sf_fault_stays(g, s, hp, rem, (k + 1) as nat, 35);
                        }
                        return Err(e);
                    },
                };
                let ghost before = granule;
                granule.short[win][sfb] = v;
                proof {
                    assert forall|w: int, b: int| 0 <= w < 3 && 0 <= b < 12 implies #[trigger] granule.short_view(w)[b]
                        == sf_short_upto(g, s, prev, rem, w, b, k + 1) by {
                        if w == win && b == sfb {
                        } else {
                            assert(granule.short_view(w)[b] == before.short_view(w)[b]);
                            if b >= 3 {
                                assert(8 + (b - 3) * 3 + w != k) by (nonlinear_arith)
                                    requires
                                        k == 8 + (sfb - 3) * 3 + win,
                                        0 <= w < 3,
                                        win < 3,
                                        w != win || b != sfb,
                                ;
                            }
                        }
                    }
                    assert forall|w: int| 0 <= w < 3 implies (#[trigger] granule.short_view(w)).len() == 12 by {}
                    assert(granule.long_view() == before.long_view());
                }
                win = win + 1;
            }
            sfb = sfb + 1;
        }
    } else if grsi.window_switching_flag && grsi.block_type == BlockType::Short {
        // Pure short block.
        let mut sfb: usize = 0;
        while sfb < 12
            invariant
                sf_short(g),
                g == *grsi,
                sfb <= 12,
                start.advanced(*biter, sf_offset(g, s, hp, (sfb * 3) as nat)),
                rem == start.remaining(),
                start == *old(biter),
                s == *scfsi,
                prev == prev_longs(prev_granule),
                hp == (prev is Some),
                biter.reader().data() == old(biter).reader().data(),
                sf_fault(g, s, hp, rem, (sfb * 3) as nat) is None,
                sf_filled(granule, g, s, prev, rem, (sfb * 3) as int),
            decreases 12 - sfb,
        {
            let bits = short_group_bits(grsi.slen1, grsi.slen2, sfb);
            let mut win: usize = 0;
            while win < 3
                invariant
                    sf_short(g),
                    g == *grsi,
                    sfb < 12,
                    win <= 3,
                    bits == group_bits(g.slen1, g.slen2, false, sfb as int),
                    start.advanced(*biter, sf_offset(g, s, hp, (sfb * 3 + win) as nat)),
                    rem == start.remaining(),
                    start == *old(biter),
                    s == *scfsi,
                start == *old(biter),
                s == *scfsi,
                    prev == prev_longs(prev_granule),
                    hp == (prev is Some),
                    biter.reader().data() == old(biter).reader().data(),
                    sf_fault(g, s, hp, rem, (sfb * 3 + win) as nat) is None,
                    sf_filled(granule, g, s, prev, rem, (sfb * 3 + win) as int),
                decreases 3 - win,
            {
                let ghost k: int = sfb * 3 + win;
                proof {
                    assert(k % 3 == win as int && k / 3 == sfb as int) by (nonlinear_arith)
                        requires
                            k == sfb * 3 + win,
                            win < 3,
                    ;
                }
                let v = match read_slot(
                    biter,
                    bits,
                    Ghost(g),
                    Ghost(s),
                    Ghost(prev),
                    Ghost(start),
                    Ghost(k as nat),
                ) {
                    Ok(v) => v,
                    Err(e) => {
                        proof {
                            lemma_sf_fault_stays(g, s, hp, rem, (k + 1) as nat, 36);
                        }
                        return Err(e);
                    },
                };
                let ghost before = granule;
                granule.short[win][sfb] = v;
                proof {
                    assert forall|w: int, b: int| 0 <= w < 3 && 0 <= b < 12 implies #[trigger] granule.short_view(w)[b]
                        == sf_short_upto(g, s, prev, rem, w, b, k + 1) by {
                        if w == win && b == sfb {
                        } else {
                            assert(granule.short_view(w)[b] == before.short_view(w)[b]);
                            assert(b * 3 + w != k) by (nonlinear_arith)
                                requires
                                    k == sfb * 3 + win,
                                    0 <= w < 3,
                                    win < 3,
                                    w != win || b != sfb,
                            ;
                        }
                    }
                    assert forall|w: int| 0 <= w < 3 implies (#[trigger] granule.short_view(w)).len() == 12 by {}
                    assert(granule.long_view() == before.long_view());
                }
                win = win + 1;
            }
            sfb = sfb + 1;
        }
    } else {
        // Long block, start block, end block: granule 1 may reuse granule 0's scalefactors.
        let mut sfb: usize = 0;
        while sfb < 21
            invariant
                !sf_mixed(g) && !sf_short(g),
                g == *grsi,
                sfb <= 21,
                start.advanced(*biter, sf_offset(g, s, hp, sfb as nat)),
                rem == start.remaining(),
                start == *old(biter),
                s == *scfsi,
                prev == prev_longs(prev_granule),
                hp == (prev is Some),
                prev_granule matches Some(p) ==> p.long_view().len() == 21,
                biter.reader().data() == old(biter).reader().data(),
                sf_fault(g, s, hp, rem, sfb as nat) is None,
                sf_filled(granule, g, s, prev, rem, sfb as int),
            decreases 21 - sfb,
        {
            let ghost before = granule;
            let shared = prev_granule.is_some() && scfsi.is_shared_long_band(sfb);
            if shared {
                let v = match prev_granule {
                    Some(p) => p.long(sfb),
                    None => 0,
                };
                granule.long[sfb] = v;
                proof {
                    assert(sf_copied(g, s, hp, sfb as int));
                    assert(sf_offset(g, s, hp, (sfb + 1) as nat) == sf_offset(g, s, hp, sfb as nat));
                }
            } else {
                let bits = long_group_bits(grsi.slen1, grsi.slen2, sfb);
                let v = match read_slot(
                    biter,
                    bits,
                    Ghost(g),
                    Ghost(s),
                    Ghost(prev),
                    Ghost(start),
                    Ghost(sfb as nat),
                ) {
                    Ok(v) => v,
                    Err(e) => {
                        proof {
                            lemma_sf_fault_stays(g, s, hp, rem, (sfb + 1) as nat, 21);
                        }
                        return Err(e);
                    },
                };
                granule.long[sfb] = v;
            }
            proof {
                assert(granule.long_view() =~= before.long_view().update(sfb as int, granule.long_view()[sfb as int]));
                assert forall|w: int| 0 <= w < 3 implies #[trigger] granule.short_view(w)
                    == before.short_view(w) by {}
            }
            sfb = sfb + 1;
        }
    }
    Ok(granule)
}

/// Why a read of `n` bits at offset `p` of `r` cannot be made when the reads
/// of a granule must end by offset `lim`: past that budget, or past the end of `r`.
pub open spec fn budget_fault(r: Seq<bool>, p: int, n: nat, lim: nat) -> Option<DecodeMainDataError> {
    if p + n > lim {
        Some(DecodeMainDataError::Part23Overread)
    } else if p + n > r.len() {
        Some(DecodeMainDataError::BiterError(BiterError::EOF))
    } else {
        None
    }
}

/// Walks a big-values tree from node `cur` along the bits of `r` from offset
/// `p`, one bit at a time, to the leaf it ends at and the offset after it,
/// the reads staying within offset `lim`.
pub open spec fn walk_code(
    nodes: Seq<BigHuffmanTableNode>,
    root: usize,
    cur: usize,
    r: Seq<bool>,
    p: int,
    lim: nat,
) -> Result<(BigHuffmanTableNodeValue, int), DecodeMainDataError>
    decreases r.len() - p,
{
    if p + 1 > lim {
        Err(DecodeMainDataError::Part23Overread)
    } else if p + 1 > r.len() {
        Err(DecodeMainDataError::BiterError(BiterError::EOF))
    } else {
        let (res, next) = big_feed(nodes, root, cur, r[p]);
        match res {
            BigHuffmanDecoderResult::Valid(d) => Ok((d, p + 1)),
            BigHuffmanDecoderResult::InvalidCode => Err(DecodeMainDataError::InvalidBigHuffmanCode),
            BigHuffmanDecoderResult::NeedMoreBits => walk_code(nodes, root, next, r, p + 1, lim),
        }
    }
}

/// A code that a walk of a big-values tree decodes from the bits `r[p..q]`
/// is the value of the leaf at the end of the path of those bits, and every
/// node passed before it is an inner node: the walk feeds its bits one at a
/// time and stops at the first leaf.
pub proof fn law_big_code_follows_path(
    nodes: Seq<BigHuffmanTableNode>,
    root: usize,
    cur: usize,
    r: Seq<bool>,
    p: int,
    lim: nat,
)
    requires
        0 <= p,
        walk_code(nodes, root, cur, r, p, lim) is Ok,
    ensures
        ({
            let (d, q) = walk_code(nodes, root, cur, r, p, lim).unwrap();
            &&& p < q <= r.len()
            &&& q <= lim
            &&& big_path(nodes, cur, r.subrange(p, q)) matches Some(n) && n < nodes.len()
                && nodes[n as int].value() == Some(d)
            &&& forall|k: int|
                p < k < q ==> ((#[trigger] big_path(nodes, cur, r.subrange(p, k))) matches Some(m)
                    && m < nodes.len() && nodes[m as int].value() is None)
        }),
    decreases r.len() - p,
{
    let (res, next) = big_feed(nodes, root, cur, r[p]);
    let (d, q) = walk_code(nodes, root, cur, r, p, lim).unwrap();
    assert(r.subrange(p, p + 1).drop_first() =~= Seq::<bool>::empty());
    reveal_with_fuel(big_path, 2);
    assert(p + 1 <= r.len());
    assert(r.subrange(p, p + 1)[0] == r[p]);
    law_big_walk_restarts(nodes, root, cur, r[p]);
    if res is NeedMoreBits {
        assert(walk_code(nodes, root, cur, r, p, lim) == walk_code(nodes, root, next, r, p + 1, lim));
        law_big_code_follows_path(nodes, root, next, r, p + 1, lim);
        assert(r.subrange(p, q)[0] == r[p]);
        assert(r.subrange(p, q).drop_first() =~= r.subrange(p + 1, q));
        assert forall|k: int| p < k < q implies ((#[trigger] big_path(
            nodes,
            cur,
            r.subrange(p, k),
        )) matches Some(m) && m < nodes.len() && nodes[m as int].value() is None) by {
            assert(r.subrange(p, k)[0] == r[p]);
            if k > p + 1 {
                assert(r.subrange(p, k).drop_first() =~= r.subrange(p + 1, k));
                assert(big_path(nodes, next, r.subrange(p + 1, k)) matches Some(m) && m
                    < nodes.len() && nodes[m as int].value() is None);
            }
        }
    }
}

/// The offset after an optional read of `n` bits at offset `p` of `r`.
pub open spec fn skip_field(r: Seq<bool>, p: int, n: nat, lim: nat) -> Result<int, DecodeMainDataError> {
    match budget_fault(r, p, n, lim) {
        Some(e) => Err(e),
        None => Ok(p + n),
    }
}

/// The offset after one big-values pair coded with table `t` at offset `p`
/// of `r`: the code, the linbits of each value that is 15, the sign of each
/// value that is not 0.
pub open spec fn pair_end(t: BigHuffmanTable, r: Seq<bool>, p: int, lim: nat) -> Result<
    int,
    DecodeMainDataError,
> {
    match walk_code(t.node_seq(), t.root_index(), t.root_index(), r, p, lim) {
        Err(e) => Err(e),
        Ok((code, p1)) => {
            let lx: nat = if code.x == 15 {
                t.linbits_count() as nat
            } else {
                0
            };
            let ly: nat = if code.y == 15 {
                t.linbits_count() as nat
            } else {
                0
            };
            let sx: nat = if code.x != 0 {
                1
            } else {
                0
            };
            let sy: nat = if code.y != 0 {
                1
            } else {
                0
            };
            match skip_field(r, p1, lx, lim) {
                Err(e) => Err(e),
                Ok(p2) => match skip_field(r, p2, ly, lim) {
                    Err(e) => Err(e),
                    Ok(p3) => match skip_field(r, p3, sx, lim) {
                        Err(e) => Err(e),
                        Ok(p4) => skip_field(r, p4, sy, lim),
                    },
                },
            }
        },
    }
}

/// A spectral value: the code value `c` plus the linbits `v` read for a code
/// of 15, negated when its sign bit is set.
pub open spec fn coord(c: u8, v: u32, neg: bool) -> i16 {
    let m = c as int + v as int;
    (if neg {
        -m
    } else {
        m
    }) as i16
}

/// The two values of the big-values pair coded with table `t` at offset `p` of `r`.
pub open spec fn pair_values(t: BigHuffmanTable, r: Seq<bool>, p: int, lim: nat) -> (i16, i16) {
    let (code, p1) = walk_code(t.node_seq(), t.root_index(), t.root_index(), r, p, lim).unwrap();
    let lin = t.linbits_count();
    let lx: int = if code.x == 15 {
        lin as int
    } else {
        0
    };
    let ly: int = if code.y == 15 {
        lin as int
    } else {
        0
    };
    let vx: u32 = if code.x == 15 {
        bit_field(r, p1, lin as int)
    } else {
        0
    };
    let vy: u32 = if code.y == 15 {
        bit_field(r, p1 + lx, lin as int)
    } else {
        0
    };
    let p3 = p1 + lx + ly;
    let nx = code.x != 0 && r[p3];
    let p4 = p3 + if code.x != 0 {
        1int
    } else {
        0
    };
    let ny = code.y != 0 && r[p4];
    (coord(code.x, vx, nx), coord(code.y, vy, ny))
}

/// Walks a count1 tree from node `cur` along the bits of `r` from offset
/// `p`, one bit at a time, to the leaf it ends at and the offset after it,
/// the reads staying within offset `lim`.
pub open spec fn walk_quad(
    nodes: Seq<Count1HuffmanTableNode>,
    root: usize,
    cur: usize,
    r: Seq<bool>,
    p: int,
    lim: nat,
) -> Result<(Count1HuffmanTableNodeValue, int), DecodeMainDataError>
    decreases r.len() - p,
{
    if p + 1 > lim {
        Err(DecodeMainDataError::Part23Overread)
    } else if p + 1 > r.len() {
        Err(DecodeMainDataError::BiterError(BiterError::EOF))
    } else {
        let (res, next) = count1_feed(nodes, root, cur, r[p]);
        match res {
            Count1HuffmanDecoderResult::Valid(d) => Ok((d, p + 1)),
            Count1HuffmanDecoderResult::InvalidCode => Err(
                DecodeMainDataError::InvalidCount1HuffmanCode,
            ),
            Count1HuffmanDecoderResult::NeedMoreBits => walk_quad(nodes, root, next, r, p + 1, lim),
        }
    }
}

/// A count1 value takes a sign bit when it is not zero.
pub open spec fn sign_bits(v: u8) -> nat {
    if v != 0 {
        1
    } else {
        0
    }
}

/// A count1 value with its sign: negative when its sign bit `bit` is set.
pub open spec fn quad_value(v: u8, bit: bool) -> i16 {
    if v != 0 && bit {
        -(v as int) as i16
    } else {
        v as i16
    }
}

/// The offset after one count1 quadruple coded with table `t` at offset `p`
/// of `r`: the code, then a sign bit for each value that is not zero.
pub open spec fn quad_end(t: Count1HuffmanTable, r: Seq<bool>, p: int, lim: nat) -> Result<
    int,
    DecodeMainDataError,
> {
    match walk_quad(t.node_seq(), t.root_index(), t.root_index(), r, p, lim) {
        Err(e) => Err(e),
        Ok((q, p1)) => {
            let (a, b, c, d) = q.values();
            match skip_field(r, p1, sign_bits(a), lim) {
                Err(e) => Err(e),
                Ok(p2) => match skip_field(r, p2, sign_bits(b), lim) {
                    Err(e) => Err(e),
                    Ok(p3) => match skip_field(r, p3, sign_bits(c), lim) {
                        Err(e) => Err(e),
                        Ok(p4) => skip_field(r, p4, sign_bits(d), lim),
                    },
                },
            }
        },
    }
}

/// The four values of the count1 quadruple coded with table `t` at offset `p` of `r`.
pub open spec fn quad_values(t: Count1HuffmanTable, r: Seq<bool>, p: int, lim: nat) -> (
    i16,
    i16,
    i16,
    i16,
) {
    let (q, p1) = walk_quad(t.node_seq(), t.root_index(), t.root_index(), r, p, lim).unwrap();
    let (a, b, c, d) = q.values();
    let p2 = p1 + sign_bits(a);
    let p3 = p2 + sign_bits(b);
    let p4 = p3 + sign_bits(c);
    (quad_value(a, r[p1]), quad_value(b, r[p2]), quad_value(c, r[p3]), quad_value(d, r[p4]))
}

/// A big-values pair coded at offset `p`: after the Huffman code come the
/// linbits of x (when its code value is 15), then those of y, then the sign
/// bit of x (when it is not 0), then that of y. Each value's magnitude is its
/// code value plus its linbits, and it is negative exactly when its sign bit
/// is 1; the pair ends after its last sign bit.
pub proof fn law_pair_values(t: BigHuffmanTable, r: Seq<bool>, p: int, lim: nat)
    requires
        0 <= p,
        t.linbits_count() <= 14,
        pair_end(t, r, p, lim) is Ok,
    ensures
        ({
            let (code, p1) = walk_code(t.node_seq(), t.root_index(), t.root_index(), r, p, lim).unwrap();
            let lin = t.linbits_count() as int;
            let lx: int = if code.x == 15 {
                lin
            } else {
                0
            };
            let ly: int = if code.y == 15 {
                lin
            } else {
                0
            };
            let mx = code.x + bits_value(r.subrange(p1, p1 + lx));
            let my = code.y + bits_value(r.subrange(p1 + lx, p1 + lx + ly));
            let q = p1 + lx + ly;
            let qy = if code.x != 0 {
                q + 1
            } else {
                q
            };
            let (x, y) = pair_values(t, r, p, lim);
            &&& x == mx || x == -mx
            &&& y == my || y == -my
            &&& (x < 0) == (code.x != 0 && r[q])
            &&& (y < 0) == (code.y != 0 && r[qy])
            &&& pair_end(t, r, p, lim) == Ok::<int, DecodeMainDataError>(
                if code.y != 0 {
                    qy + 1
                } else {
                    qy
                },
            )
        }),
{
    let (code, p1) = walk_code(t.node_seq(), t.root_index(), t.root_index(), r, p, lim).unwrap();
    let lin = t.linbits_count() as int;
    let lx: int = if code.x == 15 {
        lin
    } else {
        0
    };
    let ly: int = if code.y == 15 {
        lin
    } else {
        0
    };
    law_big_code_follows_path(t.node_seq(), t.root_index(), t.root_index(), r, p, lim);
    assert(p1 + lx + ly <= r.len());
    let sx = r.subrange(p1, p1 + lx);
    let sy = r.subrange(p1 + lx, p1 + lx + ly);
    lemma_bits_value_bound(sx);
    lemma_bits_value_bound(sy);
    lemma_pow2_le(lx as nat, 14);
    lemma_pow2_le(ly as nat, 14);
    lemma2_to64();
    if lx == 0 {
        assert(sx =~= Seq::<bool>::empty());
    }
    if ly == 0 {
        assert(sy =~= Seq::<bool>::empty());
    }
    assert(bits_value(Seq::<bool>::empty()) == 0);
}

/// A count1 quadruple coded at offset `p`: after the Huffman code come the
/// sign bits of its values that are not 0, in order. Each value's magnitude
/// is its code value, and it is negative exactly when its sign bit is 1; the
/// quadruple ends after its last sign bit.
pub proof fn law_quad_values(t: Count1HuffmanTable, r: Seq<bool>, p: int, lim: nat)
    requires
        0 <= p,
        quad_end(t, r, p, lim) is Ok,
    ensures
        ({
            let (code, p1) = walk_quad(t.node_seq(), t.root_index(), t.root_index(), r, p, lim).unwrap();
            let (a, b, c, d) = code.values();
            let pb: int = if a != 0 {
                p1 + 1
            } else {
                p1
            };
            let pc: int = if b != 0 {
                pb + 1
            } else {
                pb
            };
            let pd: int = if c != 0 {
                pc + 1
            } else {
                pc
            };
            let (va, vb, vc, vd) = quad_values(t, r, p, lim);
            &&& va == a || va == -a
            &&& vb == b || vb == -b
            &&& vc == c || vc == -c
            &&& vd == d || vd == -d
            &&& (va < 0) == (a != 0 && r[p1])
            &&& (vb < 0) == (b != 0 && r[pb])
            &&& (vc < 0) == (c != 0 && r[pc])
            &&& (vd < 0) == (d != 0 && r[pd])
            &&& quad_end(t, r, p, lim) == Ok::<int, DecodeMainDataError>(
                if d != 0 {
                    pd + 1
                } else {
                    pd
                },
            )
        }),
{
}

/// The line and the offset at which the count1 region ends, its quadruple at
/// line `l` starting at offset `p`: quadruples are decoded while bits are
/// left within `lim` and four lines are left below line 576.
pub open spec fn count1_end(t: Count1HuffmanTable, r: Seq<bool>, lim: nat, l: nat, p: int) -> Result<
    (nat, int),
    DecodeMainDataError,
>
    decreases 576 - l,
{
    if p >= lim || l + 4 > 576 {
        Ok((l, p))
    } else {
        match quad_end(t, r, p, lim) {
            Err(e) => Err(e),
            Ok(p2) => count1_end(t, r, lim, l + 4, p2),
        }
    }
}

/// The offset of count1 quadruple `k`, the first one starting at offset `p0`.
pub open spec fn quad_start(t: Count1HuffmanTable, r: Seq<bool>, lim: nat, p0: int, k: nat) -> int
    decreases k,
{
    if k == 0 {
        p0
    } else {
        let q = quad_start(t, r, lim, p0, (k - 1) as nat);
        match quad_end(t, r, q, lim) {
            Ok(e) => e,
            Err(_) => q,
        }
    }
}

/// The value of line `l` of a count1 region that starts at line `l0` and
/// offset `p0`: one of the values of its quadruple.
pub open spec fn count1_value(t: Count1HuffmanTable, r: Seq<bool>, lim: nat, l0: nat, p0: int, l: nat) -> i16 {
    let k = ((l - l0) / 4) as nat;
    let (a, b, c, d) = quad_values(t, r, quad_start(t, r, lim, p0, k), lim);
    let i = (l - l0) % 4;
    if i == 0 {
        a
    } else if i == 1 {
        b
    } else if i == 2 {
        c
    } else {
        d
    }
}

/// The count1 table a granule selects, by `count1table_select`.
pub open spec fn count1_index(g: Granule) -> int {
    if g.count1table_select {
        1
    } else {
        0
    }
}

/// The table that codes line `l` of a granule: the one its region selects.
pub open spec fn line_table(sf: u32, g: Granule, tables: TableSet, l: nat) -> BigHuffmanTable {
    tables.0[g.table_select[line_region(sf, g, l) as int] as int]
}

/// The offset after the big-values pairs of a granule from line `l` on, the
/// pair at line `l` starting at offset `p` of `r`.
pub open spec fn pairs_end(
    sf: u32,
    g: Granule,
    tables: TableSet,
    r: Seq<bool>,
    lim: nat,
    l: nat,
    p: int,
) -> Result<int, DecodeMainDataError>
    decreases g.big_values * 2 + 2 - l,
{
    if l >= g.big_values * 2 {
        Ok(p)
    } else if l >= 576 {
        Err(DecodeMainDataError::InvalidBandState)
    } else if g.table_select[line_region(sf, g, l) as int] >= tables.0.len() {
        Err(DecodeMainDataError::InvalidBigHuffmanCode)
    } else {
        match pair_end(line_table(sf, g, tables, l), r, p, lim) {
            Err(e) => Err(e),
            Ok(p2) => pairs_end(sf, g, tables, r, lim, l + 2, p2),
        }
    }
}

/// The offset in `r` of big-values pair `k` (lines `2k` and `2k + 1`) of a granule.
pub open spec fn pair_start(
    sf: u32,
    g: Granule,
    tables: TableSet,
    r: Seq<bool>,
    lim: nat,
    k: nat,
) -> int
    decreases k,
{
    if k == 0 {
        0
    } else {
        let q = pair_start(sf, g, tables, r, lim, (k - 1) as nat);
        match pair_end(line_table(sf, g, tables, (2 * (k - 1)) as nat), r, q, lim) {
            Ok(e) => e,
            Err(_) => q,
        }
    }
}

/// The spectral value of line `l` of a decoded granule: one of the values
/// of its big-values pair below `2 * big_values`, then one of the values of
/// its count1 quadruple up to the end of the count1 region, and zero above.
pub open spec fn line_value(
    sf: u32,
    g: Granule,
    tables: TableSet,
    r: Seq<bool>,
    lim: nat,
    l: nat,
) -> i16 {
    if l < g.big_values * 2 {
        let k = l / 2;
        let (x, y) = pair_values(
            line_table(sf, g, tables, 2 * k),
            r,
            pair_start(sf, g, tables, r, lim, k),
            lim,
        );
        if l % 2 == 0 {
            x
        } else {
            y
        }
    } else {
        let l0 = (g.big_values * 2) as nat;
        let p0 = pairs_end(sf, g, tables, r, lim, 0, 0).unwrap();
        let t = tables.1[count1_index(g)];
        if l < count1_end(t, r, lim, l0, p0).unwrap().0 {
            count1_value(t, r, lim, l0, p0, l)
        } else {
            0
        }
    }
}

/// The bits the Huffman coded part of a granule takes from `r`, `bits` being
/// what its `part2_3_length` leaves after the scalefactors: every read stays
/// within them, and the bits left after the big values and the count1
/// region are skipped, so that exactly `bits` bits are taken.
pub open spec fn huffman_end(
    sf: u32,
    g: Granule,
    bits: nat,
    tables: TableSet,
    r: Seq<bool>,
) -> Result<int, DecodeMainDataError> {
    match pairs_end(sf, g, tables, r, bits, 0, 0) {
        Err(e) => Err(e),
        Ok(p) => {
            let l0 = (g.big_values * 2) as nat;
            if p < bits && l0 + 4 <= 576 && count1_index(g) >= tables.1.len() {
                Err(DecodeMainDataError::InvalidCount1HuffmanCode)
            } else {
                match count1_end(tables.1[count1_index(g)], r, bits, l0, p) {
                    Err(e) => Err(e),
                    Ok((l, q)) => skip_field(r, q, (bits - q) as nat, bits),
                }
            }
        },
    }
}

/// Every table can be used: a value of 15 plus its linbits fits a 16-bit
/// spectral value (the tables of the standard have at most 13 linbits).
pub open spec fn tables_usable(tables: TableSet) -> bool {
    forall|i: int| 0 <= i < tables.0.len() ==> (#[trigger] tables.0[i]).linbits_count() <= 14
}

/// Powers of two grow with the exponent.
proof fn lemma_pow2_le(a: nat, b: nat)
    requires
        a <= b,
    ensures
        pow2(a) <= pow2(b),
{
    if a < b {
        lemma_pow2_strictly_increases(a, b);
    }
}

/// Reader `b` is reader `a` after at most `n` bits were read from it.
pub open spec fn consumed_within<const BUF_SIZE: usize>(
    a: Biter<BUF_SIZE>,
    b: Biter<BUF_SIZE>,
    n: nat,
) -> bool {
    &&& b.wf()
    &&& b.reader().data() == a.reader().data()
    &&& b.remaining().len() <= a.remaining().len() <= b.remaining().len() + n
    &&& b.remaining() == a.remaining().skip(a.remaining().len() - b.remaining().len())
}

proof fn lemma_advanced_within<const BUF_SIZE: usize>(
    a: Biter<BUF_SIZE>,
    b: Biter<BUF_SIZE>,
    n: nat,
    lim: nat,
)
    requires
        a.advanced(b, n),
        n <= lim,
    ensures
        consumed_within(a, b, lim),
{
}

proof fn lemma_one_bit(r: Seq<bool>, q: int)
    requires
        0 <= q < r.len(),
    ensures
        (bit_field(r, q, 1) != 0) == r[q],
{
    let s = r.subrange(q, q + 1);
    assert(s.drop_last() =~= Seq::<bool>::empty());
    assert(s.last() == r[q]);
    assert(bits_value(Seq::<bool>::empty()) == 0);
}

/// Reads `n` bits at offset `used` of the bits of `start`, the reads of the
/// granule having to end by offset `lim`.
fn read_budget<const BUF_SIZE: usize>(
    biter: &mut Biter<BUF_SIZE>,
    n: usize,
    used: usize,
    lim: usize,
    Ghost(start): Ghost<Biter<BUF_SIZE>>,
) -> (r: Result<u32, DecodeMainDataError>)
    requires
        old(biter).wf(),
        n <= 32,
        used <= lim,
        start.advanced(*old(biter), used as nat),
    ensures
        r is Ok <==> budget_fault(start.remaining(), used as int, n as nat, lim as nat) is None,
        budget_fault(start.remaining(), used as int, n as nat, lim as nat) matches Some(e) ==> r
            == Err::<u32, DecodeMainDataError>(e),
        r matches Ok(v) ==> v == bit_field(start.remaining(), used as int, n as int)
            && start.advanced(*final(biter), (used + n) as nat),
        r is Err ==> consumed_within(start, *final(biter), lim as nat),
{
    let ghost rem = start.remaining();
    proof {
        assert(old(biter).remaining() == rem.skip(used as int));
    }
    if n > lim - used {
        return Err(DecodeMainDataError::Part23Overread);
    }
    match biter.uimsbf::<u32>(n) {
        Ok(v) => {
            proof {
                assert(old(biter).remaining().take(n as int) =~= rem.subrange(
                    used as int,
                    used + n,
                ));
                Biter::<BUF_SIZE>::lemma_advanced_trans(
                    start,
                    *old(biter),
                    *biter,
                    used as nat,
                    n as nat,
                );
            }
            Ok(v)
        },
        Err(e) => {
            proof {
                if biter.remaining().len() == 0 {
                    assert(biter.remaining() =~= rem.skip(rem.len() as int));
                }
            }
            Err(DecodeMainDataError::BiterError(e))
        },
    }
}

/// One value of a big-values pair: the code value `c` plus the linbits `v`,
/// negated when `neg`.
fn pair_coord(c: u8, v: u32, neg: bool) -> (r: i16)
    requires
        v < 0x4000,
    ensures
        r == coord(c, v, neg),
{
    let m: i16 = c as i16 + v as i16;
    if neg {
        -m
    } else {
        m
    }
}

/// Decodes one big-values pair with `table`, the reader standing `used`
/// bits past `start` and the reads of the granule having to end by offset
/// `lim`: the two values and the offset after the pair.
fn decode_pair<const BUF_SIZE: usize>(
    table: &BigHuffmanTable,
    biter: &mut Biter<BUF_SIZE>,
    used: usize,
    lim: usize,
    Ghost(start): Ghost<Biter<BUF_SIZE>>,
) -> (r: Result<(i16, i16, usize), DecodeMainDataError>)
    requires
        old(biter).wf(),
        used <= lim,
        start.advanced(*old(biter), used as nat),
        table.linbits_count() <= 14,
    ensures
        r is Ok <==> pair_end(*table, start.remaining(), used as int, lim as nat) is Ok,
        pair_end(*table, start.remaining(), used as int, lim as nat) matches Err(e) ==> r == Err::<
            (i16, i16, usize),
            DecodeMainDataError,
        >(e),
        r matches Ok((x, y, q)) ==> {
            &&& pair_end(*table, start.remaining(), used as int, lim as nat) == Ok::<
                int,
                DecodeMainDataError,
            >(q as int)
            &&& (x, y) == pair_values(*table, start.remaining(), used as int, lim as nat)
            &&& q <= lim
            &&& start.advanced(*final(biter), q as nat)
        },
        r is Err ==> consumed_within(start, *final(biter), lim as nat),
{
    let ghost rem = start.remaining();
    let ghost nodes = table.node_seq();
    let ghost root = table.root_index();
    let ghost p0 = used as int;
    let mut decoder = BigHuffmanDecoder::new(table);
    let mut q: usize = used;
    let mut code = BigHuffmanTableNodeValue { x: 0, y: 0 };
    loop
        invariant_except_break
            walk_code(nodes, root, root, rem, p0, lim as nat) == walk_code(
                nodes,
                root,
                decoder.at(),
                rem,
                q as int,
                lim as nat,
            ),
        invariant
            rem == start.remaining(),
            decoder.tree() == table,
            p0 == used as int,
            p0 <= q <= lim,
            start.advanced(*biter, q as nat),
            nodes == table.node_seq(),
            root == table.root_index(),
        ensures
            walk_code(nodes, root, root, rem, p0, lim as nat) == Ok::<
                (BigHuffmanTableNodeValue, int),
                DecodeMainDataError,
            >((code, q as int)),
            start.advanced(*biter, q as nat),
            q <= lim,
        decreases lim - q,
    {
        let ghost at = decoder.at();
        let ghost q0 = q as int;
        let v = match read_budget(biter, 1, q, lim, Ghost(start)) {
            Ok(v) => v,
            Err(e) => {
                proof {
                    assert(walk_code(nodes, root, at, rem, q0, lim as nat) == Err::<
                        (BigHuffmanTableNodeValue, int),
                        DecodeMainDataError,
                    >(e));
                }
                return Err(e);
            },
        };
        proof {
            lemma_one_bit(rem, q as int);
        }
        let res = decoder.feed(v != 0);
        proof {
            assert((res, decoder.at()) == big_feed(nodes, root, at, rem[q0]));
        }
        q = q + 1;
        match res {
            BigHuffmanDecoderResult::Valid(data) => {
                code = data;
                break ;
            },
            BigHuffmanDecoderResult::InvalidCode => {
                proof {
                    lemma_advanced_within(start, *biter, q as nat, lim as nat);
                }
                return Err(DecodeMainDataError::InvalidBigHuffmanCode);
            },
            BigHuffmanDecoderResult::NeedMoreBits => {},
        }
    }
    let ghost p1 = q as int;
    let lin = table.linbits();
    proof {
        lemma2_to64();
    }
    let linbitsx: u32 = if code.x == 15 {
        let v = read_budget(biter, lin as usize, q, lim, Ghost(start))?;
        proof {
            lemma_bits_value_bound(rem.subrange(q as int, q + lin));
            lemma_pow2_le(lin as nat, 14);
        }
        q = q + lin as usize;
        v
    } else {
        0
    };
    let ghost p2 = q as int;
    let linbitsy: u32 = if code.y == 15 {
        let v = read_budget(biter, lin as usize, q, lim, Ghost(start))?;
        proof {
            lemma_bits_value_bound(rem.subrange(q as int, q + lin));
            lemma_pow2_le(lin as nat, 14);
        }
        q = q + lin as usize;
        v
    } else {
        0
    };
    let ghost p3 = q as int;
    let negx: bool = if code.x != 0 {
        let v = read_budget(biter, 1, q, lim, Ghost(start))?;
        proof {
            lemma_one_bit(rem, q as int);
        }
        q = q + 1;
        v != 0
    } else {
        false
    };
    let ghost p4 = q as int;
    let negy: bool = if code.y != 0 {
        let v = read_budget(biter, 1, q, lim, Ghost(start))?;
        proof {
            lemma_one_bit(rem, q as int);
        }
        q = q + 1;
        v != 0
    } else {
        false
    };
    let x = pair_coord(code.x, linbitsx, negx);
    let y = pair_coord(code.y, linbitsy, negy);
    Ok((x, y, q))
}

/// A count1 value `v` with its sign, read at offset `used` of the bits of
/// `start` when `v` is not zero, and the offset after it.
fn signed_value<const BUF_SIZE: usize>(
    v: u8,
    biter: &mut Biter<BUF_SIZE>,
    used: usize,
    lim: usize,
    Ghost(start): Ghost<Biter<BUF_SIZE>>,
) -> (r: Result<(i16, usize), DecodeMainDataError>)
    requires
        old(biter).wf(),
        used <= lim,
        start.advanced(*old(biter), used as nat),
    ensures
        r is Ok <==> skip_field(start.remaining(), used as int, sign_bits(v), lim as nat) is Ok,
        skip_field(start.remaining(), used as int, sign_bits(v), lim as nat) matches Err(e) ==> r
            == Err::<(i16, usize), DecodeMainDataError>(e),
        r matches Ok((x, q)) ==> {
            &&& skip_field(start.remaining(), used as int, sign_bits(v), lim as nat) == Ok::<
                int,
                DecodeMainDataError,
            >(q as int)
            &&& x == quad_value(v, start.remaining()[used as int])
            &&& used <= q <= lim
            &&& start.advanced(*final(biter), q as nat)
        },
        r is Err ==> consumed_within(start, *final(biter), lim as nat),
{
    if v == 0 {
        return Ok((0, used));
    }
    let b = read_budget(biter, 1, used, lim, Ghost(start))?;
    proof {
        lemma_one_bit(start.remaining(), used as int);
    }
    if b != 0 {
        Ok((-(v as i16), used + 1))
    } else {
        Ok((v as i16, used + 1))
    }
}

/// Decodes one count1 quadruple with `table`, the reader standing `used`
/// bits past `start` and the reads of the granule having to end by offset
/// `lim`: the four values and the offset after the quadruple.
fn decode_quad<const BUF_SIZE: usize>(
    table: &Count1HuffmanTable,
    biter: &mut Biter<BUF_SIZE>,
    used: usize,
    lim: usize,
    Ghost(start): Ghost<Biter<BUF_SIZE>>,
) -> (r: Result<(i16, i16, i16, i16, usize), DecodeMainDataError>)
    requires
        old(biter).wf(),
        used <= lim,
        start.advanced(*old(biter), used as nat),
    ensures
        r is Ok <==> quad_end(*table, start.remaining(), used as int, lim as nat) is Ok,
        quad_end(*table, start.remaining(), used as int, lim as nat) matches Err(e) ==> r == Err::<
            (i16, i16, i16, i16, usize),
            DecodeMainDataError,
        >(e),
        r matches Ok((a, b, c, d, q)) ==> {
            &&& quad_end(*table, start.remaining(), used as int, lim as nat) == Ok::<
                int,
                DecodeMainDataError,
            >(q as int)
            &&& (a, b, c, d) == quad_values(*table, start.remaining(), used as int, lim as nat)
            &&& used <= q <= lim
            &&& start.advanced(*final(biter), q as nat)
        },
        r is Err ==> consumed_within(start, *final(biter), lim as nat),
{
    let ghost rem = start.remaining();
    let ghost nodes = table.node_seq();
    let ghost root = table.root_index();
    let ghost p0 = used as int;
    let mut decoder = Count1HuffmanDecoder::new(table);
    let mut q: usize = used;
    let mut code = Count1HuffmanTableNodeValue::new(0, 0, 0, 0);
    loop
        invariant_except_break
            walk_quad(nodes, root, root, rem, p0, lim as nat) == walk_quad(
                nodes,
                root,
                decoder.at(),
                rem,
                q as int,
                lim as nat,
            ),
        invariant
            rem == start.remaining(),
            decoder.tree() == table,
            p0 == used as int,
            p0 <= q <= lim,
            start.advanced(*biter, q as nat),
            nodes == table.node_seq(),
            root == table.root_index(),
        ensures
            walk_quad(nodes, root, root, rem, p0, lim as nat) == Ok::<
                (Count1HuffmanTableNodeValue, int),
                DecodeMainDataError,
            >((code, q as int)),
            start.advanced(*biter, q as nat),
            q <= lim,
        decreases lim - q,
    {
        let ghost at = decoder.at();
        let ghost q0 = q as int;
        let v = match read_budget(biter, 1, q, lim, Ghost(start)) {
            Ok(v) => v,
            Err(e) => {
                proof {
                    assert(walk_quad(nodes, root, at, rem, q0, lim as nat) == Err::<
                        (Count1HuffmanTableNodeValue, int),
                        DecodeMainDataError,
                    >(e));
                }
                return Err(e);
            },
        };
        proof {
            lemma_one_bit(rem, q as int);
        }
        let res = decoder.feed(v != 0);
        proof {
            assert((res, decoder.at()) == count1_feed(nodes, root, at, rem[q0]));
        }
        q = q + 1;
        match res {
            Count1HuffmanDecoderResult::Valid(data) => {
                code = data;
                break ;
            },
            Count1HuffmanDecoderResult::InvalidCode => {
                proof {
                    lemma_advanced_within(start, *biter, q as nat, lim as nat);
                }
                return Err(DecodeMainDataError::InvalidCount1HuffmanCode);
            },
            Count1HuffmanDecoderResult::NeedMoreBits => {},
        }
    }
    let (va, vb, vc, vd) = code.quad();
    let (a, q) = signed_value(va, biter, q, lim, Ghost(start))?;
    let (b, q) = signed_value(vb, biter, q, lim, Ghost(start))?;
    let (c, q) = signed_value(vc, biter, q, lim, Ghost(start))?;
    let (d, q) = signed_value(vd, biter, q, lim, Ghost(start))?;
    Ok((a, b, c, d, q))
}

/// Decodes the Huffman coded part of one granule and channel within `bits`
/// bits: the big-values pairs, each with the table that the region of its
/// line selects (a region that selects no table of `tables` cannot be
/// decoded); then the count1 quadruples, with the table `count1table_select`
/// picks, while bits are left and four lines are left below line 576; the
/// bits left after them are skipped, and the lines above them are zero.
#[verifier::rlimit(40)]
fn decode_huffman_bits<const BUF_SIZE: usize>(
    header: &MPEGHeader,
    grsi: &Granule,
    bits: usize,
    tables: &HuffmanTables,
    biter: &mut Biter<BUF_SIZE>,
) -> (r: Result<GranuleSpectralValues, DecodeMainDataError>)
    requires
        old(biter).wf(),
        frequency_index(header.sampling_frequency) is Some,
        tables_usable(tables@),
    ensures
        ({
            let sf = header.sampling_frequency;
            let rem = old(biter).remaining();
            let out = huffman_end(sf, *grsi, bits as nat, tables@, rem);
            &&& r is Ok <==> out is Ok
            &&& out matches Err(e) ==> r == Err::<GranuleSpectralValues, DecodeMainDataError>(e)
            &&& r is Ok ==> out == Ok::<int, DecodeMainDataError>(bits as int) && old(
                biter,
            ).advanced(*final(biter), bits as nat)
            &&& r matches Ok(v) ==> v.values() == Seq::new(
                576,
                |l: int| line_value(sf, *grsi, tables@, rem, bits as nat, l as nat),
            )
            &&& r is Err ==> consumed_within(*old(biter), *final(biter), bits as nat)
        }),
{
    let ghost start = *old(biter);
    let ghost rem = start.remaining();
    let ghost sf = header.sampling_frequency;
    let ghost g = *grsi;
    let ghost lim = bits as nat;
    let mut values = GranuleSpectralValues::default();
    proof {
        start.lemma_advanced_none();
    }
    let spectral_map = SpectralMap::new(header.sampling_frequency, grsi);
    let limit: usize = grsi.big_values as usize * 2;
    let mut l: usize = 0;
    let mut used: usize = 0;
    /* big_values */
    while l < limit
        invariant
            start == *old(biter),
            rem == start.remaining(),
            sf == header.sampling_frequency,
            g == *grsi,
            lim == bits,
            limit == g.big_values * 2,
            l % 2 == 0,
            l <= limit,
            l <= 576,
            used <= bits,
            start.advanced(*biter, used as nat),
            pairs_end(sf, g, tables@, rem, lim, 0, 0) == pairs_end(
                sf,
                g,
                tables@,
                rem,
                lim,
                l as nat,
                used as int,
            ),
            used == pair_start(sf, g, tables@, rem, lim, (l / 2) as nat),
            values.values().len() == 576,
            forall|j: int|
                0 <= j < 576 ==> #[trigger] values.values()[j] == if j < l {
                    line_value(sf, g, tables@, rem, lim, j as nat)
                } else {
                    0i16
                },
            tables_usable(tables@),
            forall|j: int|
                0 <= j < 576 ==> #[trigger] spectral_map.region_at(j) == line_region(sf, g, j as nat),
        decreases limit - l,
    {
        if l >= 576 {
            proof {
                lemma_advanced_within(start, *biter, used as nat, lim);
            }
            return Err(DecodeMainDataError::InvalidBandState);
        }
        let region_index = spectral_map.get_line_region_index(l);
        proof {
            assert(spectral_map.region_at(l as int) == line_region(sf, g, l as nat));
        }
        let table_index = grsi.table_select[region_index as usize];
        if table_index as usize >= tables.big.len() {
            proof {
                lemma_advanced_within(start, *biter, used as nat, lim);
            }
            return Err(DecodeMainDataError::InvalidBigHuffmanCode);
        }
        let table = &tables.big[table_index as usize];
        proof {
            assert(*table == line_table(sf, g, tables@, l as nat));
            assert(l == 2 * (l / 2));
        }
        let (x, y, q) = match decode_pair(table, biter, used, bits, Ghost(start)) {
            Ok(v) => v,
            Err(e) => {
                return Err(e);
            },
        };
        let ghost before = values.values();
        values.0[l] = x;
        values.0[l + 1] = y;
        proof {
            assert((l + 2) / 2 == l / 2 + 1);
            assert((l + 1) / 2 == l / 2);
            assert forall|j: int| 0 <= j < 576 implies #[trigger] values.values()[j] == if j < l
                + 2 {
                line_value(sf, g, tables@, rem, lim, j as nat)
            } else {
                0i16
            } by {
                if j < l {
                    assert(values.values()[j] == before[j]);
                } else if j >= l + 2 {
                    assert(values.values()[j] == before[j]);
                }
            }
        }
        used = q;
        l = l + 2;
    }
    /* count1 */
    let ghost l0 = l as nat;
    let ghost p0 = used as int;
    let ghost t = tables@.1[count1_index(g)];
    proof {
        assert(l == limit);
        assert(pairs_end(sf, g, tables@, rem, lim, l as nat, used as int) == Ok::<
            int,
            DecodeMainDataError,
        >(used as int));
        assert(pairs_end(sf, g, tables@, rem, lim, 0, 0) == Ok::<int, DecodeMainDataError>(p0));
    }
    if used < bits && l + 4 <= 576 {
        let sel: usize = if grsi.count1table_select {
            1
        } else {
            0
        };
        if sel >= tables.count1.len() {
            proof {
                lemma_advanced_within(start, *biter, used as nat, lim);
            }
            return Err(DecodeMainDataError::InvalidCount1HuffmanCode);
        }
        let table = &tables.count1[sel];
        while used < bits && l + 4 <= 576
            invariant
                start == *old(biter),
                rem == start.remaining(),
                sf == header.sampling_frequency,
                g == *grsi,
                lim == bits,
                count1_index(g) < tables@.1.len(),
                t == tables@.1[count1_index(g)],
                *table == t,
                limit == g.big_values * 2,
                l0 == limit,
                l0 <= l <= 576,
                (l - l0) % 4 == 0,
                used <= bits,
                p0 <= used,
                start.advanced(*biter, used as nat),
                pairs_end(sf, g, tables@, rem, lim, 0, 0) == Ok::<int, DecodeMainDataError>(p0),
                count1_end(t, rem, lim, l0, p0) == count1_end(t, rem, lim, l as nat, used as int),
                used == quad_start(t, rem, lim, p0, ((l - l0) / 4) as nat),
                values.values().len() == 576,
                forall|j: int|
                    0 <= j < 576 ==> #[trigger] values.values()[j] == if j < l0 {
                        line_value(sf, g, tables@, rem, lim, j as nat)
                    } else if j < l {
                        count1_value(t, rem, lim, l0, p0, j as nat)
                    } else {
                        0i16
                    },
            decreases 576 - l,
        {
            let (a, b, c, d, q) = match decode_quad(table, biter, used, bits, Ghost(start)) {
                Ok(v) => v,
                Err(e) => {
                    proof {
                        assert(count1_end(t, rem, lim, l as nat, used as int) == Err::<
                            (nat, int),
                            DecodeMainDataError,
                        >(e));
                    }
                    return Err(e);
                },
            };
            let ghost before = values.values();
            values.0[l] = a;
            values.0[l + 1] = b;
            values.0[l + 2] = c;
            values.0[l + 3] = d;
            proof {
                let k = ((l - l0) / 4) as nat;
                assert(((l + 4 - l0) / 4) as nat == k + 1);
                assert forall|j: int| 0 <= j < 576 implies #[trigger] values.values()[j] == if j
                    < l0 {
                    line_value(sf, g, tables@, rem, lim, j as nat)
                } else if j < l + 4 {
                    count1_value(t, rem, lim, l0, p0, j as nat)
                } else {
                    0i16
                } by {
                    if j < l || j >= l + 4 {
                        assert(values.values()[j] == before[j]);
                    } else {
                        assert((j - l0) / 4 == k);
                        assert((j - l0) % 4 == j - l);
                    }
                }
            }
            used = q;
            l = l + 4;
        }
    }
    proof {
        assert(count1_end(t, rem, lim, l0, p0) == Ok::<(nat, int), DecodeMainDataError>(
            (l as nat, used as int),
        ));
        assert forall|j: int| 0 <= j < 576 implies #[trigger] values.values()[j] == if j < l {
            line_value(sf, g, tables@, rem, lim, j as nat)
        } else {
            0i16
        } by {
            if l0 <= j < l {
                assert(line_value(sf, g, tables@, rem, lim, j as nat) == count1_value(
                    t,
                    rem,
                    lim,
                    l0,
                    p0,
                    j as nat,
                ));
            }
        }
        assert forall|j: int| l <= j < 576 implies #[trigger] line_value(
            sf,
            g,
            tables@,
            rem,
            lim,
            j as nat,
        ) == 0i16 by {}
    }
    let ghost q1 = used as int;
    proof {
        assert(huffman_end(sf, g, lim, tables@, rem) == skip_field(rem, q1, (bits - q1) as nat, lim));
    }
    /* bits left past the coded lines */
    while used < bits
        invariant
            start == *old(biter),
            rem == start.remaining(),
            sf == header.sampling_frequency,
            g == *grsi,
            lim == bits,
            q1 <= used <= bits,
            start.advanced(*biter, used as nat),
            huffman_end(sf, g, lim, tables@, rem) == skip_field(rem, q1, (bits - q1) as nat, lim),
        ensures
            used == bits,
            bits <= rem.len(),
            start.advanced(*biter, used as nat),
        decreases bits - used,
    {
        let n: usize = if bits - used > 32 {
            32
        } else {
            bits - used
        };
        match read_budget(biter, n, used, bits, Ghost(start)) {
            Ok(_) => {},
            Err(e) => {
                proof {
                    assert(q1 + (bits - q1) > rem.len());
                }
                return Err(e);
            },
        }
        used = used + n;
    }
    proof {
        assert(skip_field(rem, q1, (bits - q1) as nat, lim) == Ok::<int, DecodeMainDataError>(
            bits as int,
        ));
    }
    /* rzero */
    while l < 576
        invariant
            values.values().len() == 576,
            forall|j: int|
                0 <= j < 576 ==> #[trigger] values.values()[j] == if j < l {
                    line_value(sf, g, tables@, rem, lim, j as nat)
                } else {
                    0i16
                },
            limit == g.big_values * 2,
            limit <= l,
            forall|j: int|
                l <= j < 576 ==> #[trigger] line_value(sf, g, tables@, rem, lim, j as nat) == 0i16,
        decreases 576 - l,
    {
        let ghost before = values.values();
        values.0[l] = 0;
        proof {
            assert forall|j: int| 0 <= j < 576 implies #[trigger] values.values()[j] == if j < l + 1 {
                line_value(sf, g, tables@, rem, lim, j as nat)
            } else {
                0i16
            } by {
                if j != l {
                    assert(values.values()[j] == before[j]);
                }
            }
        }
        l = l + 1;
    }
    proof {
        assert(values.values() =~= Seq::new(
            576,
            |j: int| line_value(sf, g, tables@, rem, lim, j as nat),
        ));
    }
    Ok(values)
}

/// The granule and channel of the `k`-th scalefactor and Huffman part of
/// the main data: granules in order, channels in order within a granule.
pub open spec fn md_index(si: MPEGSideInfo, k: int) -> (int, int) {
    (k / si.nch as int, k % si.nch as int)
}

/// The scalefactors that part `k` takes over: granule 0's long bands of its
/// channel, recorded in `longs`, when it belongs to granule 1.
pub open spec fn md_prev(si: MPEGSideInfo, longs: Seq<Seq<u8>>, k: int) -> Option<Seq<u8>> {
    let (gr, ch) = md_index(si, k);
    if gr == 1 {
        Some(longs[ch])
    } else {
        None
    }
}

/// Part `j` of the main data, the parts before it having taken `p` bits of
/// `r` and recorded `longs`: the offset after it and the long-band
/// scalefactors it records; or why it failed. Its scalefactors and its
/// Huffman coded part together take exactly its `part2_3_length` bits.
#[verifier::opaque]
pub open spec fn md_step(
    si: MPEGSideInfo,
    sf: u32,
    tables: TableSet,
    r: Seq<bool>,
    j: int,
    p: int,
    longs: Seq<Seq<u8>>,
) -> Result<(int, Seq<u8>), DecodeMainDataError> {
    let (gr, ch) = md_index(si, j);
    let g = si.granules[gr][ch];
    let s = si.scfsi[ch];
    let prev = md_prev(si, longs, j);
    let rr = r.skip(p);
    let n = sf_slot_count(g);
    match sf_fault(g, s, prev is Some, rr, n) {
        Some(e) => Err(DecodeMainDataError::BiterError(e)),
        None => {
            let used = sf_offset(g, s, prev is Some, n);
            let p1 = p + used;
            if used > g.part2_3_length {
                Err(DecodeMainDataError::Part23Overread)
            } else {
                match huffman_end(sf, g, (g.part2_3_length - used) as nat, tables, r.skip(p1)) {
                    Err(e) => Err(e),
                    Ok(c) => Ok(
                        (p1 + c, Seq::new(21, |i: int| sf_long_upto(g, s, prev, rr, i, n as int))),
                    ),
                }
            }
        },
    }
}

/// The main data decoded up to part `k`: the offset in `r` after it and the
/// long-band scalefactors of each part so far; or why it failed.
pub open spec fn md_fold(
    si: MPEGSideInfo,
    sf: u32,
    tables: TableSet,
    r: Seq<bool>,
    k: nat,
) -> Result<(int, Seq<Seq<u8>>), DecodeMainDataError>
    decreases k,
{
    if k == 0 {
        Ok((0, Seq::empty()))
    } else {
        match md_fold(si, sf, tables, r, (k - 1) as nat) {
            Err(e) => Err(e),
            Ok((p, longs)) => match md_step(si, sf, tables, r, k - 1, p, longs) {
                Err(e) => Err(e),
                Ok((p1, entry)) => Ok((p1, longs.push(entry))),
            },
        }
    }
}

/// The long-band scalefactors that part `j` records.
pub open spec fn md_entry(
    si: MPEGSideInfo,
    sf: u32,
    tables: TableSet,
    r: Seq<bool>,
    j: int,
) -> Seq<u8> {
    let (p, longs) = md_fold(si, sf, tables, r, j as nat).unwrap();
    md_step(si, sf, tables, r, j, p, longs).unwrap().1
}

proof fn lemma_md_fold_long_at(
    si: MPEGSideInfo,
    sf: u32,
    tables: TableSet,
    r: Seq<bool>,
    k: nat,
    j: nat,
)
    requires
        j < k,
        md_fold(si, sf, tables, r, k) is Ok,
    ensures
        md_fold(si, sf, tables, r, j) is Ok,
        md_fold(si, sf, tables, r, k).unwrap().1.len() == k,
        md_fold(si, sf, tables, r, k).unwrap().1[j as int] == md_entry(
            si,
            sf,
            tables,
            r,
            j as int,
        ),
    decreases k,
{
    let (p, longs) = md_fold(si, sf, tables, r, (k - 1) as nat).unwrap();
    if j < k - 1 {
        lemma_md_fold_long_at(si, sf, tables, r, (k - 1) as nat, j);
    } else if k > 1 {
        lemma_md_fold_long_at(si, sf, tables, r, (k - 1) as nat, 0);
    }
}

/// What part `j` records, once it has been decoded.
proof fn lemma_md_entry_value(
    si: MPEGSideInfo,
    sf: u32,
    tables: TableSet,
    r: Seq<bool>,
    j: nat,
)
    requires
        md_fold(si, sf, tables, r, j + 1) is Ok,
    ensures
        ({
            let (p, longs) = md_fold(si, sf, tables, r, j).unwrap();
            let (gr, ch) = md_index(si, j as int);
            let g = si.granules[gr][ch];
            md_entry(si, sf, tables, r, j as int) == Seq::new(
                21,
                |i: int|
                    sf_long_upto(
                        g,
                        si.scfsi[ch],
                        md_prev(si, longs, j as int),
                        r.skip(p),
                        i,
                        sf_slot_count(g) as int,
                    ),
            )
        }),
{
    reveal(md_step);
}

/// Granule 0's scalefactors, as decoded and kept in `sfs`, are those that
/// part `k` of granule 1 takes over.
proof fn lemma_prev_matches(
    sfs: [[GranuleScaleFactors; 2]; 2],
    svs: [[GranuleSpectralValues; 2]; 2],
    si: MPEGSideInfo,
    sf: u32,
    tables: TableSet,
    r: Seq<bool>,
    k: int,
    ch: int,
    p: int,
    longs: Seq<Seq<u8>>,
)
    requires
        md_filled(sfs, svs, si, sf, tables, r, k),
        0 <= ch < si.nch,
        si.ngr == 2,
        si.nch <= 2,
        k == si.nch + ch,
        md_fold(si, sf, tables, r, k as nat) == Ok::<
            (int, Seq<Seq<u8>>),
            DecodeMainDataError,
        >((p, longs)),
    ensures
        prev_longs(Some(sfs[0][ch])) == md_prev(si, longs, k),
{
    lemma_md_fold_long_at(si, sf, tables, r, k as nat, ch as nat);
    if ch + 1 < k {
        lemma_md_fold_long_at(si, sf, tables, r, k as nat, (ch + 1) as nat);
    }
    lemma_md_entry_value(si, sf, tables, r, ch as nat);
    assert(ch / si.nch as int == 0 && ch % si.nch as int == ch) by (nonlinear_arith)
        requires
            0 <= ch < si.nch,
    ;
    assert(k / si.nch as int == 1 && k % si.nch as int == ch) by (nonlinear_arith)
        requires
            0 <= ch < si.nch,
            k == si.nch + ch,
    ;
    assert(0 * si.nch + ch == ch);
    assert(md_part_matches(sfs[0][ch], si, sf, tables, r, ch));
    assert(sfs[0][ch].long_view() =~= longs[ch]);
}

proof fn lemma_md_fold_err_stays(
    si: MPEGSideInfo,
    sf: u32,
    tables: TableSet,
    r: Seq<bool>,
    k: nat,
    n: nat,
)
    requires
        k <= n,
        md_fold(si, sf, tables, r, k) is Err,
    ensures
        md_fold(si, sf, tables, r, n) == md_fold(
            si,
            sf,
            tables,
            r,
            k,
        ),
    decreases n - k,
{
    if k < n {
        lemma_md_fold_err_stays(si, sf, tables, r, k, (n - 1) as nat);
    }
}

/// `gs` holds only zeros.
pub open spec fn sf_zero(gs: GranuleScaleFactors) -> bool {
    &&& gs.long_view() == Seq::new(21, |i: int| 0u8)
    &&& forall|w: int| 0 <= w < 3 ==> #[trigger] gs.short_view(w) == Seq::new(12, |i: int| 0u8)
}

/// `gs` holds the scalefactors of part `k`, decoded from the main data `r`.
pub open spec fn md_part_matches(
    gs: GranuleScaleFactors,
    si: MPEGSideInfo,
    sf: u32,
    tables: TableSet,
    r: Seq<bool>,
    k: int,
) -> bool {
    let (p, longs) = md_fold(si, sf, tables, r, k as nat).unwrap();
    let (gr, ch) = md_index(si, k);
    let g = si.granules[gr][ch];
    sf_filled(gs, g, si.scfsi[ch], md_prev(si, longs, k), r.skip(p), sf_slot_count(g) as int)
}

/// The scalefactors of the parts below `k` are in `sfs` at their granule
/// and channel, the others are zero; all spectral values are zero.
pub open spec fn md_filled(
    sfs: [[GranuleScaleFactors; 2]; 2],
    svs: [[GranuleSpectralValues; 2]; 2],
    si: MPEGSideInfo,
    sf: u32,
    tables: TableSet,
    r: Seq<bool>,
    k: int,
) -> bool {
    &&& forall|gr: int, ch: int|
        0 <= gr < 2 && 0 <= ch < 2 ==> if gr < si.ngr && ch < si.nch && gr * si.nch + ch < k {
            md_part_matches(#[trigger] sfs[gr][ch], si, sf, tables, r, gr * si.nch + ch)
        } else {
            sf_zero(sfs[gr][ch])
        }
    &&& forall|gr: int, ch: int|
        0 <= gr < 2 && 0 <= ch < 2 ==> (#[trigger] svs[gr][ch]).values() == if gr < si.ngr && ch
            < si.nch && gr * si.nch + ch < k {
            md_values(si, sf, tables, r, gr * si.nch + ch)
        } else {
            Seq::new(576, |i: int| 0i16)
        }
}

/// The spectral values of part `k`, decoded from the main data `r`.
pub open spec fn md_values(
    si: MPEGSideInfo,
    sf: u32,
    tables: TableSet,
    r: Seq<bool>,
    k: int,
) -> Seq<i16> {
    let (p, longs) = md_fold(si, sf, tables, r, k as nat).unwrap();
    let (gr, ch) = md_index(si, k);
    let g = si.granules[gr][ch];
    let used = sf_offset(g, si.scfsi[ch], md_prev(si, longs, k) is Some, sf_slot_count(g));
    Seq::new(
        576,
        |l: int|
            line_value(
                sf,
                g,
                tables,
                r.skip(p + used),
                (g.part2_3_length - used) as nat,
                l as nat,
            ),
    )
}

/// The bits that parts `0..k` of the main data occupy: the sum of their `part2_3_length`.
pub open spec fn md_bits(si: MPEGSideInfo, k: nat) -> nat
    decreases k,
{
    if k == 0 {
        0
    } else {
        let (gr, ch) = md_index(si, k - 1);
        md_bits(si, (k - 1) as nat) + si.granules[gr][ch].part2_3_length as nat
    }
}

/// Each decoded part moves the main data on by its `part2_3_length` bits.
proof fn lemma_md_fold_offset(si: MPEGSideInfo, sf: u32, tables: TableSet, r: Seq<bool>, k: nat)
    requires
        md_fold(si, sf, tables, r, k) is Ok,
    ensures
        md_fold(si, sf, tables, r, k).unwrap().0 == md_bits(si, k),
    decreases k,
{
    if k > 0 {
        lemma_md_fold_offset(si, sf, tables, r, (k - 1) as nat);
        reveal(md_step);
    }
}

/// The side information can be walked without leaving its arrays.
pub open spec fn md_side_info_ok(si: MPEGSideInfo) -> bool {
    &&& si.ngr <= 2
    &&& si.nch <= 2
}

proof fn lemma_md_filled_step(
    sfs0: [[GranuleScaleFactors; 2]; 2],
    svs0: [[GranuleSpectralValues; 2]; 2],
    sfs1: [[GranuleScaleFactors; 2]; 2],
    svs1: [[GranuleSpectralValues; 2]; 2],
    si: MPEGSideInfo,
    sf: u32,
    tables: TableSet,
    r: Seq<bool>,
    k: int,
    gr: int,
    ch: int,
)
    requires
        md_filled(sfs0, svs0, si, sf, tables, r, k),
        0 <= gr < si.ngr,
        0 <= ch < si.nch,
        si.ngr <= 2,
        si.nch <= 2,
        k == gr * si.nch + ch,
        md_part_matches(sfs1[gr][ch], si, sf, tables, r, k),
        forall|g2: int, c2: int|
            0 <= g2 < 2 && 0 <= c2 < 2 && (g2 != gr || c2 != ch) ==> #[trigger] sfs1[g2][c2]
                == sfs0[g2][c2],
        svs1[gr][ch].values() == md_values(si, sf, tables, r, k),
        forall|g2: int, c2: int|
            0 <= g2 < 2 && 0 <= c2 < 2 && (g2 != gr || c2 != ch) ==> #[trigger] svs1[g2][c2]
                == svs0[g2][c2],
    ensures
        md_filled(sfs1, svs1, si, sf, tables, r, k + 1),
{
    assert forall|g2: int, c2: int| 0 <= g2 < 2 && 0 <= c2 < 2 implies (#[trigger] svs1[g2][c2]).values()
        == if g2 < si.ngr && c2 < si.nch && g2 * si.nch + c2 < k + 1 {
        md_values(si, sf, tables, r, g2 * si.nch + c2)
    } else {
        Seq::new(576, |i: int| 0i16)
    } by {
        if g2 != gr || c2 != ch {
            assert(svs1[g2][c2] == svs0[g2][c2]);
            if g2 < si.ngr && c2 < si.nch {
                assert(g2 * si.nch + c2 != k) by (nonlinear_arith)
                    requires
                        k == gr * si.nch + ch,
                        0 <= ch < si.nch,
                        0 <= c2 < si.nch,
                        g2 != gr || c2 != ch,
                ;
            }
        }
    }
    assert forall|g2: int, c2: int| 0 <= g2 < 2 && 0 <= c2 < 2 implies if g2 < si.ngr && c2 < si.nch
        && g2 * si.nch + c2 < k + 1 {
        md_part_matches(
            #[trigger] sfs1[g2][c2],
            si,
            sf,
            tables,
            r,
            g2 * si.nch + c2,
        )
    } else {
        sf_zero(sfs1[g2][c2])
    } by {
        if g2 == gr && c2 == ch {
        } else {
            assert(sfs1[g2][c2] == sfs0[g2][c2]);
            if g2 < si.ngr && c2 < si.nch {
                assert(g2 * si.nch + c2 != k) by (nonlinear_arith)
                    requires
                        k == gr * si.nch + ch,
                        0 <= ch < si.nch,
                        0 <= c2 < si.nch,
                        g2 != gr || c2 != ch,
                ;
            }
        }
    }
}

/// In decoded main data, granule 1 of a channel coded with long blocks has
/// granule 0's scalefactor for every long band whose selection flag is set.
pub proof fn law_shared_scalefactors_reused(
    sfs: [[GranuleScaleFactors; 2]; 2],
    svs: [[GranuleSpectralValues; 2]; 2],
    si: MPEGSideInfo,
    sf: u32,
    tables: TableSet,
    r: Seq<bool>,
    ch: int,
    i: int,
)
    requires
        md_filled(sfs, svs, si, sf, tables, r, (si.ngr * si.nch) as int),
        md_fold(si, sf, tables, r, (si.ngr * si.nch) as nat) is Ok,
        si.ngr == 2,
        0 <= ch < si.nch,
        si.nch <= 2,
        0 <= i < 21,
        !sf_mixed(si.granules[1][ch]),
        !sf_short(si.granules[1][ch]),
        scfsi_shared(si.scfsi[ch], i),
    ensures
        sfs[1][ch].long_view()[i] == sfs[0][ch].long_view()[i],
{
    let kk = (si.ngr * si.nch) as nat;
    let k1 = si.nch + ch;
    assert(kk == 2 * si.nch);
    assert(1 * si.nch + ch == k1);
    assert(0 * si.nch + ch == ch);
    assert(md_part_matches(sfs[1][ch], si, sf, tables, r, k1));
    assert(md_part_matches(sfs[0][ch], si, sf, tables, r, ch));
    lemma_md_fold_long_at(si, sf, tables, r, kk, k1 as nat);
    lemma_md_fold_long_at(si, sf, tables, r, kk, (ch + 1) as nat);
    lemma_md_fold_long_at(si, sf, tables, r, k1 as nat, ch as nat);
    lemma_md_entry_value(si, sf, tables, r, ch as nat);
    assert(k1 / si.nch as int == 1 && k1 % si.nch as int == ch) by (nonlinear_arith)
        requires
            0 <= ch < si.nch,
            k1 == si.nch + ch,
    ;
    assert(ch / si.nch as int == 0 && ch % si.nch as int == ch) by (nonlinear_arith)
        requires
            0 <= ch < si.nch,
    ;
}

/// The number of bits that the scalefactors of a granule take from the
/// stream: the widths of the scalefactors it reads, not of those it takes over.
fn scale_factor_bits(has_prev: bool, scfsi: &SCFSI, grsi: &Granule) -> (r: usize)
    ensures
        r == sf_offset(*grsi, *scfsi, has_prev, sf_slot_count(*grsi)),
{
    let ghost g = *grsi;
    let mixed = grsi.window_switching_flag && grsi.block_type == BlockType::Short
        && grsi.mixed_block_flag;
    let short = grsi.window_switching_flag && grsi.block_type == BlockType::Short
        && !grsi.mixed_block_flag;
    let n: usize = if mixed {
        35
    } else if short {
        36
    } else {
        21
    };
    let mut total: usize = 0;
    let mut k: usize = 0;
    while k < n
        invariant
            g == *grsi,
            mixed == sf_mixed(g),
            short == sf_short(g),
            n == sf_slot_count(g),
            k <= n,
            n <= 36,
            total == sf_offset(g, *scfsi, has_prev, k as nat),
            total <= 255 * k,
        decreases n - k,
    {
        let long: bool = mixed && k < 8 || !mixed && !short;
        let b: usize = if mixed {
            if k < 8 {
                k
            } else {
                3 + (k - 8) / 3
            }
        } else if short {
            k / 3
        } else {
            k
        };
        let copied = !mixed && !short && has_prev && scfsi.is_shared_long_band(k);
        let bits: usize = if copied {
            0
        } else if long {
            long_group_bits(grsi.slen1, grsi.slen2, b)
        } else {
            short_group_bits(grsi.slen1, grsi.slen2, b)
        };
        proof {
            assert(sf_slot(g, k as int).0 == long && sf_slot(g, k as int).2 == b);
            assert(sf_copied(g, *scfsi, has_prev, k as int) == copied);
        }
        total = total + bits;
        k = k + 1;
    }
    total
}

/// Decodes part `k` (granule `gr`, channel `ch`) of the main data, the parts
/// before it having left the reader `p` bits past `start` and recorded `longs`.
fn decode_part<const BUF_SIZE: usize>(
    header: &MPEGHeader,
    side_info: &MPEGSideInfo,
    biter: &mut Biter<BUF_SIZE>,
    tables: &HuffmanTables,
    prev: Option<GranuleScaleFactors>,
    gr: usize,
    ch: usize,
    Ghost(start): Ghost<Biter<BUF_SIZE>>,
    Ghost(p): Ghost<int>,
    Ghost(longs): Ghost<Seq<Seq<u8>>>,
) -> (r: Result<(GranuleScaleFactors, GranuleSpectralValues), DecodeMainDataError>)
    requires
        old(biter).wf(),
        p >= 0,
        start.advanced(*old(biter), p as nat),
        frequency_index(header.sampling_frequency) is Some,
        md_side_info_ok(*side_info),
        tables_usable(tables@),
        gr < side_info.ngr,
        ch < side_info.nch,
        md_fold(
            *side_info,
            header.sampling_frequency,
            tables@,
            start.remaining(),
            (gr * side_info.nch + ch) as nat,
        ) == Ok::<(int, Seq<Seq<u8>>), DecodeMainDataError>((p, longs)),
        prev_longs(prev) == md_prev(*side_info, longs, gr * side_info.nch + ch),
    ensures
        final(biter).wf(),
        final(biter).reader().data() == old(biter).reader().data(),
        ({
            let si = *side_info;
            let sf = header.sampling_frequency;
            let rem = start.remaining();
            let k = gr * si.nch + ch;
            let out = md_fold(si, sf, tables@, rem, (k + 1) as nat);
            &&& r is Ok <==> out is Ok
            &&& out matches Err(e) ==> r == Err::<
                (GranuleScaleFactors, GranuleSpectralValues),
                DecodeMainDataError,
            >(e)
            &&& r matches Ok((sfs, svs)) ==> {
                &&& out.unwrap().0 >= 0
                &&& start.advanced(*final(biter), out.unwrap().0 as nat)
                &&& md_part_matches(sfs, si, sf, tables@, rem, k)
                &&& svs.values() == md_values(si, sf, tables@, rem, k)
            }
        }),
{
    let ghost si = *side_info;
    let ghost sf = header.sampling_frequency;
    let ghost rem = start.remaining();
    let ghost k = gr * si.nch + ch;
    let ghost g = si.granules[gr as int][ch as int];
    let ghost s = si.scfsi[ch as int];
    let ghost prevl = md_prev(si, longs, k);
    let ghost n = sf_slot_count(g);
    proof {
        assert(k / si.nch as int == gr && k % si.nch as int == ch) by (nonlinear_arith)
            requires
                k == gr * si.nch + ch,
                ch < si.nch,
        ;
        reveal(md_step);
    }
    let ghost before_sf = *biter;
    let sfs = match decode_scale_factors(
        prev,
        &side_info.scfsi[ch],
        &side_info.granules[gr][ch],
        biter,
    ) {
        Ok(v) => v,
        Err(e) => {
            return Err(e);
        },
    };
    let ghost p1 = p + sf_offset(g, s, prevl is Some, n);
    proof {
        Biter::<BUF_SIZE>::lemma_advanced_trans(
            start,
            before_sf,
            *biter,
            p as nat,
            sf_offset(g, s, prevl is Some, n),
        );
    }
    let scalefac_bits = scale_factor_bits(prev.is_some(), &side_info.scfsi[ch], &side_info.granules[gr][ch]);
    let part2_3_length = side_info.granules[gr][ch].part2_3_length as usize;
    if scalefac_bits > part2_3_length {
        return Err(DecodeMainDataError::Part23Overread);
    }
    let huffman_bits = part2_3_length - scalefac_bits;
    let ghost before_h = *biter;
    let svs = match decode_huffman_bits(
        header,
        &side_info.granules[gr][ch],
        huffman_bits,
        tables,
        biter,
    ) {
        Ok(v) => v,
        Err(e) => {
            return Err(e);
        },
    };
    proof {
        Biter::<BUF_SIZE>::lemma_advanced_trans(start, before_h, *biter, p1 as nat, huffman_bits as nat);
        assert(before_h.remaining() == rem.skip(p1));
    }
    Ok((sfs, svs))
}

/// Decodes the main data of a frame: for each granule and channel in order,
/// the scalefactors, then the Huffman coded part, which gets the bits of
/// `part2_3_length` that the scalefactors left. Each granule and channel
/// takes exactly its `part2_3_length` bits.
pub fn decode_main_data<const BUF_SIZE: usize>(
    header: &MPEGHeader,
    side_info: &MPEGSideInfo,
    biter: &mut Biter<BUF_SIZE>,
    main_data_size_bits: usize,
    tables: &HuffmanTables,
) -> (r: Result<MainData, DecodeMainDataError>)
    requires
        old(biter).wf(),
        frequency_index(header.sampling_frequency) is Some,
        md_side_info_ok(*side_info),
        tables_usable(tables@),
    ensures
        final(biter).wf(),
        final(biter).reader().data() == old(biter).reader().data(),
        ({
            let si = *side_info;
            let sf = header.sampling_frequency;
            let rem = old(biter).remaining();
            let out = md_fold(si, sf, tables@, rem, (si.ngr * si.nch) as nat);
            &&& r is Ok <==> out is Ok
            &&& out matches Err(e) ==> r == Err::<MainData, DecodeMainDataError>(e)
            &&& r matches Ok(md) ==> md_filled(
                md.scale_factors,
                md.spectral_values,
                si,
                sf,
                tables@,
                rem,
                (si.ngr * si.nch) as int,
            ) && old(biter).advanced(*final(biter), md_bits(si, (si.ngr * si.nch) as nat))
        }),
{
    let ghost start = *old(biter);
    let ghost rem = start.remaining();
    let ghost si = *side_info;
    let ghost sf = header.sampling_frequency;
    let ghost kk: nat = (si.ngr * si.nch) as nat;
    let mut scale_factors = [[GranuleScaleFactors::default(), GranuleScaleFactors::default()], [
        GranuleScaleFactors::default(),
        GranuleScaleFactors::default(),
    ]];
    let mut spectral_values = [[GranuleSpectralValues::default(), GranuleSpectralValues::default()], [
        GranuleSpectralValues::default(),
        GranuleSpectralValues::default(),
    ]];
    let ghost mut k: int = 0;
    let ghost mut p: int = 0;
    let ghost mut longs: Seq<Seq<u8>> = Seq::empty();
    proof {
        start.lemma_advanced_none();
        assert forall|gr: int, ch: int| 0 <= gr < 2 && 0 <= ch < 2 implies sf_zero(
            #[trigger] scale_factors[gr][ch],
        ) by {}
        assert(md_filled(scale_factors, spectral_values, si, sf, tables@, rem, 0));
    }
    let mut gr: usize = 0;
    while gr < side_info.ngr
        invariant
            biter.wf(),
            biter.reader().data() == old(biter).reader().data(),
            start == *old(biter),
            rem == start.remaining(),
            si == *side_info,
            sf == header.sampling_frequency,
            kk == si.ngr * si.nch,
            frequency_index(sf) is Some,
            md_side_info_ok(si),
            tables_usable(tables@),
            gr <= si.ngr,
            k == gr * si.nch,
            p >= 0,
            md_fold(si, sf, tables@, rem, k as nat) == Ok::<
                (int, Seq<Seq<u8>>),
                DecodeMainDataError,
            >((p, longs)),
            start.advanced(*biter, p as nat),
            md_filled(scale_factors, spectral_values, si, sf, tables@, rem, k),
        decreases si.ngr - gr,
    {
        let mut ch: usize = 0;
        while ch < side_info.nch
            invariant
                biter.wf(),
                biter.reader().data() == old(biter).reader().data(),
                start == *old(biter),
                rem == start.remaining(),
                si == *side_info,
                sf == header.sampling_frequency,
                kk == si.ngr * si.nch,
                frequency_index(sf) is Some,
                md_side_info_ok(si),
                tables_usable(tables@),
                gr < si.ngr,
                ch <= si.nch,
                k == gr * si.nch + ch,
                p >= 0,
                md_fold(si, sf, tables@, rem, k as nat) == Ok::<
                    (int, Seq<Seq<u8>>),
                    DecodeMainDataError,
                >((p, longs)),
                start.advanced(*biter, p as nat),
                md_filled(scale_factors, spectral_values, si, sf, tables@, rem, k),
            decreases si.nch - ch,
        {
            let ghost g = si.granules[gr as int][ch as int];
            let ghost s = si.scfsi[ch as int];
            let ghost prevl = md_prev(si, longs, k);
            let ghost n = sf_slot_count(g);
            proof {
                assert(k / si.nch as int == gr && k % si.nch as int == ch) by (nonlinear_arith)
                    requires
                        k == gr * si.nch + ch,
                        ch < si.nch,
                ;
                assert(k < kk) by (nonlinear_arith)
                    requires
                        k == gr * si.nch + ch,
                        ch < si.nch,
                        gr < si.ngr,
                        kk == si.ngr * si.nch,
                ;
            }
            let prev = if gr == 1 {
                Some(scale_factors[0][ch])
            } else {
                None
            };
            proof {
                if gr == 1 {
                    assert(k == si.nch + ch);
                    lemma_prev_matches(
                        scale_factors,
                        spectral_values,
                        si,
                        sf,
                        tables@,
                        rem,
                        k,
                        ch as int,
                        p,
                        longs,
                    );
                }
                assert(prev_longs(prev) == prevl);
            }
            let (sfs, svs) = match decode_part(
                header,
                side_info,
                biter,
                tables,
                prev,
                gr,
                ch,
                Ghost(start),
                Ghost(p),
                Ghost(longs),
            ) {
                Ok(v) => v,
                Err(e) => {
                    proof {
                        lemma_md_fold_err_stays(si, sf, tables@, rem, (k + 1) as nat, kk);
                    }
                    return Err(e);
                },
            };
            let ghost sf_old = scale_factors;
            scale_factors[gr][ch] = sfs;
            let ghost sv_old = spectral_values;
            spectral_values[gr][ch] = svs;
            proof {
                assert(md_part_matches(scale_factors[gr as int][ch as int], si, sf, tables@, rem, k));
                assert forall|g2: int, c2: int|
                    0 <= g2 < 2 && 0 <= c2 < 2 && (g2 != gr || c2 != ch) implies #[trigger] scale_factors[g2][c2]
                        == sf_old[g2][c2] by {}
                assert forall|g2: int, c2: int|
                    0 <= g2 < 2 && 0 <= c2 < 2 && (g2 != gr || c2 != ch) implies #[trigger] spectral_values[g2][c2]
                        == sv_old[g2][c2] by {}
                lemma_md_filled_step(
                    sf_old,
                    sv_old,
                    scale_factors,
                    spectral_values,
                    si,
                    sf,
                    tables@,
                    rem,
                    k,
                    gr as int,
                    ch as int,
                );
                let (p2, l2) = md_fold(si, sf, tables@, rem, (k + 1) as nat).unwrap();
                p = p2;
                longs = l2;
                k = k + 1;
            }
            ch = ch + 1;
        }
        proof {
            assert(k == (gr + 1) * si.nch) by (nonlinear_arith)
                requires
                    k == gr * si.nch + si.nch,
            ;
        }
        gr = gr + 1;
    }
    proof {
        lemma_md_fold_offset(si, sf, tables@, rem, kk);
    }
    Ok(MainData { scale_factors, spectral_values })
}

} // verus!
