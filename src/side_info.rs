//! Parsing of the side information that follows the frame header.
use crate::bits::{bits_value, BitReader};
use crate::error::{invalid, Error, ErrorKind};
use crate::types::{spec_side_data_len, BlockType, Channels, FrameHeader, MpegVersion};
use vstd::prelude::*;

verus! {

/// Side information of one granule of one channel.
#[derive(Debug, Clone, Copy)]
pub struct GranuleChannelSideInfo {
    /// Number of bits of scale factors and Huffman data.
    pub part2_3_length: u16,
    /// Number of value pairs in the big-values region (at most 288).
    pub big_values: u16,
    pub global_gain: u8,
    pub scalefac_compress: u16,
    pub block_type: BlockType,
    pub mixed_block: bool,
    /// Gain offsets of the three short windows.
    pub subblock_gain: [u8; 3],
    /// Huffman tables of the three big-values regions.
    pub table_select: [u8; 3],
    pub region0_count: u8,
    pub region1_count: u8,
    pub preflag: bool,
    pub scalefac_scale: bool,
    pub count1table_select: bool,
}

/// Side information of one granule.
#[derive(Debug, Clone, Copy)]
pub struct GranuleSideInfo {
    pub channels: [GranuleChannelSideInfo; 2],
}

/// Side information of one frame.
#[derive(Debug, Clone, Copy)]
pub struct SideInfo {
    /// Back-pointer, in bytes, into the reservoir where this frame's main data begins.
    pub main_data_begin: u16,
    /// Scale factor selection information, per channel and band.
    pub scfsi: [[bool; 4]; 2],
    pub granules: [GranuleSideInfo; 2],
}

/// The record of a channel that the frame does not carry.
pub open spec fn empty_channel_side_info() -> GranuleChannelSideInfo {
    GranuleChannelSideInfo {
        part2_3_length: 0,
        big_values: 0,
        global_gain: 0,
        scalefac_compress: 0,
        block_type: BlockType::Long,
        mixed_block: false,
        subblock_gain: [0u8, 0u8, 0u8],
        table_select: [0u8, 0u8, 0u8],
        region0_count: 0,
        region1_count: 0,
        preflag: false,
        scalefac_scale: false,
        count1table_select: false,
    }
}

/// The bits of one granule-channel record: 59 for MPEG-1, 63 otherwise.
pub open spec fn record_bits(mpeg1: bool) -> nat {
    if mpeg1 { 59 } else { 63 }
}

/// The block type that the 2-bit code of a window-switching granule names,
/// with the mixed flag; code 0 is forbidden.
pub open spec fn block_type_of_code(code: nat, mixed: bool) -> BlockType {
    if code == 1 {
        BlockType::Start
    } else if code == 2 {
        if mixed { BlockType::Mixed } else { BlockType::Short }
    } else {
        BlockType::End
    }
}

/// The granule-channel record whose first bit is bit `p` of `s`.
/// A big_values field above 288 and the block type code 0 are faults.
pub open spec fn channel_side_info_of(s: Seq<u8>, p: int, mpeg1: bool) -> Result<GranuleChannelSideInfo, ErrorKind> {
    let sfc_len: nat = if mpeg1 { 4 } else { 9 };
    let big_values = bits_value(s, p + 12, 9);
    let scalefac_compress = bits_value(s, p + 29, sfc_len);
    let q = p + 29 + sfc_len;
    let window_switching = bits_value(s, q, 1) == 1;
    let code = bits_value(s, q + 1, 2);
    let t = q + 23;
    let tail = if mpeg1 { t + 1 } else { t };
    if big_values > 288 {
        Err(ErrorKind::InvalidData)
    } else if window_switching && code == 0 {
        Err(ErrorKind::InvalidData)
    } else {
        let block_type = if window_switching {
            block_type_of_code(code, bits_value(s, q + 3, 1) == 1)
        } else {
            BlockType::Long
        };
        let region0: nat = if !window_switching {
            bits_value(s, q + 16, 4)
        } else if block_type == BlockType::Short {
            8
        } else {
            7
        };
        Ok(GranuleChannelSideInfo {
            part2_3_length: bits_value(s, p, 12) as u16,
            big_values: big_values as u16,
            global_gain: bits_value(s, p + 21, 8) as u8,
            scalefac_compress: scalefac_compress as u16,
            block_type,
            mixed_block: window_switching && bits_value(s, q + 3, 1) == 1,
            subblock_gain: if window_switching {
                [bits_value(s, q + 14, 3) as u8, bits_value(s, q + 17, 3) as u8, bits_value(s, q + 20, 3) as u8]
            } else {
                [0u8, 0u8, 0u8]
            },
            table_select: if window_switching {
                [bits_value(s, q + 4, 5) as u8, bits_value(s, q + 9, 5) as u8, 0u8]
            } else {
                [bits_value(s, q + 1, 5) as u8, bits_value(s, q + 6, 5) as u8, bits_value(s, q + 11, 5) as u8]
            },
            region0_count: region0 as u8,
            region1_count: if window_switching { (20 - region0) as u8 } else { bits_value(s, q + 20, 3) as u8 },
            preflag: if mpeg1 { bits_value(s, t, 1) == 1 } else { scalefac_compress >= 500 },
            scalefac_scale: bits_value(s, tail, 1) == 1,
            count1table_select: bits_value(s, tail + 1, 1) == 1,
        })
    }
}

/// The bit at which the first granule-channel record starts: after
/// main_data_begin, the private bits and, for MPEG-1, the SCFSI bits.
pub open spec fn records_start(h: FrameHeader) -> int {
    let mono = h.channels == Channels::Mono;
    if h.version == MpegVersion::Mpeg1 {
        if mono { 18 } else { 20 }
    } else {
        if mono { 9 } else { 10 }
    }
}

/// The bit at which the record of granule `g`, channel `c` starts.
pub open spec fn record_start(h: FrameHeader, g: int, c: int) -> int {
    records_start(h) + (g * h.channels.spec_num_channels() + c) * record_bits(h.version == MpegVersion::Mpeg1)
}

pub open spec fn record_of(s: Seq<u8>, h: FrameHeader, g: int, c: int) -> Result<GranuleChannelSideInfo, ErrorKind> {
    channel_side_info_of(s, record_start(h, g, c), h.version == MpegVersion::Mpeg1)
}

/// Every record that the frame carries is free of faults.
pub open spec fn side_info_ok(s: Seq<u8>, h: FrameHeader) -> bool {
    forall|g: int, c: int|
        0 <= g < h.spec_num_granules() && 0 <= c < h.channels.spec_num_channels()
            ==> (#[trigger] record_of(s, h, g, c)) is Ok
}

/// `info` is what the side information bytes `s` of a frame with header `h` hold:
/// main_data_begin (9 bits for MPEG-1, else 8), the SCFSI bits of MPEG-1, and
/// one record per granule and channel; what the frame does not carry is empty.
pub open spec fn side_info_matches(s: Seq<u8>, h: FrameHeader, info: SideInfo) -> bool {
    let mpeg1 = h.version == MpegVersion::Mpeg1;
    let nch = h.channels.spec_num_channels();
    let scfsi_start: int = if h.channels == Channels::Mono { 14 } else { 12 };
    &&& info.main_data_begin == bits_value(s, 0, if mpeg1 { 9 } else { 8 })
    &&& forall|c: int, b: int| 0 <= c < 2 && 0 <= b < 4 ==>
        #[trigger] info.scfsi[c][b] == (mpeg1 && c < nch && bits_value(s, scfsi_start + 4 * c + b, 1) == 1)
    &&& forall|g: int, c: int| 0 <= g < 2 && 0 <= c < 2 ==>
        #[trigger] info.granules[g].channels[c] == if g < h.spec_num_granules() && c < nch {
            record_of(s, h, g, c)->Ok_0
        } else {
            empty_channel_side_info()
        }
}

/// Reads `n` bits that the buffer is known to hold.
fn take(r: &mut BitReader, n: u32) -> (v: u32)
    requires
        old(r).wf(),
        n <= 32,
        old(r).pos + n <= old(r).bit_len(),
    ensures
        final(r).data@ == old(r).data@,
        final(r).wf(),
        final(r).pos == old(r).pos + n,
        v == bits_value(old(r).data@, old(r).pos as int, n as nat),
{
    match r.read(n) {
        Ok(v) => v,
        Err(_) => 0,
    }
}

fn empty_channel() -> (r: GranuleChannelSideInfo)
    ensures
        r == empty_channel_side_info(),
{
    GranuleChannelSideInfo {
        part2_3_length: 0,
        big_values: 0,
        global_gain: 0,
        scalefac_compress: 0,
        block_type: BlockType::Long,
        mixed_block: false,
        subblock_gain: [0u8, 0u8, 0u8],
        table_select: [0u8, 0u8, 0u8],
        region0_count: 0,
        region1_count: 0,
        preflag: false,
        scalefac_scale: false,
        count1table_select: false,
    }
}

/// Reads one granule-channel record at the reader's position.
#[verifier::rlimit(30)]
fn read_granule_channel_side_info(r: &mut BitReader, mpeg1: bool) -> (res: Result<GranuleChannelSideInfo, Error>)
    requires
        old(r).wf(),
        old(r).pos + record_bits(mpeg1) <= old(r).bit_len(),
    ensures
        final(r).data@ == old(r).data@,
        final(r).wf(),
        match res {
            Ok(info) => {
                &&& channel_side_info_of(old(r).data@, old(r).pos as int, mpeg1) == Ok::<GranuleChannelSideInfo, ErrorKind>(info)
                &&& final(r).pos == old(r).pos + record_bits(mpeg1)
            },
            Err(e) => {
                &&& channel_side_info_of(old(r).data@, old(r).pos as int, mpeg1) is Err
                &&& e.kind() == ErrorKind::InvalidData
            },
        },
{
    let ghost s = r.data@;
    let ghost p = r.pos as int;
    let part2_3_length = take(r, 12);
    let big_values = take(r, 9);
    if big_values > 288 {
        return Err(invalid("big_values > 288"));
    }
    let global_gain = take(r, 8);
    let sfc_len: u32 = if mpeg1 { 4 } else { 9 };
    let scalefac_compress = take(r, sfc_len);
    let window_switching = take(r, 1) == 1;
    proof {
        vstd::arithmetic::power2::lemma2_to64();
        crate::bits::lemma_bits_bound(s, p, 12);
        crate::bits::lemma_bits_bound(s, p + 21, 8);
        crate::bits::lemma_bits_bound(s, p + 29, sfc_len as nat);
    }
    let block_type;
    let mixed_block;
    let subblock_gain;
    let table_select;
    let region0_count: u8;
    let region1_count: u8;
    if window_switching {
        let code = take(r, 2);
        let mixed = take(r, 1) == 1;
        let t0 = take(r, 5);
        let t1 = take(r, 5);
        let g0 = take(r, 3);
        let g1 = take(r, 3);
        let g2 = take(r, 3);
        if code == 0 {
            return Err(invalid("Forbidden block type"));
        }
        block_type = if code == 1 {
            BlockType::Start
        } else if code == 2 {
            if mixed { BlockType::Mixed } else { BlockType::Short }
        } else {
            BlockType::End
        };
        mixed_block = mixed;
        proof {
            let q = p + 29 + sfc_len;
            crate::bits::lemma_bits_bound(s, q + 4, 5);
            crate::bits::lemma_bits_bound(s, q + 9, 5);
            crate::bits::lemma_bits_bound(s, q + 14, 3);
            crate::bits::lemma_bits_bound(s, q + 17, 3);
            crate::bits::lemma_bits_bound(s, q + 20, 3);
        }
        subblock_gain = [g0 as u8, g1 as u8, g2 as u8];
        table_select = [t0 as u8, t1 as u8, 0u8];
        region0_count = if block_type == BlockType::Short { 8 } else { 7 };
        region1_count = 20 - region0_count;
    } else {
        let t0 = take(r, 5);
        let t1 = take(r, 5);
        let t2 = take(r, 5);
        let c0 = take(r, 4);
        let c1 = take(r, 3);
        proof {
            let q = p + 29 + sfc_len;
            crate::bits::lemma_bits_bound(s, q + 1, 5);
            crate::bits::lemma_bits_bound(s, q + 6, 5);
            crate::bits::lemma_bits_bound(s, q + 11, 5);
            crate::bits::lemma_bits_bound(s, q + 16, 4);
            crate::bits::lemma_bits_bound(s, q + 20, 3);
        }
        block_type = BlockType::Long;
        mixed_block = false;
        subblock_gain = [0u8, 0u8, 0u8];
        table_select = [t0 as u8, t1 as u8, t2 as u8];
        region0_count = c0 as u8;
        region1_count = c1 as u8;
    }
    let preflag = if mpeg1 { take(r, 1) == 1 } else { scalefac_compress >= 500 };
    let scalefac_scale = take(r, 1) == 1;
    let count1table_select = take(r, 1) == 1;
    let info = GranuleChannelSideInfo {
        part2_3_length: part2_3_length as u16,
        big_values: big_values as u16,
        global_gain: global_gain as u8,
        scalefac_compress: scalefac_compress as u16,
        block_type,
        mixed_block,
        subblock_gain,
        table_select,
        region0_count,
        region1_count,
        preflag,
        scalefac_scale,
        count1table_select,
    };
    proof {
        assert(info == channel_side_info_of(s, p, mpeg1)->Ok_0);
    }
    Ok(info)
}

/// Reads the record of granule `g`, channel `c`, or gives the empty record
/// where the frame does not carry one.
fn read_record(data: &[u8], h: &FrameHeader, g: usize, c: usize) -> (res: Result<GranuleChannelSideInfo, Error>)
    requires
        data@.len() == spec_side_data_len(h.version, h.channels),
        g < 2,
        c < 2,
    ensures
        match res {
            Ok(info) => if g < h.spec_num_granules() && c < h.channels.spec_num_channels() {
                record_of(data@, *h, g as int, c as int) == Ok::<GranuleChannelSideInfo, ErrorKind>(info)
            } else {
                info == empty_channel_side_info()
            },
            Err(e) => {
                &&& g < h.spec_num_granules() && c < h.channels.spec_num_channels()
                &&& record_of(data@, *h, g as int, c as int) is Err
                &&& e.kind() == ErrorKind::InvalidData
            },
        },
{
    let nch = h.channels.num_channels();
    if g >= h.num_granules() || c >= nch {
        return Ok(empty_channel());
    }
    let mpeg1 = h.version == MpegVersion::Mpeg1;
    let start: usize = if mpeg1 {
        if h.channels == Channels::Mono { 18 } else { 20 }
    } else {
        if h.channels == Channels::Mono { 9 } else { 10 }
    };
    let len: usize = if mpeg1 { 59 } else { 63 };
    let mut r = BitReader::new(data);
    r.pos = start + (g * nch + c) * len;
    assert(r.pos == record_start(*h, g as int, c as int)) by (nonlinear_arith)
        requires
            r.pos == start + (g * nch + c) * len,
            start == records_start(*h),
            len == record_bits(mpeg1),
            nch == h.channels.spec_num_channels(),
            mpeg1 == (h.version == MpegVersion::Mpeg1),
    ;
    read_granule_channel_side_info(&mut r, mpeg1)
}

/// Reads the SCFSI bits of an MPEG-1 frame; other frames have none.
fn read_scfsi(data: &[u8], h: &FrameHeader) -> (r: [[bool; 4]; 2])
    requires
        data@.len() == spec_side_data_len(h.version, h.channels),
    ensures
        forall|c: int, b: int| 0 <= c < 2 && 0 <= b < 4 ==> #[trigger] r[c][b] == (h.version == MpegVersion::Mpeg1
            && c < h.channels.spec_num_channels()
            && bits_value(data@, (if h.channels == Channels::Mono { 14int } else { 12 }) + 4 * c + b, 1) == 1),
{
    if h.version != MpegVersion::Mpeg1 {
        return [[false, false, false, false], [false, false, false, false]];
    }
    let mono = h.channels == Channels::Mono;
    let mut r = BitReader::new(data);
    r.pos = if mono { 14 } else { 12 };
    let a0 = take(&mut r, 1) == 1;
    let a1 = take(&mut r, 1) == 1;
    let a2 = take(&mut r, 1) == 1;
    let a3 = take(&mut r, 1) == 1;
    if mono {
        [[a0, a1, a2, a3], [false, false, false, false]]
    } else {
        let b0 = take(&mut r, 1) == 1;
        let b1 = take(&mut r, 1) == 1;
        let b2 = take(&mut r, 1) == 1;
        let b3 = take(&mut r, 1) == 1;
        [[a0, a1, a2, a3], [b0, b1, b2, b3]]
    }
}

/// Reads the side information of a frame with header `header` from the
/// bytes that follow the header. A big_values field above 288 or a
/// forbidden block type in any record is `InvalidData`.
pub fn read_side_info(data: &[u8], header: &FrameHeader) -> (res: Result<SideInfo, Error>)
    requires
        data@.len() == spec_side_data_len(header.version, header.channels),
    ensures
        match res {
            Ok(info) => side_info_ok(data@, *header) && side_info_matches(data@, *header, info),
            Err(e) => !side_info_ok(data@, *header) && e.kind() == ErrorKind::InvalidData,
        },
{
    let h = header;
    let mpeg1 = h.version == MpegVersion::Mpeg1;
    let mono = h.channels == Channels::Mono;
    let mut r = BitReader::new(data);
    let main_data_begin = take(&mut r, if mpeg1 { 9 } else { 8 });
    proof {
        vstd::arithmetic::power2::lemma2_to64();
        crate::bits::lemma_bits_bound(data@, 0, if mpeg1 { 9 } else { 8 });
    }
    let scfsi = read_scfsi(data, h);
    let c00 = read_record(data, h, 0, 0)?;
    let c01 = read_record(data, h, 0, 1)?;
    let c10 = read_record(data, h, 1, 0)?;
    let c11 = read_record(data, h, 1, 1)?;
    let info = SideInfo {
        main_data_begin: main_data_begin as u16,
        scfsi,
        granules: [GranuleSideInfo { channels: [c00, c01] }, GranuleSideInfo { channels: [c10, c11] }],
    };
    proof {
        assert forall|g: int, c: int|
            0 <= g < h.spec_num_granules() && 0 <= c < h.channels.spec_num_channels()
                implies (#[trigger] record_of(data@, *h, g, c)) is Ok by {
            if g == 0 && c == 0 {} else if g == 0 {} else if c == 0 {} else {}
        }
        assert forall|g: int, c: int| 0 <= g < 2 && 0 <= c < 2 implies
            #[trigger] info.granules[g].channels[c] == if g < h.spec_num_granules() && c < h.channels.spec_num_channels() {
                record_of(data@, *h, g, c)->Ok_0
            } else {
                empty_channel_side_info()
            } by {
            if g == 0 && c == 0 {} else if g == 0 {} else if c == 0 {} else {}
        }
    }
    Ok(info)
}

} // verus!
