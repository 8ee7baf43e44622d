//! Frame-level decoding: locating frames, assembling main data through the
//! reservoir, and reading each granule's scale factors and spectrum.
use crate::bits::BitReader;
use crate::error::{end_of_stream, invalid, Error, ErrorKind};
use crate::header::{header_advance, header_fault_len, header_len_of, header_of, read_frame_header};
use crate::huffman::{read_huffman, spectrum_decodable, spectrum_read, tables_wf, HuffmanTable};
use crate::reservoir::{DecoderState, RESERVOIR_CAPACITY};
use crate::scalefactors::{
    lfs_bits, lfs_block, lfs_partition, lfs_scale_factors_read, lfs_widths, read_lfs_scale_factors, read_scale_factors,
    region_offset, scale_factors_read, short_block_bits,
};
use crate::tables::lfs_counts;
use crate::types::BlockType;
use crate::side_info::{read_side_info, side_info_matches, side_info_ok, GranuleChannelSideInfo, SideInfo};
use crate::types::{spec_side_data_len, FrameHeader, MainData, MainDataChannel, MainDataGranule, MpegVersion};
use vstd::prelude::*;

verus! {

/// Every channel that the frame carries ended its Huffman decode within the
/// granule with a zero tail.
pub open spec fn main_data_ok(h: FrameHeader, md: MainData) -> bool {
    forall|g: int, c: int| 0 <= g < 2 && 0 <= c < 2 ==> (#[trigger] md.granules[g].channels[c]).count1_ok()
}

/// The scale factors of `ch` are what granule `g`, channel `c` holds from bit
/// `start` of `s` on, and they end at bit `mid`.
pub open spec fn scale_factors_of_channel(s: Seq<u8>, h: FrameHeader, side: SideInfo, g: int, c: int, prev: Seq<u8>, start: usize, ch: MainDataChannel, mid: usize) -> bool {
    let info = side.granules[g].channels[c];
    if h.version == MpegVersion::Mpeg1 {
        scale_factors_read(s, start, info.block_type, info.scalefac_compress, side.scfsi[c]@, g as usize, prev, ch.scalefac_l@, ch.scalefac_s@, mid)
    } else {
        lfs_scale_factors_read(s, start, c == 1 && h.spec_is_intensity_stereo(), info.block_type, info.scalefac_compress, ch.scalefac_l@, ch.scalefac_s@, mid)
    }
}

/// `ch` is what granule `g`, channel `c` holds from bit `start` of `s` on,
/// ending at bit `end`: its scale factors, then its spectrum in the bits of
/// part2_3_length that the scale factors leave.
pub open spec fn channel_read(
    tables: Seq<HuffmanTable>,
    s: Seq<u8>,
    h: FrameHeader,
    side: SideInfo,
    g: int,
    c: int,
    prev: Seq<u8>,
    start: usize,
    ch: MainDataChannel,
    end: usize,
) -> bool {
    let info = side.granules[g].channels[c];
    exists|mid: usize| #[trigger] scale_factors_of_channel(s, h, side, g, c, prev, start, ch, mid)
        && start <= mid <= start + info.part2_3_length
        && spectrum_read(tables, s, mid, info, h.sample_rate_table, (info.part2_3_length - (mid - start)) as u32, ch.count1, ch.samples@, end)
}

/// `md` is the main data of a frame read from bit `start` of `s` on, ending
/// at bit `end`: granule by granule, channel by channel, each channel
/// starting where the one before ended (at `q1`, `q2`, `q3`); a later
/// granule's long scale factors may reuse the first granule's. Channels and
/// granules that the frame does not carry are silent.
pub open spec fn main_data_chain(
    tables: Seq<HuffmanTable>,
    s: Seq<u8>,
    h: FrameHeader,
    side: SideInfo,
    md: MainData,
    start: usize,
    q1: usize,
    q2: usize,
    q3: usize,
    end: usize,
) -> bool {
    let stereo = h.channels.spec_num_channels() == 2;
    let zeros = Seq::<u8>::new(22, |i: int| 0u8);
    let c00 = md.granules[0].channels[0];
    let c01 = md.granules[0].channels[1];
    let c10 = md.granules[1].channels[0];
    let c11 = md.granules[1].channels[1];
    &&& channel_read(tables, s, h, side, 0, 0, zeros, start, c00, q1)
    &&& if stereo { channel_read(tables, s, h, side, 0, 1, zeros, q1, c01, q2) } else { q2 == q1 && c01.is_silent() }
    &&& if h.spec_num_granules() == 2 {
        &&& channel_read(tables, s, h, side, 1, 0, c00.scalefac_l@, q2, c10, q3)
        &&& if stereo { channel_read(tables, s, h, side, 1, 1, c01.scalefac_l@, q3, c11, end) } else { end == q3 && c11.is_silent() }
    } else {
        &&& q3 == q2
        &&& end == q3
        &&& c10.is_silent()
        &&& c11.is_silent()
    }
}

/// The side-information fields of a record lie in the ranges that decoding
/// needs: scalefac_compress below 16 for MPEG-1 and below 512 otherwise,
/// big_values at most 288, and table selectors below 32.
pub open spec fn fields_ok(h: FrameHeader, info: GranuleChannelSideInfo) -> bool {
    &&& (h.version == MpegVersion::Mpeg1 ==> info.scalefac_compress < 16)
    &&& info.scalefac_compress < 512
    &&& info.big_values <= 288
    &&& info.table_select[0] < 32 && info.table_select[1] < 32 && info.table_select[2] < 32
}

/// The bits that the scale factors of granule `g`, channel `c` take.
pub open spec fn scale_factor_bits(h: FrameHeader, side: SideInfo, g: int, c: int) -> int {
    let info = side.granules[g].channels[c];
    let sfc = info.scalefac_compress as int;
    if h.version == MpegVersion::Mpeg1 {
        if info.block_type.is_short_or_mixed() {
            short_block_bits(sfc, info.block_type == BlockType::Mixed) as int
        } else {
            region_offset(sfc, 4, g, side.scfsi[c]@)
        }
    } else {
        let intensity = c == 1 && h.spec_is_intensity_stereo();
        lfs_bits(lfs_widths(sfc, intensity), lfs_counts(lfs_partition(sfc, intensity), lfs_block(info.block_type)))
    }
}

/// Granule `g`, channel `c` can be read from bit `start` of a buffer of
/// `bit_len` bits: its fields are in range, its scale factors lie within the
/// buffer and within part2_3_length, and its spectrum can be read in the bits
/// of part2_3_length that are left.
pub open spec fn channel_decodable(tables: Seq<HuffmanTable>, s: Seq<u8>, h: FrameHeader, side: SideInfo, g: int, c: int, start: usize, bit_len: int) -> bool {
    let info = side.granules[g].channels[c];
    let bits = scale_factor_bits(h, side, g, c);
    &&& fields_ok(h, info)
    &&& start + bits <= bit_len
    &&& bits <= info.part2_3_length
    &&& spectrum_decodable(tables, s, (start + bits) as usize, info, h.sample_rate_table, (info.part2_3_length - bits) as u32, bit_len)
}

/// Decodes the scale factors and spectrum of granule `g`, channel `c`.
/// `prev` holds the long scale factors of the same channel's first granule.
fn decode_channel(
    r: &mut BitReader,
    h: &FrameHeader,
    side: &SideInfo,
    g: usize,
    c: usize,
    prev: &[u8; 22],
    tables: &Vec<HuffmanTable>,
) -> (res: Result<MainDataChannel, Error>)
    requires
        old(r).wf(),
        h.wf(),
        g < 2,
        c < 2,
        tables_wf(tables@),
    ensures
        final(r).wf(),
        final(r).data@ == old(r).data@,
        match res {
            Ok(ch) => ch.count1_ok() && channel_read(tables@, old(r).data@, *h, *side, g as int, c as int, prev@, old(r).pos, ch, final(r).pos),
            Err(e) => e.kind() == ErrorKind::InvalidData
                && !channel_decodable(tables@, old(r).data@, *h, *side, g as int, c as int, old(r).pos, old(r).bit_len()),
        },
{
    let info: GranuleChannelSideInfo = side.granules[g].channels[c];
    let mpeg1 = h.version == MpegVersion::Mpeg1;
    if (mpeg1 && info.scalefac_compress >= 16) || info.scalefac_compress >= 512 || info.big_values > 288
        || info.table_select[0] >= 32 || info.table_select[1] >= 32 || info.table_select[2] >= 32 {
        return Err(invalid("side information out of range"));
    }
    let start = r.pos;
    let (scalefac_l, scalefac_s) = if mpeg1 {
        read_scale_factors(r, info.block_type, info.scalefac_compress, &side.scfsi[c], g, prev)?
    } else {
        read_lfs_scale_factors(r, c == 1 && h.is_intensity_stereo(), info.block_type, info.scalefac_compress)?
    };
    let used = r.pos - start;
    if used > info.part2_3_length as usize {
        return Err(invalid("scale factors exceed part2_3_length"));
    }
    let huffman_len = (info.part2_3_length as usize - used) as u32;
    let mid = r.pos;
    assert(used == scale_factor_bits(*h, *side, g as int, c as int));
    let mut samples = [0i32; 576];
    let count1 = read_huffman(r, tables, h.sample_rate_table, &info, huffman_len, &mut samples)?;
    let ch = MainDataChannel { scalefac_l, scalefac_s, count1, samples };
    proof {
        assert(scale_factors_of_channel(old(r).data@, *h, *side, g as int, c as int, prev@, old(r).pos, ch, mid));
    }
    Ok(ch)
}

/// After granule 0 was read (channel 0 as `c00`, channel 1 as `c01`),
/// reading from bit `q2` on fails in granule 1: its channel 0 cannot be read,
/// or it can and then channel 1 of a two-channel frame cannot.
pub open spec fn granule1_fails(tables: Seq<HuffmanTable>, s: Seq<u8>, h: FrameHeader, side: SideInfo, c00: MainDataChannel, c01: MainDataChannel, q2: usize, bit_len: int) -> bool {
    let stereo = h.channels.spec_num_channels() == 2;
    &&& h.spec_num_granules() == 2
    &&& {
        ||| !channel_decodable(tables, s, h, side, 1, 0, q2, bit_len)
        ||| exists|c10: MainDataChannel, q3: usize| #[trigger] channel_read(tables, s, h, side, 1, 0, c00.scalefac_l@, q2, c10, q3)
            && stereo && !channel_decodable(tables, s, h, side, 1, 1, q3, bit_len)
    }
}

/// After granule 0, channel 0 was read as `c00`, ending at bit `q1`, reading
/// fails later: channel 1 of a two-channel frame cannot be read, or the
/// reading fails in granule 1.
pub open spec fn after_first_channel_fails(tables: Seq<HuffmanTable>, s: Seq<u8>, h: FrameHeader, side: SideInfo, c00: MainDataChannel, q1: usize, bit_len: int) -> bool {
    let zeros = Seq::<u8>::new(22, |i: int| 0u8);
    if h.channels.spec_num_channels() == 2 {
        ||| !channel_decodable(tables, s, h, side, 0, 1, q1, bit_len)
        ||| exists|c01: MainDataChannel, q2: usize| #[trigger] channel_read(tables, s, h, side, 0, 1, zeros, q1, c01, q2)
            && granule1_fails(tables, s, h, side, c00, c01, q2, bit_len)
    } else {
        granule1_fails(tables, s, h, side, c00, c00, q1, bit_len)
    }
}

/// Reading the main data of a frame from bit `start` of a buffer of
/// `bit_len` bits fails: the channels are read in order, each from where the
/// one before ended, and one of them cannot be read.
pub open spec fn main_data_fails(tables: Seq<HuffmanTable>, s: Seq<u8>, h: FrameHeader, side: SideInfo, start: usize, bit_len: int) -> bool {
    let zeros = Seq::<u8>::new(22, |i: int| 0u8);
    ||| !channel_decodable(tables, s, h, side, 0, 0, start, bit_len)
    ||| exists|c00: MainDataChannel, q1: usize| #[trigger] channel_read(tables, s, h, side, 0, 0, zeros, start, c00, q1)
        && after_first_channel_fails(tables, s, h, side, c00, q1, bit_len)
}

/// Reads the main data of a frame: for each granule and channel in turn,
/// scale factors and then the Huffman-coded spectrum.
pub fn read_main_data(r: &mut BitReader, h: &FrameHeader, side: &SideInfo, tables: &Vec<HuffmanTable>) -> (res: Result<MainData, Error>)
    requires
        old(r).wf(),
        h.wf(),
        tables_wf(tables@),
    ensures
        final(r).wf(),
        res is Ok ==> main_data_ok(*h, res->Ok_0),
        res is Ok ==> exists|q1: usize, q2: usize, q3: usize|
            #[trigger] main_data_chain(tables@, old(r).data@, *h, *side, res->Ok_0, old(r).pos, q1, q2, q3, final(r).pos),
        res is Err ==> res->Err_0.kind() == ErrorKind::InvalidData,
        res is Err ==> main_data_fails(tables@, old(r).data@, *h, *side, old(r).pos, old(r).bit_len()),
{
    let ghost s = r.data@;
    let ghost p0 = r.pos;
    let ghost bl = r.bit_len();
    let nch = h.channels.num_channels();
    let zero = [0u8; 22];
    assert(zero@ =~= Seq::<u8>::new(22, |i: int| 0u8));
    let c00 = match decode_channel(r, h, side, 0, 0, &zero, tables) {
        Ok(c) => c,
        Err(e) => return Err(e),
    };
    let ghost q1 = r.pos;
    let c01 = if nch == 2 {
        match decode_channel(r, h, side, 0, 1, &zero, tables) {
            Ok(c) => c,
            Err(e) => {
                assert(after_first_channel_fails(tables@, s, *h, *side, c00, q1, bl));
                assert(main_data_fails(tables@, s, *h, *side, p0, bl));
                return Err(e);
            },
        }
    } else {
        MainDataChannel::empty()
    };
    let ghost q2 = r.pos;
    let mut c10 = MainDataChannel::empty();
    let mut c11 = MainDataChannel::empty();
    let ghost mut q3 = r.pos;
    if h.num_granules() == 2 {
        c10 = match decode_channel(r, h, side, 1, 0, &c00.scalefac_l, tables) {
            Ok(c) => c,
            Err(e) => {
                assert(granule1_fails(tables@, s, *h, *side, c00, if nch == 2 { c01 } else { c00 }, q2, bl));
                assert(after_first_channel_fails(tables@, s, *h, *side, c00, q1, bl));
                assert(main_data_fails(tables@, s, *h, *side, p0, bl));
                return Err(e);
            },
        };
        proof {
            q3 = r.pos;
        }
        if nch == 2 {
            c11 = match decode_channel(r, h, side, 1, 1, &c01.scalefac_l, tables) {
                Ok(c) => c,
                Err(e) => {
                    assert(granule1_fails(tables@, s, *h, *side, c00, c01, q2, bl));
                    assert(after_first_channel_fails(tables@, s, *h, *side, c00, q1, bl));
                    assert(main_data_fails(tables@, s, *h, *side, p0, bl));
                    return Err(e);
                },
            };
        }
    }
    let md = MainData {
        granules: [MainDataGranule { channels: [c00, c01] }, MainDataGranule { channels: [c10, c11] }],
    };
    assert(main_data_chain(tables@, s, *h, *side, md, p0, q1, q2, q3, r.pos));
    let ret: Result<MainData, Error> = Ok(md);
    assert(ret->Ok_0 == md);
    assert(exists|a: usize, b: usize, c: usize| #[trigger] main_data_chain(tables@, old(r).data@, *h, *side, ret->Ok_0, old(r).pos, a, b, c, r.pos));
    assert forall|g: int, c: int| 0 <= g < 2 && 0 <= c < 2 implies (#[trigger] md.granules[g].channels[c]).count1_ok() by {
        if g == 0 && c == 0 {} else if g == 0 {} else if c == 0 {} else {}
    }
    ret
}

/// The reservoir after a frame with back-pointer `main_data_begin` and main
/// data `main`: the last `main_data_begin` bytes of `prior`, then `main`.
pub open spec fn next_reservoir(prior: Seq<u8>, main_data_begin: int, main: Seq<u8>) -> Seq<u8> {
    prior.subrange(prior.len() - main_data_begin, prior.len() as int) + main
}

/// Decoding the frame body `body` with header `h` against the reservoir
/// `prior` fails: its side information has a fault, or its back-pointer
/// reaches beyond the reservoir, or its main data cannot be read from the
/// reservoir that the frame leaves.
pub open spec fn frame_fails(tables: Seq<HuffmanTable>, prior: Seq<u8>, h: FrameHeader, body: Seq<u8>) -> bool {
    let sdl = spec_side_data_len(h.version, h.channels) as int;
    let side = body.subrange(0, sdl);
    let main = body.subrange(sdl, body.len() as int);
    ||| !side_info_ok(side, h)
    ||| exists|si: SideInfo| #[trigger] side_info_matches(side, h, si) && {
        ||| si.main_data_begin > prior.len()
        ||| {
            let res = next_reservoir(prior, si.main_data_begin as int, main);
            main_data_fails(tables, res, h, si, 0, 8 * res.len() as int)
        }
    }
}

/// Decodes the body of a frame with header `header`: the side information,
/// then the logical main data assembled through the reservoir of `state`,
/// then the scale factors and spectra. The reservoir afterwards holds the
/// `main_data_begin` bytes it ended with before, then this frame's main data.
/// Faults in the side information or main data, and a back-pointer beyond
/// the reservoir, are `InvalidData`.
pub fn process_frame(state: &mut DecoderState, header: &FrameHeader, body: &[u8], tables: &Vec<HuffmanTable>) -> (res: Result<(SideInfo, MainData), Error>)
    requires
        old(state).wf(),
        header.wf(),
        body@.len() == header.data_size,
        tables_wf(tables@),
    ensures
        final(state).wf(),
        match res {
            Ok((si, md)) => {
                let sdl = spec_side_data_len(header.version, header.channels) as int;
                let prior = old(state).reservoir();
                &&& side_info_ok(body@.subrange(0, sdl), *header)
                &&& side_info_matches(body@.subrange(0, sdl), *header, si)
                &&& si.main_data_begin <= prior.len()
                &&& final(state).reservoir() == prior.subrange(prior.len() - si.main_data_begin, prior.len() as int) + body@.subrange(sdl, body@.len() as int)
                &&& final(state).reservoir().len() == si.main_data_begin + header.data_size - sdl
                &&& final(state).reservoir().len() <= RESERVOIR_CAPACITY
                &&& main_data_ok(*header, md)
            },
            Err(e) => e.kind() == ErrorKind::InvalidData,
        },
        res is Ok ==> exists|q1: usize, q2: usize, q3: usize, end: usize| #[trigger] main_data_chain(
            tables@, final(state).reservoir(), *header, res->Ok_0.0, res->Ok_0.1, 0, q1, q2, q3, end),
        res is Err ==> frame_fails(tables@, old(state).reservoir(), *header, body@),
        res is Err && !side_info_ok(body@.subrange(0, spec_side_data_len(header.version, header.channels) as int), *header)
            ==> final(state).reservoir() == old(state).reservoir(),
{
    let ghost prior = state.reservoir();
    let sdl = header.side_data_len();
    let side_bytes = vstd::slice::slice_subrange(body, 0, sdl);
    let side_info = match read_side_info(side_bytes, header) {
        Ok(si) => si,
        Err(e) => return Err(e),
    };
    let main_bytes = vstd::slice::slice_subrange(body, sdl, body.len());
    proof {
        vstd::arithmetic::power2::lemma2_to64();
        crate::bits::lemma_bits_bound(side_bytes@, 0, if header.version == MpegVersion::Mpeg1 { 9 } else { 8 });
    }
    assert(side_info.main_data_begin < 512);
    match state.read_logical_frame_data(main_bytes, side_info.main_data_begin as usize) {
        Ok(_) => {},
        Err(e) => {
            assert(side_info_matches(side_bytes@, *header, side_info));
            return Err(e);
        },
    }
    let logical = state.contents();
    assert(logical@ == next_reservoir(prior, side_info.main_data_begin as int, main_bytes@));
    let mut r = BitReader::new(logical);
    let main_data = match read_main_data(&mut r, header, &side_info, tables) {
        Ok(md) => md,
        Err(e) => {
            assert(side_info_matches(side_bytes@, *header, side_info));
            return Err(e);
        },
    };
    let ret: Result<(SideInfo, MainData), Error> = Ok((side_info, main_data));
    proof {
        let (q1, q2, q3) = choose|q1: usize, q2: usize, q3: usize| #[trigger] main_data_chain(
            tables@, logical@, *header, side_info, main_data, 0, q1, q2, q3, r.pos);
        assert(main_data_chain(tables@, state.reservoir(), *header, ret->Ok_0.0, ret->Ok_0.1, 0, q1, q2, q3, r.pos));
    }
    ret
}

/// Where the search for a frame that starts at byte `pos` of `s` finds a
/// header: it tries each position in turn, passes over the bytes that a
/// rejected header consumed, and gives up where the bytes run out.
pub open spec fn header_scan(s: Seq<u8>, pos: int) -> Option<int>
    decreases s.len() - pos,
{
    if pos < 0 || pos >= s.len() {
        None
    } else {
        let rest = s.subrange(pos, s.len() as int);
        match header_of(rest) {
            Ok(_) => Some(pos),
            Err(ErrorKind::Io) => None,
            Err(_) => header_scan(s, pos + header_fault_len(rest)),
        }
    }
}

/// Searches `data` from byte `from` on for the next frame header.
pub fn find_frame(data: &[u8], from: usize) -> (r: Option<(usize, FrameHeader)>)
    ensures
        match r {
            Some((p, h)) => {
                &&& header_scan(data@, from as int) == Some(p as int)
                &&& header_of(data@.subrange(p as int, data@.len() as int)) == Ok::<FrameHeader, ErrorKind>(h)
                &&& h.wf()
            },
            None => header_scan(data@, from as int) is None,
        },
{
    let mut pos = from;
    while pos < data.len()
        invariant
            header_scan(data@, from as int) == header_scan(data@, pos as int),
        decreases data@.len() - pos,
    {
        let rest = vstd::slice::slice_subrange(data, pos, data.len());
        match read_frame_header(rest) {
            Ok(h) => {
                return Some((pos, h));
            },
            Err(e) => {
                if e.error_kind() == ErrorKind::Io {
                    return None;
                }
                let step = header_advance(rest);
                if step > data.len() - pos {
                    return None;
                }
                pos = pos + step;
            },
        }
    }
    None
}

/// Bytes that hold no `0xff`, put in front of a stream, do not change which
/// header the search finds: it finds the same one, further on by their
/// number.
pub proof fn lemma_resync_prefix(junk: Seq<u8>, s: Seq<u8>)
    requires
        forall|i: int| 0 <= i < junk.len() ==> junk[i] != 0xffu8,
    ensures
        header_scan(junk + s, 0) == match header_scan(s, 0) {
            Some(p) => Some(p + junk.len()),
            None => None::<int>,
        },
{
    lemma_scan_skips_junk(junk, s, 0);
    lemma_scan_shift(junk, s, 0);
}

proof fn lemma_scan_skips_junk(junk: Seq<u8>, s: Seq<u8>, i: int)
    requires
        0 <= i <= junk.len(),
        forall|k: int| 0 <= k < junk.len() ==> junk[k] != 0xffu8,
    ensures
        header_scan(junk + s, i) == header_scan(junk + s, junk.len() as int),
    decreases junk.len() - i,
{
    if i < junk.len() {
        let t = junk + s;
        let rest = t.subrange(i, t.len() as int);
        assert(rest[0] == junk[i]);
        assert(header_of(rest) == Err::<FrameHeader, ErrorKind>(ErrorKind::InvalidData));
        assert(header_fault_len(rest) == 1);
        lemma_scan_skips_junk(junk, s, i + 1);
    }
}

proof fn lemma_scan_shift(junk: Seq<u8>, s: Seq<u8>, j: int)
    requires
        0 <= j,
    ensures
        header_scan(junk + s, junk.len() + j) == match header_scan(s, j) {
            Some(p) => Some(p + junk.len()),
            None => None::<int>,
        },
    decreases s.len() - j,
{
    let t = junk + s;
    if j < s.len() {
        let k = junk.len() as int;
        assert(t.subrange(k + j, t.len() as int) =~= s.subrange(j, s.len() as int));
        let rest = s.subrange(j, s.len() as int);
        match header_of(rest) {
            Ok(_) => {},
            Err(ErrorKind::Io) => {},
            Err(_) => {
                lemma_scan_shift(junk, s, j + header_fault_len(rest));
            },
        }
    }
}

/// Whether `tables` is a complete set of code tables.
pub fn huffman_tables_ok(tables: &Vec<HuffmanTable>) -> (r: bool)
    ensures
        r == tables_wf(tables@),
{
    if tables.len() != 34 {
        return false;
    }
    let mut i: usize = 0;
    while i < 34
        invariant
            tables@.len() == 34,
            i <= 34,
            forall|k: int| 0 <= k < i ==> (#[trigger] tables@[k]).wf() && tables@[k].data@.len() < 0x10000,
            forall|k: int| 0 <= k < i && k < 32 ==> !(#[trigger] tables@[k]).quads,
            forall|k: int| 32 <= k < i ==> (#[trigger] tables@[k]).quads,
        decreases 34 - i,
    {
        let t = &tables[i];
        if t.linbits > 16 || t.data.len() >= 0x10000 || t.quads != (i >= 32) {
            return false;
        }
        i = i + 1;
    }
    true
}

/// The header that parsing the bytes of `s` from `p` on gives.
pub open spec fn header_at(s: Seq<u8>, p: int) -> FrameHeader {
    header_of(s.subrange(p, s.len() as int))->Ok_0
}

/// The byte after the frame whose header starts at byte `p` of `s`.
pub open spec fn frame_end(s: Seq<u8>, p: int) -> int {
    p + header_len_of(header_at(s, p)) + header_at(s, p).data_size
}

/// The search for a frame from byte `q` of `s` on runs out: it finds no
/// header, or the frame of the header it finds does not end within `s`.
pub open spec fn scan_runs_out(s: Seq<u8>, q: int) -> bool {
    match header_scan(s, q) {
        None => true,
        Some(p) => frame_end(s, p) > s.len(),
    }
}

/// The search from byte `from` of `s` finds a header whose frame ends within
/// `s` and whose body decodes against the reservoir `prior`.
pub open spec fn frame_ready(s: Seq<u8>, from: int, prior: Seq<u8>, tables: Seq<HuffmanTable>) -> bool {
    match header_scan(s, from) {
        None => false,
        Some(p) => {
            let h = header_at(s, p);
            &&& frame_end(s, p) <= s.len()
            &&& !frame_fails(tables, prior, h, s.subrange(p + header_len_of(h), frame_end(s, p)))
        },
    }
}

/// A frame found in a byte stream and decoded up to its quantized spectrum.
#[derive(Debug)]
pub struct DecodedFrame {
    pub header: FrameHeader,
    pub side_info: SideInfo,
    pub main_data: MainData,
}

/// Decodes MP3 streams: holds the byte source, the reservoir that carries
/// main data from frame to frame, and the Huffman code tables.
pub struct Mp3Decoder<R> {
    reader: R,
    state: DecoderState,
    huffman_tables: Vec<HuffmanTable>,
    tables_ok: bool,
}

impl<R> Mp3Decoder<R> {
    pub closed spec fn wf(&self) -> bool {
        &&& self.state.wf()
        &&& self.tables_ok == tables_wf(self.huffman_tables@)
    }

    /// The byte source.
    pub closed spec fn source(&self) -> R {
        self.reader
    }

    /// The bytes of the reservoir.
    pub closed spec fn reservoir(&self) -> Seq<u8> {
        self.state.reservoir()
    }

    /// The Huffman code tables.
    pub closed spec fn huffman_tables(&self) -> Seq<HuffmanTable> {
        self.huffman_tables@
    }

    /// Whether the decoder holds a complete set of Huffman code tables.
    pub closed spec fn has_tables(&self) -> bool {
        self.tables_ok
    }

    /// Creates a decoder over `reader`, with an empty reservoir and no
    /// Huffman code tables; frames decode once tables are given.
    pub fn new(reader: R) -> (r: Self)
        ensures
            r.wf(),
            r.source() == reader,
            r.reservoir() == Seq::<u8>::empty(),
            !r.has_tables(),
    {
        Mp3Decoder { reader, state: DecoderState::new(), huffman_tables: Vec::new(), tables_ok: false }
    }

    /// Creates a decoder over `reader` that decodes with `tables`: the 32
    /// pair tables and the two quadruple tables of the Layer III format.
    pub fn with_huffman_tables(reader: R, tables: Vec<HuffmanTable>) -> (r: Self)
        ensures
            r.wf(),
            r.source() == reader,
            r.reservoir() == Seq::<u8>::empty(),
            r.has_tables() == tables_wf(tables@),
    {
        let tables_ok = huffman_tables_ok(&tables);
        Mp3Decoder { reader, state: DecoderState::new(), huffman_tables: tables, tables_ok }
    }

    /// Gets a reference to the underlying reader.
    pub fn get_ref(&self) -> (r: &R)
        ensures
            *r == self.source(),
    {
        &self.reader
    }

    /// Gets a mutable reference to the underlying reader.
    pub fn get_mut(&mut self) -> (r: &mut R)
        ensures
            *r == old(self).source(),
    {
        &mut self.reader
    }

    /// Unwraps the decoder, returning the underlying reader.
    pub fn into_inner(self) -> (r: R)
        ensures
            r == self.source(),
    {
        self.reader
    }

    /// Finds and decodes the next frame in `data` from byte `from` on, and
    /// returns it with the byte at which it ends. A header whose frame fails to
    /// decode is passed over: the search resumes one byte after the start of
    /// its sync word, and the reservoir keeps what the failed frame left in it.
    /// Running out of bytes, also inside a frame's body, ends the stream: an
    /// I/O error. Without Huffman code tables no frame decodes.
    #[verifier::rlimit(100)]
    pub fn decode_next(&mut self, data: &[u8], from: usize) -> (res: Result<(DecodedFrame, usize), Error>)
        requires
            old(self).wf(),
        ensures
            final(self).wf(),
            final(self).source() == old(self).source(),
            final(self).has_tables() == old(self).has_tables(),
            match res {
                Ok((f, end)) => {
                    let sdl = spec_side_data_len(f.header.version, f.header.channels) as int;
                    &&& old(self).has_tables()
                    &&& end <= data@.len()
                    &&& exists|p: int| from <= p && #[trigger] header_of(data@.subrange(p, data@.len() as int))
                        == Ok::<FrameHeader, ErrorKind>(f.header) && end == p + header_len_of(f.header) + f.header.data_size
                    &&& f.header.wf()
                    &&& side_info_matches(data@.subrange(end - f.header.data_size, end - f.header.data_size + sdl), f.header, f.side_info)
                    &&& final(self).reservoir().len() == f.side_info.main_data_begin + f.header.data_size - sdl
                    &&& main_data_ok(f.header, f.main_data)
                },
                Err(e) => e.kind() == ErrorKind::Io || (!old(self).has_tables() && e.kind() == ErrorKind::InvalidData),
            },
            final(self).huffman_tables() == old(self).huffman_tables(),
            res is Ok ==> exists|q1: usize, q2: usize, q3: usize, end: usize| #[trigger] main_data_chain(
                old(self).huffman_tables(), final(self).reservoir(), res->Ok_0.0.header, res->Ok_0.0.side_info,
                res->Ok_0.0.main_data, 0, q1, q2, q3, end),
            old(self).has_tables() && frame_ready(data@, from as int, old(self).reservoir(), old(self).huffman_tables()) ==> {
                &&& res is Ok
                &&& res->Ok_0.0.header == header_at(data@, header_scan(data@, from as int)->Some_0)
                &&& res->Ok_0.1 == frame_end(data@, header_scan(data@, from as int)->Some_0)
            },
            res is Err && res->Err_0.kind() == ErrorKind::Io ==> exists|q: int| from <= q && #[trigger] scan_runs_out(data@, q),
    {
        if !self.tables_ok {
            return Err(invalid("no Huffman code tables"));
        }
        let mut pos = from;
        loop
            invariant
                self.wf(),
                self.tables_ok,
                self.reader == old(self).reader,
                self.huffman_tables == old(self).huffman_tables,
                self.tables_ok == old(self).tables_ok,
                from <= pos,
                frame_ready(data@, from as int, old(self).reservoir(), old(self).huffman_tables()) ==> {
                    &&& pos == from
                    &&& self.reservoir() == old(self).reservoir()
                },
            decreases data@.len() + 1 - pos,
        {
            let (p, h) = match find_frame(data, pos) {
                Some(found) => found,
                None => {
                    assert(scan_runs_out(data@, pos as int));
                    return Err(end_of_stream());
                },
            };
            proof {
                lemma_scan_ahead(data@, pos as int);
            }
            let header_len: usize = if h.crc { 6 } else { 4 };
            assert(h == header_at(data@, p as int));
            if p >= data.len() || h.data_size > data.len() - p || header_len > data.len() - p - h.data_size {
                assert(scan_runs_out(data@, pos as int));
                return Err(end_of_stream());
            }
            let body_start = p + header_len;
            let body_end = body_start + h.data_size;
            let body = vstd::slice::slice_subrange(data, body_start, body_end);
            match process_frame(&mut self.state, &h, body, &self.huffman_tables) {
                Ok((side_info, main_data)) => {
                    assert(body@.subrange(0, spec_side_data_len(h.version, h.channels) as int)
                        =~= data@.subrange(body_end - h.data_size, body_end - h.data_size + spec_side_data_len(h.version, h.channels)));
                    let ret: Result<(DecodedFrame, usize), Error> = Ok((DecodedFrame { header: h, side_info, main_data }, body_end));
                    proof {
                        let (q1, q2, q3, end) = choose|q1: usize, q2: usize, q3: usize, end: usize| #[trigger] main_data_chain(
                            self.huffman_tables@, self.state.reservoir(), h, side_info, main_data, 0, q1, q2, q3, end);
                        assert(main_data_chain(old(self).huffman_tables(), self.reservoir(), ret->Ok_0.0.header, ret->Ok_0.0.side_info,
                            ret->Ok_0.0.main_data, 0, q1, q2, q3, end));
                    }
                    return ret;
                },
                Err(_) => {
                    assert(body@ == data@.subrange(p + header_len_of(h), frame_end(data@, p as int)));
                    pos = p + 1;
                },
            }
        }
    }
}

/// A header that the search finds stands at or after where it began.
proof fn lemma_scan_ahead(s: Seq<u8>, pos: int)
    ensures
        match header_scan(s, pos) {
            Some(p) => pos <= p < s.len(),
            None => true,
        },
    decreases s.len() - pos,
{
    if 0 <= pos < s.len() {
        let rest = s.subrange(pos, s.len() as int);
        match header_of(rest) {
            Ok(_) => {},
            Err(ErrorKind::Io) => {},
            Err(_) => {
                lemma_scan_ahead(s, pos + header_fault_len(rest));
            },
        }
    }
}

/// Bytes that hold no `0xff`, put in front of a stream, change neither
/// whether the next frame can be decoded against a given reservoir nor that
/// frame: its header is the same and it ends further on by their number. With
/// the contract of `decode_next`, the first frame decoded is the same.
pub proof fn lemma_resync_frame(junk: Seq<u8>, s: Seq<u8>, prior: Seq<u8>, tables: Seq<HuffmanTable>)
    requires
        forall|i: int| 0 <= i < junk.len() ==> junk[i] != 0xffu8,
    ensures
        frame_ready(junk + s, 0, prior, tables) == frame_ready(s, 0, prior, tables),
        frame_ready(s, 0, prior, tables) ==> {
            let p = header_scan(s, 0)->Some_0;
            &&& header_scan(junk + s, 0) == Some(p + junk.len())
            &&& header_at(junk + s, p + junk.len()) == header_at(s, p)
            &&& frame_end(junk + s, p + junk.len()) == frame_end(s, p) + junk.len()
        },
{
    lemma_resync_prefix(junk, s);
    let t = junk + s;
    let k = junk.len() as int;
    match header_scan(s, 0) {
        None => {},
        Some(p) => {
            lemma_scan_ahead(s, 0);
            assert(t.subrange(p + k, t.len() as int) =~= s.subrange(p, s.len() as int));
            let h = header_at(s, p);
            assert(header_at(t, p + k) == h);
            let e = frame_end(s, p);
            if e <= s.len() {
                assert(t.subrange(p + k + header_len_of(h), e + k) =~= s.subrange(p + header_len_of(h), e));
            }
        },
    }
}

} // verus!
