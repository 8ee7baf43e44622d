use puremp3::bits::BitReader;
use puremp3::error::ErrorKind;
use puremp3::huffman::{huffman_decode, read_huffman, HuffmanTable};
use puremp3::reorder::reorder;
use puremp3::scalefactors::{read_lfs_scale_factors, read_scale_factors};
use puremp3::side_info::GranuleChannelSideInfo;
use puremp3::BlockType;

fn pair_table() -> HuffmanTable {
    // root: 0 -> leaf (0, 0); 1 -> leaf (1, 1)
    HuffmanTable { data: vec![0x0102, 0x0000, 0x0011], linbits: 0, quads: false }
}

fn escape_table() -> HuffmanTable {
    // root: 0 -> leaf (15, 2); 1 -> leaf (0, 1)
    HuffmanTable { data: vec![0x0102, 0x00F2, 0x0001], linbits: 4, quads: false }
}

fn quad_table() -> HuffmanTable {
    // root: 0 -> leaf y = 0b1010 (v = 1, x = 1); 1 -> leaf y = 0
    HuffmanTable { data: vec![0x0102, 0x000A, 0x0000], linbits: 0, quads: true }
}

fn tables() -> Vec<HuffmanTable> {
    let mut t = Vec::new();
    for i in 0..34 {
        if i == 1 {
            t.push(pair_table());
        } else if i == 32 {
            t.push(quad_table());
        } else {
            t.push(HuffmanTable { data: vec![], linbits: 0, quads: i >= 32 });
        }
    }
    t
}

fn long_side(big_values: u16) -> GranuleChannelSideInfo {
    GranuleChannelSideInfo {
        part2_3_length: 0,
        big_values,
        global_gain: 0,
        scalefac_compress: 0,
        block_type: BlockType::Long,
        mixed_block: false,
        subblock_gain: [0; 3],
        table_select: [1, 1, 1],
        region0_count: 0,
        region1_count: 0,
        preflag: false,
        scalefac_scale: false,
        count1table_select: false,
    }
}

#[test]
fn decodes_a_pair_with_signs() {
    let data = [0b1010_0000u8];
    let mut r = BitReader::new(&data);
    assert_eq!(huffman_decode(&mut r, &pair_table()).unwrap(), [1, -1, 0, 0]);
    assert_eq!(r.pos, 3);
    let mut r = BitReader::new(&data[..]);
    r.skip(1).unwrap();
    assert_eq!(huffman_decode(&mut r, &pair_table()).unwrap(), [0, 0, 0, 0]);
    assert_eq!(r.pos, 2);
}

#[test]
fn decodes_a_linbits_escape() {
    // code 0 -> (15, 2); escape 0b0011 -> x = 18; sign 1; y sign 0
    let data = [0b0_0011_1_0_0u8];
    let mut r = BitReader::new(&data);
    assert_eq!(huffman_decode(&mut r, &escape_table()).unwrap(), [-18, 2, 0, 0]);
    assert_eq!(r.pos, 7);
}

#[test]
fn decodes_a_quadruple() {
    // code 0 -> v = 1, x = 1; sign of v 1, sign of x 0
    let data = [0b0_1_0_00000u8];
    let mut r = BitReader::new(&data);
    assert_eq!(huffman_decode(&mut r, &quad_table()).unwrap(), [1, 0, -1, 0]);
    assert_eq!(r.pos, 3);
}

#[test]
fn empty_table_gives_zeros() {
    let data = [0xFFu8];
    let mut r = BitReader::new(&data);
    let t = HuffmanTable { data: vec![], linbits: 0, quads: false };
    assert_eq!(huffman_decode(&mut r, &t).unwrap(), [0, 0, 0, 0]);
    assert_eq!(r.pos, 0);
}

#[test]
fn broken_code_is_invalid_data() {
    let t = HuffmanTable { data: vec![0x0105, 0x0000], linbits: 0, quads: false };
    let data = [0xFFu8];
    let mut r = BitReader::new(&data);
    assert_eq!(huffman_decode(&mut r, &t).unwrap_err().error_kind(), ErrorKind::InvalidData);
    let mut r = BitReader::new(&data[..0]);
    assert_eq!(huffman_decode(&mut r, &pair_table()).unwrap_err().error_kind(), ErrorKind::InvalidData);
}

#[test]
fn huffman_zero_length_gives_silence() {
    let data = [0xFFu8; 4];
    let mut r = BitReader::new(&data);
    let mut samples = [7i32; 576];
    let count1 = read_huffman(&mut r, &tables(), 0, &long_side(2), 0, &mut samples).unwrap();
    assert_eq!(count1, 0);
    assert!(samples.iter().all(|&s| s == 0));
    assert_eq!(r.pos, 0);
}

#[test]
fn huffman_big_values_then_count1() {
    // two pairs: "1 0 1" -> (1, -1), "0" -> (0, 0); then quads "1" -> zeros
    let data = [0b101_0_1_000u8, 0];
    let mut r = BitReader::new(&data);
    let mut samples = [7i32; 576];
    let count1 = read_huffman(&mut r, &tables(), 0, &long_side(2), 5, &mut samples).unwrap();
    assert_eq!(&samples[..4], &[1, -1, 0, 0]);
    assert_eq!(count1, 8);
    assert!(samples[8..].iter().all(|&s| s == 0));
    assert_eq!(r.pos, 5);
}

#[test]
fn huffman_overrun_drops_last_quadruple_and_skips_slack() {
    let data = [0b101_0_0_1_0_0u8, 0];
    let mut r = BitReader::new(&data);
    let mut samples = [7i32; 576];
    // pairs take 4 bits; the quadruple "0 1 0" takes 3 more and overruns 5
    let count1 = read_huffman(&mut r, &tables(), 0, &long_side(2), 5, &mut samples).unwrap();
    assert_eq!(count1, 4);
    assert!(samples[4..].iter().all(|&s| s == 0));
    let mut r = BitReader::new(&data);
    let count1 = read_huffman(&mut r, &tables(), 0, &long_side(1), 12, &mut samples).unwrap();
    assert!(count1 <= 576);
    assert_eq!(r.pos, 12);
}

#[test]
fn mpeg1_long_scale_factors_with_scfsi() {
    // scalefac_compress 15: slen1 = 4, slen2 = 3
    let mut data = vec![0x11u8; 16];
    data[0] = 0x12;
    let mut r = BitReader::new(&data);
    let (l, s) = read_scale_factors(&mut r, BlockType::Long, 15, &[false; 4], 0, &[0; 22]).unwrap();
    assert_eq!(l[0], 1);
    assert_eq!(l[1], 2);
    assert_eq!(l[2], 1);
    assert_eq!(l[21], 0);
    assert_eq!(s, [[0; 3]; 13]);
    assert_eq!(r.pos, 6 * 4 + 5 * 4 + 5 * 3 + 5 * 3);
    let prev = [9u8; 22];
    let mut r = BitReader::new(&data);
    let (l, _) = read_scale_factors(&mut r, BlockType::Long, 15, &[true, false, true, true], 1, &prev).unwrap();
    assert_eq!(&l[0..6], &[9; 6]);
    assert_eq!(l[6], 1);
    assert_eq!(&l[11..21], &[9; 10]);
    assert_eq!(r.pos, 5 * 4);
}

#[test]
fn mpeg1_short_and_mixed_scale_factors() {
    let data = vec![0xFFu8; 32];
    let mut r = BitReader::new(&data);
    // scalefac_compress 5: slen1 = 1, slen2 = 1
    let (l, s) = read_scale_factors(&mut r, BlockType::Short, 5, &[false; 4], 0, &[0; 22]).unwrap();
    assert_eq!(l, [0; 22]);
    assert_eq!(s[0], [1, 1, 1]);
    assert_eq!(s[11], [1, 1, 1]);
    assert_eq!(s[12], [0, 0, 0]);
    assert_eq!(r.pos, 36);
    let mut r = BitReader::new(&data);
    let (l, _) = read_scale_factors(&mut r, BlockType::Mixed, 5, &[false; 4], 0, &[0; 22]).unwrap();
    assert_eq!(&l[..8], &[1; 8]);
    assert_eq!(l[8], 0);
    assert_eq!(r.pos, 44);
    let short = [0xFFu8; 2];
    let mut r = BitReader::new(&short);
    assert_eq!(read_scale_factors(&mut r, BlockType::Short, 5, &[false; 4], 0, &[0; 22]).unwrap_err().error_kind(), ErrorKind::InvalidData);
}

#[test]
fn lfs_scale_factors_long_block() {
    // scalefac_compress 0: all widths 0, nothing read
    let data = [0xFFu8; 32];
    let mut r = BitReader::new(&data);
    let (l, _) = read_lfs_scale_factors(&mut r, false, BlockType::Long, 0).unwrap();
    assert_eq!(l, [0; 22]);
    assert_eq!(r.pos, 0);
    // scalefac_compress 80: widths [1, 0, 0, 0], first partition of 6
    let mut r = BitReader::new(&data);
    let (l, _) = read_lfs_scale_factors(&mut r, false, BlockType::Long, 80).unwrap();
    assert_eq!(&l[..6], &[1; 6]);
    assert_eq!(l[6], 0);
    assert_eq!(r.pos, 6);
    // scalefac_compress 503: table 2, widths [1, 0, 0, 0], first partition of 11
    let mut r = BitReader::new(&data);
    let (l, _) = read_lfs_scale_factors(&mut r, false, BlockType::Long, 503).unwrap();
    assert_eq!(&l[..11], &[1; 11]);
    assert_eq!(l[11], 0);
    assert_eq!(r.pos, 11);
}

#[test]
fn lfs_scale_factors_short_and_intensity() {
    let data = [0xFFu8; 64];
    let mut r = BitReader::new(&data);
    // intensity, scalefac_compress 72 -> x = 36: widths [1, 0, 0, 0], table 3 short: 12 values
    let (l, s) = read_lfs_scale_factors(&mut r, true, BlockType::Short, 72).unwrap();
    assert_eq!(l, [0; 22]);
    assert_eq!(&s[..4], &[[1, 1, 1]; 4]);
    assert_eq!(s[4], [0, 0, 0]);
    assert_eq!(r.pos, 12);
    let mut r = BitReader::new(&data);
    let (l, s) = read_lfs_scale_factors(&mut r, false, BlockType::Mixed, 80).unwrap();
    assert_eq!(&l[..6], &[1; 6]);
    assert_eq!(l[6], 0);
    assert_eq!(s[3], [0, 0, 0]);
    assert_eq!(r.pos, 6);
}

#[test]
fn reorder_interleaves_windows() {
    let mut s = [0usize; 576];
    for (i, v) in s.iter_mut().enumerate() {
        *v = i;
    }
    reorder(0, BlockType::Short, 576, &mut s);
    assert_eq!(&s[..12], &[0, 4, 8, 1, 5, 9, 2, 6, 10, 3, 7, 11]);
    // the last band (136..192 per window) is reordered too
    assert_eq!(s[408], 408);
    assert_eq!(s[409], 408 + 56);
    let mut long = [5i32; 576];
    long[3] = 1;
    reorder(0, BlockType::Long, 576, &mut long);
    assert_eq!(long[3], 1);
}

#[test]
fn reorder_stops_at_count1_and_keeps_mixed_prefix() {
    let mut s = [0usize; 576];
    for (i, v) in s.iter_mut().enumerate() {
        *v = i;
    }
    reorder(0, BlockType::Short, 12, &mut s);
    assert_eq!(&s[..12], &[0, 4, 8, 1, 5, 9, 2, 6, 10, 3, 7, 11]);
    assert_eq!(&s[12..24], &(12..24).collect::<Vec<_>>()[..]);
    let mut z = [0usize; 576];
    for (i, v) in z.iter_mut().enumerate() {
        *v = i;
    }
    reorder(0, BlockType::Short, 0, &mut z);
    assert_eq!(&z[..], &(0..576).collect::<Vec<_>>()[..]);
    let mut m = [0usize; 576];
    for (i, v) in m.iter_mut().enumerate() {
        *v = i;
    }
    reorder(0, BlockType::Mixed, 576, &mut m);
    assert_eq!(&m[..36], &(0..36).collect::<Vec<_>>()[..]);
    assert_eq!(&m[36..39], &[36, 40, 44]);
}
