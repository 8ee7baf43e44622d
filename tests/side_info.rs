use puremp3::error::ErrorKind;
use puremp3::requantize::{gain_exponent, scale_band_of, ScaleBand};
use puremp3::side_info::{read_side_info, GranuleChannelSideInfo};
use puremp3::stereo::{duplicate_mono, intensity_ratio, mid_side_limit, IntensityRatio};
use puremp3::{read_frame_header, BlockType};

/// Packs `(value, width)` fields most significant bit first, padded with
/// zeros to `len` bytes.
fn pack(fields: &[(u32, u32)], len: usize) -> Vec<u8> {
    let mut bits = Vec::new();
    for &(v, w) in fields {
        for k in (0..w).rev() {
            bits.push((v >> k) & 1 == 1);
        }
    }
    let mut out = vec![0u8; len];
    for (i, b) in bits.iter().enumerate() {
        if *b {
            out[i / 8] |= 0x80 >> (i % 8);
        }
    }
    out
}

#[test]
fn reads_mpeg2_mono_side_info() {
    let h = read_frame_header(&[0xFF, 0xF3, 0x94, 0xC0]).unwrap();
    assert_eq!(h.side_data_len(), 9);
    let data = pack(
        &[
            (37, 8), (0, 1),
            (1234, 12), (100, 9), (150, 8), (501, 9), (0, 1),
            (3, 5), (4, 5), (5, 5), (6, 4), (2, 3),
            (1, 1), (0, 1),
        ],
        9,
    );
    let info = read_side_info(&data, &h).unwrap();
    assert_eq!(info.main_data_begin, 37);
    let c = &info.granules[0].channels[0];
    assert_eq!(c.part2_3_length, 1234);
    assert_eq!(c.big_values, 100);
    assert_eq!(c.global_gain, 150);
    assert_eq!(c.scalefac_compress, 501);
    assert_eq!(c.block_type, BlockType::Long);
    assert_eq!(c.table_select, [3, 4, 5]);
    assert_eq!(c.region0_count, 6);
    assert_eq!(c.region1_count, 2);
    assert!(c.preflag);
    assert!(c.scalefac_scale);
    assert!(!c.count1table_select);
    assert_eq!(info.granules[0].channels[1].part2_3_length, 0);
    assert_eq!(info.granules[1].channels[0].big_values, 0);
    assert_eq!(info.scfsi, [[false; 4]; 2]);
}

#[test]
fn reads_mpeg1_window_switching_side_info() {
    let h = read_frame_header(&[0xFF, 0xFB, 0x90, 0xC4]).unwrap();
    assert_eq!(h.side_data_len(), 17);
    let record = [
        (20u32, 12u32), (3, 9), (200, 8), (9, 4), (1, 1),
        (2, 2), (0, 1), (7, 5), (8, 5), (1, 3), (2, 3), (3, 3),
        (1, 1), (0, 1), (1, 1),
    ];
    let mut fields = vec![(300u32, 9u32), (0, 5), (0b1010, 4)];
    fields.extend_from_slice(&record);
    fields.extend_from_slice(&record);
    let data = pack(&fields, 17);
    let info = read_side_info(&data, &h).unwrap();
    assert_eq!(info.main_data_begin, 300);
    assert_eq!(info.scfsi[0], [true, false, true, false]);
    for g in 0..2 {
        let c = &info.granules[g].channels[0];
        assert_eq!(c.part2_3_length, 20);
        assert_eq!(c.block_type, BlockType::Short);
        assert!(!c.mixed_block);
        assert_eq!(c.table_select, [7, 8, 0]);
        assert_eq!(c.subblock_gain, [1, 2, 3]);
        assert_eq!(c.region0_count, 8);
        assert_eq!(c.region1_count, 12);
        assert!(c.preflag);
        assert!(!c.scalefac_scale);
        assert!(c.count1table_select);
    }
}

#[test]
fn side_info_faults() {
    let h = read_frame_header(&[0xFF, 0xF3, 0x94, 0xC0]).unwrap();
    let too_big = pack(&[(0, 8), (0, 1), (0, 12), (289, 9)], 9);
    assert_eq!(read_side_info(&too_big, &h).unwrap_err().error_kind(), ErrorKind::InvalidData);
    let forbidden = pack(&[(0, 8), (0, 1), (0, 12), (0, 9), (0, 8), (0, 9), (1, 1), (0, 2)], 9);
    assert_eq!(read_side_info(&forbidden, &h).unwrap_err().error_kind(), ErrorKind::InvalidData);
    let mixed = pack(&[(0, 8), (0, 1), (0, 12), (0, 9), (0, 8), (0, 9), (1, 1), (2, 2), (1, 1)], 9);
    let info = read_side_info(&mixed, &h).unwrap();
    assert_eq!(info.granules[0].channels[0].block_type, BlockType::Mixed);
    assert!(info.granules[0].channels[0].mixed_block);
    assert_eq!(info.granules[0].channels[0].region0_count, 7);
    assert_eq!(info.granules[0].channels[0].region1_count, 13);
}

fn side(block_type: BlockType) -> GranuleChannelSideInfo {
    GranuleChannelSideInfo {
        part2_3_length: 0,
        big_values: 0,
        global_gain: 210,
        scalefac_compress: 1,
        block_type,
        mixed_block: false,
        subblock_gain: [0, 1, 2],
        table_select: [0; 3],
        region0_count: 0,
        region1_count: 0,
        preflag: true,
        scalefac_scale: false,
        count1table_select: false,
    }
}

#[test]
fn scale_bands_of_bins() {
    assert_eq!(scale_band_of(0, BlockType::Long, 0), ScaleBand { long: true, sfb: 0, window: 0 });
    assert_eq!(scale_band_of(0, BlockType::Long, 35), ScaleBand { long: true, sfb: 7, window: 0 });
    assert_eq!(scale_band_of(0, BlockType::Long, 575), ScaleBand { long: true, sfb: 21, window: 0 });
    assert_eq!(scale_band_of(0, BlockType::Short, 5), ScaleBand { long: false, sfb: 0, window: 1 });
    assert_eq!(scale_band_of(0, BlockType::Short, 575), ScaleBand { long: false, sfb: 12, window: 2 });
    assert_eq!(scale_band_of(0, BlockType::Mixed, 35), ScaleBand { long: true, sfb: 7, window: 0 });
    assert_eq!(scale_band_of(0, BlockType::Mixed, 36), ScaleBand { long: false, sfb: 3, window: 0 });
}

#[test]
fn gain_exponents() {
    let mut l = [0u8; 22];
    l[17] = 2;
    let mut s = [[0u8; 3]; 13];
    s[3][2] = 5;
    let long = side(BlockType::Long);
    // pretab[17] = 3: 210 - 210 - 2 * (2 + 3)
    assert_eq!(gain_exponent(&long, &l, &s, ScaleBand { long: true, sfb: 17, window: 0 }), -10);
    let mut short = side(BlockType::Short);
    short.scalefac_scale = true;
    // 210 - 210 - 8 * 2 - 4 * 5
    assert_eq!(gain_exponent(&short, &l, &s, ScaleBand { long: false, sfb: 3, window: 2 }), -36);
}

#[test]
fn intensity_ratios() {
    let h1 = read_frame_header(&[0xFF, 0xFB, 0x90, 0x54]).unwrap();
    let left = side(BlockType::Long);
    let mut l = [0u8; 22];
    l[10] = 6;
    l[11] = 3;
    l[12] = 7;
    let s = [[0u8; 3]; 13];
    let band = |sfb| ScaleBand { long: true, sfb, window: 0 };
    assert_eq!(intensity_ratio(&h1, &left, &l, &s, 0, band(10)), IntensityRatio::LeftOnly);
    assert_eq!(intensity_ratio(&h1, &left, &l, &s, 0, band(11)), IntensityRatio::Ratio(3));
    assert_eq!(intensity_ratio(&h1, &left, &l, &s, 0, band(12)), IntensityRatio::Keep);
    assert_eq!(intensity_ratio(&h1, &left, &l, &s, 0, band(21)), IntensityRatio::Keep);
    // band 11 of 44.1 kHz starts at bin 62: below a right count1 of 100
    assert_eq!(intensity_ratio(&h1, &left, &l, &s, 100, band(11)), IntensityRatio::Keep);
    let h2 = read_frame_header(&[0xFF, 0xF3, 0x94, 0x50]).unwrap();
    assert_eq!(intensity_ratio(&h2, &left, &l, &s, 0, band(11)), IntensityRatio::LfsLeft(10));
    assert_eq!(intensity_ratio(&h2, &left, &l, &s, 0, band(10)), IntensityRatio::LfsRight(10));
    assert_eq!(intensity_ratio(&h2, &left, &l, &s, 0, band(12)), IntensityRatio::Keep);
}

#[test]
fn mid_side_and_mono_copy() {
    assert_eq!(mid_side_limit(100, 300), 300);
    assert_eq!(mid_side_limit(576, 0), 576);
    let mut out = [[0.0f32; 1152]; 2];
    out[0][7] = 0.5;
    out[1][7] = -1.0;
    duplicate_mono(&mut out);
    assert_eq!(out[1][7], 0.5);
    assert_eq!(out[0], out[1]);
}

#[test]
fn samples_per_frame() {
    assert_eq!(read_frame_header(&[0xFF, 0xFB, 0x90, 0xC4]).unwrap().num_samples(), 1152);
    assert_eq!(read_frame_header(&[0xFF, 0xE3, 0x28, 0xC0]).unwrap().num_samples(), 576);
    assert_eq!(read_frame_header(&[0xFF, 0xF3, 0x94, 0x50]).unwrap().num_samples(), 576);
}
