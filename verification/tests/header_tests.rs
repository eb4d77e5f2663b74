#![allow(unused_imports)]

use oxideav_dts::{
    assemble_xin, bhuff_codebook, bitalloc_codebook, block_code_word_bits, decode_abits,
    decode_abits_at, decode_audio_huff, decode_audio_huff_at, decode_huffman_table,
    decode_lfe_phase_at, decode_primary_side_info_at, decode_scales, decode_scales_at,
    decode_tmode, detect_sync, encode_frame_header_be, error_class, find_all_syncs,
    find_next_sync, iter_frames, iter_frames_resync, nfe_word_bits, parse_any_frame_header,
    parse_audio_coding_header, parse_frame_header, parse_frame_header_14bit, probe_dts_class,
    scan_hf_vq_indices_at, shift_x_history, sign_extend, split_hfreq_vq_entry, thuff_codebook,
    unpack_14bit_to_16bit, AbitsCodebook, AudioArrayDecodeError, AudioArrayError,
    AudioCodingHeader, AudioHuffCodebook, BitReader, ChannelSideInfo, ChannelSideInfoParams,
    DecoderState, DtsFrameHeader, Error, ErrorClass, FilterBankSelection, FourteenBitByteOrder,
    FrameIterator, FrameIteratorResync, FrameType, FrameView, LfeMode, PrimarySideInfo,
    ProbeClass, QmfAssembleError, ReceiveOutcome, ResyncCause, ResyncEvent, ScalesCodebook,
    SubsubframeCount, SyncMatch, SyncWordEncoding, TmodeCodebook, Vlc, VlcEntry,
    ADPCM_VQ_BOOK_SIZE, ADPCM_VQ_INDEX_BITS, ADPCM_VQ_VECTOR_LEN, COS_MOD_BLOCK1_START,
    COS_MOD_BLOCK2_START, COS_MOD_BLOCK3_START, COS_MOD_BLOCK4_START, COS_MOD_LEN,
    HFREQ_VQ_BOOK_SIZE, HFREQ_VQ_ENTRIES_PER_VECTOR, HFREQ_VQ_INDEX_BITS, HFREQ_VQ_VECTOR_LEN,
    MAX_AUDIO_HUFF_CODE_LEN, MAX_PRIMARY_CHANNELS, NUM_SUBBAND, RMS_6BIT, RMS_7BIT,
    X_HISTORY_LEN,
};
#[allow(clippy::too_many_arguments)]
fn build_be_header(
    ftype: u32,
    sample_count_m1: u32,
    crc_present: u32,
    nblks: u32,
    fsize_m1: u32,
    amode: u32,
    sfreq: u32,
    rate: u32,
    extra_bits: u32,
    header_crc: Option<u32>,
    post_crc: u32,
) -> Vec<u8> {
    let mut bv: Vec<bool> = Vec::new();

    fn push(bv: &mut Vec<bool>, value: u32, width: u32) {
        for i in (0..width).rev() {
            bv.push(((value >> i) & 1) == 1);
        }
    }

    push(&mut bv, 0x7FFE_8001, 32);
    push(&mut bv, ftype, 1);
    push(&mut bv, sample_count_m1, 5);
    push(&mut bv, crc_present, 1);
    push(&mut bv, nblks, 7);
    push(&mut bv, fsize_m1, 14);
    push(&mut bv, amode, 6);
    push(&mut bv, sfreq, 4);
    push(&mut bv, rate, 5);
    push(&mut bv, extra_bits, 13);
    if let Some(crc) = header_crc {
        push(&mut bv, crc, 16);
    }
    push(&mut bv, post_crc, 16);
    while bv.len() % 8 != 0 {
        bv.push(false);
    }
    let mut bytes = Vec::with_capacity(bv.len() / 8);
    for chunk in bv.chunks(8) {
        let mut b: u8 = 0;
        for (i, bit) in chunk.iter().enumerate() {
            if *bit {
                b |= 1 << (7 - i);
            }
        }
        bytes.push(b);
    }
    while bytes.len() < 16 {
        bytes.push(0);
    }
    bytes
}

#[test]
fn detect_raw_be_sync() {
    let mut buf = vec![0; 16];
    buf[0] = 0x7F;
    buf[1] = 0xFE;
    buf[2] = 0x80;
    buf[3] = 0x01;
    assert_eq!(detect_sync(&buf).unwrap(), SyncWordEncoding::RawBigEndian);
}

#[test]
fn detect_raw_le_sync() {
    let buf = [0xFE, 0x7F, 0x01, 0x80];
    assert_eq!(
        detect_sync(&buf).unwrap(),
        SyncWordEncoding::RawLittleEndian
    );
}

#[test]
fn detect_14bit_be_sync() {
    let buf = [0x1F, 0xFF, 0xE8, 0x00, 0x07, 0xFA];
    assert_eq!(
        detect_sync(&buf).unwrap(),
        SyncWordEncoding::FourteenBitBigEndian
    );
}

#[test]
fn detect_14bit_le_sync() {
    let buf = [0xFF, 0x1F, 0x00, 0xE8, 0xF3, 0x07];
    assert_eq!(
        detect_sync(&buf).unwrap(),
        SyncWordEncoding::FourteenBitLittleEndian
    );
}

#[test]
fn detect_no_sync_returns_error() {
    let buf = [0xDE, 0xAD, 0xBE, 0xEF];
    assert_eq!(detect_sync(&buf).unwrap_err(), Error::NoSync);
}

#[test]
fn detect_short_buffer_returns_eof() {
    assert_eq!(detect_sync(&[0x7F]).unwrap_err(), Error::UnexpectedEof);
}

#[test]
fn parse_normal_frame_be_typical() {
    let bytes = build_be_header(
        1,
        31,
        1,
        15,
        1023,
        9,
        13,
        25,
        0b1_0100_1010_0011,
        Some(0xC0DE),
        0,
    );

    let hdr = parse_frame_header(&bytes).unwrap();
    assert_eq!(hdr.sync_word_encoding, SyncWordEncoding::RawBigEndian);
    assert_eq!(hdr.frame_type, FrameType::Normal);
    assert_eq!(hdr.sample_count_per_block, 32);
    assert!(hdr.crc_present);
    assert_eq!(hdr.blocks_per_frame, 15);
    assert_eq!(hdr.frame_size_bytes, 1024);
    assert_eq!(hdr.amode, 9);
    assert_eq!(hdr.sfreq_index, 13);
    assert_eq!(hdr.rate_index, 25);
    assert!(hdr.downmix);
    assert!(!hdr.dynamic_range);
    assert!(hdr.time_stamp);
    assert!(!hdr.aux_data);
    assert!(!hdr.hdcd);
    assert_eq!(hdr.ext_descr, 0b101);
    assert!(!hdr.ext_coding);
    assert!(!hdr.aspf);
    assert_eq!(hdr.lfe, LfeMode::Mode1);
    assert!(hdr.predictor_history);
    assert_eq!(hdr.header_crc, Some(0xC0DE));
    assert!(!hdr.multirate_inter);
    assert_eq!(hdr.version, 0);
    assert_eq!(hdr.copy_history, 0);
    assert_eq!(hdr.source_pcm_resolution_index, 0);
    assert!(!hdr.front_sum);
    assert!(!hdr.surround_sum);
    assert_eq!(hdr.dialog_normalization, 0);
}

#[test]
fn parse_termination_frame_be() {
    let bytes = build_be_header(0, 0, 0, 5, 94, 0, 0, 0, 0, None, 0);
    let hdr = parse_frame_header(&bytes).unwrap();
    assert_eq!(hdr.frame_type, FrameType::Termination);
    assert_eq!(hdr.sample_count_per_block, 1);
    assert!(!hdr.crc_present);
    assert_eq!(hdr.blocks_per_frame, 5);
    assert_eq!(hdr.frame_size_bytes, 95);
    assert!(!hdr.downmix);
    assert!(!hdr.dynamic_range);
    assert!(!hdr.time_stamp);
    assert!(!hdr.aux_data);
    assert!(!hdr.hdcd);
    assert_eq!(hdr.ext_descr, 0);
    assert!(!hdr.ext_coding);
    assert!(!hdr.aspf);
    assert_eq!(hdr.lfe, LfeMode::NoLfe);
    assert!(!hdr.predictor_history);
    assert_eq!(hdr.header_crc, None);
    assert!(!hdr.multirate_inter);
    assert_eq!(hdr.version, 0);
    assert_eq!(hdr.copy_history, 0);
    assert_eq!(hdr.source_pcm_resolution_index, 0);
    assert!(!hdr.front_sum);
    assert!(!hdr.surround_sum);
    assert_eq!(hdr.dialog_normalization, 0);
}

#[test]
fn parse_rejects_nblks_below_5() {
    let bytes = build_be_header(1, 31, 1, 4, 1023, 0, 0, 0, 0, Some(0), 0);
    assert_eq!(
        parse_frame_header(&bytes).unwrap_err(),
        Error::BlockCountOutOfRange { blocks: 4 }
    );
}

#[test]
fn parse_rejects_frame_size_below_95() {
    let bytes = build_be_header(1, 31, 1, 16, 93, 0, 0, 0, 0, Some(0), 0);
    assert_eq!(
        parse_frame_header(&bytes).unwrap_err(),
        Error::FrameSizeOutOfRange { frame_size: 94 }
    );
}

#[test]
fn parse_accepts_largest_documented_values() {
    let bytes = build_be_header(
        1,
        31,
        1,
        127,
        16383,
        63,
        15,
        31,
        0b1_1111_1111_1111,
        Some(0xFFFF),
        0xFFFF,
    );
    let hdr = parse_frame_header(&bytes).unwrap();
    assert_eq!(hdr.blocks_per_frame, 127);
    assert_eq!(hdr.frame_size_bytes, 16384);
    assert_eq!(hdr.amode, 63);
    assert_eq!(hdr.sfreq_index, 15);
    assert_eq!(hdr.rate_index, 31);
    assert!(hdr.downmix);
    assert!(hdr.dynamic_range);
    assert!(hdr.time_stamp);
    assert!(hdr.aux_data);
    assert!(hdr.hdcd);
    assert_eq!(hdr.ext_descr, 0b111);
    assert!(hdr.ext_coding);
    assert!(hdr.aspf);
    assert_eq!(hdr.lfe, LfeMode::Mode3);
    assert!(hdr.predictor_history);
    assert_eq!(hdr.header_crc, Some(0xFFFF));
    assert!(hdr.multirate_inter);
    assert_eq!(hdr.version, 0b1111);
    assert_eq!(hdr.copy_history, 0b11);
    assert_eq!(hdr.source_pcm_resolution_index, 0b111);
    assert!(hdr.front_sum);
    assert!(hdr.surround_sum);
    assert_eq!(hdr.dialog_normalization, 0b1111);
}

#[test]
fn parse_short_buffer_returns_eof() {
    let mut bytes = build_be_header(1, 31, 1, 16, 1023, 9, 13, 25, 0, Some(0), 0);
    bytes.truncate(8);
    assert_eq!(
        parse_frame_header(&bytes).unwrap_err(),
        Error::UnexpectedEof
    );
}

#[test]
fn parse_le_byteswapped_matches_be() {
    let be = build_be_header(
        1,
        31,
        1,
        16,
        1023,
        9,
        13,
        25,
        0b1_0100_1010_0011,
        Some(0xBEEF),
        0xCAFE,
    );
    let mut le = Vec::with_capacity(be.len());
    for chunk in be.chunks_exact(2) {
        le.push(chunk[1]);
        le.push(chunk[0]);
    }
    assert_eq!(&le[..4], &[0xFE, 0x7F, 0x01, 0x80]);
    let hdr_be = parse_frame_header(&be).unwrap();
    let hdr_le = parse_frame_header(&le).unwrap();
    assert_eq!(hdr_le.sync_word_encoding, SyncWordEncoding::RawLittleEndian);
    assert_eq!(hdr_le.frame_type, hdr_be.frame_type);
    assert_eq!(hdr_le.sample_count_per_block, hdr_be.sample_count_per_block);
    assert_eq!(hdr_le.crc_present, hdr_be.crc_present);
    assert_eq!(hdr_le.blocks_per_frame, hdr_be.blocks_per_frame);
    assert_eq!(hdr_le.frame_size_bytes, hdr_be.frame_size_bytes);
    assert_eq!(hdr_le.amode, hdr_be.amode);
    assert_eq!(hdr_le.sfreq_index, hdr_be.sfreq_index);
    assert_eq!(hdr_le.rate_index, hdr_be.rate_index);
    assert_eq!(hdr_le.downmix, hdr_be.downmix);
    assert_eq!(hdr_le.dynamic_range, hdr_be.dynamic_range);
    assert_eq!(hdr_le.time_stamp, hdr_be.time_stamp);
    assert_eq!(hdr_le.aux_data, hdr_be.aux_data);
    assert_eq!(hdr_le.hdcd, hdr_be.hdcd);
    assert_eq!(hdr_le.ext_descr, hdr_be.ext_descr);
    assert_eq!(hdr_le.ext_coding, hdr_be.ext_coding);
    assert_eq!(hdr_le.aspf, hdr_be.aspf);
    assert_eq!(hdr_le.lfe, hdr_be.lfe);
    assert_eq!(hdr_le.predictor_history, hdr_be.predictor_history);
    assert_eq!(hdr_le.header_crc, hdr_be.header_crc);
    assert_eq!(hdr_le.multirate_inter, hdr_be.multirate_inter);
    assert_eq!(hdr_le.version, hdr_be.version);
    assert_eq!(hdr_le.copy_history, hdr_be.copy_history);
    assert_eq!(
        hdr_le.source_pcm_resolution_index,
        hdr_be.source_pcm_resolution_index
    );
    assert_eq!(hdr_le.front_sum, hdr_be.front_sum);
    assert_eq!(hdr_le.surround_sum, hdr_be.surround_sum);
    assert_eq!(hdr_le.dialog_normalization, hdr_be.dialog_normalization);
}

#[test]
fn parse_14bit_be_returns_unsupported() {
    let mut buf = vec![0; 16];
    buf[..6].copy_from_slice(&[0x1F, 0xFF, 0xE8, 0x00, 0x07, 0xFA]);
    assert_eq!(
        parse_frame_header(&buf).unwrap_err(),
        Error::UnsupportedFourteenBit
    );
}

#[test]
fn parse_14bit_le_returns_unsupported() {
    let mut buf = vec![0; 16];
    buf[..6].copy_from_slice(&[0xFF, 0x1F, 0x00, 0xE8, 0xF3, 0x07]);
    assert_eq!(
        parse_frame_header(&buf).unwrap_err(),
        Error::UnsupportedFourteenBit
    );
}

#[allow(clippy::too_many_arguments)]
fn build_14bit_packed_header(
    order: FourteenBitByteOrder,
    ftype: u32,
    sample_count_m1: u32,
    crc_present: u32,
    nblks: u32,
    fsize_m1: u32,
    amode: u32,
    sfreq: u32,
    rate: u32,
    extra_bits: u32,
    header_crc: Option<u32>,
    post_crc: u32,
) -> Vec<u8> {
    let raw_be = build_be_header(
        ftype,
        sample_count_m1,
        crc_present,
        nblks,
        fsize_m1,
        amode,
        sfreq,
        rate,
        extra_bits,
        header_crc,
        post_crc,
    );
    let mut packed: Vec<u8> = Vec::new();
    let mut bit_pos: usize = 0;
    let total_bits = raw_be.len() * 8;
    while bit_pos + 14 <= total_bits {
        let mut payload: u16 = 0;
        for i in 0..14 {
            let abs = bit_pos + i;
            let bit = (raw_be[abs / 8] >> (7 - (abs % 8))) & 1;
            payload = (payload << 1) | bit as u16;
        }
        let container = if payload & 0x2000 != 0 {
            payload | 0xC000
        } else {
            payload & 0x3FFF
        };
        let bytes = match order {
            FourteenBitByteOrder::BigEndian => container.to_be_bytes(),
            FourteenBitByteOrder::LittleEndian => container.to_le_bytes(),
        };
        packed.extend_from_slice(&bytes);
        bit_pos += 14;
    }
    packed
}

#[test]
fn parse_frame_header_14bit_be_matches_raw_be() {
    let raw = build_be_header(
        1,
        31,
        1,
        16,
        1023,
        9,
        13,
        25,
        0b1_0100_1010_0011,
        Some(0xC0DE),
        0x9876,
    );
    let packed = build_14bit_packed_header(
        FourteenBitByteOrder::BigEndian,
        1,
        31,
        1,
        16,
        1023,
        9,
        13,
        25,
        0b1_0100_1010_0011,
        Some(0xC0DE),
        0x9876,
    );
    let hdr_raw = parse_frame_header(&raw).unwrap();
    let hdr_packed = parse_frame_header_14bit(&packed).unwrap();
    assert_eq!(
        hdr_packed.sync_word_encoding,
        SyncWordEncoding::FourteenBitBigEndian,
    );
    assert_eq!(hdr_packed.frame_type, hdr_raw.frame_type);
    assert_eq!(
        hdr_packed.sample_count_per_block,
        hdr_raw.sample_count_per_block,
    );
    assert_eq!(hdr_packed.crc_present, hdr_raw.crc_present);
    assert_eq!(hdr_packed.blocks_per_frame, hdr_raw.blocks_per_frame);
    assert_eq!(hdr_packed.frame_size_bytes, hdr_raw.frame_size_bytes);
    assert_eq!(hdr_packed.amode, hdr_raw.amode);
    assert_eq!(hdr_packed.sfreq_index, hdr_raw.sfreq_index);
    assert_eq!(hdr_packed.rate_index, hdr_raw.rate_index);
    assert_eq!(hdr_packed.downmix, hdr_raw.downmix);
    assert_eq!(hdr_packed.dynamic_range, hdr_raw.dynamic_range);
    assert_eq!(hdr_packed.time_stamp, hdr_raw.time_stamp);
    assert_eq!(hdr_packed.aux_data, hdr_raw.aux_data);
    assert_eq!(hdr_packed.hdcd, hdr_raw.hdcd);
    assert_eq!(hdr_packed.ext_descr, hdr_raw.ext_descr);
    assert_eq!(hdr_packed.ext_coding, hdr_raw.ext_coding);
    assert_eq!(hdr_packed.aspf, hdr_raw.aspf);
    assert_eq!(hdr_packed.lfe, hdr_raw.lfe);
    assert_eq!(hdr_packed.predictor_history, hdr_raw.predictor_history);
    assert_eq!(hdr_packed.header_crc, hdr_raw.header_crc);
    assert_eq!(hdr_packed.multirate_inter, hdr_raw.multirate_inter);
    assert_eq!(hdr_packed.version, hdr_raw.version);
    assert_eq!(hdr_packed.copy_history, hdr_raw.copy_history);
    assert_eq!(
        hdr_packed.source_pcm_resolution_index,
        hdr_raw.source_pcm_resolution_index
    );
    assert_eq!(hdr_packed.front_sum, hdr_raw.front_sum);
    assert_eq!(hdr_packed.surround_sum, hdr_raw.surround_sum);
    assert_eq!(
        hdr_packed.dialog_normalization,
        hdr_raw.dialog_normalization
    );
}

#[test]
fn parse_frame_header_14bit_le_matches_raw_be() {
    let raw = build_be_header(0, 0, 0, 5, 94, 0, 0, 0, 0, None, 0);
    let packed = build_14bit_packed_header(
        FourteenBitByteOrder::LittleEndian,
        0,
        0,
        0,
        5,
        94,
        0,
        0,
        0,
        0,
        None,
        0,
    );
    let hdr_raw = parse_frame_header(&raw).unwrap();
    let hdr_packed = parse_frame_header_14bit(&packed).unwrap();
    assert_eq!(
        hdr_packed.sync_word_encoding,
        SyncWordEncoding::FourteenBitLittleEndian,
    );
    assert_eq!(hdr_packed.frame_type, FrameType::Termination);
    assert_eq!(hdr_packed.frame_type, hdr_raw.frame_type);
    assert_eq!(hdr_packed.blocks_per_frame, hdr_raw.blocks_per_frame);
    assert_eq!(hdr_packed.frame_size_bytes, hdr_raw.frame_size_bytes);
    assert_eq!(hdr_packed.header_crc, None);
    assert!(!hdr_packed.multirate_inter);
    assert_eq!(hdr_packed.version, 0);
    assert_eq!(hdr_packed.dialog_normalization, 0);
}

#[test]
fn parse_frame_header_14bit_rejects_raw_be_input() {
    let raw = build_be_header(1, 31, 1, 16, 1023, 9, 13, 25, 0, None, 0);
    assert_eq!(parse_frame_header_14bit(&raw).unwrap_err(), Error::NoSync,);
}

#[test]
fn parse_frame_header_14bit_short_buffer_returns_eof() {
    let buf = [0x1F, 0xFF, 0xE8, 0x00, 0x07, 0xF0];
    assert_eq!(
        parse_frame_header_14bit(&buf).unwrap_err(),
        Error::UnexpectedEof,
    );
}

#[test]
fn parse_frame_header_14bit_value_resolvers_still_none() {
    let packed = build_14bit_packed_header(
        FourteenBitByteOrder::BigEndian,
        1,
        31,
        1,
        16,
        1023,
        9,
        13,
        25,
        0,
        Some(0),
        0,
    );
    let hdr = parse_frame_header_14bit(&packed).unwrap();
    assert_eq!(hdr.sample_rate_hz(), None);
    assert_eq!(hdr.bit_rate_bps(), None);
    assert_eq!(hdr.channel_count(), None);
    assert_eq!(hdr.source_pcm_bits_per_sample(), None);
    assert_eq!(hdr.dialog_normalization_db(), None);
}

#[test]
fn parse_no_sync_returns_no_sync() {
    let buf = [0xDE, 0xAD, 0xBE, 0xEF, 0, 0, 0, 0, 0, 0, 0, 0, 0, 0, 0, 0];
    assert_eq!(parse_frame_header(&buf).unwrap_err(), Error::NoSync);
}

#[test]
fn value_resolvers_return_none_until_tables_land() {
    let bytes = build_be_header(1, 31, 1, 16, 1023, 9, 13, 25, 0, Some(0), 0);
    let hdr = parse_frame_header(&bytes).unwrap();
    assert_eq!(hdr.sample_rate_hz(), None);
    assert_eq!(hdr.bit_rate_bps(), None);
    assert_eq!(hdr.channel_count(), None);
    assert_eq!(hdr.source_pcm_bits_per_sample(), None);
    assert_eq!(hdr.dialog_normalization_db(), None);
}

#[test]
fn lfe_mode_codes_round_trip() {
    for code in 0..=3u32 {
        let extra = (code & 0b11) << 1;
        let bytes = build_be_header(1, 31, 0, 16, 1023, 9, 13, 25, extra, None, 0);
        let hdr = parse_frame_header(&bytes).unwrap();
        assert_eq!(hdr.lfe.code(), code as u8, "code {code}");
        assert_eq!(hdr.lfe.is_present(), code != 0, "is_present({code})");
        let expected = match code {
            0 => LfeMode::NoLfe,
            1 => LfeMode::Mode1,
            2 => LfeMode::Mode2,
            _ => LfeMode::Mode3,
        };
        assert_eq!(hdr.lfe, expected, "enum mapping for code {code}");
    }
}

#[test]
fn header_crc_absent_when_crc_present_bit_is_zero() {
    let bytes = build_be_header(1, 31, 0, 16, 1023, 9, 13, 25, 0, None, 0);
    let hdr = parse_frame_header(&bytes).unwrap();
    assert!(!hdr.crc_present);
    assert_eq!(hdr.header_crc, None);
    assert_eq!(hdr.verify_header_crc(), None);
}

#[test]
fn header_crc_present_returns_raw_field_and_unverified() {
    let bytes = build_be_header(1, 31, 1, 16, 1023, 9, 13, 25, 0, Some(0x1234), 0);
    let hdr = parse_frame_header(&bytes).unwrap();
    assert!(hdr.crc_present);
    assert_eq!(hdr.header_crc, Some(0x1234));
    assert_eq!(hdr.verify_header_crc(), None);
}

#[test]
fn trailing_bits_all_zero_decodes_clean() {
    let bytes = build_be_header(1, 31, 0, 16, 1023, 9, 13, 25, 0, None, 0);
    let hdr = parse_frame_header(&bytes).unwrap();
    assert!(!hdr.downmix);
    assert!(!hdr.dynamic_range);
    assert!(!hdr.time_stamp);
    assert!(!hdr.aux_data);
    assert!(!hdr.hdcd);
    assert_eq!(hdr.ext_descr, 0);
    assert!(!hdr.ext_coding);
    assert!(!hdr.aspf);
    assert_eq!(hdr.lfe, LfeMode::NoLfe);
    assert!(!hdr.predictor_history);
}

#[test]
fn trailing_bits_all_one_decodes_max() {
    let bytes = build_be_header(1, 31, 0, 16, 1023, 9, 13, 25, 0b1_1111_1111_1111, None, 0);
    let hdr = parse_frame_header(&bytes).unwrap();
    assert!(hdr.downmix);
    assert!(hdr.dynamic_range);
    assert!(hdr.time_stamp);
    assert!(hdr.aux_data);
    assert!(hdr.hdcd);
    assert_eq!(hdr.ext_descr, 0b111);
    assert!(hdr.ext_coding);
    assert!(hdr.aspf);
    assert_eq!(hdr.lfe, LfeMode::Mode3);
    assert!(hdr.predictor_history);
}

#[test]
fn post_crc_window_decomposes_into_individual_fields() {
    let bytes = build_be_header(1, 31, 1, 16, 1023, 9, 13, 25, 0, Some(0), 0xD2EC);
    let hdr = parse_frame_header(&bytes).unwrap();
    assert!(hdr.multirate_inter);
    assert_eq!(hdr.version, 0b1010);
    assert_eq!(hdr.copy_history, 0b01);
    assert_eq!(hdr.source_pcm_resolution_index, 0b011);
    assert!(hdr.front_sum);
    assert!(!hdr.surround_sum);
    assert_eq!(hdr.dialog_normalization, 0b1100);
}

#[test]
fn post_crc_window_all_zero_decodes_to_zero_fields() {
    let bytes = build_be_header(1, 31, 0, 16, 1023, 9, 13, 25, 0, None, 0);
    let hdr = parse_frame_header(&bytes).unwrap();
    assert!(!hdr.multirate_inter);
    assert_eq!(hdr.version, 0);
    assert_eq!(hdr.copy_history, 0);
    assert_eq!(hdr.source_pcm_resolution_index, 0);
    assert!(!hdr.front_sum);
    assert!(!hdr.surround_sum);
    assert_eq!(hdr.dialog_normalization, 0);
}

#[test]
fn post_crc_window_all_one_decodes_to_max_fields() {
    let bytes = build_be_header(1, 31, 0, 16, 1023, 9, 13, 25, 0, None, 0xFFFF);
    let hdr = parse_frame_header(&bytes).unwrap();
    assert!(hdr.multirate_inter);
    assert_eq!(hdr.version, 0b1111);
    assert_eq!(hdr.copy_history, 0b11);
    assert_eq!(hdr.source_pcm_resolution_index, 0b111);
    assert!(hdr.front_sum);
    assert!(hdr.surround_sum);
    assert_eq!(hdr.dialog_normalization, 0b1111);
}

#[test]
fn pcmr_index_round_trips_for_every_3bit_code() {
    for code in 0..=7u32 {
        let post_crc = (code & 0b111) << 6;
        let bytes = build_be_header(1, 31, 0, 16, 1023, 9, 13, 25, 0, None, post_crc);
        let hdr = parse_frame_header(&bytes).unwrap();
        assert_eq!(
            hdr.source_pcm_resolution_index, code as u8,
            "PCMR code {code}"
        );
        assert_eq!(
            hdr.source_pcm_bits_per_sample(),
            None,
            "PCMR resolver must remain None until docs land",
        );
    }
}

#[test]
fn dialnorm_code_round_trips_for_every_4bit_value() {
    for code in 0..=15u32 {
        let post_crc = code & 0b1111;
        let bytes = build_be_header(1, 31, 0, 16, 1023, 9, 13, 25, 0, None, post_crc);
        let hdr = parse_frame_header(&bytes).unwrap();
        assert_eq!(hdr.dialog_normalization, code as u8, "DIALNORM code {code}");
        assert_eq!(
            hdr.dialog_normalization_db(),
            None,
            "DIALNORM resolver must remain None until docs land",
        );
    }
}

#[test]
fn version_code_round_trips_for_every_4bit_value() {
    for code in 0..=15u32 {
        let post_crc = (code & 0b1111) << 11;
        let bytes = build_be_header(1, 31, 0, 16, 1023, 9, 13, 25, 0, None, post_crc);
        let hdr = parse_frame_header(&bytes).unwrap();
        assert_eq!(hdr.version, code as u8, "VERSION code {code}");
    }
}

#[test]
fn copy_history_code_round_trips_for_every_2bit_value() {
    for code in 0..=3u32 {
        let post_crc = (code & 0b11) << 9;
        let bytes = build_be_header(1, 31, 0, 16, 1023, 9, 13, 25, 0, None, post_crc);
        let hdr = parse_frame_header(&bytes).unwrap();
        assert_eq!(hdr.copy_history, code as u8, "COPY_HISTORY code {code}");
    }
}

#[test]
fn post_crc_window_decodes_regardless_of_crc_present_flag() {
    let payload = 0xD2EC;
    let with_crc = build_be_header(1, 31, 1, 16, 1023, 9, 13, 25, 0, Some(0xBEEF), payload);
    let without_crc = build_be_header(1, 31, 0, 16, 1023, 9, 13, 25, 0, None, payload);
    let hdr_with = parse_frame_header(&with_crc).unwrap();
    let hdr_without = parse_frame_header(&without_crc).unwrap();
    assert_eq!(hdr_with.header_crc, Some(0xBEEF));
    assert_eq!(hdr_without.header_crc, None);
    assert_eq!(hdr_with.multirate_inter, hdr_without.multirate_inter);
    assert_eq!(hdr_with.version, hdr_without.version);
    assert_eq!(hdr_with.copy_history, hdr_without.copy_history);
    assert_eq!(
        hdr_with.source_pcm_resolution_index,
        hdr_without.source_pcm_resolution_index
    );
    assert_eq!(hdr_with.front_sum, hdr_without.front_sum);
    assert_eq!(hdr_with.surround_sum, hdr_without.surround_sum);
    assert_eq!(
        hdr_with.dialog_normalization,
        hdr_without.dialog_normalization
    );
}

#[test]
fn header_bit_length_104_when_crc_absent() {
    let bytes = build_be_header(1, 31, 0, 16, 1023, 9, 13, 25, 0, None, 0);
    let hdr = parse_frame_header(&bytes).unwrap();
    assert!(!hdr.crc_present);
    assert_eq!(hdr.header_bit_length(), 104);
    assert_eq!(hdr.header_byte_length(), 13);
}

#[test]
fn header_bit_length_120_when_crc_present() {
    let bytes = build_be_header(1, 31, 1, 16, 1023, 9, 13, 25, 0, Some(0xBEEF), 0);
    let hdr = parse_frame_header(&bytes).unwrap();
    assert!(hdr.crc_present);
    assert_eq!(hdr.header_bit_length(), 120);
    assert_eq!(hdr.header_byte_length(), 15);
}

#[test]
fn header_bit_length_matches_manual_wiki_table_sum() {
    let sync = 32u32;
    let base = 1 + 5 + 1 + 7 + 14 + 6 + 4 + 5;
    let trailing = 1 + 1 + 1 + 1 + 1 + 3 + 1 + 1 + 2 + 1;
    let post_crc = 1 + 4 + 2 + 3 + 1 + 1 + 4;
    let crc_slot = 16;

    let absent = build_be_header(1, 31, 0, 5, 94, 0, 0, 0, 0, None, 0);
    let hdr_absent = parse_frame_header(&absent).unwrap();
    assert_eq!(
        hdr_absent.header_bit_length(),
        sync + base + trailing + post_crc,
    );

    let present = build_be_header(1, 31, 1, 5, 94, 0, 0, 0, 0, Some(0), 0);
    let hdr_present = parse_frame_header(&present).unwrap();
    assert_eq!(
        hdr_present.header_bit_length(),
        sync + base + trailing + post_crc + crc_slot,
    );
}

#[test]
fn header_byte_length_is_always_byte_aligned() {
    for crc in [0, 1] {
        for nblks in [5u32, 16, 127] {
            for fsize_m1 in [94u32, 1023, 16383] {
                let crc_payload = if crc == 1 { Some(0) } else { None };
                let bytes =
                    build_be_header(1, 31, crc, nblks, fsize_m1, 0, 0, 0, 0, crc_payload, 0);
                let hdr = parse_frame_header(&bytes).unwrap();
                assert_eq!(
                    hdr.header_bit_length() % 8,
                    0,
                    "bit length must be byte-aligned (crc={crc} nblks={nblks} fsize_m1={fsize_m1})"
                );
                assert_eq!(
                    hdr.header_byte_length() * 8,
                    hdr.header_bit_length() as usize,
                );
            }
        }
    }
}

#[test]
fn header_bit_length_14bit_matches_raw_be() {
    let raw = build_be_header(1, 31, 1, 16, 1023, 9, 13, 25, 0, Some(0xC0DE), 0);
    let packed = build_14bit_packed_header(
        FourteenBitByteOrder::BigEndian,
        1,
        31,
        1,
        16,
        1023,
        9,
        13,
        25,
        0,
        Some(0xC0DE),
        0,
    );
    let hdr_raw = parse_frame_header(&raw).unwrap();
    let hdr_packed = parse_frame_header_14bit(&packed).unwrap();
    assert_eq!(hdr_raw.header_bit_length(), 120);
    assert_eq!(hdr_packed.header_bit_length(), 120);
    assert_eq!(
        hdr_raw.header_byte_length(),
        hdr_packed.header_byte_length()
    );
}

#[test]
fn encode_round_trip_non_trivial_with_crc() {
    let bytes_in = build_be_header(
        1,
        31,
        1,
        16,
        1023,
        9,
        13,
        25,
        0b1_0100_1010_0011,
        Some(0xC0DE),
        0xD2EC,
    );
    let hdr = parse_frame_header(&bytes_in).unwrap();

    let encoded = encode_frame_header_be(&hdr).expect("encode must succeed");
    assert_eq!(encoded.len(), hdr.header_byte_length());
    assert_eq!(encoded.len(), 15);

    assert_eq!(&encoded[..4], &[0x7F, 0xFE, 0x80, 0x01]);

    assert_eq!(&encoded[..], &bytes_in[..encoded.len()]);

    let mut hdr_round = parse_frame_header(&encoded).unwrap();
    assert_eq!(hdr_round.sync_word_encoding, SyncWordEncoding::RawBigEndian);
    hdr_round.sync_word_encoding = hdr.sync_word_encoding;
    assert_eq!(hdr_round, hdr);
}

#[test]
fn encode_round_trip_termination_no_crc_minimal() {
    let bytes_in = build_be_header(0, 0, 0, 5, 94, 0, 0, 0, 0, None, 0);
    let hdr = parse_frame_header(&bytes_in).unwrap();

    let encoded = encode_frame_header_be(&hdr).unwrap();
    assert_eq!(encoded.len(), 13);
    assert_eq!(encoded.len(), hdr.header_byte_length());

    assert_eq!(&encoded[..], &bytes_in[..13]);

    let mut padded = encoded.clone();
    padded.extend_from_slice(&[0u8; 2]);
    let hdr_round = parse_frame_header(&padded).unwrap();
    assert_eq!(hdr_round.frame_type, FrameType::Termination);
    assert_eq!(hdr_round.sample_count_per_block, 1);
    assert!(!hdr_round.crc_present);
    assert_eq!(hdr_round.blocks_per_frame, 5);
    assert_eq!(hdr_round.frame_size_bytes, 95);
    let mut hdr_norm = hdr_round;
    hdr_norm.sync_word_encoding = hdr.sync_word_encoding;
    assert_eq!(hdr_norm, hdr);
}

#[test]
fn encode_rejects_nblks_below_5() {
    let hdr = synth_hdr(|h| h.blocks_per_frame = 4);
    let err = encode_frame_header_be(&hdr).unwrap_err();
    assert_eq!(err, Error::BlockCountOutOfRange { blocks: 4 });
}

#[test]
fn encode_rejects_nblks_above_127() {
    let hdr = synth_hdr(|h| h.blocks_per_frame = 128);
    let err = encode_frame_header_be(&hdr).unwrap_err();
    assert_eq!(err, Error::BlockCountOutOfRange { blocks: 128 });
}

#[test]
fn encode_rejects_frame_size_below_95() {
    let hdr = synth_hdr(|h| h.frame_size_bytes = 94);
    let err = encode_frame_header_be(&hdr).unwrap_err();
    assert_eq!(err, Error::FrameSizeOutOfRange { frame_size: 94 });
}

#[test]
fn encode_rejects_frame_size_above_16384() {
    let hdr = synth_hdr(|h| h.frame_size_bytes = 16385);
    let err = encode_frame_header_be(&hdr).unwrap_err();
    assert_eq!(err, Error::FrameSizeOutOfRange { frame_size: 16385 });
}

#[test]
fn encode_rejects_amode_above_63() {
    let hdr = synth_hdr(|h| h.amode = 64);
    let err = encode_frame_header_be(&hdr).unwrap_err();
    assert_eq!(
        err,
        Error::FieldOutOfRange {
            field: "amode",
            value: 64,
            max: 63
        }
    );
}

#[test]
fn encode_rejects_pcmr_above_7() {
    let hdr = synth_hdr(|h| h.source_pcm_resolution_index = 8);
    let err = encode_frame_header_be(&hdr).unwrap_err();
    assert_eq!(
        err,
        Error::FieldOutOfRange {
            field: "source_pcm_resolution_index",
            value: 8,
            max: 7,
        }
    );
}

#[test]
fn encode_rejects_version_above_15() {
    let hdr = synth_hdr(|h| h.version = 16);
    let err = encode_frame_header_be(&hdr).unwrap_err();
    assert_eq!(
        err,
        Error::FieldOutOfRange {
            field: "version",
            value: 16,
            max: 15,
        }
    );
}

#[test]
fn encode_rejects_crc_payload_without_crc_present() {
    let hdr = synth_hdr(|h| {
        h.crc_present = false;
        h.header_crc = Some(0x1234);
    });
    let err = encode_frame_header_be(&hdr).unwrap_err();
    match err {
        Error::FieldOutOfRange { field, .. } => assert_eq!(field, "header_crc"),
        other => panic!("expected FieldOutOfRange{{field: header_crc}}, got {other:?}"),
    }
}

#[test]
fn encode_rejects_crc_present_without_payload() {
    let hdr = synth_hdr(|h| {
        h.crc_present = true;
        h.header_crc = None;
    });
    let err = encode_frame_header_be(&hdr).unwrap_err();
    match err {
        Error::FieldOutOfRange { field, .. } => assert_eq!(field, "header_crc"),
        other => panic!("expected FieldOutOfRange{{field: header_crc}}, got {other:?}"),
    }
}

#[test]
fn encode_normalises_le_input_to_raw_be_output() {
    let raw_be = build_be_header(1, 31, 0, 16, 1023, 9, 13, 25, 0, None, 0);
    let raw_le: Vec<u8> = raw_be.chunks_exact(2).flat_map(|c| [c[1], c[0]]).collect();
    let hdr_le = parse_frame_header(&raw_le).unwrap();
    assert_eq!(hdr_le.sync_word_encoding, SyncWordEncoding::RawLittleEndian);

    let encoded = encode_frame_header_be(&hdr_le).unwrap();
    assert_eq!(&encoded[..4], &[0x7F, 0xFE, 0x80, 0x01]);

    let mut padded = encoded.clone();
    padded.extend_from_slice(&[0u8; 2]);
    let hdr_round = parse_frame_header(&padded).unwrap();
    assert_eq!(hdr_round.sync_word_encoding, SyncWordEncoding::RawBigEndian);
    let mut hdr_norm = hdr_round;
    hdr_norm.sync_word_encoding = hdr_le.sync_word_encoding;
    assert_eq!(hdr_norm, hdr_le);
}

#[test]
fn encode_round_trip_grid_lfe_crc_states() {
    for crc_state in [false, true] {
        for lfe_code in 0u8..=3 {
            for &(nblks, fsize) in &[(5u8, 95u16), (16u8, 1024u16), (127u8, 16384u16)] {
                let crc_arg = if crc_state { Some(0xBEEF) } else { None };
                let bytes = build_be_header(
                    1,
                    31,
                    crc_state as u32,
                    nblks as u32,
                    (fsize - 1) as u32,
                    9,
                    13,
                    25,
                    ((lfe_code as u32) & 0b11) << 1,
                    crc_arg,
                    0,
                );
                let hdr = parse_frame_header(&bytes).unwrap();
                assert_eq!(hdr.lfe.code(), lfe_code);
                assert_eq!(hdr.crc_present, crc_state);

                let encoded = encode_frame_header_be(&hdr).unwrap();
                assert_eq!(encoded.len(), hdr.header_byte_length());

                let mut padded = encoded.clone();
                while padded.len() < 15 {
                    padded.push(0);
                }
                let hdr_round = parse_frame_header(&padded).unwrap();
                let mut hdr_norm = hdr_round;
                hdr_norm.sync_word_encoding = hdr.sync_word_encoding;
                assert_eq!(hdr_norm, hdr);
            }
        }
    }
}

#[test]
fn encode_reproduces_ffmpeg_fixture_header_prefix() {
    let ffmpeg_bytes: [u8; 16] = [
        0x7f, 0xfe, 0x80, 0x01, 0xfc, 0x3c, 0x3f, 0xf0, 0xb5, 0xe0, 0x01, 0x38, 0x00, 0x03,
        0xef, 0x7f,
    ];
    let hdr = parse_frame_header(&ffmpeg_bytes).unwrap();
    assert!(!hdr.crc_present);
    assert_eq!(hdr.header_byte_length(), 13);

    let encoded = encode_frame_header_be(&hdr).unwrap();
    assert_eq!(encoded.len(), 13);
    assert_eq!(&encoded[..], &ffmpeg_bytes[..13]);
}

fn synth_hdr(mutate: impl FnOnce(&mut DtsFrameHeader)) -> DtsFrameHeader {
    let bytes = build_be_header(1, 31, 0, 16, 1023, 9, 13, 25, 0, None, 0);
    let mut h = parse_frame_header(&bytes).unwrap();
    mutate(&mut h);
    h
}
