#![allow(unused_imports)]

use oxideav_dts::{
    assemble_xin, bhuff_codebook, bitalloc_codebook, block_code_word_bits, decode_abits,
    decode_abits_at, decode_audio_huff, decode_audio_huff_at, decode_huffman_table,
    decode_lfe_phase_at, decode_primary_side_info_at, decode_scales, decode_scales_at,
    decode_tmode, detect_sync, encode_frame_header_be, error_class, find_all_syncs,
    find_next_sync, iter_frames, iter_frames_resync, nfe_word_bits, parse_any_frame_header,
    parse_audio_coding_header, parse_frame_header, parse_frame_header_14bit, probe_dts_class,
    scan_hf_vq_indices_at, shift_x_history, sign_extend, split_hfreq_vq_entry, thuff_codebook,
    unpack_14bit_to_16bit, AbitsCodebook, AudioArrayDecodeError, AudioArrayError,
    AudioCodingHeader, AudioHuffCodebook, BitReader, ChannelSideInfo, ChannelSideInfoParams,
    DecoderState, DtsFrameHeader, Error, ErrorClass, FilterBankSelection, FourteenBitByteOrder,
    FrameIterator, FrameIteratorResync, FrameType, FrameView, LfeMode, PrimarySideInfo,
    ProbeClass, QmfAssembleError, ReceiveOutcome, ResyncCause, ResyncEvent, ScalesCodebook,
    SubsubframeCount, SyncMatch, SyncWordEncoding, TmodeCodebook, Vlc, VlcEntry,
    ADPCM_VQ_BOOK_SIZE, ADPCM_VQ_INDEX_BITS, ADPCM_VQ_VECTOR_LEN, COS_MOD_BLOCK1_START,
    COS_MOD_BLOCK2_START, COS_MOD_BLOCK3_START, COS_MOD_BLOCK4_START, COS_MOD_LEN,
    HFREQ_VQ_BOOK_SIZE, HFREQ_VQ_ENTRIES_PER_VECTOR, HFREQ_VQ_INDEX_BITS, HFREQ_VQ_VECTOR_LEN,
    MAX_AUDIO_HUFF_CODE_LEN, MAX_PRIMARY_CHANNELS, NUM_SUBBAND, RMS_6BIT, RMS_7BIT,
    X_HISTORY_LEN,
};
#[test]
fn canonical_construction() {
    let v = Vlc::build(&[(0, 1), (1, 2), (2, 3), (3, 3)], 0);
    let codes: Vec<(i16, u32, u8)> = v
        .entries
        .iter()
        .map(|e| (e.symbol, e.code, e.length))
        .collect();
    assert!(codes.contains(&(0, 0b0, 1)));
    assert!(codes.contains(&(1, 0b10, 2)));
    assert!(codes.contains(&(2, 0b110, 3)));
    assert!(codes.contains(&(3, 0b111, 3)));
}

#[test]
fn decode_roundtrip_tm3() {
    let v = thuff_codebook(3);
    let data = [0x1B];
    let mut r = BitReader::new(&data);
    for expected in 0..4 {
        assert_eq!(v.decode(&mut r).unwrap(), expected);
    }
}

#[test]
fn bitalloc_3_decode() {
    let v = bitalloc_codebook(0, 0);
    let data = [0b01011000];
    let mut r = BitReader::new(&data);
    assert_eq!(v.decode(&mut r).unwrap(), 0);
    assert_eq!(v.decode(&mut r).unwrap(), 1);
    assert_eq!(v.decode(&mut r).unwrap(), -1);
}

#[test]
fn vlc_build_long_codes() {
    // Three 31-bit codes: 0, 1, 2 in the low bits.
    let v = Vlc::build(&[(7, 31), (8, 31), (9, 31)], 0);
    let codes: Vec<(i16, u32, u8)> = v
        .entries
        .iter()
        .map(|e| (e.symbol, e.code, e.length))
        .collect();
    assert_eq!(codes, vec![(7, 0, 31), (8, 1, 31), (9, 2, 31)]);
    assert_eq!(v.max_len, 31);
}

#[test]
fn vlc_build_keeps_low_32_bits() {
    // The third code is 2 shifted left by 31: its low 32 bits are 0.
    let v = Vlc::build(&[(0, 1), (1, 1), (2, 32)], 0);
    let codes: Vec<(i16, u32, u8)> = v
        .entries
        .iter()
        .map(|e| (e.symbol, e.code, e.length))
        .collect();
    assert_eq!(codes, vec![(0, 0, 1), (1, 1, 1), (2, 0, 32)]);
    assert_eq!(v.max_len, 32);
}

#[test]
fn vlc_build_orders_by_length_then_position() {
    let v = Vlc::build(&[(5, 3), (6, 1), (7, 3), (8, 2)], -1);
    let codes: Vec<(i16, u32, u8)> = v
        .entries
        .iter()
        .map(|e| (e.symbol, e.code, e.length))
        .collect();
    assert_eq!(codes, vec![(6, 0b0, 1), (8, 0b10, 2), (5, 0b110, 3), (7, 0b111, 3)]);
    assert_eq!(v.offset, -1);
}
