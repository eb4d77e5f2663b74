#![allow(unused_imports)]

use oxideav_dts::{
    assemble_xin, bhuff_codebook, bitalloc_codebook, block_code_word_bits, decode_abits,
    decode_abits_at, decode_audio_huff, decode_audio_huff_at, decode_huffman_table,
    decode_lfe_phase_at, decode_primary_side_info_at, decode_scales, decode_scales_at,
    decode_tmode, detect_sync, encode_frame_header_be, error_class, find_all_syncs,
    find_next_sync, iter_frames, iter_frames_resync, nfe_word_bits, parse_any_frame_header,
    parse_audio_coding_header, parse_frame_header, parse_frame_header_14bit, probe_dts_class,
    scan_hf_vq_indices_at, shift_x_history, sign_extend, split_hfreq_vq_entry, thuff_codebook,
    unpack_14bit_to_16bit, AbitsCodebook, AudioArrayDecodeError, AudioArrayError,
    AudioCodingHeader, AudioHuffCodebook, BitReader, ChannelSideInfo, ChannelSideInfoParams,
    DecoderState, DtsFrameHeader, Error, ErrorClass, FilterBankSelection, FourteenBitByteOrder,
    FrameIterator, FrameIteratorResync, FrameType, FrameView, LfeMode, PrimarySideInfo,
    ProbeClass, QmfAssembleError, ReceiveOutcome, ResyncCause, ResyncEvent, ScalesCodebook,
    SubsubframeCount, SyncMatch, SyncWordEncoding, TmodeCodebook, Vlc, VlcEntry,
    ADPCM_VQ_BOOK_SIZE, ADPCM_VQ_INDEX_BITS, ADPCM_VQ_VECTOR_LEN, COS_MOD_BLOCK1_START,
    COS_MOD_BLOCK2_START, COS_MOD_BLOCK3_START, COS_MOD_BLOCK4_START, COS_MOD_LEN,
    HFREQ_VQ_BOOK_SIZE, HFREQ_VQ_ENTRIES_PER_VECTOR, HFREQ_VQ_INDEX_BITS, HFREQ_VQ_VECTOR_LEN,
    MAX_AUDIO_HUFF_CODE_LEN, MAX_PRIMARY_CHANNELS, NUM_SUBBAND, RMS_6BIT, RMS_7BIT,
    X_HISTORY_LEN,
};
use oxideav_dts::tables::{
    BITS_PER_SAMPLE, CHANNELS_BY_AMODE, CORE_BIT_RATES, CORE_SAMPLE_RATES, LOSSLESS_QUANT,
    SCALE_FACTOR_QUANT6, SCALE_FACTOR_QUANT7,
};

#[test]
fn channel_count_known_amodes() {
    assert_eq!(CHANNELS_BY_AMODE[2], 2);
    assert_eq!(CHANNELS_BY_AMODE[9], 5);
    assert_eq!(CHANNELS_BY_AMODE[11], 6);
    assert_eq!(CHANNELS_BY_AMODE[15], 8);
}

#[test]
fn sample_rates_align() {
    assert_eq!(CORE_SAMPLE_RATES[8], 44_100);
    assert_eq!(CORE_SAMPLE_RATES[13], 48_000);
    assert_eq!(CORE_SAMPLE_RATES[14], 96_000);
    for i in [0usize, 4, 5, 9, 10] {
        assert_eq!(CORE_SAMPLE_RATES[i], 0, "slot {i} not reserved");
    }
}

#[test]
fn bit_rates_at_codes() {
    assert_eq!(CORE_BIT_RATES[10], 384_000);
    assert_eq!(CORE_BIT_RATES[24], 1_536_000);
    assert_eq!(CORE_BIT_RATES[22], 1_411_200);
    assert!(CORE_BIT_RATES[29] < 100);
    assert!(CORE_BIT_RATES[30] < 100);
    assert!(CORE_BIT_RATES[31] < 100);
}

#[test]
fn pcmr_widths() {
    assert_eq!(BITS_PER_SAMPLE[0], 16);
    assert_eq!(BITS_PER_SAMPLE[5], 24);
    assert_eq!(BITS_PER_SAMPLE[4], 0);
}

#[test]
fn quant7_endpoints() {
    assert_eq!(SCALE_FACTOR_QUANT7[0], 1);
    for i in 125..128 {
        assert_eq!(SCALE_FACTOR_QUANT7[i], 0);
    }
}

#[test]
fn quant6_endpoints() {
    assert_eq!(SCALE_FACTOR_QUANT6[0], 1);
    assert_eq!(SCALE_FACTOR_QUANT6[63], 0);
}

#[test]
fn lossless_quant_powers_of_two_high() {
    for a in 16usize..=26 {
        let v = LOSSLESS_QUANT[a];
        assert!(v > 0, "abits {a} step 0?");
        assert!(v.is_power_of_two(), "abits {a} step {v} not POT");
    }
}
