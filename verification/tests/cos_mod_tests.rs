#![allow(unused_imports)]

use oxideav_dts::{
    assemble_xin, bhuff_codebook, bitalloc_codebook, block_code_word_bits, decode_abits,
    decode_abits_at, decode_audio_huff, decode_audio_huff_at, decode_huffman_table,
    decode_lfe_phase_at, decode_primary_side_info_at, decode_scales, decode_scales_at,
    decode_tmode, detect_sync, encode_frame_header_be, error_class, find_all_syncs,
    find_next_sync, iter_frames, iter_frames_resync, nfe_word_bits, parse_any_frame_header,
    parse_audio_coding_header, parse_frame_header, parse_frame_header_14bit, probe_dts_class,
    scan_hf_vq_indices_at, shift_x_history, sign_extend, split_hfreq_vq_entry, thuff_codebook,
    unpack_14bit_to_16bit, AbitsCodebook, AudioArrayDecodeError, AudioArrayError,
    AudioCodingHeader, AudioHuffCodebook, BitReader, ChannelSideInfo, ChannelSideInfoParams,
    DecoderState, DtsFrameHeader, Error, ErrorClass, FilterBankSelection, FourteenBitByteOrder,
    FrameIterator, FrameIteratorResync, FrameType, FrameView, LfeMode, PrimarySideInfo,
    ProbeClass, QmfAssembleError, ReceiveOutcome, ResyncCause, ResyncEvent, ScalesCodebook,
    SubsubframeCount, SyncMatch, SyncWordEncoding, TmodeCodebook, Vlc, VlcEntry,
    ADPCM_VQ_BOOK_SIZE, ADPCM_VQ_INDEX_BITS, ADPCM_VQ_VECTOR_LEN, COS_MOD_BLOCK1_START,
    COS_MOD_BLOCK2_START, COS_MOD_BLOCK3_START, COS_MOD_BLOCK4_START, COS_MOD_LEN,
    HFREQ_VQ_BOOK_SIZE, HFREQ_VQ_ENTRIES_PER_VECTOR, HFREQ_VQ_INDEX_BITS, HFREQ_VQ_VECTOR_LEN,
    MAX_AUDIO_HUFF_CODE_LEN, MAX_PRIMARY_CHANNELS, NUM_SUBBAND, RMS_6BIT, RMS_7BIT,
    X_HISTORY_LEN,
};

#[test]
fn block_boundaries_are_documented_constants() {
    assert_eq!(COS_MOD_BLOCK1_START, 0);
    assert_eq!(COS_MOD_BLOCK2_START, 256);
    assert_eq!(COS_MOD_BLOCK3_START, 512);
    assert_eq!(COS_MOD_BLOCK4_START, 528);
    assert_eq!(
        COS_MOD_BLOCK2_START - COS_MOD_BLOCK1_START + COS_MOD_BLOCK3_START
            - COS_MOD_BLOCK2_START
            + COS_MOD_BLOCK4_START
            - COS_MOD_BLOCK3_START
            + COS_MOD_LEN
            - COS_MOD_BLOCK4_START,
        COS_MOD_LEN
    );
}
