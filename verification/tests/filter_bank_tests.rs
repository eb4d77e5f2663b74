#![allow(unused_imports)]

use oxideav_dts::{
    assemble_xin, bhuff_codebook, bitalloc_codebook, block_code_word_bits, decode_abits,
    decode_abits_at, decode_audio_huff, decode_audio_huff_at, decode_huffman_table,
    decode_lfe_phase_at, decode_primary_side_info_at, decode_scales, decode_scales_at,
    decode_tmode, detect_sync, encode_frame_header_be, error_class, find_all_syncs,
    find_next_sync, iter_frames, iter_frames_resync, nfe_word_bits, parse_any_frame_header,
    parse_audio_coding_header, parse_frame_header, parse_frame_header_14bit, probe_dts_class,
    scan_hf_vq_indices_at, shift_x_history, sign_extend, split_hfreq_vq_entry, thuff_codebook,
    unpack_14bit_to_16bit, AbitsCodebook, AudioArrayDecodeError, AudioArrayError,
    AudioCodingHeader, AudioHuffCodebook, BitReader, ChannelSideInfo, ChannelSideInfoParams,
    DecoderState, DtsFrameHeader, Error, ErrorClass, FilterBankSelection, FourteenBitByteOrder,
    FrameIterator, FrameIteratorResync, FrameType, FrameView, LfeMode, PrimarySideInfo,
    ProbeClass, QmfAssembleError, ReceiveOutcome, ResyncCause, ResyncEvent, ScalesCodebook,
    SubsubframeCount, SyncMatch, SyncWordEncoding, TmodeCodebook, Vlc, VlcEntry,
    ADPCM_VQ_BOOK_SIZE, ADPCM_VQ_INDEX_BITS, ADPCM_VQ_VECTOR_LEN, COS_MOD_BLOCK1_START,
    COS_MOD_BLOCK2_START, COS_MOD_BLOCK3_START, COS_MOD_BLOCK4_START, COS_MOD_LEN,
    HFREQ_VQ_BOOK_SIZE, HFREQ_VQ_ENTRIES_PER_VECTOR, HFREQ_VQ_INDEX_BITS, HFREQ_VQ_VECTOR_LEN,
    MAX_AUDIO_HUFF_CODE_LEN, MAX_PRIMARY_CHANNELS, NUM_SUBBAND, RMS_6BIT, RMS_7BIT,
    X_HISTORY_LEN,
};
use core::hash::{Hash, Hasher};

#[test]
fn from_filts_zero_picks_non_perfect_reconstruction() {
    assert_eq!(
        FilterBankSelection::from_filts(0),
        FilterBankSelection::NonPerfectReconstruction
    );
}

#[test]
fn from_filts_one_picks_perfect_reconstruction() {
    assert_eq!(
        FilterBankSelection::from_filts(1),
        FilterBankSelection::PerfectReconstruction
    );
}

#[test]
fn from_filts_treats_every_non_zero_value_identically() {
    for filts in 1u16..=255 {
        assert_eq!(
            FilterBankSelection::from_filts(filts as u8),
            FilterBankSelection::PerfectReconstruction,
            "FILTS={filts} should pick PerfectReconstruction per the else branch"
        );
    }
}

#[test]
fn filts_round_trips_non_perfect_reconstruction() {
    let sel = FilterBankSelection::NonPerfectReconstruction;
    assert_eq!(sel.filts(), 0);
    assert_eq!(FilterBankSelection::from_filts(sel.filts()), sel);
}

#[test]
fn filts_round_trips_perfect_reconstruction() {
    let sel = FilterBankSelection::PerfectReconstruction;
    assert_eq!(sel.filts(), 1);
    assert_eq!(FilterBankSelection::from_filts(sel.filts()), sel);
}

#[test]
fn from_filts_after_filts_is_identity_for_canonical_values() {
    for sel in [
        FilterBankSelection::NonPerfectReconstruction,
        FilterBankSelection::PerfectReconstruction,
    ] {
        assert_eq!(FilterBankSelection::from_filts(sel.filts()), sel);
    }
}

#[test]
fn spec_table_name_for_non_perfect_is_ra_coeff_lossy() {
    assert_eq!(
        FilterBankSelection::NonPerfectReconstruction.spec_table_name(),
        "raCoeffLossy"
    );
}

#[test]
fn spec_table_name_for_perfect_is_ra_coeff_loss_less() {
    assert_eq!(
        FilterBankSelection::PerfectReconstruction.spec_table_name(),
        "raCoeffLossLess"
    );
}

#[test]
fn spec_table_names_are_distinct() {
    assert_ne!(
        FilterBankSelection::NonPerfectReconstruction.spec_table_name(),
        FilterBankSelection::PerfectReconstruction.spec_table_name()
    );
}

#[test]
fn variants_are_copyable_and_comparable() {
    let a = FilterBankSelection::NonPerfectReconstruction;
    let b = a;
    assert_eq!(a, b);
    assert_ne!(a, FilterBankSelection::PerfectReconstruction);

    let mut h1 = std::collections::hash_map::DefaultHasher::new();
    FilterBankSelection::NonPerfectReconstruction.hash(&mut h1);
    let mut h2 = std::collections::hash_map::DefaultHasher::new();
    FilterBankSelection::PerfectReconstruction.hash(&mut h2);
    assert_ne!(h1.finish(), h2.finish());
}

#[test]
fn variants_have_stable_debug_output() {
    let s = format!("{:?}", FilterBankSelection::NonPerfectReconstruction);
    assert!(
        s.contains("NonPerfectReconstruction"),
        "Debug should name the variant, got {s:?}"
    );
    let s = format!("{:?}", FilterBankSelection::PerfectReconstruction);
    assert!(
        s.contains("PerfectReconstruction"),
        "Debug should name the variant, got {s:?}"
    );
}
