#![allow(unused_imports)]

use oxideav_dts::{
    assemble_xin, bhuff_codebook, bitalloc_codebook, block_code_word_bits, decode_abits,
    decode_abits_at, decode_audio_huff, decode_audio_huff_at, decode_huffman_table,
    decode_lfe_phase_at, decode_primary_side_info_at, decode_scales, decode_scales_at,
    decode_tmode, detect_sync, encode_frame_header_be, error_class, find_all_syncs,
    find_next_sync, iter_frames, iter_frames_resync, nfe_word_bits, parse_any_frame_header,
    parse_audio_coding_header, parse_frame_header, parse_frame_header_14bit, probe_dts_class,
    scan_hf_vq_indices_at, shift_x_history, sign_extend, split_hfreq_vq_entry, thuff_codebook,
    unpack_14bit_to_16bit, AbitsCodebook, AudioArrayDecodeError, AudioArrayError,
    AudioCodingHeader, AudioHuffCodebook, BitReader, ChannelSideInfo, ChannelSideInfoParams,
    DecoderState, DtsFrameHeader, Error, ErrorClass, FilterBankSelection, FourteenBitByteOrder,
    FrameIterator, FrameIteratorResync, FrameType, FrameView, LfeMode, PrimarySideInfo,
    ProbeClass, QmfAssembleError, ReceiveOutcome, ResyncCause, ResyncEvent, ScalesCodebook,
    SubsubframeCount, SyncMatch, SyncWordEncoding, TmodeCodebook, Vlc, VlcEntry,
    ADPCM_VQ_BOOK_SIZE, ADPCM_VQ_INDEX_BITS, ADPCM_VQ_VECTOR_LEN, COS_MOD_BLOCK1_START,
    COS_MOD_BLOCK2_START, COS_MOD_BLOCK3_START, COS_MOD_BLOCK4_START, COS_MOD_LEN,
    HFREQ_VQ_BOOK_SIZE, HFREQ_VQ_ENTRIES_PER_VECTOR, HFREQ_VQ_INDEX_BITS, HFREQ_VQ_VECTOR_LEN,
    MAX_AUDIO_HUFF_CODE_LEN, MAX_PRIMARY_CHANNELS, NUM_SUBBAND, RMS_6BIT, RMS_7BIT,
    X_HISTORY_LEN,
};

#[test]
fn assemble_xin_full_active_count_copies_all_thirty_two_entries() {
    let samples: Vec<f64> = (0..NUM_SUBBAND).map(|i| (i as f64) + 0.5).collect();
    let ra_xin = assemble_xin(&samples, NUM_SUBBAND, 0.0).expect("assemble succeeds at n_subs=32");
    for (i, v) in ra_xin.iter().enumerate() {
        assert_eq!(*v, (i as f64) + 0.5, "raXin[{i}] = {v} mismatch");
    }
}

#[test]
fn assemble_xin_zero_active_count_produces_silent_input() {
    let samples: Vec<f64> = vec![];
    let ra_xin = assemble_xin(&samples, 0, 0.0).expect("assemble succeeds at n_subs=0");
    for (i, v) in ra_xin.iter().enumerate() {
        assert_eq!(*v, 0.0, "raXin[{i}] = {v} should be zero");
    }
}

#[test]
fn assemble_xin_partial_active_count_zero_fills_inactive_tail() {
    let samples = [1.0, 2.0, 3.0, 4.0, 5.0];
    let ra_xin = assemble_xin(&samples, 5, 0.0).expect("assemble succeeds at n_subs=5");
    for (i, expected) in samples.iter().enumerate() {
        assert_eq!(ra_xin[i], *expected, "raXin[{i}] active mismatch");
    }
    for (i, v) in ra_xin.iter().enumerate().skip(5) {
        assert_eq!(*v, 0.0, "raXin[{i}] should be zero-filled");
    }
}

#[test]
fn assemble_xin_ignores_extra_trailing_samples_past_n_subs() {
    let samples: Vec<f64> = (0..NUM_SUBBAND).map(|i| 100.0 + i as f64).collect();
    let ra_xin = assemble_xin(&samples, 7, 0.0).expect("assemble succeeds at n_subs=7");
    for (i, v) in ra_xin.iter().enumerate().take(7) {
        assert_eq!(*v, 100.0 + i as f64, "raXin[{i}] active mismatch");
    }
    for (i, v) in ra_xin.iter().enumerate().skip(7) {
        assert_eq!(
            *v, 0.0,
            "raXin[{i}] should be zero past nSUBS regardless of slice length"
        );
    }
}

#[test]
fn assemble_xin_rejects_n_subs_past_thirty_two() {
    let samples = [0.0_f64; 64];
    let err = assemble_xin(&samples, 33, 0.0).expect_err("n_subs=33 rejected");
    assert_eq!(err, QmfAssembleError::SubsOutOfRange { n_subs: 33 });
}

#[test]
fn assemble_xin_rejects_short_sample_slice() {
    let samples = [10.0, 20.0];
    let err = assemble_xin(&samples, 4, 0.0).expect_err("short slice rejected");
    assert_eq!(
        err,
        QmfAssembleError::SampleSliceTooShort {
            provided: 2,
            required: 4
        }
    );
}

#[test]
fn assemble_xin_accepts_exact_length_sample_slice() {
    let samples = [7.5, 8.25, 9.125];
    let ra_xin = assemble_xin(&samples, 3, 0.0).expect("exact-length slice accepted");
    assert_eq!(ra_xin[0], 7.5);
    assert_eq!(ra_xin[1], 8.25);
    assert_eq!(ra_xin[2], 9.125);
    for v in ra_xin.iter().skip(3) {
        assert_eq!(*v, 0.0);
    }
}

#[test]
fn assemble_xin_preserves_negative_and_subnormal_values() {
    let samples = [-1.5_f64, f64::MIN_POSITIVE / 4.0, -0.0, 3.0];
    let ra_xin = assemble_xin(&samples, 4, 0.0).expect("assemble succeeds");
    for (i, sample) in samples.iter().enumerate() {
        assert_eq!(
            ra_xin[i].to_bits(),
            sample.to_bits(),
            "raXin[{i}] bit-mismatch"
        );
    }
}

#[test]
fn assemble_xin_inactive_tail_is_positive_zero() {
    let samples = [1.0];
    let ra_xin = assemble_xin(&samples, 1, 0.0_f64).expect("assemble succeeds");
    for (i, v) in ra_xin.iter().enumerate().skip(1) {
        assert_eq!(
            v.to_bits(),
            0.0_f64.to_bits(),
            "raXin[{i}] should be +0.0 bit-pattern"
        );
    }
}

#[test]
fn shift_x_history_moves_low_half_to_high_half_by_thirty_two() {
    let mut ra_x = [0.0_f64; X_HISTORY_LEN];
    for (i, slot) in ra_x.iter_mut().enumerate() {
        *slot = i as f64;
    }
    let snapshot = ra_x;
    shift_x_history(&mut ra_x);
    for (i, v) in ra_x.iter().enumerate().skip(NUM_SUBBAND) {
        assert_eq!(
            *v,
            snapshot[i - NUM_SUBBAND],
            "raX[{i}] should equal pre-shift raX[{}]",
            i - NUM_SUBBAND
        );
    }
}

#[test]
fn shift_x_history_leaves_first_thirty_two_entries_untouched() {
    let mut ra_x = [0.0_f64; X_HISTORY_LEN];
    for (i, slot) in ra_x.iter_mut().enumerate() {
        *slot = (i as f64) * 0.25;
    }
    let snapshot_low: Vec<f64> = ra_x[..NUM_SUBBAND].to_vec();
    shift_x_history(&mut ra_x);
    for (i, expected) in snapshot_low.iter().enumerate() {
        assert_eq!(
            ra_x[i], *expected,
            "raX[{i}] should be unchanged by the shift"
        );
    }
}

#[test]
fn shift_x_history_is_identity_on_uniform_register() {
    let mut ra_x = [4.25_f64; X_HISTORY_LEN];
    shift_x_history(&mut ra_x);
    for (i, v) in ra_x.iter().enumerate() {
        assert_eq!(*v, 4.25, "raX[{i}] = {v} should stay 4.25");
    }
}

#[test]
fn shift_x_history_zeroes_propagate_into_low_block() {
    let mut ra_x = [0.0_f64; X_HISTORY_LEN];
    shift_x_history(&mut ra_x);
    for (i, v) in ra_x.iter().enumerate() {
        assert_eq!(*v, 0.0, "raX[{i}] = {v} should stay 0");
    }
}

#[test]
fn shift_x_history_top_block_after_shift_is_from_pre_shift_indices_448_to_479() {
    let mut ra_x = [0.0_f64; X_HISTORY_LEN];
    for (i, slot) in ra_x.iter_mut().enumerate() {
        *slot = (i as f64) - 256.0;
    }
    shift_x_history(&mut ra_x);
    for (i, v) in ra_x.iter().enumerate().skip(480) {
        let expected = ((i - NUM_SUBBAND) as f64) - 256.0;
        assert_eq!(
            *v,
            expected,
            "raX[{i}] should be pre-shift raX[{}] = {expected}",
            i - NUM_SUBBAND
        );
    }
}

#[test]
fn shift_x_history_reverse_iteration_does_not_chain_overwrites() {
    let mut ra_x = [0.0_f64; X_HISTORY_LEN];
    for (i, slot) in ra_x.iter_mut().enumerate() {
        *slot = i as f64;
    }
    shift_x_history(&mut ra_x);
    assert_eq!(ra_x[64], 32.0, "raX[64] reverse-shift mismatch");
    assert_eq!(ra_x[96], 64.0, "raX[96] reverse-shift mismatch");
    assert_eq!(ra_x[511], (511 - NUM_SUBBAND) as f64);
}

#[test]
fn shift_x_history_repeated_calls_walk_block_by_block() {
    let mut ra_x = [0.0_f64; X_HISTORY_LEN];
    for (i, slot) in ra_x.iter_mut().enumerate() {
        *slot = i as f64;
    }
    for v in ra_x.iter_mut().take(NUM_SUBBAND) {
        *v = -1.0;
    }
    shift_x_history(&mut ra_x);
    assert_eq!(ra_x[64], 32.0);
    for v in ra_x.iter_mut().take(NUM_SUBBAND) {
        *v = -2.0;
    }
    shift_x_history(&mut ra_x);
    assert_eq!(ra_x[96], 32.0);
}

#[test]
fn x_history_len_is_five_hundred_twelve() {
    assert_eq!(X_HISTORY_LEN, 512);
}

#[test]
fn x_history_len_is_a_whole_multiple_of_num_subband() {
    assert_eq!(X_HISTORY_LEN % NUM_SUBBAND, 0);
    assert_eq!(X_HISTORY_LEN / NUM_SUBBAND, 16);
}

#[test]
fn subs_out_of_range_error_renders_human_readable_message() {
    let err = QmfAssembleError::SubsOutOfRange { n_subs: 64 };
    let s = err.message();
    assert!(s.contains("64"), "message should include the bad n_subs");
    assert!(
        s.contains("NumSubband"),
        "message should reference the cap"
    );
}

#[test]
fn sample_slice_too_short_error_renders_provided_and_required() {
    let err = QmfAssembleError::SampleSliceTooShort {
        provided: 2,
        required: 5,
    };
    let s = err.message();
    assert!(s.contains("2"), "message should include provided length");
    assert!(s.contains("5"), "message should include required length");
}
