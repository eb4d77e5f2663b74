#![allow(unused_imports)]

use oxideav_dts::{
    assemble_xin, bhuff_codebook, bitalloc_codebook, block_code_word_bits, decode_abits,
    decode_abits_at, decode_audio_huff, decode_audio_huff_at, decode_huffman_table,
    decode_lfe_phase_at, decode_primary_side_info_at, decode_scales, decode_scales_at,
    decode_tmode, detect_sync, encode_frame_header_be, error_class, find_all_syncs,
    find_next_sync, iter_frames, iter_frames_resync, nfe_word_bits, parse_any_frame_header,
    parse_audio_coding_header, parse_frame_header, parse_frame_header_14bit, probe_dts_class,
    scan_hf_vq_indices_at, shift_x_history, sign_extend, split_hfreq_vq_entry, thuff_codebook,
    unpack_14bit_to_16bit, AbitsCodebook, AudioArrayDecodeError, AudioArrayError,
    AudioCodingHeader, AudioHuffCodebook, BitReader, ChannelSideInfo, ChannelSideInfoParams,
    DecoderState, DtsFrameHeader, Error, ErrorClass, FilterBankSelection, FourteenBitByteOrder,
    FrameIterator, FrameIteratorResync, FrameType, FrameView, LfeMode, PrimarySideInfo,
    ProbeClass, QmfAssembleError, ReceiveOutcome, ResyncCause, ResyncEvent, ScalesCodebook,
    SubsubframeCount, SyncMatch, SyncWordEncoding, TmodeCodebook, Vlc, VlcEntry,
    ADPCM_VQ_BOOK_SIZE, ADPCM_VQ_INDEX_BITS, ADPCM_VQ_VECTOR_LEN, COS_MOD_BLOCK1_START,
    COS_MOD_BLOCK2_START, COS_MOD_BLOCK3_START, COS_MOD_BLOCK4_START, COS_MOD_LEN,
    HFREQ_VQ_BOOK_SIZE, HFREQ_VQ_ENTRIES_PER_VECTOR, HFREQ_VQ_INDEX_BITS, HFREQ_VQ_VECTOR_LEN,
    MAX_AUDIO_HUFF_CODE_LEN, MAX_PRIMARY_CHANNELS, NUM_SUBBAND, RMS_6BIT, RMS_7BIT,
    X_HISTORY_LEN,
};
fn pack_fields(fields: &[(u32, u8)]) -> Vec<u8> {
    let total_bits: usize = fields.iter().map(|(_, w)| *w as usize).sum();
    let mut out = vec![0u8; total_bits.div_ceil(8)];
    let mut bit_pos = 0usize;
    for &(value, width) in fields {
        for i in (0..width).rev() {
            let bit = ((value >> i) & 1) as u8;
            out[bit_pos / 8] |= bit << (7 - (bit_pos % 8));
            bit_pos += 1;
        }
    }
    out
}

fn linear_params(n_subs: usize, n_vqsub: usize) -> ChannelSideInfoParams {
    ChannelSideInfoParams {
        n_subs,
        n_vqsub,
        abits_codebook: AbitsCodebook::Linear5Bit,
        tmode_codebook: TmodeCodebook::D4,
        scales_codebook: ScalesCodebook::Linear6Bit,
    }
}

#[test]
fn single_channel_linear_walk_decodes_every_plane() {
    let stream = pack_fields(&[
        (0, 2),
        (0, 3),
        (0, 1),
        (0, 1),
        (0, 1),
        (0, 1),
        (3, 5),
        (0, 5),
        (10, 6),
        (20, 6),
        (30, 6),
    ]);
    let params = [linear_params(4, 2)];
    let (info, bits) = decode_primary_side_info_at(&stream, 0, &params).unwrap();

    assert_eq!(info.subsubframe_count.n_ssc(), 1);
    assert_eq!(info.subsubframe_count.psc, 0);
    assert_eq!(info.channels.len(), 1);
    let ch = &info.channels[0];
    assert_eq!(&ch.pmode[..4], &[0, 0, 0, 0]);
    assert!(ch.pvq_index.iter().all(Option::is_none));
    assert_eq!(&ch.abits[..4], &[3, 0, 0, 0]);
    assert!(ch.tmode.iter().all(|&t| t == 0));
    assert_eq!(ch.scales[0], [RMS_6BIT[10], 0]);
    assert_eq!(ch.scales[1], [0, 0]);
    assert_eq!(ch.scales[2], [RMS_6BIT[20], 0]);
    assert_eq!(ch.scales[3], [RMS_6BIT[30], 0]);
    assert_eq!(bits, 37);
}

#[test]
fn pmode_plane_for_all_channels_precedes_pvq_plane() {
    let stream = pack_fields(&[
        (0, 2),
        (0, 3),
        (0b10, 2),
        (0b01, 2),
        (0xABC, 12),
        (0x123, 12),
        (0, 5),
        (0, 5),
        (0, 5),
        (0, 5),
    ]);
    let params = [linear_params(2, 2), linear_params(2, 2)];
    let (info, bits) = decode_primary_side_info_at(&stream, 0, &params).unwrap();
    assert_eq!(&info.channels[0].pmode[..2], &[1, 0]);
    assert_eq!(&info.channels[1].pmode[..2], &[0, 1]);
    assert_eq!(info.channels[0].pvq_index[0], Some(0xABC));
    assert_eq!(info.channels[0].pvq_index[1], None);
    assert_eq!(info.channels[1].pvq_index[0], None);
    assert_eq!(info.channels[1].pvq_index[1], Some(0x123));
    assert_eq!(bits, 53);
}

#[test]
fn tmode_decoded_when_multiple_subsubframes_and_bits_allocated() {
    let stream = pack_fields(&[
        (1, 2),
        (0, 3),
        (0, 3),
        (2, 5),
        (0, 5),
        (1, 5),
        (1, 2),
        (0, 2),
        (5, 6),
        (7, 6),
        (40, 6),
    ]);
    let params = [linear_params(3, 3)];
    let (info, bits) = decode_primary_side_info_at(&stream, 0, &params).unwrap();
    let ch = &info.channels[0];
    assert_eq!(info.subsubframe_count.n_ssc(), 2);
    assert_eq!(&ch.abits[..3], &[2, 0, 1]);
    assert_eq!(&ch.tmode[..3], &[1, 0, 0]);
    assert_eq!(ch.scales[0], [RMS_6BIT[5], RMS_6BIT[7]]);
    assert_eq!(ch.scales[1], [0, 0]);
    assert_eq!(ch.scales[2], [RMS_6BIT[40], 0]);
    assert_eq!(bits, 45);
}

#[test]
fn tmode_plane_skipped_when_single_subsubframe() {
    let stream = pack_fields(&[
        (0, 2),
        (0, 3),
        (0, 3),
        (2, 5),
        (0, 5),
        (1, 5),
        (5, 6),
        (40, 6),
    ]);
    let params = [linear_params(3, 3)];
    let (info, bits) = decode_primary_side_info_at(&stream, 0, &params).unwrap();
    let ch = &info.channels[0];
    assert!(ch.tmode.iter().all(|&t| t == 0));
    assert_eq!(ch.scales[0], [RMS_6BIT[5], 0]);
    assert_eq!(ch.scales[2], [RMS_6BIT[40], 0]);
    assert_eq!(bits, 35);
}

#[test]
fn huffman_walk_accumulates_scale_sum_across_hf_vq_tail() {
    let stream = pack_fields(&[
        (0, 2),
        (0, 3),
        (0, 3),
        (0b10, 2),
        (0b10, 2),
        (0b1110, 4),
        (0b10, 2),
        (0b0, 1),
    ]);
    let params = [ChannelSideInfoParams {
        n_subs: 3,
        n_vqsub: 2,
        abits_codebook: AbitsCodebook::A12,
        tmode_codebook: TmodeCodebook::A4,
        scales_codebook: ScalesCodebook::Sa129,
    }];
    let (info, bits) = decode_primary_side_info_at(&stream, 0, &params).unwrap();
    let ch = &info.channels[0];
    assert_eq!(&ch.abits[..3], &[2, 2, 0]);
    assert_eq!(ch.scales[0][0], RMS_6BIT[2]);
    assert_eq!(ch.scales[1][0], RMS_6BIT[3]);
    assert_eq!(ch.scales[2][0], RMS_6BIT[3]);
    assert_eq!(bits, 5 + 3 + 4 + 7);
}

#[test]
fn scale_sum_accumulator_resets_per_channel() {
    let stream = pack_fields(&[
        (0, 2),
        (0, 3),
        (0, 1),
        (0, 2),
        (0b10, 2),
        (0b10, 2),
        (0b1110, 4),
        (0b10, 2),
        (0b10, 2),
    ]);
    let ch0 = ChannelSideInfoParams {
        n_subs: 1,
        n_vqsub: 1,
        abits_codebook: AbitsCodebook::A12,
        tmode_codebook: TmodeCodebook::A4,
        scales_codebook: ScalesCodebook::Sa129,
    };
    let ch1 = ChannelSideInfoParams {
        n_subs: 2,
        n_vqsub: 1,
        ..ch0
    };
    let (info, _) = decode_primary_side_info_at(&stream, 0, &[ch0, ch1]).unwrap();
    assert_eq!(info.channels[0].scales[0][0], RMS_6BIT[2]);
    assert_eq!(info.channels[1].scales[0][0], RMS_6BIT[1]);
    assert_eq!(info.channels[1].scales[1][0], RMS_6BIT[2]);
}

#[test]
fn linear7_scales_route_through_7bit_rms_table() {
    let stream = pack_fields(&[
        (0, 2),
        (0, 3),
        (0, 1),
        (1, 5),
        (99, 7),
    ]);
    let params = [ChannelSideInfoParams {
        n_subs: 1,
        n_vqsub: 1,
        abits_codebook: AbitsCodebook::Linear5Bit,
        tmode_codebook: TmodeCodebook::D4,
        scales_codebook: ScalesCodebook::Linear7Bit,
    }];
    let (info, bits) = decode_primary_side_info_at(&stream, 0, &params).unwrap();
    assert_eq!(info.channels[0].scales[0][0], RMS_7BIT[99]);
    assert_eq!(bits, 5 + 1 + 5 + 7);
}

#[test]
fn walk_starts_at_arbitrary_bit_offset() {
    let aligned = pack_fields(&[(0, 2), (0, 3), (0, 1), (1, 5), (10, 6)]);
    let shifted = pack_fields(&[
        (0b101, 3),
        (0, 2),
        (0, 3),
        (0, 1),
        (1, 5),
        (10, 6),
    ]);
    let params = [linear_params(1, 1)];
    let (a, bits_a) = decode_primary_side_info_at(&aligned, 0, &params).unwrap();
    let (b, bits_b) = decode_primary_side_info_at(&shifted, 3, &params).unwrap();
    assert_eq!(a, b);
    assert_eq!(bits_a, bits_b);
    assert_eq!(bits_a, 17);
}

#[test]
fn empty_channel_list_consumes_only_the_prefix() {
    let stream = pack_fields(&[(0b10, 2), (0b011, 3)]);
    let (info, bits) = decode_primary_side_info_at(&stream, 0, &[]).unwrap();
    assert_eq!(bits, SubsubframeCount::WIRE_BITS as usize);
    assert!(info.channels.is_empty());
    assert_eq!(info.subsubframe_count.n_ssc(), 3);
    assert_eq!(info.subsubframe_count.psc, 0b011);
}

#[test]
fn too_many_channels_rejected_as_npchs() {
    let params = vec![linear_params(1, 1); 6];
    assert_eq!(
        decode_primary_side_info_at(&[0u8; 64], 0, &params).unwrap_err(),
        Error::InvalidSideInfo {
            field: "nPCHS",
            value: 6
        }
    );
}

#[test]
fn out_of_range_subband_bounds_rejected() {
    assert_eq!(
        decode_primary_side_info_at(&[0u8; 64], 0, &[linear_params(33, 1)]).unwrap_err(),
        Error::InvalidSideInfo {
            field: "nSUBS",
            value: 33
        }
    );
    assert_eq!(
        decode_primary_side_info_at(&[0u8; 64], 0, &[linear_params(4, 5)]).unwrap_err(),
        Error::InvalidSideInfo {
            field: "VQSUB",
            value: 5
        }
    );
}

#[test]
fn truncated_stream_surfaces_eof_mid_walk() {
    let stream = pack_fields(&[
        (0, 2),
        (0, 3),
        (0, 1),
        (1, 5),
        (0, 5),
    ]);
    assert_eq!(stream.len(), 2);
    assert_eq!(
        decode_primary_side_info_at(&stream, 0, &[linear_params(1, 1)]).unwrap_err(),
        Error::UnexpectedEof
    );
}

#[test]
fn full_subband_count_walk_uses_all_32_slots() {
    let mut fields: Vec<(u32, u8)> = vec![(0, 2), (0, 3)];
    fields.extend(std::iter::repeat_n((0u32, 1u8), 32));
    fields.extend(std::iter::repeat_n((1u32, 5u8), 32));
    fields.extend((0..32).map(|n| (n as u32, 6u8)));
    let stream = pack_fields(&fields);
    let params = [linear_params(32, 32)];
    let (info, bits) = decode_primary_side_info_at(&stream, 0, &params).unwrap();
    let ch = &info.channels[0];
    assert!(ch.abits.iter().all(|&a| a == 1));
    for (n, scales) in ch.scales.iter().enumerate() {
        assert_eq!(scales[0], RMS_6BIT[n]);
    }
    assert_eq!(bits, 5 + 32 + 160 + 192);
}
