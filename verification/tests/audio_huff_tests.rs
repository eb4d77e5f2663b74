#![allow(unused_imports)]

use oxideav_dts::{
    assemble_xin, bhuff_codebook, bitalloc_codebook, block_code_word_bits, decode_abits,
    decode_abits_at, decode_audio_huff, decode_audio_huff_at, decode_huffman_table,
    decode_lfe_phase_at, decode_primary_side_info_at, decode_scales, decode_scales_at,
    decode_tmode, detect_sync, encode_frame_header_be, error_class, find_all_syncs,
    find_next_sync, iter_frames, iter_frames_resync, nfe_word_bits, parse_any_frame_header,
    parse_audio_coding_header, parse_frame_header, parse_frame_header_14bit, probe_dts_class,
    scan_hf_vq_indices_at, shift_x_history, sign_extend, split_hfreq_vq_entry, thuff_codebook,
    unpack_14bit_to_16bit, AbitsCodebook, AudioArrayDecodeError, AudioArrayError,
    AudioCodingHeader, AudioHuffCodebook, BitReader, ChannelSideInfo, ChannelSideInfoParams,
    DecoderState, DtsFrameHeader, Error, ErrorClass, FilterBankSelection, FourteenBitByteOrder,
    FrameIterator, FrameIteratorResync, FrameType, FrameView, LfeMode, PrimarySideInfo,
    ProbeClass, QmfAssembleError, ReceiveOutcome, ResyncCause, ResyncEvent, ScalesCodebook,
    SubsubframeCount, SyncMatch, SyncWordEncoding, TmodeCodebook, Vlc, VlcEntry,
    ADPCM_VQ_BOOK_SIZE, ADPCM_VQ_INDEX_BITS, ADPCM_VQ_VECTOR_LEN, COS_MOD_BLOCK1_START,
    COS_MOD_BLOCK2_START, COS_MOD_BLOCK3_START, COS_MOD_BLOCK4_START, COS_MOD_LEN,
    HFREQ_VQ_BOOK_SIZE, HFREQ_VQ_ENTRIES_PER_VECTOR, HFREQ_VQ_INDEX_BITS, HFREQ_VQ_VECTOR_LEN,
    MAX_AUDIO_HUFF_CODE_LEN, MAX_PRIMARY_CHANNELS, NUM_SUBBAND, RMS_6BIT, RMS_7BIT,
    X_HISTORY_LEN,
};
fn pack_fields(fields: &[(u32, u8)]) -> Vec<u8> {
    let total_bits: usize = fields.iter().map(|(_, w)| *w as usize).sum();
    let mut out = vec![0u8; total_bits.div_ceil(8)];
    let mut bit_pos = 0usize;
    for &(value, width) in fields {
        for i in (0..width).rev() {
            let bit = ((value >> i) & 1) as u8;
            out[bit_pos / 8] |= bit << (7 - (bit_pos % 8));
            bit_pos += 1;
        }
    }
    out
}

const ALL_BOOKS: &[AudioHuffCodebook] = &[
    AudioHuffCodebook::A3,
    AudioHuffCodebook::A5,
    AudioHuffCodebook::B5,
    AudioHuffCodebook::C5,
    AudioHuffCodebook::A7,
    AudioHuffCodebook::B7,
    AudioHuffCodebook::C7,
    AudioHuffCodebook::A9,
    AudioHuffCodebook::B9,
    AudioHuffCodebook::C9,
];

#[test]
fn from_abits_sel_resolves_table_5_26_groups() {
    assert_eq!(
        AudioHuffCodebook::from_abits_sel(1, 0),
        Some(AudioHuffCodebook::A3)
    );
    assert_eq!(
        AudioHuffCodebook::from_abits_sel(2, 0),
        Some(AudioHuffCodebook::A5)
    );
    assert_eq!(
        AudioHuffCodebook::from_abits_sel(2, 1),
        Some(AudioHuffCodebook::B5)
    );
    assert_eq!(
        AudioHuffCodebook::from_abits_sel(2, 2),
        Some(AudioHuffCodebook::C5)
    );
    assert_eq!(
        AudioHuffCodebook::from_abits_sel(3, 0),
        Some(AudioHuffCodebook::A7)
    );
    assert_eq!(
        AudioHuffCodebook::from_abits_sel(3, 1),
        Some(AudioHuffCodebook::B7)
    );
    assert_eq!(
        AudioHuffCodebook::from_abits_sel(3, 2),
        Some(AudioHuffCodebook::C7)
    );
    assert_eq!(
        AudioHuffCodebook::from_abits_sel(4, 0),
        Some(AudioHuffCodebook::A9)
    );
    assert_eq!(
        AudioHuffCodebook::from_abits_sel(4, 1),
        Some(AudioHuffCodebook::B9)
    );
    assert_eq!(
        AudioHuffCodebook::from_abits_sel(4, 2),
        Some(AudioHuffCodebook::C9)
    );
}

#[test]
fn from_abits_sel_none_for_terminal_or_out_of_family() {
    assert_eq!(AudioHuffCodebook::from_abits_sel(1, 1), None);
    assert_eq!(AudioHuffCodebook::from_abits_sel(2, 3), None);
    assert_eq!(AudioHuffCodebook::from_abits_sel(3, 3), None);
    assert_eq!(AudioHuffCodebook::from_abits_sel(4, 3), None);
    assert_eq!(AudioHuffCodebook::from_abits_sel(0, 0), None);
    assert_eq!(AudioHuffCodebook::from_abits_sel(5, 0), None);
    assert_eq!(AudioHuffCodebook::from_abits_sel(7, 0), None);
}

#[test]
fn abits_and_levels_match_family() {
    assert_eq!(AudioHuffCodebook::A3.abits(), 1);
    assert_eq!(AudioHuffCodebook::A3.levels(), 3);
    assert_eq!(AudioHuffCodebook::C5.abits(), 2);
    assert_eq!(AudioHuffCodebook::C5.levels(), 5);
    assert_eq!(AudioHuffCodebook::B7.abits(), 3);
    assert_eq!(AudioHuffCodebook::B7.levels(), 7);
    assert_eq!(AudioHuffCodebook::C9.abits(), 4);
    assert_eq!(AudioHuffCodebook::C9.levels(), 9);
}

#[test]
fn level_count_equals_table_length() {
    for &book in ALL_BOOKS {
        let (table, _) = book.table();
        assert_eq!(
            table.len() as u16,
            book.levels(),
            "{book:?} table length must equal its level count"
        );
    }
}

#[test]
fn every_book_is_a_complete_prefix_code() {
    for &book in ALL_BOOKS {
        let (table, name) = book.table();
        for (i, &(_, len_i, code_i)) in table.iter().enumerate() {
            for (j, &(_, len_j, code_j)) in table.iter().enumerate() {
                if i == j {
                    continue;
                }
                if len_i <= len_j {
                    let shift = len_j - len_i;
                    assert_ne!(
                        (code_j >> shift),
                        code_i,
                        "{name}: code {code_i:b}/{len_i} is a prefix of {code_j:b}/{len_j}"
                    );
                }
            }
        }
        let kraft: f64 = table
            .iter()
            .map(|&(_, len, _)| 2f64.powi(-(len as i32)))
            .sum();
        assert!(
            (kraft - 1.0).abs() < 1e-9,
            "{name}: Kraft sum {kraft} != 1 (incomplete code)"
        );
    }
}

#[test]
fn every_book_round_trips_every_symbol() {
    for &book in ALL_BOOKS {
        let (table, _) = book.table();
        for &(level, code_len, code) in table {
            let stream = pack_fields(&[(code as u32, code_len)]);
            let (got, bits) = decode_audio_huff_at(&stream, 0, book).unwrap();
            assert_eq!(got, level, "{book:?}: level for code {code:b}/{code_len}");
            assert_eq!(bits, code_len as usize, "{book:?}: consumed bits");
        }
    }
}

#[test]
fn books_decode_signed_levels_symmetrically() {
    let max_amp = |book: AudioHuffCodebook| (book.levels() as i16 - 1) / 2;
    for &book in ALL_BOOKS {
        let (table, _) = book.table();
        let amp = max_amp(book);
        for lvl in -amp..=amp {
            assert!(
                table.iter().any(|&(l, _, _)| l == lvl),
                "{book:?}: missing level {lvl}"
            );
        }
    }
}

#[test]
fn a3_specific_codes() {
    assert_eq!(
        decode_audio_huff_at(&pack_fields(&[(0, 1)]), 0, AudioHuffCodebook::A3).unwrap(),
        (0, 1)
    );
    assert_eq!(
        decode_audio_huff_at(&pack_fields(&[(2, 2)]), 0, AudioHuffCodebook::A3).unwrap(),
        (1, 2)
    );
    assert_eq!(
        decode_audio_huff_at(&pack_fields(&[(3, 2)]), 0, AudioHuffCodebook::A3).unwrap(),
        (-1, 2)
    );
}

#[test]
fn a9_longest_codes_are_six_bits() {
    assert_eq!(
        decode_audio_huff_at(&pack_fields(&[(49, 6)]), 0, AudioHuffCodebook::A9).unwrap(),
        (4, 6)
    );
    assert_eq!(
        decode_audio_huff_at(&pack_fields(&[(48, 6)]), 0, AudioHuffCodebook::A9).unwrap(),
        (-4, 6)
    );
}

#[test]
fn decode_at_unaligned_offset_matches_aligned() {
    let aligned = pack_fields(&[(31, 5)]);
    let shifted = pack_fields(&[(0b101, 3), (31, 5)]);
    let a = decode_audio_huff_at(&aligned, 0, AudioHuffCodebook::A7).unwrap();
    let b = decode_audio_huff_at(&shifted, 3, AudioHuffCodebook::A7).unwrap();
    assert_eq!(a, b);
    assert_eq!(a, (3, 5));
}

#[test]
fn truncated_stream_surfaces_eof() {
    assert_eq!(
        decode_audio_huff_at(&[], 0, AudioHuffCodebook::A9).unwrap_err(),
        Error::UnexpectedEof
    );
    let one_byte = pack_fields(&[(0b00000011, 8)]);
    assert_eq!(one_byte.len(), 1);
    assert_eq!(
        decode_audio_huff_at(&one_byte, 6, AudioHuffCodebook::A9).unwrap_err(),
        Error::UnexpectedEof
    );
}

#[test]
fn complete_codes_always_resolve_within_max_len() {
    for raw in 0u32..(1 << MAX_AUDIO_HUFF_CODE_LEN) {
        let stream = pack_fields(&[(raw, MAX_AUDIO_HUFF_CODE_LEN as u8)]);
        let res = decode_audio_huff_at(&stream, 0, AudioHuffCodebook::A9);
        assert!(
            res.is_ok(),
            "A9: 6-bit prefix {raw:06b} failed to resolve: {res:?}"
        );
    }
}
