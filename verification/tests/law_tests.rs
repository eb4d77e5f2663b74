#![allow(unused_imports)]

use oxideav_dts::{
    assemble_xin, bhuff_codebook, bitalloc_codebook, block_code_word_bits, decode_abits,
    decode_abits_at, decode_audio_huff, decode_audio_huff_at, decode_huffman_table,
    decode_lfe_phase_at, decode_primary_side_info_at, decode_scales, decode_scales_at,
    decode_tmode, detect_sync, encode_frame_header_be, error_class, find_all_syncs,
    find_next_sync, iter_frames, iter_frames_resync, nfe_word_bits, parse_any_frame_header,
    parse_audio_coding_header, parse_frame_header, parse_frame_header_14bit, probe_dts_class,
    scan_hf_vq_indices_at, shift_x_history, sign_extend, split_hfreq_vq_entry, thuff_codebook,
    unpack_14bit_to_16bit, AbitsCodebook, AudioArrayDecodeError, AudioArrayError,
    AudioCodingHeader, AudioHuffCodebook, BitReader, ChannelSideInfo, ChannelSideInfoParams,
    DecoderState, DtsFrameHeader, Error, ErrorClass, FilterBankSelection, FourteenBitByteOrder,
    FrameIterator, FrameIteratorResync, FrameType, FrameView, LfeMode, PrimarySideInfo,
    ProbeClass, QmfAssembleError, ReceiveOutcome, ResyncCause, ResyncEvent, ScalesCodebook,
    SubsubframeCount, SyncMatch, SyncWordEncoding, TmodeCodebook, Vlc, VlcEntry,
    ADPCM_VQ_BOOK_SIZE, ADPCM_VQ_INDEX_BITS, ADPCM_VQ_VECTOR_LEN, COS_MOD_BLOCK1_START,
    COS_MOD_BLOCK2_START, COS_MOD_BLOCK3_START, COS_MOD_BLOCK4_START, COS_MOD_LEN,
    HFREQ_VQ_BOOK_SIZE, HFREQ_VQ_ENTRIES_PER_VECTOR, HFREQ_VQ_INDEX_BITS, HFREQ_VQ_VECTOR_LEN,
    MAX_AUDIO_HUFF_CODE_LEN, MAX_PRIMARY_CHANNELS, NUM_SUBBAND, RMS_6BIT, RMS_7BIT,
    X_HISTORY_LEN,
};

fn pack_fields(fields: &[(u32, u8)]) -> Vec<u8> {
    let total_bits: usize = fields.iter().map(|(_, w)| *w as usize).sum();
    let mut out = vec![0u8; total_bits.div_ceil(8)];
    let mut bit_pos = 0usize;
    for &(value, width) in fields {
        for i in (0..width).rev() {
            let bit = ((value >> i) & 1) as u8;
            out[bit_pos / 8] |= bit << (7 - (bit_pos % 8));
            bit_pos += 1;
        }
    }
    out
}

fn sample_header_bytes(crc: bool) -> Vec<u8> {
    let mut fields: Vec<(u32, u8)> = vec![
        (0x7FFE_8001, 32),
        (1, 1),
        (31, 5),
        (crc as u32, 1),
        (15, 7),
        (1023, 14),
        (9, 6),
        (13, 4),
        (25, 5),
        (0b1_0100_1010_0011, 13),
    ];
    if crc {
        fields.push((0xC0DE, 16));
    }
    fields.push((0b1_0011_10_101_1_0_0110, 16));
    let mut bytes = pack_fields(&fields);
    while bytes.len() < 16 {
        bytes.push(0);
    }
    bytes
}

#[test]
fn encode_then_parse_returns_the_header() {
    for crc in [false, true] {
        let hdr = parse_frame_header(&sample_header_bytes(crc)).unwrap();
        let mut enc = encode_frame_header_be(&hdr).unwrap();
        assert_eq!(enc.len(), hdr.header_byte_length() as usize);
        while enc.len() < 16 {
            enc.push(0);
        }
        assert_eq!(parse_frame_header(&enc).unwrap(), hdr);
    }
}

#[test]
fn little_endian_header_parses_like_its_big_endian_swap() {
    let be = sample_header_bytes(true);
    let le: Vec<u8> = be.chunks_exact(2).flat_map(|c| [c[1], c[0]]).collect();
    let a = parse_frame_header(&be).unwrap();
    let b = parse_frame_header(&le).unwrap();
    assert_eq!(b.sync_word_encoding, SyncWordEncoding::RawLittleEndian);
    assert_eq!(a.frame_size_bytes, b.frame_size_bytes);
    assert_eq!(a.header_crc, b.header_crc);
    assert_eq!(a.dialog_normalization, b.dialog_normalization);
}

#[test]
fn parse_any_routes_by_sync_word() {
    let be = sample_header_bytes(false);
    assert_eq!(parse_any_frame_header(&be).unwrap(), parse_frame_header(&be).unwrap());
    assert_eq!(parse_any_frame_header(&[0xDE, 0xAD, 0xBE, 0xEF]), Err(Error::NoSync));
    assert_eq!(parse_any_frame_header(&[0x7F, 0xFE]), Err(Error::UnexpectedEof));
}

#[test]
fn probe_classes_parsed_truncated_rejected() {
    assert_eq!(probe_dts_class(&sample_header_bytes(true)), ProbeClass::Parsed);
    assert_eq!(probe_dts_class(&sample_header_bytes(true)[..10]), ProbeClass::Truncated);
    assert_eq!(probe_dts_class(&[0x7F]), ProbeClass::Truncated);
    assert_eq!(probe_dts_class(&[0u8; 16]), ProbeClass::Rejected);
}

#[test]
fn error_classes_follow_the_caller_action() {
    assert_eq!(error_class(Error::UnexpectedEof), ErrorClass::NeedMore);
    assert_eq!(error_class(Error::UnsupportedFourteenBit), ErrorClass::Unsupported);
    assert_eq!(error_class(Error::NoSync), ErrorClass::InvalidData);
    assert_eq!(
        error_class(Error::BlockCountOutOfRange { blocks: 3 }),
        ErrorClass::InvalidData
    );
    assert_eq!(
        error_class(Error::HuffmanDecodeFailed { table: "A12" }),
        ErrorClass::InvalidData
    );
}

#[test]
fn decoder_state_transitions() {
    let mut st = DecoderState::new();
    assert_eq!(st.receive(), ReceiveOutcome::NeedMore);
    assert!(st.last_header().is_none());
    assert_eq!(st.send_packet(&[0xDE, 0xAD, 0xBE, 0xEF]), Err(Error::NoSync));
    assert_eq!(st.receive(), ReceiveOutcome::NeedMore);
    st.flush();
    assert_eq!(st.receive(), ReceiveOutcome::EndOfStream);
    st.reset();
    assert_eq!(st.receive(), ReceiveOutcome::NeedMore);
    assert_eq!(st.send_packet(&sample_header_bytes(false)), Ok(()));
    assert_eq!(st.last_header().unwrap().frame_size_bytes, 1024);
    assert_eq!(st.receive(), ReceiveOutcome::Unsupported);
    st.flush();
    assert_eq!(st.receive(), ReceiveOutcome::Unsupported);
    st.reset();
    assert!(st.last_header().is_none());
    assert_eq!(st.receive(), ReceiveOutcome::NeedMore);
}

#[test]
fn vlc_every_code_decodes_to_its_symbol_plus_offset() {
    for idx in 0..5 {
        let v = bhuff_codebook(idx);
        let fields: Vec<(u32, u8)> = v.entries.iter().map(|e| (e.code, e.length)).collect();
        let stream = pack_fields(&fields);
        let mut r = BitReader::new(&stream);
        for e in &v.entries {
            assert_eq!(v.decode(&mut r).unwrap(), e.symbol as i32 + 1);
        }
    }
}

#[test]
fn vlc_max_len_is_the_longest_row() {
    assert_eq!(bitalloc_codebook(4, 0).max_len, 7);
    assert_eq!(bitalloc_codebook(0, 0).max_len, 2);
    assert_eq!(bhuff_codebook(3).max_len, 10);
    assert_eq!(thuff_codebook(3).max_len, 2);
    let fallback = bitalloc_codebook(9, 0);
    assert_eq!(fallback.max_len, 1);
    assert_eq!(fallback.offset, 0);
    assert_eq!(bitalloc_codebook(2, 1).offset, -3);
}

#[test]
fn vlc_codes_follow_length_order_and_stay_stable() {
    let v = Vlc::build(&[(5, 2), (6, 1), (7, 2), (8, 3), (9, 3)], 0);
    let order: Vec<i16> = v.entries.iter().map(|e| e.symbol).collect();
    assert_eq!(order, vec![6, 5, 7, 8, 9]);
    let codes: Vec<u32> = v.entries.iter().map(|e| e.code).collect();
    assert_eq!(codes, vec![0b0, 0b10, 0b11, 0b1000, 0b1001]);
}

#[test]
fn vlc_decode_reports_eof_and_no_match() {
    let v = thuff_codebook(0);
    let mut r = BitReader::new(&[]);
    assert_eq!(v.decode(&mut r), Err(Error::UnexpectedEof));
    let gappy = Vlc::build(&[(0, 2)], 0);
    let data = [0xFF];
    let mut r = BitReader::new(&data);
    assert_eq!(
        gappy.decode(&mut r),
        Err(Error::HuffmanDecodeFailed { table: "VLC" })
    );
}

fn coding_header_fields(nch: u32, crc: bool) -> Vec<(u32, u8)> {
    let mut f: Vec<(u32, u8)> = vec![(2, 4), (nch - 1, 3)];
    for c in 0..nch {
        f.push((10 + c, 5));
    }
    for c in 0..nch {
        f.push((3 + c, 5));
    }
    for c in 0..nch {
        f.push((c, 3));
    }
    for c in 0..nch {
        f.push((c % 4, 2));
    }
    for c in 0..nch {
        f.push((5 + c % 2, 3));
    }
    for c in 0..nch {
        f.push((7 - c, 3));
    }
    for _ in 0..nch {
        f.push((0, 130));
    }
    if crc {
        f.push((0xBEEF, 16));
    }
    f
}

fn pack_wide(fields: &[(u32, u8)]) -> Vec<u8> {
    let mut split: Vec<(u32, u8)> = Vec::new();
    for &(v, w) in fields {
        if w > 32 {
            let mut left = w;
            while left > 0 {
                let take = left.min(26);
                split.push((0, take));
                left -= take;
            }
        } else {
            split.push((v, w));
        }
    }
    pack_fields(&split)
}

#[test]
fn audio_coding_header_reads_every_pass() {
    for crc in [false, true] {
        let fields = coding_header_fields(2, crc);
        let mut bytes = pack_wide(&fields);
        bytes.push(0);
        let mut r = BitReader::new(&bytes);
        let h: AudioCodingHeader = parse_audio_coding_header(&mut r, 2, crc).unwrap();
        assert_eq!(h.nsubframes, 3);
        assert_eq!(h.nchannels, 2);
        assert_eq!(h.subs, vec![12, 13]);
        assert_eq!(h.subvq, vec![4, 5]);
        assert_eq!(h.jch, vec![0, 1]);
        assert_eq!(h.thuff, vec![0, 1]);
        assert_eq!(h.shuff, vec![5, 6]);
        assert_eq!(h.bhuff, vec![7, 6]);
        let expected = 7 + 151 * 2 + if crc { 16 } else { 0 };
        assert_eq!(r.bit_pos(), expected);
    }
}

#[test]
fn audio_coding_header_rejects_channel_mismatch_and_truncation() {
    let bytes = pack_wide(&coding_header_fields(2, false));
    let mut r = BitReader::new(&bytes);
    assert_eq!(
        parse_audio_coding_header(&mut r, 3, false),
        Err(Error::ChannelCountMismatch {
            expected: 3,
            declared: 2
        })
    );
    let mut r = BitReader::new(&bytes[..20]);
    assert_eq!(
        parse_audio_coding_header(&mut r, 2, false),
        Err(Error::UnexpectedEof)
    );
    let mut r = BitReader::new(&bytes);
    assert_eq!(
        parse_audio_coding_header(&mut r, 2, true),
        Err(Error::UnexpectedEof)
    );
    let mut r = BitReader::new(&[]);
    assert_eq!(
        parse_audio_coding_header(&mut r, 1, false),
        Err(Error::UnexpectedEof)
    );
}

#[test]
fn hfreq_entry_splits_into_signed_bytes() {
    assert_eq!(split_hfreq_vq_entry(0x18E8), (24, -24));
    assert_eq!(split_hfreq_vq_entry(0x7F80), (127, -128));
    assert_eq!(split_hfreq_vq_entry(0), (0, 0));
    assert_eq!(split_hfreq_vq_entry(0xFFFF), (-1, -1));
}

#[test]
fn lfe_phase_reads_signed_samples_and_scale_index() {
    let stream = pack_fields(&[(0xFF, 8), (0x7F, 8), (0x80, 8), (0x01, 8), (60, 8)]);
    let (samples, scale, bits) = decode_lfe_phase_at(&stream, 0, 2, 1).unwrap();
    assert_eq!(samples, vec![-1, 127, -128, 1]);
    assert_eq!(scale, 60);
    assert_eq!(bits, 40);
    let shifted = pack_fields(&[(0b101, 3), (0x05, 8), (0x06, 8), (9, 8)]);
    let (samples, scale, bits) = decode_lfe_phase_at(&shifted, 3, 1, 1).unwrap();
    assert_eq!(samples, vec![5, 6]);
    assert_eq!(scale, 9);
    assert_eq!(bits, 24);
    assert_eq!(
        decode_lfe_phase_at(&stream, 0, 2, 2),
        Err(AudioArrayDecodeError::Bitstream(Error::UnexpectedEof))
    );
}

#[test]
fn sign_extend_recovers_every_value_of_small_widths() {
    for width in 1u32..=8 {
        let half = 1i64 << (width - 1);
        for x in -half..half {
            let raw = (x.rem_euclid(1i64 << width)) as u32;
            assert_eq!(sign_extend(raw, width) as i64, x);
        }
    }
    assert_eq!(sign_extend(0xFFFF_FFFF, 32), -1);
    assert_eq!(sign_extend(0x8000_0000, 32), i32::MIN);
    assert_eq!(sign_extend(0x7FFF_FFFF, 32), i32::MAX);
    assert_eq!(sign_extend(0b1_0101, 4), 5);
}

#[test]
fn qmf_error_messages_are_exact() {
    assert_eq!(
        QmfAssembleError::SubsOutOfRange { n_subs: 64 }.message(),
        "n_subs=64 exceeds NumSubband=32 for the 32-band synthesis QMF"
    );
    assert_eq!(
        QmfAssembleError::SampleSliceTooShort {
            provided: 2,
            required: 105
        }
        .message(),
        "subband_samples.len()=2 is shorter than the n_subs=105 per-sample scalars required by the synthesis QMF"
    );
}

#[test]
fn audio_huff_book_selection_and_levels() {
    assert_eq!(AudioHuffCodebook::from_abits_sel(2, 1), Some(AudioHuffCodebook::B5));
    assert_eq!(AudioHuffCodebook::from_abits_sel(4, 3), None);
    assert_eq!(AudioHuffCodebook::C7.levels(), 7);
    assert_eq!(
        decode_audio_huff_at(&pack_fields(&[(0b111, 3)]), 0, AudioHuffCodebook::A9),
        Ok((1, 3))
    );
}

#[test]
fn side_info_walk_with_bit_offset_past_the_end_reports_eof() {
    let params = [ChannelSideInfoParams {
        n_subs: 2,
        n_vqsub: 2,
        abits_codebook: AbitsCodebook::Linear5Bit,
        tmode_codebook: TmodeCodebook::D4,
        scales_codebook: ScalesCodebook::Linear6Bit,
    }];
    assert_eq!(
        decode_primary_side_info_at(&[0u8; 2], 100, &params).unwrap_err(),
        Error::UnexpectedEof
    );
}
