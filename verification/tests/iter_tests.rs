#![allow(unused_imports)]

use oxideav_dts::{
    assemble_xin, bhuff_codebook, bitalloc_codebook, block_code_word_bits, decode_abits,
    decode_abits_at, decode_audio_huff, decode_audio_huff_at, decode_huffman_table,
    decode_lfe_phase_at, decode_primary_side_info_at, decode_scales, decode_scales_at,
    decode_tmode, detect_sync, encode_frame_header_be, error_class, find_all_syncs,
    find_next_sync, iter_frames, iter_frames_resync, nfe_word_bits, parse_any_frame_header,
    parse_audio_coding_header, parse_frame_header, parse_frame_header_14bit, probe_dts_class,
    scan_hf_vq_indices_at, shift_x_history, sign_extend, split_hfreq_vq_entry, thuff_codebook,
    unpack_14bit_to_16bit, AbitsCodebook, AudioArrayDecodeError, AudioArrayError,
    AudioCodingHeader, AudioHuffCodebook, BitReader, ChannelSideInfo, ChannelSideInfoParams,
    DecoderState, DtsFrameHeader, Error, ErrorClass, FilterBankSelection, FourteenBitByteOrder,
    FrameIterator, FrameIteratorResync, FrameType, FrameView, LfeMode, PrimarySideInfo,
    ProbeClass, QmfAssembleError, ReceiveOutcome, ResyncCause, ResyncEvent, ScalesCodebook,
    SubsubframeCount, SyncMatch, SyncWordEncoding, TmodeCodebook, Vlc, VlcEntry,
    ADPCM_VQ_BOOK_SIZE, ADPCM_VQ_INDEX_BITS, ADPCM_VQ_VECTOR_LEN, COS_MOD_BLOCK1_START,
    COS_MOD_BLOCK2_START, COS_MOD_BLOCK3_START, COS_MOD_BLOCK4_START, COS_MOD_LEN,
    HFREQ_VQ_BOOK_SIZE, HFREQ_VQ_ENTRIES_PER_VECTOR, HFREQ_VQ_INDEX_BITS, HFREQ_VQ_VECTOR_LEN,
    MAX_AUDIO_HUFF_CODE_LEN, MAX_PRIMARY_CHANNELS, NUM_SUBBAND, RMS_6BIT, RMS_7BIT,
    X_HISTORY_LEN,
};

fn drain_strict(mut it: FrameIterator<'_>) -> Vec<Result<FrameView<'_>, Error>> {
    let mut out = Vec::new();
    while let Some(item) = it.next() {
        out.push(item);
    }
    out
}

fn drain_resync(mut it: FrameIteratorResync<'_>) -> Vec<Result<FrameView<'_>, ResyncEvent>> {
    let mut out = Vec::new();
    while let Some(item) = it.next() {
        out.push(item);
    }
    out
}
const RAW_BE_SYNC: [u8; 4] = [0x7F, 0xFE, 0x80, 0x01];
const RAW_LE_SYNC: [u8; 4] = [0xFE, 0x7F, 0x01, 0x80];

#[test]
fn find_next_sync_at_offset_zero() {
    let mut buf = vec![0u8; 16];
    buf[..4].copy_from_slice(&RAW_BE_SYNC);
    let m = find_next_sync(&buf, 0).unwrap();
    assert_eq!(m.offset, 0);
    assert_eq!(m.encoding, SyncWordEncoding::RawBigEndian);
}

#[test]
fn find_next_sync_skips_leading_garbage() {
    let mut buf = vec![0xAAu8; 32];
    buf[7..11].copy_from_slice(&RAW_BE_SYNC);
    let m = find_next_sync(&buf, 0).unwrap();
    assert_eq!(m.offset, 7);
    assert_eq!(m.encoding, SyncWordEncoding::RawBigEndian);
}

#[test]
fn find_next_sync_le_variant() {
    let mut buf = vec![0u8; 16];
    buf[3..7].copy_from_slice(&RAW_LE_SYNC);
    let m = find_next_sync(&buf, 0).unwrap();
    assert_eq!(m.offset, 3);
    assert_eq!(m.encoding, SyncWordEncoding::RawLittleEndian);
}

#[test]
fn find_next_sync_14bit_be() {
    let mut buf = vec![0u8; 16];
    buf[5..11].copy_from_slice(&[0x1F, 0xFF, 0xE8, 0x00, 0x07, 0xFA]);
    let m = find_next_sync(&buf, 0).unwrap();
    assert_eq!(m.offset, 5);
    assert_eq!(m.encoding, SyncWordEncoding::FourteenBitBigEndian);
}

#[test]
fn find_next_sync_14bit_le() {
    let mut buf = vec![0u8; 16];
    buf[5..11].copy_from_slice(&[0xFF, 0x1F, 0x00, 0xE8, 0xF3, 0x07]);
    let m = find_next_sync(&buf, 0).unwrap();
    assert_eq!(m.offset, 5);
    assert_eq!(m.encoding, SyncWordEncoding::FourteenBitLittleEndian);
}

#[test]
fn find_next_sync_honours_start_offset() {
    let mut buf = vec![0xAAu8; 32];
    buf[2..6].copy_from_slice(&RAW_BE_SYNC);
    buf[20..24].copy_from_slice(&RAW_BE_SYNC);
    let m = find_next_sync(&buf, 7).unwrap();
    assert_eq!(m.offset, 20);
}

#[test]
fn find_next_sync_returns_none_when_absent() {
    let buf = vec![0xAAu8; 64];
    assert_eq!(find_next_sync(&buf, 0), None);
}

#[test]
fn find_next_sync_returns_none_when_start_past_end() {
    let buf = vec![0u8; 16];
    assert_eq!(find_next_sync(&buf, 100), None);
}

#[test]
fn find_next_sync_returns_none_when_only_partial_sync_at_tail() {
    let mut buf = vec![0xAAu8; 8];
    buf[5..8].copy_from_slice(&[0x7F, 0xFE, 0x80]);
    assert_eq!(find_next_sync(&buf, 0), None);
}

#[test]
fn frame_view_payload_slice_length_matches_header_boundary_no_crc() {
    let mut buf = vec![0u8; 95];
    buf[0..4].copy_from_slice(&[0x7F, 0xFE, 0x80, 0x01]);
    fn push(bv: &mut Vec<bool>, value: u32, width: u32) {
        for i in (0..width).rev() {
            bv.push(((value >> i) & 1) == 1);
        }
    }
    let mut bv: Vec<bool> = Vec::new();
    push(&mut bv, 0x7FFE_8001, 32);
    push(&mut bv, 0, 1);
    push(&mut bv, 0, 5);
    push(&mut bv, 0, 1);
    push(&mut bv, 5, 7);
    push(&mut bv, 94, 14);
    push(&mut bv, 0, 6);
    push(&mut bv, 0, 4);
    push(&mut bv, 0, 5);
    push(&mut bv, 0, 13);
    push(&mut bv, 0, 16);
    while bv.len() % 8 != 0 {
        bv.push(false);
    }
    for (i, chunk) in bv.chunks(8).enumerate() {
        let mut b: u8 = 0;
        for (k, bit) in chunk.iter().enumerate() {
            if *bit {
                b |= 1 << (7 - k);
            }
        }
        buf[i] = b;
    }
    for byte in buf.iter_mut().skip(13) {
        *byte = 0xCD;
    }

    let mut it = iter_frames(&buf);
    let view = it.next().expect("frame must yield").expect("must parse");
    assert_eq!(view.offset, 0);
    assert_eq!(view.len, 95);
    assert_eq!(view.header.frame_size_bytes, 95);
    assert!(!view.header.crc_present);
    assert_eq!(view.header.header_byte_length(), 13);

    let payload = view.payload();
    assert_eq!(payload.len(), 95 - 13);
    assert!(payload.iter().all(|&b| b == 0xCD));
    assert!(it.next().is_none());
}

#[test]
fn frame_view_payload_offset_shifts_when_crc_present() {
    let mut buf = vec![0u8; 95];
    fn push(bv: &mut Vec<bool>, value: u32, width: u32) {
        for i in (0..width).rev() {
            bv.push(((value >> i) & 1) == 1);
        }
    }
    let mut bv: Vec<bool> = Vec::new();
    push(&mut bv, 0x7FFE_8001, 32);
    push(&mut bv, 0, 1);
    push(&mut bv, 0, 5);
    push(&mut bv, 1, 1);
    push(&mut bv, 5, 7);
    push(&mut bv, 94, 14);
    push(&mut bv, 0, 6);
    push(&mut bv, 0, 4);
    push(&mut bv, 0, 5);
    push(&mut bv, 0, 13);
    push(&mut bv, 0xABCD, 16);
    push(&mut bv, 0, 16);
    while bv.len() % 8 != 0 {
        bv.push(false);
    }
    for (i, chunk) in bv.chunks(8).enumerate() {
        let mut b: u8 = 0;
        for (k, bit) in chunk.iter().enumerate() {
            if *bit {
                b |= 1 << (7 - k);
            }
        }
        buf[i] = b;
    }
    for byte in buf.iter_mut().skip(15) {
        *byte = 0xEF;
    }

    let view = iter_frames(&buf).next().unwrap().unwrap();
    assert!(view.header.crc_present);
    assert_eq!(view.header.header_byte_length(), 15);
    let payload = view.payload();
    assert_eq!(payload.len(), 95 - 15);
    assert!(payload.iter().all(|&b| b == 0xEF));
}

#[test]
fn find_all_syncs_empty_buffer_returns_empty_vec() {
    let buf: [u8; 0] = [];
    assert!(find_all_syncs(&buf).is_empty());
}

#[test]
fn find_all_syncs_no_sync_returns_empty_vec() {
    let buf = vec![0xAAu8; 64];
    assert!(find_all_syncs(&buf).is_empty());
}

#[test]
fn find_all_syncs_returns_single_match_for_single_sync() {
    let mut buf = vec![0u8; 16];
    buf[0..4].copy_from_slice(&RAW_BE_SYNC);
    let matches = find_all_syncs(&buf);
    assert_eq!(matches.len(), 1);
    assert_eq!(matches[0].offset, 0);
    assert_eq!(matches[0].encoding, SyncWordEncoding::RawBigEndian);
}

#[test]
fn find_all_syncs_mixed_raw_be_and_le_in_one_buffer() {
    let mut buf = vec![0xAAu8; 32];
    buf[0..4].copy_from_slice(&RAW_BE_SYNC);
    buf[8..12].copy_from_slice(&RAW_LE_SYNC);
    buf[16..20].copy_from_slice(&RAW_BE_SYNC);
    buf[24..28].copy_from_slice(&RAW_LE_SYNC);
    let matches = find_all_syncs(&buf);
    assert_eq!(matches.len(), 4);
    assert_eq!(matches[0].offset, 0);
    assert_eq!(matches[0].encoding, SyncWordEncoding::RawBigEndian);
    assert_eq!(matches[1].offset, 8);
    assert_eq!(matches[1].encoding, SyncWordEncoding::RawLittleEndian);
    assert_eq!(matches[2].offset, 16);
    assert_eq!(matches[2].encoding, SyncWordEncoding::RawBigEndian);
    assert_eq!(matches[3].offset, 24);
    assert_eq!(matches[3].encoding, SyncWordEncoding::RawLittleEndian);
}

#[test]
fn find_all_syncs_with_all_four_encodings() {
    let mut buf = vec![0xAAu8; 48];
    buf[0..4].copy_from_slice(&RAW_BE_SYNC);
    buf[8..12].copy_from_slice(&RAW_LE_SYNC);
    buf[16..22].copy_from_slice(&[0x1F, 0xFF, 0xE8, 0x00, 0x07, 0xFA]);
    buf[24..30].copy_from_slice(&[0xFF, 0x1F, 0x00, 0xE8, 0xF3, 0x07]);
    let matches = find_all_syncs(&buf);
    assert_eq!(matches.len(), 4);
    assert_eq!(matches[0].encoding, SyncWordEncoding::RawBigEndian);
    assert_eq!(matches[1].encoding, SyncWordEncoding::RawLittleEndian);
    assert_eq!(matches[2].encoding, SyncWordEncoding::FourteenBitBigEndian);
    assert_eq!(
        matches[3].encoding,
        SyncWordEncoding::FourteenBitLittleEndian
    );
}

#[test]
fn find_all_syncs_consecutive_back_to_back_frames() {
    let mut buf = vec![0u8; 16];
    buf[0..4].copy_from_slice(&RAW_BE_SYNC);
    buf[4..8].copy_from_slice(&RAW_BE_SYNC);
    let matches = find_all_syncs(&buf);
    assert_eq!(matches.len(), 2);
    assert_eq!(matches[0].offset, 0);
    assert_eq!(matches[1].offset, 4);
}

#[test]
fn find_all_syncs_walks_full_buffer_independent_of_starting_garbage() {
    let mut buf = vec![0xAAu8; 32];
    buf[5..9].copy_from_slice(&RAW_BE_SYNC);
    buf[20..24].copy_from_slice(&RAW_LE_SYNC);
    let matches = find_all_syncs(&buf);
    assert_eq!(matches.len(), 2);
    assert_eq!(matches[0].offset, 5);
    assert_eq!(matches[1].offset, 20);
}

#[test]
fn find_all_syncs_matches_find_next_sync_loop() {
    let mut buf = vec![0xAAu8; 64];
    buf[3..7].copy_from_slice(&RAW_BE_SYNC);
    buf[15..19].copy_from_slice(&RAW_LE_SYNC);
    buf[40..44].copy_from_slice(&RAW_BE_SYNC);

    let mut reference: Vec<SyncMatch> = Vec::new();
    let mut cursor = 0usize;
    while let Some(m) = find_next_sync(&buf, cursor) {
        reference.push(m);
        cursor = m.offset + 1;
    }

    let bulk = find_all_syncs(&buf);
    assert_eq!(bulk, reference);
}

fn build_raw_le_two_frame_stream() -> Vec<u8> {
    let mut be = Vec::with_capacity(2 * 96);
    for _frame in 0..2 {
        let mut bv: Vec<bool> = Vec::new();
        fn push(bv: &mut Vec<bool>, value: u32, width: u32) {
            for i in (0..width).rev() {
                bv.push(((value >> i) & 1) == 1);
            }
        }
        push(&mut bv, 0x7FFE_8001, 32);
        push(&mut bv, 0, 1);
        push(&mut bv, 0, 5);
        push(&mut bv, 0, 1);
        push(&mut bv, 5, 7);
        push(&mut bv, 95, 14);
        push(&mut bv, 0, 6);
        push(&mut bv, 0, 4);
        push(&mut bv, 0, 5);
        push(&mut bv, 0, 13);
        push(&mut bv, 0, 16);
        while bv.len() % 8 != 0 {
            bv.push(false);
        }
        let mut frame_bytes = vec![0u8; 96];
        for (i, chunk) in bv.chunks(8).enumerate() {
            let mut b: u8 = 0;
            for (k, bit) in chunk.iter().enumerate() {
                if *bit {
                    b |= 1 << (7 - k);
                }
            }
            frame_bytes[i] = b;
        }
        for byte in frame_bytes.iter_mut().skip(13) {
            *byte = 0xCD;
        }
        be.extend_from_slice(&frame_bytes);
    }
    for pair in be.chunks_exact_mut(2) {
        pair.swap(0, 1);
    }
    be
}

#[test]
fn iter_frames_walks_raw_le_two_frame_stream() {
    let buf = build_raw_le_two_frame_stream();
    assert_eq!(&buf[..4], &[0xFE, 0x7F, 0x01, 0x80]);
    assert_eq!(&buf[96..100], &[0xFE, 0x7F, 0x01, 0x80]);

    let frames: Vec<_> = drain_strict(iter_frames(&buf)).into_iter()
        .collect::<core::result::Result<Vec<_>, _>>()
        .expect("raw-LE multi-frame stream must walk");
    assert_eq!(frames.len(), 2);

    for (i, frame) in frames.iter().enumerate() {
        assert_eq!(
            frame.header.sync_word_encoding,
            SyncWordEncoding::RawLittleEndian,
            "frame {i} encoding",
        );
        assert_eq!(frame.offset, i * 96);
        assert_eq!(frame.len, 96);
        assert_eq!(frame.header.frame_size_bytes, 96);
        assert_eq!(frame.header.blocks_per_frame, 5);
        assert_eq!(frame.header.frame_type, FrameType::Termination);
        assert!(!frame.header.crc_present);
        assert_eq!(frame.header.header_byte_length(), 13);
    }
}

#[test]
fn iter_frames_raw_le_handles_leading_garbage() {
    let stream = build_raw_le_two_frame_stream();
    let mut prefixed = Vec::with_capacity(7 + stream.len());
    prefixed.extend_from_slice(&[0xAA; 7]);
    prefixed.extend_from_slice(&stream);

    let frames: Vec<_> = drain_strict(iter_frames(&prefixed)).into_iter()
        .collect::<core::result::Result<Vec<_>, _>>()
        .expect("garbage-prefixed raw-LE stream must still walk");
    assert_eq!(frames.len(), 2);
    assert_eq!(frames[0].offset, 7);
    assert_eq!(frames[1].offset, 7 + 96);
    for f in &frames {
        assert_eq!(
            f.header.sync_word_encoding,
            SyncWordEncoding::RawLittleEndian
        );
    }
}

fn push_bits(bv: &mut Vec<bool>, value: u32, width: u32) {
    for i in (0..width).rev() {
        bv.push(((value >> i) & 1) == 1);
    }
}

fn bits_to_bytes(bv: &[bool]) -> Vec<u8> {
    assert_eq!(bv.len() % 8, 0, "bit count must be multiple of 8");
    let mut out = vec![0u8; bv.len() / 8];
    for (i, chunk) in bv.chunks(8).enumerate() {
        let mut b: u8 = 0;
        for (k, bit) in chunk.iter().enumerate() {
            if *bit {
                b |= 1 << (7 - k);
            }
        }
        out[i] = b;
    }
    out
}

fn build_min_frame_be(fill: u8) -> Vec<u8> {
    let mut bv: Vec<bool> = Vec::new();
    push_bits(&mut bv, 0x7FFE_8001, 32);
    push_bits(&mut bv, 0, 1);
    push_bits(&mut bv, 0, 5);
    push_bits(&mut bv, 0, 1);
    push_bits(&mut bv, 5, 7);
    push_bits(&mut bv, 94, 14);
    push_bits(&mut bv, 0, 6);
    push_bits(&mut bv, 0, 4);
    push_bits(&mut bv, 0, 5);
    push_bits(&mut bv, 0, 13);
    push_bits(&mut bv, 0, 16);
    while bv.len() % 8 != 0 {
        bv.push(false);
    }
    let mut buf = bits_to_bytes(&bv);
    buf.resize(95, fill);
    for byte in buf.iter_mut().skip(13) {
        *byte = fill;
    }
    buf
}

#[test]
fn resync_walks_clean_stream_identically_to_fail_fast() {
    let mut stream = Vec::with_capacity(3 * 95);
    for fill in [0x11u8, 0x22, 0x33] {
        stream.extend_from_slice(&build_min_frame_be(fill));
    }
    assert_eq!(stream.len(), 285);

    let strict: Vec<FrameView<'_>> = drain_strict(iter_frames(&stream)).into_iter()
        .collect::<core::result::Result<Vec<_>, _>>()
        .expect("clean stream must walk");
    let resync: Vec<FrameView<'_>> = drain_resync(iter_frames_resync(&stream)).into_iter()
        .collect::<core::result::Result<Vec<_>, ResyncEvent>>()
        .expect("clean stream must walk through resync iter too");
    assert_eq!(strict.len(), 3);
    assert_eq!(resync.len(), 3);
    for (a, b) in strict.iter().zip(resync.iter()) {
        assert_eq!(a.offset, b.offset);
        assert_eq!(a.len, b.len);
        assert_eq!(a.header, b.header);
    }
}

#[test]
fn resync_skips_false_positive_sync_in_garbage_and_recovers_real_frame() {
    let real = build_min_frame_be(0xCC);
    let mut buf = vec![0xAAu8; 32];
    buf[8..12].copy_from_slice(&RAW_BE_SYNC);
    for byte in buf.iter_mut().take(32).skip(12) {
        *byte = 0;
    }
    buf.extend_from_slice(&real);
    let mut strict = iter_frames(&buf);
    match strict.next() {
        Some(Err(Error::BlockCountOutOfRange { .. })) => {}
        other => panic!("fail-fast must surface BlockCountOutOfRange, got {other:?}"),
    }
    assert!(strict.next().is_none(), "fail-fast iterator terminates");

    let mut it = iter_frames_resync(&buf);
    let first = it.next().expect("must yield event");
    match first {
        Err(ResyncEvent {
            offset: 8,
            encoding: SyncWordEncoding::RawBigEndian,
            cause: ResyncCause::StructuralBoundFailed(Error::BlockCountOutOfRange { .. }),
        }) => {}
        other => panic!("expected StructuralBoundFailed at offset 8, got {other:?}"),
    }
    let second = it.next().expect("must yield real frame");
    let view = second.expect("real frame must parse");
    assert_eq!(view.offset, 32);
    assert_eq!(view.len, 95);
    assert_eq!(
        view.header.sync_word_encoding,
        SyncWordEncoding::RawBigEndian
    );
    assert_eq!(view.header.frame_size_bytes, 95);
    assert!(it.next().is_none());
}

#[test]
fn resync_overrun_event_lets_iterator_continue() {

    let real = build_min_frame_be(0x11);
    let mut buf = real.clone();
    buf.push(0xAA);
    let false_sync_off = buf.len();
    let total_after_false_sync = 50;
    let mut bv: Vec<bool> = Vec::new();
    push_bits(&mut bv, 0x7FFE_8001, 32);
    push_bits(&mut bv, 0, 1);
    push_bits(&mut bv, 0, 5);
    push_bits(&mut bv, 0, 1);
    push_bits(&mut bv, 5, 7);
    push_bits(&mut bv, 199, 14);
    push_bits(&mut bv, 0, 6);
    push_bits(&mut bv, 0, 4);
    push_bits(&mut bv, 0, 5);
    push_bits(&mut bv, 0, 13);
    push_bits(&mut bv, 0, 16);
    while bv.len() % 8 != 0 {
        bv.push(false);
    }
    let hdr_bytes = bits_to_bytes(&bv);
    buf.extend_from_slice(&hdr_bytes);
    while buf.len() - false_sync_off < total_after_false_sync {
        buf.push(0xBB);
    }
    assert_eq!(buf.len() - false_sync_off, total_after_false_sync);

    let events: Vec<_> = drain_resync(iter_frames_resync(&buf));
    assert_eq!(events.len(), 2);
    let frame = events[0].as_ref().unwrap();
    assert_eq!(frame.offset, 0);
    assert_eq!(frame.len, 95);

    match events[1] {
        Err(ResyncEvent {
            offset: 96,
            encoding: SyncWordEncoding::RawBigEndian,
            cause: ResyncCause::FrameLengthOverrunsBuffer { declared_len: 200 },
        }) => {}
        ref other => panic!("expected overrun event at 96 with len 200, got {other:?}"),
    }
}

#[test]
fn resync_skips_fourteen_bit_sync_and_keeps_walking() {
    let real = build_min_frame_be(0xDD);
    let mut buf = Vec::new();
    buf.extend_from_slice(&[0x1F, 0xFF, 0xE8, 0x00, 0x07, 0xFA]);
    buf.extend_from_slice(&[0xAA, 0xAA]);
    let real_off = buf.len();
    buf.extend_from_slice(&real);

    let mut it = iter_frames_resync(&buf);
    match it.next() {
        Some(Err(ResyncEvent {
            offset: 0,
            encoding: SyncWordEncoding::FourteenBitBigEndian,
            cause: ResyncCause::FourteenBitSyncSkipped,
        })) => {}
        other => panic!("expected 14-bit-BE skip at offset 0, got {other:?}"),
    }
    let view = it.next().expect("must yield frame").expect("must parse");
    assert_eq!(view.offset, real_off);
    assert_eq!(
        view.header.sync_word_encoding,
        SyncWordEncoding::RawBigEndian
    );
    assert!(it.next().is_none());
}

#[test]
fn resync_cursor_advances_one_byte_on_event_and_frame_size_on_ok() {
    let real = build_min_frame_be(0x44);
    let mut buf = vec![0xAAu8; 4];
    buf[0..4].copy_from_slice(&RAW_BE_SYNC);
    buf.resize(20, 0);
    let real_off = buf.len();
    buf.extend_from_slice(&real);

    let mut it = iter_frames_resync(&buf);
    let _ = it.next();
    assert_eq!(it.cursor(), 1);
    let _ = it.next();
    assert_eq!(it.cursor(), real_off + 95);
    assert!(it.next().is_none());
}

#[test]
fn resync_empty_buffer_yields_none() {
    let buf: [u8; 0] = [];
    assert!(iter_frames_resync(&buf).next().is_none());
}

#[test]
fn resync_no_sync_yields_none() {
    let buf = vec![0xAAu8; 64];
    assert!(iter_frames_resync(&buf).next().is_none());
}

#[test]
fn resync_multiple_consecutive_false_positives_each_reported() {
    let mut buf = vec![0u8; 64];
    for &off in &[0usize, 16, 32] {
        buf[off..off + 4].copy_from_slice(&RAW_BE_SYNC);
    }
    let events: Vec<_> = drain_resync(iter_frames_resync(&buf));
    assert_eq!(events.len(), 3);
    for (i, &expected_off) in [0usize, 16, 32].iter().enumerate() {
        match events[i] {
            Err(ResyncEvent {
                offset,
                encoding: SyncWordEncoding::RawBigEndian,
                cause: ResyncCause::StructuralBoundFailed(Error::BlockCountOutOfRange { .. }),
            }) if offset == expected_off => {}
            ref other => panic!("event {i} mismatch: {other:?}"),
        }
    }
}

#[test]
fn resync_truncated_tail_surfaces_overrun_event_then_ends() {
    let real = build_min_frame_be(0xEE);
    let truncated = &real[..50];
    let events: Vec<_> = drain_resync(iter_frames_resync(truncated));
    assert_eq!(events.len(), 1);
    match events[0] {
        Err(ResyncEvent {
            offset: 0,
            encoding: SyncWordEncoding::RawBigEndian,
            cause: ResyncCause::FrameLengthOverrunsBuffer { declared_len: 95 },
        }) => {}
        ref other => panic!("expected overrun event, got {other:?}"),
    }
}

#[test]
fn resync_truncated_header_surfaces_header_eof() {
    let buf = [0x7F, 0xFE, 0x80, 0x01, 0x00, 0x00, 0x00, 0x00];
    let events: Vec<_> = drain_resync(iter_frames_resync(&buf));
    assert_eq!(events.len(), 1);
    match events[0] {
        Err(ResyncEvent {
            offset: 0,
            encoding: SyncWordEncoding::RawBigEndian,
            cause: ResyncCause::HeaderEof,
        }) => {}
        ref other => panic!("expected HeaderEof, got {other:?}"),
    }
}

#[test]
fn iter_frames_resync_matches_struct_new() {
    let real = build_min_frame_be(0x55);
    let a: Vec<_> = drain_resync(iter_frames_resync(&real));
    let b: Vec<_> = drain_resync(FrameIteratorResync::new(&real));
    assert_eq!(a.len(), b.len());
    for (x, y) in a.iter().zip(b.iter()) {
        match (x, y) {
            (Ok(fx), Ok(fy)) => {
                assert_eq!(fx.offset, fy.offset);
                assert_eq!(fx.len, fy.len);
                assert_eq!(fx.header, fy.header);
            }
            (Err(ex), Err(ey)) => assert_eq!(ex, ey),
            _ => panic!("variants differ"),
        }
    }
}
