#![allow(unused_imports)]

use oxideav_dts::{
    assemble_xin, bhuff_codebook, bitalloc_codebook, block_code_word_bits, decode_abits,
    decode_abits_at, decode_audio_huff, decode_audio_huff_at, decode_huffman_table,
    decode_lfe_phase_at, decode_primary_side_info_at, decode_scales, decode_scales_at,
    decode_tmode, detect_sync, encode_frame_header_be, error_class, find_all_syncs,
    find_next_sync, iter_frames, iter_frames_resync, nfe_word_bits, parse_any_frame_header,
    parse_audio_coding_header, parse_frame_header, parse_frame_header_14bit, probe_dts_class,
    scan_hf_vq_indices_at, shift_x_history, sign_extend, split_hfreq_vq_entry, thuff_codebook,
    unpack_14bit_to_16bit, AbitsCodebook, AudioArrayDecodeError, AudioArrayError,
    AudioCodingHeader, AudioHuffCodebook, BitReader, ChannelSideInfo, ChannelSideInfoParams,
    DecoderState, DtsFrameHeader, Error, ErrorClass, FilterBankSelection, FourteenBitByteOrder,
    FrameIterator, FrameIteratorResync, FrameType, FrameView, LfeMode, PrimarySideInfo,
    ProbeClass, QmfAssembleError, ReceiveOutcome, ResyncCause, ResyncEvent, ScalesCodebook,
    SubsubframeCount, SyncMatch, SyncWordEncoding, TmodeCodebook, Vlc, VlcEntry,
    ADPCM_VQ_BOOK_SIZE, ADPCM_VQ_INDEX_BITS, ADPCM_VQ_VECTOR_LEN, COS_MOD_BLOCK1_START,
    COS_MOD_BLOCK2_START, COS_MOD_BLOCK3_START, COS_MOD_BLOCK4_START, COS_MOD_LEN,
    HFREQ_VQ_BOOK_SIZE, HFREQ_VQ_ENTRIES_PER_VECTOR, HFREQ_VQ_INDEX_BITS, HFREQ_VQ_VECTOR_LEN,
    MAX_AUDIO_HUFF_CODE_LEN, MAX_PRIMARY_CHANNELS, NUM_SUBBAND, RMS_6BIT, RMS_7BIT,
    X_HISTORY_LEN,
};
#[test]
fn unpack_be_syncword_prefix_yields_raw_be_sync() {
    let packed = [0x1F, 0xFF, 0xE8, 0x00, 0x07, 0xF0];
    let unpacked = unpack_14bit_to_16bit(&packed, FourteenBitByteOrder::BigEndian).unwrap();
    assert_eq!(unpacked.len(), 6);
    assert_eq!(&unpacked[..4], &[0x7F, 0xFE, 0x80, 0x01]);
}

#[test]
fn unpack_le_syncword_prefix_yields_raw_be_sync() {
    let packed = [0xFF, 0x1F, 0x00, 0xE8, 0xF0, 0x07];
    let unpacked = unpack_14bit_to_16bit(&packed, FourteenBitByteOrder::LittleEndian).unwrap();
    assert_eq!(&unpacked[..4], &[0x7F, 0xFE, 0x80, 0x01]);
}

#[test]
fn unpack_roundtrip_against_synthetic_payloads_be() {
    let payloads: [u16; 8] = [
        0x1FFF, 0x2800, 0x07F0, 0x1234, 0x0ABC, 0x3FFF, 0x0000, 0x2AAA,
    ];
    let mut packed = Vec::with_capacity(payloads.len() * 2);
    for &p in &payloads {
        let signed = if p & 0x2000 != 0 {
            0xC000u16 | p
        } else {
            p & 0x3FFF
        };
        packed.extend_from_slice(&signed.to_be_bytes());
    }
    let unpacked = unpack_14bit_to_16bit(&packed, FourteenBitByteOrder::BigEndian).unwrap();
    assert_eq!(unpacked.len(), 14);
    for (i, &expected) in payloads.iter().enumerate() {
        let start = i * 14;
        let got = read_bits_msb(&unpacked, start, 14);
        assert_eq!(got, expected as u32, "payload {i} mismatch");
    }
}

#[test]
fn unpack_roundtrip_against_synthetic_payloads_le() {
    let payloads: [u16; 8] = [
        0x1FFF, 0x2800, 0x07F0, 0x1234, 0x0ABC, 0x3FFF, 0x0000, 0x2AAA,
    ];
    let mut packed = Vec::with_capacity(payloads.len() * 2);
    for &p in &payloads {
        let signed = if p & 0x2000 != 0 {
            0xC000u16 | p
        } else {
            p & 0x3FFF
        };
        packed.extend_from_slice(&signed.to_le_bytes());
    }
    let unpacked = unpack_14bit_to_16bit(&packed, FourteenBitByteOrder::LittleEndian).unwrap();
    assert_eq!(unpacked.len(), 14);
    for (i, &expected) in payloads.iter().enumerate() {
        let start = i * 14;
        let got = read_bits_msb(&unpacked, start, 14);
        assert_eq!(got, expected as u32, "payload {i} mismatch");
    }
}

#[test]
fn unpack_discards_upper_sign_bits() {
    let packed = [
        0xDF, 0xFF,
        0xA8, 0x00,
    ];
    let unpacked = unpack_14bit_to_16bit(&packed, FourteenBitByteOrder::BigEndian).unwrap();
    assert_eq!(unpacked.len(), 4);
    assert_eq!(read_bits_msb(&unpacked, 0, 14), 0x1FFF);
    assert_eq!(read_bits_msb(&unpacked, 14, 14), 0x2800);
}

#[test]
fn unpack_odd_length_returns_eof() {
    let packed = [0x1F, 0xFF, 0xE8];
    assert_eq!(
        unpack_14bit_to_16bit(&packed, FourteenBitByteOrder::BigEndian).unwrap_err(),
        Error::UnexpectedEof,
    );
}

#[test]
fn unpack_empty_yields_empty() {
    let out = unpack_14bit_to_16bit(&[], FourteenBitByteOrder::BigEndian).unwrap();
    assert!(out.is_empty());
}

#[test]
fn unpack_four_container_alignment_emits_exactly_seven_bytes() {
    let packed = [0x1F, 0xFF, 0xE8, 0x00, 0x07, 0xF0, 0x12, 0x34];
    let out = unpack_14bit_to_16bit(&packed, FourteenBitByteOrder::BigEndian).unwrap();
    assert_eq!(out.len(), 7);
}

#[test]
fn from_sync_routes_correctly() {
    assert_eq!(
        FourteenBitByteOrder::from_sync(SyncWordEncoding::FourteenBitBigEndian),
        Some(FourteenBitByteOrder::BigEndian),
    );
    assert_eq!(
        FourteenBitByteOrder::from_sync(SyncWordEncoding::FourteenBitLittleEndian),
        Some(FourteenBitByteOrder::LittleEndian),
    );
    assert_eq!(
        FourteenBitByteOrder::from_sync(SyncWordEncoding::RawBigEndian),
        None,
    );
    assert_eq!(
        FourteenBitByteOrder::from_sync(SyncWordEncoding::RawLittleEndian),
        None,
    );
}

fn read_bits_msb(bytes: &[u8], start: usize, n: usize) -> u32 {
    let mut v: u32 = 0;
    for i in 0..n {
        let abs = start + i;
        let byte = bytes[abs / 8];
        let bit = (byte >> (7 - (abs % 8))) & 1;
        v = (v << 1) | bit as u32;
    }
    v
}
