use oxideav_dts::{
    decode_primary_side_info_at, iter_frames, parse_frame_header, parse_frame_header_14bit,
    payload_overflows_at, vq_blocker, AbitsCodebook, AudioArrayError, ChannelSideInfoParams,
    Error, ScalesCodebook, SyncWordEncoding, TmodeCodebook,
};

fn pack_fields(fields: &[(u32, u8)]) -> Vec<u8> {
    let total_bits: usize = fields.iter().map(|(_, w)| *w as usize).sum();
    let mut out = vec![0u8; total_bits.div_ceil(8)];
    let mut bit_pos = 0usize;
    for &(value, width) in fields {
        for i in (0..width).rev() {
            let bit = ((value >> i) & 1) as u8;
            out[bit_pos / 8] |= bit << (7 - (bit_pos % 8));
            bit_pos += 1;
        }
    }
    out
}

fn be_header(crc: bool) -> Vec<u8> {
    let mut fields: Vec<(u32, u8)> = vec![
        (0x7FFE_8001, 32),
        (1, 1),
        (31, 5),
        (crc as u32, 1),
        (15, 7),
        (1023, 14),
        (9, 6),
        (13, 4),
        (25, 5),
        (0b1_0100_1010_0011, 13),
    ];
    if crc {
        fields.push((0xC0DE, 16));
    }
    fields.push((0b1_0011_10_101_1_0_0110, 16));
    let mut bytes = pack_fields(&fields);
    while bytes.len() < 16 {
        bytes.push(0);
    }
    bytes
}

fn swap_words(b: &[u8]) -> Vec<u8> {
    let mut out = b.to_vec();
    let mut i = 0;
    while i + 1 < out.len() {
        out.swap(i, i + 1);
        i += 2;
    }
    out
}

#[test]
fn little_endian_header_of_15_bytes_parses_without_crc() {
    let be = be_header(false);
    let le = swap_words(&be[..16]);
    let h = parse_frame_header(&le[..15]).expect("15 little-endian bytes");
    let want = parse_frame_header(&be).unwrap();
    assert_eq!(h.sync_word_encoding, SyncWordEncoding::RawLittleEndian);
    assert_eq!(h.frame_size_bytes, want.frame_size_bytes);
    assert_eq!(h.dialog_normalization, want.dialog_normalization);
    assert_eq!(parse_frame_header(&le[..14]), Err(Error::UnexpectedEof));
}

#[test]
fn little_endian_header_of_15_bytes_with_crc_lacks_its_last_byte() {
    let le = swap_words(&be_header(true)[..16]);
    assert_eq!(parse_frame_header(&le[..15]), Err(Error::UnexpectedEof));
    assert!(parse_frame_header(&le[..16]).is_ok());
}

#[test]
fn little_endian_odd_length_parses_like_big_endian() {
    let mut be = be_header(true);
    be.push(0x5A);
    let le = swap_words(&be);
    let h = parse_frame_header(&le).unwrap();
    let want = parse_frame_header(&be).unwrap();
    assert_eq!(h.header_crc, want.header_crc);
    assert_eq!(h.version, want.version);
}

#[test]
fn fourteen_bit_parser_reports_no_sync_for_short_input() {
    assert_eq!(parse_frame_header_14bit(&[0x1F, 0xFF]), Err(Error::NoSync));
    assert_eq!(parse_frame_header_14bit(&[]), Err(Error::NoSync));
}

#[test]
fn iterator_cursor_stops_at_fourteen_bit_sync() {
    let mut bytes = vec![0u8; 5];
    bytes.extend([0x1F, 0xFF, 0xE8, 0x00, 0x07, 0xF0, 0, 0]);
    let mut it = iter_frames(&bytes);
    assert!(matches!(it.next(), Some(Err(Error::UnsupportedFourteenBit))));
    assert_eq!(it.cursor(), 5);
    assert!(it.next().is_none());
}

fn linear_params(n_subs: usize, n_vqsub: usize) -> ChannelSideInfoParams {
    ChannelSideInfoParams {
        n_subs,
        n_vqsub,
        abits_codebook: AbitsCodebook::Linear5Bit,
        tmode_codebook: TmodeCodebook::D4,
        scales_codebook: ScalesCodebook::Linear6Bit,
    }
}

#[test]
fn vq_blocker_reports_first_blocked_subband() {
    let stream = pack_fields(&[
        (0, 2),
        (0, 3),
        (0b00, 2),
        (0b01, 2),
        (0x123, 12),
        (0, 5),
        (0, 5),
        (0, 5),
        (0, 5),
        (0, 16),
    ]);
    let params = [linear_params(2, 2), linear_params(2, 2)];
    let (info, _) = decode_primary_side_info_at(&stream, 0, &params).unwrap();
    assert_eq!(
        vq_blocker(&info.channels, &[2, 2], &[2, 2]),
        Some(AudioArrayError::VqCodebookUnavailable { ch: 1, n: 1, high_frequency_vq: false })
    );
    assert_eq!(
        vq_blocker(&info.channels, &[1, 2], &[2, 2]),
        Some(AudioArrayError::VqCodebookUnavailable { ch: 0, n: 1, high_frequency_vq: true })
    );
    assert_eq!(vq_blocker(&info.channels[..1], &[2], &[2]), None);
}

fn coding_header(subs_m2: u32, bhuff: u32) -> Vec<(u32, u8)> {
    let mut f = vec![(0, 4), (0, 3), (subs_m2, 5), (31, 5), (0, 3), (0, 2), (6, 3), (bhuff, 3)];
    for _ in 0..130 {
        f.push((0, 1));
    }
    f
}

#[test]
fn payload_overflow_detected_only_when_abits_are_read() {
    let mut f = coding_header(31, 7);
    f.extend([(0, 2), (0, 3)]);
    for _ in 0..33 {
        f.push((0, 1));
    }
    for _ in 0..33 {
        f.push((0, 5));
    }
    f.push((0, 16));
    let data = pack_fields(&f);
    assert!(payload_overflows_at(&data, 0, 1, false));
    let mut g = coding_header(31, 3);
    g.extend([(0, 2), (0, 3)]);
    for _ in 0..33 {
        g.push((0, 1));
    }
    g.push((0, 16));
    let data = pack_fields(&g);
    assert!(!payload_overflows_at(&data, 0, 1, false));
    let mut h = coding_header(0, 7);
    h.push((0, 16));
    assert!(!payload_overflows_at(&pack_fields(&h), 0, 1, false));
}
