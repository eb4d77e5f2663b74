use oxideav_dts::{decode_lfe_phase_at, AudioArrayDecodeError, AudioArrayError, LfeChannelError};

fn pack_fields(fields: &[(u32, u8)]) -> Vec<u8> {
    let total_bits: usize = fields.iter().map(|(_, w)| *w as usize).sum();
    let mut out = vec![0u8; total_bits.div_ceil(8)];
    let mut bit_pos = 0usize;
    for &(value, width) in fields {
        for i in (0..width).rev() {
            let bit = ((value >> i) & 1) as u8;
            out[bit_pos / 8] |= bit << (7 - (bit_pos % 8));
            bit_pos += 1;
        }
    }
    out
}

#[test]
fn lfe_phase_consumes_samples_plus_scale_index() {
    let lff = 1u8;
    let n_ssc = 2usize;
    let n_lfe = 2 * (lff as usize) * n_ssc;
    let mut fields: Vec<(u32, u8)> = vec![(0, 8); n_lfe];
    fields.push((10, 8));
    let stream = pack_fields(&fields);
    let (samples, scale, bits) = decode_lfe_phase_at(&stream, 0, lff, n_ssc).unwrap();
    assert_eq!(bits, (n_lfe + 1) * 8);
    assert_eq!(samples.len(), n_lfe);
    assert_eq!(scale, 10);
    assert!(samples.iter().all(|&s| s == 0));
}

#[test]
fn lfe_phase_rejects_reserved_scale_index() {
    let lff = 1u8;
    let n_ssc = 1usize;
    let n_lfe = 2 * (lff as usize) * n_ssc;
    let mut fields: Vec<(u32, u8)> = vec![(0, 8); n_lfe];
    fields.push((126, 8));
    let stream = pack_fields(&fields);
    let err = decode_lfe_phase_at(&stream, 0, lff, n_ssc).unwrap_err();
    assert!(matches!(
        err,
        AudioArrayDecodeError::Blocked(AudioArrayError::LfePhase(
            LfeChannelError::ReservedScaleIndex { index: 126 }
        ))
    ));
}

#[test]
fn lfe_phase_reads_signed_samples() {
    let lff = 2u8;
    let n_ssc = 1usize;
    let n_lfe = 2 * (lff as usize) * n_ssc;
    let scale_index = 60u8;
    let mut fields: Vec<(u32, u8)> = vec![(0xFF, 8)];
    fields.extend(vec![(0, 8); n_lfe - 1]);
    fields.push((u32::from(scale_index), 8));
    let stream = pack_fields(&fields);
    let (samples, scale, _) = decode_lfe_phase_at(&stream, 0, lff, n_ssc).unwrap();
    assert_eq!(samples[0], -1);
    assert!(samples[1..].iter().all(|&s| s == 0));
    assert_eq!(scale, scale_index);
}

#[test]
fn lfe_phase_rejects_zero_lff() {
    let stream = pack_fields(&[(10, 8)]);
    let err = decode_lfe_phase_at(&stream, 0, 0, 1).unwrap_err();
    assert!(matches!(
        err,
        AudioArrayDecodeError::Blocked(AudioArrayError::LfePhase(LfeChannelError::ZeroLff))
    ));
    assert!(matches!(
        decode_lfe_phase_at(&[], 0, 0, 1).unwrap_err(),
        AudioArrayDecodeError::Bitstream(_)
    ));
}
