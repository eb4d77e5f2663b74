use oxideav_dts::{error_class, probe_dts_class, DecoderState, ErrorClass, ProbeClass, ReceiveOutcome};

const REAL_DTS_FRAME_HEADER: [u8; 16] = [
    0x7f, 0xfe, 0x80, 0x01, 0xfc, 0x3c, 0x3f, 0xf0, 0xb5, 0xe0, 0x01, 0x38, 0x00, 0x03, 0xef,
    0x7f,
];

#[test]
fn probe_returns_1_for_valid_be_header() {
    assert_eq!(probe_dts_class(&REAL_DTS_FRAME_HEADER), ProbeClass::Parsed);
}

#[test]
fn probe_returns_0p5_for_truncated_be_header() {
    let truncated = &REAL_DTS_FRAME_HEADER[..5];
    assert_eq!(probe_dts_class(truncated), ProbeClass::Truncated);
}

#[test]
fn probe_returns_0p5_for_buffer_shorter_than_sync() {
    let truncated = &REAL_DTS_FRAME_HEADER[..2];
    assert_eq!(probe_dts_class(truncated), ProbeClass::Truncated);
}

#[test]
fn probe_returns_0_for_invalid_header() {
    let garbage = [0xDE, 0xAD, 0xBE, 0xEF, 0, 0, 0, 0, 0, 0, 0, 0, 0, 0, 0, 0];
    assert_eq!(probe_dts_class(&garbage), ProbeClass::Rejected);
}

#[test]
fn probe_returns_0_for_short_invalid_input() {
    assert_eq!(probe_dts_class(&[]), ProbeClass::Truncated);
}

#[test]
fn send_packet_eagerly_parses_header() {
    let mut handle = DecoderState::new();
    handle.send_packet(&REAL_DTS_FRAME_HEADER).unwrap();
    let hdr = handle.last_header().expect("header must be cached");
    assert_eq!(hdr.frame_size_bytes, 1024);
    assert_eq!(hdr.sfreq_index, 13);
    assert_eq!(hdr.rate_index, 15);
    assert_eq!(hdr.version, 7);
    assert_eq!(hdr.dialog_normalization, 0);
    assert_eq!(hdr.source_pcm_resolution_index, 0);
}

#[test]
fn send_packet_surfaces_no_sync_as_invalid_data() {
    let mut handle = DecoderState::new();
    let err = handle
        .send_packet(&[0xDE, 0xAD, 0xBE, 0xEF, 0, 0, 0, 0, 0, 0, 0, 0, 0, 0, 0, 0])
        .unwrap_err();
    assert_eq!(error_class(err), ErrorClass::InvalidData, "got {err:?}");
}

#[test]
fn send_packet_surfaces_short_buffer_as_need_more() {
    let mut handle = DecoderState::new();
    let err = handle.send_packet(&[0x7F, 0xFE, 0x80]).unwrap_err();
    assert_eq!(error_class(err), ErrorClass::NeedMore, "got {err:?}");
}

#[test]
fn receive_frame_returns_unsupported_after_header_parse() {
    let mut handle = DecoderState::new();
    handle.send_packet(&REAL_DTS_FRAME_HEADER).unwrap();
    assert_eq!(handle.receive(), ReceiveOutcome::Unsupported);
}

#[test]
fn receive_frame_returns_need_more_without_packet() {
    let handle = DecoderState::new();
    assert_eq!(handle.receive(), ReceiveOutcome::NeedMore);
}

#[test]
fn receive_frame_returns_eof_after_flush_without_packet() {
    let mut handle = DecoderState::new();
    handle.flush();
    assert_eq!(handle.receive(), ReceiveOutcome::EndOfStream);
}

#[test]
fn reset_clears_cached_header() {
    let mut handle = DecoderState::new();
    handle.send_packet(&REAL_DTS_FRAME_HEADER).unwrap();
    assert!(handle.last_header().is_some());
    handle.reset();
    assert!(handle.last_header().is_none());
    assert!(!handle.is_eof());
}
