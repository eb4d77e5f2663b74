use oxideav_dts::{
    parse_frame_header, subframe_precheck, AudioArrayDecodeError, CoreFrameDecodeError, Error, SubframePcmError,
};

const HDR_BYTES: [u8; 16] = [
    0x7f, 0xfe, 0x80, 0x01, 0xfc, 0x3c, 0x3f, 0xf0, 0xb5, 0xe0, 0x01, 0x38, 0x00, 0x03, 0xef,
    0x7f,
];

#[test]
fn reserved_pcmr_declines() {
    let mut header = parse_frame_header(&HDR_BYTES).unwrap();
    header.source_pcm_resolution_index = 4; // reserved
    // One channel: one side-information entry, a one-channel coding
    // header with JOINX clear; the reserved code leaves no output scale.
    let err = subframe_precheck(1, 1, 1, &[0], header.source_pcm_resolution_index, false)
        .unwrap_err();
    assert!(matches!(
        err,
        SubframePcmError::ReservedPcmResolution { pcmr: 4 }
    ));
}

#[test]
fn joint_subband_declined() {
    let header = parse_frame_header(&HDR_BYTES).unwrap();
    let err = subframe_precheck(1, 1, 1, &[2], header.source_pcm_resolution_index, true)
        .unwrap_err();
    assert!(matches!(
        err,
        SubframePcmError::JointSubbandUnsupported { ch: 0, joinx: 2 }
    ));
}

#[test]
fn channel_count_mismatch_rejected() {
    let header = parse_frame_header(&HDR_BYTES).unwrap();
    let err = subframe_precheck(1, 2, 1, &[0], header.source_pcm_resolution_index, true)
        .unwrap_err();
    assert!(matches!(
        err,
        SubframePcmError::ChannelCountMismatch {
            expected: 1,
            got: 2
        }
    ));
}

#[test]
fn precheck_passes_plain_frame() {
    assert_eq!(subframe_precheck(2, 2, 2, &[0, 0, 5], 0, true), Ok(()));
}

#[test]
fn precheck_coding_channel_mismatch_after_side_info() {
    assert_eq!(
        subframe_precheck(2, 2, 1, &[0, 0], 0, true),
        Err(SubframePcmError::ChannelCountMismatch {
            expected: 2,
            got: 1
        })
    );
}

#[test]
fn precheck_order_side_info_first() {
    // Every check fails here: the side-information count is reported.
    assert_eq!(
        subframe_precheck(2, 3, 1, &[1, 1], 4, false),
        Err(SubframePcmError::ChannelCountMismatch {
            expected: 2,
            got: 3
        })
    );
    // Counts agree: the reserved code comes before the JOINX decline.
    assert_eq!(
        subframe_precheck(2, 2, 2, &[0, 3], 6, false),
        Err(SubframePcmError::ReservedPcmResolution { pcmr: 6 })
    );
}

#[test]
fn precheck_reports_first_joint_channel() {
    assert_eq!(
        subframe_precheck(3, 3, 3, &[0, 4, 2], 0, true),
        Err(SubframePcmError::JointSubbandUnsupported { ch: 1, joinx: 4 })
    );
}

#[test]
fn subframe_pcm_error_messages() {
    assert_eq!(
        SubframePcmError::ChannelCountMismatch {
            expected: 1,
            got: 2
        }
        .message(),
        "channel-count mismatch: driver expects 1, slice carries 2"
    );
    assert_eq!(
        SubframePcmError::ReservedPcmResolution { pcmr: 4 }.message(),
        "frame header PCMR index 4 is reserved; the output rScale is undefined"
    );
    assert_eq!(
        SubframePcmError::JointSubbandUnsupported { ch: 0, joinx: 2 }.message(),
        "channel 0 carries JOINX=2 (joint-intensity subband coding); \
         the JOIN_SCALES side-info decode is not yet wired"
    );
    let walk = SubframePcmError::AudioData(AudioArrayDecodeError::Bitstream(Error::UnexpectedEof));
    assert_eq!(
        walk.message(),
        "audio-data walk failed: oxideav-dts: unexpected end of input"
    );
}

#[test]
fn core_frame_error_messages() {
    assert_eq!(
        CoreFrameDecodeError::UnsupportedSideInfoTail {
            dynamic_range: true,
            side_info_crc: false,
            joint_intensity: true,
        }
        .message(),
        "frame carries an undecoded side-info tail (DYNF=true, CPF/SICRC=false, JOINX>0=true); \
         only the empty-tail common Core case is decoded to PCM"
    );
    let inner = SubframePcmError::ReservedPcmResolution { pcmr: 5 };
    assert_eq!(
        CoreFrameDecodeError::Decode(inner).message(),
        inner.message()
    );
    assert_eq!(
        CoreFrameDecodeError::Bitstream(Error::UnexpectedEof).message(),
        Error::UnexpectedEof.message()
    );
}
