use oxideav_dts::{AudioArrayDecodeError, AudioArrayError, Error};

#[test]
fn error_messages_render_fields_in_decimal() {
    assert_eq!(
        Error::BlockCountOutOfRange { blocks: 3 }.message(),
        "oxideav-dts: NBLKS=3 is out of the documented 5..=128 range (at least 5)"
    );
    assert_eq!(
        Error::FrameSizeOutOfRange { frame_size: 94 }.message(),
        "oxideav-dts: frame size 94 B is out of the documented 95..=16384 range (at least 95)"
    );
    assert_eq!(
        Error::FieldOutOfRange { field: "NBLKS", value: 200, max: 127 }.message(),
        "oxideav-dts: field `NBLKS` value 200 exceeds the bit-table maximum 127"
    );
    assert_eq!(
        Error::ChannelCountMismatch { expected: 2, declared: 1 }.message(),
        "oxideav-dts: AMODE channel count 2 != audio header 1"
    );
    assert_eq!(Error::UnexpectedEof.message(), "oxideav-dts: unexpected end of input");
}

#[test]
fn audio_array_error_messages() {
    let hf = AudioArrayError::VqCodebookUnavailable { ch: 1, n: 20, high_frequency_vq: true };
    assert_eq!(
        hf.message(),
        "oxideav-dts: channel 1 subband 20 needs the high-frequency VQ code book, which is not available"
    );
    let adpcm = AudioArrayError::VqCodebookUnavailable { ch: 0, n: 3, high_frequency_vq: false };
    assert_eq!(
        AudioArrayDecodeError::Blocked(adpcm).message(),
        "oxideav-dts: channel 0 subband 3 needs the ADPCM-coefficient VQ code book, which is not available"
    );
    assert_eq!(
        AudioArrayDecodeError::Bitstream(Error::NoSync).message(),
        Error::NoSync.message()
    );
}
