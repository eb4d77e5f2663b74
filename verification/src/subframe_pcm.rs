//! Errors of the subframe-to-PCM stage and the checks it makes before
//! any decoding: the channel counts of its inputs, a defined output
//! scale, and no joint-intensity channel.

use crate::audio_array::{audio_array_decode_error_text, AudioArrayDecodeError};
use crate::error::{error_text, Error};
use crate::text::{decimal, push_decimal};
use vstd::prelude::*;

verus! {

/// Errors of the subframe-to-PCM stage.
#[derive(Debug, Clone, Copy, PartialEq, Eq)]
#[non_exhaustive]
pub enum SubframePcmError {
    /// The audio-data walk failed: a bit-stream error or a missing code
    /// book.
    AudioData(AudioArrayDecodeError),
    /// A channel carries joint-intensity subband coding (`JOINX > 0`),
    /// which the stage declines.
    JointSubbandUnsupported {
        /// 0-based destination channel.
        ch: usize,
        /// Its one-based `JOINX` source-channel selector.
        joinx: u8,
    },
    /// The frame header's source-PCM-resolution code is reserved, so the
    /// output scale is undefined.
    ReservedPcmResolution {
        /// The raw `PCMR` index.
        pcmr: u8,
    },
    /// An input did not carry the decoder's channel count.
    ChannelCountMismatch {
        /// The decoder's channel count.
        expected: usize,
        /// The mismatching count.
        got: usize,
    },
}

/// Why a Core frame could not be decoded from its bytes.
#[derive(Debug, Clone, Copy, PartialEq, Eq)]
#[non_exhaustive]
pub enum CoreFrameDecodeError {
    /// The frame carries a side-information tail that is not decoded
    /// (joint intensity).
    UnsupportedSideInfoTail {
        /// A dynamic-range field is present.
        dynamic_range: bool,
        /// A side-information CRC word is present.
        side_info_crc: bool,
        /// Some channel carries joint-intensity coding.
        joint_intensity: bool,
    },
    /// A decode step of a subframe failed.
    Decode(SubframePcmError),
    /// A structural bit-stream error in the header or side-information
    /// walk.
    Bitstream(Error),
}

/// `"true"` or `"false"`.
pub open spec fn bool_text(b: bool) -> Seq<char> {
    if b {
        "true"@
    } else {
        "false"@
    }
}

/// The human-readable message of a subframe-to-PCM error.
pub open spec fn subframe_pcm_error_text(e: SubframePcmError) -> Seq<char> {
    match e {
        SubframePcmError::AudioData(e) => "audio-data walk failed: "@ + audio_array_decode_error_text(
            e,
        ),
        SubframePcmError::JointSubbandUnsupported { ch, joinx } => "channel "@ + decimal(ch as nat)
            + " carries JOINX="@ + decimal(joinx as nat)
            + " (joint-intensity subband coding); the JOIN_SCALES side-info decode is not yet wired"@,
        SubframePcmError::ReservedPcmResolution { pcmr } => "frame header PCMR index "@ + decimal(
            pcmr as nat,
        ) + " is reserved; the output rScale is undefined"@,
        SubframePcmError::ChannelCountMismatch { expected, got } =>
            "channel-count mismatch: driver expects "@ + decimal(expected as nat)
            + ", slice carries "@ + decimal(got as nat),
    }
}

/// The human-readable message of a frame decode error.
pub open spec fn core_frame_error_text(e: CoreFrameDecodeError) -> Seq<char> {
    match e {
        CoreFrameDecodeError::UnsupportedSideInfoTail {
            dynamic_range,
            side_info_crc,
            joint_intensity,
        } => "frame carries an undecoded side-info tail (DYNF="@ + bool_text(dynamic_range)
            + ", CPF/SICRC="@ + bool_text(side_info_crc) + ", JOINX>0="@ + bool_text(
            joint_intensity,
        ) + "); only the empty-tail common Core case is decoded to PCM"@,
        CoreFrameDecodeError::Decode(e) => subframe_pcm_error_text(e),
        CoreFrameDecodeError::Bitstream(e) => error_text(e),
    }
}

fn push_bool(s: &mut String, b: bool)
    ensures
        final(s)@ == old(s)@ + bool_text(b),
{
    if b {
        s.append("true");
    } else {
        s.append("false");
    }
}

impl SubframePcmError {
    /// The human-readable message of this error.
    pub fn message(&self) -> (s: String)
        ensures
            s@ == subframe_pcm_error_text(*self),
    {
        match self {
            SubframePcmError::AudioData(e) => {
                let mut s = String::from_str("audio-data walk failed: ");
                let m = e.message();
                s.append(m.as_str());
                s
            },
            SubframePcmError::JointSubbandUnsupported { ch, joinx } => {
                let mut s = String::from_str("channel ");
                push_decimal(&mut s, *ch as u64);
                s.append(" carries JOINX=");
                push_decimal(&mut s, *joinx as u64);
                s.append(
                    " (joint-intensity subband coding); the JOIN_SCALES side-info decode is not yet wired",
                );
                s
            },
            SubframePcmError::ReservedPcmResolution { pcmr } => {
                let mut s = String::from_str("frame header PCMR index ");
                push_decimal(&mut s, *pcmr as u64);
                s.append(" is reserved; the output rScale is undefined");
                s
            },
            SubframePcmError::ChannelCountMismatch { expected, got } => {
                let mut s = String::from_str("channel-count mismatch: driver expects ");
                push_decimal(&mut s, *expected as u64);
                s.append(", slice carries ");
                push_decimal(&mut s, *got as u64);
                s
            },
        }
    }
}

impl CoreFrameDecodeError {
    /// The human-readable message of this error.
    pub fn message(&self) -> (s: String)
        ensures
            s@ == core_frame_error_text(*self),
    {
        match self {
            CoreFrameDecodeError::UnsupportedSideInfoTail {
                dynamic_range,
                side_info_crc,
                joint_intensity,
            } => {
                let mut s = String::from_str("frame carries an undecoded side-info tail (DYNF=");
                push_bool(&mut s, *dynamic_range);
                s.append(", CPF/SICRC=");
                push_bool(&mut s, *side_info_crc);
                s.append(", JOINX>0=");
                push_bool(&mut s, *joint_intensity);
                s.append("); only the empty-tail common Core case is decoded to PCM");
                s
            },
            CoreFrameDecodeError::Decode(e) => e.message(),
            CoreFrameDecodeError::Bitstream(e) => e.message(),
        }
    }
}

/// The first channel from `k` below `n` whose `JOINX` is set, with that
/// `JOINX`.
pub open spec fn first_joint_from(joinx: Seq<u8>, n: nat, k: nat) -> Option<(nat, u8)>
    decreases n - k,
{
    if k >= n || k >= joinx.len() {
        None
    } else if joinx[k as int] > 0 {
        Some((k, joinx[k as int]))
    } else {
        first_joint_from(joinx, n, k + 1)
    }
}

/// What the checks before a subframe decode give, in order: the side
/// information and then the coding header must carry `channels`
/// channels, the output scale must be defined, and no channel among the
/// first `channels` may carry joint intensity.
pub open spec fn spec_subframe_precheck(
    channels: usize,
    side_len: usize,
    coding_channels: usize,
    joinx: Seq<u8>,
    pcmr: u8,
    output_scale_defined: bool,
) -> Result<(), SubframePcmError> {
    if side_len != channels {
        Err(SubframePcmError::ChannelCountMismatch { expected: channels, got: side_len })
    } else if coding_channels != channels {
        Err(SubframePcmError::ChannelCountMismatch { expected: channels, got: coding_channels })
    } else if !output_scale_defined {
        Err(SubframePcmError::ReservedPcmResolution { pcmr })
    } else {
        match first_joint_from(joinx, channels as nat, 0) {
            Some((ch, j)) => Err(SubframePcmError::JointSubbandUnsupported { ch: ch as usize, joinx: j }),
            None => Ok(()),
        }
    }
}

/// The checks a subframe decode makes before any decoding, for a decoder
/// of `channels` channels given `side_len` side-information entries, a
/// coding header of `coding_channels` channels with the `JOINX`
/// selectors `joinx`, and the frame's `pcmr` code. Whether `PCMR` gives
/// an output scale is decided with the synthesis stage, which passes it
/// in as `output_scale_defined`; `pcmr` is only reported.
pub fn subframe_precheck(
    channels: usize,
    side_len: usize,
    coding_channels: usize,
    joinx: &[u8],
    pcmr: u8,
    output_scale_defined: bool,
) -> (r: Result<(), SubframePcmError>)
    ensures
        r == spec_subframe_precheck(
            channels,
            side_len,
            coding_channels,
            joinx@,
            pcmr,
            output_scale_defined,
        ),
{
    if side_len != channels {
        return Err(SubframePcmError::ChannelCountMismatch { expected: channels, got: side_len });
    }
    if coding_channels != channels {
        return Err(SubframePcmError::ChannelCountMismatch { expected: channels, got: coding_channels });
    }
    if !output_scale_defined {
        return Err(SubframePcmError::ReservedPcmResolution { pcmr });
    }
    let mut ch: usize = 0;
    while ch < channels && ch < joinx.len()
        invariant
            ch <= channels,
            side_len == channels,
            coding_channels == channels,
            output_scale_defined,
            first_joint_from(joinx@, channels as nat, 0) == first_joint_from(
                joinx@,
                channels as nat,
                ch as nat,
            ),
        decreases channels - ch,
    {
        if joinx[ch] > 0 {
            return Err(SubframePcmError::JointSubbandUnsupported { ch, joinx: joinx[ch] });
        }
        ch = ch + 1;
    }
    Ok(())
}

} // verus!
