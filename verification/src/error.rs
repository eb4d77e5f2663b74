use crate::text::{decimal, push_decimal};
use vstd::prelude::*;

verus! {

/// Crate-wide error type.
#[derive(Debug, Clone, Copy, PartialEq, Eq)]
#[non_exhaustive]
pub enum Error {
    /// The input ended before the field being read.
    UnexpectedEof,
    /// None of the four DTS sync sequences matched at the start of the input.
    NoSync,
    /// A 14-bit-packed sync was found where a raw 16-bit one was expected.
    UnsupportedFourteenBit,
    /// NBLKS is outside `5..=127`.
    BlockCountOutOfRange {
        /// The offending block count.
        blocks: u8,
    },
    /// The frame size is outside `95..=16384`.
    FrameSizeOutOfRange {
        /// The offending frame size in bytes.
        frame_size: u16,
    },
    /// An encoder input does not fit its field's bit width.
    FieldOutOfRange {
        /// Name of the header field.
        field: &'static str,
        /// Value supplied by the caller.
        value: u32,
        /// Largest value the field can hold.
        max: u32,
    },
    /// A side-information field carried a reserved or out-of-range value.
    InvalidSideInfo {
        /// Name of the field.
        field: &'static str,
        /// The offending value.
        value: u32,
    },
    /// No codeword of the named Huffman table matched the input bits.
    HuffmanDecodeFailed {
        /// Name of the code book.
        table: &'static str,
    },
    /// An `ABITS` index has no quantizer word width.
    InvalidStepSize {
        /// The offending bit-allocation index.
        abits: u8,
    },
    /// The audio coding header declares a channel count other than the
    /// frame header's.
    ChannelCountMismatch {
        /// Primary channel count of the frame header.
        expected: u8,
        /// Channel count of the audio coding header.
        declared: u8,
    },
    /// A `DSYNC` trailer differed from `0xffff`.
    DsyncMismatch {
        /// The 16-bit word read.
        found: u16,
        /// Subsubframe after which it was read.
        n_subsubframe: u8,
    },
}

/// The human-readable message of an error.
pub open spec fn error_text(e: Error) -> Seq<char> {
    match e {
        Error::UnexpectedEof => "oxideav-dts: unexpected end of input"@,
        Error::NoSync => "oxideav-dts: no DTS sync word found at offset 0"@,
        Error::UnsupportedFourteenBit => "oxideav-dts: 14-bit DTS sync detected at the 16-bit-input entry point; call parse_frame_header_14bit (or unpack_14bit_to_16bit + parse_frame_header) instead"@,
        Error::BlockCountOutOfRange { blocks } => "oxideav-dts: NBLKS="@ + decimal(blocks as nat)
            + " is out of the documented 5..=128 range (at least 5)"@,
        Error::FrameSizeOutOfRange { frame_size } => "oxideav-dts: frame size "@ + decimal(
            frame_size as nat,
        ) + " B is out of the documented 95..=16384 range (at least 95)"@,
        Error::FieldOutOfRange { field, value, max } => "oxideav-dts: field `"@ + field@
            + "` value "@ + decimal(value as nat) + " exceeds the bit-table maximum "@ + decimal(
            max as nat,
        ),
        Error::InvalidSideInfo { field, value } => "oxideav-dts: side-information field "@
            + field@ + " carries invalid value "@ + decimal(value as nat),
        Error::HuffmanDecodeFailed { table } => "oxideav-dts: no codeword of Huffman table "@
            + table@ + " matched"@,
        Error::InvalidStepSize { abits } => "oxideav-dts: ABITS="@ + decimal(abits as nat)
            + " has no quantizer word width"@,
        Error::ChannelCountMismatch { expected, declared } => "oxideav-dts: AMODE channel count "@
            + decimal(expected as nat) + " != audio header "@ + decimal(declared as nat),
        Error::DsyncMismatch { found, n_subsubframe } => "oxideav-dts: DSYNC word "@ + decimal(
            found as nat,
        ) + " after subsubframe "@ + decimal(n_subsubframe as nat) + " is not 65535"@,
    }
}

impl Error {
    /// The human-readable message of this error.
    pub fn message(&self) -> (s: String)
        ensures
            s@ == error_text(*self),
    {
        match self {
            Error::UnexpectedEof => String::from_str("oxideav-dts: unexpected end of input"),
            Error::NoSync => String::from_str("oxideav-dts: no DTS sync word found at offset 0"),
            Error::UnsupportedFourteenBit => String::from_str(
                "oxideav-dts: 14-bit DTS sync detected at the 16-bit-input entry point; call parse_frame_header_14bit (or unpack_14bit_to_16bit + parse_frame_header) instead",
            ),
            Error::BlockCountOutOfRange { blocks } => {
                let mut s = String::from_str("oxideav-dts: NBLKS=");
                push_decimal(&mut s, *blocks as u64);
                s.append(" is out of the documented 5..=128 range (at least 5)");
                s
            },
            Error::FrameSizeOutOfRange { frame_size } => {
                let mut s = String::from_str("oxideav-dts: frame size ");
                push_decimal(&mut s, *frame_size as u64);
                s.append(" B is out of the documented 95..=16384 range (at least 95)");
                s
            },
            Error::FieldOutOfRange { field, value, max } => {
                let mut s = String::from_str("oxideav-dts: field `");
                s.append(field);
                s.append("` value ");
                push_decimal(&mut s, *value as u64);
                s.append(" exceeds the bit-table maximum ");
                push_decimal(&mut s, *max as u64);
                s
            },
            Error::InvalidSideInfo { field, value } => {
                let mut s = String::from_str("oxideav-dts: side-information field ");
                s.append(field);
                s.append(" carries invalid value ");
                push_decimal(&mut s, *value as u64);
                s
            },
            Error::HuffmanDecodeFailed { table } => {
                let mut s = String::from_str("oxideav-dts: no codeword of Huffman table ");
                s.append(table);
                s.append(" matched");
                s
            },
            Error::InvalidStepSize { abits } => {
                let mut s = String::from_str("oxideav-dts: ABITS=");
                push_decimal(&mut s, *abits as u64);
                s.append(" has no quantizer word width");
                s
            },
            Error::ChannelCountMismatch { expected, declared } => {
                let mut s = String::from_str("oxideav-dts: AMODE channel count ");
                push_decimal(&mut s, *expected as u64);
                s.append(" != audio header ");
                push_decimal(&mut s, *declared as u64);
                s
            },
            Error::DsyncMismatch { found, n_subsubframe } => {
                let mut s = String::from_str("oxideav-dts: DSYNC word ");
                push_decimal(&mut s, *found as u64);
                s.append(" after subsubframe ");
                push_decimal(&mut s, *n_subsubframe as u64);
                s.append(" is not 65535");
                s
            },
        }
    }
}

} // verus!
