//! Routing a packet to the header parser its sync word calls for, the
//! three-level confidence of a stream probe, the class of framework
//! error each library error maps to, and the packet-level state of the
//! decoder handle.

use crate::error::Error;
use crate::header::{
    detect_sync, parse_frame_header, parse_frame_header_14bit, spec_detect_sync,
    spec_parse_frame_header, spec_parse_frame_header_14bit, DtsFrameHeader, SyncWordEncoding,
};
use vstd::prelude::*;

verus! {

/// Parsing whatever header the leading sync word announces: the raw
/// 16-bit syncs go to the 16-bit parser, the 14-bit syncs to the 14-bit
/// parser.
pub open spec fn spec_parse_any(b: Seq<u8>) -> Result<DtsFrameHeader, Error> {
    match spec_detect_sync(b) {
        Err(e) => Err(e),
        Ok(SyncWordEncoding::RawBigEndian) | Ok(SyncWordEncoding::RawLittleEndian) => spec_parse_frame_header(b),
        Ok(_) => spec_parse_frame_header_14bit(b),
    }
}

/// Parse the frame header at the start of `bytes`, routed by its sync
/// word to the 16-bit or the 14-bit parser.
pub fn parse_any_frame_header(bytes: &[u8]) -> (res: Result<DtsFrameHeader, Error>)
    requires
        bytes@.len() <= usize::MAX / 8,
    ensures
        res == spec_parse_any(bytes@),
{
    let sync = detect_sync(bytes)?;
    match sync {
        SyncWordEncoding::RawBigEndian | SyncWordEncoding::RawLittleEndian => parse_frame_header(
            bytes,
        ),
        SyncWordEncoding::FourteenBitBigEndian | SyncWordEncoding::FourteenBitLittleEndian => {
            parse_frame_header_14bit(bytes)
        },
    }
}

/// How sure a probe is that a buffer starts a DTS Core frame.
#[derive(Debug, Clone, Copy, PartialEq, Eq)]
pub enum ProbeClass {
    /// A sync word is present and the whole frame header parses.
    Parsed,
    /// A sync word may be present but the buffer ends before the header
    /// does.
    Truncated,
    /// No sync word, or a header that violates the format.
    Rejected,
}

/// The probe class of a buffer.
pub open spec fn spec_probe_class(b: Seq<u8>) -> ProbeClass {
    match spec_parse_any(b) {
        Ok(_) => ProbeClass::Parsed,
        Err(Error::UnexpectedEof) => ProbeClass::Truncated,
        Err(_) => ProbeClass::Rejected,
    }
}

/// Classify `bytes` for a stream probe: `Parsed` when a header parses,
/// `Truncated` when the buffer ends too early, `Rejected` otherwise.
pub fn probe_dts_class(bytes: &[u8]) -> (c: ProbeClass)
    requires
        bytes@.len() <= usize::MAX / 8,
    ensures
        c == spec_probe_class(bytes@),
{
    match parse_any_frame_header(bytes) {
        Ok(_) => ProbeClass::Parsed,
        Err(Error::UnexpectedEof) => ProbeClass::Truncated,
        Err(_) => ProbeClass::Rejected,
    }
}

/// What a caller of the decoder should do about an error.
#[derive(Debug, Clone, Copy, PartialEq, Eq)]
pub enum ErrorClass {
    /// The input ended early: feed more bytes.
    NeedMore,
    /// The input violates the format: skip it.
    InvalidData,
    /// Valid input this library does not handle.
    Unsupported,
}

/// The class of an error: a short input needs more data, a 14-bit sync
/// at the 16-bit entry point is unsupported, everything else is invalid
/// data.
pub open spec fn spec_error_class(e: Error) -> ErrorClass {
    match e {
        Error::UnexpectedEof => ErrorClass::NeedMore,
        Error::UnsupportedFourteenBit => ErrorClass::Unsupported,
        _ => ErrorClass::InvalidData,
    }
}

/// The class of an error (see [`spec_error_class`]).
pub fn error_class(e: Error) -> (c: ErrorClass)
    ensures
        c == spec_error_class(e),
{
    match e {
        Error::UnexpectedEof => ErrorClass::NeedMore,
        Error::UnsupportedFourteenBit => ErrorClass::Unsupported,
        _ => ErrorClass::InvalidData,
    }
}

/// What asking the decoder for a frame yields.
#[derive(Debug, Clone, Copy, PartialEq, Eq)]
pub enum ReceiveOutcome {
    /// No header has been seen yet: send another packet.
    NeedMore,
    /// No header has been seen and the stream was flushed.
    EndOfStream,
    /// A header was parsed, but PCM output is not produced.
    Unsupported,
}

/// The outcome of asking for a frame with `header` as the last parsed
/// header and `flushed` marking the end of the stream.
pub open spec fn spec_receive(header: Option<DtsFrameHeader>, flushed: bool) -> ReceiveOutcome {
    if header is Some {
        ReceiveOutcome::Unsupported
    } else if flushed {
        ReceiveOutcome::EndOfStream
    } else {
        ReceiveOutcome::NeedMore
    }
}

/// The packet-level state of the decoder: the last parsed header and
/// whether the stream was flushed.
#[derive(Debug, Clone)]
pub struct DecoderState {
    last_header: Option<DtsFrameHeader>,
    eof: bool,
}

impl DecoderState {
    /// The last parsed header.
    pub closed spec fn header(&self) -> Option<DtsFrameHeader> {
        self.last_header
    }

    /// Whether the stream was flushed.
    pub closed spec fn flushed(&self) -> bool {
        self.eof
    }

    /// A fresh state: no header, not flushed.
    pub fn new() -> (s: Self)
        ensures
            s.header() is None,
            !s.flushed(),
    {
        DecoderState { last_header: None, eof: false }
    }

    /// Parse the header of a packet; on success it becomes the last
    /// header, on failure the state is unchanged.
    pub fn send_packet(&mut self, bytes: &[u8]) -> (res: Result<(), Error>)
        requires
            bytes@.len() <= usize::MAX / 8,
        ensures
            match spec_parse_any(bytes@) {
                Ok(h) => res is Ok && final(self).header() == Some(h) && final(self).flushed()
                    == old(self).flushed(),
                Err(e) => res == Err::<(), Error>(e) && *final(self) == *old(self),
            },
    {
        let h = parse_any_frame_header(bytes)?;
        self.last_header = Some(h);
        Ok(())
    }

    /// The outcome of asking for a frame.
    pub fn receive(&self) -> (r: ReceiveOutcome)
        ensures
            r == spec_receive(self.header(), self.flushed()),
    {
        if self.last_header.is_some() {
            ReceiveOutcome::Unsupported
        } else if self.eof {
            ReceiveOutcome::EndOfStream
        } else {
            ReceiveOutcome::NeedMore
        }
    }

    /// Mark the end of the stream.
    pub fn flush(&mut self)
        ensures
            final(self).flushed(),
            final(self).header() == old(self).header(),
    {
        self.eof = true;
    }

    /// Forget the last header and the end-of-stream mark.
    pub fn reset(&mut self)
        ensures
            final(self).header() is None,
            !final(self).flushed(),
    {
        self.last_header = None;
        self.eof = false;
    }

    /// Whether the stream was flushed.
    pub fn is_eof(&self) -> (b: bool)
        ensures
            b == self.flushed(),
    {
        self.eof
    }

    /// The last parsed header, if any.
    pub fn last_header(&self) -> (h: Option<&DtsFrameHeader>)
        ensures
            match h {
                Some(x) => self.header() == Some(*x),
                None => self.header() is None,
            },
    {
        self.last_header.as_ref()
    }
}

/// After a reset, asking for a frame asks for another packet, whatever
/// the state before the reset was; after a flush with no header parsed,
/// it reports the end of the stream; once a header is parsed it reports
/// that no PCM is produced, flushed or not.
pub proof fn lemma_receive_after_transitions(before: DecoderState, h: DtsFrameHeader, flushed: bool)
    ensures
        spec_receive(None, false) == ReceiveOutcome::NeedMore,
        spec_receive(None, true) == ReceiveOutcome::EndOfStream,
        spec_receive(Some(h), flushed) == ReceiveOutcome::Unsupported,
        spec_receive(before.header(), true) != ReceiveOutcome::NeedMore,
{
}

} // verus!
