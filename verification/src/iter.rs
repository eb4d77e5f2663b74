//! Multi-frame walking over a DTS Core byte stream: sync scanning, a
//! fail-fast frame iterator and an error-tolerant resynchronising one.

use crate::error::Error;
use crate::header::{
    detect_sync, parse_frame_header, spec_detect_sync, spec_parse_frame_header, DtsFrameHeader,
    SyncWordEncoding,
};
use vstd::prelude::*;

verus! {

/// A sync sequence found by [`find_next_sync`].
#[derive(Debug, Clone, Copy, PartialEq, Eq)]
pub struct SyncMatch {
    /// Byte offset of the first sync byte.
    pub offset: usize,
    /// Which sync encoding matched there.
    pub encoding: SyncWordEncoding,
}

/// Whether a sync sequence starts at byte `i` of `b` (at least four bytes
/// must remain there).
pub open spec fn sync_at(b: Seq<u8>, i: int) -> bool {
    0 <= i && i + 4 <= b.len() && spec_detect_sync(b.subrange(i, b.len() as int)) is Ok
}

/// The first sync position at or after `i`.
pub open spec fn scan_sync(b: Seq<u8>, i: nat) -> Option<nat>
    decreases b.len() - i,
{
    if i + 4 > b.len() {
        None
    } else if sync_at(b, i as int) {
        Some(i)
    } else {
        scan_sync(b, i + 1)
    }
}

/// What [`find_next_sync`] returns.
pub open spec fn spec_find_next_sync(b: Seq<u8>, start: nat) -> Option<SyncMatch> {
    match scan_sync(b, start) {
        Some(i) => Some(
            SyncMatch {
                offset: i as usize,
                encoding: spec_detect_sync(b.subrange(i as int, b.len() as int))->Ok_0,
            },
        ),
        None => None,
    }
}

/// `scan_sync` finds the least sync position at or after `s`, and finds
/// nothing only when there is none.
pub proof fn lemma_scan_sync(b: Seq<u8>, s: nat)
    ensures
        scan_sync(b, s) matches Some(i) ==> s <= i && sync_at(b, i as int) && forall|j: int|
            s <= j < i ==> !#[trigger] sync_at(b, j),
        scan_sync(b, s) is None ==> forall|j: int| s <= j ==> !#[trigger] sync_at(b, j),
    decreases b.len() - s,
{
    if s + 4 <= b.len() && !sync_at(b, s as int) {
        lemma_scan_sync(b, s + 1);
    }
}

/// Scan `bytes` from `start` for the next DTS sync sequence (any of the
/// four encodings).
pub fn find_next_sync(bytes: &[u8], start: usize) -> (r: Option<SyncMatch>)
    ensures
        r == spec_find_next_sync(bytes@, start as nat),
{
    let len = bytes.len();
    if start >= len || len < 4 {
        proof {
            reveal_with_fuel(scan_sync, 2);
        }
        return None;
    }
    let mut i = start;
    while i <= len - 4
        invariant
            len == bytes@.len(),
            len >= 4,
            start <= i,
            scan_sync(bytes@, start as nat) == scan_sync(bytes@, i as nat),
        decreases len - i,
    {
        let rest = &bytes[i..len];
        match detect_sync(rest) {
            Ok(enc) => {
                return Some(SyncMatch { offset: i, encoding: enc });
            },
            Err(_) => {},
        }
        i = i + 1;
    }
    None
}

/// Every sync position of the whole buffer, in increasing order.
pub fn find_all_syncs(bytes: &[u8]) -> (out: Vec<SyncMatch>)
    ensures
        forall|k: int|
            0 <= k < out@.len() ==> sync_at(bytes@, #[trigger] out@[k].offset as int)
                && out@[k].encoding == spec_detect_sync(
                bytes@.subrange(out@[k].offset as int, bytes@.len() as int),
            )->Ok_0,
        forall|k: int, l: int| 0 <= k < l < out@.len() ==> out@[k].offset < out@[l].offset,
        forall|i: int|
            sync_at(bytes@, i) ==> exists|k: int| 0 <= k < out@.len() && #[trigger] out@[k].offset
                == i,
{
    let mut out: Vec<SyncMatch> = Vec::new();
    let mut cursor: usize = 0;
    let len = bytes.len();
    loop
        invariant_except_break
            len == bytes@.len(),
            cursor <= bytes@.len(),
            forall|k: int|
                0 <= k < out@.len() ==> sync_at(bytes@, #[trigger] out@[k].offset as int)
                    && out@[k].encoding == spec_detect_sync(
                    bytes@.subrange(out@[k].offset as int, bytes@.len() as int),
                )->Ok_0 && out@[k].offset < cursor,
            forall|k: int, l: int| 0 <= k < l < out@.len() ==> out@[k].offset < out@[l].offset,
            forall|i: int|
                0 <= i < cursor && sync_at(bytes@, i) ==> exists|k: int|
                    0 <= k < out@.len() && #[trigger] out@[k].offset == i,
        ensures
            forall|k: int|
                0 <= k < out@.len() ==> sync_at(bytes@, #[trigger] out@[k].offset as int)
                    && out@[k].encoding == spec_detect_sync(
                    bytes@.subrange(out@[k].offset as int, bytes@.len() as int),
                )->Ok_0,
            forall|k: int, l: int| 0 <= k < l < out@.len() ==> out@[k].offset < out@[l].offset,
            forall|i: int|
                sync_at(bytes@, i) ==> exists|k: int| 0 <= k < out@.len() && #[trigger] out@[k].offset
                    == i,
        decreases bytes@.len() - cursor,
    {
        let found = find_next_sync(bytes, cursor);
        proof {
            lemma_scan_sync(bytes@, cursor as nat);
        }
        match found {
            Some(m) => {
                proof {
                    let i = scan_sync(bytes@, cursor as nat)->Some_0;
                    assert(sync_at(bytes@, i as int));
                    assert(m.offset as int == i);
                }
                let ghost old_out = out@;
                out.push(m);
                proof {
                    assert forall|i: int|
                        0 <= i < m.offset + 1 && sync_at(bytes@, i) implies exists|k: int|
                        0 <= k < out@.len() && #[trigger] out@[k].offset == i by {
                        if i < cursor {
                            let k = choose|k: int|
                                0 <= k < old_out.len() && #[trigger] old_out[k].offset == i;
                            assert(out@[k] == old_out[k]);
                        } else {
                            assert(i == m.offset);
                            assert(out@[old_out.len() as int].offset == i);
                        }
                    }
                }
                cursor = m.offset + 1;
            },
            None => {
                break ;
            },
        }
    }
    out
}

/// One frame found by a frame iterator.
#[derive(Debug, Clone, Copy)]
pub struct FrameView<'a> {
    /// Parsed header.
    pub header: DtsFrameHeader,
    /// Byte offset of the frame's first sync byte in the input.
    pub offset: usize,
    /// Frame length in bytes (the header's `frame_size_bytes`).
    pub len: usize,
    /// The frame's bytes.
    pub data: &'a [u8],
}

/// Header window length in bytes for a header with or without CRC.
pub open spec fn spec_header_byte_length(crc_present: bool) -> int {
    if crc_present {
        15
    } else {
        13
    }
}

impl<'a> FrameView<'a> {
    /// The SUBFRAMES region: the frame bytes after the header window.
    pub fn payload(&self) -> (p: &'a [u8])
        requires
            self.data@.len() >= spec_header_byte_length(self.header.crc_present),
        ensures
            p@ == self.data@.subrange(
                spec_header_byte_length(self.header.crc_present),
                self.data@.len() as int,
            ),
    {
        let start = self.header.header_byte_length();
        &self.data[start..self.data.len()]
    }
}

/// Whether `enc` is one of the two 14-bit encodings.
pub open spec fn is_fourteen_bit(enc: SyncWordEncoding) -> bool {
    enc == SyncWordEncoding::FourteenBitBigEndian || enc == SyncWordEncoding::FourteenBitLittleEndian
}

fn fourteen_bit(enc: SyncWordEncoding) -> (b: bool)
    ensures
        b == is_fourteen_bit(enc),
{
    match enc {
        SyncWordEncoding::FourteenBitBigEndian | SyncWordEncoding::FourteenBitLittleEndian => true,
        _ => false,
    }
}

/// Fail-fast walker over a raw 16-bit DTS Core stream.
#[derive(Debug)]
pub struct FrameIterator<'a> {
    bytes: &'a [u8],
    cursor: usize,
    done: bool,
}

impl<'a> FrameIterator<'a> {
    /// The bytes being walked.
    pub closed spec fn input(&self) -> Seq<u8> {
        self.bytes@
    }

    /// The cursor.
    pub closed spec fn at(&self) -> nat {
        self.cursor as nat
    }

    /// Whether the walk has terminated after an error.
    pub closed spec fn finished(&self) -> bool {
        self.done
    }

    /// A walker positioned at byte 0.
    pub fn new(bytes: &'a [u8]) -> (it: Self)
        ensures
            it.input() == bytes@,
            it.at() == 0,
            !it.finished(),
    {
        FrameIterator { bytes, cursor: 0, done: false }
    }

    /// Current cursor offset.
    pub fn cursor(&self) -> (c: usize)
        ensures
            c == self.at(),
    {
        self.cursor
    }

    /// The next frame: finds the next sync at or after the cursor, parses
    /// its header and yields the frame when it fits in the input. A 14-bit
    /// sync, a header parse failure, or a frame running past the end is
    /// reported once with the cursor left at the sync where it failed,
    /// after which the walk ends.
    pub fn next(&mut self) -> (r: Option<Result<FrameView<'a>, Error>>)
        ensures
            final(self).input() == old(self).input(),
            old(self).finished() ==> r is None && final(self).at() == old(self).at()
                && final(self).finished(),
            !old(self).finished() ==> match spec_find_next_sync(
                old(self).input(),
                old(self).at(),
            ) {
                None => r is None && final(self).at() == old(self).at() && !final(self).finished(),
                Some(m) => if is_fourteen_bit(m.encoding) {
                    r == Some(Err::<FrameView<'a>, Error>(Error::UnsupportedFourteenBit))
                        && final(self).finished() && final(self).at() == m.offset
                } else {
                    match spec_parse_frame_header(
                        old(self).input().subrange(m.offset as int, old(self).input().len() as int),
                    ) {
                        Err(e) => r == Some(Err::<FrameView<'a>, Error>(e)) && final(self).finished()
                            && final(self).at() == m.offset,
                        Ok(h) => if m.offset + h.frame_size_bytes > old(self).input().len() {
                            r == Some(Err::<FrameView<'a>, Error>(Error::UnexpectedEof))
                                && final(self).finished() && final(self).at() == m.offset
                        } else {
                            &&& r matches Some(Ok(v)) && v.header == h && v.offset == m.offset
                                && v.len == h.frame_size_bytes && v.data@ == old(
                                self,
                            ).input().subrange(
                                m.offset as int,
                                m.offset + h.frame_size_bytes,
                            )
                            &&& final(self).at() == m.offset + h.frame_size_bytes
                            &&& !final(self).finished()
                        },
                    }
                },
            },
    {
        if self.done {
            return None;
        }
        let sync_match = match find_next_sync(self.bytes, self.cursor) {
            Some(m) => m,
            None => {
                return None;
            },
        };
        proof {
            lemma_scan_sync(self.bytes@, self.cursor as nat);
        }
        if fourteen_bit(sync_match.encoding) {
            self.cursor = sync_match.offset;
            self.done = true;
            return Some(Err(Error::UnsupportedFourteenBit));
        }
        let off = sync_match.offset;
        let total = self.bytes.len();
        let rest = &self.bytes[off..total];
        let hdr = match parse_frame_header(rest) {
            Ok(h) => h,
            Err(e) => {
                self.done = true;
                self.cursor = off;
                return Some(Err(e));
            },
        };
        let len = hdr.frame_size_bytes as usize;
        if len > total - off {
            self.done = true;
            self.cursor = off;
            return Some(Err(Error::UnexpectedEof));
        }
        let view = FrameView {
            header: hdr,
            offset: off,
            len,
            data: &self.bytes[off..off + len],
        };
        self.cursor = off + len;
        Some(Ok(view))
    }
}

/// Same as [`FrameIterator::new`].
pub fn iter_frames(bytes: &[u8]) -> (it: FrameIterator<'_>)
    ensures
        it.input() == bytes@,
        it.at() == 0,
        !it.finished(),
{
    FrameIterator::new(bytes)
}

/// Why a resynchronising walk discarded a sync candidate.
#[derive(Debug, Clone, Copy, PartialEq, Eq)]
pub enum ResyncCause {
    /// The header after the sync failed a structural bound (or another
    /// parse check); carries the parser's error.
    StructuralBoundFailed(Error),
    /// The input ended inside the header window.
    HeaderEof,
    /// The header parsed but its frame runs past the end of the input.
    FrameLengthOverrunsBuffer {
        /// The header's `frame_size_bytes`.
        declared_len: u16,
    },
    /// A 14-bit sync was found and skipped.
    FourteenBitSyncSkipped,
}

/// A sync candidate that a resynchronising walk discarded.
#[derive(Debug, Clone, Copy, PartialEq, Eq)]
pub struct ResyncEvent {
    /// Byte offset of the discarded candidate.
    pub offset: usize,
    /// Encoding that matched there.
    pub encoding: SyncWordEncoding,
    /// Why it was discarded.
    pub cause: ResyncCause,
}

/// The resync cause a header parse error maps to.
pub open spec fn spec_resync_cause(e: Error) -> ResyncCause {
    match e {
        Error::UnexpectedEof => ResyncCause::HeaderEof,
        _ => ResyncCause::StructuralBoundFailed(e),
    }
}

/// Error-tolerant walker: a sync candidate whose header does not parse or
/// whose frame overruns the input is reported and the scan resumes one
/// byte further.
#[derive(Debug)]
pub struct FrameIteratorResync<'a> {
    bytes: &'a [u8],
    cursor: usize,
}

impl<'a> FrameIteratorResync<'a> {
    /// The bytes being walked.
    pub closed spec fn input(&self) -> Seq<u8> {
        self.bytes@
    }

    /// The cursor.
    pub closed spec fn at(&self) -> nat {
        self.cursor as nat
    }

    /// A walker positioned at byte 0.
    pub fn new(bytes: &'a [u8]) -> (it: Self)
        ensures
            it.input() == bytes@,
            it.at() == 0,
    {
        FrameIteratorResync { bytes, cursor: 0 }
    }

    /// Current cursor offset.
    pub fn cursor(&self) -> (c: usize)
        ensures
            c == self.at(),
    {
        self.cursor
    }

    /// The next frame or discarded candidate; `None` once no sync remains.
    pub fn next(&mut self) -> (r: Option<Result<FrameView<'a>, ResyncEvent>>)
        ensures
            final(self).input() == old(self).input(),
            match spec_find_next_sync(old(self).input(), old(self).at()) {
                None => r is None && final(self).at() == old(self).at(),
                Some(m) => if is_fourteen_bit(m.encoding) {
                    r == Some(
                        Err::<FrameView<'a>, ResyncEvent>(
                            ResyncEvent {
                                offset: m.offset,
                                encoding: m.encoding,
                                cause: ResyncCause::FourteenBitSyncSkipped,
                            },
                        ),
                    ) && final(self).at() == m.offset + 1
                } else {
                    match spec_parse_frame_header(
                        old(self).input().subrange(m.offset as int, old(self).input().len() as int),
                    ) {
                        Err(e) => r == Some(
                            Err::<FrameView<'a>, ResyncEvent>(
                                ResyncEvent {
                                    offset: m.offset,
                                    encoding: m.encoding,
                                    cause: spec_resync_cause(e),
                                },
                            ),
                        ) && final(self).at() == m.offset + 1,
                        Ok(h) => if m.offset + h.frame_size_bytes > old(self).input().len() {
                            r == Some(
                                Err::<FrameView<'a>, ResyncEvent>(
                                    ResyncEvent {
                                        offset: m.offset,
                                        encoding: m.encoding,
                                        cause: ResyncCause::FrameLengthOverrunsBuffer {
                                            declared_len: h.frame_size_bytes,
                                        },
                                    },
                                ),
                            ) && final(self).at() == m.offset + 1
                        } else {
                            &&& r matches Some(Ok(v)) && v.header == h && v.offset == m.offset
                                && v.len == h.frame_size_bytes && v.data@ == old(
                                self,
                            ).input().subrange(
                                m.offset as int,
                                m.offset + h.frame_size_bytes,
                            )
                            &&& final(self).at() == m.offset + h.frame_size_bytes
                        },
                    }
                },
            },
    {
        let sync_match = match find_next_sync(self.bytes, self.cursor) {
            Some(m) => m,
            None => {
                return None;
            },
        };
        let total = self.bytes.len();
        proof {
            lemma_scan_sync(self.bytes@, self.cursor as nat);
            let i = scan_sync(self.bytes@, self.cursor as nat)->Some_0;
            assert(sync_at(self.bytes@, i as int));
            assert(sync_match.offset as int == i);
        }
        let off = sync_match.offset;
        if fourteen_bit(sync_match.encoding) {
            self.cursor = off + 1;
            return Some(
                Err(
                    ResyncEvent {
                        offset: off,
                        encoding: sync_match.encoding,
                        cause: ResyncCause::FourteenBitSyncSkipped,
                    },
                ),
            );
        }
        let rest = &self.bytes[off..total];
        match parse_frame_header(rest) {
            Ok(hdr) => {
                let len = hdr.frame_size_bytes as usize;
                if len > total - off {
                    self.cursor = off + 1;
                    return Some(
                        Err(
                            ResyncEvent {
                                offset: off,
                                encoding: sync_match.encoding,
                                cause: ResyncCause::FrameLengthOverrunsBuffer {
                                    declared_len: hdr.frame_size_bytes,
                                },
                            },
                        ),
                    );
                }
                let view = FrameView {
                    header: hdr,
                    offset: off,
                    len,
                    data: &self.bytes[off..off + len],
                };
                self.cursor = off + len;
                Some(Ok(view))
            },
            Err(e) => {
                let cause = match e {
                    Error::UnexpectedEof => ResyncCause::HeaderEof,
                    _ => ResyncCause::StructuralBoundFailed(e),
                };
                self.cursor = off + 1;
                Some(Err(ResyncEvent { offset: off, encoding: sync_match.encoding, cause }))
            },
        }
    }
}

/// Same as [`FrameIteratorResync::new`].
pub fn iter_frames_resync(bytes: &[u8]) -> (it: FrameIteratorResync<'_>)
    ensures
        it.input() == bytes@,
        it.at() == 0,
{
    FrameIteratorResync::new(bytes)
}

} // verus!
