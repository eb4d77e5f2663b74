//! DTS Coherent Acoustics Core bitstream library:
//! frame-sync header parsing and encoding, 14-bit container unpacking,
//! multi-frame walking, and the Primary Audio Coding side-information
//! and audio-data field decoders, with their contracts proved by Verus.

pub mod audio_array;
pub mod audio_huff;
pub mod bits;
pub mod coding_header;
pub mod cos_mod;
pub mod d10_vq;
pub mod error;
pub mod filter_bank;
pub mod header;
pub mod huffman;
pub mod iter;
pub mod payload;
pub mod probe;
pub mod qmf_assemble;
pub mod side_info;
pub mod subframe;
pub mod subframe_pcm;
pub mod syncwords;
pub mod tables;
pub mod text;
pub mod unpack14;
pub mod vq;

pub use crate::audio_array::{
    block_code_word_bits, decode_lfe_phase_at, nfe_word_bits, sign_extend, AudioArrayDecodeError,
    AudioArrayError, LfeChannelError,
    vq_blocker,
};
pub use crate::audio_huff::{
    decode_audio_huff, decode_audio_huff_at, AudioHuffCodebook, MAX_AUDIO_HUFF_CODE_LEN,
};
pub use crate::bits::BitReader;
pub use crate::coding_header::{parse_audio_coding_header, AudioCodingHeader};
pub use crate::cos_mod::{
    COS_MOD_BLOCK1_START, COS_MOD_BLOCK2_START, COS_MOD_BLOCK3_START, COS_MOD_BLOCK4_START,
    COS_MOD_LEN,
};
pub use crate::d10_vq::{
    scan_hf_vq_indices_at, split_hfreq_vq_entry, ADPCM_VQ_BOOK_SIZE, ADPCM_VQ_INDEX_BITS,
    ADPCM_VQ_VECTOR_LEN, HFREQ_VQ_BOOK_SIZE, HFREQ_VQ_ENTRIES_PER_VECTOR, HFREQ_VQ_INDEX_BITS,
    HFREQ_VQ_VECTOR_LEN,
};
pub use crate::error::Error;
pub use crate::filter_bank::FilterBankSelection;
pub use crate::header::{
    detect_sync, encode_frame_header_be, parse_frame_header, parse_frame_header_14bit,
    DtsFrameHeader, FrameType, LfeMode, SyncWordEncoding,
};
pub use crate::huffman::{bhuff_codebook, bitalloc_codebook, thuff_codebook, Vlc, VlcEntry};
pub use crate::iter::{
    find_all_syncs, find_next_sync, iter_frames, iter_frames_resync, FrameIterator,
    FrameIteratorResync, FrameView, ResyncCause, ResyncEvent, SyncMatch,
};
pub use crate::payload::{
    decode_audio_payload, payload_overflows_at, AudioPayload, BandCode, PayloadSubframe, BLOCKS_PER_FRAME,
    SAMPLES_PER_BLOCK, SUBBANDS,
};
pub use crate::probe::{
    error_class, parse_any_frame_header, probe_dts_class, DecoderState, ErrorClass, ProbeClass,
    ReceiveOutcome,
};
pub use crate::qmf_assemble::{assemble_xin, shift_x_history, QmfAssembleError, X_HISTORY_LEN};
pub use crate::side_info::{
    decode_abits, decode_abits_at, decode_huffman_table, decode_scales, decode_scales_at,
    decode_tmode, AbitsCodebook, ScalesCodebook, SubsubframeCount, TmodeCodebook, RMS_6BIT,
    RMS_7BIT,
};
pub use crate::subframe::{
    decode_primary_side_info_at, ChannelSideInfo, ChannelSideInfoParams, PrimarySideInfo,
    MAX_PRIMARY_CHANNELS, NUM_SUBBAND,
};
pub use crate::subframe_pcm::{subframe_precheck, CoreFrameDecodeError, SubframePcmError};
pub use crate::unpack14::{unpack_14bit_to_16bit, FourteenBitByteOrder};

