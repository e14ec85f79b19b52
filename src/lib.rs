//! Protocol engine for sending a file to a networked ZX Spectrum running the
//! matching receiver: short-name derivation, the compression policy, frame
//! encoding, the producer of frames and the per-frame acknowledgment handshake.

mod bytes;
mod compress;
mod error;
mod frame;
mod handshake;
mod name;
mod producer;
mod transfer;
mod uploader;

pub use compress::{
    adopts_compression, compress_chunk, lemma_compression_policy, payload_for, select_payload,
    zx0_quick,
};
pub use error::UploadError;
pub use frame::{
    declared_len, encode_frame, encode_legacy, flags_of, legacy_bytes, LEGACY_NAME_LEN, frame_bytes, header_bytes, header_len, lemma_declared_len,
    name_field, opt_view, FLAGS_COMPRESSED, FLAGS_LONG_HEADER, LONG_HEADER_LEN, MAX_PAYLOAD,
    SHORT_HEADER_LEN,
};
pub use handshake::{
    acked_sum, lemma_stale_records_ignored, parse_ack, peer_reported_error, AckOutcome, AckRecord,
    Handshake, ACK_LEN,
};
pub use name::{
    extension_of, filename_to_short, is_forbidden, last_dot, lemma_short_name_shape, safe_char,
    sanitize, short_name, short_name_field, split_at_last_dot, stem_of, take_prefix,
    NAME_FIELD_MAX,
};
pub use producer::{
    chunk_at, chunk_count, frame_at, lemma_chunk_exists, lemma_chunking, lemma_frame_layout, seq_at,
    FrameProducer, CHUNK_SIZE,
};
pub use transfer::{
    build_frames, dummy_transfer, frames_len, progress_at, sum_lens, AckStep, FrameStep, Transfer,
    UploadProgress,
};
pub use uploader::FileUploader;
