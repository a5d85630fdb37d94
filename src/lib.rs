//! Frame capture, compression framing, reassembly and encode-sink decisions for
//! a GPU renderer that records what it draws.

pub mod format;
pub mod video_frame;
pub mod video_recorder;
pub mod recording;
pub mod packet;
pub mod shard;
pub mod merger;
pub mod sink;
pub mod png_encoder;
pub mod decompressor;
pub mod reassembly;

pub use format::{FilterMode, Format, Primitive, RecordingPosition, Visibility};
pub use video_frame::{FrameStatus, ImageData, VideoFrame};
pub use video_recorder::{padded_bytes_per_row, FrameState, InnerV, VideoRecorder};
pub use recording::{pipeline_positions, Recording};
pub use packet::{
    decode_packet, decode_packet_length, encode_packet, frame_from_fields, frame_packet, is_valid_compression_level,
    MetaFields,
};
pub use shard::{
    filename_timestamp, name_less, recover_timestamp_from_filename, scan_directory_for_timestamps, shard_filename,
    video_filename, SessionTime,
};
pub use merger::FrameMerger;
pub use sink::{FfmpegPipe, PipeAction};
pub use png_encoder::{strip_row_padding, PngEncoder};
pub use decompressor::Decompressor;
pub use reassembly::order_frames;
