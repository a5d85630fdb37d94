use vstd::prelude::*;
use crate::format::Format;

verus! {

/// What became of a frame between capture and reassembly.
#[derive(Clone, Copy, Debug, PartialEq, Eq, Structural)]
pub enum FrameStatus {
    /// The frame was captured and carries its image.
    Captured,
    /// The frame was dropped at capture time to stay within the memory budget.
    Dropped,
    /// The frame was absent from the compressed shards when they were merged.
    Missing,
}

impl FrameStatus {
    pub open spec fn spec_code(self) -> u32 {
        match self {
            FrameStatus::Captured => 0,
            FrameStatus::Dropped => 1,
            FrameStatus::Missing => 2,
        }
    }

    /// The status as a lower-case word.
    pub fn to_text(&self) -> (r: &'static str)
        ensures
            *self == FrameStatus::Captured ==> r@ == "captured"@,
            *self == FrameStatus::Dropped ==> r@ == "dropped"@,
            *self == FrameStatus::Missing ==> r@ == "missing"@,
    {
        match self {
            FrameStatus::Captured => {
                proof { reveal_strlit("captured"); }
                "captured"
            },
            FrameStatus::Dropped => {
                proof { reveal_strlit("dropped"); }
                "dropped"
            },
            FrameStatus::Missing => {
                proof { reveal_strlit("missing"); }
                "missing"
            },
        }
    }

    /// The numeric code written into serialized metadata.
    pub fn code(&self) -> (r: u32)
        ensures
            r == self.spec_code(),
    {
        match self {
            FrameStatus::Captured => 0,
            FrameStatus::Dropped => 1,
            FrameStatus::Missing => 2,
        }
    }

    pub fn from_code(code: u32) -> (r: Option<FrameStatus>)
        ensures
            r matches Some(s) ==> s.spec_code() == code,
            r is None <==> code > 2,
    {
        match code {
            0 => Some(FrameStatus::Captured),
            1 => Some(FrameStatus::Dropped),
            2 => Some(FrameStatus::Missing),
            _ => None,
        }
    }
}

impl Default for FrameStatus {
    fn default() -> (r: FrameStatus)
        ensures
            r == FrameStatus::Missing,
    {
        FrameStatus::Missing
    }
}

/// The image of a captured frame: still in a GPU buffer that the host owns
/// (named by the host's handle), or copied out into owned bytes.
#[derive(Debug)]
pub enum ImageData {
    Buffer(u64),
    Bytes(Vec<u8>),
}

impl ImageData {
    /// The host's handle of the GPU buffer, while the image is still there.
    pub fn buffer(&self) -> (r: Option<u64>)
        ensures
            match *self {
                ImageData::Buffer(h) => r == Some(h),
                ImageData::Bytes(_) => r is None,
            },
    {
        match self {
            ImageData::Buffer(h) => Some(*h),
            ImageData::Bytes(_) => None,
        }
    }

    /// The owned bytes, once the image has been copied out of the GPU buffer.
    pub fn bytes(&self) -> (r: Option<&Vec<u8>>)
        ensures
            match *self {
                ImageData::Buffer(_) => r is None,
                ImageData::Bytes(v) => r == Some(&v),
            },
    {
        match self {
            ImageData::Buffer(_) => None,
            ImageData::Bytes(v) => Some(v),
        }
    }
}

/// The placeholder that reassembly emits for frame `n` where no shard held it.
pub open spec fn missing_frame(n: usize) -> VideoFrame {
    VideoFrame {
        status: FrameStatus::Missing,
        image_data: None,
        width: 0,
        height: 0,
        format: Format::RgbaU8,
        unpadded_bytes_per_row: 0,
        padded_bytes_per_row: 0,
        frame_number: n,
        frame_size_in_bytes: 0,
    }
}

/// One frame of a recording, from capture to the encoder.
#[derive(Debug)]
pub struct VideoFrame {
    pub status: FrameStatus,
    pub image_data: Option<ImageData>,
    pub width: usize,
    pub height: usize,
    pub format: Format,
    pub unpadded_bytes_per_row: usize,
    pub padded_bytes_per_row: usize,
    /// 1-based position of the frame in its recording session.
    pub frame_number: usize,
    /// Bytes that the frame's image takes, also set when the frame was dropped.
    pub frame_size_in_bytes: usize,
}

impl VideoFrame {
    /// A frame carries an image exactly when it was captured.
    pub open spec fn wf(&self) -> bool {
        &&& (self.status == FrameStatus::Captured) <==> self.image_data is Some
        &&& self.frame_number >= 1
    }

    /// The image bytes of the frame, where they have been copied out.
    pub open spec fn payload(&self) -> Option<Seq<u8>> {
        match self.image_data {
            Some(ImageData::Bytes(v)) => Some(v@),
            _ => None,
        }
    }

    /// A placeholder for a frame that no shard held.
    pub fn missing(frame_number: usize) -> (r: VideoFrame)
        ensures
            r == missing_frame(frame_number),
    {
        VideoFrame {
            status: FrameStatus::Missing,
            image_data: None,
            width: 0,
            height: 0,
            format: Format::RgbaU8,
            unpadded_bytes_per_row: 0,
            padded_bytes_per_row: 0,
            frame_number,
            frame_size_in_bytes: 0,
        }
    }
}

} // verus!
