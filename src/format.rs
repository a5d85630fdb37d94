use vstd::prelude::*;

verus! {

/// Pixel format of a texture or a captured frame.
#[derive(Clone, Copy, Debug, PartialEq, Eq, Structural)]
pub enum Format {
    RU8,
    BgraU8,
    RgbaU8,
    RgbaF16,
    RgbaF32,
}

impl Format {
    pub open spec fn spec_channels(self) -> u32 {
        match self {
            Format::RU8 => 1,
            _ => 4,
        }
    }

    pub open spec fn spec_bytes_per_channel(self) -> u32 {
        match self {
            Format::RU8 | Format::BgraU8 | Format::RgbaU8 => 1,
            Format::RgbaF16 => 2,
            Format::RgbaF32 => 4,
        }
    }

    pub open spec fn spec_bytes_per_texel(self) -> u32 {
        (self.spec_channels() * self.spec_bytes_per_channel()) as u32
    }

    /// A stable numeric code for the format, used in serialized metadata.
    pub open spec fn spec_code(self) -> u32 {
        match self {
            Format::RU8 => 0,
            Format::BgraU8 => 1,
            Format::RgbaU8 => 2,
            Format::RgbaF16 => 3,
            Format::RgbaF32 => 4,
        }
    }

    pub fn channels(&self) -> (r: u32)
        ensures
            r == self.spec_channels(),
    {
        match self {
            Format::RU8 => 1,
            _ => 4,
        }
    }

    pub fn bytes_per_channel(&self) -> (r: u32)
        ensures
            r == self.spec_bytes_per_channel(),
    {
        match self {
            Format::RU8 => 1,
            Format::BgraU8 => 1,
            Format::RgbaU8 => 1,
            Format::RgbaF16 => 2,
            Format::RgbaF32 => 4,
        }
    }

    pub fn bytes_per_texel(&self) -> (r: u32)
        ensures
            r == self.spec_bytes_per_texel(),
            1 <= r <= 16,
    {
        self.channels() * self.bytes_per_channel()
    }

    pub fn code(&self) -> (r: u32)
        ensures
            r == self.spec_code(),
    {
        match self {
            Format::RU8 => 0,
            Format::BgraU8 => 1,
            Format::RgbaU8 => 2,
            Format::RgbaF16 => 3,
            Format::RgbaF32 => 4,
        }
    }

    pub fn from_code(code: u32) -> (r: Option<Format>)
        ensures
            r matches Some(f) ==> f.spec_code() == code,
            r is None <==> code > 4,
    {
        match code {
            0 => Some(Format::RU8),
            1 => Some(Format::BgraU8),
            2 => Some(Format::RgbaU8),
            3 => Some(Format::RgbaF16),
            4 => Some(Format::RgbaF32),
            _ => None,
        }
    }
}

/// How a texture is sampled between texels.
#[derive(Clone, Copy, Debug, PartialEq, Eq, Structural)]
pub enum FilterMode {
    Linear,
    Nearest,
}

impl FilterMode {
    pub fn is_linear(&self) -> (r: bool)
        ensures
            r <==> *self == FilterMode::Linear,
    {
        match self {
            FilterMode::Linear => true,
            FilterMode::Nearest => false,
        }
    }
}

/// How vertices are assembled into triangles.
#[derive(Clone, Copy, Debug, PartialEq, Eq, Structural)]
pub enum Primitive {
    Triangle,
    TriangleStrip,
}

/// Which shader stages can see a binding.
#[derive(Clone, Copy, Debug, PartialEq, Eq, Structural)]
pub enum Visibility {
    VertexShader,
    FragmentShader,
    BothShaders,
}

/// Where a pipeline stands among the pipelines that draw into a recording:
/// the last one of them triggers the capture of the frame.
#[derive(Clone, Copy, Debug, PartialEq, Eq, Structural)]
pub enum RecordingPosition {
    NotRecorded,
    NotLast,
    Last,
}

} // verus!
