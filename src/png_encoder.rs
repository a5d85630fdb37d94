use vstd::prelude::*;
use vstd::slice::slice_subrange;
use crate::packet::append_slice;
use crate::video_frame::{ImageData, VideoFrame};

verus! {

/// The PNG file that the png crate writes for an 8-bit RGBA image.
pub uninterp spec fn png_rgba8(width: u32, height: u32, data: Seq<u8>) -> Option<Seq<u8>>;

/// Image sizes that PNG allows (each side below 2^31) and whose filtered rows,
/// a filter byte and four bytes per pixel each, fit in memory's size type: the
/// encoder multiplies row length by height without checking for overflow.
pub open spec fn png_size_ok(width: int, height: int) -> bool {
    &&& width < 0x8000_0000
    &&& height < 0x8000_0000
    &&& (4 * width + 1) * height <= isize::MAX
}

/// Relies on png::Encoder with 8-bit RGBA color: the header, then the rows
/// in `data`, into a growable buffer. The writer refuses image data whose
/// length is not four bytes per pixel.
#[verifier::external_body]
fn encode_png_rgba8(width: u32, height: u32, data: &[u8]) -> (r: Option<Vec<u8>>)
    requires
        png_size_ok(width as int, height as int),
    ensures
        r matches Some(v) ==> png_rgba8(width, height, data@) == Some(v@),
        r is None ==> png_rgba8(width, height, data@) is None,
        data@.len() != 4 * width * height ==> r is None,
{
    let mut out: Vec<u8> = Vec::new();
    let mut encoder = png::Encoder::new(&mut out, width, height);
    encoder.set_color(png::ColorType::Rgba);
    encoder.set_depth(png::BitDepth::Eight);
    let mut writer = encoder.write_header().ok()?;
    writer.write_image_data(data).ok()?;
    writer.finish().ok()?;
    Some(out)
}

/// The first `height` rows of an image whose rows are `padded` bytes apart,
/// each cut to its first `unpadded` bytes.
pub open spec fn unpadded_rows(b: Seq<u8>, padded: int, unpadded: int, height: int) -> Seq<u8>
    decreases height,
{
    if height <= 0 {
        Seq::empty()
    } else {
        unpadded_rows(b, padded, unpadded, height - 1) + b.subrange((height - 1) * padded, (height - 1)
            * padded + unpadded)
    }
}

/// Whether an image of `height` rows, `padded` bytes apart and `unpadded` of
/// them used, fits in `len` bytes.
pub open spec fn rows_fit(len: int, padded: int, unpadded: int, height: int) -> bool {
    &&& unpadded <= padded
    &&& height == 0 || (height - 1) * padded + unpadded <= len
}

proof fn lemma_rows_fit_by_division(k: int, p: int, u: int, len: int)
    requires
        k >= 0,
        p >= 0,
        u >= 0,
        len >= 0,
    ensures
        (k * p + u <= len) <==> (u <= len && (p > 0 ==> k <= (len - u) / p)),
{
    assert(k * p >= 0) by (nonlinear_arith)
        requires k >= 0, p >= 0;
    if p == 0 {
        assert(k * p == 0);
    } else if u <= len {
        let x = len - u;
        let q = x / p;
        vstd::arithmetic::div_mod::lemma_fundamental_div_mod(x, p);
        if k <= q {
            assert(k * p <= q * p) by (nonlinear_arith)
                requires k <= q, p > 0;
            assert(q * p <= x) by (nonlinear_arith)
                requires x == p * q + x % p, x % p >= 0;
        } else {
            assert(k * p >= (q + 1) * p) by (nonlinear_arith)
                requires k >= q + 1, p > 0;
            assert((q + 1) * p > x) by (nonlinear_arith)
                requires x == p * q + x % p, x % p < p;
        }
    }
}

/// Removes the row padding of an image.
pub fn strip_row_padding(b: &[u8], padded: usize, unpadded: usize, height: usize) -> (r: Vec<u8>)
    requires
        rows_fit(b@.len() as int, padded as int, unpadded as int, height as int),
    ensures
        r@ == unpadded_rows(b@, padded as int, unpadded as int, height as int),
{
    let mut out: Vec<u8> = Vec::new();
    let n = b.len();
    let mut i: usize = 0;
    while i < height
        invariant
            n == b@.len(),
            i <= height,
            rows_fit(b@.len() as int, padded as int, unpadded as int, height as int),
            out@ == unpadded_rows(b@, padded as int, unpadded as int, i as int),
        decreases height - i,
    {
        proof {
            let (ii, p, h) = (i as int, padded as int, height as int);
            assert(ii * p <= (h - 1) * p) by (nonlinear_arith)
                requires ii <= h - 1, p >= 0;
        }
        let start = i * padded;
        append_slice(&mut out, slice_subrange(b, start, start + unpadded));
        i = i + 1;
    }
    out
}

/// Encodes frames as PNG images.
pub struct PngEncoder;

impl PngEncoder {
    /// The PNG file of a frame's image, with the row padding removed. An error
    /// where the frame has no image in owned bytes, where those bytes do not
    /// hold the rows that the frame's geometry gives, where the image is too
    /// large for PNG, or where the png crate refuses the image.
    pub fn encode_to_bytes(video_frame: &VideoFrame) -> (r: Result<Vec<u8>, &'static str>)
        ensures
            match video_frame.image_data {
                Some(ImageData::Bytes(v)) => {
                    let (p, u, h) = (
                        video_frame.padded_bytes_per_row as int,
                        video_frame.unpadded_bytes_per_row as int,
                        video_frame.height as int,
                    );
                    if !rows_fit(v@.len() as int, p, u, h) || !png_size_ok(video_frame.width as int, h) {
                        r is Err
                    } else {
                        match png_rgba8(video_frame.width as u32, video_frame.height as u32, unpadded_rows(v@, p, u, h)) {
                            Some(png) => r matches Ok(out) && out@ == png,
                            None => r is Err,
                        }
                    }
                },
                _ => r is Err,
            },
    {
        let bytes = match &video_frame.image_data {
            Some(ImageData::Bytes(v)) => v,
            _ => return Err("VideoFrame could not be written because image_data is None."),
        };
        let (p, u, h) = (video_frame.padded_bytes_per_row, video_frame.unpadded_bytes_per_row, video_frame.height);
        if u > p {
            return Err("The image's rows do not fit its buffer.");
        }
        let w = video_frame.width;
        if w >= 0x8000_0000 || h >= 0x8000_0000 {
            return Err("The image is larger than PNG allows.");
        }
        proof {
            let (wi, hi) = (w as int, h as int);
            assert((4 * wi + 1) * hi <= 0x2_0000_0001 * 0x8000_0000) by (nonlinear_arith)
                requires 0 <= wi < 0x8000_0000, 0 <= hi < 0x8000_0000;
        }
        let filtered: u128 = (4 * w as u128 + 1) * h as u128;
        if filtered > isize::MAX as u128 {
            return Err("The image is larger than PNG allows.");
        }
        let len = bytes.len();
        if h > 0 {
            proof {
                lemma_rows_fit_by_division((h - 1) as int, p as int, u as int, len as int);
            }
            if u > len || (p > 0 && h - 1 > (len - u) / p) {
                return Err("The image's rows do not fit its buffer.");
            }
        }
        let data = strip_row_padding(bytes.as_slice(), p, u, h);
        match encode_png_rgba8(video_frame.width as u32, h as u32, data.as_slice()) {
            Some(png) => Ok(png),
            None => Err("The png encoder refused the image."),
        }
    }
}

} // verus!
