use vstd::prelude::*;
use vstd::slice::slice_subrange;
use crate::format::Format;
use crate::video_frame::{FrameStatus, ImageData, VideoFrame};

verus! {

/// The metadata of a frame as it is serialized: status code, whether an image
/// follows, width, height, format code, unpadded and padded bytes per row,
/// frame number and frame size.
pub type MetaFields = (u32, bool, usize, usize, u32, usize, usize, usize, usize);

/// The bytes that bincode's standard configuration gives for the metadata
/// tuple (the flag encoded as an `Option<()>`).
pub uninterp spec fn bincode_meta(m: MetaFields) -> Seq<u8>;

/// Relies on bincode::encode_to_vec with the standard configuration: the
/// encoding of a tuple of integers into a growable buffer, which has no size
/// limit, always succeeds.
#[verifier::external_body]
fn encode_meta(m: MetaFields) -> (r: Vec<u8>)
    ensures
        r@ == bincode_meta(m),
{
    let (a, b, c, d, e, f, g, h, i) = m;
    bincode::encode_to_vec((a, b.then_some(()), c, d, e, f, g, h, i), bincode::config::standard()).unwrap()
}

/// Relies on bincode::decode_from_slice with the standard configuration:
/// decoding what bincode encoded for a value gives that value back.
#[verifier::external_body]
fn decode_meta(b: &[u8]) -> (r: Option<MetaFields>)
    ensures
        forall|m: MetaFields| #[trigger] bincode_meta(m) == b@ ==> r == Some(m),
{
    let decoded: Result<((u32, Option<()>, usize, usize, u32, usize, usize, usize, usize), usize), _> =
        bincode::decode_from_slice(b, bincode::config::standard());
    match decoded {
        Ok(((a, b, c, d, e, f, g, h, i), _)) => Some((a, b.is_some(), c, d, e, f, g, h, i)),
        Err(_) => None,
    }
}

pub open spec fn fields_of(f: VideoFrame) -> MetaFields {
    (
        f.status.spec_code(),
        f.image_data is Some,
        f.width,
        f.height,
        f.format.spec_code(),
        f.unpadded_bytes_per_row,
        f.padded_bytes_per_row,
        f.frame_number,
        f.frame_size_in_bytes,
    )
}

/// The big-endian bytes of `x`.
pub open spec fn u64_be(x: u64) -> Seq<u8> {
    seq![
        (x >> 56u64) as u8,
        (x >> 48u64) as u8,
        (x >> 40u64) as u8,
        (x >> 32u64) as u8,
        (x >> 24u64) as u8,
        (x >> 16u64) as u8,
        (x >> 8u64) as u8,
        x as u8,
    ]
}

/// The integer whose big-endian bytes are the first eight of `b`.
pub open spec fn u64_from_be(b: Seq<u8>) -> u64 {
    ((b[0] as u64) << 56u64) | ((b[1] as u64) << 48u64) | ((b[2] as u64) << 40u64) | ((b[3] as u64)
        << 32u64) | ((b[4] as u64) << 24u64) | ((b[5] as u64) << 16u64) | ((b[6] as u64) << 8u64) | (
    b[7] as u64)
}

pub proof fn lemma_u64_be_round_trip(x: u64)
    ensures
        u64_be(x).len() == 8,
        u64_from_be(u64_be(x)) == x,
{
    let b = u64_be(x);
    assert(((((x >> 56u64) as u8) as u64) << 56u64) | ((((x >> 48u64) as u8) as u64) << 48u64) | ((((x
        >> 40u64) as u8) as u64) << 40u64) | ((((x >> 32u64) as u8) as u64) << 32u64) | ((((x >> 24u64)
        as u8) as u64) << 24u64) | ((((x >> 16u64) as u8) as u64) << 16u64) | ((((x >> 8u64) as u8)
        as u64) << 8u64) | ((x as u8) as u64) == x) by (bit_vector);
}

/// A packet as it is written to a shard: the length of what follows the
/// length itself, the length of the metadata, the metadata, the image.
pub open spec fn packet_bytes(meta: Seq<u8>, image: Seq<u8>) -> Seq<u8> {
    u64_be((8 + meta.len() + image.len()) as u64) + u64_be(meta.len() as u64) + meta + image
}

/// Whether a packet of this metadata and image has a length that fits the
/// length field.
pub open spec fn packet_fits(meta: Seq<u8>, image: Seq<u8>) -> bool {
    8 + meta.len() + image.len() <= u64::MAX
}

fn push_u64_be(out: &mut Vec<u8>, x: u64)
    ensures
        final(out)@ == old(out)@ + u64_be(x),
{
    out.push(#[verifier::truncate] ((x >> 56u64) as u8));
    out.push(#[verifier::truncate] ((x >> 48u64) as u8));
    out.push(#[verifier::truncate] ((x >> 40u64) as u8));
    out.push(#[verifier::truncate] ((x >> 32u64) as u8));
    out.push(#[verifier::truncate] ((x >> 24u64) as u8));
    out.push(#[verifier::truncate] ((x >> 16u64) as u8));
    out.push(#[verifier::truncate] ((x >> 8u64) as u8));
    out.push(#[verifier::truncate] (x as u8));
    assert(final(out)@ =~= old(out)@ + u64_be(x));
}

fn read_u64_be(b: &[u8], at: usize) -> (r: u64)
    requires
        at + 8 <= b@.len(),
    ensures
        r == u64_from_be(b@.subrange(at as int, at + 8)),
{
    let ghost s = b@.subrange(at as int, at + 8);
    assert(s[0] == b@[at as int] && s[7] == b@[at + 7]);
    ((b[at] as u64) << 56u64) | ((b[at + 1] as u64) << 48u64) | ((b[at + 2] as u64) << 40u64) | ((
    b[at + 3] as u64) << 32u64) | ((b[at + 4] as u64) << 24u64) | ((b[at + 5] as u64) << 16u64) | ((b[at
        + 6] as u64) << 8u64) | (b[at + 7] as u64)
}

pub(crate) fn append_slice(out: &mut Vec<u8>, s: &[u8])
    ensures
        final(out)@ == old(out)@ + s@,
{
    let mut i: usize = 0;
    while i < s.len()
        invariant
            i <= s@.len(),
            out@ == old(out)@ + s@.subrange(0, i as int),
        decreases s@.len() - i,
    {
        out.push(s[i]);
        assert(s@.subrange(0, i + 1) =~= s@.subrange(0, i as int).push(s@[i as int]));
        i = i + 1;
    }
    assert(s@.subrange(0, s@.len() as int) =~= s@);
}

/// Frames the serialized metadata and the image into one packet; `None` where
/// the packet's length would not fit its length field.
pub fn frame_packet(meta: &[u8], image: &[u8]) -> (r: Option<Vec<u8>>)
    ensures
        r is Some <==> packet_fits(meta@, image@),
        r matches Some(p) ==> p@ == packet_bytes(meta@, image@),
{
    let ml = meta.len() as u64;
    let il = image.len() as u64;
    if ml > u64::MAX - 8 || il > u64::MAX - 8 - ml {
        return None;
    }
    let mut out: Vec<u8> = Vec::new();
    push_u64_be(&mut out, 8 + ml + il);
    push_u64_be(&mut out, ml);
    append_slice(&mut out, meta);
    append_slice(&mut out, image);
    Some(out)
}

/// Serializes a frame into a packet. The image is appended only where the
/// frame carries one; `image` holds its bytes, read from wherever they are,
/// and must be `frame_size_in_bytes` long. `None` where it is not, or where
/// the packet's length would not fit its length field.
pub fn encode_packet(frame: &VideoFrame, image: &[u8]) -> (r: Option<Vec<u8>>)
    ensures
        ({
            let img = if frame.image_data is Some { image@ } else { Seq::<u8>::empty() };
            &&& r is Some <==> (frame.image_data is Some ==> image@.len() == frame.frame_size_in_bytes)
                && packet_fits(bincode_meta(fields_of(*frame)), img)
            &&& r matches Some(p) ==> p@ == packet_bytes(bincode_meta(fields_of(*frame)), img)
        }),
{
    let fields = (
        frame.status.code(),
        frame.image_data.is_some(),
        frame.width,
        frame.height,
        frame.format.code(),
        frame.unpadded_bytes_per_row,
        frame.padded_bytes_per_row,
        frame.frame_number,
        frame.frame_size_in_bytes,
    );
    if frame.image_data.is_some() && image.len() != frame.frame_size_in_bytes {
        return None;
    }
    let meta = encode_meta(fields);
    if frame.image_data.is_some() {
        frame_packet(meta.as_slice(), image)
    } else {
        let empty: Vec<u8> = Vec::new();
        frame_packet(meta.as_slice(), empty.as_slice())
    }
}

/// Whether decoded metadata describes a frame: its status and format codes
/// are known, it announces an image exactly when the status is captured, and
/// its frame number is at least 1.
pub open spec fn valid_fields(m: MetaFields) -> bool {
    &&& m.0 <= 2
    &&& m.4 <= 4
    &&& (m.0 == 0) == m.1
    &&& m.7 >= 1
}

fn copy_range(b: &[u8], from: usize, to: usize) -> (r: Vec<u8>)
    requires
        from <= to <= b@.len(),
    ensures
        r@ == b@.subrange(from as int, to as int),
{
    let mut out: Vec<u8> = Vec::new();
    append_slice(&mut out, slice_subrange(b, from, to));
    out
}

/// Builds a frame from decoded metadata and, where the metadata announces an
/// image, the bytes that follow it. `None` where the metadata is not valid.
pub fn frame_from_fields(m: MetaFields, image: Vec<u8>) -> (r: Option<VideoFrame>)
    ensures
        r is Some <==> valid_fields(m),
        r matches Some(f) ==> {
            &&& fields_of(f) == m
            &&& f.wf()
            &&& f.payload() == if m.1 { Some(image@) } else { None::<Seq<u8>> }
        },
{
    let (status_code, has_image, width, height, format_code, unpadded, padded, frame_number, size) = m;
    let status = match FrameStatus::from_code(status_code) {
        Some(s) => s,
        None => return None,
    };
    let format = match Format::from_code(format_code) {
        Some(f) => f,
        None => return None,
    };
    if (status_code == 0) != has_image || frame_number == 0 {
        return None;
    }
    let image_data = if has_image { Some(ImageData::Bytes(image)) } else { None };
    proof {
        assert(status.spec_code() == status_code);
        assert(status_code == 0 ==> status == FrameStatus::Captured);
        assert(status == FrameStatus::Captured ==> status_code == 0);
    }
    Some(VideoFrame {
        status,
        image_data,
        width,
        height,
        format,
        unpadded_bytes_per_row: unpadded,
        padded_bytes_per_row: padded,
        frame_number,
        frame_size_in_bytes: size,
    })
}

/// Reads the length field at the start of a packet: the number of bytes of
/// the packet that follow the field. `None` where fewer than eight bytes are
/// given.
pub fn decode_packet_length(prefix: &[u8]) -> (r: Option<u64>)
    ensures
        r is Some <==> prefix@.len() >= 8,
        r matches Some(n) ==> n == u64_from_be(prefix@),
{
    if prefix.len() < 8 {
        return None;
    }
    let n = read_u64_be(prefix, 0);
    assert(prefix@.subrange(0, 8) =~= prefix@.subrange(0, 8));
    assert(u64_from_be(prefix@.subrange(0, 8)) == u64_from_be(prefix@));
    Some(n)
}

/// Decodes one whole packet. Where the packet is what `encode_packet` wrote
/// for a well-formed frame, the frame comes back with the same metadata, and
/// with the same image bytes where it had an image.
pub fn decode_packet(packet: &[u8]) -> (r: Option<VideoFrame>)
    ensures
        packet@.len() < 16 ==> r is None,
        r matches Some(f) ==> f.wf() && (f.image_data is None || f.image_data matches Some(ImageData::Bytes(_))),
        r is Some ==> 16 + u64_from_be(packet@.subrange(8, 16)) <= packet@.len(),
        r matches Some(f) && f.image_data is Some ==> 8 + u64_from_be(packet@) <= packet@.len(),
        forall|f: VideoFrame, img: Seq<u8>|
            f.wf() && (f.image_data is None ==> img.len() == 0) && packet_fits(bincode_meta(fields_of(f)), img)
                && packet@ == #[trigger] packet_bytes(bincode_meta(fields_of(f)), img) ==> {
                &&& r matches Some(g)
                &&& fields_of(g) == fields_of(f)
                &&& g.payload() == if f.image_data is Some { Some(img) } else { None::<Seq<u8>> }
            },
{
    let len = packet.len();
    let mut r: Option<VideoFrame> = None;
    if len >= 16 {
        let packet_len = read_u64_be(packet, 0);
        let meta_len = read_u64_be(packet, 8);
        if meta_len <= (len - 16) as u64 {
            let ml = meta_len as usize;
            if let Some(fields) = decode_meta(slice_subrange(packet, 16, 16 + ml)) {
                if !fields.1 {
                    r = frame_from_fields(fields, Vec::new());
                } else if packet_len >= 8 && packet_len - 8 >= meta_len {
                    let image_len = packet_len - 8 - meta_len;
                    if image_len <= (len - 16 - ml) as u64 {
                        let image = copy_range(packet, 16 + ml, 16 + ml + image_len as usize);
                        r = frame_from_fields(fields, image);
                    }
                }
            }
        }
    }
    proof {
        assert forall|f: VideoFrame, img: Seq<u8>|
            f.wf() && (f.image_data is None ==> img.len() == 0) && packet_fits(bincode_meta(fields_of(f)), img)
                && packet@ == #[trigger] packet_bytes(bincode_meta(fields_of(f)), img) implies {
                &&& r matches Some(g)
                &&& fields_of(g) == fields_of(f)
                &&& g.payload() == if f.image_data is Some { Some(img) } else { None::<Seq<u8>> }
            } by {
            lemma_packet_parts(packet@, bincode_meta(fields_of(f)), img);
            assert(valid_fields(fields_of(f)));
        }
    }
    r
}

proof fn lemma_packet_parts(p: Seq<u8>, meta: Seq<u8>, img: Seq<u8>)
    requires
        packet_fits(meta, img),
        p == packet_bytes(meta, img),
    ensures
        p.len() == 16 + meta.len() + img.len(),
        u64_from_be(p.subrange(0, 8)) == 8 + meta.len() + img.len(),
        u64_from_be(p.subrange(8, 16)) == meta.len(),
        p.subrange(16, 16 + meta.len() as int) == meta,
        p.subrange(16 + meta.len() as int, 16 + meta.len() as int + img.len() as int) == img,
{
    let total = (8 + meta.len() + img.len()) as u64;
    lemma_u64_be_round_trip(total);
    lemma_u64_be_round_trip(meta.len() as u64);
    let ml = meta.len() as int;
    assert(p.subrange(0, 8) =~= u64_be(total));
    assert(p.subrange(8, 16) =~= u64_be(meta.len() as u64));
    assert(p.subrange(16, 16 + ml) =~= meta);
    assert(p.subrange(16 + ml, 16 + ml + img.len()) =~= img);
}

/// Relies on lzzzz::lz4f::CLEVEL_MAX: the highest compression level that the
/// LZ4 frame compressor accepts, which lzzzz sets to 12.
#[verifier::external_body]
fn lz4_max_compression_level() -> (r: i32)
    ensures
        r == 12,
{
    lzzzz::lz4f::CLEVEL_MAX
}

/// Whether the LZ4 frame compressor supports compression level `level`.
pub fn is_valid_compression_level(level: u8) -> (r: bool)
    ensures
        r == (level <= 12),
{
    level as i32 <= lz4_max_compression_level()
}

} // verus!
