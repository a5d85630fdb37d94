use vstd::prelude::*;
use crate::packet::append_slice;
use crate::shard::{rfc3339_millis_text, replace_chars, video_filename, SessionTime};

verus! {

/// What the encoder pipe is to do with one frame of the ordered stream.
pub struct PipeAction {
    /// Start a new encoder process (for a new session) before writing.
    pub respawn: bool,
    /// The image bytes to write to the encoder's input.
    pub bytes: Vec<u8>,
    /// Whether `bytes` repeat the previous image because this frame has none.
    pub duplicated: bool,
}

/// Decides how the frames of the ordered stream reach an external encoder:
/// one encoder process per session, at a constant frame rate, so a frame
/// without an image repeats the last image written.
pub struct FfmpegPipe {
    pub audio_directory: Option<String>,
    pub output_directory: Option<String>,
    pub output_filename: Option<String>,
    pub ffmpeg_args: Vec<String>,
    /// Whether an encoder process was started.
    pub running: bool,
    /// Session of the frames the current encoder process receives.
    pub timestamp: Option<SessionTime>,
    /// The last image written.
    pub prev_bytes: Option<Vec<u8>>,
}

fn copy_bytes(b: &Vec<u8>) -> (r: Vec<u8>)
    ensures
        r@ == b@,
{
    let mut r: Vec<u8> = Vec::new();
    append_slice(&mut r, b.as_slice());
    r
}

impl FfmpegPipe {
    pub fn new(
        audio_directory: Option<String>,
        output_directory: Option<String>,
        output_filename: Option<String>,
        ffmpeg_args: Vec<String>,
    ) -> (r: FfmpegPipe)
        ensures
            r.audio_directory == audio_directory,
            r.output_directory == output_directory,
            r.output_filename == output_filename,
            r.ffmpeg_args == ffmpeg_args,
            !r.running,
            r.timestamp is None,
            r.prev_bytes is None,
    {
        FfmpegPipe {
            audio_directory,
            output_directory,
            output_filename,
            ffmpeg_args,
            running: false,
            timestamp: None,
            prev_bytes: None,
        }
    }

    /// Takes the encoded image of the next frame (empty for a frame that was
    /// dropped or missing) and the session it belongs to. A frame without an
    /// image before any image was written is skipped. Otherwise the encoder is
    /// (re)started where none runs or the session changed, and the image is
    /// written, or the previous image again where this frame has none.
    pub fn write(&mut self, png_bytes: Vec<u8>, timestamp: Option<SessionTime>) -> (r: Option<PipeAction>)
        ensures
            final(self).audio_directory == old(self).audio_directory,
            final(self).output_directory == old(self).output_directory,
            final(self).output_filename == old(self).output_filename,
            final(self).ffmpeg_args == old(self).ffmpeg_args,
            png_bytes@.len() == 0 && old(self).prev_bytes is None ==> {
                &&& r is None
                &&& final(self).running == old(self).running
                &&& final(self).timestamp == old(self).timestamp
                &&& final(self).prev_bytes is None
            },
            !(png_bytes@.len() == 0 && old(self).prev_bytes is None) ==> {
                &&& r matches Some(a) && {
                    &&& a.respawn == (!old(self).running || timestamp != old(self).timestamp)
                    &&& a.duplicated == (png_bytes@.len() == 0)
                    &&& a.bytes@ == if png_bytes@.len() == 0 {
                        old(self).prev_bytes->Some_0@
                    } else {
                        png_bytes@
                    }
                }
                &&& final(self).running
                &&& final(self).timestamp == timestamp
                &&& final(self).prev_bytes matches Some(p) && p@ == if png_bytes@.len() == 0 {
                    old(self).prev_bytes->Some_0@
                } else {
                    png_bytes@
                }
            },
    {
        if png_bytes.len() == 0 && self.prev_bytes.is_none() {
            return None;
        }
        let respawn = !self.running || !same_session(&timestamp, &self.timestamp);
        self.running = true;
        self.timestamp = timestamp;
        if png_bytes.len() == 0 {
            let bytes = match &self.prev_bytes {
                Some(p) => copy_bytes(p),
                None => Vec::new(),
            };
            Some(PipeAction { respawn, bytes, duplicated: true })
        } else {
            let bytes = copy_bytes(&png_bytes);
            self.prev_bytes = Some(png_bytes);
            Some(PipeAction { respawn, bytes, duplicated: false })
        }
    }

    /// Name of the video file: the one given, else one made from the session's
    /// instant, or from `now` where no session is known. Nothing where chrono
    /// cannot express that instant.
    pub fn output_filename(&self, now: SessionTime) -> (r: Option<String>)
        ensures
            self.output_filename matches Some(f) ==> r matches Some(s) && s@ == f@,
            self.output_filename is None ==> {
                let t = match self.timestamp {
                    Some(t) => t,
                    None => now,
                };
                &&& r is Some <==> rfc3339_millis_text((t.seconds, t.nanos)) is Some
                &&& r matches Some(s) ==> s@ == replace_chars(
                    rfc3339_millis_text((t.seconds, t.nanos))->Some_0,
                    ':',
                    '_',
                ) + ".mp4"@
            },
    {
        match &self.output_filename {
            Some(f) => Some(f.clone()),
            None => {
                let t = match self.timestamp {
                    Some(t) => t,
                    None => now,
                };
                video_filename(t)
            },
        }
    }
}

fn same_session(a: &Option<SessionTime>, b: &Option<SessionTime>) -> (r: bool)
    ensures
        r == (*a == *b),
{
    match (a, b) {
        (Some(x), Some(y)) => x.seconds == y.seconds && x.nanos == y.nanos,
        (None, None) => true,
        _ => false,
    }
}

/// The encoder's fixed arguments: a PNG image sequence on standard input at
/// a fixed frame rate, overwriting the output.
pub open spec fn fixed_args() -> Seq<Seq<char>> {
    seq![
        "-hide_banner"@,
        "-loglevel"@,
        "error"@,
        "-stats"@,
        "-f"@,
        "image2pipe"@,
        "-framerate"@,
        "60"@,
        "-y"@,
        "-i"@,
        "-"@,
    ]
}

/// All the encoder's arguments: the fixed ones, the audio input where there is
/// one, the caller's extra arguments, and the output path last.
pub open spec fn encoder_args(wav: Option<Seq<char>>, extra: Seq<Seq<char>>, output: Seq<char>) -> Seq<Seq<char>> {
    fixed_args() + match wav {
        Some(w) => seq!["-i"@, w],
        None => Seq::empty(),
    } + extra + seq![output]
}

pub open spec fn views(v: Seq<String>) -> Seq<Seq<char>> {
    v.map_values(|s: String| s@)
}

fn push_str(v: &mut Vec<String>, s: &str)
    ensures
        views(final(v)@) == views(old(v)@).push(s@),
{
    v.push(String::from_str(s));
    assert(views(final(v)@) =~= views(old(v)@).push(s@));
}

fn push_string(v: &mut Vec<String>, s: String)
    ensures
        views(final(v)@) == views(old(v)@).push(s@),
{
    let ghost sv = s@;
    v.push(s);
    assert(views(final(v)@) =~= views(old(v)@).push(sv));
}

impl FfmpegPipe {
    /// The arguments to start the encoder with, given the audio file found for
    /// the output, if any, and the output path.
    pub fn encoder_arguments(&self, wav: Option<String>, output_path: String) -> (r: Vec<String>)
        ensures
            views(r@) == encoder_args(
                match wav {
                    Some(w) => Some(w@),
                    None => None,
                },
                views(self.ffmpeg_args@),
                output_path@,
            ),
    {
        proof {
            reveal_strlit("-hide_banner");
            reveal_strlit("-loglevel");
            reveal_strlit("error");
            reveal_strlit("-stats");
            reveal_strlit("-f");
            reveal_strlit("image2pipe");
            reveal_strlit("-framerate");
            reveal_strlit("60");
            reveal_strlit("-y");
            reveal_strlit("-i");
            reveal_strlit("-");
        }
        let mut r: Vec<String> = Vec::new();
        push_str(&mut r, "-hide_banner");
        push_str(&mut r, "-loglevel");
        push_str(&mut r, "error");
        push_str(&mut r, "-stats");
        push_str(&mut r, "-f");
        push_str(&mut r, "image2pipe");
        push_str(&mut r, "-framerate");
        push_str(&mut r, "60");
        push_str(&mut r, "-y");
        push_str(&mut r, "-i");
        push_str(&mut r, "-");
        assert(views(r@) =~= fixed_args());
        let ghost base = views(r@);
        match &wav {
            Some(w) => {
                push_str(&mut r, "-i");
                push_string(&mut r, w.clone());
                assert(views(r@) =~= base + seq!["-i"@, w@]);
            },
            None => {
                assert(views(r@) =~= base + Seq::<Seq<char>>::empty());
            },
        }
        let ghost with_audio = views(r@);
        let mut i: usize = 0;
        while i < self.ffmpeg_args.len()
            invariant
                i <= self.ffmpeg_args@.len(),
                views(r@) == with_audio + views(self.ffmpeg_args@).take(i as int),
            decreases self.ffmpeg_args@.len() - i,
        {
            push_string(&mut r, self.ffmpeg_args[i].clone());
            assert(views(r@) =~= with_audio + views(self.ffmpeg_args@).take(i + 1));
            i = i + 1;
        }
        assert(views(self.ffmpeg_args@).take(i as int) =~= views(self.ffmpeg_args@));
        push_string(&mut r, output_path);
        assert(views(r@) =~= with_audio + views(self.ffmpeg_args@) + seq![output_path@]);
        r
    }
}

} // verus!
