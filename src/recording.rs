use vstd::prelude::*;
use crate::format::RecordingPosition;
use crate::video_recorder::VideoRecorder;

verus! {

/// Where each of `n` pipelines stands in a recording: the last one captures
/// the frame, the others only draw into the recording texture.
pub open spec fn positions_for(n: int, recording: bool) -> Seq<RecordingPosition> {
    Seq::new(n as nat, |i: int| if !recording {
        RecordingPosition::NotRecorded
    } else if i == n - 1 {
        RecordingPosition::Last
    } else {
        RecordingPosition::NotLast
    })
}

/// Whether a renderer is recording, and the recorder while it is.
pub struct Recording {
    pub recorder: Option<VideoRecorder>,
}

impl Recording {
    pub fn new() -> (r: Recording)
        ensures
            r.recorder is None,
    {
        Recording { recorder: None }
    }

    pub open spec fn wf(&self) -> bool {
        self.recorder matches Some(r) ==> r.wf()
    }

    /// Starts a recording session with a fresh recorder, replacing any earlier
    /// one, and returns the positions of the `num_pipelines` pipelines that draw
    /// into it, in order.
    pub fn start_recording(
        &mut self,
        num_pipelines: usize,
        width: u32,
        height: u32,
        has_clear_color: bool,
        max_buffer_size_in_bytes: usize,
        row_alignment: usize,
    ) -> (r: Vec<RecordingPosition>)
        requires
            row_alignment > 0,
        ensures
            final(self).wf(),
            final(self).recorder matches Some(rec) && {
                &&& rec.inner.frame_number == 0
                &&& rec.frames().len() == 0
                &&& rec.states().len() == 0
                &&& rec.inner.buffer_size_in_bytes == 0
                &&& rec.max_buffer_size_in_bytes == max_buffer_size_in_bytes
                &&& rec.row_alignment == row_alignment
                &&& rec.inner.width == width && rec.inner.height == height
                &&& rec.inner.has_clear_color == has_clear_color
            },
            r@ == positions_for(num_pipelines as int, true),
    {
        self.recorder = Some(VideoRecorder::new(width, height, has_clear_color, max_buffer_size_in_bytes, row_alignment));
        pipeline_positions(num_pipelines, true)
    }

    /// Ends the recording session, if there is one: a call without a session,
    /// or a second call, only returns the positions again.
    pub fn stop_recording(&mut self, num_pipelines: usize) -> (r: Vec<RecordingPosition>)
        ensures
            final(self).recorder is None,
            final(self).wf(),
            r@ == positions_for(num_pipelines as int, false),
    {
        self.recorder = None;
        pipeline_positions(num_pipelines, false)
    }
}

/// The positions of `n` pipelines in a recording, or outside one.
pub fn pipeline_positions(n: usize, recording: bool) -> (r: Vec<RecordingPosition>)
    ensures
        r@ == positions_for(n as int, recording),
{
    let mut v: Vec<RecordingPosition> = Vec::new();
    let mut i: usize = 0;
    while i < n
        invariant
            i <= n,
            v@ == positions_for(n as int, recording).take(i as int),
        decreases n - i,
    {
        let p = if !recording {
            RecordingPosition::NotRecorded
        } else if i == n - 1 {
            RecordingPosition::Last
        } else {
            RecordingPosition::NotLast
        };
        v.push(p);
        proof {
            assert(v@ =~= positions_for(n as int, recording).take(i + 1));
        }
        i = i + 1;
    }
    proof {
        assert(v@ =~= positions_for(n as int, recording));
    }
    v
}

} // verus!
