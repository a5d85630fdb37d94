use vstd::prelude::*;
use crate::format::Format;
use crate::video_frame::{FrameStatus, ImageData, VideoFrame};

verus! {

/// Where the copy of a queued frame out of GPU memory stands.
#[derive(Clone, Copy, Debug, PartialEq, Eq, Structural)]
pub enum FrameState {
    /// The frame was dropped: there is nothing to map.
    Dropped,
    /// A map request is outstanding.
    Mapping,
    /// The buffer is mapped and can be read.
    Mapped,
    /// The map request failed.
    Failed,
}

/// Row stride of an image whose rows hold `unpadded` bytes, rounded up to the
/// next multiple of `alignment`.
pub open spec fn padded_row(unpadded: int, alignment: int) -> int {
    unpadded + (alignment - unpadded % alignment) % alignment
}

/// Whether a frame of `size` bytes is kept when `live` bytes are already held
/// under a budget of `max` bytes: the budget is checked against what was held
/// before the frame (as `bytes_after` models it), and a counter that would
/// overflow drops the frame too.
pub open spec fn keeps_frame(live: int, max: int, size: int) -> bool {
    live <= max && live + size <= usize::MAX
}

/// A frame waiting in the capture queue: well formed, and its image, if any,
/// still in the GPU buffer whose handle is the frame's number.
pub open spec fn queued_frame(f: VideoFrame) -> bool {
    &&& f.wf()
    &&& (f.image_data is None || f.image_data == Some(ImageData::Buffer(f.frame_number as u64)))
}

/// The capture state that the render thread owns.
pub struct InnerV {
    /// Size of the recording texture.
    pub width: usize,
    pub height: usize,
    pub format: Format,
    /// Whether the first pass of each frame clears the recording texture.
    pub has_clear_color: bool,
    pub cleared_this_frame: bool,
    /// Bytes of captured images that have not been released yet.
    pub buffer_size_in_bytes: usize,
    /// Frames captured or dropped and not yet delivered, oldest first.
    pub video_frames: Vec<VideoFrame>,
    /// Map state of the oldest frames, one per frame, in the same order.
    pub frame_states: Vec<FrameState>,
    /// Number of the most recent frame.
    pub frame_number: usize,
    /// Largest frame that was kept so far.
    pub largest_frame: Ghost<nat>,
}

/// Captures rendered frames within a memory budget and delivers them in the
/// order they were rendered, once their GPU buffers are mapped.
pub struct VideoRecorder {
    pub max_buffer_size_in_bytes: usize,
    /// Row alignment that the GPU backend demands of buffer copies.
    pub row_alignment: usize,
    pub inner: InnerV,
}

impl VideoRecorder {
    /// Number of the oldest frame still queued (one past the last one
    /// delivered when the queue is empty).
    pub open spec fn first_queued(&self) -> int {
        self.inner.frame_number - self.inner.video_frames@.len() + 1
    }

    /// Number of frames delivered so far.
    pub open spec fn delivered(&self) -> int {
        self.first_queued() - 1
    }

    pub open spec fn frames(&self) -> Seq<VideoFrame> {
        self.inner.video_frames@
    }

    pub open spec fn states(&self) -> Seq<FrameState> {
        self.inner.frame_states@
    }

    pub open spec fn wf(&self) -> bool {
        let q = self.frames();
        let s = self.states();
        &&& self.row_alignment > 0
        &&& q.len() <= self.inner.frame_number
        &&& s.len() <= q.len()
        &&& forall|i: int| 0 <= i < q.len() ==> #[trigger] q[i].frame_number == self.first_queued() + i
        &&& forall|i: int| 0 <= i < q.len() ==> queued_frame(#[trigger] q[i])
        &&& forall|i: int| 0 <= i < s.len() ==> ((#[trigger] s[i] == FrameState::Dropped) <==> q[i].image_data is None)
        &&& self.inner.buffer_size_in_bytes <= self.max_buffer_size_in_bytes + self.inner.largest_frame@
    }

    /// A recorder for a texture of the given size, with nothing captured yet.
    pub fn new(width: u32, height: u32, has_clear_color: bool, max_buffer_size_in_bytes: usize, row_alignment: usize) -> (r: VideoRecorder)
        requires
            row_alignment > 0,
        ensures
            r.wf(),
            r.inner.width == width && r.inner.height == height,
            r.inner.format == Format::RgbaU8,
            r.inner.has_clear_color == has_clear_color,
            !r.inner.cleared_this_frame,
            r.max_buffer_size_in_bytes == max_buffer_size_in_bytes,
            r.row_alignment == row_alignment,
            r.inner.buffer_size_in_bytes == 0,
            r.inner.frame_number == 0,
            r.frames().len() == 0,
            r.states().len() == 0,
    {
        VideoRecorder {
            max_buffer_size_in_bytes,
            row_alignment,
            inner: InnerV {
                width: width as usize,
                height: height as usize,
                format: Format::RgbaU8,
                has_clear_color,
                cleared_this_frame: false,
                buffer_size_in_bytes: 0,
                video_frames: Vec::new(),
                frame_states: Vec::new(),
                frame_number: 0,
                largest_frame: Ghost(0),
            },
        }
    }

    /// Whether the next color attachment clears the recording texture: only
    /// the first one of a frame does, and only when a clear color was given.
    pub fn clears_color_attachment(&mut self) -> (r: bool)
        ensures
            r == (old(self).inner.has_clear_color && !old(self).inner.cleared_this_frame),
            final(self).inner.cleared_this_frame == (old(self).inner.cleared_this_frame || r),
            final(self).inner.has_clear_color == old(self).inner.has_clear_color,
            final(self).inner.width == old(self).inner.width,
            final(self).inner.height == old(self).inner.height,
            final(self).inner.format == old(self).inner.format,
            final(self).inner.video_frames == old(self).inner.video_frames,
            final(self).inner.frame_states == old(self).inner.frame_states,
            final(self).inner.frame_number == old(self).inner.frame_number,
            final(self).inner.buffer_size_in_bytes == old(self).inner.buffer_size_in_bytes,
            final(self).inner.largest_frame == old(self).inner.largest_frame,
            final(self).max_buffer_size_in_bytes == old(self).max_buffer_size_in_bytes,
            final(self).row_alignment == old(self).row_alignment,
    {
        if self.inner.cleared_this_frame || !self.inner.has_clear_color {
            false
        } else {
            self.inner.cleared_this_frame = true;
            true
        }
    }

    /// Ends a frame: the next frame clears the texture again.
    pub fn finish_frame(&mut self)
        ensures
            !final(self).inner.cleared_this_frame,
            final(self).inner.has_clear_color == old(self).inner.has_clear_color,
            final(self).inner.width == old(self).inner.width,
            final(self).inner.height == old(self).inner.height,
            final(self).inner.format == old(self).inner.format,
            final(self).inner.video_frames == old(self).inner.video_frames,
            final(self).inner.frame_states == old(self).inner.frame_states,
            final(self).inner.frame_number == old(self).inner.frame_number,
            final(self).inner.buffer_size_in_bytes == old(self).inner.buffer_size_in_bytes,
            final(self).inner.largest_frame == old(self).inner.largest_frame,
            final(self).max_buffer_size_in_bytes == old(self).max_buffer_size_in_bytes,
            final(self).row_alignment == old(self).row_alignment,
    {
        self.inner.cleared_this_frame = false;
    }
}

/// Rounds a row of `unpadded_bytes_per_row` bytes up to the next multiple of
/// `alignment`.
pub fn padded_bytes_per_row(unpadded_bytes_per_row: usize, alignment: usize) -> (r: usize)
    requires
        alignment > 0,
        padded_row(unpadded_bytes_per_row as int, alignment as int) <= usize::MAX,
    ensures
        r == padded_row(unpadded_bytes_per_row as int, alignment as int),
        r % alignment == 0,
        unpadded_bytes_per_row <= r < unpadded_bytes_per_row + alignment,
{
    let row_padding = (alignment - unpadded_bytes_per_row % alignment) % alignment;
    proof {
        let u = unpadded_bytes_per_row as int;
        let a = alignment as int;
        assert((u + (a - u % a) % a) % a == 0) by (nonlinear_arith)
            requires a > 0;
    }
    unpadded_bytes_per_row + row_padding
}

/// Handles of the frames of `q` that hold a GPU buffer, in order.
pub open spec fn buffer_handles(q: Seq<VideoFrame>) -> Seq<u64>
    decreases q.len(),
{
    if q.len() == 0 {
        Seq::empty()
    } else {
        let rest = buffer_handles(q.drop_last());
        if q.last().image_data is Some {
            rest.push(q.last().frame_number as u64)
        } else {
            rest
        }
    }
}

impl VideoRecorder {
    /// Width and height of the next frame: the viewport's, where one is given,
    /// else the recording texture's.
    pub open spec fn frame_dims(&self, viewport_size: Option<(usize, usize)>) -> (usize, usize) {
        match viewport_size {
            Some(d) => d,
            None => (self.inner.width, self.inner.height),
        }
    }

    pub open spec fn unpadded_of(&self, viewport_size: Option<(usize, usize)>) -> int {
        self.frame_dims(viewport_size).0 * self.inner.format.spec_bytes_per_texel()
    }

    pub open spec fn padded_of(&self, viewport_size: Option<(usize, usize)>) -> int {
        padded_row(self.unpadded_of(viewport_size), self.row_alignment as int)
    }

    pub open spec fn size_of(&self, viewport_size: Option<(usize, usize)>) -> int {
        self.padded_of(viewport_size) * self.frame_dims(viewport_size).1
    }

    /// Reserves memory for the frame that was just rendered and queues it:
    /// captured, with a GPU buffer to copy it into, while the bytes already held
    /// are within the budget; dropped otherwise. Returns the handle of the buffer
    /// that the host is to create and copy the frame into, if any.
    pub fn create_buffer_if_within_memory_limit(&mut self, viewport_size: Option<(usize, usize)>) -> (r: Option<u64>)
        requires
            old(self).wf(),
            old(self).inner.frame_number < usize::MAX,
            old(self).unpadded_of(viewport_size) <= usize::MAX,
            old(self).padded_of(viewport_size) <= usize::MAX,
            old(self).size_of(viewport_size) <= usize::MAX,
        ensures
            final(self).wf(),
            ({
                let o = old(self);
                let n = o.inner.frame_number + 1;
                let size = o.size_of(viewport_size);
                let keep = keeps_frame(o.inner.buffer_size_in_bytes as int, o.max_buffer_size_in_bytes as int, size);
                let f = final(self).frames().last();
                &&& final(self).inner.frame_number == n
                &&& final(self).frames().drop_last() == o.frames()
                &&& final(self).frames().len() == o.frames().len() + 1
                &&& final(self).states() == o.states()
                &&& f.frame_number == n
                &&& f.width == o.frame_dims(viewport_size).0
                &&& f.height == o.frame_dims(viewport_size).1
                &&& f.format == o.inner.format
                &&& f.unpadded_bytes_per_row == o.unpadded_of(viewport_size)
                &&& f.padded_bytes_per_row == o.padded_of(viewport_size)
                &&& f.frame_size_in_bytes == size
                &&& keep ==> {
                    &&& f.status == FrameStatus::Captured
                    &&& f.image_data == Some(ImageData::Buffer(n as u64))
                    &&& r == Some(n as u64)
                    &&& final(self).inner.buffer_size_in_bytes == o.inner.buffer_size_in_bytes + size
                    &&& final(self).inner.buffer_size_in_bytes <= o.max_buffer_size_in_bytes + size
                }
                &&& !keep ==> {
                    &&& f.status == FrameStatus::Dropped
                    &&& f.image_data is None
                    &&& r is None
                    &&& final(self).inner.buffer_size_in_bytes == o.inner.buffer_size_in_bytes
                }
            }),
            final(self).max_buffer_size_in_bytes == old(self).max_buffer_size_in_bytes,
            final(self).row_alignment == old(self).row_alignment,
            final(self).inner.width == old(self).inner.width,
            final(self).inner.height == old(self).inner.height,
            final(self).inner.format == old(self).inner.format,
            final(self).inner.has_clear_color == old(self).inner.has_clear_color,
            final(self).inner.cleared_this_frame == old(self).inner.cleared_this_frame,
    {
        let (width, height) = match viewport_size {
            Some(d) => d,
            None => (self.inner.width, self.inner.height),
        };
        let format = self.inner.format;
        let unpadded_bytes_per_row = width * format.bytes_per_texel() as usize;
        let padded = padded_bytes_per_row(unpadded_bytes_per_row, self.row_alignment);
        let frame_size_in_bytes = padded * height;

        let prev_size = self.inner.buffer_size_in_bytes;
        let keep = prev_size <= self.max_buffer_size_in_bytes && frame_size_in_bytes <= usize::MAX - prev_size;

        // The frame number advances whether or not the frame is kept.
        self.inner.frame_number = self.inner.frame_number + 1;
        let frame_number = self.inner.frame_number;

        let (status, image_data, handle) = if keep {
            self.inner.buffer_size_in_bytes = prev_size + frame_size_in_bytes;
            let ghost lf = self.inner.largest_frame@;
            self.inner.largest_frame = Ghost(
                if frame_size_in_bytes as nat > lf { frame_size_in_bytes as nat } else { lf },
            );
            (FrameStatus::Captured, Some(ImageData::Buffer(frame_number as u64)), Some(frame_number as u64))
        } else {
            (FrameStatus::Dropped, None, None)
        };

        self.inner.video_frames.push(VideoFrame {
            status,
            image_data,
            width,
            height,
            format,
            unpadded_bytes_per_row,
            padded_bytes_per_row: padded,
            frame_number,
            frame_size_in_bytes,
        });
        proof {
            let q = self.frames();
            assert forall|i: int| 0 <= i < q.len() implies #[trigger] q[i].frame_number == self.first_queued() + i by {
                if i < q.len() - 1 {
                    assert(q[i] == old(self).frames()[i]);
                }
            }
            assert forall|i: int| 0 <= i < q.len() implies queued_frame(#[trigger] q[i]) by {
                if i < q.len() - 1 {
                    assert(q[i] == old(self).frames()[i]);
                }
            }
            assert(q.drop_last() =~= old(self).frames());
        }
        handle
    }
}

impl VideoRecorder {
    /// Gives each queued frame that has no map state yet one: a map request for
    /// a frame with a GPU buffer, a placeholder for a dropped frame, so that the
    /// states keep the order of the frames. Returns the handles of the buffers
    /// that the host is to start mapping, oldest first.
    pub fn initiate_buffer_mapping(&mut self) -> (r: Vec<u64>)
        requires
            old(self).wf(),
        ensures
            final(self).wf(),
            final(self).frames() == old(self).frames(),
            final(self).inner.frame_number == old(self).inner.frame_number,
            final(self).inner.buffer_size_in_bytes == old(self).inner.buffer_size_in_bytes,
            final(self).max_buffer_size_in_bytes == old(self).max_buffer_size_in_bytes,
            final(self).states().len() == final(self).frames().len(),
            final(self).states().subrange(0, old(self).states().len() as int) == old(self).states(),
            forall|i: int| old(self).states().len() <= i < final(self).states().len() ==>
                #[trigger] final(self).states()[i] == (if final(self).frames()[i].image_data is Some {
                    FrameState::Mapping
                } else {
                    FrameState::Dropped
                }),
            r@ == buffer_handles(old(self).frames().skip(old(self).states().len() as int)),
    {
        let ghost start = self.states().len() as int;
        let ghost q = self.frames();
        let mut handles: Vec<u64> = Vec::new();
        let mut i: usize = self.inner.frame_states.len();
        while i < self.inner.video_frames.len()
            invariant
                self.wf(),
                self.frames() == q,
                self.inner.frame_number == old(self).inner.frame_number,
                self.inner.buffer_size_in_bytes == old(self).inner.buffer_size_in_bytes,
                self.max_buffer_size_in_bytes == old(self).max_buffer_size_in_bytes,
                self.row_alignment == old(self).row_alignment,
                self.inner.largest_frame == old(self).inner.largest_frame,
                0 <= start <= i <= q.len(),
                self.states().len() == i,
                self.states().subrange(0, start) == old(self).states(),
                forall|j: int| start <= j < i ==>
                    #[trigger] self.states()[j] == (if q[j].image_data is Some {
                        FrameState::Mapping
                    } else {
                        FrameState::Dropped
                    }),
                handles@ == buffer_handles(q.subrange(start, i as int)),
            decreases q.len() - i,
        {
            let has_buffer = self.inner.video_frames[i].image_data.is_some();
            proof {
                let ii = i as int;
                assert(q.subrange(start, ii + 1).drop_last() =~= q.subrange(start, ii));
                assert(q.subrange(start, ii + 1).last() == q[ii]);
            }
            if has_buffer {
                handles.push(self.inner.video_frames[i].frame_number as u64);
                self.inner.frame_states.push(FrameState::Mapping);
            } else {
                self.inner.frame_states.push(FrameState::Dropped);
            }
            proof {
                assert(self.states().subrange(0, start) =~= old(self).states());
            }
            i = i + 1;
        }
        proof {
            assert(q.subrange(start, q.len() as int) =~= q.skip(start));
        }
        handles
    }

    /// Index of the queued frame whose buffer has handle `handle`.
    pub open spec fn index_of(&self, handle: u64) -> int {
        handle - self.first_queued()
    }

    /// Records that the map request for the buffer `handle` completed, with
    /// success or not. A handle with no outstanding request is ignored.
    pub fn map_completed(&mut self, handle: u64, ok: bool)
        requires
            old(self).wf(),
        ensures
            final(self).wf(),
            final(self).frames() == old(self).frames(),
            final(self).inner.frame_number == old(self).inner.frame_number,
            final(self).inner.buffer_size_in_bytes == old(self).inner.buffer_size_in_bytes,
            final(self).max_buffer_size_in_bytes == old(self).max_buffer_size_in_bytes,
            ({
                let i = old(self).index_of(handle);
                if 0 <= i < old(self).states().len() && old(self).states()[i] == FrameState::Mapping {
                    final(self).states() == old(self).states().update(
                        i,
                        if ok { FrameState::Mapped } else { FrameState::Failed },
                    )
                } else {
                    final(self).states() == old(self).states()
                }
            }),
    {
        let len = self.inner.video_frames.len();
        let first: u128 = self.inner.frame_number as u128 - len as u128 + 1;
        if (handle as u128) < first {
            return;
        }
        let d: u128 = handle as u128 - first;
        if d < (self.inner.frame_states.len() as u128) {
            let i = d as usize;
            if self.inner.frame_states[i] == FrameState::Mapping {
                let state = if ok { FrameState::Mapped } else { FrameState::Failed };
                self.inner.frame_states.set(i, state);
            }
        }
    }

    /// Gives back the reservation of a delivered frame once its consumer is
    /// done with it. Taking the frame by value releases it once; only a frame
    /// with an image holds a reservation, so a dropped or missing frame leaves
    /// the counter as it is. The counter never goes below zero.
    pub fn release_frame(&mut self, frame: VideoFrame)
        requires
            old(self).wf(),
        ensures
            final(self).wf(),
            final(self).inner.buffer_size_in_bytes == ({
                let held = old(self).inner.buffer_size_in_bytes as int;
                let size = if frame.image_data is Some { frame.frame_size_in_bytes as int } else { 0 };
                if size <= held { held - size } else { 0 }
            }),
            final(self).frames() == old(self).frames(),
            final(self).states() == old(self).states(),
            final(self).inner.frame_number == old(self).inner.frame_number,
            final(self).max_buffer_size_in_bytes == old(self).max_buffer_size_in_bytes,
    {
        let bytes = if frame.image_data.is_some() { frame.frame_size_in_bytes } else { 0 };
        if bytes <= self.inner.buffer_size_in_bytes {
            self.inner.buffer_size_in_bytes = self.inner.buffer_size_in_bytes - bytes;
        } else {
            self.inner.buffer_size_in_bytes = 0;
        }
    }
}

/// Whether the frame whose map state is `s` can be delivered.
pub open spec fn deliverable(s: FrameState) -> bool {
    s == FrameState::Dropped || s == FrameState::Mapped
}

/// Whether delivery in order would stop at a frame whose map failed: every
/// frame before it can be delivered.
pub open spec fn blocked_by_failure(s: Seq<FrameState>) -> bool {
    exists|k: int| 0 <= k < s.len() && s[k] == FrameState::Failed && forall|j: int| 0 <= j < k ==> deliverable(#[trigger] s[j])
}

impl VideoRecorder {
    /// Takes the longest run of deliverable frames from the front of the queue.
    fn deliver_ready(&mut self) -> (r: Vec<VideoFrame>)
        requires
            old(self).wf(),
        ensures
            final(self).wf(),
            final(self).inner.frame_number == old(self).inner.frame_number,
            final(self).inner.buffer_size_in_bytes == old(self).inner.buffer_size_in_bytes,
            final(self).max_buffer_size_in_bytes == old(self).max_buffer_size_in_bytes,
            ({
                let k = r@.len() as int;
                let s = old(self).states();
                &&& k <= s.len()
                &&& forall|i: int| 0 <= i < k ==> deliverable(#[trigger] s[i])
                &&& k == s.len() || !deliverable(s[k])
                &&& r@ == old(self).frames().take(k)
                &&& final(self).frames() == old(self).frames().skip(k)
                &&& final(self).states() == s.skip(k)
                &&& forall|i: int| 0 <= i < k ==> #[trigger] r@[i].frame_number == old(self).delivered() + 1 + i
                &&& final(self).delivered() == old(self).delivered() + k
            }),
    {
        let ghost q = self.frames();
        let ghost s = self.states();
        let mut out: Vec<VideoFrame> = Vec::new();
        while self.inner.frame_states.len() > 0 && (self.inner.frame_states[0] == FrameState::Dropped
            || self.inner.frame_states[0] == FrameState::Mapped)
            invariant
                self.wf(),
                s.len() <= q.len(),
                self.inner.frame_number == old(self).inner.frame_number,
                self.inner.buffer_size_in_bytes == old(self).inner.buffer_size_in_bytes,
                self.max_buffer_size_in_bytes == old(self).max_buffer_size_in_bytes,
                q == old(self).frames(),
                s == old(self).states(),
                out@.len() <= s.len(),
                forall|i: int| 0 <= i < out@.len() ==> deliverable(#[trigger] s[i]),
                out@ == q.take(out@.len() as int),
                self.frames() == q.skip(out@.len() as int),
                self.states() == s.skip(out@.len() as int),
            decreases self.inner.frame_states.len(),
        {
            let ghost k = out@.len() as int;
            let f = self.inner.video_frames.remove(0);
            self.inner.frame_states.remove(0);
            out.push(f);
            proof {
                assert(q.skip(k)[0] == q[k]);
                assert(q.skip(k).remove(0) =~= q.skip(k + 1));
                assert(s.skip(k).remove(0) =~= s.skip(k + 1));
                assert(out@ =~= q.take(k + 1));
                let nq = self.frames();
                assert forall|i: int| 0 <= i < nq.len() implies #[trigger] nq[i].frame_number == self.first_queued() + i by {
                    assert(nq[i] == q.skip(k)[i + 1]);
                }
                assert forall|i: int| 0 <= i < nq.len() implies queued_frame(#[trigger] nq[i]) by {
                    assert(nq[i] == q.skip(k)[i + 1]);
                }
                let ns = self.states();
                assert forall|i: int| 0 <= i < ns.len() implies ((#[trigger] ns[i] == FrameState::Dropped) <==> nq[i].image_data is None) by {
                    assert(ns[i] == s.skip(k)[i + 1]);
                    assert(nq[i] == q.skip(k)[i + 1]);
                }
            }
        }
        proof {
            let k = out@.len() as int;
            assert forall|i: int| 0 <= i < k implies #[trigger] out@[i].frame_number == old(self).delivered() + 1 + i by {
                assert(out@[i] == old(self).frames()[i]);
            }
            if k < s.len() {
                assert(self.states()[0] == s[k]);
                assert(self.frames()[0] == q[k]);
            }
        }
        out
    }

    /// The number of the frame whose failed map blocks delivery, if one does.
    /// A failed map is fatal: the host hands on the frames before it with
    /// `frames_before_failed_map` and aborts.
    pub fn map_failure(&self) -> (r: Option<usize>)
        requires
            self.wf(),
        ensures
            r is Some <==> blocked_by_failure(self.states()),
            r matches Some(n) ==> exists|k: int|
                0 <= k < self.states().len() && self.states()[k] == FrameState::Failed && (forall|j: int|
                    0 <= j < k ==> deliverable(#[trigger] self.states()[j])) && n == self.frames()[k].frame_number,
    {
        let mut k: usize = 0;
        while k < self.inner.frame_states.len() && (self.inner.frame_states[k] == FrameState::Dropped
            || self.inner.frame_states[k] == FrameState::Mapped)
            invariant
                k <= self.states().len(),
                forall|j: int| 0 <= j < k ==> deliverable(#[trigger] self.states()[j]),
            decreases self.states().len() - k,
        {
            k = k + 1;
        }
        if k < self.inner.frame_states.len() && self.inner.frame_states[k] == FrameState::Failed {
            Some(self.inner.video_frames[k].frame_number)
        } else {
            proof {
                if blocked_by_failure(self.states()) {
                    let k2 = choose|k2: int| 0 <= k2 < self.states().len() && self.states()[k2] == FrameState::Failed
                        && forall|j: int| 0 <= j < k2 ==> deliverable(#[trigger] self.states()[j]);
                    if k2 < k {
                        assert(deliverable(self.states()[k2]));
                    } else if k2 > k {
                        assert(deliverable(self.states()[k as int]));
                    }
                }
            }
            None
        }
    }

    /// Delivers queued frames strictly in the order they were rendered: the
    /// oldest frame goes out when it was dropped or its buffer is mapped, and
    /// delivery stops at the first frame still waiting for its map, even where
    /// later buffers are mapped already. A failed map is left out: it is fatal.
    pub fn process_mapped_buffers(&mut self) -> (r: Vec<VideoFrame>)
        requires
            old(self).wf(),
            !blocked_by_failure(old(self).states()),
        ensures
            final(self).wf(),
            final(self).inner.frame_number == old(self).inner.frame_number,
            final(self).inner.buffer_size_in_bytes == old(self).inner.buffer_size_in_bytes,
            final(self).max_buffer_size_in_bytes == old(self).max_buffer_size_in_bytes,
            ({
                let k = r@.len() as int;
                let s = old(self).states();
                &&& k <= s.len()
                &&& forall|i: int| 0 <= i < k ==> deliverable(#[trigger] s[i])
                &&& k == s.len() || s[k] == FrameState::Mapping
                &&& r@ == old(self).frames().take(k)
                &&& final(self).frames() == old(self).frames().skip(k)
                &&& final(self).states() == s.skip(k)
                &&& forall|i: int| 0 <= i < k ==> #[trigger] r@[i].frame_number == old(self).delivered() + 1 + i
                &&& final(self).delivered() == old(self).delivered() + k
            }),
    {
        let r = self.deliver_ready();
        proof {
            let k = r@.len() as int;
            let s = old(self).states();
            if k < s.len() && s[k] == FrameState::Failed {
                assert(blocked_by_failure(s));
            }
        }
        r
    }

    /// Where a failed map blocks delivery: delivers, in order, the frames
    /// before the failed one and returns them with the failed frame's number.
    /// The host hands the frames on and then aborts.
    pub fn frames_before_failed_map(&mut self) -> (r: (Vec<VideoFrame>, usize))
        requires
            old(self).wf(),
            blocked_by_failure(old(self).states()),
        ensures
            final(self).wf(),
            final(self).inner.frame_number == old(self).inner.frame_number,
            final(self).inner.buffer_size_in_bytes == old(self).inner.buffer_size_in_bytes,
            final(self).max_buffer_size_in_bytes == old(self).max_buffer_size_in_bytes,
            ({
                let k = r.0@.len() as int;
                let s = old(self).states();
                &&& k < s.len()
                &&& forall|i: int| 0 <= i < k ==> deliverable(#[trigger] s[i])
                &&& s[k] == FrameState::Failed
                &&& r.1 == old(self).frames()[k].frame_number
                &&& r.0@ == old(self).frames().take(k)
                &&& final(self).frames() == old(self).frames().skip(k)
                &&& final(self).states() == s.skip(k)
                &&& forall|i: int| 0 <= i < k ==> #[trigger] r.0@[i].frame_number == old(self).delivered() + 1 + i
            }),
    {
        let frames = self.deliver_ready();
        proof {
            let k = frames@.len() as int;
            let s = old(self).states();
            let k2 = choose|k2: int| 0 <= k2 < s.len() && s[k2] == FrameState::Failed
                && forall|j: int| 0 <= j < k2 ==> deliverable(#[trigger] s[j]);
            if k2 < k {
                assert(deliverable(s[k2]));
            } else if k2 > k {
                assert(deliverable(s[k]));
            }
            assert(self.states()[0] == s[k]);
            assert(self.frames()[0] == old(self).frames()[k]);
        }
        let failed = self.inner.video_frames[0].frame_number;
        (frames, failed)
    }
}

/// Under a budget of `max_buffer_size_in_bytes`, the bytes that captured
/// frames hold never exceed the budget by more than the size of one frame
/// that was kept: a frame is only kept while the bytes held before it are
/// within the budget, and every frame that would start beyond it is dropped.
pub proof fn lemma_budget_overshoot_is_one_frame(r: &VideoRecorder)
    requires
        r.wf(),
    ensures
        r.inner.buffer_size_in_bytes <= r.max_buffer_size_in_bytes + r.inner.largest_frame@,
{
}

/// The bytes held after a sequence of events, from `live` bytes under a budget
/// of `max`: `(true, n)` renders a frame of `n` bytes, kept (and added) only
/// while the bytes held are within the budget; `(false, n)` releases `n` bytes.
pub open spec fn bytes_after(max: int, live: int, events: Seq<(bool, int)>) -> int
    decreases events.len(),
{
    if events.len() == 0 {
        live
    } else {
        let held = bytes_after(max, live, events.drop_last());
        let (render, n) = events.last();
        if render {
            if held <= max { held + n } else { held }
        } else if n <= held {
            held - n
        } else {
            0
        }
    }
}

/// The largest frame rendered in a sequence of events.
pub open spec fn largest_rendered(events: Seq<(bool, int)>) -> int
    decreases events.len(),
{
    if events.len() == 0 {
        0
    } else {
        let rest = largest_rendered(events.drop_last());
        let (render, n) = events.last();
        if render && n > rest { n } else { rest }
    }
}

/// For any sequence of renders and releases under a budget of `max` bytes,
/// starting from nothing held, the bytes held never exceed the budget by more
/// than the size of one frame: a frame is added only while what is held is
/// within the budget, and a frame rendered beyond it is dropped, adding nothing.
pub proof fn lemma_budget_sequence(max: int, events: Seq<(bool, int)>)
    requires
        max >= 0,
        forall|i: int| 0 <= i < events.len() ==> (#[trigger] events[i]).1 >= 0,
    ensures
        0 <= bytes_after(max, 0, events) <= max + largest_rendered(events),
    decreases events.len(),
{
    if events.len() > 0 {
        let rest = events.drop_last();
        assert forall|i: int| 0 <= i < rest.len() implies (#[trigger] rest[i]).1 >= 0 by {
            assert(rest[i] == events[i]);
        }
        lemma_budget_sequence(max, rest);
        assert(events.last().1 >= 0);
    }
}

} // verus!
