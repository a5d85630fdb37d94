use vstd::prelude::*;
use crate::video_frame::{missing_frame, VideoFrame};

verus! {

/// Whether some frame of `s` has number `n`.
pub open spec fn has_number(s: Seq<VideoFrame>, n: int) -> bool {
    exists|j: int| 0 <= j < s.len() && (#[trigger] s[j]).frame_number == n
}

/// Whether `f` is one of the frames of `s`.
pub open spec fn one_of(s: Seq<VideoFrame>, f: VideoFrame) -> bool {
    exists|j: int| 0 <= j < s.len() && #[trigger] s[j] == f
}

/// Reassembles frames from several shard readers into one stream ordered by
/// frame number (a k-way merge). The host pulls records from the reader that
/// `next_reader` names and hands them to `receive`, then calls `end_round` to
/// take the frames that are ready.
pub struct FrameMerger {
    /// Frames pulled and not yet emitted, by frame number, smallest first.
    pub pending: Vec<VideoFrame>,
    /// Number of the next frame to emit; one past the largest `usize` once a
    /// frame of that number was emitted.
    pub expected_frame: u128,
    /// Which readers may still yield records.
    pub open: Vec<bool>,
    /// The reader that this round pulls from, or past which it looks for one.
    pub cursor: usize,
}

impl FrameMerger {
    pub open spec fn wf(&self) -> bool {
        let p = self.pending@;
        &&& 1 <= self.expected_frame <= usize::MAX + 1
        &&& self.cursor <= self.open@.len()
        &&& forall|i: int, j: int| 0 <= i < j < p.len() ==> (#[trigger] p[i]).frame_number <= (#[trigger] p[j]).frame_number
        &&& forall|i: int| 0 <= i < p.len() ==> self.expected_frame <= (#[trigger] p[i]).frame_number
    }

    /// Whether some reader may still yield records.
    pub open spec fn any_open(&self) -> bool {
        exists|i: int| 0 <= i < self.open@.len() && #[trigger] self.open@[i]
    }

    /// A merger of `readers` shard readers, none of them pulled yet.
    pub fn new(readers: usize) -> (r: FrameMerger)
        ensures
            r.wf(),
            r.pending@.len() == 0,
            r.expected_frame == 1,
            r.cursor == 0,
            r.open@ == Seq::new(readers as nat, |i: int| true),
    {
        let mut open: Vec<bool> = Vec::new();
        let mut i: usize = 0;
        while i < readers
            invariant
                i <= readers,
                open@ == Seq::new(i as nat, |k: int| true),
            decreases readers - i,
        {
            open.push(true);
            assert(open@ =~= Seq::new((i + 1) as nat, |k: int| true));
            i = i + 1;
        }
        FrameMerger { pending: Vec::new(), expected_frame: 1, open, cursor: 0 }
    }

    /// The reader to pull from next in this round: the first open one from the
    /// cursor on. `None` when the round has pulled from every open reader.
    pub fn next_reader(&self) -> (r: Option<usize>)
        requires
            self.wf(),
        ensures
            match r {
                Some(i) => {
                    &&& self.cursor <= i < self.open@.len()
                    &&& self.open@[i as int]
                    &&& forall|j: int| self.cursor <= j < i ==> !self.open@[j]
                },
                None => forall|j: int| self.cursor <= j < self.open@.len() ==> !self.open@[j],
            },
    {
        let mut i = self.cursor;
        while i < self.open.len()
            invariant
                self.cursor <= i <= self.open@.len(),
                forall|j: int| self.cursor <= j < i ==> !self.open@[j],
            decreases self.open@.len() - i,
        {
            if self.open[i] {
                return Some(i);
            }
            i = i + 1;
        }
        None
    }

    /// Takes what reader `reader` yielded: `None` when it has no more records,
    /// which retires it. A record is kept unless its number was emitted already.
    /// The round
    /// goes on with the same reader until it yields a frame with an image, so
    /// that a long run of dropped frames in one shard is taken in one go.
    pub fn receive(&mut self, reader: usize, record: Option<VideoFrame>)
        requires
            old(self).wf(),
            reader < old(self).open@.len(),
        ensures
            final(self).wf(),
            final(self).expected_frame == old(self).expected_frame,
            match record {
                None => {
                    &&& final(self).open@ == old(self).open@.update(reader as int, false)
                    &&& final(self).cursor == reader + 1
                    &&& final(self).pending@ == old(self).pending@
                },
                Some(f) => {
                    let kept = f.frame_number >= old(self).expected_frame;
                    &&& final(self).open@ == old(self).open@
                    &&& final(self).cursor == if f.image_data is Some { reader + 1 } else { reader as int }
                    &&& kept ==> exists|p: int| 0 <= p <= old(self).pending@.len() && final(self).pending@ == old(self).pending@.insert(p, f)
                    &&& !kept ==> final(self).pending@ == old(self).pending@
                },
            },
    {
        let readers = self.open.len();
        assert(reader + 1 <= readers);
        match record {
            None => {
                self.open.set(reader, false);
                self.cursor = reader + 1;
            },
            Some(f) => {
                let has_image = f.image_data.is_some();
                if f.frame_number as u128 >= self.expected_frame {
                    let mut p: usize = 0;
                    while p < self.pending.len() && self.pending[p].frame_number <= f.frame_number
                        invariant
                            p <= self.pending@.len(),
                            forall|j: int| 0 <= j < p ==> (#[trigger] self.pending@[j]).frame_number <= f.frame_number,
                        decreases self.pending@.len() - p,
                    {
                        p = p + 1;
                    }
                    let ghost before = self.pending@;
                    self.pending.insert(p, f);
                    proof {
                        let q = self.pending@;
                        assert(q == before.insert(p as int, f));
                        assert forall|i: int, j: int| 0 <= i < j < q.len() implies (#[trigger] q[i]).frame_number <= (#[trigger] q[j]).frame_number by {
                            if j < p {
                            } else if j == p {
                            } else if i < p {
                                assert(q[j] == before[j - 1]);
                                if p < before.len() {
                                    assert(before[i].frame_number <= before[p as int].frame_number);
                                }
                            } else if i == p {
                                assert(q[j] == before[j - 1]);
                                assert(before[p as int].frame_number > f.frame_number || p == j - 1);
                                if j - 1 > p {
                                    assert(before[p as int].frame_number <= before[j - 1].frame_number);
                                }
                            } else {
                                assert(q[i] == before[i - 1]);
                                assert(q[j] == before[j - 1]);
                            }
                        }
                    }
                }
                self.cursor = if has_image { reader + 1 } else { reader };
            },
        }
    }
}

impl FrameMerger {
    /// Whether every reader is retired and every frame pulled was emitted.
    pub fn is_finished(&self) -> (r: bool)
        ensures
            r == (!self.any_open() && self.pending@.len() == 0),
    {
        if self.pending.len() > 0 {
            return false;
        }
        let mut i: usize = 0;
        while i < self.open.len()
            invariant
                i <= self.open@.len(),
                forall|j: int| 0 <= j < i ==> !self.open@[j],
            decreases self.open@.len() - i,
        {
            if self.open[i] {
                return false;
            }
            i = i + 1;
        }
        true
    }

    /// Ends a round of pulling and emits, in order, the frames from the next
    /// expected number on that are pending without a gap; a second frame with
    /// a number already emitted is discarded. Where no frame was ready but some
    /// are pending, the ones before the smallest pending number are missing
    /// from every shard: a placeholder is emitted for each of them. The next
    /// round starts again from the first reader.
    #[verifier::rlimit(40)]
    pub fn end_round(&mut self) -> (r: Vec<VideoFrame>)
        requires
            old(self).wf(),
        ensures
            final(self).wf(),
            final(self).cursor == 0,
            final(self).open == old(self).open,
            ({
                let p0 = old(self).pending@;
                let e0 = old(self).expected_frame as int;
                let out = r@;
                let gone = p0.len() - final(self).pending@.len();
                &&& final(self).expected_frame == e0 + out.len()
                &&& forall|i: int| 0 <= i < out.len() ==> (#[trigger] out[i]).frame_number == e0 + i
                &&& forall|i: int| 0 <= i < out.len() ==> (one_of(p0, #[trigger] out[i]) || out[i] == missing_frame(
                    (e0 + i) as usize,
                ))
                &&& forall|i: int| 0 <= i < out.len() ==> (has_number(p0, e0 + i) <==> one_of(p0, #[trigger] out[i]))
                &&& 0 <= gone <= p0.len()
                &&& final(self).pending@ == p0.skip(gone)
                &&& forall|j: int| 0 <= j < gone ==> (#[trigger] p0[j]).frame_number < final(self).expected_frame
                &&& p0.len() > 0 ==> out.len() > 0
                &&& p0.len() == 0 ==> out.len() == 0
                &&& out.len() > 0 && one_of(p0, out[0]) ==> forall|i: int| 0 <= i < out.len() ==> one_of(p0, #[trigger] out[i])
                &&& out.len() > 0 && !one_of(p0, out[0]) ==> gone == 0
            }),
    {
        self.cursor = 0;
        let ghost p0 = self.pending@;
        let ghost e0 = self.expected_frame as int;
        let mut out: Vec<VideoFrame> = Vec::new();
        let ghost mut m: int = 0;
        while self.pending.len() > 0 && self.pending[0].frame_number as u128 <= self.expected_frame
            invariant
                0 <= m <= p0.len(),
                out@.len() <= m,
                self.pending@ == p0.skip(m),
                self.cursor == 0,
                self.open == old(self).open,
                self.expected_frame == e0 + out@.len(),
                1 <= e0 <= usize::MAX + 1,
                forall|i: int, j: int| 0 <= i < j < p0.len() ==> (#[trigger] p0[i]).frame_number <= (#[trigger] p0[j]).frame_number,
                forall|i: int| 0 <= i < p0.len() ==> e0 <= (#[trigger] p0[i]).frame_number,
                forall|j: int| 0 <= j < m ==> (#[trigger] p0[j]).frame_number < self.expected_frame,
                forall|i: int| 0 <= i < out@.len() ==> (#[trigger] out@[i]).frame_number == e0 + i,
                forall|i: int| 0 <= i < out@.len() ==> one_of(p0, #[trigger] out@[i]),
                m > 0 ==> p0[m - 1].frame_number == self.expected_frame - 1,
            decreases self.pending@.len(),
        {
            let f = self.pending.remove(0);
            proof {
                assert(f == p0[m]);
                assert(p0.skip(m).remove(0) =~= p0.skip(m + 1));
            }
            if f.frame_number as u128 == self.expected_frame {
                out.push(f);
                self.expected_frame = self.expected_frame + 1;
            } else {
                proof {
                    assert(m > 0);
                    assert(p0[m - 1].frame_number <= p0[m].frame_number);
                }
            }
            proof {
                m = m + 1;
            }
        }
        if out.len() == 0 && self.pending.len() > 0 {
            let next = self.pending[0].frame_number as u128;
            proof {
                assert(m == 0);
                assert(next == p0[0].frame_number);
            }
            while self.expected_frame < next
                invariant
                    self.pending@ == p0,
                    self.cursor == 0,
                    self.open == old(self).open,
                    p0.len() > 0,
                    next == p0[0].frame_number,
                    e0 <= self.expected_frame <= next,
                    self.expected_frame == e0 + out@.len(),
                    forall|i: int| 0 <= i < out@.len() ==> #[trigger] out@[i] == missing_frame((e0 + i) as usize),
                decreases next - self.expected_frame,
            {
                out.push(VideoFrame::missing(self.expected_frame as usize));
                self.expected_frame = self.expected_frame + 1;
            }
            proof {
                assert forall|i: int| 0 <= i < out@.len() implies (has_number(p0, e0 + i) <==> one_of(p0, #[trigger] out@[i])) by {
                    if has_number(p0, e0 + i) {
                        let j = choose|j: int| 0 <= j < p0.len() && (#[trigger] p0[j]).frame_number == e0 + i;
                        assert(p0[0].frame_number <= p0[j].frame_number);
                    }
                    if one_of(p0, out@[i]) {
                        let j = choose|j: int| 0 <= j < p0.len() && #[trigger] p0[j] == out@[i];
                        assert(p0[0].frame_number <= p0[j].frame_number);
                    }
                }
            }
        } else {
            proof {
                assert forall|i: int| 0 <= i < out@.len() implies (has_number(p0, e0 + i) <==> one_of(p0, #[trigger] out@[i])) by {
                    let j = choose|j: int| 0 <= j < p0.len() && #[trigger] p0[j] == out@[i];
                    assert(p0[j].frame_number == e0 + i);
                }
            }
        }
        proof {
            let q = self.pending@;
            assert forall|i: int| 0 <= i < q.len() implies self.expected_frame <= (#[trigger] q[i]).frame_number by {
                assert(q[i] == p0[m + i]);
                assert(p0[m].frame_number <= p0[m + i].frame_number);
            }
            assert forall|i: int, j: int| 0 <= i < j < q.len() implies (#[trigger] q[i]).frame_number <= (#[trigger] q[j]).frame_number by {
                assert(q[i] == p0[m + i]);
                assert(q[j] == p0[m + j]);
            }
        }
        out
    }
}

} // verus!
