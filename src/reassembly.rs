use vstd::prelude::*;
use crate::merger::{has_number, one_of, FrameMerger};
use crate::video_frame::{missing_frame, VideoFrame};

verus! {

pub open spec fn valid_at(s: Seq<Seq<VideoFrame>>, i: int, k: int) -> bool {
    0 <= i < s.len() && 0 <= k < s[i].len()
}

/// Frames as the compression workers write them: each shard's frames ascend
/// by number, no number occurs twice over all the shards, and every number is
/// at least 1.
pub open spec fn well_numbered(s: Seq<Seq<VideoFrame>>) -> bool {
    &&& forall|i: int, k1: int, k2: int|
        0 <= i < s.len() && 0 <= k1 < k2 < s[i].len() ==> (#[trigger] s[i][k1]).frame_number
            < (#[trigger] s[i][k2]).frame_number
    &&& forall|i1: int, k1: int, i2: int, k2: int|
        valid_at(s, i1, k1) && valid_at(s, i2, k2) && (#[trigger] s[i1][k1]).frame_number
            == (#[trigger] s[i2][k2]).frame_number ==> i1 == i2 && k1 == k2
    &&& forall|i: int, k: int| valid_at(s, i, k) ==> 1 <= (#[trigger] s[i][k]).frame_number
}

/// Whether some shard holds frame `n`.
pub open spec fn present(s: Seq<Seq<VideoFrame>>, n: int) -> bool {
    exists|i: int, k: int| valid_at(s, i, k) && (#[trigger] s[i][k]).frame_number == n
}

/// Whether `f` is one of the frames of the shards.
pub open spec fn in_shards(s: Seq<Seq<VideoFrame>>, f: VideoFrame) -> bool {
    exists|i: int, k: int| valid_at(s, i, k) && #[trigger] s[i][k] == f
}

/// `out` is the stream that the shards `s` reassemble to: frame `n` stands at
/// position `n - 1`, taken from the shard that holds it, or a placeholder where
/// no shard does, up to the largest number that the shards hold.
pub open spec fn reassembled(s: Seq<Seq<VideoFrame>>, out: Seq<VideoFrame>) -> bool {
    &&& forall|m: int| 0 <= m < out.len() ==> (#[trigger] out[m]).frame_number == m + 1
    &&& forall|m: int| 0 <= m < out.len() ==> (present(s, m + 1) ==> in_shards(s, #[trigger] out[m]))
    &&& forall|m: int| 0 <= m < out.len() ==> (!present(s, m + 1) ==> #[trigger] out[m] == missing_frame((m + 1) as usize))
    &&& forall|i: int, k: int| valid_at(s, i, k) ==> (#[trigger] s[i][k]).frame_number <= out.len()
    &&& out.len() > 0 ==> present(s, out.len() as int)
}

pub open spec fn shard_views(v: Seq<Vec<VideoFrame>>) -> Seq<Seq<VideoFrame>> {
    v.map_values(|x: Vec<VideoFrame>| x@)
}

pub open spec fn total_len(v: Seq<Vec<VideoFrame>>) -> nat
    decreases v.len(),
{
    if v.len() == 0 {
        0
    } else {
        total_len(v.drop_last()) + v.last()@.len()
    }
}

proof fn lemma_total_len_update(v: Seq<Vec<VideoFrame>>, i: int, x: Vec<VideoFrame>)
    requires
        0 <= i < v.len(),
    ensures
        total_len(v.update(i, x)) == total_len(v) - v[i]@.len() + x@.len(),
    decreases v.len(),
{
    if i < v.len() - 1 {
        assert(v.update(i, x).drop_last() =~= v.drop_last().update(i, x));
        lemma_total_len_update(v.drop_last(), i, x);
    } else {
        assert(v.update(i, x).drop_last() =~= v.drop_last());
    }
}

pub open spec fn count_open(v: Seq<bool>) -> nat
    decreases v.len(),
{
    if v.len() == 0 {
        0
    } else {
        count_open(v.drop_last()) + if v.last() { 1nat } else { 0nat }
    }
}

proof fn lemma_count_open_close(v: Seq<bool>, i: int)
    requires
        0 <= i < v.len(),
        v[i],
    ensures
        count_open(v.update(i, false)) + 1 == count_open(v),
    decreases v.len(),
{
    if i < v.len() - 1 {
        assert(v.update(i, false).drop_last() =~= v.drop_last().update(i, false));
        lemma_count_open_close(v.drop_last(), i);
    } else {
        assert(v.update(i, false).drop_last() =~= v.drop_last());
    }
}

/// Every frame pulled from the shards (those before `pos`) with a number from
/// `e` on is pending.
pub open spec fn pulled_kept(s: Seq<Seq<VideoFrame>>, pos: Seq<int>, p: Seq<VideoFrame>, e: int) -> bool {
    forall|i: int, k: int|
        valid_at(s, i, k) && k < pos[i] && (#[trigger] s[i][k]).frame_number >= e ==> one_of(p, s[i][k])
}

/// Every pending frame was pulled from a shard.
pub open spec fn pending_pulled(s: Seq<Seq<VideoFrame>>, pos: Seq<int>, p: Seq<VideoFrame>) -> bool {
    forall|j: int| 0 <= j < p.len() ==> exists|i: int, k: int| valid_at(s, i, k) && k < pos[i] && s[i][k] == #[trigger] p[j]
}

/// Every frame of the shards numbered below `e` was pulled.
pub open spec fn emitted_pulled(s: Seq<Seq<VideoFrame>>, pos: Seq<int>, e: int) -> bool {
    forall|i: int, k: int| valid_at(s, i, k) && (#[trigger] s[i][k]).frame_number < e ==> k < pos[i]
}

/// The stream so far is right for every number it reached.
pub open spec fn out_correct(s: Seq<Seq<VideoFrame>>, out: Seq<VideoFrame>) -> bool {
    &&& forall|m: int| 0 <= m < out.len() ==> (#[trigger] out[m]).frame_number == m + 1
    &&& forall|m: int| 0 <= m < out.len() ==> (present(s, m + 1) ==> in_shards(s, #[trigger] out[m]))
    &&& forall|m: int| 0 <= m < out.len() ==> (!present(s, m + 1) ==> #[trigger] out[m] == missing_frame((m + 1) as usize))
}

/// The stream so far ends on a frame of the shards, or more frames are pending.
pub open spec fn tail_ok(s: Seq<Seq<VideoFrame>>, out: Seq<VideoFrame>, p: Seq<VideoFrame>) -> bool {
    out.len() > 0 ==> present(s, out.len() as int) || p.len() > 0
}

pub open spec fn sorted_from(p: Seq<VideoFrame>, e: int) -> bool {
    &&& forall|i: int, j: int| 0 <= i < j < p.len() ==> (#[trigger] p[i]).frame_number <= (#[trigger] p[j]).frame_number
    &&& forall|i: int| 0 <= i < p.len() ==> e <= (#[trigger] p[i]).frame_number
}

/// At the end of a round in which every shard not yet exhausted was pulled
/// from, a frame that some shard holds and that was not emitted yet has a
/// pending frame at or before it.
proof fn lemma_round_end(
    s: Seq<Seq<VideoFrame>>,
    pos: Seq<int>,
    pos0: Seq<int>,
    p: Seq<VideoFrame>,
    e: int,
    n: int,
)
    requires
        well_numbered(s),
        pos.len() == s.len(),
        pos0.len() == s.len(),
        forall|i: int| 0 <= i < s.len() ==> 0 <= #[trigger] pos0[i] <= pos[i] <= s[i].len(),
        forall|i: int| 0 <= i < s.len() ==> #[trigger] pos[i] > pos0[i] || pos[i] == s[i].len(),
        pulled_kept(s, pos, p, e),
        emitted_pulled(s, pos0, e),
        e <= n,
        present(s, n),
    ensures
        exists|j: int| 0 <= j < p.len() && (#[trigger] p[j]).frame_number <= n,
{
    let (i, k) = choose|i: int, k: int| valid_at(s, i, k) && (#[trigger] s[i][k]).frame_number == n;
    if k < pos[i] {
        assert(one_of(p, s[i][k]));
        let j = choose|j: int| 0 <= j < p.len() && #[trigger] p[j] == s[i][k];
        assert(p[j].frame_number <= n);
    } else {
        assert(pos[i] > pos0[i]);
        let kk = pos[i] - 1;
        assert(valid_at(s, i, kk));
        if s[i][kk].frame_number < e {
            assert(kk < pos0[i]);
        }
        assert(one_of(p, s[i][kk]));
        let j = choose|j: int| 0 <= j < p.len() && #[trigger] p[j] == s[i][kk];
        assert(s[i][kk].frame_number < s[i][k].frame_number);
        assert(p[j].frame_number <= n);
    }
}

/// Positions after a round in which every shard not yet exhausted was pulled
/// from at least once.
pub open spec fn round_ended(s: Seq<Seq<VideoFrame>>, pos: Seq<int>, pos0: Seq<int>) -> bool {
    &&& pos.len() == s.len()
    &&& pos0.len() == s.len()
    &&& forall|i: int| 0 <= i < s.len() ==> 0 <= #[trigger] pos0[i] <= pos[i] <= s[i].len()
    &&& forall|i: int| 0 <= i < s.len() ==> #[trigger] pos[i] > pos0[i] || pos[i] == s[i].len()
}

/// What `end_round` ensures of the frames it emits.
pub open spec fn round_emission(p0: Seq<VideoFrame>, e: int, emitted: Seq<VideoFrame>, p1: Seq<VideoFrame>, e1: int) -> bool {
    &&& e1 == e + emitted.len()
    &&& forall|i: int| 0 <= i < emitted.len() ==> (#[trigger] emitted[i]).frame_number == e + i
    &&& forall|i: int| 0 <= i < emitted.len() ==> (one_of(p0, #[trigger] emitted[i]) || emitted[i] == missing_frame(
        (e + i) as usize,
    ))
    &&& 0 <= p0.len() - p1.len() <= p0.len()
    &&& p1 == p0.skip(p0.len() - p1.len())
    &&& forall|j: int| 0 <= j < p0.len() - p1.len() ==> (#[trigger] p0[j]).frame_number < e1
    &&& emitted.len() > 0 && one_of(p0, emitted[0]) ==> forall|i: int| 0 <= i < emitted.len() ==> one_of(p0, #[trigger] emitted[i])
    &&& emitted.len() > 0 && !one_of(p0, emitted[0]) ==> p0.len() - p1.len() == 0
    &&& p0.len() > 0 ==> emitted.len() > 0
    &&& p0.len() == 0 ==> emitted.len() == 0
}

proof fn lemma_after_round_pending(
    s: Seq<Seq<VideoFrame>>,
    pos: Seq<int>,
    p0: Seq<VideoFrame>,
    e: int,
    emitted: Seq<VideoFrame>,
    p1: Seq<VideoFrame>,
    e1: int,
)
    requires
        pos.len() == s.len(),
        pulled_kept(s, pos, p0, e),
        pending_pulled(s, pos, p0),
        e <= e1,
        round_emission(p0, e, emitted, p1, e1),
    ensures
        pulled_kept(s, pos, p1, e1),
        pending_pulled(s, pos, p1),
{
    let gone = p0.len() - p1.len();
    assert forall|j: int| 0 <= j < p1.len() implies exists|i: int, k: int|
        valid_at(s, i, k) && k < pos[i] && s[i][k] == #[trigger] p1[j] by {
        assert(p1[j] == p0[gone + j]);
        let (i, k) = choose|i: int, k: int| valid_at(s, i, k) && k < pos[i] && s[i][k] == #[trigger] p0[gone + j];
        assert(valid_at(s, i, k) && k < pos[i] && s[i][k] == p1[j]);
    }
    assert forall|i: int, k: int|
        valid_at(s, i, k) && k < pos[i] && (#[trigger] s[i][k]).frame_number >= e1 implies one_of(p1, s[i][k]) by {
        assert(one_of(p0, s[i][k]));
        let j = choose|j: int| 0 <= j < p0.len() && #[trigger] p0[j] == s[i][k];
        assert(j >= gone);
        assert(p1[j - gone] == p0[j]);
    }
}

/// A frame emitted in a round is the shards' frame of its number where they
/// hold one, and a placeholder where they do not.
proof fn lemma_emitted_frame(
    s: Seq<Seq<VideoFrame>>,
    pos: Seq<int>,
    pos0: Seq<int>,
    p0: Seq<VideoFrame>,
    e: int,
    emitted: Seq<VideoFrame>,
    p1: Seq<VideoFrame>,
    e1: int,
    m: int,
)
    requires
        well_numbered(s),
        round_ended(s, pos, pos0),
        pulled_kept(s, pos, p0, e),
        pending_pulled(s, pos, p0),
        emitted_pulled(s, pos0, e),
        sorted_from(p1, e1),
        round_emission(p0, e, emitted, p1, e1),
        0 <= m < emitted.len(),
    ensures
        present(s, e + m) ==> in_shards(s, emitted[m]),
        !present(s, e + m) ==> emitted[m] == missing_frame((e + m) as usize),
        one_of(p0, emitted[m]) ==> present(s, e + m),
        present(s, e + m) ==> one_of(p0, emitted[m]),
{
    if one_of(p0, emitted[m]) {
        let j = choose|j: int| 0 <= j < p0.len() && #[trigger] p0[j] == emitted[m];
        let (i, k) = choose|i: int, k: int| valid_at(s, i, k) && k < pos[i] && s[i][k] == #[trigger] p0[j];
        assert(s[i][k].frame_number == e + m);
        assert(in_shards(s, emitted[m]));
        assert(present(s, e + m));
    } else {
        assert(emitted[m] == missing_frame((e + m) as usize));
        assert(!one_of(p0, emitted[0])) by {
            if one_of(p0, emitted[0]) {
                assert(one_of(p0, emitted[m]));
            }
        }
        if present(s, e + m) {
            lemma_round_end(s, pos, pos0, p0, e, e + m);
            let j = choose|j: int| 0 <= j < p0.len() && (#[trigger] p0[j]).frame_number <= e + m;
            assert(p1[j] == p0[j]);
        }
    }
}

/// What a round's emission keeps true of the stream and the pending frames.
proof fn lemma_after_round(
    s: Seq<Seq<VideoFrame>>,
    pos: Seq<int>,
    pos0: Seq<int>,
    p0: Seq<VideoFrame>,
    e: int,
    out: Seq<VideoFrame>,
    emitted: Seq<VideoFrame>,
    p1: Seq<VideoFrame>,
    e1: int,
)
    requires
        well_numbered(s),
        round_ended(s, pos, pos0),
        pulled_kept(s, pos, p0, e),
        pending_pulled(s, pos, p0),
        emitted_pulled(s, pos0, e),
        out_correct(s, out),
        tail_ok(s, out, p0),
        out.len() == e - 1,
        e >= 1,
        sorted_from(p1, e1),
        round_emission(p0, e, emitted, p1, e1),
    ensures
        pulled_kept(s, pos, p1, e1),
        pending_pulled(s, pos, p1),
        emitted_pulled(s, pos, e1),
        out_correct(s, out + emitted),
        tail_ok(s, out + emitted, p1),
{
    lemma_after_round_pending(s, pos, p0, e, emitted, p1, e1);
    let all = out + emitted;
    assert forall|m: int| 0 <= m < all.len() implies (#[trigger] all[m]).frame_number == m + 1 && (present(s, m + 1)
        ==> in_shards(s, all[m])) && (!present(s, m + 1) ==> all[m] == missing_frame((m + 1) as usize)) by {
        if m >= out.len() {
            assert(all[m] == emitted[m - out.len()]);
            lemma_emitted_frame(s, pos, pos0, p0, e, emitted, p1, e1, m - out.len());
        }
    }
    assert forall|i: int, k: int| valid_at(s, i, k) && (#[trigger] s[i][k]).frame_number < e1 implies k < pos[i] by {
        let n = s[i][k].frame_number as int;
        if n >= e {
            let m = n - e;
            lemma_emitted_frame(s, pos, pos0, p0, e, emitted, p1, e1, m);
            assert(present(s, n));
            let j = choose|j: int| 0 <= j < p0.len() && #[trigger] p0[j] == emitted[m];
            let (i3, k3) = choose|i3: int, k3: int| valid_at(s, i3, k3) && k3 < pos[i3] && s[i3][k3] == #[trigger] p0[j];
            assert(s[i3][k3].frame_number == s[i][k].frame_number);
        }
    }
    if all.len() > 0 && p1.len() == 0 {
        if emitted.len() > 0 {
            let last = emitted.len() - 1;
            lemma_emitted_frame(s, pos, pos0, p0, e, emitted, p1, e1, last);
            if !one_of(p0, emitted[last]) {
                assert(!one_of(p0, emitted[0])) by {
                    if one_of(p0, emitted[0]) {
                        assert(one_of(p0, emitted[last]));
                    }
                }
                assert(p0.len() == p1.len());
            }
            assert(all[all.len() - 1] == emitted[last]);
        } else {
            assert(all =~= out);
        }
    }
}

/// Takes the next frame of reader `i`, if it has one left.
fn pull(readers: &mut Vec<Vec<VideoFrame>>, i: usize) -> (r: Option<VideoFrame>)
    requires
        i < old(readers)@.len(),
    ensures
        final(readers)@.len() == old(readers)@.len(),
        match r {
            Some(f) => {
                &&& old(readers)@[i as int]@.len() > 0
                &&& f == old(readers)@[i as int]@[0]
                &&& final(readers)@ == old(readers)@.update(i as int, final(readers)@[i as int])
                &&& final(readers)@[i as int]@ == old(readers)@[i as int]@.skip(1)
            },
            None => {
                &&& old(readers)@[i as int]@.len() == 0
                &&& final(readers)@ == old(readers)@
            },
        },
{
    let ghost before = readers@;
    let mut reader = readers.remove(i);
    if reader.len() == 0 {
        readers.insert(i, reader);
        assert(readers@ =~= before);
        return None;
    }
    let f = reader.remove(0);
    assert(reader@ =~= before[i as int]@.skip(1));
    readers.insert(i, reader);
    assert(readers@ =~= before.update(i as int, readers@[i as int]));
    Some(f)
}

fn append_frames(out: &mut Vec<VideoFrame>, frames: Vec<VideoFrame>)
    ensures
        final(out)@ == old(out)@ + frames@,
{
    let mut frames = frames;
    out.append(&mut frames);
}

pub open spec fn gap(m: FrameMerger) -> int {
    if m.pending@.len() > 0 {
        m.pending@[0].frame_number - m.expected_frame
    } else {
        0
    }
}

pub open spec fn measure(readers: Seq<Vec<VideoFrame>>, m: FrameMerger) -> int {
    (2 * total_len(readers) + count_open(m.open@) + m.pending@.len()) as int
}

/// Reassembles the frames of several shards, each in the order its worker
/// wrote it, into one stream ordered by frame number, with the merger that
/// reads shard files. Where the shards hold frames numbered as the workers
/// number them, the result holds every frame up to the largest number, each
/// from its shard, and a placeholder for each number that no shard holds.
pub fn order_frames(shards: Vec<Vec<VideoFrame>>) -> (r: Vec<VideoFrame>)
    ensures
        well_numbered(shard_views(shards@)) ==> reassembled(shard_views(shards@), r@),
{
    let ghost s = shard_views(shards@);
    let w = shards.len();
    let mut readers = shards;
    let ghost mut pos: Seq<int> = Seq::new(w as nat, |i: int| 0int);
    let mut merger = FrameMerger::new(w);
    let mut out: Vec<VideoFrame> = Vec::new();
    proof {
        assert forall|i: int| 0 <= i < w implies #[trigger] readers@[i]@ == s[i].skip(pos[i]) by {
            assert(s[i].skip(0) =~= s[i]);
        }
    }
    loop
        invariant
            s.len() == w,
            readers@.len() == w,
            merger.open@.len() == w,
            merger.wf(),
            merger.cursor == 0,
            pos.len() == w,
            forall|i: int| 0 <= i < w ==> 0 <= #[trigger] pos[i] <= s[i].len(),
            forall|i: int| 0 <= i < w ==> #[trigger] readers@[i]@ == s[i].skip(pos[i]),
            forall|i: int| 0 <= i < w && !merger.open@[i] ==> #[trigger] pos[i] == s[i].len(),
            out@.len() == merger.expected_frame - 1,
            well_numbered(s) ==> pulled_kept(s, pos, merger.pending@, merger.expected_frame as int),
            well_numbered(s) ==> pending_pulled(s, pos, merger.pending@),
            well_numbered(s) ==> emitted_pulled(s, pos, merger.expected_frame as int),
            well_numbered(s) ==> out_correct(s, out@),
            well_numbered(s) ==> tail_ok(s, out@, merger.pending@),
        ensures
            well_numbered(s) ==> reassembled(s, out@),
        decreases measure(readers@, merger), gap(merger),
    {
        let ghost pos0 = pos;
        let ghost pend0 = merger.pending@;
        let ghost m0 = measure(readers@, merger);
        let ghost e = merger.expected_frame as int;
        loop
            invariant
                s.len() == w,
                readers@.len() == w,
                merger.open@.len() == w,
                merger.wf(),
                merger.expected_frame == e,
                merger.cursor <= w,
                pos.len() == w,
                pos0.len() == w,
                forall|i: int| 0 <= i < w ==> 0 <= #[trigger] pos0[i] <= pos[i] <= s[i].len(),
                forall|i: int| 0 <= i < w ==> 0 <= #[trigger] pos[i] <= s[i].len(),
                forall|i: int| 0 <= i < w ==> #[trigger] readers@[i]@ == s[i].skip(pos[i]),
                forall|i: int| 0 <= i < w && !merger.open@[i] ==> #[trigger] pos[i] == s[i].len(),
                forall|j: int| 0 <= j < merger.cursor ==> #[trigger] pos[j] > pos0[j] || !merger.open@[j],
                measure(readers@, merger) <= m0,
                measure(readers@, merger) == m0 ==> merger.pending@ == pend0 && pos == pos0,
                pend0.len() > 0 ==> merger.pending@.len() > 0,
                out@.len() == e - 1,
                well_numbered(s) ==> pulled_kept(s, pos, merger.pending@, e),
                well_numbered(s) ==> pending_pulled(s, pos, merger.pending@),
                well_numbered(s) ==> emitted_pulled(s, pos0, e),
                well_numbered(s) ==> out_correct(s, out@),
                well_numbered(s) ==> tail_ok(s, out@, pend0),
            ensures
                forall|j: int| merger.cursor <= j < w ==> !merger.open@[j],
            decreases total_len(readers@) + count_open(merger.open@),
        {
            match merger.next_reader() {
                None => break,
                Some(i) => {
                    let ghost before = readers@;
                    let ghost pbefore = merger.pending@;
                    let ghost obefore = merger.open@;
                    let ghost cbefore = merger.cursor as int;
                    let ghost posb = pos;
                    let record = pull(&mut readers, i);
                    let ghost g = record;
                    proof {
                        assert(before[i as int]@ == s[i as int].skip(posb[i as int]));
                        if let Some(f) = g {
                            lemma_total_len_update(before, i as int, readers@[i as int]);
                            assert(f == s[i as int][posb[i as int]]);
                            assert(readers@[i as int]@ =~= s[i as int].skip(posb[i as int] + 1));
                            pos = posb.update(i as int, posb[i as int] + 1);
                        } else {
                            assert(s[i as int].skip(posb[i as int]).len() == 0);
                        }
                    }
                    merger.receive(i, record);
                    proof {
                        if g is None {
                            lemma_count_open_close(obefore, i as int);
                        }
                        assert forall|j: int| 0 <= j < merger.cursor implies #[trigger] pos[j] > pos0[j] || !merger.open@[j] by {
                            if j < cbefore {
                            } else if j < i {
                            } else {
                                assert(j == i);
                            }
                        }
                        assert forall|ii: int| 0 <= ii < w implies #[trigger] readers@[ii]@ == s[ii].skip(pos[ii]) by {
                            if ii != i {
                                assert(readers@[ii] == before[ii]);
                            }
                        }
                        if well_numbered(s) {
                            if let Some(f) = g {
                                let k = posb[i as int];
                                assert(valid_at(s, i as int, k));
                                assert(s[i as int][k] == f);
                                if f.frame_number < e {
                                    assert(k < pos0[i as int]);
                                }
                                let p = choose|p: int| 0 <= p <= pbefore.len() && merger.pending@ == pbefore.insert(p, f);
                                let q = merger.pending@;
                                assert(q[p] == f);
                                assert forall|ii: int, kk: int|
                                    valid_at(s, ii, kk) && kk < pos[ii] && (#[trigger] s[ii][kk]).frame_number >= e implies one_of(q, s[ii][kk]) by {
                                    if ii == i && kk == k {
                                        assert(q[p] == s[ii][kk]);
                                    } else {
                                        assert(kk < posb[ii]);
                                        assert(one_of(pbefore, s[ii][kk]));
                                        let jj = choose|jj: int| 0 <= jj < pbefore.len() && #[trigger] pbefore[jj] == s[ii][kk];
                                        if jj < p {
                                            assert(q[jj] == pbefore[jj]);
                                        } else {
                                            assert(q[jj + 1] == pbefore[jj]);
                                        }
                                    }
                                }
                                assert forall|jj: int| 0 <= jj < q.len() implies exists|ii: int, kk: int|
                                    valid_at(s, ii, kk) && kk < pos[ii] && s[ii][kk] == #[trigger] q[jj] by {
                                    if jj == p {
                                        assert(valid_at(s, i as int, k) && k < pos[i as int] && s[i as int][k] == q[jj]);
                                    } else {
                                        let j0 = if jj < p { jj } else { jj - 1 };
                                        assert(q[jj] == pbefore[j0]);
                                        let (ii, kk) = choose|ii: int, kk: int|
                                            valid_at(s, ii, kk) && kk < posb[ii] && s[ii][kk] == #[trigger] pbefore[j0];
                                        assert(kk < pos[ii]);
                                    }
                                }
                            }
                        }
                    }
                },
            }
        }
        proof {
            assert forall|i: int| 0 <= i < w implies #[trigger] pos[i] > pos0[i] || pos[i] == s[i].len() by {
                if i < merger.cursor {
                    assert(pos[i] > pos0[i] || !merger.open@[i]);
                } else {
                    assert(!merger.open@[i]);
                }
            }
            assert(round_ended(s, pos, pos0));
        }
        let ghost p0 = merger.pending@;
        let ghost m1 = measure(readers@, merger);
        let emitted = merger.end_round();
        proof {
            if well_numbered(s) {
                lemma_after_round(s, pos, pos0, p0, e, out@, emitted@, merger.pending@, merger.expected_frame as int);
            }
        }
        append_frames(&mut out, emitted);
        if merger.is_finished() {
            proof {
                if well_numbered(s) {
                    assert forall|i: int, k: int| valid_at(s, i, k) implies (#[trigger] s[i][k]).frame_number <= out@.len() by {
                        assert(pos[i] == s[i].len());
                        if s[i][k].frame_number >= merger.expected_frame {
                            assert(one_of(merger.pending@, s[i][k]));
                        }
                    }
                }
            }
            break;
        }
        proof {
            if measure(readers@, merger) == m0 {
                assert(m1 == m0);
                assert(pos == pos0);
                assert forall|i: int| 0 <= i < w implies !merger.open@[i] by {
                    assert(pos[i] == s[i].len());
                    if i < merger.cursor {
                        assert(pos[i] > pos0[i] || !merger.open@[i]);
                    }
                }
                assert(!merger.any_open());
                assert(merger.pending@.len() > 0);
                assert(p0 == pend0);
                assert(merger.pending@ =~= p0);
            }
        }
    }
    out
}

/// Whether the shards hold, between them, exactly the frames numbered 1 to `n`.
pub open spec fn holds_first(s: Seq<Seq<VideoFrame>>, n: int) -> bool {
    &&& forall|m: int| 1 <= m <= n ==> present(s, m)
    &&& forall|i: int, k: int| valid_at(s, i, k) ==> (#[trigger] s[i][k]).frame_number <= n
}

/// Whether shard `d` holds frame `m`.
pub open spec fn in_shard(s: Seq<Seq<VideoFrame>>, d: int, m: int) -> bool {
    exists|k: int| 0 <= k < s[d].len() && (#[trigger] s[d][k]).frame_number == m
}

/// Round trip: where the compression workers wrote frames 1 to `n` between
/// them, the stream reassembled from their shards is exactly `n` frames,
/// numbered 1 to `n` in order, each the very frame (status, geometry and
/// image bytes) that a worker wrote: a dropped frame stays dropped, with no
/// image, and a captured one keeps its bytes.
pub proof fn lemma_round_trip(s: Seq<Seq<VideoFrame>>, out: Seq<VideoFrame>, n: int)
    requires
        well_numbered(s),
        holds_first(s, n),
        n >= 0,
        reassembled(s, out),
    ensures
        out.len() == n,
        forall|m: int| 0 <= m < n ==> (#[trigger] out[m]).frame_number == m + 1 && in_shards(s, out[m]),
{
    if out.len() > 0 {
        let (i, k) = choose|i: int, k: int| valid_at(s, i, k) && (#[trigger] s[i][k]).frame_number == out.len();
        assert(s[i][k].frame_number <= n);
    }
    if n > 0 {
        assert(present(s, n));
        let (i, k) = choose|i: int, k: int| valid_at(s, i, k) && (#[trigger] s[i][k]).frame_number == n;
        assert(s[i][k].frame_number <= out.len());
    }
    assert forall|m: int| 0 <= m < n implies (#[trigger] out[m]).frame_number == m + 1 && in_shards(s, out[m]) by {
        assert(present(s, m + 1));
    }
}

proof fn lemma_remove_shard(s: Seq<Seq<VideoFrame>>, d: int)
    requires
        well_numbered(s),
        0 <= d < s.len(),
    ensures
        well_numbered(s.remove(d)),
        forall|m: int| present(s.remove(d), m) <==> present(s, m) && !in_shard(s, d, m),
        forall|f: VideoFrame| in_shards(s.remove(d), f) ==> in_shards(s, f),
{
    let t = s.remove(d);
    assert forall|i: int| 0 <= i < t.len() implies #[trigger] t[i] == s[if i < d { i } else { i + 1 }] by {}
    assert forall|i1: int, k1: int, i2: int, k2: int|
        valid_at(t, i1, k1) && valid_at(t, i2, k2) && (#[trigger] t[i1][k1]).frame_number
            == (#[trigger] t[i2][k2]).frame_number implies i1 == i2 && k1 == k2 by {
        let j1 = if i1 < d { i1 } else { i1 + 1 };
        let j2 = if i2 < d { i2 } else { i2 + 1 };
        assert(t[i1] == s[j1]);
        assert(t[i2] == s[j2]);
        assert(valid_at(s, j1, k1) && valid_at(s, j2, k2));
        assert(s[j1][k1].frame_number == s[j2][k2].frame_number);
    }
    assert forall|i: int, k1: int, k2: int|
        0 <= i < t.len() && 0 <= k1 < k2 < t[i].len() implies (#[trigger] t[i][k1]).frame_number
            < (#[trigger] t[i][k2]).frame_number by {
        let j = if i < d { i } else { i + 1 };
        assert(t[i] == s[j]);
        assert(s[j][k1].frame_number < s[j][k2].frame_number);
    }
    assert forall|i: int, k: int| valid_at(t, i, k) implies 1 <= (#[trigger] t[i][k]).frame_number by {
        let j = if i < d { i } else { i + 1 };
        assert(t[i] == s[j]);
        assert(valid_at(s, j, k));
    }
    assert forall|m: int| present(t, m) <==> present(s, m) && !in_shard(s, d, m) by {
        if present(t, m) {
            let (i, k) = choose|i: int, k: int| valid_at(t, i, k) && (#[trigger] t[i][k]).frame_number == m;
            let j = if i < d { i } else { i + 1 };
            assert(t[i] == s[j]);
            assert(valid_at(s, j, k) && s[j][k].frame_number == m);
            if in_shard(s, d, m) {
                let kd = choose|kd: int| 0 <= kd < s[d].len() && (#[trigger] s[d][kd]).frame_number == m;
                assert(valid_at(s, d, kd));
            }
        }
        if present(s, m) && !in_shard(s, d, m) {
            let (i, k) = choose|i: int, k: int| valid_at(s, i, k) && (#[trigger] s[i][k]).frame_number == m;
            if i == d {
                assert(in_shard(s, d, m));
            }
            let j = if i < d { i } else { i - 1 };
            assert(t[j] == s[i]);
            assert(valid_at(t, j, k) && t[j][k].frame_number == m);
        }
    }
    assert forall|f: VideoFrame| in_shards(t, f) implies in_shards(s, f) by {
        let (i, k) = choose|i: int, k: int| valid_at(t, i, k) && #[trigger] t[i][k] == f;
        let j = if i < d { i } else { i + 1 };
        assert(t[i] == s[j]);
        assert(valid_at(s, j, k));
    }
}

/// A lost shard: where the workers wrote frames 1 to `n` and the shard `d`
/// is gone (but for the last frame, which another shard holds), the stream
/// reassembled from the other shards still numbers 1 to `n`: the frames that
/// shard held come as placeholders, and every other frame is the one its
/// worker wrote.
pub proof fn lemma_lost_shard(s: Seq<Seq<VideoFrame>>, d: int, out: Seq<VideoFrame>, n: int)
    requires
        well_numbered(s),
        holds_first(s, n),
        n >= 1,
        0 <= d < s.len(),
        !in_shard(s, d, n),
        reassembled(s.remove(d), out),
    ensures
        out.len() == n,
        forall|m: int| 0 <= m < n ==> (#[trigger] out[m]).frame_number == m + 1,
        forall|m: int| 0 <= m < n && in_shard(s, d, m + 1) ==> #[trigger] out[m] == missing_frame((m + 1) as usize),
        forall|m: int| 0 <= m < n && !in_shard(s, d, m + 1) ==> in_shards(s, #[trigger] out[m]),
{
    lemma_remove_shard(s, d);
    let t = s.remove(d);
    assert(present(s, n));
    assert(present(t, n));
    let (i, k) = choose|i: int, k: int| valid_at(t, i, k) && (#[trigger] t[i][k]).frame_number == n;
    assert(t[i][k].frame_number <= out.len());
    if out.len() > 0 {
        assert(present(t, out.len() as int));
        let (i2, k2) = choose|i2: int, k2: int| valid_at(t, i2, k2) && (#[trigger] t[i2][k2]).frame_number == out.len();
        assert(present(s, out.len() as int));
        let (i3, k3) = choose|i3: int, k3: int| valid_at(s, i3, k3) && (#[trigger] s[i3][k3]).frame_number == out.len();
        assert(s[i3][k3].frame_number <= n);
    }
    assert forall|m: int| 0 <= m < n && !in_shard(s, d, m + 1) implies in_shards(s, #[trigger] out[m]) by {
        assert(present(s, m + 1));
        assert(present(t, m + 1));
        assert(in_shards(t, out[m]));
    }
    assert forall|m: int| 0 <= m < n && in_shard(s, d, m + 1) implies #[trigger] out[m] == missing_frame((m + 1) as usize) by {
        assert(!present(t, m + 1));
    }
}

} // verus!
