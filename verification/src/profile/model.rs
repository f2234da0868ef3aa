//! The mathematical model of the timing engine.
//!
//! A running profiler is modelled by [`ProfilerModel`]: the anchor table, the
//! stack of currently open activations (`frames`, whose first entry always
//! stands for the session root), and per-anchor bookkeeping (`closed_self`)
//! that splits every exclusive accumulator into a non-negative closed part
//! and the amounts borrowed by still-open parents. The open/close bookkeeping
//! of the engine is written down once as the transition functions
//! [`open_transition`] and [`close_transition`]; the executable code's
//! contracts say it performs exactly these transitions, and the laws about
//! nesting, repetition and recursion are proved of their compositions.

use vstd::prelude::*;

use crate::metrics::MetricType;

verus! {

/// Aggregate statistics of one anchor slot, as mathematical integers.
#[verifier::ext_equal]
pub ghost struct AnchorModel {
    pub label: Seq<char>,
    pub hit_count: int,
    pub elapsed_exclusive: int,
    pub elapsed_inclusive: int,
    pub elapsed_min: int,
    pub elapsed_max: int,
}

/// One open activation: the anchor it belongs to, the reading at which it
/// opened, the total elapsed time of its direct children that have already
/// closed, and the anchor's inclusive figure captured when it opened.
#[verifier::ext_equal]
pub ghost struct FrameModel {
    pub anchor_index: int,
    pub start: int,
    pub child_sum: int,
    pub incl_prev: int,
}

/// The abstract state of one profiler.
#[verifier::ext_equal]
pub ghost struct ProfilerModel {
    pub anchors: Seq<AnchorModel>,
    pub closed_self: Seq<int>,
    pub frames: Seq<FrameModel>,
    pub current_open_block: int,
    pub metric_type: MetricType,
    pub metric_init: Option<u64>,
    pub metric_final: Option<u64>,
    pub clock_lo: int,
}

/// The sum of the exclusive accumulators of all anchors.
pub open spec fn sum_excl(s: Seq<AnchorModel>) -> int
    decreases s.len(),
{
    if s.len() == 0 {
        0
    } else {
        sum_excl(s.drop_last()) + s.last().elapsed_exclusive
    }
}

/// The sum of a sequence of integers.
pub open spec fn sum_ints(s: Seq<int>) -> int
    decreases s.len(),
{
    if s.len() == 0 {
        0
    } else {
        sum_ints(s.drop_last()) + s.last()
    }
}

/// The total elapsed time of closed children over all open frames.
pub open spec fn frames_child_total(fs: Seq<FrameModel>) -> int
    decreases fs.len(),
{
    if fs.len() == 0 {
        0
    } else {
        frames_child_total(fs.drop_last()) + fs.last().child_sum
    }
}

/// The total elapsed time of closed children over the open frames that
/// belong to anchor `a`.
pub open spec fn frames_child_at(fs: Seq<FrameModel>, a: int) -> int
    decreases fs.len(),
{
    if fs.len() == 0 {
        0
    } else {
        frames_child_at(fs.drop_last(), a) + if fs.last().anchor_index == a {
            fs.last().child_sum
        } else {
            0
        }
    }
}

pub proof fn lemma_sum_ints_nonneg(s: Seq<int>)
    requires
        forall|i: int| 0 <= i < s.len() ==> s[i] >= 0,
    ensures
        sum_ints(s) >= 0,
    decreases s.len(),
{
    if s.len() > 0 {
        lemma_sum_ints_nonneg(s.drop_last());
    }
}

pub proof fn lemma_sum_ints_element_bound(s: Seq<int>, i: int)
    requires
        forall|j: int| 0 <= j < s.len() ==> s[j] >= 0,
        0 <= i < s.len(),
    ensures
        s[i] <= sum_ints(s),
    decreases s.len(),
{
    if i + 1 == s.len() {
        lemma_sum_ints_nonneg(s.drop_last());
    } else {
        lemma_sum_ints_element_bound(s.drop_last(), i);
    }
}

pub proof fn lemma_sum_ints_update(s: Seq<int>, i: int, v: int)
    requires
        0 <= i < s.len(),
    ensures
        sum_ints(s.update(i, v)) == sum_ints(s) - s[i] + v,
    decreases s.len(),
{
    let t = s.update(i, v);
    if i + 1 == s.len() {
        assert(t.drop_last() =~= s.drop_last());
    } else {
        assert(t.drop_last() =~= s.drop_last().update(i, v));
        lemma_sum_ints_update(s.drop_last(), i, v);
    }
}

pub proof fn lemma_sum_excl_update(s: Seq<AnchorModel>, i: int, an: AnchorModel)
    requires
        0 <= i < s.len(),
    ensures
        sum_excl(s.update(i, an)) == sum_excl(s) - s[i].elapsed_exclusive
            + an.elapsed_exclusive,
    decreases s.len(),
{
    let t = s.update(i, an);
    if i + 1 == s.len() {
        assert(t.drop_last() =~= s.drop_last());
    } else {
        assert(t.drop_last() =~= s.drop_last().update(i, an));
        lemma_sum_excl_update(s.drop_last(), i, an);
    }
}

pub proof fn lemma_frames_child_total_push(fs: Seq<FrameModel>, f: FrameModel)
    ensures
        frames_child_total(fs.push(f)) == frames_child_total(fs) + f.child_sum,
{
    assert(fs.push(f).drop_last() =~= fs);
}

pub proof fn lemma_frames_child_at_push(fs: Seq<FrameModel>, f: FrameModel, a: int)
    ensures
        frames_child_at(fs.push(f), a) == frames_child_at(fs, a) + if f.anchor_index == a {
            f.child_sum
        } else {
            0
        },
{
    assert(fs.push(f).drop_last() =~= fs);
}

pub proof fn lemma_frames_child_total_update(fs: Seq<FrameModel>, i: int, f: FrameModel)
    requires
        0 <= i < fs.len(),
    ensures
        frames_child_total(fs.update(i, f)) == frames_child_total(fs) - fs[i].child_sum
            + f.child_sum,
    decreases fs.len(),
{
    let t = fs.update(i, f);
    if i + 1 == fs.len() {
        assert(t.drop_last() =~= fs.drop_last());
    } else {
        assert(t.drop_last() =~= fs.drop_last().update(i, f));
        lemma_frames_child_total_update(fs.drop_last(), i, f);
    }
}

pub proof fn lemma_frames_child_at_update(fs: Seq<FrameModel>, i: int, f: FrameModel, a: int)
    requires
        0 <= i < fs.len(),
    ensures
        frames_child_at(fs.update(i, f), a) == frames_child_at(fs, a) - (
        if fs[i].anchor_index == a {
            fs[i].child_sum
        } else {
            0
        }) + (
        if f.anchor_index == a {
            f.child_sum
        } else {
            0
        }),
    decreases fs.len(),
{
    let t = fs.update(i, f);
    if i + 1 == fs.len() {
        assert(t.drop_last() =~= fs.drop_last());
    } else {
        assert(t.drop_last() =~= fs.drop_last().update(i, f));
        lemma_frames_child_at_update(fs.drop_last(), i, f, a);
    }
}

/// Every frame's child total is non-negative, so the filtered total at one
/// anchor never exceeds the total over all frames.
pub proof fn lemma_frames_child_at_le_total(fs: Seq<FrameModel>, a: int)
    requires
        forall|j: int| 0 <= j < fs.len() ==> (#[trigger] fs[j]).child_sum >= 0,
    ensures
        0 <= frames_child_at(fs, a) <= frames_child_total(fs),
    decreases fs.len(),
{
    if fs.len() > 0 {
        lemma_frames_child_at_le_total(fs.drop_last(), a);
    }
}

} // verus!

verus! {

/// The reading that bounds frame `j` on the right: the start of the frame
/// above it, or the clock's lower bound for the innermost frame.
pub open spec fn frame_end(fs: Seq<FrameModel>, lo: int, j: int) -> int {
    if j + 1 < fs.len() {
        fs[j + 1].start
    } else {
        lo
    }
}

/// Each frame's closed children fit between its start and the next frame's
/// start (or the clock, for the innermost frame).
pub open spec fn chain_ok(fs: Seq<FrameModel>, lo: int) -> bool {
    forall|j: int|
        0 <= j < fs.len() ==> (#[trigger] fs[j]).start + fs[j].child_sum <= frame_end(fs, lo, j)
}

/// Telescoping the chain: all closed child time over all open frames fits in
/// the window from the outermost frame's start to the clock.
pub proof fn lemma_chain_total(fs: Seq<FrameModel>, lo: int)
    requires
        fs.len() >= 1,
        chain_ok(fs, lo),
        forall|j: int| 0 <= j < fs.len() ==> (#[trigger] fs[j]).child_sum >= 0,
    ensures
        frames_child_total(fs) <= lo - fs[0].start,
    decreases fs.len(),
{
    if fs.len() == 1 {
        assert(frames_child_total(fs.drop_last()) == 0);
        assert(fs[0].start + fs[0].child_sum <= frame_end(fs, lo, 0));
        assert(fs.last() == fs[0]);
    } else {
        let g = fs.drop_last();
        let slast = fs.last().start;
        assert forall|j: int| 0 <= j < g.len() implies (#[trigger] g[j]).start + g[j].child_sum
            <= frame_end(g, slast, j) by {
            assert(g[j] == fs[j]);
            assert(fs[j].start + fs[j].child_sum <= frame_end(fs, lo, j));
        }
        assert(forall|j: int| 0 <= j < g.len() ==> (#[trigger] g[j]).child_sum >= 0);
        lemma_chain_total(g, slast);
        assert(g[0] == fs[0]);
        assert(frames_child_total(fs) == frames_child_total(g) + fs.last().child_sum);
        assert(fs.last().start + fs.last().child_sum <= frame_end(fs, lo, fs.len() - 1));
    }
}

impl ProfilerModel {
    /// Number of anchor slots.
    pub open spec fn capacity(self) -> int {
        self.anchors.len() as int
    }

    /// No session bounds set yet.
    pub open spec fn is_idle(self) -> bool {
        self.metric_init is None && self.metric_final is None
    }

    /// A session is under way.
    pub open spec fn is_running(self) -> bool {
        self.metric_init is Some && self.metric_final is None
    }

    /// The session was stopped; a report may be built.
    pub open spec fn is_stopped(self) -> bool {
        self.metric_init is Some && self.metric_final is Some
    }

    /// The reading recorded when the session started.
    pub open spec fn init_reading(self) -> int {
        self.metric_init.unwrap() as int
    }

    /// The reading recorded when the session stopped.
    pub open spec fn final_reading(self) -> int {
        self.metric_final.unwrap() as int
    }

    /// Ticks from session start to the clock's current lower bound.
    pub open spec fn span(self) -> int {
        self.clock_lo - self.init_reading()
    }

    /// Ticks from session start to session stop.
    pub open spec fn total_metric(self) -> int {
        self.final_reading() - self.init_reading()
    }

    /// Number of user blocks currently open.
    pub open spec fn open_depth(self) -> int {
        self.frames.len() - 1
    }

    /// The books of anchor `a` balance: its exclusive accumulator is the
    /// self time of its closed activations minus what its still-open
    /// activations' closed children have already borrowed from it.
    pub open spec fn anchor_ok(self, a: int) -> bool {
        let an = self.anchors[a];
        &&& an.elapsed_exclusive == self.closed_self[a] - frames_child_at(self.frames, a)
        &&& self.closed_self[a] >= 0
        &&& an.hit_count >= 0
        &&& 0 <= an.elapsed_inclusive <= self.span()
        &&& (an.hit_count == 0 ==> self.closed_self[a] == 0 && an.elapsed_inclusive == 0
            && an.elapsed_min == u64::MAX && an.elapsed_max == 0)
        &&& (an.hit_count > 0 ==> 0 <= an.elapsed_min <= an.elapsed_max <= self.span())
    }

    /// Frame `j` is ordered within the chain of open activations.
    pub open spec fn frame_ok(self, j: int) -> bool {
        let f = self.frames[j];
        &&& f.child_sum >= 0
        &&& f.start + f.child_sum <= frame_end(self.frames, self.clock_lo, j)
        &&& self.init_reading() <= f.start
        &&& (j == 0 ==> f.anchor_index == 0 && f.start == self.init_reading() && f.incl_prev
            == 0)
        &&& (j >= 1 ==> 0 < f.anchor_index < self.capacity() && 0 <= f.incl_prev
            && f.incl_prev + self.init_reading() <= f.start)
    }

    /// Well-formedness of a running session.
    pub open spec fn running_wf(self) -> bool {
        &&& self.is_running()
        &&& self.metric_type.is_supported()
        &&& self.capacity() > 0
        &&& self.closed_self.len() == self.anchors.len()
        &&& 0 <= self.init_reading() <= self.clock_lo <= u64::MAX
        &&& self.frames.len() >= 1
        &&& forall|j: int| 0 <= j < self.frames.len() ==> self.frame_ok(j)
        &&& forall|a: int| 0 <= a < self.anchors.len() ==> self.anchor_ok(a)
        &&& self.current_open_block == self.frames.last().anchor_index
        &&& sum_excl(self.anchors) == 0
        &&& sum_ints(self.closed_self) <= frames_child_total(self.frames)
        &&& self.anchors[0].hit_count == 0
    }

    /// Anchor `a` has never been touched.
    pub open spec fn anchor_unused(self, a: int) -> bool {
        let an = self.anchors[a];
        &&& an.hit_count == 0
        &&& an.elapsed_exclusive == 0
        &&& an.elapsed_inclusive == 0
        &&& an.elapsed_min == u64::MAX
        &&& an.elapsed_max == 0
        &&& self.closed_self[a] == 0
    }

    /// Well-formedness before a session starts.
    pub open spec fn idle_wf(self) -> bool {
        &&& self.is_idle()
        &&& self.capacity() > 0
        &&& self.closed_self.len() == self.anchors.len()
        &&& self.frames.len() == 0
        &&& self.current_open_block == 0
        &&& forall|a: int| 0 <= a < self.anchors.len() ==> self.anchor_unused(a)
        &&& sum_excl(self.anchors) == 0
        &&& sum_ints(self.closed_self) == 0
    }

    /// The books of anchor `a` after the session stopped: every exclusive
    /// accumulator has settled to its non-negative closed self time.
    pub open spec fn stopped_anchor_ok(self, a: int) -> bool {
        let an = self.anchors[a];
        &&& an.hit_count >= 0
        &&& an.elapsed_exclusive == self.closed_self[a] - if a == 0 {
            self.frames[0].child_sum
        } else {
            0
        }
        &&& 0 <= self.closed_self[a] <= self.frames[0].child_sum
        &&& 0 <= an.elapsed_inclusive <= self.total_metric()
        &&& (an.hit_count == 0 ==> self.closed_self[a] == 0 && an.elapsed_inclusive == 0
            && an.elapsed_min == u64::MAX && an.elapsed_max == 0)
        &&& (an.hit_count > 0 ==> 0 <= an.elapsed_min <= an.elapsed_max <= self.total_metric())
    }

    /// Well-formedness of a stopped session. Only the root frame remains; it
    /// carries the total time spent in closed top-level regions.
    pub open spec fn stopped_wf(self) -> bool {
        &&& self.is_stopped()
        &&& self.capacity() > 0
        &&& self.closed_self.len() == self.anchors.len()
        &&& 0 <= self.init_reading() <= self.final_reading() <= u64::MAX
        &&& self.frames.len() == 1
        &&& self.frames[0].anchor_index == 0
        &&& 0 <= self.frames[0].child_sum <= self.total_metric()
        &&& self.current_open_block == 0
        &&& sum_excl(self.anchors) == 0
        &&& self.anchors[0].hit_count == 0
        &&& forall|a: int| 0 <= a < self.anchors.len() ==> self.stopped_anchor_ok(a)
    }

    /// The profiler's overall invariant: one of the three session states.
    pub open spec fn inv(self) -> bool {
        self.idle_wf() || self.running_wf() || self.stopped_wf()
    }
}

/// Starting a session: record the first reading and open the root frame.
pub open spec fn start_transition(m: ProfilerModel, metric_type: MetricType, r: u64) -> ProfilerModel {
    ProfilerModel {
        metric_type,
        metric_init: Some(r),
        metric_final: None,
        frames: seq![
            FrameModel { anchor_index: 0, start: r as int, child_sum: 0, incl_prev: 0 },
        ],
        current_open_block: 0,
        clock_lo: r as int,
        ..m
    }
}

/// Opening a block at anchor `a` with reading `r`: the anchor's label is set
/// on its first hit, a fresh frame is pushed, and `a` becomes the open block.
pub open spec fn open_transition(m: ProfilerModel, a: int, label: Seq<char>, r: int) -> ProfilerModel {
    let an = m.anchors[a];
    let an2 = if an.hit_count == 0 {
        AnchorModel { label: label, ..an }
    } else {
        an
    };
    let f = FrameModel {
        anchor_index: a,
        start: r,
        child_sum: 0,
        incl_prev: an.elapsed_inclusive,
    };
    ProfilerModel {
        anchors: m.anchors.update(a, an2),
        frames: m.frames.push(f),
        current_open_block: a,
        clock_lo: r,
        ..m
    }
}

/// Closing the innermost block with reading `r`: fold the elapsed time into
/// its anchor, restore its parent as the open block, and subtract the
/// elapsed time from the parent anchor's self time.
pub open spec fn close_transition(m: ProfilerModel, r: int) -> ProfilerModel {
    let top = m.frames.last();
    let parent = m.frames[m.frames.len() - 2];
    let a = top.anchor_index;
    let p = parent.anchor_index;
    let e = r - top.start;
    let an = m.anchors[a];
    let an2 = AnchorModel {
        label: an.label,
        hit_count: an.hit_count + 1,
        elapsed_exclusive: an.elapsed_exclusive + e,
        elapsed_inclusive: top.incl_prev + e,
        elapsed_min: if e < an.elapsed_min {
            e
        } else {
            an.elapsed_min
        },
        elapsed_max: if e > an.elapsed_max {
            e
        } else {
            an.elapsed_max
        },
    };
    let anchors1 = m.anchors.update(a, an2);
    let pan = anchors1[p];
    let pan2 = AnchorModel { elapsed_exclusive: pan.elapsed_exclusive - e, ..pan };
    let parent2 = FrameModel { child_sum: parent.child_sum + e, ..parent };
    ProfilerModel {
        anchors: anchors1.update(p, pan2),
        closed_self: m.closed_self.update(a, m.closed_self[a] + e - top.child_sum),
        frames: m.frames.drop_last().update(m.frames.len() - 2, parent2),
        current_open_block: p,
        clock_lo: r,
        ..m
    }
}

/// Stopping a session: record the final reading.
pub open spec fn stop_transition(m: ProfilerModel, r: u64) -> ProfilerModel {
    ProfilerModel { metric_final: Some(r), clock_lo: r as int, ..m }
}

} // verus!

verus! {

/// All closed-child totals and closed self times are non-negative, and the
/// chain of open frames is ordered, so every exclusive accumulator of a
/// running profiler lies within the session's span so far.
pub proof fn lemma_excl_bound(m: ProfilerModel, a: int)
    requires
        m.running_wf(),
        0 <= a < m.capacity(),
    ensures
        -m.span() <= m.anchors[a].elapsed_exclusive <= m.span(),
        0 <= frames_child_at(m.frames, a) <= m.span(),
        0 <= m.closed_self[a] <= m.span(),
{
    assert(m.anchor_ok(a));
    assert forall|i: int| 0 <= i < m.closed_self.len() implies m.closed_self[i] >= 0 by {
        assert(m.anchor_ok(i));
    }
    lemma_sum_ints_element_bound(m.closed_self, a);
    assert forall|j: int| 0 <= j < m.frames.len() implies (#[trigger] m.frames[j]).child_sum
        >= 0 && m.frames[j].start + m.frames[j].child_sum <= frame_end(
        m.frames,
        m.clock_lo,
        j,
    ) by {
        assert(m.frame_ok(j));
    }
    lemma_chain_total(m.frames, m.clock_lo);
    assert(m.frame_ok(0));
    lemma_frames_child_at_le_total(m.frames, a);
}

/// Starting a session from an idle profiler yields a well-formed running
/// profiler whose only frame is the root.
pub proof fn lemma_start_wf(m: ProfilerModel, metric_type: MetricType, r: u64)
    requires
        m.idle_wf(),
        metric_type.is_supported(),
    ensures
        start_transition(m, metric_type, r).running_wf(),
        start_transition(m, metric_type, r).frames.len() == 1,
{
    let m2 = start_transition(m, metric_type, r);
    assert(m2.frames.len() == 1);
    assert(m2.frames.drop_last().len() == 0);
    assert(frames_child_total(m2.frames.drop_last()) == 0);
    assert(m2.frames.last().child_sum == 0);
    assert(frames_child_total(m2.frames) == 0);
    assert forall|x: int| 0 <= x < m2.anchors.len() implies m2.anchor_ok(x) by {
        assert(m.anchor_unused(x));
        assert(frames_child_at(m2.frames.drop_last(), x) == 0);
        assert(frames_child_at(m2.frames, x) == 0);
    }
    assert forall|j: int| 0 <= j < m2.frames.len() implies m2.frame_ok(j) by {
        assert(frame_end(m2.frames, m2.clock_lo, 0) == r as int);
    }
    assert(m.anchor_unused(0));
    assert(m2.current_open_block == m2.frames.last().anchor_index);
}

/// Opening a block keeps a running profiler well-formed.
pub proof fn lemma_open_preserves_wf(m: ProfilerModel, a: int, label: Seq<char>, r: int)
    requires
        m.running_wf(),
        0 < a < m.capacity(),
        m.clock_lo <= r <= u64::MAX,
    ensures
        open_transition(m, a, label, r).running_wf(),
        open_transition(m, a, label, r).frames.len() == m.frames.len() + 1,
{
    let m2 = open_transition(m, a, label, r);
    let an = m.anchors[a];
    let an2 = if an.hit_count == 0 {
        AnchorModel { label: label, ..an }
    } else {
        an
    };
    let f = FrameModel {
        anchor_index: a,
        start: r,
        child_sum: 0,
        incl_prev: an.elapsed_inclusive,
    };
    lemma_sum_excl_update(m.anchors, a, an2);
    lemma_frames_child_total_push(m.frames, f);
    let len = m.frames.len() as int;
    assert forall|j: int| 0 <= j < m2.frames.len() implies m2.frame_ok(j) by {
        if j < len {
            assert(m.frame_ok(j));
            assert(m2.frames[j] == m.frames[j]);
            if j + 1 < len {
                assert(frame_end(m2.frames, m2.clock_lo, j) == frame_end(m.frames, m.clock_lo, j));
            } else {
                assert(frame_end(m.frames, m.clock_lo, j) == m.clock_lo);
                assert(frame_end(m2.frames, m2.clock_lo, j) == r);
            }
        } else {
            assert(m2.frames[j] == f);
            assert(m.anchor_ok(a));
            assert(frame_end(m2.frames, m2.clock_lo, j) == r);
        }
    }
    assert forall|x: int| 0 <= x < m2.anchors.len() implies m2.anchor_ok(x) by {
        assert(m.anchor_ok(x));
        lemma_frames_child_at_push(m.frames, f, x);
    }
    assert(m2.frames.last() == f);
}

/// Closing the innermost block keeps a running profiler well-formed. The
/// elapsed time of the closing block covers the closed children it folds in.
pub proof fn lemma_close_preserves_wf(m: ProfilerModel, r: int)
    requires
        m.running_wf(),
        m.frames.len() >= 2,
        m.clock_lo <= r <= u64::MAX,
    ensures
        close_transition(m, r).running_wf(),
        close_transition(m, r).frames.len() == m.frames.len() - 1,
        r - m.frames.last().start >= m.frames.last().child_sum >= 0,
        m.frames.last().start >= m.init_reading(),
{
    let len = m.frames.len() as int;
    let top = m.frames.last();
    let parent = m.frames[len - 2];
    let a = top.anchor_index;
    let p = parent.anchor_index;
    let e = r - top.start;
    let m2 = close_transition(m, r);
    assert(m.frame_ok(len - 1));
    assert(m.frame_ok(len - 2));
    assert(frame_end(m.frames, m.clock_lo, len - 1) == m.clock_lo);
    assert(frame_end(m.frames, m.clock_lo, len - 2) == top.start);
    assert(e >= top.child_sum >= 0);
    assert(0 < a < m.capacity());
    assert(0 <= p < m.capacity());
    assert(m.anchor_ok(a));
    assert(m.anchor_ok(p));

    let an = m.anchors[a];
    let an2 = AnchorModel {
        label: an.label,
        hit_count: an.hit_count + 1,
        elapsed_exclusive: an.elapsed_exclusive + e,
        elapsed_inclusive: top.incl_prev + e,
        elapsed_min: if e < an.elapsed_min {
            e
        } else {
            an.elapsed_min
        },
        elapsed_max: if e > an.elapsed_max {
            e
        } else {
            an.elapsed_max
        },
    };
    let anchors1 = m.anchors.update(a, an2);
    let pan = anchors1[p];
    let pan2 = AnchorModel { elapsed_exclusive: pan.elapsed_exclusive - e, ..pan };
    let parent2 = FrameModel { child_sum: parent.child_sum + e, ..parent };
    let g = m.frames.drop_last();

    // Sums.
    lemma_sum_excl_update(m.anchors, a, an2);
    lemma_sum_excl_update(anchors1, p, pan2);
    lemma_sum_ints_update(m.closed_self, a, m.closed_self[a] + e - top.child_sum);
    assert(frames_child_total(m.frames) == frames_child_total(g) + top.child_sum);
    lemma_frames_child_total_update(g, len - 2, parent2);
    assert(frames_child_total(m2.frames) == frames_child_total(m.frames) - top.child_sum + e);

    // Per-anchor filtered frame sums.
    assert forall|x: int|
        frames_child_at(m2.frames, x) == frames_child_at(m.frames, x) - (
        if a == x {
            top.child_sum
        } else {
            0
        }) + (
        if p == x {
            e
        } else {
            0
        }) by {
        assert(frames_child_at(m.frames, x) == frames_child_at(g, x) + if a == x {
            top.child_sum
        } else {
            0
        });
        lemma_frames_child_at_update(g, len - 2, parent2, x);
        assert(g[len - 2] == parent);
    }

    // Frames stay a well-ordered chain.
    assert forall|j: int| 0 <= j < m2.frames.len() implies m2.frame_ok(j) by {
        assert(m.frame_ok(j));
        if j < len - 2 {
            assert(m2.frames[j] == m.frames[j]);
            assert(frame_end(m2.frames, m2.clock_lo, j) == frame_end(m.frames, m.clock_lo, j));
        } else {
            assert(m2.frames[j] == parent2);
            assert(frame_end(m2.frames, m2.clock_lo, j) == r);
        }
    }

    // Anchor books balance again.
    assert forall|x: int| 0 <= x < m2.anchors.len() implies m2.anchor_ok(x) by {
        assert(m.anchor_ok(x));
    }
    assert(m2.frames.last() == parent2);
}

/// Stopping a running session whose user blocks have all closed yields a
/// well-formed stopped profiler.
pub proof fn lemma_stop_wf(m: ProfilerModel, r: u64)
    requires
        m.running_wf(),
        m.frames.len() == 1,
        m.clock_lo <= r as int,
    ensures
        stop_transition(m, r).stopped_wf(),
        stop_transition(m, r).total_metric() >= 0,
{
    let m2 = stop_transition(m, r);
    assert(m.frame_ok(0));
    assert(frame_end(m.frames, m.clock_lo, 0) == m.clock_lo);
    assert(m.frames[0].child_sum <= m.clock_lo - m.init_reading());
    assert(frames_child_total(m.frames) == m.frames[0].child_sum) by {
        assert(m.frames.drop_last().len() == 0);
        assert(frames_child_total(m.frames.drop_last()) == 0);
    }
    assert forall|i: int| 0 <= i < m.closed_self.len() implies m.closed_self[i] >= 0 by {
        assert(m.anchor_ok(i));
    }
    assert forall|x: int| 0 <= x < m2.anchors.len() implies m2.stopped_anchor_ok(x) by {
        assert(m.anchor_ok(x));
        assert(frames_child_at(m.frames, x) == if x == 0 {
            m.frames[0].child_sum
        } else {
            0
        }) by {
            assert(m.frames.drop_last().len() == 0);
            assert(frames_child_at(m.frames.drop_last(), x) == 0);
            assert(m.frames.last() == m.frames[0]);
        }
        lemma_sum_ints_element_bound(m.closed_self, x);
    }
}

} // verus!

verus! {

/// An anchor with no open frame borrows nothing.
pub proof fn lemma_frames_child_at_absent(fs: Seq<FrameModel>, a: int)
    requires
        forall|j: int| 0 <= j < fs.len() ==> (#[trigger] fs[j]).anchor_index != a,
    ensures
        frames_child_at(fs, a) == 0,
    decreases fs.len(),
{
    if fs.len() > 0 {
        lemma_frames_child_at_absent(fs.drop_last(), a);
    }
}

/// An anchor that was never hit and has no open activation is idle: its
/// accumulators are all at their initial values.
pub proof fn lemma_fresh_anchor(m: ProfilerModel, a: int)
    requires
        m.running_wf(),
        0 <= a < m.capacity(),
        m.anchors[a].hit_count == 0,
        forall|j: int| 0 <= j < m.frames.len() ==> (#[trigger] m.frames[j]).anchor_index != a,
    ensures
        m.anchors[a].elapsed_exclusive == 0,
        m.anchors[a].elapsed_inclusive == 0,
        m.anchors[a].elapsed_min == u64::MAX,
        m.anchors[a].elapsed_max == 0,
        m.closed_self[a] == 0,
    {
    assert(m.anchor_ok(a));
    lemma_frames_child_at_absent(m.frames, a);
}

/// One region hit once with no children: its inclusive and exclusive times
/// agree, they equal the elapsed window, and the hit count is one.
pub proof fn lemma_single_region(m: ProfilerModel, a: int, label: Seq<char>, r1: int, r2: int)
    requires
        m.running_wf(),
        0 < a < m.capacity(),
        m.anchors[a].hit_count == 0,
        forall|j: int| 0 <= j < m.frames.len() ==> (#[trigger] m.frames[j]).anchor_index != a,
        m.clock_lo <= r1 <= r2 <= u64::MAX,
    ensures
        ({
            let m2 = close_transition(open_transition(m, a, label, r1), r2);
            &&& m2.running_wf()
            &&& m2.anchors[a].hit_count == 1
            &&& m2.anchors[a].elapsed_inclusive == r2 - r1
            &&& m2.anchors[a].elapsed_exclusive == r2 - r1
            &&& m2.anchors[a].elapsed_inclusive == m2.anchors[a].elapsed_exclusive
            &&& m2.anchors[a].elapsed_min == r2 - r1
            &&& m2.anchors[a].elapsed_max == r2 - r1
            &&& m2.anchors[a].label == label
            &&& m2.current_open_block == m.current_open_block
        }),
{
    lemma_fresh_anchor(m, a);
    let m1 = open_transition(m, a, label, r1);
    lemma_open_preserves_wf(m, a, label, r1);
    lemma_close_preserves_wf(m1, r2);
    let m2 = close_transition(m1, r2);
    let len = m1.frames.len() as int;
    assert(m1.frames.last().anchor_index == a);
    assert(m1.frames[len - 2] == m.frames.last());
    assert(m.frame_ok(m.frames.len() - 1));
    assert(m.frames.last().anchor_index != a);
    assert(m1.anchors[a].elapsed_exclusive == 0);
    assert(m2.anchors[a].hit_count == 1);
}

/// Nesting: a parent region enclosing one child region, each hit once. The
/// parent's inclusive time splits exactly into the child's inclusive time
/// plus the parent's own exclusive time, which is non-negative.
pub proof fn lemma_nesting(
    m: ProfilerModel,
    pa: int,
    ca: int,
    lp: Seq<char>,
    lc: Seq<char>,
    r1: int,
    r2: int,
    r3: int,
    r4: int,
)
    requires
        m.running_wf(),
        0 < pa < m.capacity(),
        0 < ca < m.capacity(),
        pa != ca,
        m.anchors[pa].hit_count == 0,
        m.anchors[ca].hit_count == 0,
        forall|j: int| 0 <= j < m.frames.len() ==> (#[trigger] m.frames[j]).anchor_index != pa,
        forall|j: int| 0 <= j < m.frames.len() ==> (#[trigger] m.frames[j]).anchor_index != ca,
        m.clock_lo <= r1 <= r2 <= r3 <= r4 <= u64::MAX,
    ensures
        ({
            let m4 = close_transition(
                close_transition(open_transition(open_transition(m, pa, lp, r1), ca, lc, r2), r3),
                r4,
            );
            &&& m4.running_wf()
            &&& m4.anchors[pa].hit_count == 1
            &&& m4.anchors[ca].hit_count == 1
            &&& m4.anchors[ca].elapsed_inclusive == r3 - r2
            &&& m4.anchors[pa].elapsed_inclusive == r4 - r1
            &&& m4.anchors[pa].elapsed_exclusive == (r4 - r1) - (r3 - r2)
            &&& m4.anchors[pa].elapsed_inclusive == m4.anchors[ca].elapsed_inclusive
                + m4.anchors[pa].elapsed_exclusive
            &&& m4.anchors[pa].elapsed_exclusive >= 0
        }),
{
    lemma_fresh_anchor(m, pa);
    lemma_fresh_anchor(m, ca);
    let m1 = open_transition(m, pa, lp, r1);
    lemma_open_preserves_wf(m, pa, lp, r1);
    let m2 = open_transition(m1, ca, lc, r2);
    lemma_open_preserves_wf(m1, ca, lc, r2);
    let m3 = close_transition(m2, r3);
    lemma_close_preserves_wf(m2, r3);
    let m4 = close_transition(m3, r4);
    lemma_close_preserves_wf(m3, r4);
    let len2 = m2.frames.len() as int;
    assert(m2.frames.last().anchor_index == ca);
    assert(m2.frames[len2 - 2].anchor_index == pa);
    let len3 = m3.frames.len() as int;
    assert(m3.frames.last() == FrameModel {
        anchor_index: pa,
        start: r1,
        child_sum: r3 - r2,
        incl_prev: 0,
    });
    assert(m3.frames[len3 - 2] == m.frames.last());
    assert(m.frame_ok(m.frames.len() - 1));
    assert(m.frames.last().anchor_index != pa);
    assert(m.frames.last().anchor_index != ca);
    assert(m3.anchors[pa].elapsed_exclusive == -(r3 - r2));
    assert(m3.anchors[ca].elapsed_inclusive == r3 - r2);
    assert(m4.anchors[ca] == m3.anchors[ca]);
}

/// Recursion: a region that re-enters itself once before closing still
/// reports the combined hit count, the outer activation's full window as its
/// inclusive and exclusive time, and a non-negative exclusive time.
pub proof fn lemma_recursive_region(
    m: ProfilerModel,
    a: int,
    label: Seq<char>,
    r1: int,
    r2: int,
    r3: int,
    r4: int,
)
    requires
        m.running_wf(),
        0 < a < m.capacity(),
        m.anchors[a].hit_count == 0,
        forall|j: int| 0 <= j < m.frames.len() ==> (#[trigger] m.frames[j]).anchor_index != a,
        m.clock_lo <= r1 <= r2 <= r3 <= r4 <= u64::MAX,
    ensures
        ({
            let m4 = close_transition(
                close_transition(open_transition(open_transition(m, a, label, r1), a, label, r2), r3),
                r4,
            );
            &&& m4.running_wf()
            &&& m4.anchors[a].hit_count == 2
            &&& m4.anchors[a].elapsed_exclusive == r4 - r1
            &&& m4.anchors[a].elapsed_exclusive >= 0
            &&& m4.anchors[a].elapsed_inclusive == r4 - r1
            &&& m4.anchors[a].elapsed_min == r3 - r2
            &&& m4.anchors[a].elapsed_max == r4 - r1
        }),
{
    lemma_fresh_anchor(m, a);
    let m1 = open_transition(m, a, label, r1);
    lemma_open_preserves_wf(m, a, label, r1);
    let m2 = open_transition(m1, a, label, r2);
    lemma_open_preserves_wf(m1, a, label, r2);
    let m3 = close_transition(m2, r3);
    lemma_close_preserves_wf(m2, r3);
    let m4 = close_transition(m3, r4);
    lemma_close_preserves_wf(m3, r4);
    let len2 = m2.frames.len() as int;
    assert(m2.frames.last().anchor_index == a);
    assert(m2.frames[len2 - 2].anchor_index == a);
    assert(m3.anchors[a].elapsed_exclusive == 0);
    assert(m3.anchors[a].hit_count == 1);
    assert(m3.anchors[a].elapsed_min == r3 - r2);
    assert(m3.anchors[a].elapsed_max == r3 - r2);
    let len3 = m3.frames.len() as int;
    assert(m3.frames.last() == FrameModel {
        anchor_index: a,
        start: r1,
        child_sum: r3 - r2,
        incl_prev: 0,
    });
    assert(m3.frames[len3 - 2] == m.frames.last());
    assert(m.frame_ok(m.frames.len() - 1));
    assert(m.frames.last().anchor_index != a);
    assert(m4.anchors[a].elapsed_min == if r3 - r2 < r4 - r1 { r3 - r2 } else { r4 - r1 });
}

} // verus!

verus! {

/// Hitting anchor `a` repeatedly: open at each pair's first reading, close
/// at its second, in order.
pub open spec fn hits_transition(
    m: ProfilerModel,
    a: int,
    label: Seq<char>,
    rs: Seq<(int, int)>,
) -> ProfilerModel
    decreases rs.len(),
{
    if rs.len() == 0 {
        m
    } else {
        hits_transition(
            close_transition(open_transition(m, a, label, rs.first().0), rs.first().1),
            a,
            label,
            rs.drop_first(),
        )
    }
}

/// The reading pairs are ordered and start no earlier than `lo`.
pub open spec fn hits_valid(lo: int, rs: Seq<(int, int)>) -> bool
    decreases rs.len(),
{
    rs.len() == 0 || (lo <= rs.first().0 <= rs.first().1 <= u64::MAX && hits_valid(
        rs.first().1,
        rs.drop_first(),
    ))
}

/// Repeated hits accumulate: a region hit once per reading pair ends with a
/// hit count increased by the number of pairs, and every single elapsed
/// window lies between the recorded minimum and maximum.
pub proof fn lemma_repeated_hits(m: ProfilerModel, a: int, label: Seq<char>, rs: Seq<(int, int)>)
    requires
        m.running_wf(),
        0 < a < m.capacity(),
        forall|j: int| 0 <= j < m.frames.len() ==> (#[trigger] m.frames[j]).anchor_index != a,
        hits_valid(m.clock_lo, rs),
    ensures
        ({
            let m2 = hits_transition(m, a, label, rs);
            &&& m2.running_wf()
            &&& m2.anchors[a].hit_count == m.anchors[a].hit_count + rs.len()
            &&& forall|i: int|
                0 <= i < rs.len() ==> m2.anchors[a].elapsed_min <= (#[trigger] rs[i]).1 - rs[i].0
                    <= m2.anchors[a].elapsed_max
            &&& m2.anchors[a].elapsed_min <= m.anchors[a].elapsed_min
            &&& m2.anchors[a].elapsed_max >= m.anchors[a].elapsed_max
            &&& m2.current_open_block == m.current_open_block
            &&& m2.frames.len() == m.frames.len()
            &&& forall|j: int|
                0 <= j < m2.frames.len() ==> (#[trigger] m2.frames[j]).anchor_index
                    == m.frames[j].anchor_index
            &&& m2.clock_lo == if rs.len() == 0 {
                m.clock_lo
            } else {
                rs.last().1
            }
        }),
    decreases rs.len(),
{
    if rs.len() > 0 {
        let r1 = rs.first().0;
        let r2 = rs.first().1;
        let m1 = open_transition(m, a, label, r1);
        lemma_open_preserves_wf(m, a, label, r1);
        let mc = close_transition(m1, r2);
        lemma_close_preserves_wf(m1, r2);
        let len1 = m1.frames.len() as int;
        assert(m1.frames.last().anchor_index == a);
        assert(m1.frames[len1 - 2] == m.frames.last());
        assert(m.frame_ok(m.frames.len() - 1));
        assert(m.frames.last().anchor_index != a);
        assert(mc.anchors[a].hit_count == m.anchors[a].hit_count + 1);
        assert(mc.frames.len() == m.frames.len());
        assert forall|j: int| 0 <= j < mc.frames.len() implies (#[trigger] mc.frames[j]).anchor_index
            == m.frames[j].anchor_index by {
            if j < mc.frames.len() - 1 {
                assert(mc.frames[j] == m.frames[j]);
            }
        }
        lemma_repeated_hits(mc, a, label, rs.drop_first());
        let m2 = hits_transition(m, a, label, rs);
        assert(m2 == hits_transition(mc, a, label, rs.drop_first()));
        let e0 = r2 - r1;
        assert(mc.anchors[a].elapsed_min <= e0) by {
            assert(m.anchor_ok(a));
        }
        assert(mc.anchors[a].elapsed_max >= e0);
        assert forall|i: int|
            0 <= i < rs.len() implies m2.anchors[a].elapsed_min <= (#[trigger] rs[i]).1 - rs[i].0
                <= m2.anchors[a].elapsed_max by {
            if i > 0 {
                assert(rs.drop_first()[i - 1] == rs[i]);
            }
        }
        if rs.len() > 1 {
            assert(rs.drop_first().last() == rs.last());
        }
    }
}

} // verus!

verus! {

/// A table of all-zero exclusive accumulators sums to zero.
pub proof fn lemma_sum_excl_zero(s: Seq<AnchorModel>)
    requires
        forall|i: int| 0 <= i < s.len() ==> (#[trigger] s[i]).elapsed_exclusive == 0,
    ensures
        sum_excl(s) == 0,
    decreases s.len(),
{
    if s.len() > 0 {
        lemma_sum_excl_zero(s.drop_last());
    }
}

/// A sequence of zeroes sums to zero.
pub proof fn lemma_sum_ints_zero(s: Seq<int>)
    requires
        forall|i: int| 0 <= i < s.len() ==> s[i] == 0,
    ensures
        sum_ints(s) == 0,
    decreases s.len(),
{
    if s.len() > 0 {
        lemma_sum_ints_zero(s.drop_last());
    }
}

} // verus!

verus! {

/// The anchors that were hit, in anchor-table order.
pub open spec fn active_anchors(s: Seq<AnchorModel>) -> Seq<AnchorModel>
    decreases s.len(),
{
    if s.len() == 0 {
        Seq::empty()
    } else if s.last().hit_count > 0 {
        active_anchors(s.drop_last()).push(s.last())
    } else {
        active_anchors(s.drop_last())
    }
}

/// When every hit-less anchor past the root carries a zero accumulator, the
/// active anchors' exclusive times sum to the whole table's sum less the
/// root's.
pub proof fn lemma_active_sum(s: Seq<AnchorModel>)
    requires
        s.len() >= 1,
        s[0].hit_count == 0,
        forall|a: int| 0 <= a < s.len() ==> (#[trigger] s[a]).hit_count >= 0,
        forall|a: int|
            1 <= a < s.len() ==> ((#[trigger] s[a]).hit_count == 0 ==> s[a].elapsed_exclusive
                == 0),
    ensures
        sum_excl(active_anchors(s)) == sum_excl(s) - s[0].elapsed_exclusive,
    decreases s.len(),
{
    if s.len() == 1 {
        assert(s.last() == s[0]);
        assert(s.drop_last().len() == 0);
        assert(active_anchors(s.drop_last()) =~= Seq::<AnchorModel>::empty());
        assert(active_anchors(s) == active_anchors(s.drop_last()));
        assert(sum_excl(active_anchors(s)) == 0);
        assert(sum_excl(s) == sum_excl(s.drop_last()) + s.last().elapsed_exclusive);
    } else {
        let g = s.drop_last();
        assert(g[0] == s[0]);
        assert forall|a: int|
            0 <= a < g.len() implies (#[trigger] g[a]).hit_count >= 0 && (1 <= a
            ==> (g[a].hit_count == 0 ==> g[a].elapsed_exclusive == 0)) by {
            assert(g[a] == s[a]);
        }
        lemma_active_sum(g);
        assert(s[s.len() - 1] == s.last());
        if s.last().hit_count > 0 {
            let act = active_anchors(g).push(s.last());
            assert(act.drop_last() =~= active_anchors(g));
            assert(sum_excl(act) == sum_excl(active_anchors(g)) + s.last().elapsed_exclusive);
        } else {
            assert(s[s.len() - 1] == s.last());
            assert(s.last().elapsed_exclusive == 0);
        }
    }
}

/// Every active anchor keeps the bounds its table entry had.
pub proof fn lemma_active_bounds(s: Seq<AnchorModel>, total: int)
    requires
        forall|a: int|
            0 <= a < s.len() ==> ((#[trigger] s[a]).hit_count > 0 ==> 0
                <= s[a].elapsed_exclusive <= total && 0 <= s[a].elapsed_inclusive <= total && 0
                <= s[a].elapsed_min && s[a].elapsed_min <= s[a].elapsed_max <= total),
    ensures
        forall|k: int|
            0 <= k < active_anchors(s).len() ==> {
                let an = #[trigger] active_anchors(s)[k];
                &&& an.hit_count > 0
                &&& 0 <= an.elapsed_exclusive <= total
                &&& 0 <= an.elapsed_inclusive <= total
                &&& 0 <= an.elapsed_min
                &&& an.elapsed_min <= an.elapsed_max <= total
            },
    decreases s.len(),
{
    if s.len() > 0 {
        let g = s.drop_last();
        assert forall|a: int|
            0 <= a < g.len() implies ((#[trigger] g[a]).hit_count > 0 ==> 0
            <= g[a].elapsed_exclusive <= total && 0 <= g[a].elapsed_inclusive <= total && 0
            <= g[a].elapsed_min && g[a].elapsed_min <= g[a].elapsed_max <= total) by {
            assert(g[a] == s[a]);
        }
        lemma_active_bounds(g, total);
        assert(s[s.len() - 1] == s.last());
        if s.last().hit_count > 0 {
            let act = active_anchors(g).push(s.last());
            assert(active_anchors(s) == act);
            assert forall|k: int|
                0 <= k < act.len() implies {
                    let an = #[trigger] act[k];
                    &&& an.hit_count > 0
                    &&& 0 <= an.elapsed_exclusive <= total
                    &&& 0 <= an.elapsed_inclusive <= total
                    &&& 0 <= an.elapsed_min
                    &&& an.elapsed_min <= an.elapsed_max <= total
                } by {
                if k < act.len() - 1 {
                    assert(act[k] == active_anchors(g)[k]);
                } else {
                    assert(act[k] == s.last());
                }
            }
        }
    }
}

/// Report totals: the active anchors' exclusive times of a stopped session
/// sum to at most the session's total metric, and each lies within it.
pub proof fn lemma_report_totals(m: ProfilerModel)
    requires
        m.stopped_wf(),
    ensures
        0 <= sum_excl(active_anchors(m.anchors)) <= m.total_metric(),
        forall|k: int|
            0 <= k < active_anchors(m.anchors).len() ==> {
                let an = #[trigger] active_anchors(m.anchors)[k];
                &&& an.hit_count > 0
                &&& 0 <= an.elapsed_exclusive <= m.total_metric()
                &&& 0 <= an.elapsed_inclusive <= m.total_metric()
                &&& 0 <= an.elapsed_min
                &&& an.elapsed_min <= an.elapsed_max <= m.total_metric()
            },
{
    assert forall|a: int|
        0 <= a < m.anchors.len() implies (#[trigger] m.anchors[a]).hit_count >= 0 && (1 <= a
        ==> (m.anchors[a].hit_count == 0 ==> m.anchors[a].elapsed_exclusive == 0)) by {
        assert(m.stopped_anchor_ok(a));
    }
    assert forall|a: int|
        0 <= a < m.anchors.len() implies ((#[trigger] m.anchors[a]).hit_count > 0 ==> 0
        <= m.anchors[a].elapsed_exclusive <= m.total_metric() && 0
        <= m.anchors[a].elapsed_inclusive <= m.total_metric() && 0
        <= m.anchors[a].elapsed_min && m.anchors[a].elapsed_min <= m.anchors[a].elapsed_max
        <= m.total_metric()) by {
        assert(m.stopped_anchor_ok(a));
    }
    lemma_active_sum(m.anchors);
    lemma_active_bounds(m.anchors, m.total_metric());
    assert(m.stopped_anchor_ok(0));
    assert(m.anchors[0].elapsed_exclusive == -m.frames[0].child_sum);
}

} // verus!
