//! The per-thread profiler session and its scoped timing blocks.
//!
//! A `Profiler` is an explicit per-thread value: it owns its anchor table,
//! its session clock and its session state, so threads share nothing. A
//! region is timed by opening a [`ProfileBlock`] and closing it; blocks must
//! close in the reverse order they opened. That last-in-first-out discipline
//! is not checked at run time by the underlying algorithm — closing out of
//! order silently corrupts exclusive-time accounting — so here it is demanded
//! by `close`'s precondition: the block being closed must be the innermost
//! open one, which every caller has to show.

use vstd::pervasive::unreached;
use vstd::pervasive::VecAdditionalExecFns;
use vstd::prelude::*;

use crate::clock::MetricClock;
use crate::error::ProfileError;
use crate::metrics::{Counter, Duration, MetricType, ProfileMetric};
use crate::profile::model::{
    active_anchors, close_transition, lemma_close_preserves_wf, lemma_excl_bound,
    lemma_open_preserves_wf, lemma_report_totals, lemma_start_wf, lemma_stop_wf,
    lemma_sum_excl_zero, lemma_sum_ints_zero, open_transition, start_transition, stop_transition,
    sum_excl, AnchorModel, FrameModel, ProfilerModel,
};
use crate::report::rep::{Measurement, ProfileReport};

verus! {

/// Number of anchor slots a profiler owns. Requesting an anchor index at or
/// beyond this capacity is a configuration error, not a runtime condition.
pub const PROFILER_SIZE: usize = 1024;

/// Identity of an instrumentation point: source file, line and column. It is
/// used once to obtain a stable anchor index and not retained for scoring.
#[derive(Debug, Clone, Copy, Hash, PartialEq, Eq)]
pub struct CallSite {
    pub file: &'static str,
    pub line: u32,
    pub column: u32,
}

impl CallSite {
    /// A call-site identity from a source position.
    pub fn new(file: &'static str, line: u32, column: u32) -> (r: Self)
        ensures
            r.file == file && r.line == line && r.column == column,
    {
        CallSite { file, line, column }
    }
}

/// Aggregate statistics slot for one instrumented region.
#[derive(Debug, Clone, Copy)]
pub struct ProfileAnchor {
    /// Label to identify the profile block.
    pub label: &'static str,
    /// Number of times the anchor was hit.
    pub hit_count: u64,
    /// Metric elapsed not including children blocks. Signed: a closing child
    /// subtracts its elapsed time here before this anchor itself closes.
    pub elapsed_exclusive: i128,
    /// Metric elapsed including children blocks.
    pub elapsed_inclusive: u64,
    /// Minimum elapsed metric for a single activation.
    pub elapsed_min: u64,
    /// Maximum elapsed metric for a single activation.
    pub elapsed_max: u64,
}

impl View for ProfileAnchor {
    type V = AnchorModel;

    open spec fn view(&self) -> AnchorModel {
        AnchorModel {
            label: self.label@,
            hit_count: self.hit_count as int,
            elapsed_exclusive: self.elapsed_exclusive as int,
            elapsed_inclusive: self.elapsed_inclusive as int,
            elapsed_min: self.elapsed_min as int,
            elapsed_max: self.elapsed_max as int,
        }
    }
}

impl ProfileAnchor {
    /// An unused anchor slot.
    pub fn new(label: &'static str) -> (r: Self)
        ensures
            r.label == label,
            r.hit_count == 0,
            r.elapsed_exclusive == 0,
            r.elapsed_inclusive == 0,
            r.elapsed_min == u64::MAX,
            r.elapsed_max == 0,
    {
        ProfileAnchor {
            label,
            hit_count: 0,
            elapsed_exclusive: 0,
            elapsed_inclusive: 0,
            elapsed_min: u64::MAX,
            elapsed_max: 0,
        }
    }
}

/// A per-thread profiler session.
pub struct Profiler {
    anchors: Vec<ProfileAnchor>,
    current_open_block: usize,
    metric_type: MetricType,
    metric_init: Option<u64>,
    metric_final: Option<u64>,
    clock: MetricClock,
    next_index: usize,
    frames: Ghost<Seq<FrameModel>>,
    closed_self: Ghost<Seq<int>>,
}

impl View for Profiler {
    type V = ProfilerModel;

    closed spec fn view(&self) -> ProfilerModel {
        ProfilerModel {
            anchors: self.anchors@.map_values(|an: ProfileAnchor| an@),
            closed_self: self.closed_self@,
            frames: self.frames@,
            current_open_block: self.current_open_block as int,
            metric_type: self.metric_type,
            metric_init: self.metric_init,
            metric_final: self.metric_final,
            clock_lo: self.clock.spec_lo() as int,
        }
    }
}

/// The model's anchor table is exactly as long as the concrete one.
proof fn lemma_view_anchors_len(p: &Profiler)
    ensures
        p@.anchors.len() == p.anchors@.len(),
{
    assert(p@.anchors.len() == p.anchors@.len());
}

impl Profiler {
    /// The next anchor index the registry will hand out.
    pub closed spec fn spec_next_index(self) -> usize {
        self.next_index
    }

    /// A fresh idle profiler with every anchor slot unused. The call-site
    /// registry starts above the reserved root slot.
    pub fn new() -> (p: Profiler)
        ensures
            p@.idle_wf(),
            p@.capacity() == PROFILER_SIZE,
            p.spec_next_index() == 1,
            forall|a: int|
                0 <= a < p@.anchors.len() ==> {
                    let an = #[trigger] p@.anchors[a];
                    &&& an.hit_count == 0
                    &&& an.elapsed_exclusive == 0
                    &&& an.elapsed_inclusive == 0
                    &&& an.elapsed_min == u64::MAX
                    &&& an.elapsed_max == 0
                },
    {
        let mut anchors: Vec<ProfileAnchor> = Vec::new();
        let mut i: usize = 0;
        while i < PROFILER_SIZE
            invariant
                i <= PROFILER_SIZE,
                anchors@.len() == i,
                forall|k: int|
                    0 <= k < i ==> {
                        let an = #[trigger] anchors@[k];
                        an.hit_count == 0 && an.elapsed_exclusive == 0 && an.elapsed_inclusive
                            == 0 && an.elapsed_min == u64::MAX && an.elapsed_max == 0
                    },
            decreases PROFILER_SIZE - i,
        {
            anchors.push(ProfileAnchor::new("Uninit"));
            i += 1;
        }
        let p = Profiler {
            anchors,
            current_open_block: 0,
            metric_type: MetricType::OsClock,
            metric_init: None,
            metric_final: None,
            clock: MetricClock::new(),
            next_index: 1,
            frames: Ghost(Seq::empty()),
            closed_self: Ghost(Seq::new(PROFILER_SIZE as nat, |k: int| 0)),
        };
        proof {
            assert forall|a: int| 0 <= a < p@.anchors.len() implies p@.anchor_unused(a) by {
                assert(p@.anchors[a] == p.anchors@[a]@);
            }
            lemma_sum_excl_zero(p@.anchors);
            lemma_sum_ints_zero(p@.closed_self);
        }
        p
    }

    /// Hands out the next unique anchor index of this profiler's call-site
    /// registry. Allocation is monotonic, starting above the root slot.
    pub fn next_id(&mut self) -> (r: usize)
        requires
            old(self).spec_next_index() < usize::MAX,
        ensures
            r == old(self).spec_next_index(),
            final(self).spec_next_index() == old(self).spec_next_index() + 1,
            final(self)@ == old(self)@,
    {
        let current_index = self.next_index;
        self.next_index = self.next_index + 1;
        current_index
    }

    /// Samples the session's metric source. Every reading is at least as
    /// large as every earlier one of this profiler.
    pub fn read_current_metric(&mut self) -> (r: u64)
        requires
            old(self)@.metric_type.is_supported(),
        ensures
            r >= old(self)@.clock_lo,
            final(self)@ == (ProfilerModel { clock_lo: r as int, ..old(self)@ }),
            final(self).spec_next_index() == old(self).spec_next_index(),
    {
        match self.metric_type {
            MetricType::OsClock => self.clock.read(),
            MetricType::CpuCounter => self.clock.read(),
            MetricType::CpuCounterSerialized => unreached(),
        }
    }

    /// Starts this thread's session: locks in the metric kind and records
    /// the initial reading. The session then runs until [`Profiler::stop_global`].
    pub fn start_global(&mut self, metric_type: MetricType)
        requires
            old(self)@.idle_wf(),
            metric_type.is_supported(),
        ensures
            final(self)@ == start_transition(
                old(self)@,
                metric_type,
                final(self)@.metric_init.unwrap(),
            ),
            final(self)@.running_wf(),
            final(self)@.frames.len() == 1,
            final(self)@.metric_type == metric_type,
            final(self)@.anchors == old(self)@.anchors,
            final(self)@.capacity() == old(self)@.capacity(),
            final(self).spec_next_index() == old(self).spec_next_index(),
    {
        self.metric_type = metric_type;
        let r = self.read_current_metric();
        self.metric_init = Some(r);
        let ghost root = FrameModel {
            anchor_index: 0,
            start: r as int,
            child_sum: 0,
            incl_prev: 0,
        };
        proof {
            self.frames@ = seq![root];
            lemma_start_wf(old(self)@, metric_type, r);
            assert(self@ =~= start_transition(old(self)@, metric_type, r));
        }
    }

    /// Stops this thread's session and records the final reading. Every
    /// block opened during the session must already have closed.
    pub fn stop_global(&mut self)
        requires
            old(self)@.running_wf(),
            old(self)@.frames.len() == 1,
        ensures
            final(self)@ == stop_transition(old(self)@, final(self)@.metric_final.unwrap()),
            final(self)@.stopped_wf(),
            final(self)@.anchors == old(self)@.anchors,
            final(self).spec_next_index() == old(self).spec_next_index(),
    {
        let r = self.read_current_metric();
        self.metric_final = Some(r);
        proof {
            lemma_stop_wf(old(self)@, r);
            assert(self@ =~= stop_transition(old(self)@, r));
        }
    }
}

/// Wraps a raw reading in the metric type the session samples.
fn into_metric(metric_type: MetricType, value: u64) -> (r: ProfileMetric)
    ensures
        r.spec_raw() == value,
        ((r is OsClock) <==> (metric_type is OsClock)),
{
    match metric_type {
        MetricType::OsClock => ProfileMetric::OsClock(Duration::from_nanos(value)),
        MetricType::CpuCounter => ProfileMetric::CpuCounter(Counter::from_cycles(value)),
        MetricType::CpuCounterSerialized => ProfileMetric::CpuCounter(Counter::from_cycles(value)),
    }
}

impl Profiler {
    /// Builds the report of a stopped session: one measurement per anchor
    /// with a positive hit count, in anchor-table order, each expressed in
    /// the session's metric kind. In the idle state the report fails as not
    /// started; in the running state, as not finished. The measurements'
    /// exclusive times sum to at most the session's total metric.
    pub fn report(&self) -> (r: Result<ProfileReport, ProfileError>)
        requires
            self@.inv(),
        ensures
            ((r is Ok) <==> self@.is_stopped()),
            self@.metric_init is None ==> r == Result::<ProfileReport, ProfileError>::Err(
                ProfileError::NotStarted,
            ),
            self@.metric_init is Some && self@.metric_final is None ==> r == Result::<
                ProfileReport,
                ProfileError,
            >::Err(ProfileError::NotFinished),
            match r {
                Result::Ok(rep) => {
                    &&& rep.wf()
                    &&& rep.spec_measurements() == active_anchors(self@.anchors)
                    &&& rep.spec_total() == self@.total_metric()
                    &&& rep.spec_init().spec_raw() == self@.init_reading()
                    &&& rep.spec_final().spec_raw() == self@.final_reading()
                    &&& 0 <= sum_excl(rep.spec_measurements()) <= rep.spec_total()
                },
                Result::Err(e) => e == ProfileError::NotStarted || e == ProfileError::NotFinished,
            },
    {
        let metric_init_value = match self.metric_init {
            None => {
                return Err(ProfileError::NotStarted);
            },
            Some(v) => v,
        };
        let metric_final_value = match self.metric_final {
            None => {
                return Err(ProfileError::NotFinished);
            },
            Some(v) => v,
        };
        proof {
            assert(self@.is_stopped());
            assert(self@.stopped_wf());
            lemma_report_totals(self@);
            lemma_view_anchors_len(self);
        }
        let metric_init = into_metric(self.metric_type, metric_init_value);
        let metric_final = into_metric(self.metric_type, metric_final_value);
        let mut report = ProfileReport::new(metric_init, metric_final);
        let ghost anchors = self@.anchors;
        let mut i: usize = 0;
        while i < self.anchors.len()
            invariant
                self@.stopped_wf(),
                anchors == self@.anchors,
                self.anchors@.len() == anchors.len(),
                i <= anchors.len(),
                report.wf(),
                report.spec_init() == metric_init,
                report.spec_final() == metric_final,
                metric_init.spec_raw() == self@.init_reading(),
                metric_final.spec_raw() == self@.final_reading(),
                (metric_init is OsClock <==> self.metric_type is OsClock),
                report.spec_measurements() == active_anchors(anchors.subrange(0, i as int)),
            decreases anchors.len() - i,
        {
            let anchor = self.anchors[i];
            proof {
                assert(self@.stopped_anchor_ok(i as int));
                assert(anchors[i as int] == self.anchors@[i as int]@);
            }
            if anchor.hit_count > 0 {
                let excl_raw = anchor.elapsed_exclusive as u64;
                let meas = Measurement {
                    label: anchor.label,
                    hit_count: anchor.hit_count,
                    elapsed_exclusive: into_metric(self.metric_type, excl_raw),
                    elapsed_inclusive: into_metric(self.metric_type, anchor.elapsed_inclusive),
                    elapsed_min: into_metric(self.metric_type, anchor.elapsed_min),
                    elapsed_max: into_metric(self.metric_type, anchor.elapsed_max),
                };
                proof {
                    assert(report.row_wf(meas));
                    assert(meas@ == anchors[i as int]);
                }
                report.push_measurement(meas);
                proof {
                    assert(report.spec_measurements() =~= active_anchors(
                        anchors.subrange(0, i as int),
                    ).push(meas@));
                }
            }
            i = i + 1;
            proof {
                let pre = anchors.subrange(0, i - 1);
                let now = anchors.subrange(0, i as int);
                assert(now.drop_last() =~= pre);
                assert(now.last() == anchors[i - 1]);
            }
        }
        proof {
            assert(anchors.subrange(0, anchors.len() as int) =~= anchors);
        }
        Ok(report)
    }
}

/// A scoped timing token: opening one begins timing a region, closing it
/// folds the measurement into the anchor table.
#[derive(Debug)]
pub struct ProfileBlock {
    anchor_index: usize,
    parent_index: usize,
    start_counter: u64,
    elapsed_inclusive_prev: u64,
}

impl ProfileBlock {
    /// The anchor this activation belongs to.
    pub closed spec fn spec_anchor_index(self) -> usize {
        self.anchor_index
    }

    /// The anchor that was open when this block was created.
    pub closed spec fn spec_parent_index(self) -> usize {
        self.parent_index
    }

    /// The raw metric reading at creation.
    pub closed spec fn spec_start(self) -> u64 {
        self.start_counter
    }

    /// The anchor's inclusive time captured at creation.
    pub closed spec fn spec_incl_prev(self) -> u64 {
        self.elapsed_inclusive_prev
    }

    /// Opens a block: the region at `anchor_index` becomes the open block,
    /// its label is stored on the anchor's first hit, and the metric source
    /// is read. The returned token matches the newly opened frame, which is
    /// what [`ProfileBlock::close`] requires back.
    pub fn new(profiler: &mut Profiler, label: &'static str, anchor_index: usize) -> (b:
        ProfileBlock)
        requires
            old(profiler)@.running_wf(),
            0 < anchor_index < old(profiler)@.capacity(),
        ensures
            final(profiler)@ == open_transition(
                old(profiler)@,
                anchor_index as int,
                label@,
                b.spec_start() as int,
            ),
            final(profiler)@.running_wf(),
            b.spec_start() >= old(profiler)@.clock_lo,
            b.spec_anchor_index() == anchor_index,
            b.spec_parent_index() as int == old(profiler)@.current_open_block,
            b.spec_incl_prev() as int == old(profiler)@.anchors[anchor_index as int].elapsed_inclusive,
            final(profiler)@.frames.len() == old(profiler)@.frames.len() + 1,
            final(profiler)@.frames.last() == (FrameModel {
                anchor_index: anchor_index as int,
                start: b.spec_start() as int,
                child_sum: 0,
                incl_prev: b.spec_incl_prev() as int,
            }),
            final(profiler)@.frames.drop_last() == old(profiler)@.frames,
            final(profiler)@.capacity() == old(profiler)@.capacity(),
            final(profiler)@.clock_lo == b.spec_start(),
            forall|k: int|
                0 <= k < final(profiler)@.anchors.len() ==> {
                    let an = #[trigger] final(profiler)@.anchors[k];
                    &&& an.hit_count == old(profiler)@.anchors[k].hit_count
                    &&& an.elapsed_exclusive == old(profiler)@.anchors[k].elapsed_exclusive
                    &&& an.elapsed_inclusive == old(profiler)@.anchors[k].elapsed_inclusive
                    &&& an.elapsed_min == old(profiler)@.anchors[k].elapsed_min
                    &&& an.elapsed_max == old(profiler)@.anchors[k].elapsed_max
                },
            final(profiler).spec_next_index() == old(profiler).spec_next_index(),
    {
        let ghost m0 = profiler@;
        let parent_index = profiler.current_open_block;
        proof {
            assert(m0.frame_ok(m0.frames.len() - 1));
            lemma_view_anchors_len(profiler);
        }
        let mut anchor = profiler.anchors[anchor_index];
        if anchor.hit_count == 0 {
            anchor.label = label;
            profiler.anchors.set(anchor_index, anchor);
        }
        profiler.current_open_block = anchor_index;
        let start_counter = profiler.read_current_metric();
        proof {
            lemma_view_anchors_len(profiler);
            assert(profiler@.anchors.len() == m0.anchors.len());
            assert(profiler@.anchors[anchor_index as int]
                == profiler.anchors@[anchor_index as int]@);
            assert(profiler@.anchors[anchor_index as int].elapsed_inclusive
                == m0.anchors[anchor_index as int].elapsed_inclusive);
            assert(profiler.frames@ == m0.frames);
        }
        let elapsed_inclusive_prev = profiler.anchors[anchor_index].elapsed_inclusive;
        let ghost f = FrameModel {
            anchor_index: anchor_index as int,
            start: start_counter as int,
            child_sum: 0,
            incl_prev: elapsed_inclusive_prev as int,
        };
        let ghost fs2 = profiler.frames@.push(f);
        proof {
            profiler.frames@ = fs2;
        }
        let b = ProfileBlock {
            anchor_index,
            parent_index,
            start_counter,
            elapsed_inclusive_prev,
        };
        proof {
            lemma_open_preserves_wf(m0, anchor_index as int, label@, start_counter as int);
            let m2 = open_transition(m0, anchor_index as int, label@, start_counter as int);
            lemma_view_anchors_len(profiler);
            assert forall|k: int| 0 <= k < m0.anchors.len() implies profiler@.anchors[k]
                == m2.anchors[k] by {
                assert(profiler@.anchors[k] == profiler.anchors@[k]@);
            }
            assert(profiler@.anchors =~= open_transition(
                m0,
                anchor_index as int,
                label@,
                start_counter as int,
            ).anchors);
            assert(profiler@.frames =~= m2.frames);
            assert(profiler@ =~= open_transition(
                m0,
                anchor_index as int,
                label@,
                start_counter as int,
            ));
        }
        b
    }

    /// Closes this block: reads the metric source, folds the elapsed time
    /// into the block's anchor, restores the parent as the open block, and
    /// subtracts the elapsed time from the parent anchor's exclusive time.
    /// The block must be the innermost open one — blocks close strictly in
    /// reverse order of opening.
    pub fn close(self, profiler: &mut Profiler)
        requires
            old(profiler)@.running_wf(),
            old(profiler)@.frames.len() >= 2,
            old(profiler)@.frames.last().anchor_index == self.spec_anchor_index() as int,
            old(profiler)@.frames.last().start == self.spec_start() as int,
            old(profiler)@.frames.last().incl_prev == self.spec_incl_prev() as int,
            old(profiler)@.frames[old(profiler)@.frames.len() - 2].anchor_index
                == self.spec_parent_index() as int,
            old(profiler)@.anchors[self.spec_anchor_index() as int].hit_count < u64::MAX,
        ensures
            final(profiler)@ == close_transition(old(profiler)@, final(profiler)@.clock_lo),
            final(profiler)@.running_wf(),
            final(profiler)@.clock_lo >= old(profiler)@.clock_lo,
            final(profiler)@.frames.len() == old(profiler)@.frames.len() - 1,
            final(profiler)@.capacity() == old(profiler)@.capacity(),
            final(profiler)@.anchors[self.spec_anchor_index() as int].hit_count
                == old(profiler)@.anchors[self.spec_anchor_index() as int].hit_count + 1,
            ({
                let a = self.spec_anchor_index() as int;
                let q = self.spec_parent_index() as int;
                let e = final(profiler)@.clock_lo - self.spec_start();
                let an = final(profiler)@.anchors[a];
                let before = old(profiler)@.anchors[a];
                &&& e >= 0
                &&& an.elapsed_inclusive == self.spec_incl_prev() + e
                &&& an.elapsed_min == if e < before.elapsed_min {
                    e
                } else {
                    before.elapsed_min
                }
                &&& an.elapsed_max == if e > before.elapsed_max {
                    e
                } else {
                    before.elapsed_max
                }
                &&& (a != q ==> an.elapsed_exclusive == before.elapsed_exclusive + e
                    && final(profiler)@.anchors[q].elapsed_exclusive
                    == old(profiler)@.anchors[q].elapsed_exclusive - e)
                &&& (a == q ==> an.elapsed_exclusive == before.elapsed_exclusive)
            }),
            forall|k: int|
                0 <= k < final(profiler)@.anchors.len() && k != self.spec_anchor_index() as int
                    && k != self.spec_parent_index() as int
                    ==> (#[trigger] final(profiler)@.anchors[k]) == old(profiler)@.anchors[k],
            forall|k: int|
                0 <= k < final(profiler)@.anchors.len() && k != self.spec_anchor_index() as int
                    ==> (#[trigger] final(profiler)@.anchors[k]).hit_count
                    == old(profiler)@.anchors[k].hit_count,
            forall|j: int|
                0 <= j < final(profiler)@.frames.len() ==> {
                    let f = #[trigger] final(profiler)@.frames[j];
                    &&& f.anchor_index == old(profiler)@.frames[j].anchor_index
                    &&& f.start == old(profiler)@.frames[j].start
                    &&& f.incl_prev == old(profiler)@.frames[j].incl_prev
                },
            final(profiler).spec_next_index() == old(profiler).spec_next_index(),
    {
        let ghost m0 = profiler@;
        let ghost len = m0.frames.len() as int;
        let ghost top = m0.frames.last();
        proof {
            assert(m0.frame_ok(len - 1));
            assert(m0.frame_ok(len - 2));
            assert(m0.frames[len - 1] == top);
            assert(crate::profile::model::frame_end(m0.frames, m0.clock_lo, len - 1)
                == m0.clock_lo);
            lemma_excl_bound(m0, self.spec_anchor_index() as int);
            lemma_excl_bound(m0, self.spec_parent_index() as int);
        }
        let r = profiler.read_current_metric();
        let elapsed = r - self.start_counter;
        let mut anchor = profiler.anchors[self.anchor_index];
        anchor.hit_count = anchor.hit_count + 1;
        anchor.elapsed_exclusive = anchor.elapsed_exclusive + (elapsed as i128);
        anchor.elapsed_inclusive = self.elapsed_inclusive_prev + elapsed;
        if elapsed < anchor.elapsed_min {
            anchor.elapsed_min = elapsed;
        }
        if elapsed > anchor.elapsed_max {
            anchor.elapsed_max = elapsed;
        }
        profiler.anchors.set(self.anchor_index, anchor);
        profiler.current_open_block = self.parent_index;
        let mut parent = profiler.anchors[self.parent_index];
        parent.elapsed_exclusive = parent.elapsed_exclusive - (elapsed as i128);
        profiler.anchors.set(self.parent_index, parent);
        let ghost a = self.spec_anchor_index() as int;
        let ghost fs2 = m0.frames.drop_last().update(
            len - 2,
            FrameModel {
                child_sum: m0.frames[len - 2].child_sum + (r - top.start),
                ..m0.frames[len - 2]
            },
        );
        let ghost cs2 = m0.closed_self.update(
            a,
            m0.closed_self[a] + (r - top.start) - top.child_sum,
        );
        proof {
            profiler.frames@ = fs2;
            profiler.closed_self@ = cs2;
            lemma_close_preserves_wf(m0, r as int);
            assert(profiler@.anchors =~= close_transition(m0, r as int).anchors);
            assert(profiler@ =~= close_transition(m0, r as int));
        }
    }
}

} // verus!
