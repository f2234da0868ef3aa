//! The profile report: per-anchor measurements, column-wise statistics for
//! ranking, and CSV export.

use vstd::prelude::*;
use vstd::string::StringExecFns;

use crate::metrics::ProfileMetric;
use crate::profile::model::AnchorModel;
use crate::report::fmt::{metric_text, spec_metric_text};

verus! {

/// Both metric values come from the same metric kind.
pub open spec fn metric_kind_matches(a: ProfileMetric, b: ProfileMetric) -> bool {
    match (a, b) {
        (ProfileMetric::OsClock(_), ProfileMetric::OsClock(_)) => true,
        (ProfileMetric::CpuCounter(_), ProfileMetric::CpuCounter(_)) => true,
        _ => false,
    }
}

/// The integer percentage `v` makes of `total` (zero when `total` is zero).
pub open spec fn spec_pct(v: u64, total: u64) -> u64 {
    if total == 0 {
        0
    } else {
        ((v as int) * 100 / (total as int)) as u64
    }
}

/// One per-anchor snapshot of a finished session.
#[derive(Debug, Clone, Copy)]
pub struct Measurement {
    /// Label that identifies the profile block.
    pub label: &'static str,
    /// Number of times the anchor was hit.
    pub hit_count: u64,
    /// Metric elapsed not including children blocks.
    pub elapsed_exclusive: ProfileMetric,
    /// Metric elapsed including children blocks.
    pub elapsed_inclusive: ProfileMetric,
    /// Minimum elapsed metric for a single activation.
    pub elapsed_min: ProfileMetric,
    /// Maximum elapsed metric for a single activation.
    pub elapsed_max: ProfileMetric,
}

impl View for Measurement {
    type V = AnchorModel;

    open spec fn view(&self) -> AnchorModel {
        AnchorModel {
            label: self.label@,
            hit_count: self.hit_count as int,
            elapsed_exclusive: self.elapsed_exclusive.spec_raw() as int,
            elapsed_inclusive: self.elapsed_inclusive.spec_raw() as int,
            elapsed_min: self.elapsed_min.spec_raw() as int,
            elapsed_max: self.elapsed_max.spec_raw() as int,
        }
    }
}

/// The text of one CSV row for a measurement.
pub open spec fn spec_csv_row(m: Measurement) -> Seq<char> {
    m.label@ + ","@ + spec_metric_text(m.elapsed_exclusive) + ","@ + spec_metric_text(
        m.elapsed_inclusive,
    ) + ","@ + spec_metric_text(m.elapsed_min) + ","@ + spec_metric_text(m.elapsed_max)
}

/// A flat, order-preserving sequence of per-anchor measurements of one
/// finished session, immutable after construction.
#[derive(Debug)]
pub struct ProfileReport {
    metric_init: ProfileMetric,
    metric_final: ProfileMetric,
    measurements: Vec<Measurement>,
}

impl ProfileReport {
    /// The session's initial metric reading.
    pub closed spec fn spec_init(self) -> ProfileMetric {
        self.metric_init
    }

    /// The session's final metric reading.
    pub closed spec fn spec_final(self) -> ProfileMetric {
        self.metric_final
    }

    /// The measurement rows, in anchor-table order.
    pub closed spec fn spec_rows(self) -> Seq<Measurement> {
        self.measurements@
    }

    /// The rows as abstract anchor statistics.
    pub open spec fn spec_measurements(self) -> Seq<AnchorModel> {
        self.spec_rows().map_values(|m: Measurement| m@)
    }

    /// The whole session's elapsed metric.
    pub open spec fn spec_total(self) -> int {
        self.spec_final().spec_raw() - self.spec_init().spec_raw()
    }

    /// A row is plausible for this report: it was hit, its values fit in the
    /// session, and its metric kind is the session's.
    pub open spec fn row_wf(self, m: Measurement) -> bool {
        &&& m.hit_count > 0
        &&& metric_kind_matches(m.elapsed_exclusive, self.spec_init())
        &&& metric_kind_matches(m.elapsed_inclusive, self.spec_init())
        &&& metric_kind_matches(m.elapsed_min, self.spec_init())
        &&& metric_kind_matches(m.elapsed_max, self.spec_init())
        &&& m.elapsed_exclusive.spec_raw() <= self.spec_total()
        &&& m.elapsed_inclusive.spec_raw() <= self.spec_total()
        &&& m.elapsed_min.spec_raw() <= m.elapsed_max.spec_raw()
        &&& m.elapsed_max.spec_raw() <= self.spec_total()
    }

    /// The report is well-formed.
    pub open spec fn wf(self) -> bool {
        &&& metric_kind_matches(self.spec_init(), self.spec_final())
        &&& self.spec_init().spec_raw() <= self.spec_final().spec_raw()
        &&& forall|i: int|
            0 <= i < self.spec_rows().len() ==> self.row_wf(#[trigger] self.spec_rows()[i])
    }

    /// An empty report over the session bounds.
    pub fn new(metric_init: ProfileMetric, metric_final: ProfileMetric) -> (r: Self)
        requires
            metric_kind_matches(metric_init, metric_final),
            metric_init.spec_raw() <= metric_final.spec_raw(),
        ensures
            r.wf(),
            r.spec_init() == metric_init,
            r.spec_final() == metric_final,
            r.spec_rows() =~= Seq::<Measurement>::empty(),
    {
        ProfileReport { metric_init, metric_final, measurements: Vec::new() }
    }

    /// Appends one measurement row.
    pub fn push_measurement(&mut self, meas: Measurement)
        requires
            old(self).wf(),
            old(self).row_wf(meas),
        ensures
            final(self).wf(),
            final(self).spec_rows() == old(self).spec_rows().push(meas),
            final(self).spec_init() == old(self).spec_init(),
            final(self).spec_final() == old(self).spec_final(),
    {
        self.measurements.push(meas);
        proof {
            assert forall|i: int| 0 <= i < self.spec_rows().len() implies self.row_wf(
                #[trigger] self.spec_rows()[i],
            ) by {
                if i < old(self).spec_rows().len() {
                    assert(old(self).row_wf(old(self).spec_rows()[i]));
                    assert(self.spec_rows()[i] == old(self).spec_rows()[i]);
                } else {
                    assert(self.spec_rows()[i] == meas);
                }
            }
        }
    }

    /// The measurement rows.
    pub fn measurements(&self) -> (r: &Vec<Measurement>)
        ensures
            r@ == self.spec_rows(),
    {
        &self.measurements
    }

    /// The whole session's elapsed metric, as raw ticks.
    pub fn total_metric(&self) -> (r: u64)
        requires
            self.wf(),
        ensures
            r == self.spec_total(),
    {
        match (self.metric_init, self.metric_final) {
            (ProfileMetric::OsClock(init), ProfileMetric::OsClock(fin)) => fin.as_nanos()
                - init.as_nanos(),
            (ProfileMetric::CpuCounter(init), ProfileMetric::CpuCounter(fin)) => fin.cycles()
                - init.cycles(),
            _ => vstd::pervasive::unreached(),
        }
    }

    /// Derives the per-column minima and maxima used to rank cells when the
    /// report is rendered. Column `k` holds the value of measurement `k`;
    /// proportions are integer percentages of the session total.
    pub fn calculate_transpose(&self) -> (r: Columns)
        requires
            self.wf(),
        ensures
            r.consistent(),
            r.wf(),
            r.hit_count.values@.len() == self.spec_rows().len(),
            r.hit_count.values@ == self.spec_rows().map_values(|m: Measurement| m.hit_count),
            r.elapsed_exclusive.values@ == self.spec_rows().map_values(
                |m: Measurement| m.elapsed_exclusive.spec_raw(),
            ),
            r.proportion_exclusive.values@ == self.spec_rows().map_values(
                |m: Measurement| spec_pct(m.elapsed_exclusive.spec_raw(), self.spec_total() as u64),
            ),
            r.elapsed_inclusive.values@ == self.spec_rows().map_values(
                |m: Measurement| m.elapsed_inclusive.spec_raw(),
            ),
            r.proportion_inclusive.values@ == self.spec_rows().map_values(
                |m: Measurement| spec_pct(m.elapsed_inclusive.spec_raw(), self.spec_total() as u64),
            ),
            r.elapsed_min.values@ == self.spec_rows().map_values(
                |m: Measurement| m.elapsed_min.spec_raw(),
            ),
            r.elapsed_max.values@ == self.spec_rows().map_values(
                |m: Measurement| m.elapsed_max.spec_raw(),
            ),
            r.range.values@ == self.spec_rows().map_values(
                |m: Measurement| (m.elapsed_max.spec_raw() - m.elapsed_min.spec_raw()) as u64,
            ),
    {
        let total = self.total_metric();
        let mut transpose = Columns::new();
        let mut i: usize = 0;
        let ghost rows = self.spec_rows();
        while i < self.measurements.len()
            invariant
                self.wf(),
                rows == self.spec_rows(),
                self.spec_total() == total,
                i <= rows.len(),
                self.measurements@.len() == rows.len(),
                transpose.consistent(),
                transpose.wf(),
                transpose.hit_count.values@.len() == i,
                transpose.hit_count.values@ == rows.subrange(0, i as int).map_values(
                    |m: Measurement| m.hit_count,
                ),
                transpose.elapsed_exclusive.values@ == rows.subrange(0, i as int).map_values(
                    |m: Measurement| m.elapsed_exclusive.spec_raw(),
                ),
                transpose.proportion_exclusive.values@ == rows.subrange(0, i as int).map_values(
                    |m: Measurement| spec_pct(m.elapsed_exclusive.spec_raw(), total),
                ),
                transpose.elapsed_inclusive.values@ == rows.subrange(0, i as int).map_values(
                    |m: Measurement| m.elapsed_inclusive.spec_raw(),
                ),
                transpose.proportion_inclusive.values@ == rows.subrange(0, i as int).map_values(
                    |m: Measurement| spec_pct(m.elapsed_inclusive.spec_raw(), total),
                ),
                transpose.elapsed_min.values@ == rows.subrange(0, i as int).map_values(
                    |m: Measurement| m.elapsed_min.spec_raw(),
                ),
                transpose.elapsed_max.values@ == rows.subrange(0, i as int).map_values(
                    |m: Measurement| m.elapsed_max.spec_raw(),
                ),
                transpose.range.values@ == rows.subrange(0, i as int).map_values(
                    |m: Measurement| (m.elapsed_max.spec_raw() - m.elapsed_min.spec_raw()) as u64,
                ),
            decreases rows.len() - i,
        {
            let meas = self.measurements[i];
            proof {
                assert(self.row_wf(rows[i as int]));
            }
            transpose.hit_count.insert_value(meas.hit_count);
            transpose.elapsed_exclusive.insert_value(meas.elapsed_exclusive.raw());
            transpose.proportion_exclusive.insert_value(pct(meas.elapsed_exclusive.raw(), total));
            transpose.elapsed_inclusive.insert_value(meas.elapsed_inclusive.raw());
            transpose.proportion_inclusive.insert_value(pct(meas.elapsed_inclusive.raw(), total));
            transpose.elapsed_min.insert_value(meas.elapsed_min.raw());
            transpose.elapsed_max.insert_value(meas.elapsed_max.raw());
            transpose.range.insert_value(meas.elapsed_max.raw() - meas.elapsed_min.raw());
            i = i + 1;
            proof {
                let pre = rows.subrange(0, i - 1);
                let now = rows.subrange(0, i as int);
                assert(now.drop_last() =~= pre);
                assert(now =~= pre.push(rows[i - 1]));
                assert(now.map_values(|m: Measurement| m.hit_count) =~= pre.map_values(
                    |m: Measurement| m.hit_count,
                ).push(rows[i - 1].hit_count));
                assert(now.map_values(|m: Measurement| m.elapsed_exclusive.spec_raw())
                    =~= pre.map_values(|m: Measurement| m.elapsed_exclusive.spec_raw()).push(
                    rows[i - 1].elapsed_exclusive.spec_raw(),
                ));
                assert(now.map_values(
                    |m: Measurement| spec_pct(m.elapsed_exclusive.spec_raw(), total),
                ) =~= pre.map_values(
                    |m: Measurement| spec_pct(m.elapsed_exclusive.spec_raw(), total),
                ).push(spec_pct(rows[i - 1].elapsed_exclusive.spec_raw(), total)));
                assert(now.map_values(|m: Measurement| m.elapsed_inclusive.spec_raw())
                    =~= pre.map_values(|m: Measurement| m.elapsed_inclusive.spec_raw()).push(
                    rows[i - 1].elapsed_inclusive.spec_raw(),
                ));
                assert(now.map_values(
                    |m: Measurement| spec_pct(m.elapsed_inclusive.spec_raw(), total),
                ) =~= pre.map_values(
                    |m: Measurement| spec_pct(m.elapsed_inclusive.spec_raw(), total),
                ).push(spec_pct(rows[i - 1].elapsed_inclusive.spec_raw(), total)));
                assert(now.map_values(|m: Measurement| m.elapsed_min.spec_raw())
                    =~= pre.map_values(|m: Measurement| m.elapsed_min.spec_raw()).push(
                    rows[i - 1].elapsed_min.spec_raw(),
                ));
                assert(now.map_values(|m: Measurement| m.elapsed_max.spec_raw())
                    =~= pre.map_values(|m: Measurement| m.elapsed_max.spec_raw()).push(
                    rows[i - 1].elapsed_max.spec_raw(),
                ));
                assert(now.map_values(
                    |m: Measurement| (m.elapsed_max.spec_raw() - m.elapsed_min.spec_raw()) as u64,
                ) =~= pre.map_values(
                    |m: Measurement| (m.elapsed_max.spec_raw() - m.elapsed_min.spec_raw()) as u64,
                ).push((rows[i - 1].elapsed_max.spec_raw() - rows[i - 1].elapsed_min.spec_raw())
                    as u64));
            }
        }
        proof {
            assert(rows.subrange(0, rows.len() as int) =~= rows);
        }
        transpose
    }

    /// The report as CSV lines: a header, then one row per active anchor, in
    /// the order of the in-memory measurement sequence. Every measurement
    /// appears exactly once, as row `k + 1`.
    pub fn csv_lines(&self) -> (lines: Vec<String>)
        ensures
            lines@.len() == 1 + self.spec_rows().len(),
            lines@[0]@ == "label,elapsed_exc,elapsed_inc,minimum,maximum"@,
            forall|k: int|
                0 <= k < self.spec_rows().len() ==> lines@[k + 1]@ == spec_csv_row(
                    #[trigger] self.spec_rows()[k],
                ),
    {
        let mut lines: Vec<String> = Vec::new();
        lines.push(String::from_str("label,elapsed_exc,elapsed_inc,minimum,maximum"));
        let mut i: usize = 0;
        while i < self.measurements.len()
            invariant
                i <= self.measurements@.len(),
                lines@.len() == 1 + i,
                lines@[0]@ == "label,elapsed_exc,elapsed_inc,minimum,maximum"@,
                forall|k: int|
                    0 <= k < i ==> lines@[k + 1]@ == spec_csv_row(
                        #[trigger] self.measurements@[k],
                    ),
            decreases self.measurements@.len() - i,
        {
            let meas = self.measurements[i];
            let mut row = String::from_str(meas.label);
            row.append(",");
            row.append(metric_text(meas.elapsed_exclusive).as_str());
            row.append(",");
            row.append(metric_text(meas.elapsed_inclusive).as_str());
            row.append(",");
            row.append(metric_text(meas.elapsed_min).as_str());
            row.append(",");
            row.append(metric_text(meas.elapsed_max).as_str());
            lines.push(row);
            i = i + 1;
        }
        lines
    }
}

/// The integer percentage `v` makes of `total`.
fn pct(v: u64, total: u64) -> (r: u64)
    requires
        v <= total,
    ensures
        r == spec_pct(v, total),
{
    if total == 0 {
        0
    } else {
        let p = ((v as u128) * 100) / (total as u128);
        proof {
            assert((v as int) * 100 / (total as int) <= 100) by (nonlinear_arith)
                requires
                    v <= total,
                    total > 0,
            ;
            assert((v as int) * 100 / (total as int) >= 0) by (nonlinear_arith)
                requires
                    total > 0,
            ;
        }
        p as u64
    }
}

/// One numeric report column with its own minimum and maximum, used purely
/// to rank cells when rendering.
#[derive(Debug)]
pub struct Column {
    pub values: Vec<u64>,
    pub min_value: u64,
    pub max_value: u64,
}

impl Column {
    /// The recorded bounds bracket every value in the column.
    pub open spec fn wf(self) -> bool {
        forall|i: int|
            0 <= i < self.values@.len() ==> self.min_value <= #[trigger] self.values@[i]
                <= self.max_value
    }

    /// An empty column.
    pub fn new() -> (r: Self)
        ensures
            r.values@.len() == 0,
            r.min_value == u64::MAX,
            r.max_value == 0,
            r.wf(),
    {
        Column { values: Vec::new(), min_value: u64::MAX, max_value: 0 }
    }

    /// Appends a value and widens the column's bounds to cover it.
    pub fn insert_value(&mut self, value: u64)
        ensures
            final(self).values@ == old(self).values@.push(value),
            final(self).min_value == if value < old(self).min_value {
                value
            } else {
                old(self).min_value
            },
            final(self).max_value == if value > old(self).max_value {
                value
            } else {
                old(self).max_value
            },
            old(self).wf() ==> final(self).wf(),
    {
        self.values.push(value);
        if value < self.min_value {
            self.min_value = value;
        }
        if value > self.max_value {
            self.max_value = value;
        }
    }

    /// Number of values in the column.
    pub fn len(&self) -> (r: usize)
        ensures
            r == self.values@.len(),
    {
        self.values.len()
    }
}

/// The report's numeric columns, one entry per measurement each.
#[derive(Debug)]
pub struct Columns {
    pub hit_count: Column,
    pub elapsed_exclusive: Column,
    pub proportion_exclusive: Column,
    pub elapsed_inclusive: Column,
    pub proportion_inclusive: Column,
    pub elapsed_min: Column,
    pub elapsed_max: Column,
    pub range: Column,
}

impl Columns {
    /// Every column has one entry per measurement.
    pub open spec fn consistent(self) -> bool {
        &&& self.elapsed_exclusive.values@.len() == self.hit_count.values@.len()
        &&& self.proportion_exclusive.values@.len() == self.hit_count.values@.len()
        &&& self.elapsed_inclusive.values@.len() == self.hit_count.values@.len()
        &&& self.proportion_inclusive.values@.len() == self.hit_count.values@.len()
        &&& self.elapsed_min.values@.len() == self.hit_count.values@.len()
        &&& self.elapsed_max.values@.len() == self.hit_count.values@.len()
        &&& self.range.values@.len() == self.hit_count.values@.len()
    }

    /// All columns' bounds bracket their values.
    pub open spec fn wf(self) -> bool {
        &&& self.hit_count.wf()
        &&& self.elapsed_exclusive.wf()
        &&& self.proportion_exclusive.wf()
        &&& self.elapsed_inclusive.wf()
        &&& self.proportion_inclusive.wf()
        &&& self.elapsed_min.wf()
        &&& self.elapsed_max.wf()
        &&& self.range.wf()
    }

    /// A set of empty columns.
    pub fn new() -> (r: Self)
        ensures
            r.consistent(),
            r.wf(),
            r.hit_count.values@.len() == 0,
            r.hit_count.values@ =~= Seq::<u64>::empty(),
            r.elapsed_exclusive.values@ =~= Seq::<u64>::empty(),
            r.proportion_exclusive.values@ =~= Seq::<u64>::empty(),
            r.elapsed_inclusive.values@ =~= Seq::<u64>::empty(),
            r.proportion_inclusive.values@ =~= Seq::<u64>::empty(),
            r.elapsed_min.values@ =~= Seq::<u64>::empty(),
            r.elapsed_max.values@ =~= Seq::<u64>::empty(),
            r.range.values@ =~= Seq::<u64>::empty(),
    {
        Columns {
            hit_count: Column::new(),
            elapsed_exclusive: Column::new(),
            proportion_exclusive: Column::new(),
            elapsed_inclusive: Column::new(),
            proportion_inclusive: Column::new(),
            elapsed_min: Column::new(),
            elapsed_max: Column::new(),
            range: Column::new(),
        }
    }

    /// Number of rows in the transpose.
    pub fn len(&self) -> (r: usize)
        requires
            self.consistent(),
        ensures
            r == self.hit_count.values@.len(),
    {
        self.hit_count.len()
    }
}

} // verus!
