//! The metrics of the server: their names, their labels and the values that follow from
//! the state.

use vstd::prelude::*;

use crate::text::same;

verus! {

/// The label of metrics that are kept for each kind of operation.
#[derive(Clone, Debug, Hash, PartialEq, Eq)]
pub struct OperationLabels {
    pub operation: String,
}

impl OperationLabels {
    /// The label of an operation.
    pub fn new(operation: &str) -> (r: OperationLabels)
        ensures
            r.operation@ == operation@,
    {
        OperationLabels { operation: operation.to_string() }
    }
}

/// The labels of metrics that are kept for each phase of an operation on a backup. The
/// name of the backup keeps operations that run at the same time apart.
#[derive(Clone, Debug, Hash, PartialEq, Eq)]
pub struct PhaseLabels {
    pub operation: String,
    pub phase: String,
    pub backup_name: String,
}

/// How a metric is kept.
#[derive(Debug, Clone, Copy, PartialEq, Eq, Structural)]
pub enum MetricKind {
    /// A histogram of durations for each operation.
    OperationHistogram,
    /// A count that only grows.
    Counter,
    /// A count that only grows, for each operation.
    OperationCounter,
    /// A whole number.
    Gauge,
    /// A number with a fraction.
    FractionGauge,
    /// A whole number for each phase.
    PhaseGauge,
    /// A number with a fraction for each phase.
    PhaseFractionGauge,
}

/// A metric: its name, what it says and how it is kept.
#[derive(Debug)]
pub struct MetricSpec {
    pub name: &'static str,
    pub help: &'static str,
    pub kind: MetricKind,
}

/// The metric is this one.
pub open spec fn is_metric(
    m: MetricSpec,
    name: Seq<char>,
    help: Seq<char>,
    kind: MetricKind,
) -> bool {
    m.name@ == name && m.help@ == help && m.kind == kind
}

fn metric(name: &'static str, help: &'static str, kind: MetricKind) -> (r: MetricSpec)
    ensures
        is_metric(r, name@, help@, kind),
{
    MetricSpec { name, help, kind }
}

/// Number of metrics.
pub const METRIC_COUNT: usize = 21;

/// The name, the help and the kind of metric `i`, in the order in which they are shown.
pub open spec fn metric_at(i: int) -> (Seq<char>, Seq<char>, MetricKind) {
    if i == 0 {
        (
            "chbackup_backup_duration_seconds"@,
            "Duration of backup operations in seconds"@,
            MetricKind::OperationHistogram,
        )
    } else if i == 1 {
        (
            "chbackup_backup_size_bytes"@,
            "Compressed size of the last backup in bytes"@,
            MetricKind::FractionGauge,
        )
    } else if i == 2 {
        (
            "chbackup_backup_last_success_timestamp"@,
            "Unix timestamp of the last successful create or upload operation"@,
            MetricKind::FractionGauge,
        )
    } else if i == 3 {
        (
            "chbackup_parts_uploaded"@,
            "Cumulative count of parts uploaded to S3"@,
            MetricKind::Counter,
        )
    } else if i == 4 {
        (
            "chbackup_parts_skipped_incremental"@,
            "Cumulative count of parts skipped via diff-from incremental backup"@,
            MetricKind::Counter,
        )
    } else if i == 5 {
        (
            "chbackup_errors"@,
            "Cumulative count of errors per operation type"@,
            MetricKind::OperationCounter,
        )
    } else if i == 6 {
        (
            "chbackup_successful_operations"@,
            "Cumulative count of successful operations per type"@,
            MetricKind::OperationCounter,
        )
    } else if i == 7 {
        (
            "chbackup_number_backups_local"@,
            "Current number of local backups"@,
            MetricKind::Gauge,
        )
    } else if i == 8 {
        (
            "chbackup_number_backups_remote"@,
            "Current number of remote backups"@,
            MetricKind::Gauge,
        )
    } else if i == 9 {
        (
            "chbackup_in_progress"@,
            "1 if a backup operation is currently running, 0 otherwise"@,
            MetricKind::Gauge,
        )
    } else if i == 10 {
        (
            "chbackup_watch_state"@,
            "Watch mode state: 0=inactive, 1=idle, 2=running"@,
            MetricKind::Gauge,
        )
    } else if i == 11 {
        (
            "chbackup_watch_last_full_timestamp"@,
            "Unix timestamp of the last full watch backup"@,
            MetricKind::FractionGauge,
        )
    } else if i == 12 {
        (
            "chbackup_watch_last_incremental_timestamp"@,
            "Unix timestamp of the last incremental watch backup"@,
            MetricKind::FractionGauge,
        )
    } else if i == 13 {
        (
            "chbackup_watch_consecutive_errors"@,
            "Number of consecutive watch errors"@,
            MetricKind::Gauge,
        )
    } else if i == 14 {
        (
            "chbackup_phase_items_total"@,
            "Total items in a running phase"@,
            MetricKind::PhaseGauge,
        )
    } else if i == 15 {
        (
            "chbackup_phase_items_done"@,
            "Completed items in a running phase"@,
            MetricKind::PhaseGauge,
        )
    } else if i == 16 {
        (
            "chbackup_phase_bytes_total"@,
            "Total bytes in a running phase"@,
            MetricKind::PhaseGauge,
        )
    } else if i == 17 {
        (
            "chbackup_phase_bytes_done"@,
            "Transferred bytes in a running phase"@,
            MetricKind::PhaseGauge,
        )
    } else if i == 18 {
        (
            "chbackup_phase_elapsed_seconds"@,
            "Seconds since a running phase started"@,
            MetricKind::PhaseFractionGauge,
        )
    } else if i == 19 {
        (
            "chbackup_phase_stalled_seconds"@,
            "Seconds since a running phase last advanced"@,
            MetricKind::PhaseFractionGauge,
        )
    } else {
        (
            "chbackup_operations_in_progress"@,
            "Number of operations currently running"@,
            MetricKind::Gauge,
        )
    }
}

/// The metrics, in the order in which they are shown.
pub fn metric_specs() -> (r: Vec<MetricSpec>)
    ensures
        r@.len() == METRIC_COUNT,
        forall|i: int|
            0 <= i < METRIC_COUNT ==> is_metric(
                #[trigger] r@[i],
                metric_at(i).0,
                metric_at(i).1,
                metric_at(i).2,
            ),
{
    let mut v: Vec<MetricSpec> = Vec::new();
    v.push(
        metric(
            "chbackup_backup_duration_seconds",
            "Duration of backup operations in seconds",
            MetricKind::OperationHistogram,
        ),
    );
    v.push(
        metric(
            "chbackup_backup_size_bytes",
            "Compressed size of the last backup in bytes",
            MetricKind::FractionGauge,
        ),
    );
    v.push(
        metric(
            "chbackup_backup_last_success_timestamp",
            "Unix timestamp of the last successful create or upload operation",
            MetricKind::FractionGauge,
        ),
    );
    v.push(
        metric(
            "chbackup_parts_uploaded",
            "Cumulative count of parts uploaded to S3",
            MetricKind::Counter,
        ),
    );
    v.push(
        metric(
            "chbackup_parts_skipped_incremental",
            "Cumulative count of parts skipped via diff-from incremental backup",
            MetricKind::Counter,
        ),
    );
    v.push(
        metric(
            "chbackup_errors",
            "Cumulative count of errors per operation type",
            MetricKind::OperationCounter,
        ),
    );
    v.push(
        metric(
            "chbackup_successful_operations",
            "Cumulative count of successful operations per type",
            MetricKind::OperationCounter,
        ),
    );
    v.push(
        metric(
            "chbackup_number_backups_local",
            "Current number of local backups",
            MetricKind::Gauge,
        ),
    );
    v.push(
        metric(
            "chbackup_number_backups_remote",
            "Current number of remote backups",
            MetricKind::Gauge,
        ),
    );
    v.push(
        metric(
            "chbackup_in_progress",
            "1 if a backup operation is currently running, 0 otherwise",
            MetricKind::Gauge,
        ),
    );
    v.push(
        metric(
            "chbackup_watch_state",
            "Watch mode state: 0=inactive, 1=idle, 2=running",
            MetricKind::Gauge,
        ),
    );
    v.push(
        metric(
            "chbackup_watch_last_full_timestamp",
            "Unix timestamp of the last full watch backup",
            MetricKind::FractionGauge,
        ),
    );
    v.push(
        metric(
            "chbackup_watch_last_incremental_timestamp",
            "Unix timestamp of the last incremental watch backup",
            MetricKind::FractionGauge,
        ),
    );
    v.push(
        metric(
            "chbackup_watch_consecutive_errors",
            "Number of consecutive watch errors",
            MetricKind::Gauge,
        ),
    );
    v.push(
        metric(
            "chbackup_phase_items_total",
            "Total items in a running phase",
            MetricKind::PhaseGauge,
        ),
    );
    v.push(
        metric(
            "chbackup_phase_items_done",
            "Completed items in a running phase",
            MetricKind::PhaseGauge,
        ),
    );
    v.push(
        metric(
            "chbackup_phase_bytes_total",
            "Total bytes in a running phase",
            MetricKind::PhaseGauge,
        ),
    );
    v.push(
        metric(
            "chbackup_phase_bytes_done",
            "Transferred bytes in a running phase",
            MetricKind::PhaseGauge,
        ),
    );
    v.push(
        metric(
            "chbackup_phase_elapsed_seconds",
            "Seconds since a running phase started",
            MetricKind::PhaseFractionGauge,
        ),
    );
    v.push(
        metric(
            "chbackup_phase_stalled_seconds",
            "Seconds since a running phase last advanced",
            MetricKind::PhaseFractionGauge,
        ),
    );
    v.push(
        metric(
            "chbackup_operations_in_progress",
            "Number of operations currently running",
            MetricKind::Gauge,
        ),
    );
    v
}

/// The name of operation `i` of those that are shown from the start.
pub open spec fn operation_at(i: int) -> Seq<char> {
    if i == 0 {
        "create"@
    } else if i == 1 {
        "upload"@
    } else if i == 2 {
        "download"@
    } else if i == 3 {
        "restore"@
    } else if i == 4 {
        "create_remote"@
    } else if i == 5 {
        "restore_remote"@
    } else if i == 6 {
        "delete"@
    } else if i == 7 {
        "clean_broken_remote"@
    } else if i == 8 {
        "clean_broken_local"@
    } else {
        "clean"@
    }
}

/// The operations whose metrics are shown before any of them ran.
pub fn initial_operations() -> (r: Vec<&'static str>)
    ensures
        r@.len() == 10,
        forall|i: int| 0 <= i < 10 ==> (#[trigger] r@[i])@ == operation_at(i),
        r@[0]@ == "create"@,
        r@[1]@ == "upload"@,
        r@[2]@ == "download"@,
        r@[3]@ == "restore"@,
        r@[4]@ == "create_remote"@,
        r@[5]@ == "restore_remote"@,
        r@[6]@ == "delete"@,
        r@[7]@ == "clean_broken_remote"@,
        r@[8]@ == "clean_broken_local"@,
        r@[9]@ == "clean"@,
{
    let mut v: Vec<&'static str> = Vec::new();
    v.push("create");
    v.push("upload");
    v.push("download");
    v.push("restore");
    v.push("create_remote");
    v.push("restore_remote");
    v.push("delete");
    v.push("clean_broken_remote");
    v.push("clean_broken_local");
    v.push("clean");
    v
}

/// Upper bounds of the histogram of durations, in seconds.
pub fn duration_buckets() -> (r: Vec<u32>)
    ensures
        r@ == seq![1u32, 5, 15, 30, 60, 120, 300, 600, 1800, 3600],
{
    vec![1, 5, 15, 30, 60, 120, 300, 600, 1800, 3600]
}

/// A 64-bit number with its highest bit read as a sign.
pub open spec fn signed(n: u64) -> int {
    if n <= i64::MAX {
        n as int
    } else {
        n - 0x1_0000_0000_0000_0000
    }
}

/// A 64-bit number with its highest bit read as a sign.
pub fn gauge_value(n: u64) -> (r: i64)
    ensures
        r == signed(n),
        n <= i64::MAX ==> r == n,
        n > i64::MAX ==> r < 0 && r + 0x1_0000_0000_0000_0000 == n,
{
    if n <= 0x7fff_ffff_ffff_ffff {
        n as i64
    } else {
        -1 - ((u64::MAX - n) as i64)
    }
}

/// How far a phase of an operation is.
#[derive(Debug)]
pub struct PhaseSnapshot {
    pub op: String,
    pub phase: String,
    pub backup_name: String,
    pub total: u64,
    pub done: u64,
    pub bytes_total: u64,
    pub bytes_done: u64,
}

/// The values of the whole-number gauges of one phase.
#[derive(Debug)]
pub struct PhaseSeries {
    pub labels: PhaseLabels,
    pub items_total: i64,
    pub items_done: i64,
    pub bytes_total: i64,
    pub bytes_done: i64,
}

/// What a contract says of a series.
#[verifier::ext_equal]
pub struct SeriesModel {
    pub operation: Seq<char>,
    pub phase: Seq<char>,
    pub backup_name: Seq<char>,
    pub items_total: int,
    pub items_done: int,
    pub bytes_total: int,
    pub bytes_done: int,
}

impl View for PhaseSeries {
    type V = SeriesModel;

    open spec fn view(&self) -> SeriesModel {
        SeriesModel {
            operation: self.labels.operation@,
            phase: self.labels.phase@,
            backup_name: self.labels.backup_name@,
            items_total: self.items_total as int,
            items_done: self.items_done as int,
            bytes_total: self.bytes_total as int,
            bytes_done: self.bytes_done as int,
        }
    }
}

/// The series of a phase.
pub open spec fn series_of(s: PhaseSnapshot) -> SeriesModel {
    SeriesModel {
        operation: s.op@,
        phase: s.phase@,
        backup_name: s.backup_name@,
        items_total: signed(s.total),
        items_done: signed(s.done),
        bytes_total: signed(s.bytes_total),
        bytes_done: signed(s.bytes_done),
    }
}

/// The two series have the same labels, and so are one.
pub open spec fn same_series(a: SeriesModel, b: SeriesModel) -> bool {
    a.operation == b.operation && a.phase == b.phase && a.backup_name == b.backup_name
}

/// Where the series with the labels is in the list; its length where there is none.
pub open spec fn series_index(v: Seq<SeriesModel>, s: SeriesModel) -> nat
    decreases v.len(),
{
    if v.len() == 0 || same_series(v[0], s) {
        0
    } else {
        1 + series_index(v.skip(1), s)
    }
}

/// The list with the series set: in place of the one with its labels, or at the end.
pub open spec fn with_series(v: Seq<SeriesModel>, s: SeriesModel) -> Seq<SeriesModel> {
    if series_index(v, s) < v.len() {
        v.update(series_index(v, s) as int, s)
    } else {
        v.push(s)
    }
}

/// The series of the first `n` phases.
pub open spec fn phase_series(snapshots: Seq<PhaseSnapshot>, n: nat) -> Seq<SeriesModel>
    decreases n,
{
    if n == 0 {
        Seq::empty()
    } else {
        with_series(phase_series(snapshots, (n - 1) as nat), series_of(snapshots[n - 1]))
    }
}

/// The models of a list of series.
pub open spec fn series_models(v: Seq<PhaseSeries>) -> Seq<SeriesModel> {
    Seq::new(v.len(), |i: int| v[i]@)
}

/// The series that are shown for phases.
#[derive(Debug)]
pub struct PhaseGauges {
    series: Vec<PhaseSeries>,
}

impl View for PhaseGauges {
    type V = Seq<SeriesModel>;

    closed spec fn view(&self) -> Seq<SeriesModel> {
        series_models(self.series@)
    }
}

impl PhaseGauges {
    /// No series.
    pub fn new() -> (r: PhaseGauges)
        ensures
            r@ == Seq::<SeriesModel>::empty(),
    {
        let r = PhaseGauges { series: Vec::new() };
        assert(r@ =~= Seq::empty());
        r
    }

    /// The series that are shown.
    pub fn series(&self) -> (r: &Vec<PhaseSeries>)
        ensures
            series_models(r@) == self@,
    {
        &self.series
    }

    /// Where the series with the labels is.
    fn index_of(&self, s: &PhaseSeries) -> (r: usize)
        ensures
            r == series_index(self@, s@),
            r <= self.series@.len(),
    {
        let ghost all = self@;
        let mut i: usize = 0;
        assert(all.skip(0) =~= all);
        while i < self.series.len()
            invariant
                i <= self.series@.len(),
                all == series_models(self.series@),
                series_index(all, s@) == i + series_index(all.skip(i as int), s@),
            decreases self.series@.len() - i,
        {
            let x = &self.series[i];
            assert(all.skip(i as int)[0] == x@);
            assert(all.skip(i as int).skip(1) =~= all.skip(i + 1));
            if same(x.labels.operation.as_str(), s.labels.operation.as_str()) && same(
                x.labels.phase.as_str(),
                s.labels.phase.as_str(),
            ) && same(x.labels.backup_name.as_str(), s.labels.backup_name.as_str()) {
                return i;
            }
            i += 1;
        }
        i
    }

    /// Shows the phases that run, and no others: what was shown before is gone, so that a
    /// phase that ended leaves no series behind. Of phases with the same labels the last one
    /// is shown.
    pub fn refresh_phase_gauges(&mut self, snapshots: &Vec<PhaseSnapshot>)
        ensures
            final(self)@ == phase_series(snapshots@, snapshots@.len()),
    {
        self.series = Vec::new();
        assert(self@ =~= Seq::empty());
        let mut i: usize = 0;
        while i < snapshots.len()
            invariant
                i <= snapshots@.len(),
                self@ == phase_series(snapshots@, i as nat),
            decreases snapshots@.len() - i,
        {
            let s = &snapshots[i];
            let series = PhaseSeries {
                labels: PhaseLabels {
                    operation: s.op.clone(),
                    phase: s.phase.clone(),
                    backup_name: s.backup_name.clone(),
                },
                items_total: gauge_value(s.total),
                items_done: gauge_value(s.done),
                bytes_total: gauge_value(s.bytes_total),
                bytes_done: gauge_value(s.bytes_done),
            };
            let ghost was = self@;
            let ghost model = series@;
            let at: usize = self.index_of(&series);
            if at < self.series.len() {
                self.series.set(at, series);
                assert(self@ =~= was.update(at as int, model));
            } else {
                self.series.push(series);
                assert(self@ =~= was.push(model));
            }
            i += 1;
        }
    }
}

/// A series is shown for no phase that does not run, whatever was shown before.
pub proof fn law_ended_phases_leave_no_series(snapshots: Seq<PhaseSnapshot>, n: nat, i: int)
    requires
        n <= snapshots.len(),
        0 <= i < phase_series(snapshots, n).len(),
    ensures
        exists|k: int|
            0 <= k < n && phase_series(snapshots, n)[i] == series_of(#[trigger] snapshots[k]),
    decreases n,
{
    let before = phase_series(snapshots, (n - 1) as nat);
    let last = series_of(snapshots[n - 1]);
    if phase_series(snapshots, n)[i] == last {
        assert(phase_series(snapshots, n)[i] == series_of(snapshots[n - 1]));
    } else {
        assert(i < before.len() && phase_series(snapshots, n)[i] == before[i]);
        law_ended_phases_leave_no_series(snapshots, (n - 1) as nat, i);
    }
}

/// Where a series is in a list, if it is there.
proof fn lemma_series_index(v: Seq<SeriesModel>, s: SeriesModel)
    ensures
        series_index(v, s) <= v.len(),
        series_index(v, s) < v.len() ==> same_series(v[series_index(v, s) as int], s),
        forall|j: int| 0 <= j < series_index(v, s) ==> !same_series(#[trigger] v[j], s),
    decreases v.len(),
{
    if v.len() > 0 && !same_series(v[0], s) {
        let t = v.skip(1);
        lemma_series_index(t, s);
        assert forall|j: int| 0 <= j < series_index(v, s) implies !same_series(
            #[trigger] v[j],
            s,
        ) by {
            if j > 0 {
                assert(v[j] == t[j - 1]);
            }
        }
    }
}

/// No two series that are shown have the same labels.
pub proof fn law_series_differ_by_their_labels(
    snapshots: Seq<PhaseSnapshot>,
    n: nat,
    i: int,
    j: int,
)
    requires
        n <= snapshots.len(),
        0 <= i < j < phase_series(snapshots, n).len(),
    ensures
        !same_series(phase_series(snapshots, n)[i], phase_series(snapshots, n)[j]),
    decreases n,
{
    let before = phase_series(snapshots, (n - 1) as nat);
    let last = series_of(snapshots[n - 1]);
    lemma_series_index(before, last);
    let at = series_index(before, last) as int;
    if j < before.len() {
        law_series_differ_by_their_labels(snapshots, (n - 1) as nat, i, j);
        if at < before.len() && i != at && j != at {
            assert(phase_series(snapshots, n)[i] == before[i]);
            assert(phase_series(snapshots, n)[j] == before[j]);
        }
    } else {
        assert(phase_series(snapshots, n)[j] == last);
        assert(phase_series(snapshots, n)[i] == before[i]);
    }
}

/// Every phase has a series, and of phases with the same labels the last one is shown.
pub proof fn law_every_phase_is_shown(snapshots: Seq<PhaseSnapshot>, n: nat, k: int)
    requires
        n <= snapshots.len(),
        0 <= k < n,
    ensures
        exists|i: int|
            0 <= i < phase_series(snapshots, n).len() && same_series(
                #[trigger] phase_series(snapshots, n)[i],
                series_of(snapshots[k]),
            ),
        (forall|j: int|
            k < j < n ==> !same_series(series_of(#[trigger] snapshots[j]), series_of(snapshots[k])))
            ==> phase_series(snapshots, n).contains(series_of(snapshots[k])),
    decreases n,
{
    let before = phase_series(snapshots, (n - 1) as nat);
    let shown = phase_series(snapshots, n);
    let last = series_of(snapshots[n - 1]);
    let mine = series_of(snapshots[k]);
    lemma_series_index(before, last);
    let at = series_index(before, last) as int;
    if k == n - 1 {
        let place = if at < before.len() {
            at
        } else {
            before.len() as int
        };
        assert(shown[place] == mine);
    } else {
        law_every_phase_is_shown(snapshots, (n - 1) as nat, k);
        let i = choose|i: int| 0 <= i < before.len() && same_series(#[trigger] before[i], mine);
        if i == at {
            assert(same_series(shown[i], mine));
        } else {
            assert(shown[i] == before[i]);
            assert(same_series(shown[i], mine));
        }
        if forall|j: int| k < j < n ==> !same_series(series_of(#[trigger] snapshots[j]), mine) {
            assert(before.contains(mine));
            let x = choose|x: int| 0 <= x < before.len() && before[x] == mine;
            assert(!same_series(last, mine));
            assert(x != at);
            assert(shown[x] == mine);
        }
    }
}

/// Phases of different backups never share a series.
pub proof fn law_backups_have_series_of_their_own(s: PhaseSnapshot, t: PhaseSnapshot)
    requires
        s.backup_name@ != t.backup_name@,
    ensures
        !same_series(series_of(s), series_of(t)),
{
}

/// 1 while an operation runs, and 0 otherwise.
pub fn in_progress_value(running_ops: usize) -> (r: i64)
    ensures
        r == if running_ops > 0 {
            1i64
        } else {
            0i64
        },
{
    if running_ops > 0 {
        1
    } else {
        0
    }
}

/// A phase is shown under its operation, its name and its backup, with what it has to do and
/// what it has done, as far as the numbers fit into those of a gauge.
pub proof fn law_phases_are_shown_with_their_counts(s: PhaseSnapshot)
    ensures
        ({
            let r = series_of(s);
            &&& r.operation == s.op@
            &&& r.phase == s.phase@
            &&& r.backup_name == s.backup_name@
            &&& s.total <= i64::MAX ==> r.items_total == s.total
            &&& s.done <= i64::MAX ==> r.items_done == s.done
            &&& s.bytes_total <= i64::MAX ==> r.bytes_total == s.bytes_total
            &&& s.bytes_done <= i64::MAX ==> r.bytes_done == s.bytes_done
        }),
{
}

/// Two phases have one series just where they are the same phase of the same operation on the
/// same backup.
pub proof fn law_series_are_told_apart_by_all_labels(s: PhaseSnapshot, t: PhaseSnapshot)
    ensures
        same_series(series_of(s), series_of(t)) <==> s.op@ == t.op@ && s.phase@ == t.phase@
            && s.backup_name@ == t.backup_name@,
{
}

/// Durations are kept as a histogram, parts, errors and successes as counts that only grow,
/// what a phase does for each phase, and all else as gauges.
pub proof fn law_kinds_of_metrics(i: int)
    requires
        0 <= i < METRIC_COUNT,
    ensures
        metric_at(i).2 is OperationHistogram <==> i == 0,
        metric_at(i).2 is Counter <==> 3 <= i <= 4,
        metric_at(i).2 is OperationCounter <==> 5 <= i <= 6,
        metric_at(i).2 is PhaseGauge <==> 14 <= i <= 17,
        metric_at(i).2 is PhaseFractionGauge <==> 18 <= i <= 19,
        metric_at(i).2 is FractionGauge <==> 1 <= i <= 2 || 11 <= i <= 12,
        metric_at(i).2 is Gauge <==> 7 <= i <= 10 || i == 13 || i == 20,
{
}

/// What contracts say of a series are its own labels and values, all of them.
pub proof fn law_series_are_told_with_all_fields(s: PhaseSeries)
    ensures
        s@.operation == s.labels.operation@,
        s@.phase == s.labels.phase@,
        s@.backup_name == s.labels.backup_name@,
        s@.items_total == s.items_total,
        s@.items_done == s.items_done,
        s@.bytes_total == s.bytes_total,
        s@.bytes_done == s.bytes_done,
{
}

} // verus!
