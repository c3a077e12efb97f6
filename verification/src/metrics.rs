use vstd::prelude::*;
use std::sync::Arc;
use std::sync::atomic::AtomicUsize;
use crate::task::{Task, TaskKind, waited_ms};
use crate::clock::Clock;

verus! {

/// The largest `u64`, as a mathematical integer.
pub open spec fn u64_max() -> int {
    0xffff_ffff_ffff_ffff
}

/// Sent from a worker to the dispatcher when a task finishes.
/// Times are milliseconds on the run's clock.
#[derive(Debug, Clone, Copy, PartialEq, Eq, Structural)]
pub struct CompletionReport {
    pub task_id: u64,
    pub worker_id: usize,
    pub kind: TaskKind,
    pub arrival_ms: u64,
    pub start_ms: u64,
    pub end_ms: u64,
}

/// Time a task spent queued before a worker started it.
pub open spec fn wait_of(r: CompletionReport) -> int {
    waited_ms(r.arrival_ms, r.start_ms)
}

/// Time from a task's arrival to its completion.
pub open spec fn turnaround_of(r: CompletionReport) -> int {
    waited_ms(r.arrival_ms, r.end_ms)
}

/// Time a worker spent executing the task.
pub open spec fn busy_of(r: CompletionReport) -> int {
    waited_ms(r.start_ms, r.end_ms)
}

pub open spec fn total_wait(s: Seq<CompletionReport>) -> int
    decreases s.len(),
{
    if s.len() == 0 { 0 } else { total_wait(s.drop_last()) + wait_of(s.last()) }
}

pub open spec fn total_turnaround(s: Seq<CompletionReport>) -> int
    decreases s.len(),
{
    if s.len() == 0 { 0 } else { total_turnaround(s.drop_last()) + turnaround_of(s.last()) }
}

/// Execution time that report `r` adds to worker `w`.
pub open spec fn share_of(r: CompletionReport, w: int) -> int {
    if r.worker_id == w { busy_of(r) } else { 0 }
}

/// Total execution time of worker `w` over the reports.
pub open spec fn busy_of_worker(s: Seq<CompletionReport>, w: int) -> int
    decreases s.len(),
{
    if s.len() == 0 { 0 } else { busy_of_worker(s.drop_last(), w) + share_of(s.last(), w) }
}

/// Per-worker busy times agree with the reports: every report names one of
/// the workers, and each worker's busy time is the sum of the execution
/// times of its reports.
pub open spec fn busy_matches(busy: Seq<u64>, s: Seq<CompletionReport>) -> bool {
    &&& forall|i: int| 0 <= i < s.len() ==> (#[trigger] s[i]).worker_id < busy.len()
    &&& forall|w: int| 0 <= w < busy.len() ==> #[trigger] busy[w] == busy_of_worker(s, w)
}

proof fn lemma_busy_remove(s: Seq<CompletionReport>, i: int, w: int)
    requires
        0 <= i < s.len(),
    ensures
        busy_of_worker(s, w) == busy_of_worker(s.remove(i), w) + share_of(s[i], w),
    decreases s.len(),
{
    if i == s.len() - 1 {
        assert(s.remove(i) =~= s.drop_last());
    } else {
        let p = s.drop_last();
        lemma_busy_remove(p, i, w);
        assert(s.remove(i).drop_last() =~= p.remove(i));
        assert(s.remove(i).last() == s.last());
        assert(p[i] == s[i]);
    }
}

/// A worker's busy total does not depend on the order in which the reports
/// were recorded.
pub proof fn law_busy_total_order_independent(s1: Seq<CompletionReport>, s2: Seq<CompletionReport>, w: int)
    requires
        s1.to_multiset() =~= s2.to_multiset(),
    ensures
        busy_of_worker(s1, w) == busy_of_worker(s2, w),
    decreases s1.len(),
{
    broadcast use vstd::seq_lib::group_to_multiset_ensures, vstd::multiset::group_multiset_axioms;
    if s1.len() == 0 {
        assert(s2.len() == s2.to_multiset().len());
        assert(s2.len() == 0);
    } else {
        let x = s1.last();
        let p1 = s1.drop_last();
        assert(s1 =~= p1.push(x));
        assert(s1.to_multiset() =~= p1.to_multiset().insert(x));
        assert(s2.to_multiset().count(x) > 0);
        assert(s2.contains(x));
        let i = choose|i: int| 0 <= i < s2.len() && s2[i] == x;
        let p2 = s2.remove(i);
        assert(p2.to_multiset() == s2.to_multiset().remove(x));
        assert(p1.to_multiset() =~= p2.to_multiset());
        law_busy_total_order_independent(p1, p2, w);
        lemma_busy_remove(s2, i, w);
    }
}

/// Two metrics over the same workers that recorded the same reports, in
/// any order, hold the same per-worker busy times.
pub proof fn law_busy_times_order_independent(
    busy1: Seq<u64>,
    s1: Seq<CompletionReport>,
    busy2: Seq<u64>,
    s2: Seq<CompletionReport>,
)
    requires
        busy_matches(busy1, s1),
        busy_matches(busy2, s2),
        busy1.len() == busy2.len(),
        s1.to_multiset() =~= s2.to_multiset(),
    ensures
        busy1 =~= busy2,
{
    assert forall|w: int| 0 <= w < busy1.len() implies busy1[w] == busy2[w] by {
        law_busy_total_order_independent(s1, s2, w);
    }
}

/// Number of reports of the given kind.
pub open spec fn count_of_kind(s: Seq<CompletionReport>, k: TaskKind) -> int
    decreases s.len(),
{
    if s.len() == 0 {
        0
    } else {
        count_of_kind(s.drop_last(), k) + if s.last().kind == k { 1int } else { 0int }
    }
}

/// Total wait of the reports of the given kind.
pub open spec fn wait_of_kind(s: Seq<CompletionReport>, k: TaskKind) -> int
    decreases s.len(),
{
    if s.len() == 0 {
        0
    } else {
        wait_of_kind(s.drop_last(), k) + if s.last().kind == k { wait_of(s.last()) } else { 0int }
    }
}

/// The longest wait (zero for no reports).
pub open spec fn max_wait(s: Seq<CompletionReport>) -> int
    decreases s.len(),
{
    if s.len() == 0 {
        0
    } else if wait_of(s.last()) > max_wait(s.drop_last()) {
        wait_of(s.last())
    } else {
        max_wait(s.drop_last())
    }
}

/// The id of the first task whose wait is the longest (0 for no reports).
pub open spec fn max_wait_task(s: Seq<CompletionReport>) -> u64
    decreases s.len(),
{
    if s.len() == 0 {
        0
    } else if s.len() == 1 || wait_of(s.last()) > max_wait(s.drop_last()) {
        s.last().task_id
    } else {
        max_wait_task(s.drop_last())
    }
}

/// The earliest arrival among the reports (the largest `u64` for none).
pub open spec fn first_arrival(s: Seq<CompletionReport>) -> int
    decreases s.len(),
{
    if s.len() == 0 {
        u64_max()
    } else if s.last().arrival_ms < first_arrival(s.drop_last()) {
        s.last().arrival_ms as int
    } else {
        first_arrival(s.drop_last())
    }
}

/// The latest completion among the reports (0 for none).
pub open spec fn last_end(s: Seq<CompletionReport>) -> int
    decreases s.len(),
{
    if s.len() == 0 {
        0
    } else if s.last().end_ms > last_end(s.drop_last()) {
        s.last().end_ms as int
    } else {
        last_end(s.drop_last())
    }
}

/// Makespan: from the first task's arrival to the last task's completion
/// (zero if no completion comes after the first arrival).
pub open spec fn makespan_of(s: Seq<CompletionReport>) -> int {
    if last_end(s) >= first_arrival(s) { last_end(s) - first_arrival(s) } else { 0 }
}

pub open spec fn sum_of(s: Seq<u64>) -> int
    decreases s.len(),
{
    if s.len() == 0 { 0 } else { sum_of(s.drop_last()) + s.last() }
}

/// `sum / n`, or 0 when `n` is 0.
pub open spec fn mean(sum: int, n: int) -> int {
    if n > 0 { sum / n } else { 0 }
}

/// Worker capacity of a run: makespan times workers, saturating at the
/// largest `u64`.
pub open spec fn capacity_of(makespan: int, workers: int) -> int {
    if makespan * workers > u64_max() { u64_max() } else { makespan * workers }
}

/// Percentage of capacity spent busy, rounded down (saturating at the
/// largest `u64`); 0 for no capacity.
pub open spec fn utilization_of(busy: int, capacity: int) -> int {
    if capacity > 0 {
        if 100 * busy / capacity > u64_max() { u64_max() } else { 100 * busy / capacity }
    } else {
        0
    }
}

/// Distance between two averages.
pub open spec fn fairness_gap_of(a: u64, b: u64) -> int {
    if a >= b { a - b } else { b - a }
}

/// The statistics printed at the end of a run.
#[derive(Debug, Clone, Copy, PartialEq, Eq, Structural)]
pub struct Summary {
    pub total: usize,
    pub cpu_count: usize,
    pub io_count: usize,
    pub makespan_ms: u64,
    pub avg_wait_ms: u64,
    pub avg_turnaround_ms: u64,
    pub max_wait_ms: u64,
    pub max_wait_task: u64,
    pub utilization_pct: u64,
    pub cpu_avg_wait_ms: u64,
    pub io_avg_wait_ms: u64,
    pub fairness_gap_ms: u64,
}

/// The summary of a run with the given reports and per-worker busy time.
pub open spec fn summary_of(s: Seq<CompletionReport>, busy: Seq<u64>) -> Summary {
    let makespan = makespan_of(s);
    let cpu_avg = mean(wait_of_kind(s, TaskKind::Cpu), count_of_kind(s, TaskKind::Cpu)) as u64;
    let io_avg = mean(wait_of_kind(s, TaskKind::Io), count_of_kind(s, TaskKind::Io)) as u64;
    Summary {
        total: s.len() as usize,
        cpu_count: count_of_kind(s, TaskKind::Cpu) as usize,
        io_count: count_of_kind(s, TaskKind::Io) as usize,
        makespan_ms: makespan as u64,
        avg_wait_ms: mean(total_wait(s), s.len() as int) as u64,
        avg_turnaround_ms: mean(total_turnaround(s), s.len() as int) as u64,
        max_wait_ms: max_wait(s) as u64,
        max_wait_task: max_wait_task(s),
        utilization_pct: utilization_of(sum_of(busy), capacity_of(makespan, busy.len() as int)) as u64,
        cpu_avg_wait_ms: cpu_avg,
        io_avg_wait_ms: io_avg,
        fairness_gap_ms: fairness_gap_of(cpu_avg, io_avg) as u64,
    }
}

/// An average of `n` values each at most `m` is at most `m`.
proof fn lemma_mean_bound(sum: int, n: int, m: int)
    requires
        0 < n,
        0 <= sum <= n * m,
    ensures
        0 <= sum / n <= m,
{
    vstd::arithmetic::div_mod::lemma_fundamental_div_mod(sum, n);
    vstd::arithmetic::div_mod::lemma_div_pos_is_pos(sum, n);
    assert(sum / n <= m) by (nonlinear_arith)
        requires
            sum == n * (sum / n) + sum % n,
            0 <= sum % n,
            sum <= n * m,
            0 < n,
    ;
}

/// `100 * busy / cap` computed from the quotient and remainder of
/// `busy / cap`, so that no intermediate exceeds a bounded width.
proof fn lemma_percent_split(busy: int, cap: int)
    requires
        0 <= busy,
        0 < cap,
    ensures
        100 * busy / cap == 100 * (busy / cap) + 100 * (busy % cap) / cap,
{
    let q = busy / cap;
    let r = busy % cap;
    vstd::arithmetic::div_mod::lemma_fundamental_div_mod(busy, cap);
    assert(100 * busy == 100 * r + (100 * q) * cap) by (nonlinear_arith)
        requires
            busy == cap * q + r,
    ;
    vstd::arithmetic::div_mod::lemma_hoist_over_denominator(100 * r, 100 * q, cap as nat);
}

/// Every report is of one of the two kinds, so the per-kind counts add up
/// to the total.
pub proof fn law_kind_counts_partition(s: Seq<CompletionReport>)
    ensures
        count_of_kind(s, TaskKind::Cpu) + count_of_kind(s, TaskKind::Io) == s.len(),
        wait_of_kind(s, TaskKind::Cpu) + wait_of_kind(s, TaskKind::Io) == total_wait(s),
    decreases s.len(),
{
    if s.len() > 0 {
        law_kind_counts_partition(s.drop_last());
    }
}

/// The longest wait is at least every task's wait and is the wait of some
/// task; the task it names is the first to wait that long.
pub proof fn law_max_wait_is_longest(s: Seq<CompletionReport>)
    ensures
        forall|i: int| 0 <= i < s.len() ==> wait_of(#[trigger] s[i]) <= max_wait(s),
        s.len() > 0 ==> exists|i: int| {
            &&& 0 <= i < s.len()
            &&& wait_of(#[trigger] s[i]) == max_wait(s)
            &&& s[i].task_id == max_wait_task(s)
            &&& forall|j: int| 0 <= j < i ==> wait_of(#[trigger] s[j]) < max_wait(s)
        },
    decreases s.len(),
{
    if s.len() > 0 {
        let p = s.drop_last();
        law_max_wait_is_longest(p);
        assert forall|i: int| 0 <= i < s.len() implies wait_of(#[trigger] s[i]) <= max_wait(s) by {
            if i < p.len() {
                assert(s[i] == p[i]);
            }
        }
        if s.len() == 1 {
            assert(wait_of(s[0]) == max_wait(s));
        } else {
            if wait_of(s.last()) > max_wait(p) {
                let i = s.len() - 1;
                assert forall|j: int| 0 <= j < i implies wait_of(#[trigger] s[j]) < max_wait(s) by {
                    assert(s[j] == p[j]);
                }
            } else {
                let i = choose|i: int| {
                    &&& 0 <= i < p.len()
                    &&& wait_of(#[trigger] p[i]) == max_wait(p)
                    &&& p[i].task_id == max_wait_task(p)
                    &&& forall|j: int| 0 <= j < i ==> wait_of(#[trigger] p[j]) < max_wait(p)
                };
                assert(s[i] == p[i]);
                assert forall|j: int| 0 <= j < i implies wait_of(#[trigger] s[j]) < max_wait(s) by {
                    assert(s[j] == p[j]);
                }
            }
        }
    }
}

/// The average wait never exceeds the longest wait.
pub proof fn law_average_wait_at_most_longest(s: Seq<CompletionReport>)
    requires
        s.len() > 0,
    ensures
        total_wait(s) / (s.len() as int) <= max_wait(s),
{
    lemma_total_wait_bound(s);
    lemma_mean_bound(total_wait(s), s.len() as int, max_wait(s));
}

proof fn lemma_total_wait_bound(s: Seq<CompletionReport>)
    ensures
        0 <= total_wait(s) <= s.len() * max_wait(s),
        0 <= max_wait(s),
    decreases s.len(),
{
    if s.len() > 0 {
        let p = s.drop_last();
        lemma_total_wait_bound(p);
        assert(p.len() * max_wait(p) <= p.len() * max_wait(s)) by (nonlinear_arith)
            requires
                max_wait(p) <= max_wait(s),
                0 <= p.len(),
        ;
        assert(s.len() * max_wait(s) == p.len() * max_wait(s) + max_wait(s)) by (nonlinear_arith)
            requires
                s.len() == p.len() + 1,
        ;
    }
}

/// Makespan spans the whole run, whatever order the reports were recorded
/// in: it runs from the earliest arrival of any report to the latest
/// completion of any report (zero when no completion comes after that
/// arrival).
pub proof fn law_makespan_spans_all_reports(s: Seq<CompletionReport>)
    requires
        s.len() > 0,
    ensures
        forall|i: int| 0 <= i < s.len() ==> (#[trigger] s[i]).end_ms <= last_end(s),
        exists|i: int| 0 <= i < s.len() && (#[trigger] s[i]).end_ms == last_end(s),
        forall|i: int| 0 <= i < s.len() ==> first_arrival(s) <= (#[trigger] s[i]).arrival_ms,
        exists|i: int| 0 <= i < s.len() && (#[trigger] s[i]).arrival_ms == first_arrival(s),
        makespan_of(s) == if last_end(s) >= first_arrival(s) { last_end(s) - first_arrival(s) } else { 0 },
        forall|i: int| 0 <= i < s.len() ==> (#[trigger] s[i]).end_ms <= first_arrival(s) + makespan_of(s),
    decreases s.len(),
{
    let p = s.drop_last();
    if s.len() == 1 {
        assert(p.len() == 0);
        assert(s[0] == s.last());
    } else {
        law_makespan_spans_all_reports(p);
        assert forall|i: int| 0 <= i < s.len() implies (#[trigger] s[i]).end_ms <= last_end(s) by {
            if i < p.len() {
                assert(s[i] == p[i]);
            }
        }
        assert forall|i: int| 0 <= i < s.len() implies first_arrival(s) <= (#[trigger] s[i]).arrival_ms by {
            if i < p.len() {
                assert(s[i] == p[i]);
            }
        }
        if s.last().end_ms > last_end(p) {
            assert(s[s.len() - 1].end_ms == last_end(s));
        } else {
            let i = choose|i: int| 0 <= i < p.len() && (#[trigger] p[i]).end_ms == last_end(p);
            assert(s[i] == p[i]);
        }
        if s.last().arrival_ms < first_arrival(p) {
            assert(s[s.len() - 1].arrival_ms == first_arrival(s));
        } else {
            let i = choose|i: int| 0 <= i < p.len() && (#[trigger] p[i]).arrival_ms == first_arrival(p);
            assert(s[i] == p[i]);
        }
    }
}

/// The fairness gap does not depend on which average is named first.
pub proof fn law_fairness_gap_symmetric(a: u64, b: u64)
    ensures
        fairness_gap_of(a, b) == fairness_gap_of(b, a),
        fairness_gap_of(a, a) == 0,
{
}

impl CompletionReport {
    /// The report a worker sends after running `task` from `start_ms` to
    /// `end_ms`.
    pub fn for_task(task: &Task, worker_id: usize, start_ms: u64, end_ms: u64) -> (r: CompletionReport)
        ensures
            r == (CompletionReport {
                task_id: task.id,
                worker_id,
                kind: task.kind,
                arrival_ms: task.arrival_ms,
                start_ms,
                end_ms,
            }),
    {
        CompletionReport {
            task_id: task.id,
            worker_id,
            kind: task.kind,
            arrival_ms: task.arrival_ms,
            start_ms,
            end_ms,
        }
    }
}

/// Accumulates per-task completion data.
pub struct Metrics {
    reports: Vec<CompletionReport>,
    worker_busy_ms: Vec<u64>,
    run_start_ms: u64,
    run_end_ms: Option<u64>,
    /// Shared with a progress monitor so it can read live progress without
    /// locking; incremented once per recorded completion.
    pub counter: Arc<AtomicUsize>,
}

/// Adds one to a shared progress counter.
fn bump(counter: &Arc<AtomicUsize>) {
    counter.fetch_add(1, std::sync::atomic::Ordering::Relaxed);
}

impl Metrics {
    /// The reports recorded so far, in order.
    pub closed spec fn reports(&self) -> Seq<CompletionReport> {
        self.reports@
    }

    /// Busy milliseconds accumulated per worker.
    pub closed spec fn busy_ms(&self) -> Seq<u64> {
        self.worker_busy_ms@
    }

    /// The progress counter shared with a monitor.
    pub closed spec fn shared_counter(&self) -> Arc<AtomicUsize> {
        self.counter
    }

    pub closed spec fn run_start_ms(&self) -> u64 {
        self.run_start_ms
    }

    pub closed spec fn run_end_ms(&self) -> Option<u64> {
        self.run_end_ms
    }

    /// Whether `report` can be recorded: its worker exists and that worker's
    /// busy time stays representable.
    pub open spec fn accepts(&self, report: CompletionReport) -> bool {
        &&& report.worker_id < self.busy_ms().len()
        &&& self.busy_ms()[report.worker_id as int] + busy_of(report) <= u64_max()
    }

    /// Empty metrics for `num_workers` workers, for a run started at
    /// `start_ms`.
    pub fn new(num_workers: usize, counter: Arc<AtomicUsize>, start_ms: u64) -> (m: Metrics)
        ensures
            m.reports() == Seq::<CompletionReport>::empty(),
            m.busy_ms() == Seq::new(num_workers as nat, |i: int| 0u64),
            busy_matches(m.busy_ms(), m.reports()),
            m.run_start_ms() == start_ms,
            m.run_end_ms() == None::<u64>,
            m.shared_counter() == counter,
    {
        let mut busy: Vec<u64> = Vec::new();
        let mut i: usize = 0;
        while i < num_workers
            invariant
                i <= num_workers,
                busy@ == Seq::new(i as nat, |j: int| 0u64),
            decreases num_workers - i,
        {
            busy.push(0);
            i = i + 1;
        }
        Metrics { reports: Vec::new(), worker_busy_ms: busy, run_start_ms: start_ms, run_end_ms: None, counter }
    }

    /// Number of workers whose busy time is kept.
    pub fn num_workers(&self) -> (n: usize)
        ensures
            n == self.busy_ms().len(),
    {
        self.worker_busy_ms.len()
    }

    /// Busy milliseconds accumulated by worker `w`.
    pub fn worker_busy(&self, w: usize) -> (b: u64)
        requires
            w < self.busy_ms().len(),
        ensures
            b == self.busy_ms()[w as int],
    {
        self.worker_busy_ms[w]
    }

    /// Whether `report` can be recorded (see `accepts`).
    pub fn can_record(&self, report: &CompletionReport) -> (b: bool)
        ensures
            b == self.accepts(*report),
    {
        if report.worker_id >= self.worker_busy_ms.len() {
            return false;
        }
        let busy: u64 = if report.end_ms >= report.start_ms { report.end_ms - report.start_ms } else { 0 };
        busy <= u64::MAX - self.worker_busy_ms[report.worker_id]
    }

    /// Records a completion: appends the report, adds its execution time to
    /// its worker's busy time and bumps the shared counter.
    pub fn record(&mut self, report: CompletionReport)
        requires
            old(self).accepts(report),
        ensures
            final(self).reports() == old(self).reports().push(report),
            final(self).busy_ms() == old(self).busy_ms().update(
                report.worker_id as int,
                (old(self).busy_ms()[report.worker_id as int] + busy_of(report)) as u64,
            ),
            busy_matches(old(self).busy_ms(), old(self).reports())
                ==> busy_matches(final(self).busy_ms(), final(self).reports()),
            final(self).run_start_ms() == old(self).run_start_ms(),
            final(self).run_end_ms() == old(self).run_end_ms(),
            final(self).shared_counter() == old(self).shared_counter(),
    {
        let busy: u64 = if report.end_ms >= report.start_ms { report.end_ms - report.start_ms } else { 0 };
        let w = report.worker_id;
        let updated = self.worker_busy_ms[w] + busy;
        self.worker_busy_ms.set(w, updated);
        bump(&self.counter);
        let ghost before = self.reports@;
        self.reports.push(report);
        assert(self.reports@.drop_last() =~= before);
        assert forall|i: int| 0 <= i < self.reports@.len() implies (#[trigger] self.reports@[i]).worker_id < self.worker_busy_ms@.len()
            || !busy_matches(old(self).busy_ms(), old(self).reports()) by {
            if i < before.len() {
                assert(self.reports@[i] == before[i]);
            }
        }
    }

    /// Marks the end of the run at the current time of `clock`.
    pub fn finalize_now(&mut self, clock: &Clock)
        ensures
            final(self).run_end_ms() is Some,
            final(self).reports() == old(self).reports(),
            final(self).busy_ms() == old(self).busy_ms(),
            final(self).run_start_ms() == old(self).run_start_ms(),
            final(self).shared_counter() == old(self).shared_counter(),
    {
        let now_ms = clock.now_ms();
        self.finalize(now_ms);
    }

    /// Marks the end of the run at `now_ms`.
    pub fn finalize(&mut self, now_ms: u64)
        ensures
            final(self).run_end_ms() == Some(now_ms),
            final(self).reports() == old(self).reports(),
            final(self).busy_ms() == old(self).busy_ms(),
            final(self).run_start_ms() == old(self).run_start_ms(),
            final(self).shared_counter() == old(self).shared_counter(),
    {
        self.run_end_ms = Some(now_ms);
    }

    /// The statistics of the run: counts, makespan (first arrival to last
    /// completion), average and longest waits, worker utilization and the
    /// gap between the CPU and IO average waits. `None` when no task has
    /// completed.
    pub fn summary(&self) -> (r: Option<Summary>)
        ensures
            r.is_none() <==> self.reports().len() == 0,
            r matches Some(sm) ==> sm == summary_of(self.reports(), self.busy_ms()),
            r matches Some(sm) ==> sm.total == self.reports().len(),
    {
        let n = self.reports.len();
        if n == 0 {
            return None;
        }
        let ghost s = self.reports@;
        let mut tw: u128 = 0;
        let mut tt: u128 = 0;
        let mut cc: usize = 0;
        let mut ic: usize = 0;
        let mut cw: u128 = 0;
        let mut iw: u128 = 0;
        let mut mw: u64 = 0;
        let mut mid: u64 = 0;
        let mut fa: u64 = u64::MAX;
        let mut le: u64 = 0;
        let mut k: usize = 0;
        assert(s.take(0) =~= Seq::<CompletionReport>::empty());
        while k < n
            invariant
                s == self.reports@,
                n == s.len(),
                k <= n,
                cc + ic == k,
                tw == total_wait(s.take(k as int)),
                tt == total_turnaround(s.take(k as int)),
                cc == count_of_kind(s.take(k as int), TaskKind::Cpu),
                ic == count_of_kind(s.take(k as int), TaskKind::Io),
                cw == wait_of_kind(s.take(k as int), TaskKind::Cpu),
                iw == wait_of_kind(s.take(k as int), TaskKind::Io),
                mw == max_wait(s.take(k as int)),
                mid == max_wait_task(s.take(k as int)),
                fa == first_arrival(s.take(k as int)),
                le == last_end(s.take(k as int)),
                tw <= k * 0xffff_ffff_ffff_ffff,
                tt <= k * 0xffff_ffff_ffff_ffff,
                cw <= cc * 0xffff_ffff_ffff_ffff,
                iw <= ic * 0xffff_ffff_ffff_ffff,
            decreases n - k,
        {
            let r = self.reports[k];
            assert(s.take(k + 1).drop_last() =~= s.take(k as int));
            assert(s.take(k + 1).last() == r);
            let wait: u64 = if r.start_ms >= r.arrival_ms { r.start_ms - r.arrival_ms } else { 0 };
            let turn: u64 = if r.end_ms >= r.arrival_ms { r.end_ms - r.arrival_ms } else { 0 };
            tw = tw + wait as u128;
            tt = tt + turn as u128;
            match r.kind {
                TaskKind::Cpu => {
                    cc = cc + 1;
                    cw = cw + wait as u128;
                },
                TaskKind::Io => {
                    ic = ic + 1;
                    iw = iw + wait as u128;
                },
            }
            if k == 0 || wait > mw {
                mid = r.task_id;
            }
            if wait > mw {
                mw = wait;
            }
            if r.arrival_ms < fa {
                fa = r.arrival_ms;
            }
            if r.end_ms > le {
                le = r.end_ms;
            }
            k = k + 1;
        }
        assert(s.take(n as int) =~= s);

        let nw = self.worker_busy_ms.len();
        let ghost b = self.worker_busy_ms@;
        let mut busy: u128 = 0;
        let mut j: usize = 0;
        assert(b.take(0) =~= Seq::<u64>::empty());
        while j < nw
            invariant
                b == self.worker_busy_ms@,
                nw == b.len(),
                j <= nw,
                busy == sum_of(b.take(j as int)),
                busy <= j * 0xffff_ffff_ffff_ffff,
            decreases nw - j,
        {
            assert(b.take(j + 1).drop_last() =~= b.take(j as int));
            busy = busy + self.worker_busy_ms[j] as u128;
            j = j + 1;
        }
        assert(b.take(nw as int) =~= b);

        let makespan: u64 = if le >= fa { le - fa } else { 0 };

        proof {
            lemma_mean_bound(tw as int, n as int, 0xffff_ffff_ffff_ffff);
            lemma_mean_bound(tt as int, n as int, 0xffff_ffff_ffff_ffff);
            if cc > 0 {
                lemma_mean_bound(cw as int, cc as int, 0xffff_ffff_ffff_ffff);
            }
            if ic > 0 {
                lemma_mean_bound(iw as int, ic as int, 0xffff_ffff_ffff_ffff);
            }
        }
        let avg_wait = (tw / (n as u128)) as u64;
        let avg_turnaround = (tt / (n as u128)) as u64;
        let cpu_avg: u64 = if cc > 0 { (cw / (cc as u128)) as u64 } else { 0 };
        let io_avg: u64 = if ic > 0 { (iw / (ic as u128)) as u64 } else { 0 };

        let mk = makespan as u128;
        let wk = nw as u128;
        assert(mk * wk <= 0xffff_ffff_ffff_ffff * 0xffff_ffff_ffff_ffff) by (nonlinear_arith)
            requires
                mk <= 0xffff_ffff_ffff_ffff,
                wk <= 0xffff_ffff_ffff_ffff,
        ;
        let prod: u128 = mk * wk;
        let cap: u128 = if prod > 0xffff_ffff_ffff_ffff { 0xffff_ffff_ffff_ffff } else { prod };
        let utilization: u64 = if cap > 0 {
            proof {
                lemma_percent_split(busy as int, cap as int);
            }
            let q = busy / cap;
            if q > 0xffff_ffff_ffff_ffff {
                u64::MAX
            } else {
                let rem = busy % cap;
                let v: u128 = 100 * q + (100 * rem) / cap;
                if v > 0xffff_ffff_ffff_ffff {
                    u64::MAX
                } else {
                    v as u64
                }
            }
        } else {
            0
        };

        let gap: u64 = if cpu_avg >= io_avg { cpu_avg - io_avg } else { io_avg - cpu_avg };

        Some(Summary {
            total: n,
            cpu_count: cc,
            io_count: ic,
            makespan_ms: makespan,
            avg_wait_ms: avg_wait,
            avg_turnaround_ms: avg_turnaround,
            max_wait_ms: mw,
            max_wait_task: mid,
            utilization_pct: utilization,
            cpu_avg_wait_ms: cpu_avg,
            io_avg_wait_ms: io_avg,
            fairness_gap_ms: gap,
        })
    }
}

} // verus!
