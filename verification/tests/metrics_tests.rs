use std::sync::atomic::{AtomicUsize, Ordering};
use std::sync::Arc;

use task_dispatcher::metrics::{CompletionReport, Metrics};
use task_dispatcher::task::{Task, TaskKind};

fn report(id: u64, worker: usize, kind: TaskKind, arrival: u64, start: u64, end: u64) -> CompletionReport {
    CompletionReport { task_id: id, worker_id: worker, kind, arrival_ms: arrival, start_ms: start, end_ms: end }
}

#[test]
fn report_for_task_copies_the_task() {
    let t = Task::new_io(9, 40, 10, 3);
    let r = CompletionReport::for_task(&t, 2, 50, 65);
    assert_eq!(r, report(9, 2, TaskKind::Io, 40, 50, 65));
}

#[test]
fn empty_metrics_have_no_summary() {
    let m = Metrics::new(4, Arc::new(AtomicUsize::new(0)), 0);
    assert!(m.summary().is_none());
}

#[test]
fn record_bumps_the_shared_counter() {
    let counter = Arc::new(AtomicUsize::new(0));
    let mut m = Metrics::new(2, Arc::clone(&counter), 0);
    m.record(report(1, 0, TaskKind::Cpu, 0, 0, 10));
    m.record(report(2, 1, TaskKind::Io, 0, 0, 10));
    assert_eq!(counter.load(Ordering::Relaxed), 2);
}

#[test]
fn can_record_rejects_unknown_workers_and_overflow() {
    let mut m = Metrics::new(1, Arc::new(AtomicUsize::new(0)), 0);
    assert!(!m.can_record(&report(1, 1, TaskKind::Cpu, 0, 0, 10)));
    assert!(m.can_record(&report(1, 0, TaskKind::Cpu, 0, 0, u64::MAX)));
    m.record(report(1, 0, TaskKind::Cpu, 0, 0, u64::MAX));
    assert!(!m.can_record(&report(2, 0, TaskKind::Cpu, 0, 0, 1)));
    // A zero-length run adds nothing and still fits.
    assert!(m.can_record(&report(3, 0, TaskKind::Cpu, 0, 5, 5)));
}

#[test]
fn summary_computes_every_statistic() {
    let mut m = Metrics::new(2, Arc::new(AtomicUsize::new(0)), 0);
    // waits: 10, 30, 30, 0 ; turnarounds: 20, 50, 40, 5
    m.record(report(1, 0, TaskKind::Cpu, 0, 10, 20));
    m.record(report(2, 1, TaskKind::Io, 10, 40, 60));
    m.record(report(3, 0, TaskKind::Cpu, 20, 50, 60));
    m.record(report(4, 1, TaskKind::Io, 95, 95, 100));
    m.finalize(100);
    let s = m.summary().unwrap();
    assert_eq!(s.total, 4);
    assert_eq!(s.cpu_count, 2);
    assert_eq!(s.io_count, 2);
    assert_eq!(s.makespan_ms, 100);
    assert_eq!(s.avg_wait_ms, 70 / 4);
    assert_eq!(s.avg_turnaround_ms, 115 / 4);
    assert_eq!(s.max_wait_ms, 30);
    // The first task that waited longest is reported.
    assert_eq!(s.max_wait_task, 2);
    assert_eq!(s.cpu_avg_wait_ms, 20);
    assert_eq!(s.io_avg_wait_ms, 15);
    assert_eq!(s.fairness_gap_ms, 5);
    // busy: worker 0 = 10 + 10, worker 1 = 20 + 5; capacity 100 * 2.
    assert_eq!(s.utilization_pct, 100 * 45 / 200);
}

#[test]
fn makespan_runs_from_first_arrival_to_last_completion() {
    let mut m = Metrics::new(1, Arc::new(AtomicUsize::new(0)), 0);
    m.record(report(1, 0, TaskKind::Io, 100, 100, 150));
    m.finalize(200);
    assert_eq!(m.summary().unwrap().makespan_ms, 50);
}

#[test]
fn makespan_ignores_record_order() {
    let mut m = Metrics::new(2, Arc::new(AtomicUsize::new(0)), 0);
    m.record(report(1, 0, TaskKind::Io, 40, 45, 300));
    m.record(report(2, 1, TaskKind::Cpu, 10, 20, 90));
    m.record(report(3, 0, TaskKind::Cpu, 70, 300, 310));
    assert_eq!(m.summary().unwrap().makespan_ms, 300);
}

#[test]
fn summary_of_unfinished_run() {
    let mut m = Metrics::new(1, Arc::new(AtomicUsize::new(0)), 50);
    m.record(report(1, 0, TaskKind::Io, 50, 60, 70));
    let s = m.summary().unwrap();
    assert_eq!(s.makespan_ms, 20);
    assert_eq!(s.utilization_pct, 50);
    assert_eq!(s.cpu_avg_wait_ms, 0);
    assert_eq!(s.io_avg_wait_ms, 10);
    assert_eq!(s.fairness_gap_ms, 10);
}

#[test]
fn no_wait_names_the_first_task() {
    let mut m = Metrics::new(1, Arc::new(AtomicUsize::new(0)), 0);
    m.record(report(5, 0, TaskKind::Cpu, 10, 10, 20));
    m.record(report(6, 0, TaskKind::Cpu, 20, 20, 30));
    let s = m.summary().unwrap();
    assert_eq!(s.max_wait_ms, 0);
    assert_eq!(s.max_wait_task, 5);
}

#[test]
fn longest_wait_ties_name_the_first() {
    let mut m = Metrics::new(1, Arc::new(AtomicUsize::new(0)), 0);
    m.record(report(3, 0, TaskKind::Cpu, 0, 5, 6));
    m.record(report(8, 0, TaskKind::Io, 0, 9, 10));
    m.record(report(4, 0, TaskKind::Io, 1, 10, 12));
    let s = m.summary().unwrap();
    assert_eq!(s.max_wait_ms, 9);
    assert_eq!(s.max_wait_task, 8);
}

#[test]
fn zero_capacity_means_zero_utilization() {
    let mut m = Metrics::new(1, Arc::new(AtomicUsize::new(0)), 100);
    m.record(report(1, 0, TaskKind::Cpu, 100, 100, 100));
    m.finalize(100);
    assert_eq!(m.summary().unwrap().utilization_pct, 0);
}

#[test]
fn no_reports_means_no_summary_even_without_workers() {
    let m0 = Metrics::new(0, Arc::new(AtomicUsize::new(0)), 0);
    assert!(m0.summary().is_none());
}

#[test]
fn start_before_arrival_counts_as_no_wait() {
    let mut m = Metrics::new(1, Arc::new(AtomicUsize::new(0)), 0);
    m.record(report(1, 0, TaskKind::Io, 30, 20, 25));
    let s = m.summary().unwrap();
    assert_eq!(s.avg_wait_ms, 0);
    assert_eq!(s.avg_turnaround_ms, 0);
}

#[test]
fn utilization_counts_all_busy_time() {
    let mut m = Metrics::new(2, Arc::new(AtomicUsize::new(0)), 0);
    m.record(report(1, 0, TaskKind::Cpu, 0, 0, 1000));
    // 100 * 1000 / (1000 * 2)
    assert_eq!(m.summary().unwrap().utilization_pct, 50);
    // Overlapping reports on one worker can exceed the capacity.
    let mut o = Metrics::new(1, Arc::new(AtomicUsize::new(0)), 0);
    o.record(report(1, 0, TaskKind::Cpu, 0, 0, 1000));
    o.record(report(2, 0, TaskKind::Cpu, 0, 0, 1000));
    assert_eq!(o.summary().unwrap().utilization_pct, 200);
}

#[test]
fn fairness_gap_is_the_distance_of_large_averages() {
    let mut m = Metrics::new(1, Arc::new(AtomicUsize::new(0)), 0);
    m.record(report(1, 0, TaskKind::Cpu, 0, u64::MAX, u64::MAX));
    m.record(report(2, 0, TaskKind::Io, 0, 0, 0));
    let s = m.summary().unwrap();
    assert_eq!(s.cpu_avg_wait_ms, u64::MAX);
    assert_eq!(s.io_avg_wait_ms, 0);
    assert_eq!(s.fairness_gap_ms, u64::MAX);
}

#[test]
fn busy_time_per_worker_is_the_sum_of_its_reports() {
    let mut m = Metrics::new(3, Arc::new(AtomicUsize::new(0)), 0);
    m.record(report(1, 0, TaskKind::Cpu, 0, 0, 10));
    m.record(report(2, 2, TaskKind::Io, 0, 5, 25));
    m.record(report(3, 0, TaskKind::Io, 0, 30, 37));
    m.record(report(4, 2, TaskKind::Cpu, 0, 50, 40));
    assert_eq!(m.num_workers(), 3);
    assert_eq!(m.worker_busy(0), 17);
    assert_eq!(m.worker_busy(1), 0);
    assert_eq!(m.worker_busy(2), 20);
}

#[test]
fn busy_times_do_not_depend_on_record_order() {
    let rs = [
        report(1, 0, TaskKind::Cpu, 0, 0, 10),
        report(2, 1, TaskKind::Io, 0, 5, 25),
        report(3, 0, TaskKind::Io, 0, 30, 37),
    ];
    let mut a = Metrics::new(2, Arc::new(AtomicUsize::new(0)), 0);
    let mut b = Metrics::new(2, Arc::new(AtomicUsize::new(0)), 0);
    for r in rs.iter() {
        a.record(*r);
    }
    for r in rs.iter().rev() {
        b.record(*r);
    }
    for w in 0..2 {
        assert_eq!(a.worker_busy(w), b.worker_busy(w));
    }
}

#[test]
fn kind_counts_add_up_to_total() {
    let mut m = Metrics::new(3, Arc::new(AtomicUsize::new(0)), 0);
    for i in 0..17u64 {
        let kind = if i % 4 == 0 { TaskKind::Cpu } else { TaskKind::Io };
        m.record(report(i, (i % 3) as usize, kind, i, i + i % 5, i + 10));
    }
    let s = m.summary().unwrap();
    assert_eq!(s.cpu_count + s.io_count, s.total);
    assert_eq!(s.cpu_count, 5);
    assert!(s.avg_wait_ms <= s.max_wait_ms);
}

#[test]
fn fairness_gap_does_not_depend_on_which_kind_waits_more() {
    let mut a = Metrics::new(1, Arc::new(AtomicUsize::new(0)), 0);
    a.record(report(1, 0, TaskKind::Cpu, 0, 40, 50));
    a.record(report(2, 0, TaskKind::Io, 0, 10, 60));
    let mut b = Metrics::new(1, Arc::new(AtomicUsize::new(0)), 0);
    b.record(report(1, 0, TaskKind::Io, 0, 40, 50));
    b.record(report(2, 0, TaskKind::Cpu, 0, 10, 60));
    assert_eq!(a.summary().unwrap().fairness_gap_ms, 30);
    assert_eq!(b.summary().unwrap().fairness_gap_ms, 30);
}

#[test]
fn equal_averages_have_no_gap() {
    let mut a = Metrics::new(1, Arc::new(AtomicUsize::new(0)), 0);
    a.record(report(1, 0, TaskKind::Cpu, 0, 25, 50));
    a.record(report(2, 0, TaskKind::Io, 5, 30, 60));
    assert_eq!(a.summary().unwrap().fairness_gap_ms, 0);
}

#[test]
fn finalize_now_keeps_the_summary() {
    let clock = task_dispatcher::clock::Clock::start();
    let mut m = Metrics::new(1, Arc::new(AtomicUsize::new(0)), 0);
    m.record(report(1, 0, TaskKind::Cpu, 0, 0, 1));
    let before = m.summary().unwrap();
    m.finalize_now(&clock);
    assert_eq!(m.summary().unwrap(), before);
    assert_eq!(before.makespan_ms, 1);
}
