use task_dispatcher::task::{Execution, Task, TaskKind, CPU_PERCENT, IO_PERCENT};

#[test]
fn new_cpu_carries_cpu_load() {
    let t = Task::new_cpu(7, 100, 30, 4);
    assert_eq!(t.id, 7);
    assert_eq!(t.arrival_ms, 100);
    assert_eq!(t.kind, TaskKind::Cpu);
    assert_eq!(t.cpu_percent, CPU_PERCENT);
    assert_eq!(t.cpu_percent, 35);
    assert_eq!(t.duration_ms, 30);
    assert_eq!(t.priority, 4);
}

#[test]
fn new_io_carries_io_load() {
    let t = Task::new_io(8, 5, 12, 9);
    assert_eq!(t.kind, TaskKind::Io);
    assert_eq!(t.cpu_percent, IO_PERCENT);
    assert_eq!(t.cpu_percent, 10);
    assert_eq!(t.priority, 9);
}

#[test]
fn new_takes_load_from_kind() {
    assert_eq!(Task::new(1, 0, TaskKind::Cpu, 5, 1), Task::new_cpu(1, 0, 5, 1));
    assert_eq!(Task::new(2, 3, TaskKind::Io, 6, 2), Task::new_io(2, 3, 6, 2));
}

#[test]
fn effective_priority_adds_one_point_per_50_ms() {
    let t = Task::new_io(1, 100, 10, 3);
    assert_eq!(t.effective_priority(100), 3);
    assert_eq!(t.effective_priority(149), 3);
    assert_eq!(t.effective_priority(150), 4);
    assert_eq!(t.effective_priority(600), 13);
}

#[test]
fn effective_priority_before_arrival_is_base() {
    let t = Task::new_cpu(1, 1000, 10, -2);
    assert_eq!(t.effective_priority(0), -2);
}

#[test]
fn waiting_500_ms_outranks_fresh_priority_10() {
    // A priority-1 task that has waited 500 ms has gained 10 points.
    let old = Task::new_io(1, 0, 10, 1);
    let fresh = Task::new_cpu(2, 500, 10, 10);
    assert_eq!(old.effective_priority(500), 11);
    assert_eq!(fresh.effective_priority(500), 10);
    assert!(old.effective_priority(500) > fresh.effective_priority(500));
}

#[test]
fn aging_is_monotone_in_time() {
    let t = Task::new_cpu(1, 40, 10, 5);
    let mut last = t.effective_priority(0);
    for now in 0..2000u64 {
        let p = t.effective_priority(now);
        assert!(p >= last);
        last = p;
    }
}

#[test]
fn effective_priority_at_far_future_does_not_overflow() {
    let t = Task::new_cpu(1, 0, 10, i32::MAX);
    assert_eq!(t.effective_priority(u64::MAX), i32::MAX as i64 + (u64::MAX / 50) as i64);
}

#[test]
fn labels_match_report_format() {
    assert_eq!(TaskKind::Cpu.label(), "CPU");
    assert_eq!(TaskKind::Io.label(), "IO ");
}

#[test]
fn cpu_tasks_spin_io_tasks_sleep() {
    assert_eq!(Task::new_cpu(1, 0, 42, 1).execution(), Execution::Spin(42));
    assert_eq!(Task::new_io(1, 0, 17, 1).execution(), Execution::Sleep(17));
}
