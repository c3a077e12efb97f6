use std::sync::atomic::AtomicUsize;
use std::sync::Arc;

use task_dispatcher::dispatcher::{DispatchConfig, Dispatcher};
use task_dispatcher::metrics::{CompletionReport, Metrics};
use task_dispatcher::task::{Task, TaskKind};

fn metrics(n: usize) -> Metrics {
    Metrics::new(n, Arc::new(AtomicUsize::new(0)), 0)
}

#[test]
fn new_dispatcher_has_every_worker_idle() {
    let d = Dispatcher::new(4, DispatchConfig { reserved_cpu_workers: 0 });
    for w in 0..4 {
        assert!(!d.is_busy(w));
    }
    assert!(!d.is_busy(4));
    assert!(!d.is_finished());
}

#[test]
fn finished_once_source_closes_with_nothing_in_flight() {
    let mut d = Dispatcher::new(2, DispatchConfig { reserved_cpu_workers: 0 });
    d.close_generator();
    assert!(d.is_finished());
}

#[test]
fn dispatch_hands_tasks_to_idle_workers_in_order() {
    let mut d = Dispatcher::new(3, DispatchConfig { reserved_cpu_workers: 0 });
    d.enqueue(Task::new_cpu(1, 0, 10, 5));
    d.enqueue(Task::new_io(2, 0, 10, 7));
    let out = d.dispatch(0);
    assert_eq!(out.len(), 2);
    assert_eq!((out[0].0, out[0].1.id), (0, 2));
    assert_eq!((out[1].0, out[1].1.id), (1, 1));
    assert!(d.is_busy(0) && d.is_busy(1) && !d.is_busy(2));
    assert!(d.dispatch(0).is_empty());
}

#[test]
fn reserved_workers_take_only_cpu_tasks() {
    let mut d = Dispatcher::new(3, DispatchConfig { reserved_cpu_workers: 2 });
    d.enqueue(Task::new_io(1, 0, 10, 9));
    d.enqueue(Task::new_io(2, 0, 10, 8));
    d.enqueue(Task::new_cpu(3, 0, 10, 1));
    let out = d.dispatch(0);
    // Worker 0 (reserved) takes the only CPU task, worker 1 (reserved)
    // finds no CPU task and stays idle, worker 2 takes the best IO task.
    assert_eq!(out.len(), 2);
    assert_eq!((out[0].0, out[0].1.id, out[0].1.kind), (0, 3, TaskKind::Cpu));
    assert_eq!((out[1].0, out[1].1.id), (2, 1));
    assert!(!d.is_busy(1));
    for (w, t) in &out {
        if *w < 2 {
            assert_eq!(t.kind, TaskKind::Cpu);
        }
    }
}

#[test]
fn reserved_worker_idles_while_io_waits() {
    let mut d = Dispatcher::new(1, DispatchConfig { reserved_cpu_workers: 1 });
    d.enqueue(Task::new_io(1, 0, 10, 9));
    assert!(d.dispatch(0).is_empty());
    assert!(!d.is_busy(0));
    d.close_generator();
    assert!(!d.is_finished());
}

#[test]
fn completion_returns_worker_to_idle_and_records() {
    let mut d = Dispatcher::new(2, DispatchConfig { reserved_cpu_workers: 0 });
    let mut m = metrics(2);
    d.enqueue(Task::new_cpu(1, 0, 10, 1));
    let out = d.dispatch(5);
    assert_eq!(out[0].0, 0);
    assert!(d.is_busy(0));
    let report = CompletionReport::for_task(&out[0].1, 0, 5, 15);
    assert!(m.can_record(&report));
    d.complete(report, &mut m);
    assert!(!d.is_busy(0));
    assert_eq!(m.counter.load(std::sync::atomic::Ordering::Relaxed), 1);
}

#[test]
fn not_finished_while_a_worker_is_busy() {
    let mut d = Dispatcher::new(2, DispatchConfig { reserved_cpu_workers: 0 });
    let mut m = metrics(2);
    d.enqueue(Task::new_io(1, 0, 10, 1));
    let out = d.dispatch(0);
    d.close_generator();
    // Queues are empty and the source is closed, but worker 0 still runs.
    assert!(!d.is_finished());
    d.complete(CompletionReport::for_task(&out[0].1, out[0].0, 0, 10), &mut m);
    assert!(d.is_finished());
}

#[test]
fn a_full_run_completes_every_task_exactly_once() {
    let n = 3;
    let mut d = Dispatcher::new(n, DispatchConfig { reserved_cpu_workers: 1 });
    let mut m = metrics(n);
    for i in 0..30u64 {
        let t = if i % 3 == 0 { Task::new_cpu(i, i, 5, (i % 10) as i32) } else { Task::new_io(i, i, 5, (i % 4) as i32) };
        d.enqueue(t);
    }
    d.close_generator();
    let mut done = Vec::new();
    let mut now = 100;
    while !d.is_finished() {
        let out = d.dispatch(now);
        for (w, t) in out {
            if w < 1 {
                assert_eq!(t.kind, TaskKind::Cpu);
            }
            let r = CompletionReport::for_task(&t, w, now, now + 5);
            d.complete(r, &mut m);
            done.push(t.id);
        }
        now += 5;
    }
    done.sort();
    assert_eq!(done, (0..30).collect::<Vec<u64>>());
    assert_eq!(m.summary().unwrap().total, 30);
}

#[test]
fn dispatch_keeps_every_task_and_uses_each_worker_once() {
    let mut d = Dispatcher::new(4, DispatchConfig { reserved_cpu_workers: 1 });
    for i in 0..3u64 {
        d.enqueue(Task::new_cpu(i, 0, 10, i as i32));
    }
    for i in 3..9u64 {
        d.enqueue(Task::new_io(i, 0, 10, i as i32));
    }
    assert_eq!(d.queue_lengths(), (3, 6));
    let out = d.dispatch(0);
    let (c, i) = d.queue_lengths();
    assert_eq!(out.len() + c + i, 9);
    let mut workers: Vec<usize> = out.iter().map(|(w, _)| *w).collect();
    workers.sort();
    workers.dedup();
    assert_eq!(workers.len(), out.len());
    assert_eq!(out.len(), 4);
    for w in 0..4 {
        assert!(d.is_busy(w));
    }
}

#[test]
fn idle_general_worker_means_empty_queues() {
    let mut d = Dispatcher::new(5, DispatchConfig { reserved_cpu_workers: 2 });
    d.enqueue(Task::new_io(1, 0, 10, 1));
    d.enqueue(Task::new_cpu(2, 0, 10, 1));
    let out = d.dispatch(0);
    assert_eq!(out.len(), 2);
    assert_eq!(d.queue_lengths(), (0, 0));
    // Worker 0 (reserved) took the CPU task; worker 1 (reserved) found none;
    // worker 2 took the IO task; workers 3 and 4 found nothing.
    assert!(d.is_busy(0) && !d.is_busy(1) && d.is_busy(2) && !d.is_busy(3) && !d.is_busy(4));
}

#[test]
fn idle_order_is_kept_for_workers_left_idle() {
    let mut d = Dispatcher::new(3, DispatchConfig { reserved_cpu_workers: 0 });
    let mut m = Metrics::new(3, Arc::new(AtomicUsize::new(0)), 0);
    for i in 0..3u64 {
        d.enqueue(Task::new_io(i, 0, 10, 1));
    }
    let out = d.dispatch(0);
    // Workers return in the order 2, 0, 1.
    for w in [2usize, 0, 1] {
        let t = out.iter().find(|(x, _)| *x == w).unwrap().1;
        d.complete(CompletionReport::for_task(&t, w, 0, 10), &mut m);
    }
    d.enqueue(Task::new_io(10, 20, 10, 1));
    let next = d.dispatch(20);
    assert_eq!(next.len(), 1);
    assert_eq!(next[0].0, 2);
}

#[test]
fn dispatch_now_assigns_like_dispatch() {
    let clock = task_dispatcher::clock::Clock::start();
    let mut d = Dispatcher::new(2, DispatchConfig { reserved_cpu_workers: 0 });
    d.enqueue(Task::new_cpu(1, 0, 10, 1));
    d.enqueue(Task::new_io(2, 0, 10, 9));
    let out = d.dispatch_now(&clock);
    assert_eq!(out.len(), 2);
    assert_eq!((out[0].0, out[0].1.id), (0, 2));
    assert_eq!((out[1].0, out[1].1.id), (1, 1));
}
