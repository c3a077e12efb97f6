use vstd::prelude::*;

verus! {

/// CPU load (in percent) that a CPU-bound task places on the system.
pub const CPU_PERCENT: u32 = 35;

/// CPU load (in percent) that an IO-bound task places on the system.
pub const IO_PERCENT: u32 = 10;

/// Default execution time of a task, in milliseconds.
pub const TASK_DURATION_MS: u64 = 200;

/// A waiting task gains one point of effective priority per this many
/// milliseconds spent in a queue.
pub const AGING_DIVISOR_MS: u64 = 50;

/// The two classes of work the dispatcher routes.
#[derive(Debug, Clone, Copy, PartialEq, Eq, Structural)]
pub enum TaskKind {
    Cpu,
    Io,
}

impl TaskKind {
    /// The three-character label used in reports: `"CPU"` or `"IO "`.
    pub fn label(&self) -> (s: &'static str)
        ensures
            *self == TaskKind::Cpu ==> s@ == "CPU"@,
            *self == TaskKind::Io ==> s@ == "IO "@,
    {
        match self {
            TaskKind::Cpu => "CPU",
            TaskKind::Io => "IO ",
        }
    }
}

/// The CPU load carried by a task of the given kind (not read by the
/// scheduling policy).
pub open spec fn load_of(kind: TaskKind) -> u32 {
    match kind {
        TaskKind::Cpu => CPU_PERCENT,
        TaskKind::Io => IO_PERCENT,
    }
}

/// Milliseconds between `arrival_ms` and `now_ms`, or zero when `now_ms`
/// is not later than the arrival.
pub open spec fn waited_ms(arrival_ms: u64, now_ms: u64) -> int {
    if now_ms >= arrival_ms {
        now_ms - arrival_ms
    } else {
        0
    }
}

/// Effective priority: the base priority plus one point per
/// `AGING_DIVISOR_MS` milliseconds waited.
pub open spec fn aged_priority(priority: i32, arrival_ms: u64, now_ms: u64) -> int {
    priority + waited_ms(arrival_ms, now_ms) / (AGING_DIVISOR_MS as int)
}

/// A unit of work. Times are milliseconds on the run's clock.
#[derive(Debug, Clone, Copy, PartialEq, Eq, Structural)]
pub struct Task {
    pub id: u64,
    pub arrival_ms: u64,
    pub kind: TaskKind,
    /// Share of the processor, in percent, that the task takes up when it
    /// runs. It is carried for reporting; the scheduling policy does not
    /// read it (there is no global CPU cap).
    pub cpu_percent: u32,
    pub duration_ms: u64,
    /// Base priority; larger runs first.
    pub priority: i32,
}

/// How a worker carries out a task: spinning on the CPU or blocking.
#[derive(Debug, Clone, Copy, PartialEq, Eq, Structural)]
pub enum Execution {
    /// Busy-wait for the given number of milliseconds.
    Spin(u64),
    /// Block (sleep) for the given number of milliseconds.
    Sleep(u64),
}

impl Task {
    pub open spec fn spec_effective_priority(&self, now_ms: u64) -> int {
        aged_priority(self.priority, self.arrival_ms, now_ms)
    }

    /// A task of the given kind; its CPU load is that of its kind.
    pub fn new(id: u64, arrival_ms: u64, kind: TaskKind, duration_ms: u64, priority: i32) -> (t: Task)
        ensures
            t == (Task { id, arrival_ms, kind, cpu_percent: load_of(kind), duration_ms, priority }),
    {
        let cpu_percent = match kind {
            TaskKind::Cpu => CPU_PERCENT,
            TaskKind::Io => IO_PERCENT,
        };
        Task { id, arrival_ms, kind, cpu_percent, duration_ms, priority }
    }

    /// A CPU-bound task carrying `CPU_PERCENT` load.
    pub fn new_cpu(id: u64, arrival_ms: u64, duration_ms: u64, priority: i32) -> (t: Task)
        ensures
            t == (Task { id, arrival_ms, kind: TaskKind::Cpu, cpu_percent: CPU_PERCENT, duration_ms, priority }),
    {
        Task { id, arrival_ms, kind: TaskKind::Cpu, cpu_percent: CPU_PERCENT, duration_ms, priority }
    }

    /// An IO-bound task carrying `IO_PERCENT` load.
    pub fn new_io(id: u64, arrival_ms: u64, duration_ms: u64, priority: i32) -> (t: Task)
        ensures
            t == (Task { id, arrival_ms, kind: TaskKind::Io, cpu_percent: IO_PERCENT, duration_ms, priority }),
    {
        Task { id, arrival_ms, kind: TaskKind::Io, cpu_percent: IO_PERCENT, duration_ms, priority }
    }

    /// Effective priority at time `now_ms`: the base priority plus one point
    /// per `AGING_DIVISOR_MS` milliseconds the task has waited since arrival.
    pub fn effective_priority(&self, now_ms: u64) -> (p: i64)
        ensures
            p == self.spec_effective_priority(now_ms),
    {
        let waited: u64 = if now_ms >= self.arrival_ms { now_ms - self.arrival_ms } else { 0 };
        self.priority as i64 + (waited / AGING_DIVISOR_MS) as i64
    }

    /// CPU-bound tasks spin for their duration; IO-bound tasks sleep.
    pub fn execution(&self) -> (e: Execution)
        ensures
            self.kind == TaskKind::Cpu ==> e == Execution::Spin(self.duration_ms),
            self.kind == TaskKind::Io ==> e == Execution::Sleep(self.duration_ms),
    {
        match self.kind {
            TaskKind::Cpu => Execution::Spin(self.duration_ms),
            TaskKind::Io => Execution::Sleep(self.duration_ms),
        }
    }
}

} // verus!
