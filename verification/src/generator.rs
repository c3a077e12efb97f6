use vstd::prelude::*;
use rand::rngs::StdRng;
use rand::{Rng, SeedableRng};
use crate::task::{Task, TaskKind, load_of};

verus! {

broadcast use vstd::seq_lib::group_to_multiset_ensures, vstd::multiset::group_multiset_axioms;

#[verifier::external_type_specification]
#[verifier::external_body]
pub struct ExStdRng(StdRng);

/// rand's `SeedableRng::seed_from_u64` for `StdRng`: a generator whose
/// stream is fixed by `seed`. The generator is opaque here; nothing is
/// stated of it.
#[verifier::external_body]
fn rng_from_seed(seed: u64) -> StdRng {
    StdRng::seed_from_u64(seed)
}

/// rand's `Rng::gen_range` on the half-open range `lo..hi` of `u64`: a value
/// in the range. It panics on an empty range, which `requires` leaves out.
#[verifier::external_body]
fn draw_below(rng: &mut StdRng, lo: u64, hi: u64) -> (r: u64)
    requires
        lo < hi,
    ensures
        lo <= r < hi,
{
    rng.gen_range(lo..hi)
}

/// rand's `Rng::gen_range` on the inclusive range `lo..=hi` of `u64`: a
/// value in the range. It panics on an empty range, which `requires`
/// leaves out.
#[verifier::external_body]
fn draw_between_u64(rng: &mut StdRng, lo: u64, hi: u64) -> (r: u64)
    requires
        lo <= hi,
    ensures
        lo <= r <= hi,
{
    rng.gen_range(lo..=hi)
}

/// rand's `Rng::gen_range` on the inclusive range `lo..=hi` of `i32`: a
/// value in the range. It panics on an empty range, which `requires`
/// leaves out.
#[verifier::external_body]
fn draw_between_i32(rng: &mut StdRng, lo: i32, hi: i32) -> (r: i32)
    requires
        lo <= hi,
    ensures
        lo <= r <= hi,
{
    rng.gen_range(lo..=hi)
}

/// The generator a workload with this seed draws from.
pub fn seeded_rng(seed: u64) -> StdRng {
    rng_from_seed(seed)
}

/// Lowest base priority a generated task gets.
pub const MIN_PRIORITY: i32 = 1;

/// Highest base priority a generated task gets.
pub const MAX_PRIORITY: i32 = 10;

/// The integer part of a workload: how many tasks, from which seed, how
/// long they run and over how many milliseconds they arrive. In burst mode
/// a share of the tasks arrives in the first fifth of the window.
#[derive(Debug, Clone, Copy, PartialEq, Eq, Structural)]
pub struct WorkloadShape {
    pub num_tasks: u64,
    pub seed: u64,
    pub burst_mode: bool,
    pub min_duration_ms: u64,
    pub max_duration_ms: u64,
    pub arrival_spread_ms: u64,
}

/// The end (exclusive) of the burst window: the first fifth of the spread.
pub open spec fn burst_end(spread: u64) -> int {
    spread as int / 5
}

/// Every element is at most the next ones.
pub open spec fn sorted(s: Seq<u64>) -> bool {
    forall|i: int, j: int| 0 <= i <= j < s.len() ==> s[i] <= s[j]
}

impl WorkloadShape {
    /// Whether tasks can be drawn: a non-empty arrival window (at least
    /// five milliseconds in burst mode, so that the burst window is
    /// non-empty) and a non-empty duration range.
    pub open spec fn valid(&self) -> bool {
        &&& self.arrival_spread_ms > 0
        &&& self.burst_mode ==> burst_end(self.arrival_spread_ms) > 0
        &&& self.min_duration_ms <= self.max_duration_ms
    }

    /// Whether tasks can be drawn from this shape (see `valid`).
    pub fn is_valid(&self) -> (b: bool)
        ensures
            b == self.valid(),
    {
        self.arrival_spread_ms > 0 && (!self.burst_mode || self.arrival_spread_ms / 5 > 0)
            && self.min_duration_ms <= self.max_duration_ms
    }

    /// Balanced: uniform arrivals over 2 seconds, tasks of 5 to 20 ms.
    pub fn balanced(num_tasks: u64, seed: u64) -> (w: WorkloadShape)
        ensures
            w == (WorkloadShape {
                num_tasks,
                seed,
                burst_mode: false,
                min_duration_ms: 5,
                max_duration_ms: 20,
                arrival_spread_ms: 2000,
            }),
            w.valid(),
    {
        WorkloadShape {
            num_tasks,
            seed,
            burst_mode: false,
            min_duration_ms: 5,
            max_duration_ms: 20,
            arrival_spread_ms: 2000,
        }
    }

    /// Stressed: burst arrivals over 400 ms, tasks of 10 to 60 ms, drawn
    /// from the seed after `seed`.
    pub fn stressed(num_tasks: u64, seed: u64) -> (w: WorkloadShape)
        requires
            seed < u64::MAX,
        ensures
            w == (WorkloadShape {
                num_tasks,
                seed: (seed + 1) as u64,
                burst_mode: true,
                min_duration_ms: 10,
                max_duration_ms: 60,
                arrival_spread_ms: 400,
            }),
            w.valid(),
    {
        WorkloadShape {
            num_tasks,
            seed: seed + 1,
            burst_mode: true,
            min_duration_ms: 10,
            max_duration_ms: 60,
            arrival_spread_ms: 400,
        }
    }

    /// The end (exclusive) of the window an arrival offset is drawn from.
    pub open spec fn window(&self, in_burst: bool) -> int {
        if self.burst_mode && in_burst { burst_end(self.arrival_spread_ms) } else { self.arrival_spread_ms as int }
    }

    /// The end (exclusive) of the window an arrival offset is drawn from:
    /// the burst window (the first fifth) when in burst mode and `in_burst`
    /// holds, otherwise the whole arrival window.
    pub fn offset_window(&self, in_burst: bool) -> (w: u64)
        ensures
            w == self.window(in_burst),
    {
        if self.burst_mode && in_burst {
            self.arrival_spread_ms / 5
        } else {
            self.arrival_spread_ms
        }
    }

    /// Draws one arrival offset from `0..offset_window(in_burst)`.
    pub fn arrival_offset(&self, rng: &mut StdRng, in_burst: bool) -> (r: u64)
        requires
            self.valid(),
        ensures
            r < self.window(in_burst),
            self.burst_mode && in_burst ==> r < burst_end(self.arrival_spread_ms),
            !(self.burst_mode && in_burst) ==> r < self.arrival_spread_ms,
    {
        let hi = self.offset_window(in_burst);
        draw_below(rng, 0, hi)
    }

    /// Draws the duration, then the base priority, of task `id` of the
    /// given kind arriving at `arrival_ms`.
    pub fn draw_task(&self, rng: &mut StdRng, id: u64, arrival_ms: u64, kind: TaskKind) -> (t: Task)
        requires
            self.valid(),
        ensures
            t.id == id,
            t.arrival_ms == arrival_ms,
            t.kind == kind,
            t.cpu_percent == load_of(kind),
            self.min_duration_ms <= t.duration_ms <= self.max_duration_ms,
            MIN_PRIORITY <= t.priority <= MAX_PRIORITY,
    {
        let duration_ms = draw_between_u64(rng, self.min_duration_ms, self.max_duration_ms);
        let priority = draw_between_i32(rng, MIN_PRIORITY, MAX_PRIORITY);
        Task::new(id, arrival_ms, kind, duration_ms, priority)
    }
}

/// The release order of a set of arrival offsets: the same offsets in
/// ascending order.
pub fn arrival_schedule(offsets: Vec<u64>) -> (r: Vec<u64>)
    ensures
        sorted(r@),
        r@.to_multiset() =~= offsets@.to_multiset(),
{
    let mut out: Vec<u64> = Vec::new();
    let n = offsets.len();
    let mut k: usize = 0;
    assert(offsets@.take(0) =~= Seq::<u64>::empty());
    while k < n
        invariant
            n == offsets@.len(),
            k <= n,
            out@.len() == k,
            sorted(out@),
            out@.to_multiset() =~= offsets@.take(k as int).to_multiset(),
        decreases n - k,
    {
        let x = offsets[k];
        let mut p: usize = 0;
        while p < out.len() && out[p] <= x
            invariant
                p <= out@.len(),
                forall|j: int| 0 <= j < p ==> out@[j] <= x,
            decreases out@.len() - p,
        {
            p = p + 1;
        }
        let ghost before = out@;
        out.insert(p, x);
        assert(out@ == before.insert(p as int, x));
        assert forall|i: int, j: int| 0 <= i <= j < out@.len() implies out@[i] <= out@[j] by {
            if j < p {
            } else if j == p {
                if i < p {
                    assert(out@[i] == before[i]);
                }
            } else {
                assert(out@[j] == before[j - 1]);
                assert(before[j - 1] >= before[p as int]);
                if i < p {
                    assert(out@[i] == before[i]);
                } else if i > p {
                    assert(out@[i] == before[i - 1]);
                }
            }
        }
        assert(offsets@.take(k + 1) =~= offsets@.take(k as int).push(x));
        k = k + 1;
    }
    assert(offsets@.take(n as int) =~= offsets@);
    out
}

} // verus!
