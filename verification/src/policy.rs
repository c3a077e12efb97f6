use vstd::prelude::*;
use crate::task::{Task, AGING_DIVISOR_MS};

verus! {

broadcast use vstd::seq_lib::group_to_multiset_ensures, vstd::multiset::group_multiset_axioms;

/// Effective priority of `t` at time `now_ms`.
pub open spec fn eff(t: Task, now_ms: u64) -> int {
    t.spec_effective_priority(now_ms)
}

/// The index that a scan for the highest effective priority settles on:
/// the last element whose effective priority is maximal.
pub open spec fn best_index(q: Seq<Task>, now_ms: u64) -> int
    decreases q.len(),
{
    if q.len() <= 1 {
        0
    } else {
        let i = best_index(q.drop_last(), now_ms);
        if eff(q.last(), now_ms) >= eff(q[i], now_ms) {
            q.len() - 1
        } else {
            i
        }
    }
}

/// The highest effective priority in a non-empty queue.
pub open spec fn best_priority(q: Seq<Task>, now_ms: u64) -> int {
    eff(q[best_index(q, now_ms)], now_ms)
}

/// The queue after the element at `i` is removed by moving the last element
/// into its place.
pub open spec fn removed_at(q: Seq<Task>, i: int) -> Seq<Task> {
    q.update(i, q.last()).drop_last()
}

/// Whether the next pick comes from the CPU queue: it is non-empty and its
/// best effective priority is at least that of the IO queue (ties go to CPU).
pub open spec fn takes_cpu(cpu: Seq<Task>, io: Seq<Task>, now_ms: u64) -> bool {
    cpu.len() > 0 && (io.len() == 0 || best_priority(cpu, now_ms) >= best_priority(io, now_ms))
}

/// The task a pick takes from non-empty queues.
pub open spec fn picked(cpu: Seq<Task>, io: Seq<Task>, now_ms: u64) -> Task {
    if takes_cpu(cpu, io, now_ms) {
        cpu[best_index(cpu, now_ms)]
    } else {
        io[best_index(io, now_ms)]
    }
}

/// Aging never lowers a task's effective priority as time passes.
pub proof fn law_aging_is_monotone(t: Task, now1: u64, now2: u64)
    requires
        now1 <= now2,
    ensures
        eff(t, now1) <= eff(t, now2),
{
    if now1 >= t.arrival_ms {
        vstd::arithmetic::div_mod::lemma_div_is_ordered(now1 - t.arrival_ms, now2 - t.arrival_ms, 50);
    } else if now2 >= t.arrival_ms {
        vstd::arithmetic::div_mod::lemma_div_pos_is_pos(now2 - t.arrival_ms, 50);
    }
}

/// Each further `AGING_DIVISOR_MS` milliseconds of waiting adds exactly one
/// point of effective priority.
pub proof fn law_aging_rate(t: Task, now_ms: u64, k: nat)
    requires
        t.arrival_ms <= now_ms,
        now_ms + k * AGING_DIVISOR_MS <= u64::MAX,
    ensures
        eff(t, (now_ms + k * AGING_DIVISOR_MS) as u64) == eff(t, now_ms) + k,
{
    vstd::arithmetic::div_mod::lemma_hoist_over_denominator(now_ms - t.arrival_ms, k as int, 50);
}

/// Aging prevents starvation: a queued task is taken before any task that
/// arrived at least `AGING_DIVISOR_MS` milliseconds per point of base
/// priority difference (plus one) after it, so a later arrival can never
/// overtake a task that has waited long enough.
pub proof fn law_aging_prevents_overtaking(cpu: Seq<Task>, io: Seq<Task>, now_ms: u64, t: Task, u: Task)
    requires
        cpu.contains(t) || io.contains(t),
        t.arrival_ms + AGING_DIVISOR_MS * (u.priority - t.priority + 1) <= u.arrival_ms,
        t.arrival_ms <= now_ms,
        u.arrival_ms <= now_ms,
    ensures
        eff(t, now_ms) > eff(u, now_ms),
        picked(cpu, io, now_ms) != u,
{
    let wt = now_ms - t.arrival_ms;
    let wu = now_ms - u.arrival_ms;
    let d = u.arrival_ms - t.arrival_ms;
    assert(wt == wu + d);
    vstd::arithmetic::div_mod::lemma_fundamental_div_mod(wu, 50);
    vstd::arithmetic::div_mod::lemma_fundamental_div_mod(d, 50);
    vstd::arithmetic::div_mod::lemma_fundamental_div_mod(wt, 50);
    assert(wt / 50 >= wu / 50 + d / 50) by (nonlinear_arith)
        requires
            wt == wu + d,
            wu == 50 * (wu / 50) + wu % 50,
            d == 50 * (d / 50) + d % 50,
            wt == 50 * (wt / 50) + wt % 50,
            0 <= wu % 50 < 50,
            0 <= d % 50 < 50,
            0 <= wt % 50 < 50,
    ;
    assert(d / 50 >= u.priority - t.priority + 1) by (nonlinear_arith)
        requires
            d >= 50 * (u.priority - t.priority + 1),
            d == 50 * (d / 50) + d % 50,
            0 <= d % 50 < 50,
    ;
    let p = picked(cpu, io, now_ms);
    if cpu.len() > 0 {
        lemma_best_index(cpu, now_ms);
    }
    if io.len() > 0 {
        lemma_best_index(io, now_ms);
    }
    if cpu.contains(t) {
        let j = choose|j: int| 0 <= j < cpu.len() && cpu[j] == t;
        assert(eff(cpu[j], now_ms) <= best_priority(cpu, now_ms));
    } else {
        let j = choose|j: int| 0 <= j < io.len() && io[j] == t;
        assert(eff(io[j], now_ms) <= best_priority(io, now_ms));
    }
    assert(eff(p, now_ms) >= eff(t, now_ms));
}

/// `best_index` is the last position of a maximal effective priority.
pub proof fn lemma_best_index(q: Seq<Task>, now_ms: u64)
    requires
        q.len() > 0,
    ensures
        0 <= best_index(q, now_ms) < q.len(),
        forall|j: int| 0 <= j < q.len() ==> eff(#[trigger] q[j], now_ms) <= best_priority(q, now_ms),
        forall|j: int| best_index(q, now_ms) < j < q.len() ==> eff(#[trigger] q[j], now_ms) < best_priority(q, now_ms),
    decreases q.len(),
{
    if q.len() > 1 {
        let p = q.drop_last();
        lemma_best_index(p, now_ms);
        let i = best_index(p, now_ms);
        assert(p[i] == q[i]);
        assert forall|j: int| 0 <= j < q.len() implies eff(#[trigger] q[j], now_ms) <= best_priority(q, now_ms) by {
            if j < q.len() - 1 {
                assert(q[j] == p[j]);
            }
        }
        assert forall|j: int| best_index(q, now_ms) < j < q.len() implies eff(#[trigger] q[j], now_ms) < best_priority(q, now_ms) by {
            if j < q.len() - 1 {
                assert(q[j] == p[j]);
            }
        }
    }
}

/// Removing one element keeps the rest: as multisets, the queue is the
/// removed element plus what remains.
pub proof fn lemma_removed_at_multiset(q: Seq<Task>, i: int)
    requires
        0 <= i < q.len(),
    ensures
        removed_at(q, i).to_multiset().insert(q[i]) =~= q.to_multiset(),
        removed_at(q, i).len() == q.len() - 1,
{
    let u = q.update(i, q.last());
    let r = removed_at(q, i);
    assert(u =~= r.push(u.last()));
    assert(u.last() == q.last());
    assert(u.to_multiset() == q.to_multiset().insert(q.last()).remove(q[i]));
    assert(u.to_multiset() == r.to_multiset().insert(q.last()));
    assert(q.to_multiset().count(q[i]) > 0);
    assert forall|x: Task| #[trigger] r.to_multiset().insert(q[i]).count(x) == q.to_multiset().count(x) by {
        assert(u.to_multiset().count(x) == r.to_multiset().insert(q.last()).count(x));
        assert(u.to_multiset().count(x) == q.to_multiset().insert(q.last()).remove(q[i]).count(x));
    }
}

/// Position and effective priority of the best task in `q`, or `None` when
/// `q` is empty.
fn best_in(q: &Vec<Task>, now_ms: u64) -> (r: Option<(usize, i64)>)
    ensures
        q@.len() == 0 <==> r.is_none(),
        r matches Some((i, p)) ==> i == best_index(q@, now_ms) && p == best_priority(q@, now_ms),
{
    if q.len() == 0 {
        return None;
    }
    let mut best: usize = 0;
    let mut best_p: i64 = q[0].effective_priority(now_ms);
    let mut k: usize = 1;
    assert(q@.take(1).drop_last().len() == 0);
    while k < q.len()
        invariant
            1 <= k <= q.len(),
            best == best_index(q@.take(k as int), now_ms),
            best < k,
            best_p == eff(q@[best as int], now_ms),
        decreases q.len() - k,
    {
        let p = q[k].effective_priority(now_ms);
        assert(q@.take(k + 1).drop_last() =~= q@.take(k as int));
        if p >= best_p {
            best = k;
            best_p = p;
        }
        k = k + 1;
    }
    assert(q@.take(q.len() as int) =~= q@);
    Some((best, best_p))
}

/// Scheduling policy: priority-based with aging.
///
/// Takes the task of highest effective priority across both queues
/// (within a queue the last of several equal ones; across queues ties go to
/// the CPU queue) and removes it by moving the queue's last task into its
/// place. Returns `None` when both queues are empty.
pub fn pick_next(cpu_queue: &mut Vec<Task>, io_queue: &mut Vec<Task>, now_ms: u64) -> (r: Option<Task>)
    ensures
        r.is_none() <==> (old(cpu_queue)@.len() == 0 && old(io_queue)@.len() == 0),
        r.is_none() ==> final(cpu_queue)@ == old(cpu_queue)@ && final(io_queue)@ == old(io_queue)@,
        r.is_some() ==> r == Some(picked(old(cpu_queue)@, old(io_queue)@, now_ms)),
        takes_cpu(old(cpu_queue)@, old(io_queue)@, now_ms) ==> {
            let i = best_index(old(cpu_queue)@, now_ms);
            &&& r == Some(old(cpu_queue)@[i])
            &&& final(cpu_queue)@ == removed_at(old(cpu_queue)@, i)
            &&& final(io_queue)@ == old(io_queue)@
        },
        !takes_cpu(old(cpu_queue)@, old(io_queue)@, now_ms) && old(io_queue)@.len() > 0 ==> {
            let i = best_index(old(io_queue)@, now_ms);
            &&& r == Some(old(io_queue)@[i])
            &&& final(io_queue)@ == removed_at(old(io_queue)@, i)
            &&& final(cpu_queue)@ == old(cpu_queue)@
        },
        // The chosen task outranks (or ties) every queued task.
        r matches Some(t) ==> {
            &&& forall|j: int| 0 <= j < old(cpu_queue)@.len() ==> eff(#[trigger] old(cpu_queue)@[j], now_ms) <= eff(t, now_ms)
            &&& forall|j: int| 0 <= j < old(io_queue)@.len() ==> eff(#[trigger] old(io_queue)@[j], now_ms) <= eff(t, now_ms)
        },
        // No task is lost or invented.
        r matches Some(t) ==> old(cpu_queue)@.to_multiset().add(old(io_queue)@.to_multiset())
            =~= final(cpu_queue)@.to_multiset().add(final(io_queue)@.to_multiset()).insert(t),
{
    let best_cpu = best_in(cpu_queue, now_ms);
    let best_io = best_in(io_queue, now_ms);
    proof {
        if cpu_queue@.len() > 0 {
            lemma_best_index(cpu_queue@, now_ms);
            lemma_removed_at_multiset(cpu_queue@, best_index(cpu_queue@, now_ms));
        }
        if io_queue@.len() > 0 {
            lemma_best_index(io_queue@, now_ms);
            lemma_removed_at_multiset(io_queue@, best_index(io_queue@, now_ms));
        }
    }
    match (best_cpu, best_io) {
        (Some((ci, cp)), Some((ii, ip))) => {
            if cp >= ip {
                Some(cpu_queue.swap_remove(ci))
            } else {
                Some(io_queue.swap_remove(ii))
            }
        },
        (Some((ci, _)), None) => Some(cpu_queue.swap_remove(ci)),
        (None, Some((ii, _))) => Some(io_queue.swap_remove(ii)),
        (None, None) => None,
    }
}

/// The pick for a worker reserved for CPU work: the task of highest
/// effective priority in the CPU queue (the last of several equal ones),
/// removed by moving the queue's last task into its place; `None` when the
/// CPU queue is empty.
pub fn pick_from_cpu(cpu_queue: &mut Vec<Task>, now_ms: u64) -> (r: Option<Task>)
    ensures
        r.is_none() <==> old(cpu_queue)@.len() == 0,
        r.is_none() ==> final(cpu_queue)@ == old(cpu_queue)@,
        old(cpu_queue)@.len() > 0 ==> {
            let i = best_index(old(cpu_queue)@, now_ms);
            &&& r == Some(old(cpu_queue)@[i])
            &&& final(cpu_queue)@ == removed_at(old(cpu_queue)@, i)
        },
        r matches Some(t) ==> forall|j: int| 0 <= j < old(cpu_queue)@.len() ==> eff(#[trigger] old(cpu_queue)@[j], now_ms) <= eff(t, now_ms),
        r matches Some(t) ==> old(cpu_queue)@.to_multiset() =~= final(cpu_queue)@.to_multiset().insert(t),
{
    let best = best_in(cpu_queue, now_ms);
    proof {
        if cpu_queue@.len() > 0 {
            lemma_best_index(cpu_queue@, now_ms);
            lemma_removed_at_multiset(cpu_queue@, best_index(cpu_queue@, now_ms));
        }
    }
    match best {
        Some((ci, _)) => Some(cpu_queue.swap_remove(ci)),
        None => None,
    }
}

} // verus!
