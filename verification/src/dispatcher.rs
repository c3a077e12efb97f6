use vstd::prelude::*;
use std::collections::VecDeque;
use crate::task::{Task, TaskKind};
use crate::policy::{eff, best_index, best_priority, removed_at, takes_cpu, pick_next, pick_from_cpu, lemma_removed_at_multiset, lemma_best_index};
use crate::metrics::{CompletionReport, Metrics};
use crate::clock::Clock;

verus! {

broadcast use vstd::seq_lib::group_to_multiset_ensures, vstd::multiset::group_multiset_axioms;

/// Dispatch settings: workers `0..reserved_cpu_workers` take only CPU tasks.
#[derive(Debug, Clone, Copy, PartialEq, Eq, Structural)]
pub struct DispatchConfig {
    pub reserved_cpu_workers: usize,
}

/// Every task of `q` is of kind `k`.
pub open spec fn all_of_kind(q: Seq<Task>, k: TaskKind) -> bool {
    forall|i: int| 0 <= i < q.len() ==> (#[trigger] q[i]).kind == k
}

/// An idle list names each worker at most once, and only workers below `n`.
pub open spec fn idle_valid(idle: Seq<usize>, n: nat) -> bool {
    &&& idle.no_duplicates()
    &&& forall|i: int| 0 <= i < idle.len() ==> (#[trigger] idle[i]) < n
}

/// The workers of a list of assignments, in order.
pub open spec fn workers_of(out: Seq<(usize, Task)>) -> Seq<usize> {
    out.map_values(|p: (usize, Task)| p.0)
}

/// The tasks of a list of assignments, in order.
pub open spec fn tasks_of(out: Seq<(usize, Task)>) -> Seq<Task> {
    out.map_values(|p: (usize, Task)| p.1)
}

/// Queues, idle workers and assignments while a dispatch round proceeds:
/// (CPU queue, IO queue, workers left idle, assignments made).
pub type DispatchState = (Seq<Task>, Seq<Task>, Seq<usize>, Seq<(usize, Task)>);

/// Offering one idle worker `wid` a task: a reserved worker takes the best
/// CPU task; any other worker takes the task `pick_next` chooses; a worker
/// that gets nothing stays idle.
pub open spec fn assign_one(st: DispatchState, wid: usize, reserved: nat, now_ms: u64) -> DispatchState {
    let (cpu, io, idle, out) = st;
    if wid < reserved {
        if cpu.len() > 0 {
            let i = best_index(cpu, now_ms);
            (removed_at(cpu, i), io, idle, out.push((wid, cpu[i])))
        } else {
            (cpu, io, idle.push(wid), out)
        }
    } else if takes_cpu(cpu, io, now_ms) {
        let i = best_index(cpu, now_ms);
        (removed_at(cpu, i), io, idle, out.push((wid, cpu[i])))
    } else if io.len() > 0 {
        let i = best_index(io, now_ms);
        (cpu, removed_at(io, i), idle, out.push((wid, io[i])))
    } else {
        (cpu, io, idle.push(wid), out)
    }
}

/// A dispatch round: the idle workers are offered a task one by one, in
/// the order of `order`.
pub open spec fn dispatch_model(
    cpu: Seq<Task>,
    io: Seq<Task>,
    order: Seq<usize>,
    reserved: nat,
    now_ms: u64,
) -> DispatchState
    decreases order.len(),
{
    if order.len() == 0 {
        (cpu, io, Seq::empty(), Seq::empty())
    } else {
        assign_one(dispatch_model(cpu, io, order.drop_last(), reserved, now_ms), order.last(), reserved, now_ms)
    }
}

/// Removing a task keeps a queue of one kind of one kind.
proof fn lemma_removed_at_kind(q: Seq<Task>, i: int, k: TaskKind)
    requires
        0 <= i < q.len(),
        all_of_kind(q, k),
    ensures
        all_of_kind(removed_at(q, i), k),
{
    assert forall|j: int| 0 <= j < removed_at(q, i).len() implies (#[trigger] removed_at(q, i)[j]).kind == k by {
        if j == i {
            assert(removed_at(q, i)[j] == q[q.len() - 1]);
        } else {
            assert(removed_at(q, i)[j] == q[j]);
        }
    }
}

/// The facts a dispatch round keeps, by induction over the workers offered.
proof fn lemma_dispatch_model(cpu: Seq<Task>, io: Seq<Task>, order: Seq<usize>, reserved: nat, now_ms: u64)
    requires
        order.no_duplicates(),
        all_of_kind(cpu, TaskKind::Cpu),
        all_of_kind(io, TaskKind::Io),
    ensures
        ({
            let (c, i, idle, out) = dispatch_model(cpu, io, order, reserved, now_ms);
            &&& all_of_kind(c, TaskKind::Cpu)
            &&& all_of_kind(i, TaskKind::Io)
            &&& c.len() <= cpu.len()
            &&& i.len() <= io.len()
            &&& cpu.to_multiset().add(io.to_multiset()) =~= c.to_multiset().add(i.to_multiset()).add(
                tasks_of(out).to_multiset(),
            )
            &&& forall|x: usize| order.contains(x) <==> (idle.contains(x) || workers_of(out).contains(x))
            &&& idle.no_duplicates()
            &&& workers_of(out).no_duplicates()
            &&& forall|x: usize| !(idle.contains(x) && workers_of(out).contains(x))
            &&& forall|j: int| 0 <= j < out.len() && (#[trigger] out[j]).0 < reserved ==> out[j].1.kind == TaskKind::Cpu
            &&& forall|x: usize| #[trigger] idle.contains(x) ==> c.len() == 0 && (x >= reserved ==> i.len() == 0)
        }),
    decreases order.len(),
{
    if order.len() == 0 {
        assert(tasks_of(Seq::<(usize, Task)>::empty()) =~= Seq::<Task>::empty());
        assert(workers_of(Seq::<(usize, Task)>::empty()) =~= Seq::<usize>::empty());
    } else {
        let pre = order.drop_last();
        let w = order.last();
        assert forall|a: int, b: int| 0 <= a < b < pre.len() implies pre[a] != pre[b] by {
            assert(pre[a] == order[a] && pre[b] == order[b]);
        }
        lemma_dispatch_model(cpu, io, pre, reserved, now_ms);
        let (c0, i0, idle0, out0) = dispatch_model(cpu, io, pre, reserved, now_ms);
        assert(!pre.contains(w)) by {
            if pre.contains(w) {
                let a = choose|a: int| 0 <= a < pre.len() && pre[a] == w;
                assert(order[a] == order[order.len() - 1]);
            }
        }
        assert forall|x: usize| order.contains(x) <==> (pre.contains(x) || x == w) by {
            if order.contains(x) && x != w {
                let a = choose|a: int| 0 <= a < order.len() && order[a] == x;
                assert(pre[a] == x);
            }
            if pre.contains(x) {
                let a = choose|a: int| 0 <= a < pre.len() && pre[a] == x;
                assert(order[a] == x);
            }
            if x == w {
                assert(order[order.len() - 1] == x);
            }
        }
        let (c, i, idle, out) = dispatch_model(cpu, io, order, reserved, now_ms);
        // How the one step changed the state.
        let gets_task = out.len() == out0.len() + 1;
        if gets_task {
            let t = out.last().1;
            assert(out == out0.push((w, t)));
            assert(tasks_of(out) =~= tasks_of(out0).push(t));
            assert(workers_of(out) =~= workers_of(out0).push(w));
            assert(idle == idle0);
            if w < reserved || takes_cpu(c0, i0, now_ms) {
                let k = best_index(c0, now_ms);
                crate::policy::lemma_best_index(c0, now_ms);
                lemma_removed_at_multiset(c0, k);
                lemma_removed_at_kind(c0, k, TaskKind::Cpu);
                assert(t == c0[k]);
                assert(c == removed_at(c0, k) && i == i0);
            } else {
                let k = best_index(i0, now_ms);
                crate::policy::lemma_best_index(i0, now_ms);
                lemma_removed_at_multiset(i0, k);
                lemma_removed_at_kind(i0, k, TaskKind::Io);
                assert(t == i0[k]);
                assert(c == c0 && i == removed_at(i0, k));
            }
            assert forall|j: int| 0 <= j < out.len() && (#[trigger] out[j]).0 < reserved implies out[j].1.kind == TaskKind::Cpu by {
                if j < out0.len() {
                    assert(out[j] == out0[j]);
                }
            }
            assert forall|x: usize| (workers_of(out).contains(x)) <==> (workers_of(out0).contains(x) || x == w) by {
                if workers_of(out).contains(x) && x != w {
                    let a = choose|a: int| 0 <= a < workers_of(out).len() && workers_of(out)[a] == x;
                    assert(workers_of(out0)[a] == x);
                }
                if workers_of(out0).contains(x) {
                    let a = choose|a: int| 0 <= a < workers_of(out0).len() && workers_of(out0)[a] == x;
                    assert(workers_of(out)[a] == x);
                }
                if x == w {
                    assert(workers_of(out)[out.len() - 1] == x);
                }
            }
            assert forall|a: int, b: int| 0 <= a < b < workers_of(out).len() implies workers_of(out)[a] != workers_of(out)[b] by {
                if b < out0.len() {
                    assert(workers_of(out)[a] == workers_of(out0)[a]);
                    assert(workers_of(out)[b] == workers_of(out0)[b]);
                } else {
                    assert(workers_of(out)[a] == workers_of(out0)[a]);
                    assert(workers_of(out0).contains(workers_of(out0)[a]));
                }
            }
        } else {
            assert(out == out0);
            assert(c == c0 && i == i0);
            assert(idle == idle0.push(w));
            assert forall|x: usize| idle.contains(x) <==> (idle0.contains(x) || x == w) by {
                if idle.contains(x) && x != w {
                    let a = choose|a: int| 0 <= a < idle.len() && idle[a] == x;
                    assert(idle0[a] == x);
                }
                if idle0.contains(x) {
                    let a = choose|a: int| 0 <= a < idle0.len() && idle0[a] == x;
                    assert(idle[a] == x);
                }
                if x == w {
                    assert(idle[idle.len() - 1] == x);
                }
            }
            assert forall|a: int, b: int| 0 <= a < b < idle.len() implies idle[a] != idle[b] by {
                assert(idle[a] == idle0[a]);
                if b < idle0.len() {
                    assert(idle[b] == idle0[b]);
                } else {
                    assert(idle0.contains(idle0[a]));
                }
            }
        }
    }
}

/// A dispatch round neither loses nor invents tasks: the tasks queued
/// before it are exactly those queued after it plus those handed out.
pub proof fn law_dispatch_conserves_tasks(cpu: Seq<Task>, io: Seq<Task>, idle: Seq<usize>, reserved: nat, now_ms: u64)
    requires
        all_of_kind(cpu, TaskKind::Cpu),
        all_of_kind(io, TaskKind::Io),
        idle.no_duplicates(),
    ensures
        ({
            let (c, i, _, out) = dispatch_model(cpu, io, idle, reserved, now_ms);
            cpu.to_multiset().add(io.to_multiset()) =~= c.to_multiset().add(i.to_multiset()).add(tasks_of(out).to_multiset())
        }),
{
    lemma_dispatch_model(cpu, io, idle, reserved, now_ms);
}

/// In a dispatch round every idle worker either receives exactly one task
/// or stays idle, never both; no other worker receives a task, and the
/// workers left idle are distinct.
pub proof fn law_dispatch_assigns_idle_workers_once(cpu: Seq<Task>, io: Seq<Task>, idle: Seq<usize>, reserved: nat, now_ms: u64)
    requires
        all_of_kind(cpu, TaskKind::Cpu),
        all_of_kind(io, TaskKind::Io),
        idle.no_duplicates(),
    ensures
        ({
            let (_, _, left, out) = dispatch_model(cpu, io, idle, reserved, now_ms);
            &&& forall|x: usize| idle.contains(x) <==> (left.contains(x) || workers_of(out).contains(x))
            &&& forall|x: usize| !(left.contains(x) && workers_of(out).contains(x))
            &&& workers_of(out).no_duplicates()
            &&& left.no_duplicates()
        }),
{
    lemma_dispatch_model(cpu, io, idle, reserved, now_ms);
}

/// A worker reserved for CPU work is only ever handed CPU tasks.
pub proof fn law_reserved_workers_get_cpu_tasks(cpu: Seq<Task>, io: Seq<Task>, idle: Seq<usize>, reserved: nat, now_ms: u64)
    requires
        all_of_kind(cpu, TaskKind::Cpu),
        all_of_kind(io, TaskKind::Io),
        idle.no_duplicates(),
    ensures
        ({
            let (_, _, _, out) = dispatch_model(cpu, io, idle, reserved, now_ms);
            forall|j: int| 0 <= j < out.len() && (#[trigger] out[j]).0 < reserved ==> out[j].1.kind == TaskKind::Cpu
        }),
{
    lemma_dispatch_model(cpu, io, idle, reserved, now_ms);
}

/// After a dispatch round no work is left that an idle worker could take:
/// a general worker stays idle only when both queues are empty, and a
/// reserved worker only when the CPU queue is empty.
pub proof fn law_dispatch_is_work_conserving(cpu: Seq<Task>, io: Seq<Task>, idle: Seq<usize>, reserved: nat, now_ms: u64)
    requires
        all_of_kind(cpu, TaskKind::Cpu),
        all_of_kind(io, TaskKind::Io),
        idle.no_duplicates(),
    ensures
        ({
            let (c, i, left, _) = dispatch_model(cpu, io, idle, reserved, now_ms);
            forall|x: usize| #[trigger] left.contains(x) ==> c.len() == 0 && (x >= reserved ==> i.len() == 0)
        }),
{
    lemma_dispatch_model(cpu, io, idle, reserved, now_ms);
}

/// Every element left after a removal was in the queue before it.
proof fn lemma_removed_at_from(q: Seq<Task>, k: int)
    requires
        0 <= k < q.len(),
    ensures
        forall|m: int| 0 <= m < removed_at(q, k).len() ==>
            exists|n: int| 0 <= n < q.len() && q[n] == #[trigger] removed_at(q, k)[m],
{
    assert forall|m: int| 0 <= m < removed_at(q, k).len() implies
        exists|n: int| 0 <= n < q.len() && q[n] == #[trigger] removed_at(q, k)[m] by {
        if m == k {
            assert(q[q.len() - 1] == removed_at(q, k)[m]);
        } else {
            assert(q[m] == removed_at(q, k)[m]);
        }
    }
}

/// Each task a dispatch round hands out is one of highest effective
/// priority among the tasks still waiting at that point: a general worker's
/// task outranks (or ties) every task left in either queue after the round
/// and every task handed to a later worker; a reserved worker's task
/// outranks (or ties) every CPU task left after the round and every CPU
/// task handed to a later worker.
pub proof fn law_dispatch_hands_out_best_tasks(cpu: Seq<Task>, io: Seq<Task>, idle: Seq<usize>, reserved: nat, now_ms: u64)
    requires
        all_of_kind(cpu, TaskKind::Cpu),
        all_of_kind(io, TaskKind::Io),
    ensures
        ({
            let (c, i, _, out) = dispatch_model(cpu, io, idle, reserved, now_ms);
            &&& forall|j: int, m: int| 0 <= j < out.len() && out[j].0 >= reserved && 0 <= m < c.len()
                ==> eff(#[trigger] c[m], now_ms) <= eff(#[trigger] out[j].1, now_ms)
            &&& forall|j: int, m: int| 0 <= j < out.len() && out[j].0 >= reserved && 0 <= m < i.len()
                ==> eff(#[trigger] i[m], now_ms) <= eff(#[trigger] out[j].1, now_ms)
            &&& forall|j: int, k: int| 0 <= j < k < out.len() && out[j].0 >= reserved
                ==> eff(#[trigger] out[k].1, now_ms) <= eff(#[trigger] out[j].1, now_ms)
            &&& forall|j: int, m: int| 0 <= j < out.len() && out[j].0 < reserved && 0 <= m < c.len()
                ==> eff(#[trigger] c[m], now_ms) <= eff(#[trigger] out[j].1, now_ms)
            &&& forall|j: int, k: int| 0 <= j < k < out.len() && out[j].0 < reserved && out[k].1.kind == TaskKind::Cpu
                ==> eff(#[trigger] out[k].1, now_ms) <= eff(#[trigger] out[j].1, now_ms)
        }),
{
    lemma_dispatch_best(cpu, io, idle, reserved, now_ms);
}

proof fn lemma_dispatch_best(cpu: Seq<Task>, io: Seq<Task>, order: Seq<usize>, reserved: nat, now_ms: u64)
    requires
        all_of_kind(cpu, TaskKind::Cpu),
        all_of_kind(io, TaskKind::Io),
    ensures
        ({
            let (c, i, _, out) = dispatch_model(cpu, io, order, reserved, now_ms);
            &&& all_of_kind(c, TaskKind::Cpu)
            &&& all_of_kind(i, TaskKind::Io)
            &&& forall|j: int, m: int| 0 <= j < out.len() && out[j].0 >= reserved && 0 <= m < c.len()
                ==> eff(#[trigger] c[m], now_ms) <= eff(#[trigger] out[j].1, now_ms)
            &&& forall|j: int, m: int| 0 <= j < out.len() && out[j].0 >= reserved && 0 <= m < i.len()
                ==> eff(#[trigger] i[m], now_ms) <= eff(#[trigger] out[j].1, now_ms)
            &&& forall|j: int, k: int| 0 <= j < k < out.len() && out[j].0 >= reserved
                ==> eff(#[trigger] out[k].1, now_ms) <= eff(#[trigger] out[j].1, now_ms)
            &&& forall|j: int, m: int| 0 <= j < out.len() && out[j].0 < reserved && 0 <= m < c.len()
                ==> eff(#[trigger] c[m], now_ms) <= eff(#[trigger] out[j].1, now_ms)
            &&& forall|j: int, k: int| 0 <= j < k < out.len() && out[j].0 < reserved && out[k].1.kind == TaskKind::Cpu
                ==> eff(#[trigger] out[k].1, now_ms) <= eff(#[trigger] out[j].1, now_ms)
        }),
    decreases order.len(),
{
    if order.len() > 0 {
        let pre = order.drop_last();
        let w = order.last();
        lemma_dispatch_best(cpu, io, pre, reserved, now_ms);
        let (c0, i0, idle0, out0) = dispatch_model(cpu, io, pre, reserved, now_ms);
        let (c, i, idle, out) = dispatch_model(cpu, io, order, reserved, now_ms);
        if out.len() == out0.len() + 1 {
            let t = out.last().1;
            assert(out == out0.push((w, t)));
            let from_cpu = w < reserved || takes_cpu(c0, i0, now_ms);
            if from_cpu {
                let k = best_index(c0, now_ms);
                lemma_best_index(c0, now_ms);
                lemma_removed_at_from(c0, k);
                lemma_removed_at_kind(c0, k, TaskKind::Cpu);
                assert(t == c0[k]);
                assert(c == removed_at(c0, k) && i == i0);
                if w >= reserved {
                    lemma_best_index(c0, now_ms);
                    if i0.len() > 0 {
                        lemma_best_index(i0, now_ms);
                    }
                }
            } else {
                let k = best_index(i0, now_ms);
                lemma_best_index(i0, now_ms);
                if c0.len() > 0 {
                    lemma_best_index(c0, now_ms);
                }
                lemma_removed_at_from(i0, k);
                lemma_removed_at_kind(i0, k, TaskKind::Io);
                assert(t == i0[k]);
                assert(c == c0 && i == removed_at(i0, k));
            }
            // The new assignment outranks what is left.
            assert forall|j: int, m: int| 0 <= j < out.len() && out[j].0 >= reserved && 0 <= m < c.len()
                implies eff(#[trigger] c[m], now_ms) <= eff(#[trigger] out[j].1, now_ms) by {
                let n0 = if from_cpu {
                    choose|n0: int| 0 <= n0 < c0.len() && c0[n0] == removed_at(c0, best_index(c0, now_ms))[m]
                } else {
                    m
                };
                assert(c[m] == c0[n0]);
                if j < out0.len() {
                    assert(out[j] == out0[j]);
                    assert(eff(c0[n0], now_ms) <= eff(out0[j].1, now_ms));
                }
            }
            assert forall|j: int, m: int| 0 <= j < out.len() && out[j].0 >= reserved && 0 <= m < i.len()
                implies eff(#[trigger] i[m], now_ms) <= eff(#[trigger] out[j].1, now_ms) by {
                let n0 = if from_cpu {
                    m
                } else {
                    choose|n0: int| 0 <= n0 < i0.len() && i0[n0] == removed_at(i0, best_index(i0, now_ms))[m]
                };
                assert(i[m] == i0[n0]);
                if j < out0.len() {
                    assert(out[j] == out0[j]);
                    assert(eff(i0[n0], now_ms) <= eff(out0[j].1, now_ms));
                }
            }
            assert forall|j: int, m: int| 0 <= j < out.len() && out[j].0 < reserved && 0 <= m < c.len()
                implies eff(#[trigger] c[m], now_ms) <= eff(#[trigger] out[j].1, now_ms) by {
                let n0 = if from_cpu {
                    choose|n0: int| 0 <= n0 < c0.len() && c0[n0] == removed_at(c0, best_index(c0, now_ms))[m]
                } else {
                    m
                };
                assert(c[m] == c0[n0]);
                if j < out0.len() {
                    assert(out[j] == out0[j]);
                    assert(eff(c0[n0], now_ms) <= eff(out0[j].1, now_ms));
                }
            }
            assert forall|j: int, k: int| 0 <= j < k < out.len() && out[j].0 >= reserved
                implies eff(#[trigger] out[k].1, now_ms) <= eff(#[trigger] out[j].1, now_ms) by {
                assert(out[j] == out0[j]);
                if k < out0.len() {
                    assert(out[k] == out0[k]);
                } else if from_cpu {
                    assert(eff(c0[best_index(c0, now_ms)], now_ms) <= eff(out0[j].1, now_ms));
                } else {
                    assert(eff(i0[best_index(i0, now_ms)], now_ms) <= eff(out0[j].1, now_ms));
                }
            }
            assert forall|j: int, k: int| 0 <= j < k < out.len() && out[j].0 < reserved && out[k].1.kind == TaskKind::Cpu
                implies eff(#[trigger] out[k].1, now_ms) <= eff(#[trigger] out[j].1, now_ms) by {
                assert(out[j] == out0[j]);
                if k < out0.len() {
                    assert(out[k] == out0[k]);
                } else if from_cpu {
                    assert(eff(c0[best_index(c0, now_ms)], now_ms) <= eff(out0[j].1, now_ms));
                } else {
                    assert(i0[best_index(i0, now_ms)].kind == TaskKind::Io);
                }
            }
        } else {
            assert(out == out0);
            assert(c == c0 && i == i0);
        }
    }
}

/// A valid idle list is as long as the pool exactly when it names every
/// worker of the pool.
proof fn lemma_idle_full(idle: Seq<usize>, n: nat)
    requires
        idle_valid(idle, n),
        n <= usize::MAX,
    ensures
        idle.len() == n <==> forall|w: usize| w < n ==> #[trigger] idle.contains(w),
{
    broadcast use vstd::set::group_set_axioms, vstd::seq_lib::seq_to_set_is_finite;
    let all = Seq::new(n, |i: int| i as usize);
    let t = Set::new(|w: usize| w < n);
    assert forall|a: int, b: int| 0 <= a < b < all.len() implies all[a] != all[b] by {}
    assert(all.to_set() =~= t) by {
        assert forall|w: usize| t.contains(w) implies all.to_set().contains(w) by {
            assert(all[w as int] == w);
        }
    }
    all.unique_seq_to_set();
    idle.unique_seq_to_set();
    let s = idle.to_set();
    assert(s.subset_of(t)) by {
        assert forall|w: usize| s.contains(w) implies t.contains(w) by {
            let a = choose|a: int| 0 <= a < idle.len() && idle[a] == w;
        }
    }
    if idle.len() == n {
        vstd::set_lib::lemma_subset_equality(s, t);
        assert forall|w: usize| w < n implies #[trigger] idle.contains(w) by {
            assert(t.contains(w));
        }
    }
    if forall|w: usize| w < n ==> #[trigger] idle.contains(w) {
        assert(s =~= t);
    }
}

/// The dispatcher's state: the two typed queues it owns, the workers that
/// are idle (in the order they became idle), and whether the task source
/// has closed.
pub struct Dispatcher {
    num_workers: usize,
    reserved_cpu_workers: usize,
    cpu_queue: Vec<Task>,
    io_queue: Vec<Task>,
    idle: VecDeque<usize>,
    generator_done: bool,
}

impl Dispatcher {
    pub closed spec fn workers(&self) -> nat {
        self.num_workers as nat
    }

    pub closed spec fn reserved(&self) -> nat {
        self.reserved_cpu_workers as nat
    }

    pub closed spec fn cpu(&self) -> Seq<Task> {
        self.cpu_queue@
    }

    pub closed spec fn io(&self) -> Seq<Task> {
        self.io_queue@
    }

    pub closed spec fn idle(&self) -> Seq<usize> {
        self.idle@
    }

    pub closed spec fn generator_finished(&self) -> bool {
        self.generator_done
    }

    /// The queues hold tasks of their own kind, and the idle list names
    /// distinct existing workers.
    pub open spec fn wf(&self) -> bool {
        &&& all_of_kind(self.cpu(), TaskKind::Cpu)
        &&& all_of_kind(self.io(), TaskKind::Io)
        &&& idle_valid(self.idle(), self.workers())
    }

    /// A worker is busy when it exists and is not idle.
    pub open spec fn busy(&self, w: usize) -> bool {
        w < self.workers() && !self.idle().contains(w)
    }

    /// A dispatcher for `num_workers` workers, all idle, with empty queues.
    pub fn new(num_workers: usize, config: DispatchConfig) -> (d: Dispatcher)
        ensures
            d.wf(),
            d.workers() == num_workers,
            d.reserved() == config.reserved_cpu_workers,
            d.cpu() == Seq::<Task>::empty(),
            d.io() == Seq::<Task>::empty(),
            d.idle() == Seq::new(num_workers as nat, |i: int| i as usize),
            !d.generator_finished(),
    {
        let mut idle: VecDeque<usize> = VecDeque::new();
        let mut i: usize = 0;
        while i < num_workers
            invariant
                i <= num_workers,
                idle@ == Seq::new(i as nat, |j: int| j as usize),
            decreases num_workers - i,
        {
            idle.push_back(i);
            i = i + 1;
        }
        Dispatcher {
            num_workers,
            reserved_cpu_workers: config.reserved_cpu_workers,
            cpu_queue: Vec::new(),
            io_queue: Vec::new(),
            idle,
            generator_done: false,
        }
    }

    /// Routes an arriving task to the queue of its kind.
    pub fn enqueue(&mut self, task: Task)
        requires
            old(self).wf(),
        ensures
            final(self).wf(),
            task.kind == TaskKind::Cpu ==> final(self).cpu() == old(self).cpu().push(task) && final(self).io() == old(self).io(),
            task.kind == TaskKind::Io ==> final(self).io() == old(self).io().push(task) && final(self).cpu() == old(self).cpu(),
            final(self).idle() == old(self).idle(),
            final(self).workers() == old(self).workers(),
            final(self).reserved() == old(self).reserved(),
            final(self).generator_finished() == old(self).generator_finished(),
    {
        match task.kind {
            TaskKind::Cpu => self.cpu_queue.push(task),
            TaskKind::Io => self.io_queue.push(task),
        }
    }

    /// Records that the task source has closed: no more tasks will arrive.
    pub fn close_generator(&mut self)
        requires
            old(self).wf(),
        ensures
            final(self).wf(),
            final(self).generator_finished(),
            final(self).cpu() == old(self).cpu(),
            final(self).io() == old(self).io(),
            final(self).idle() == old(self).idle(),
            final(self).workers() == old(self).workers(),
            final(self).reserved() == old(self).reserved(),
    {
        self.generator_done = true;
    }

    /// Whether worker `w` exists and is running a task.
    pub fn is_busy(&self, w: usize) -> (b: bool)
        ensures
            b == self.busy(w),
    {
        if w >= self.num_workers {
            return false;
        }
        let n = self.idle.len();
        let mut k: usize = 0;
        while k < n
            invariant
                n == self.idle@.len(),
                k <= n,
                forall|j: int| 0 <= j < k ==> self.idle@[j] != w,
            decreases n - k,
        {
            if self.idle[k] == w {
                return false;
            }
            k = k + 1;
        }
        true
    }

    /// Handles a completion report: records it and returns its worker to
    /// the back of the idle list.
    pub fn complete(&mut self, report: CompletionReport, metrics: &mut Metrics)
        requires
            old(self).wf(),
            old(self).busy(report.worker_id),
            old(metrics).accepts(report),
        ensures
            final(self).wf(),
            final(self).idle() == old(self).idle().push(report.worker_id),
            !final(self).busy(report.worker_id),
            final(self).cpu() == old(self).cpu(),
            final(self).io() == old(self).io(),
            final(self).workers() == old(self).workers(),
            final(self).reserved() == old(self).reserved(),
            final(self).generator_finished() == old(self).generator_finished(),
            final(metrics).reports() == old(metrics).reports().push(report),
            final(metrics).busy_ms() == old(metrics).busy_ms().update(
                report.worker_id as int,
                (old(metrics).busy_ms()[report.worker_id as int] + crate::metrics::busy_of(report)) as u64,
            ),
            final(metrics).run_start_ms() == old(metrics).run_start_ms(),
            final(metrics).run_end_ms() == old(metrics).run_end_ms(),
            final(metrics).shared_counter() == old(metrics).shared_counter(),
    {
        let w = report.worker_id;
        metrics.record(report);
        let ghost before = self.idle@;
        self.idle.push_back(w);
        assert(self.idle@[before.len() as int] == w);
        assert forall|a: int, b: int| 0 <= a < b < self.idle@.len() implies self.idle@[a] != self.idle@[b] by {
            assert(self.idle@[a] == before[a]);
            if b < before.len() {
                assert(self.idle@[b] == before[b]);
            } else {
                assert(before.contains(before[a]));
            }
        }
    }

    /// How many tasks wait in the CPU queue and in the IO queue.
    pub fn queue_lengths(&self) -> (r: (usize, usize))
        ensures
            r.0 == self.cpu().len(),
            r.1 == self.io().len(),
    {
        (self.cpu_queue.len(), self.io_queue.len())
    }

    /// Whether the run is over: the source has closed, both queues are
    /// empty and every worker is back in the idle list.
    pub fn is_finished(&self) -> (b: bool)
        requires
            self.wf(),
        ensures
            b == (self.generator_finished() && self.cpu().len() == 0 && self.io().len() == 0
                && self.idle().len() == self.workers()),
            // Finished means quiescent: nothing queued and no worker busy.
            b <==> (self.generator_finished() && self.cpu().len() == 0 && self.io().len() == 0
                && forall|w: usize| !#[trigger] self.busy(w)),
    {
        proof {
            lemma_idle_full(self.idle@, self.num_workers as nat);
            if forall|w: usize| !#[trigger] self.busy(w) {
                assert forall|w: usize| w < self.num_workers implies #[trigger] self.idle@.contains(w) by {
                    assert(!self.busy(w));
                }
            }
        }
        self.generator_done && self.cpu_queue.len() == 0 && self.io_queue.len() == 0
            && self.idle.len() == self.num_workers
    }

    /// One dispatch round at the current time of `clock` (see `dispatch`).
    pub fn dispatch_now(&mut self, clock: &Clock) -> (assigned: Vec<(usize, Task)>)
        requires
            old(self).wf(),
        ensures
            final(self).wf(),
            exists|now_ms: u64|
                (final(self).cpu(), final(self).io(), final(self).idle(), assigned@) == #[trigger] dispatch_model(
                    old(self).cpu(),
                    old(self).io(),
                    old(self).idle(),
                    old(self).reserved(),
                    now_ms,
                ),
            final(self).workers() == old(self).workers(),
            final(self).reserved() == old(self).reserved(),
            final(self).generator_finished() == old(self).generator_finished(),
    {
        let now_ms = clock.now_ms();
        self.dispatch(now_ms)
    }

    /// One dispatch round at time `now_ms`: every idle worker, in idle
    /// order, is offered a task (see `assign_one`). Returns the assignments
    /// made; workers that got nothing stay idle in their order.
    pub fn dispatch(&mut self, now_ms: u64) -> (assigned: Vec<(usize, Task)>)
        requires
            old(self).wf(),
        ensures
            final(self).wf(),
            (final(self).cpu(), final(self).io(), final(self).idle(), assigned@) == dispatch_model(
                old(self).cpu(),
                old(self).io(),
                old(self).idle(),
                old(self).reserved(),
                now_ms,
            ),
            final(self).workers() == old(self).workers(),
            final(self).reserved() == old(self).reserved(),
            final(self).generator_finished() == old(self).generator_finished(),
    {
        let ghost cpu0 = self.cpu_queue@;
        let ghost io0 = self.io_queue@;
        let ghost idle0 = self.idle@;
        let ghost r = self.reserved_cpu_workers as nat;
        let ghost nw = self.num_workers;
        let ghost gd = self.generator_done;
        let n = self.idle.len();
        let mut out: Vec<(usize, Task)> = Vec::new();
        let mut k: usize = 0;
        assert(idle0.take(0) =~= Seq::<usize>::empty());
        assert(idle0.skip(0) =~= idle0);
        while k < n
            invariant
                n == idle0.len(),
                k <= n,
                r == self.reserved_cpu_workers,
                nw == self.num_workers,
                gd == self.generator_done,
                idle_valid(idle0, nw as nat),
                ({
                    let (c, i, idle, o) = dispatch_model(cpu0, io0, idle0.take(k as int), r, now_ms);
                    &&& self.cpu_queue@ == c
                    &&& self.io_queue@ == i
                    &&& self.idle@ == idle0.skip(k as int) + idle
                    &&& out@ == o
                }),
            decreases n - k,
        {
            let ghost prev = dispatch_model(cpu0, io0, idle0.take(k as int), r, now_ms);
            assert(idle0.take(k + 1).drop_last() =~= idle0.take(k as int));
            assert(idle0.take(k + 1).last() == idle0[k as int]);
            assert((idle0.skip(k as int) + prev.2)[0] == idle0[k as int]);
            let w = self.idle.pop_front().unwrap();
            assert(self.idle@ =~= idle0.skip(k + 1) + prev.2);
            let picked = if w < self.reserved_cpu_workers {
                pick_from_cpu(&mut self.cpu_queue, now_ms)
            } else {
                pick_next(&mut self.cpu_queue, &mut self.io_queue, now_ms)
            };
            match picked {
                Some(t) => {
                    out.push((w, t));
                },
                None => {
                    self.idle.push_back(w);
                    assert(self.idle@ =~= idle0.skip(k + 1) + prev.2.push(w));
                },
            }
            k = k + 1;
        }
        assert(idle0.take(n as int) =~= idle0);
        assert(idle0.skip(n as int) + self.idle@.skip(0) =~= self.idle@) by {
            assert(idle0.skip(n as int) =~= Seq::<usize>::empty());
        }
        proof {
            lemma_dispatch_model(cpu0, io0, idle0, r, now_ms);
            let idle = self.idle@;
            assert forall|i: int| 0 <= i < idle.len() implies (#[trigger] idle[i]) < self.num_workers by {
                assert(idle.contains(idle[i]));
                assert(idle0.contains(idle[i]));
            }
        }
        out
    }
}

} // verus!
