//! SMP-aware task scheduler: per-CPU run queues, a global queue, affinity-aware
//! placement, work stealing and load balancing.
use std::collections::VecDeque;
use vstd::prelude::*;

use crate::smp::affinity::{cpus_below, lemma_cpus_below, CpuAffinity};

verus! {

/// Task identifier.
#[derive(Debug, Clone, Copy, PartialEq, Eq, Hash)]
pub struct TaskId(u64);

impl View for TaskId {
    type V = u64;

    closed spec fn view(&self) -> u64 {
        self.0
    }
}

impl TaskId {
    pub fn new(id: u64) -> (t: Self)
        ensures
            t@ == id,
    {
        TaskId(id)
    }

    pub fn as_u64(&self) -> (v: u64)
        ensures
            v == self@,
    {
        self.0
    }

    /// Task identifiers are equal exactly when their numbers are.
    pub proof fn lemma_view_injective(a: TaskId, b: TaskId)
        ensures
            a@ == b@ <==> a == b,
    {
    }
}

/// Task priority, from lowest to highest.
#[derive(Debug, Clone, Copy, PartialEq, Eq, PartialOrd, Ord)]
pub enum Priority {
    Idle,
    Low,
    Normal,
    High,
    Realtime,
}

/// Task information.
#[derive(Debug)]
pub struct Task {
    pub id: TaskId,
    pub priority: Priority,
    pub affinity: CpuAffinity,
    pub current_cpu: Option<usize>,
}

impl Task {
    /// A task of normal priority that may run on any of `num_cpus` CPUs.
    pub fn new(id: TaskId, num_cpus: usize) -> (t: Self)
        ensures
            t.id == id,
            t.priority == Priority::Normal,
            t.affinity.allowed() == Seq::new(num_cpus as nat, |i: int| true),
            t.affinity.preferred() == None::<usize>,
            t.affinity.wf(),
            t.current_cpu == None::<usize>,
    {
        Task { id, priority: Priority::Normal, affinity: CpuAffinity::any(num_cpus), current_cpu: None }
    }

    pub fn with_priority(self, priority: Priority) -> (t: Self)
        ensures
            t == (Task { priority, ..self }),
    {
        let mut t = self;
        t.priority = priority;
        t
    }

    pub fn with_affinity(self, affinity: CpuAffinity) -> (t: Self)
        ensures
            t == (Task { affinity, ..self }),
    {
        let mut t = self;
        t.affinity = affinity;
        t
    }
}

/// Per-CPU run queue.
struct RunQueue {
    tasks: VecDeque<Task>,
}

impl RunQueue {
    fn new() -> (q: Self)
        ensures
            q.tasks@ == Seq::<Task>::empty(),
    {
        RunQueue { tasks: VecDeque::new() }
    }

    fn push(&mut self, task: Task)
        ensures
            final(self).tasks@ == old(self).tasks@.push(task),
    {
        self.tasks.push_back(task);
    }

    fn pop(&mut self) -> (t: Option<Task>)
        ensures
            old(self).tasks@.len() == 0 ==> t is None && final(self).tasks@ == old(self).tasks@,
            old(self).tasks@.len() > 0 ==> t == Some(old(self).tasks@[0])
                && final(self).tasks@ == old(self).tasks@.drop_first(),
    {
        self.tasks.pop_front()
    }

    fn len(&self) -> (n: usize)
        ensures
            n == self.tasks@.len(),
    {
        self.tasks.len()
    }
}

/// Whether choosing a CPU for `t` on `n` CPUs stays within the run queues:
/// either its preferred CPU exists there, or all of its allowed CPUs do.
pub open spec fn placeable(n: nat, t: Task) -> bool {
    ||| (t.affinity.preferred() matches Some(c) && c < n)
    ||| forall|i: int| #[trigger] t.affinity.allows(i) ==> i < n
}

/// Among `cpus[0..k]`, the first CPU whose queue is shortest.
pub open spec fn least_loaded(qs: Seq<Seq<Task>>, cpus: Seq<usize>, k: int) -> usize
    decreases k,
{
    if k <= 1 {
        cpus[0]
    } else {
        let b = least_loaded(qs, cpus, k - 1);
        if qs[cpus[k - 1] as int].len() < qs[b as int].len() {
            cpus[k - 1]
        } else {
            b
        }
    }
}

/// The CPU on which a task is placed: its preferred CPU when that exists,
/// else the least loaded allowed CPU; `None` when no CPU is allowed.
pub open spec fn placement(qs: Seq<Seq<Task>>, t: Task) -> Option<usize> {
    let cpus = cpus_below(t.affinity.allowed(), t.affinity.allowed().len() as int);
    if t.affinity.preferred() matches Some(c) && c < qs.len() {
        t.affinity.preferred()
    } else if cpus.len() == 0 {
        None
    } else {
        Some(least_loaded(qs, cpus, cpus.len() as int))
    }
}

/// Among CPUs `0..k` other than `cpu`, the first one with the longest
/// non-empty queue.
pub open spec fn steal_victim(qs: Seq<Seq<Task>>, cpu: int, k: int) -> Option<usize>
    decreases k,
{
    if k <= 0 {
        None
    } else {
        let prev = steal_victim(qs, cpu, k - 1);
        let best = match prev {
            Some(v) => qs[v as int].len(),
            None => 0,
        };
        if k - 1 != cpu && qs[k - 1].len() > best {
            Some((k - 1) as usize)
        } else {
            prev
        }
    }
}

/// What stealing on behalf of `cpu` gives, and the queues afterwards: the
/// victim's first task when `cpu` may run it; otherwise that task goes to the
/// back of the victim's queue.
pub open spec fn steal_outcome(qs: Seq<Seq<Task>>, cpu: int) -> (Option<Task>, Seq<Seq<Task>>) {
    match steal_victim(qs, cpu, qs.len() as int) {
        None => (None, qs),
        Some(v) => {
            let t = qs[v as int][0];
            let rest = qs[v as int].drop_first();
            if t.affinity.allows(cpu) {
                (Some(t), qs.update(v as int, rest))
            } else {
                (None, qs.update(v as int, rest.push(t)))
            }
        },
    }
}

/// What `next_task` gives for `cpu`, and the local and global queues
/// afterwards: the head of its own queue; else the head of the global queue
/// when `cpu` may run it (a head it may not run goes to the back of the global
/// queue); else a task stolen from the busiest other CPU.
pub open spec fn next_outcome(qs: Seq<Seq<Task>>, g: Seq<Task>, cpu: int) -> (
    Option<Task>,
    Seq<Seq<Task>>,
    Seq<Task>,
) {
    if cpu < 0 || cpu >= qs.len() {
        (None, qs, g)
    } else if qs[cpu].len() > 0 {
        (Some(qs[cpu][0]), qs.update(cpu, qs[cpu].drop_first()), g)
    } else if g.len() > 0 && g[0].affinity.allows(cpu) {
        (Some(g[0]), qs, g.drop_first())
    } else {
        let g2 = if g.len() > 0 {
            g.drop_first().push(g[0])
        } else {
            g
        };
        let st = steal_outcome(qs, cpu);
        (st.0, st.1, g2)
    }
}

/// Draining CPU `c` down to `avg` tasks: while it holds more, its first task
/// goes to the CPU that placement (over the queues without it) picks, which
/// is recorded in the task; when placement picks `c` itself, or none, the
/// task goes back to the end of `c`'s queue and draining stops.
pub open spec fn drain_cpu(qs: Seq<Seq<Task>>, c: int, avg: int) -> Seq<Seq<Task>>
    decreases qs[c].len(),
{
    if c < 0 || c >= qs.len() || qs[c].len() <= avg || qs[c].len() == 0 {
        qs
    } else {
        let t = qs[c][0];
        let qs1 = qs.update(c, qs[c].drop_first());
        match placement(qs1, t) {
            Some(tg) => if tg != c && tg < qs.len() {
                drain_cpu(qs1.update(tg as int, qs1[tg as int].push(Task { current_cpu: Some(tg), ..t })), c, avg)
            } else {
                qs1.update(c, qs1[c].push(t))
            },
            None => qs1.update(c, qs1[c].push(t)),
        }
    }
}

/// Whether draining CPU `c` down to `avg` on `n` CPUs only takes tasks
/// that can be placed: each task taken from the front is placeable.
pub open spec fn drain_ok(qs: Seq<Seq<Task>>, c: int, avg: int, n: nat) -> bool
    decreases qs[c].len(),
{
    if c < 0 || c >= qs.len() || qs[c].len() <= avg || qs[c].len() == 0 {
        true
    } else {
        let t = qs[c][0];
        let qs1 = qs.update(c, qs[c].drop_first());
        placeable(n, t) && match placement(qs1, t) {
            Some(tg) => if tg != c && tg < qs.len() {
                drain_ok(
                    qs1.update(tg as int, qs1[tg as int].push(Task { current_cpu: Some(tg), ..t })),
                    c,
                    avg,
                    n,
                )
            } else {
                true
            },
            None => true,
        }
    }
}

/// Whether balancing CPUs `c..m` on `n` CPUs only takes tasks that can be
/// placed: `drain_ok` for every CPU that is drained.
pub open spec fn balance_ok(qs: Seq<Seq<Task>>, avg: int, c: int, m: int, n: nat) -> bool
    decreases m - c,
{
    if c < 0 || c >= m {
        true
    } else {
        let drains = c < qs.len() && qs[c].len() > avg + 1;
        &&& drains ==> drain_ok(qs, c, avg, n)
        &&& balance_ok(
            if drains {
                drain_cpu(qs, c, avg)
            } else {
                qs
            },
            avg,
            c + 1,
            m,
            n,
        )
    }
}

/// Balancing CPUs `c..n` in turn: each that holds more than one task above
/// `avg` is drained down to `avg`.
pub open spec fn balance_from(qs: Seq<Seq<Task>>, avg: int, c: int, n: int) -> Seq<Seq<Task>>
    decreases n - c,
{
    if c < 0 || c >= n {
        qs
    } else {
        let next = if c < qs.len() && qs[c].len() > avg + 1 {
            drain_cpu(qs, c, avg)
        } else {
            qs
        };
        balance_from(next, avg, c + 1, n)
    }
}

/// The sum of the lengths of `qs[0..k]`.
pub open spec fn total_len(qs: Seq<Seq<Task>>, k: int) -> nat
    decreases k,
{
    if k <= 0 {
        0
    } else {
        total_len(qs, k - 1) + qs[k - 1].len()
    }
}

/// SMP-aware scheduler.
pub struct SmpScheduler {
    num_cpus: usize,
    run_queues: Vec<RunQueue>,
    global_queue: RunQueue,
}

impl SmpScheduler {
    /// The run queue of each CPU.
    pub closed spec fn queues(&self) -> Seq<Seq<Task>> {
        Seq::new(self.run_queues@.len(), |i: int| self.run_queues@[i].tasks@)
    }

    /// The global queue.
    pub closed spec fn global(&self) -> Seq<Task> {
        self.global_queue.tasks@
    }

    /// The number of CPUs.
    pub closed spec fn cpu_count(&self) -> nat {
        self.num_cpus as nat
    }

    /// There is one run queue per CPU.
    pub open spec fn wf(&self) -> bool {
        self.queues().len() == self.cpu_count()
    }

    /// There are at most `usize::MAX` CPUs, and as many run queues.
    pub proof fn lemma_cpu_count_bound(&self)
        ensures
            self.cpu_count() <= usize::MAX,
            self.wf() ==> self.queues().len() <= usize::MAX,
    {
    }

    /// All tasks held, local and global.
    pub open spec fn total(&self) -> nat {
        total_len(self.queues(), self.queues().len() as int) + self.global().len()
    }

    pub fn new(num_cpus: usize) -> (s: Self)
        ensures
            s.wf(),
            s.cpu_count() == num_cpus,
            s.queues() == Seq::new(num_cpus as nat, |i: int| Seq::<Task>::empty()),
            s.global() == Seq::<Task>::empty(),
    {
        let mut run_queues: Vec<RunQueue> = Vec::new();
        let mut i: usize = 0;
        while i < num_cpus
            invariant
                i <= num_cpus,
                run_queues@.len() == i,
                forall|j: int| 0 <= j < i ==> run_queues@[j].tasks@ == Seq::<Task>::empty(),
            decreases num_cpus - i,
        {
            run_queues.push(RunQueue::new());
            i = i + 1;
        }
        let s = SmpScheduler { num_cpus, run_queues, global_queue: RunQueue::new() };
        assert(s.queues() =~= Seq::new(num_cpus as nat, |i: int| Seq::<Task>::empty()));
        s
    }

    /// Select the CPU for a task: its preferred CPU if this scheduler has it,
    /// else the least loaded allowed CPU.
    fn select_cpu(&self, task: &Task) -> (r: Result<usize, &'static str>)
        requires
            self.wf(),
            placeable(self.cpu_count(), *task),
        ensures
            match placement(self.queues(), *task) {
                Some(c) => r matches Ok(x) && x == c && c < self.cpu_count(),
                None => r == Err::<usize, &'static str>("No allowed CPUs"),
            },
    {
        if let Some(cpu) = task.affinity.preferred_cpu() {
            if cpu < self.num_cpus {
                return Ok(cpu);
            }
        }
        let allowed_cpus = task.affinity.allowed_cpus().cpus();
        proof {
            task.affinity.lemma_len_bound();
            lemma_cpus_below(task.affinity.allowed(), task.affinity.allowed().len() as int);
        }
        if allowed_cpus.len() == 0 {
            return Err("No allowed CPUs");
        }
        let ghost qs = self.queues();
        let ghost cpus = allowed_cpus@;
        assert forall|k: int| 0 <= k < cpus.len() implies #[trigger] cpus[k] < self.cpu_count() by {
            assert(task.affinity.allows(cpus[k] as int));
        }
        let mut best = allowed_cpus[0];
        let mut i: usize = 1;
        while i < allowed_cpus.len()
            invariant
                self.wf(),
                qs == self.queues(),
                cpus == allowed_cpus@,
                1 <= i <= cpus.len(),
                best == least_loaded(qs, cpus, i as int),
                best < self.cpu_count(),
                forall|k: int| 0 <= k < cpus.len() ==> #[trigger] cpus[k] < self.cpu_count(),
            decreases cpus.len() - i,
        {
            let c = allowed_cpus[i];
            if self.run_queues[c].len() < self.run_queues[best].len() {
                best = c;
            }
            i = i + 1;
        }
        Ok(best)
    }
}

impl SmpScheduler {
    /// Schedule a task on the CPU that `placement` picks for it, recording
    /// that CPU in the task.
    pub fn schedule(&mut self, task: Task) -> (r: Result<(), &'static str>)
        requires
            old(self).wf(),
            placeable(old(self).cpu_count(), task),
        ensures
            final(self).wf(),
            final(self).cpu_count() == old(self).cpu_count(),
            final(self).global() == old(self).global(),
            match placement(old(self).queues(), task) {
                Some(c) => r is Ok && final(self).queues() == old(self).queues().update(
                    c as int,
                    old(self).queues()[c as int].push((Task { current_cpu: Some(c), ..task })),
                ),
                None => r == Err::<(), &'static str>("No allowed CPUs") && final(self).queues()
                    == old(self).queues(),
            },
    {
        let mut task = task;
        let target_cpu = match self.select_cpu(&task) {
            Ok(c) => c,
            Err(e) => return Err(e),
        };
        task.current_cpu = Some(target_cpu);
        self.run_queues[target_cpu].push(task);
        assert(self.queues() =~= old(self).queues().update(
            target_cpu as int,
            old(self).queues()[target_cpu as int].push(task),
        ));
        Ok(())
    }

    /// Schedule a task on the global queue.
    pub fn schedule_global(&mut self, task: Task) -> (r: Result<(), &'static str>)
        requires
            old(self).wf(),
        ensures
            r is Ok,
            final(self).wf(),
            final(self).cpu_count() == old(self).cpu_count(),
            final(self).queues() == old(self).queues(),
            final(self).global() == old(self).global().push(task),
    {
        self.global_queue.push(task);
        assert(self.queues() =~= old(self).queues());
        Ok(())
    }

    /// Get the number of tasks waiting on a CPU; 0 for a CPU it does not have.
    pub fn queue_length(&self, cpu_id: usize) -> (n: usize)
        requires
            self.wf(),
        ensures
            cpu_id < self.cpu_count() ==> n == self.queues()[cpu_id as int].len(),
            cpu_id >= self.cpu_count() ==> n == 0,
    {
        if cpu_id >= self.num_cpus {
            return 0;
        }
        self.run_queues[cpu_id].len()
    }

    /// Get the total number of tasks, local and global.
    pub fn total_tasks(&self) -> (n: usize)
        requires
            self.wf(),
            self.total() <= usize::MAX,
        ensures
            n == self.total(),
    {
        let ghost qs = self.queues();
        let mut local_tasks: usize = 0;
        let mut i: usize = 0;
        while i < self.run_queues.len()
            invariant
                qs == self.queues(),
                i <= qs.len(),
                qs.len() == self.run_queues@.len(),
                local_tasks == total_len(qs, i as int),
                total_len(qs, qs.len() as int) + self.global().len() <= usize::MAX,
            decreases qs.len() - i,
        {
            proof {
                lemma_total_len_mono(qs, i as int + 1, qs.len() as int);
            }
            local_tasks = local_tasks + self.run_queues[i].len();
            i = i + 1;
        }
        local_tasks + self.global_queue.len()
    }

    /// Get the next task for a CPU: from its own queue, else the global queue,
    /// else by stealing from another CPU.
    pub fn next_task(&mut self, cpu_id: usize) -> (r: Option<Task>)
        requires
            old(self).wf(),
        ensures
            final(self).wf(),
            final(self).cpu_count() == old(self).cpu_count(),
            (r, final(self).queues(), final(self).global()) == next_outcome(
                old(self).queues(),
                old(self).global(),
                cpu_id as int,
            ),
    {
        if cpu_id >= self.num_cpus {
            return None;
        }
        if let Some(task) = self.run_queues[cpu_id].pop() {
            assert(self.queues() =~= old(self).queues().update(
                cpu_id as int,
                old(self).queues()[cpu_id as int].drop_first(),
            ));
            return Some(task);
        }
        assert(self.queues() =~= old(self).queues());
        if let Some(task) = self.global_queue.pop() {
            if task.affinity.is_allowed(cpu_id) {
                return Some(task);
            } else {
                self.global_queue.push(task);
            }
        }
        self.steal_task(cpu_id)
    }

    /// Balance load: each CPU holding more than one task above the average
    /// hands tasks from the front of its queue to the CPUs that placement
    /// picks for them, until it is down to the average or a task would stay.
    /// No task is lost or duplicated, and the global queue is untouched.
    pub fn balance_load(&mut self)
        requires
            old(self).wf(),
            old(self).cpu_count() > 0,
            old(self).total() < usize::MAX,
            balance_ok(
                old(self).queues(),
                (old(self).total() / old(self).cpu_count()) as int,
                0,
                old(self).cpu_count() as int,
                old(self).cpu_count(),
            ),
        ensures
            final(self).wf(),
            final(self).cpu_count() == old(self).cpu_count(),
            final(self).global() == old(self).global(),
            final(self).queues() == balance_from(
                old(self).queues(),
                (old(self).total() / old(self).cpu_count()) as int,
                0,
                old(self).cpu_count() as int,
            ),
            final(self).total() == old(self).total(),
            tasks_placeable(old(self).queues(), old(self).cpu_count()) ==> tasks_placeable(
                final(self).queues(),
                final(self).cpu_count(),
            ),
            tasks_on_allowed(old(self).queues()) ==> tasks_on_allowed(final(self).queues()),
    {
        let avg_load = self.total_tasks() / self.num_cpus;
        let ghost n = self.cpu_count();
        let ghost t0 = self.total();
        let ghost g0 = self.global();
        let ghost allowed0 = tasks_on_allowed(self.queues());
        let ghost placeable0 = tasks_placeable(self.queues(), self.cpu_count());
        let ghost target = balance_from(self.queues(), avg_load as int, 0, n as int);
        let mut cpu_id: usize = 0;
        while cpu_id < self.num_cpus
            invariant
                self.wf(),
                self.cpu_count() == n,
                n > 0,
                self.global() == g0,
                self.total() == t0,
                t0 < usize::MAX,
                avg_load <= t0,
                placeable0 ==> tasks_placeable(self.queues(), n),
                allowed0 ==> tasks_on_allowed(self.queues()),
                cpu_id <= n,
                balance_from(self.queues(), avg_load as int, cpu_id as int, n as int) == target,
                balance_ok(self.queues(), avg_load as int, cpu_id as int, n as int, n),
            decreases n - cpu_id,
        {
            let load = self.queue_length(cpu_id);
            if load > avg_load + 1 {
                while self.queue_length(cpu_id) > avg_load
                    invariant_except_break
                        balance_from(
                            drain_cpu(self.queues(), cpu_id as int, avg_load as int),
                            avg_load as int,
                            cpu_id + 1,
                            n as int,
                        ) == target,
                        drain_ok(self.queues(), cpu_id as int, avg_load as int, n),
                        balance_ok(
                            drain_cpu(self.queues(), cpu_id as int, avg_load as int),
                            avg_load as int,
                            cpu_id + 1,
                            n as int,
                            n,
                        ),
                    invariant
                        self.wf(),
                        self.cpu_count() == n,
                        self.global() == g0,
                        self.total() == t0,
                        placeable0 ==> tasks_placeable(self.queues(), n),
                        allowed0 ==> tasks_on_allowed(self.queues()),
                        cpu_id < n,
                    ensures
                        balance_from(self.queues(), avg_load as int, cpu_id + 1, n as int) == target,
                        balance_ok(self.queues(), avg_load as int, cpu_id + 1, n as int, n),
                    decreases self.queues()[cpu_id as int].len(),
                {
                    let ghost qs = self.queues();
                    if let Some(task) = self.run_queues[cpu_id].pop() {
                        let ghost qs1 = self.queues();
                        proof {
                            assert(qs1 =~= qs.update(cpu_id as int, qs[cpu_id as int].drop_first()));
                            assert(task == qs[cpu_id as int][0]);
                            lemma_total_len_update(qs, cpu_id as int, qs1[cpu_id as int], qs.len() as int);
                            use_type_invariant(&task.affinity);
                            lemma_placement_allowed(qs1, task);
                        }
                        if let Ok(target_cpu) = self.select_cpu(&task) {
                            if target_cpu != cpu_id {
                                let ghost moved = Task { current_cpu: Some(target_cpu), ..task };
                                let _ = self.migrate_task(task, target_cpu);
                                proof {
                                    let qs2 = self.queues();
                                    lemma_total_len_update(qs1, target_cpu as int, qs2[target_cpu as int], qs1.len() as int);
                                    lemma_moved_tasks_ok(qs, cpu_id as int, target_cpu as int, moved, n);
                                    assert(drain_cpu(qs, cpu_id as int, avg_load as int) == drain_cpu(
                                        qs2,
                                        cpu_id as int,
                                        avg_load as int,
                                    ));
                                }
                            } else {
                                self.run_queues[cpu_id].push(task);
                                proof {
                                    assert(self.queues() =~= qs1.update(
                                        cpu_id as int,
                                        qs1[cpu_id as int].push(task),
                                    ));
                                    lemma_total_len_update(qs1, cpu_id as int, self.queues()[cpu_id as int], qs1.len() as int);
                                    lemma_moved_tasks_ok(qs, cpu_id as int, cpu_id as int, task, n);
                                    assert(self.queues() == drain_cpu(qs, cpu_id as int, avg_load as int));
                                }
                                break;
                            }
                        } else {
                            self.run_queues[cpu_id].push(task);
                            proof {
                                assert(self.queues() =~= qs1.update(
                                    cpu_id as int,
                                    qs1[cpu_id as int].push(task),
                                ));
                                lemma_total_len_update(qs1, cpu_id as int, self.queues()[cpu_id as int], qs1.len() as int);
                                lemma_moved_tasks_ok(qs, cpu_id as int, cpu_id as int, task, n);
                                assert(self.queues() == drain_cpu(qs, cpu_id as int, avg_load as int));
                            }
                            break;
                        }
                    }
                }
            }
            cpu_id = cpu_id + 1;
        }
    }

    /// Migrate a task to `target_cpu`, which its affinity must allow.
    pub fn migrate_task(&mut self, task: Task, target_cpu: usize) -> (r: Result<(), &'static str>)
        requires
            old(self).wf(),
        ensures
            final(self).wf(),
            final(self).cpu_count() == old(self).cpu_count(),
            final(self).global() == old(self).global(),
            r is Ok <==> target_cpu < old(self).cpu_count() && task.affinity.allows(target_cpu as int),
            r matches Err(e) ==> final(self).queues() == old(self).queues() && (if target_cpu
                >= old(self).cpu_count() {
                e == "Invalid target CPU"
            } else {
                e == "Target CPU not allowed by affinity"
            }),
            r is Ok ==> final(self).queues() == old(self).queues().update(
                target_cpu as int,
                old(self).queues()[target_cpu as int].push((Task { current_cpu: Some(target_cpu), ..task })),
            ),
    {
        if target_cpu >= self.num_cpus {
            return Err("Invalid target CPU");
        }
        if !task.affinity.is_allowed(target_cpu) {
            return Err("Target CPU not allowed by affinity");
        }
        let mut migrated_task = task;
        migrated_task.current_cpu = Some(target_cpu);
        self.run_queues[target_cpu].push(migrated_task);
        assert(self.queues() =~= old(self).queues().update(
            target_cpu as int,
            old(self).queues()[target_cpu as int].push(migrated_task),
        ));
        Ok(())
    }

    /// Steal a task for `cpu_id` from the CPU with the longest queue.
    fn steal_task(&mut self, cpu_id: usize) -> (r: Option<Task>)
        requires
            old(self).wf(),
        ensures
            final(self).wf(),
            final(self).cpu_count() == old(self).cpu_count(),
            final(self).global() == old(self).global(),
            (r, final(self).queues()) == steal_outcome(old(self).queues(), cpu_id as int),
    {
        let ghost qs = self.queues();
        let mut max_len: usize = 0;
        let mut victim_cpu: Option<usize> = None;
        let mut i: usize = 0;
        while i < self.run_queues.len()
            invariant
                qs == self.queues(),
                i <= qs.len(),
                qs.len() == self.run_queues@.len(),
                victim_cpu == steal_victim(qs, cpu_id as int, i as int),
                max_len == match victim_cpu {
                    Some(v) => qs[v as int].len(),
                    None => 0,
                },
                victim_cpu matches Some(v) ==> v < i,
            decreases qs.len() - i,
        {
            if i != cpu_id {
                let len = self.run_queues[i].len();
                if len > max_len {
                    max_len = len;
                    victim_cpu = Some(i);
                }
            }
            i = i + 1;
        }
        proof {
            assert(qs.len() == self.run_queues@.len());
            lemma_victim_nonempty(qs, cpu_id as int, qs.len() as int);
        }
        if let Some(victim) = victim_cpu {
            if let Some(task) = self.run_queues[victim].pop() {
                if task.affinity.is_allowed(cpu_id) {
                    assert(self.queues() =~= qs.update(victim as int, qs[victim as int].drop_first()));
                    return Some(task);
                } else {
                    self.run_queues[victim].push(task);
                    assert(self.queues() =~= qs.update(
                        victim as int,
                        qs[victim as int].drop_first().push(task),
                    ));
                }
            }
        }
        None
    }
}

/// Every queued task can be placed on `n` CPUs, and its preferred CPU is one
/// it allows.
pub open spec fn tasks_placeable(qs: Seq<Seq<Task>>, n: nat) -> bool {
    forall|i: int, j: int|
        0 <= i < qs.len() && 0 <= j < qs[i].len() ==> placeable(n, #[trigger] qs[i][j])
}

/// Every queued task sits on a CPU that its affinity allows.
pub open spec fn tasks_on_allowed(qs: Seq<Seq<Task>>) -> bool {
    forall|i: int, j: int|
        0 <= i < qs.len() && 0 <= j < qs[i].len() ==> (#[trigger] qs[i][j]).affinity.allows(i)
}

/// Replacing one queue changes the total by the difference in its length.
pub proof fn lemma_total_len_update(qs: Seq<Seq<Task>>, i: int, s: Seq<Task>, k: int)
    requires
        0 <= i < qs.len(),
        0 <= k <= qs.len(),
    ensures
        i < k ==> total_len(qs.update(i, s), k) == total_len(qs, k) - qs[i].len() + s.len(),
        i >= k ==> total_len(qs.update(i, s), k) == total_len(qs, k),
    decreases k,
{
    if k > 0 {
        lemma_total_len_update(qs, i, s, k - 1);
    }
}

/// The least loaded CPU is one of the candidates.
pub proof fn lemma_least_loaded_member(qs: Seq<Seq<Task>>, cpus: Seq<usize>, k: int)
    requires
        1 <= k <= cpus.len(),
    ensures
        exists|j: int| 0 <= j < k && cpus[j] == least_loaded(qs, cpus, k),
    decreases k,
{
    if k > 1 {
        lemma_least_loaded_member(qs, cpus, k - 1);
        if qs[cpus[k - 1] as int].len() < qs[least_loaded(qs, cpus, k - 1) as int].len() {
            assert(cpus[k - 1] == least_loaded(qs, cpus, k));
        } else {
            let j = choose|j: int| 0 <= j < k - 1 && cpus[j] == least_loaded(qs, cpus, k - 1);
            assert(cpus[j] == least_loaded(qs, cpus, k));
        }
    } else {
        assert(cpus[0] == least_loaded(qs, cpus, k));
    }
}

/// A task is placed on a CPU that its affinity allows.
pub proof fn lemma_placement_allowed(qs: Seq<Seq<Task>>, t: Task)
    requires
        t.affinity.wf(),
    ensures
        placement(qs, t) matches Some(c) ==> t.affinity.allows(c as int),
{
    t.affinity.lemma_len_bound();
    let mask = t.affinity.allowed();
    let cpus = cpus_below(mask, mask.len() as int);
    lemma_cpus_below(mask, mask.len() as int);
    if !(t.affinity.preferred() matches Some(c) && c < qs.len()) && cpus.len() > 0 {
        lemma_least_loaded_member(qs, cpus, cpus.len() as int);
    }
}

/// Moving the head of queue `c` to the back of queue `t` (possibly `c`
/// itself), with its CPU field rewritten, keeps every task placeable, and
/// keeps tasks on allowed CPUs when `t` is allowed for it.
pub proof fn lemma_moved_tasks_ok(qs: Seq<Seq<Task>>, c: int, t: int, moved: Task, n: nat)
    requires
        0 <= c < qs.len(),
        0 <= t < qs.len(),
        qs[c].len() > 0,
        moved.affinity == qs[c][0].affinity,
    ensures
        ({
            let qs1 = qs.update(c, qs[c].drop_first());
            let qs2 = qs1.update(t, qs1[t].push(moved));
            &&& tasks_placeable(qs, n) ==> tasks_placeable(qs2, n)
            &&& (tasks_on_allowed(qs) && moved.affinity.allows(t)) ==> tasks_on_allowed(qs2)
        }),
{
    let qs1 = qs.update(c, qs[c].drop_first());
    let qs2 = qs1.update(t, qs1[t].push(moved));
    if tasks_placeable(qs, n) {
        assert(placeable(n, qs[c][0]));
        assert forall|i: int, j: int| 0 <= i < qs2.len() && 0 <= j < qs2[i].len() implies placeable(
            n,
            #[trigger] qs2[i][j],
        ) by {
            if i == t && j == qs1[t].len() {
            } else if i == c {
                assert(qs2[i][j] == qs[c][j + 1]);
            } else {
                assert(qs2[i][j] == qs[i][j]);
            }
        }
    }
    if tasks_on_allowed(qs) && moved.affinity.allows(t) {
        assert forall|i: int, j: int| 0 <= i < qs2.len() && 0 <= j < qs2[i].len() implies (
        #[trigger] qs2[i][j]).affinity.allows(i) by {
            if i == t && j == qs1[t].len() {
            } else if i == c {
                assert(qs2[i][j] == qs[c][j + 1]);
            } else {
                assert(qs2[i][j] == qs[i][j]);
            }
        }
    }
}

/// Taking the next task for a CPU loses no task and makes none up: the
/// tasks left in all queues, plus the one handed out, are as many as before.
pub proof fn lemma_next_task_conserves(qs: Seq<Seq<Task>>, g: Seq<Task>, cpu: int)
    requires
        qs.len() <= usize::MAX,
    ensures
        ({
            let out = next_outcome(qs, g, cpu);
            total_len(out.1, out.1.len() as int) + out.2.len() + (if out.0 is Some {
                1int
            } else {
                0int
            }) == total_len(qs, qs.len() as int) + g.len()
        }),
{
    let n = qs.len() as int;
    if 0 <= cpu < n {
        if qs[cpu].len() > 0 {
            lemma_total_len_update(qs, cpu, qs[cpu].drop_first(), n);
        } else if !(g.len() > 0 && g[0].affinity.allows(cpu)) {
            lemma_victim_nonempty(qs, cpu, n);
            if let Some(v) = steal_victim(qs, cpu, n) {
                let t = qs[v as int][0];
                let rest = qs[v as int].drop_first();
                if t.affinity.allows(cpu) {
                    lemma_total_len_update(qs, v as int, rest, n);
                } else {
                    lemma_total_len_update(qs, v as int, rest.push(t), n);
                }
            }
        }
    }
}

/// Partial sums of queue lengths grow with the number of queues summed.
pub proof fn lemma_total_len_mono(qs: Seq<Seq<Task>>, j: int, k: int)
    requires
        0 <= j <= k <= qs.len(),
    ensures
        total_len(qs, j) <= total_len(qs, k),
    decreases k - j,
{
    if j < k {
        lemma_total_len_mono(qs, j, k - 1);
    }
}

/// A steal victim is a CPU other than the thief with a non-empty queue.
pub proof fn lemma_victim_nonempty(qs: Seq<Seq<Task>>, cpu: int, k: int)
    requires
        0 <= k <= qs.len(),
        qs.len() <= usize::MAX,
    ensures
        steal_victim(qs, cpu, k) matches Some(v) ==> v < k && v != cpu && qs[v as int].len() > 0,
    decreases k,
{
    if k > 0 {
        lemma_victim_nonempty(qs, cpu, k - 1);
    }
}

/// The victim among CPUs `0..k` is a CPU other than the thief with the
/// longest queue there, the first of those; there is none exactly when every
/// other CPU there has an empty queue.
pub proof fn lemma_victim_longest(qs: Seq<Seq<Task>>, cpu: int, k: int)
    requires
        0 <= k <= qs.len(),
        qs.len() <= usize::MAX,
    ensures
        steal_victim(qs, cpu, k) matches Some(v) ==> {
            &&& 0 <= v < k
            &&& v != cpu
            &&& qs[v as int].len() > 0
            &&& forall|j: int| 0 <= j < k && j != cpu ==> #[trigger] qs[j].len() <= qs[v as int].len()
            &&& forall|j: int| 0 <= j < v && j != cpu ==> #[trigger] qs[j].len() < qs[v as int].len()
        },
        steal_victim(qs, cpu, k) is None ==> forall|j: int| 0 <= j < k && j != cpu ==> #[trigger] qs[j].len() == 0,
    decreases k,
{
    if k > 0 {
        lemma_victim_longest(qs, cpu, k - 1);
    }
}

/// Work stealing takes from the busiest CPU. When every CPU but the thief
/// has an empty queue, nothing is stolen and nothing changes. Otherwise there
/// is a victim `v` other than the thief whose queue is at least as long as
/// that of every CPU but the thief, and strictly longer than that of every
/// CPU before it (the first of the longest); its first task is taken, and
/// handed to the thief when the thief may run it, else put at the back of the
/// victim's queue; every other queue stays as it was.
pub proof fn lemma_steal_from_longest(qs: Seq<Seq<Task>>, cpu: int)
    requires
        0 <= cpu < qs.len(),
        qs.len() <= usize::MAX,
    ensures
        (forall|j: int| 0 <= j < qs.len() && j != cpu ==> #[trigger] qs[j].len() == 0) ==> steal_outcome(qs, cpu)
            == (None::<Task>, qs),
        (exists|j: int| 0 <= j < qs.len() && j != cpu && #[trigger] qs[j].len() > 0) ==> exists|v: int|
            {
                &&& 0 <= v < qs.len()
                &&& v != cpu
                &&& qs[v].len() > 0
                &&& forall|j: int| 0 <= j < qs.len() && j != cpu ==> #[trigger] qs[j].len() <= qs[v].len()
                &&& forall|j: int| 0 <= j < v && j != cpu ==> #[trigger] qs[j].len() < qs[v].len()
                &&& #[trigger] steal_outcome(qs, cpu).1.len() == qs.len()
                &&& forall|j: int| 0 <= j < qs.len() && j != v ==> #[trigger] steal_outcome(qs, cpu).1[j] == qs[j]
                &&& if qs[v][0].affinity.allows(cpu) {
                    &&& steal_outcome(qs, cpu).0 == Some(qs[v][0])
                    &&& steal_outcome(qs, cpu).1[v] == qs[v].drop_first()
                } else {
                    &&& steal_outcome(qs, cpu).0 is None
                    &&& steal_outcome(qs, cpu).1[v] == qs[v].drop_first().push(qs[v][0])
                }
            },
{
    let n = qs.len() as int;
    lemma_victim_longest(qs, cpu, n);
    match steal_victim(qs, cpu, n) {
        None => {},
        Some(v) => {
            let vi = v as int;
            let out = steal_outcome(qs, cpu);
            assert forall|j: int| 0 <= j < qs.len() && j != vi implies #[trigger] out.1[j] == qs[j] by {}
            assert(out.1.len() == qs.len());
            if qs[vi][0].affinity.allows(cpu) {
                assert(out.0 == Some(qs[vi][0]) && out.1[vi] == qs[vi].drop_first());
            } else {
                assert(out.0 is None && out.1[vi] == qs[vi].drop_first().push(qs[vi][0]));
            }
            assert(steal_outcome(qs, cpu).1.len() == qs.len());
        },
    }
}

} // verus!
