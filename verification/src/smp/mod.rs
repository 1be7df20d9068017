//! Symmetric multi-processing: CPU affinity, per-CPU run queues with work
//! stealing, and inter-processor messaging.
pub mod affinity;
pub mod ipc;
pub mod scheduler;

use vstd::prelude::*;

use crate::smp::ipc::{broadcast_queues, IPCManager, IPCMessage};
use crate::smp::scheduler::{SmpScheduler, Task};

verus! {

/// SMP Manager: coordinates the scheduler and the message queues of all CPUs.
pub struct SmpManager {
    num_cpus: usize,
    scheduler: SmpScheduler,
    ipc_channels: IPCManager,
}

impl SmpManager {
    /// The number of CPUs.
    pub closed spec fn cpu_count(&self) -> nat {
        self.num_cpus as nat
    }

    /// The scheduler.
    pub closed spec fn sched(&self) -> SmpScheduler {
        self.scheduler
    }

    /// The message queues.
    pub closed spec fn ipc_view(&self) -> IPCManager {
        self.ipc_channels
    }

    /// Scheduler and message queues both cover exactly the manager's CPUs.
    pub open spec fn wf(&self) -> bool {
        &&& self.sched().wf()
        &&& self.ipc_view().wf()
        &&& self.sched().cpu_count() == self.cpu_count()
        &&& self.ipc_view().cpu_count() == self.cpu_count()
    }

    pub fn new(num_cpus: usize) -> (m: Self)
        ensures
            m.wf(),
            m.cpu_count() == num_cpus,
            m.sched().queues() == Seq::new(num_cpus as nat, |i: int| Seq::<Task>::empty()),
            m.sched().global() == Seq::<Task>::empty(),
            m.ipc_view().queues() == Seq::new(num_cpus as nat, |i: int| Seq::<IPCMessage>::empty()),
    {
        SmpManager {
            num_cpus,
            scheduler: SmpScheduler::new(num_cpus),
            ipc_channels: IPCManager::new(num_cpus),
        }
    }

    /// Get the number of CPUs.
    pub fn num_cpus(&self) -> (n: usize)
        ensures
            n == self.cpu_count(),
    {
        self.num_cpus
    }

    /// Get the SMP scheduler.
    pub fn scheduler(&self) -> (s: &SmpScheduler)
        ensures
            *s == self.sched(),
    {
        &self.scheduler
    }

    /// Get the SMP scheduler, to schedule or take tasks.
    pub fn scheduler_mut(&mut self) -> (s: &mut SmpScheduler)
        ensures
            *s == old(self).sched(),
            final(self).sched() == *final(s),
            final(self).ipc_view() == old(self).ipc_view(),
            final(self).cpu_count() == old(self).cpu_count(),
    {
        &mut self.scheduler
    }

    /// Get the IPC manager.
    pub fn ipc(&self) -> (i: &IPCManager)
        ensures
            *i == self.ipc_view(),
    {
        &self.ipc_channels
    }

    /// Get the IPC manager, to send or receive messages.
    pub fn ipc_mut(&mut self) -> (i: &mut IPCManager)
        ensures
            *i == old(self).ipc_view(),
            final(self).ipc_view() == *final(i),
            final(self).sched() == old(self).sched(),
            final(self).cpu_count() == old(self).cpu_count(),
    {
        &mut self.ipc_channels
    }

    /// Send an IPI message to a specific CPU.
    pub fn send_ipi(&mut self, target_cpu: usize, message: IPCMessage) -> (r: Result<(), &'static str>)
        requires
            old(self).wf(),
        ensures
            final(self).wf(),
            final(self).cpu_count() == old(self).cpu_count(),
            final(self).sched() == old(self).sched(),
            target_cpu >= old(self).cpu_count() <==> r is Err,
            r matches Err(e) ==> e == "Invalid CPU ID" && final(self).ipc_view() == old(self).ipc_view(),
            r is Ok ==> final(self).ipc_view().queues() == old(self).ipc_view().queues().update(
                target_cpu as int,
                old(self).ipc_view().queues()[target_cpu as int].push(message),
            ),
    {
        if target_cpu >= self.num_cpus {
            return Err("Invalid CPU ID");
        }
        self.ipc_channels.send(target_cpu, message)
    }

    /// Broadcast an IPI message to all CPUs except the current one.
    pub fn broadcast_ipi(&mut self, current_cpu: usize, message: IPCMessage) -> (r: Result<(), &'static str>)
        requires
            old(self).wf(),
        ensures
            r is Ok,
            final(self).wf(),
            final(self).cpu_count() == old(self).cpu_count(),
            final(self).sched() == old(self).sched(),
            final(self).ipc_view().queues() == broadcast_queues(
                old(self).ipc_view().queues(),
                current_cpu as int,
                message,
            ),
    {
        self.ipc_channels.broadcast(current_cpu, message)
    }
}

/// Process every pending message of CPU `cpu_id` with `handler`, oldest
/// first, on the SMP manager in `slot`; the result is how many were
/// processed.
pub fn process_messages<F: Fn(IPCMessage)>(slot: &mut Option<SmpManager>, cpu_id: usize, handler: F) -> (r: Result<
    usize,
    &'static str,
>)
    requires
        (*old(slot)) matches Some(m) ==> m.wf(),
        forall|m: IPCMessage| handler.requires((m,)),
    ensures
        (*old(slot)) is None ==> r == Err::<usize, &'static str>("SMP not initialized") && *final(slot) == *old(
            slot,
        ),
        (*old(slot)) is Some ==> ((*final(slot)) matches Some(after) && {
            let before = old(slot)->0;
            let q = before.ipc_view().queues();
            &&& after.wf()
            &&& after.cpu_count() == before.cpu_count()
            &&& after.sched() == before.sched()
            &&& (cpu_id >= before.cpu_count() <==> r is Err)
            &&& r matches Err(e) ==> e == "Invalid CPU ID" && after.ipc_view().queues() == q
            &&& r matches Ok(n) ==> n == q[cpu_id as int].len() && after.ipc_view().queues() == q.update(
                cpu_id as int,
                Seq::<IPCMessage>::empty(),
            )
            &&& r is Ok ==> forall|i: int|
                0 <= i < q[cpu_id as int].len() ==> handler.ensures((#[trigger] q[cpu_id as int][i],), ())
        }),
{
    match slot {
        Some(manager) => {
            let ipc = manager.ipc_mut();
            crate::smp::ipc::process_messages(ipc, cpu_id, handler)
        },
        None => Err("SMP not initialized"),
    }
}

/// Initialize the SMP subsystem in `slot`, which must still be empty.
pub fn init(slot: &mut Option<SmpManager>, num_cpus: usize) -> (r: Result<(), &'static str>)
    ensures
        (*old(slot)) is Some <==> r is Err,
        r matches Err(e) ==> e == "SMP already initialized" && *final(slot) == *old(slot),
        r is Ok ==> ((*final(slot)) matches Some(m) && m.wf() && m.cpu_count() == num_cpus
            && m.sched().queues() == Seq::new(num_cpus as nat, |i: int| Seq::<Task>::empty())
            && m.sched().global() == Seq::<Task>::empty()
            && m.ipc_view().queues() == Seq::new(num_cpus as nat, |i: int| Seq::<IPCMessage>::empty())),
{
    if slot.is_some() {
        return Err("SMP already initialized");
    }
    *slot = Some(SmpManager::new(num_cpus));
    Ok(())
}

} // verus!
