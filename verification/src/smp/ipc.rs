//! Inter-processor communication: one FIFO message queue per CPU.
use std::collections::VecDeque;
use vstd::prelude::*;

verus! {

/// IPC message types.
#[derive(Debug, Clone, Copy, PartialEq, Eq)]
pub enum IPCMessage {
    /// Request to flush TLB
    TlbFlush,
    /// Request to invalidate cache
    CacheInvalidate,
    /// Request to schedule a task
    ScheduleTask { task_id: u64 },
    /// Request to wake up a CPU
    WakeUp,
    /// Custom message with user-defined data
    Custom { message_type: u32, data: u64 },
}

/// The message queue of one CPU.
struct IPCQueue {
    messages: VecDeque<IPCMessage>,
}

impl IPCQueue {
    fn new() -> (q: Self)
        ensures
            q.messages@ == Seq::<IPCMessage>::empty(),
    {
        IPCQueue { messages: VecDeque::new() }
    }

    fn send(&mut self, message: IPCMessage) -> (r: Result<(), &'static str>)
        ensures
            r is Ok,
            final(self).messages@ == old(self).messages@.push(message),
    {
        self.messages.push_back(message);
        Ok(())
    }

    fn receive(&mut self) -> (m: Option<IPCMessage>)
        ensures
            old(self).messages@.len() == 0 ==> m is None && final(self).messages@ == old(self).messages@,
            old(self).messages@.len() > 0 ==> m == Some(old(self).messages@[0])
                && final(self).messages@ == old(self).messages@.drop_first(),
    {
        self.messages.pop_front()
    }

    fn peek(&self) -> (m: Option<IPCMessage>)
        ensures
            self.messages@.len() == 0 ==> m is None,
            self.messages@.len() > 0 ==> m == Some(self.messages@[0]),
    {
        if self.messages.len() == 0 {
            None
        } else {
            Some(self.messages[0])
        }
    }

    fn len(&self) -> (n: usize)
        ensures
            n == self.messages@.len(),
    {
        self.messages.len()
    }

    fn is_empty(&self) -> (b: bool)
        ensures
            b == (self.messages@.len() == 0),
    {
        self.messages.len() == 0
    }
}

/// IPC Manager: the message queues of all CPUs.
pub struct IPCManager {
    num_cpus: usize,
    queues: Vec<IPCQueue>,
}

/// A handle on the message queue of one CPU of an `IPCManager`.
pub struct IPCChannel {
    cpu_id: usize,
}

impl IPCChannel {
    /// The CPU this channel is for.
    pub closed spec fn cpu(&self) -> nat {
        self.cpu_id as nat
    }

    fn new(cpu_id: usize) -> (c: Self)
        ensures
            c.cpu() == cpu_id,
    {
        IPCChannel { cpu_id }
    }

    /// Get the CPU ID this channel is for.
    pub fn cpu_id(&self) -> (c: usize)
        ensures
            c == self.cpu(),
    {
        self.cpu_id
    }

    /// Send a message to this CPU.
    pub fn send(&self, manager: &mut IPCManager, message: IPCMessage) -> (r: Result<(), &'static str>)
        requires
            old(manager).wf(),
            self.cpu() < old(manager).cpu_count(),
        ensures
            r is Ok,
            final(manager).wf(),
            final(manager).cpu_count() == old(manager).cpu_count(),
            final(manager).queues() == old(manager).queues().update(
                self.cpu() as int,
                old(manager).queues()[self.cpu() as int].push(message),
            ),
    {
        manager.send(self.cpu_id, message)
    }

    /// Receive a message (non-blocking).
    pub fn receive(&self, manager: &mut IPCManager) -> (m: Option<IPCMessage>)
        requires
            old(manager).wf(),
            self.cpu() < old(manager).cpu_count(),
        ensures
            final(manager).wf(),
            final(manager).cpu_count() == old(manager).cpu_count(),
            old(manager).queues()[self.cpu() as int].len() == 0 ==> m is None && final(manager).queues()
                == old(manager).queues(),
            old(manager).queues()[self.cpu() as int].len() > 0 ==> m == Some(
                old(manager).queues()[self.cpu() as int][0],
            ) && final(manager).queues() == old(manager).queues().update(
                self.cpu() as int,
                old(manager).queues()[self.cpu() as int].drop_first(),
            ),
    {
        let r = manager.receive(self.cpu_id);
        match r {
            Ok(m) => m,
            Err(_) => None,
        }
    }

    /// Peek at the next message without removing it.
    pub fn peek(&self, manager: &IPCManager) -> (m: Option<IPCMessage>)
        requires
            manager.wf(),
            self.cpu() < manager.cpu_count(),
        ensures
            manager.queues()[self.cpu() as int].len() == 0 ==> m is None,
            manager.queues()[self.cpu() as int].len() > 0 ==> m == Some(
                manager.queues()[self.cpu() as int][0],
            ),
    {
        manager.queues[self.cpu_id].peek()
    }

    /// Check if there are pending messages.
    pub fn has_messages(&self, manager: &IPCManager) -> (b: bool)
        requires
            manager.wf(),
            self.cpu() < manager.cpu_count(),
        ensures
            b == (manager.queues()[self.cpu() as int].len() > 0),
    {
        !manager.queues[self.cpu_id].is_empty()
    }

    /// Get the number of pending messages.
    pub fn pending_count(&self, manager: &IPCManager) -> (n: usize)
        requires
            manager.wf(),
            self.cpu() < manager.cpu_count(),
        ensures
            n == manager.queues()[self.cpu() as int].len(),
    {
        manager.queues[self.cpu_id].len()
    }
}

impl IPCManager {
    /// The pending messages of each CPU, oldest first.
    pub closed spec fn queues(&self) -> Seq<Seq<IPCMessage>> {
        Seq::new(self.queues@.len(), |i: int| self.queues@[i].messages@)
    }

    /// The number of CPUs.
    pub closed spec fn cpu_count(&self) -> nat {
        self.num_cpus as nat
    }

    /// There is one queue per CPU.
    pub open spec fn wf(&self) -> bool {
        self.queues().len() == self.cpu_count()
    }

    pub fn new(num_cpus: usize) -> (m: Self)
        ensures
            m.wf(),
            m.cpu_count() == num_cpus,
            m.queues() == Seq::new(num_cpus as nat, |i: int| Seq::<IPCMessage>::empty()),
    {
        let mut queues: Vec<IPCQueue> = Vec::new();
        let mut i: usize = 0;
        while i < num_cpus
            invariant
                i <= num_cpus,
                queues@.len() == i,
                forall|j: int| 0 <= j < i ==> queues@[j].messages@ == Seq::<IPCMessage>::empty(),
            decreases num_cpus - i,
        {
            queues.push(IPCQueue::new());
            i = i + 1;
        }
        let m = IPCManager { num_cpus, queues };
        assert(m.queues() =~= Seq::new(num_cpus as nat, |i: int| Seq::<IPCMessage>::empty()));
        m
    }

    /// Send a message to a specific CPU.
    pub fn send(&mut self, target_cpu: usize, message: IPCMessage) -> (r: Result<(), &'static str>)
        requires
            old(self).wf(),
        ensures
            final(self).wf(),
            final(self).cpu_count() == old(self).cpu_count(),
            target_cpu >= old(self).cpu_count() <==> r is Err,
            r matches Err(e) ==> e == "Invalid CPU ID" && final(self).queues() == old(self).queues(),
            r is Ok ==> final(self).queues() == old(self).queues().update(
                target_cpu as int,
                old(self).queues()[target_cpu as int].push(message),
            ),
    {
        if target_cpu >= self.num_cpus {
            return Err("Invalid CPU ID");
        }
        let _ = self.queues[target_cpu].send(message);
        self.trigger_ipi(target_cpu);
        assert(self.queues() =~= old(self).queues().update(
            target_cpu as int,
            old(self).queues()[target_cpu as int].push(message),
        ));
        Ok(())
    }

    /// Get an IPC channel for a specific CPU.
    pub fn channel(&self, cpu_id: usize) -> (r: Result<IPCChannel, &'static str>)
        requires
            self.wf(),
        ensures
            cpu_id >= self.cpu_count() <==> r is Err,
            r matches Err(e) ==> e == "Invalid CPU ID",
            r matches Ok(c) ==> c.cpu() == cpu_id,
    {
        if cpu_id >= self.num_cpus {
            return Err("Invalid CPU ID");
        }
        Ok(IPCChannel::new(cpu_id))
    }

    /// Receive a message for a CPU.
    pub fn receive(&mut self, cpu_id: usize) -> (r: Result<Option<IPCMessage>, &'static str>)
        requires
            old(self).wf(),
        ensures
            final(self).wf(),
            final(self).cpu_count() == old(self).cpu_count(),
            cpu_id >= old(self).cpu_count() <==> r is Err,
            r matches Err(e) ==> e == "Invalid CPU ID" && final(self).queues() == old(self).queues(),
            r is Ok && old(self).queues()[cpu_id as int].len() == 0 ==> r == Ok::<
                Option<IPCMessage>,
                &'static str,
            >(None) && final(self).queues() == old(self).queues(),
            r is Ok && old(self).queues()[cpu_id as int].len() > 0 ==> r == Ok::<
                Option<IPCMessage>,
                &'static str,
            >(Some(old(self).queues()[cpu_id as int][0])) && final(self).queues()
                == old(self).queues().update(cpu_id as int, old(self).queues()[cpu_id as int].drop_first()),
    {
        if cpu_id >= self.num_cpus {
            return Err("Invalid CPU ID");
        }
        let m = self.queues[cpu_id].receive();
        assert(self.queues() =~= if old(self).queues()[cpu_id as int].len() == 0 {
            old(self).queues()
        } else {
            old(self).queues().update(cpu_id as int, old(self).queues()[cpu_id as int].drop_first())
        });
        Ok(m)
    }

    /// Check if a CPU has pending messages; false for a CPU it does not have.
    pub fn has_pending(&self, cpu_id: usize) -> (b: bool)
        requires
            self.wf(),
        ensures
            b == (cpu_id < self.cpu_count() && self.queues()[cpu_id as int].len() > 0),
    {
        if cpu_id >= self.num_cpus {
            return false;
        }
        !self.queues[cpu_id].is_empty()
    }

    /// Broadcast a message to all CPUs except the sender.
    pub fn broadcast(&mut self, sender_cpu: usize, message: IPCMessage) -> (r: Result<(), &'static str>)
        requires
            old(self).wf(),
        ensures
            r is Ok,
            final(self).wf(),
            final(self).cpu_count() == old(self).cpu_count(),
            final(self).queues() == broadcast_queues(old(self).queues(), sender_cpu as int, message),
    {
        let ghost q0 = self.queues();
        let mut cpu: usize = 0;
        while cpu < self.num_cpus
            invariant
                self.wf(),
                self.cpu_count() == q0.len(),
                cpu <= q0.len(),
                self.queues() == Seq::new(
                    q0.len(),
                    |i: int|
                        if i < cpu && i != sender_cpu {
                            q0[i].push(message)
                        } else {
                            q0[i]
                        },
                ),
            decreases q0.len() - cpu,
        {
            if cpu != sender_cpu {
                let _ = self.send(cpu, message.clone());
            }
            assert(self.queues() =~= Seq::new(
                q0.len(),
                |i: int|
                    if i < cpu + 1 && i != sender_cpu {
                        q0[i].push(message)
                    } else {
                        q0[i]
                    },
            ));
            cpu = cpu + 1;
        }
        assert(self.queues() =~= broadcast_queues(q0, sender_cpu as int, message));
        Ok(())
    }

    /// Trigger an inter-processor interrupt. Hardware IPIs are not wired up,
    /// so delivery rests on the target polling its queue.
    fn trigger_ipi(&self, target_cpu: usize) {
    }
}

/// The queues after `message` is appended to every queue but `sender`'s.
pub open spec fn broadcast_queues(qs: Seq<Seq<IPCMessage>>, sender: int, message: IPCMessage) -> Seq<
    Seq<IPCMessage>,
> {
    Seq::new(qs.len(), |i: int| if i != sender { qs[i].push(message) } else { qs[i] })
}

/// Process every pending message of a CPU with `handler`, oldest first; the
/// result is how many were processed.
pub fn process_messages<F: Fn(IPCMessage)>(
    manager: &mut IPCManager,
    cpu_id: usize,
    handler: F,
) -> (r: Result<usize, &'static str>)
    requires
        old(manager).wf(),
        forall|m: IPCMessage| handler.requires((m,)),
    ensures
        final(manager).wf(),
        final(manager).cpu_count() == old(manager).cpu_count(),
        cpu_id >= old(manager).cpu_count() <==> r is Err,
        r matches Err(e) ==> e == "Invalid CPU ID" && final(manager).queues() == old(manager).queues(),
        r matches Ok(n) ==> n == old(manager).queues()[cpu_id as int].len() && final(manager).queues()
            == old(manager).queues().update(cpu_id as int, Seq::<IPCMessage>::empty()),
        r is Ok ==> forall|i: int|
            0 <= i < old(manager).queues()[cpu_id as int].len() ==> handler.ensures(
                (#[trigger] old(manager).queues()[cpu_id as int][i],),
                (),
            ),
{
    let channel = manager.channel(cpu_id)?;
    let ghost q0 = manager.queues();
    proof {
        manager.lemma_queue_len_bound(cpu_id as int);
        assert(q0[cpu_id as int].subrange(0, q0[cpu_id as int].len() as int) =~= q0[cpu_id as int]);
        assert(q0.update(cpu_id as int, q0[cpu_id as int]) =~= q0);
    }
    let mut processed: usize = 0;
    loop
        invariant
            q0[cpu_id as int].len() <= usize::MAX,
            manager.wf(),
            manager.cpu_count() == q0.len(),
            cpu_id < q0.len(),
            channel.cpu() == cpu_id,
            forall|m: IPCMessage| handler.requires((m,)),
            processed <= q0[cpu_id as int].len(),
            forall|i: int| 0 <= i < processed ==> handler.ensures((#[trigger] q0[cpu_id as int][i],), ()),
            manager.queues() == q0.update(
                cpu_id as int,
                q0[cpu_id as int].subrange(processed as int, q0[cpu_id as int].len() as int),
            ),
        ensures
            processed == q0[cpu_id as int].len(),
            manager.queues() == q0.update(cpu_id as int, Seq::<IPCMessage>::empty()),
            forall|i: int| 0 <= i < processed ==> handler.ensures((#[trigger] q0[cpu_id as int][i],), ()),
        decreases q0[cpu_id as int].len() - processed,
    {
        let ghost before = manager.queues();
        match channel.receive(manager) {
            Some(message) => {
                assert(before[cpu_id as int] == q0[cpu_id as int].subrange(
                    processed as int,
                    q0[cpu_id as int].len() as int,
                ));
                assert(before[cpu_id as int].drop_first() =~= q0[cpu_id as int].subrange(
                    processed + 1,
                    q0[cpu_id as int].len() as int,
                ));
                assert(message == q0[cpu_id as int][processed as int]);
                handler(message);
                processed = processed + 1;
                assert(manager.queues() =~= q0.update(
                    cpu_id as int,
                    q0[cpu_id as int].subrange(processed as int, q0[cpu_id as int].len() as int),
                ));
            },
            None => {
                assert(before[cpu_id as int] =~= Seq::<IPCMessage>::empty());
                assert(manager.queues() =~= q0.update(cpu_id as int, Seq::<IPCMessage>::empty()));
                break;
            },
        }
    }
    Ok(processed)
}

impl IPCManager {
    /// A queue holds at most `usize::MAX` messages.
    pub proof fn lemma_queue_len_bound(&self, i: int)
        requires
            0 <= i < self.queues().len(),
        ensures
            self.queues()[i].len() <= usize::MAX,
    {
        assert(self.queues@[i].messages@.len() == self.queues@[i].messages.len());
    }
}

} // verus!
