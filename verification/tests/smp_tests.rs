use kernel::smp::affinity::{CpuAffinity, CpuSet};
use kernel::smp::{init, process_messages as process_pending};
use kernel::smp::ipc::{process_messages, IPCManager, IPCMessage};
use kernel::smp::scheduler::{Priority, SmpScheduler, Task, TaskId};
use kernel::smp::SmpManager;
use std::cell::RefCell;

#[test]
fn cpu_set_membership() {
    let mut set = CpuSet::new(4);
    assert!(set.is_empty());
    assert_eq!(set.num_cpus(), 4);
    assert_eq!(set.add(0), Ok(()));
    assert_eq!(set.add(2), Ok(()));
    assert_eq!(set.add(4), Err("CPU ID out of range"));
    assert!(set.contains(0));
    assert!(!set.contains(1));
    assert!(set.contains(2));
    assert!(!set.contains(7));
    assert_eq!(set.count(), 2);
    assert_eq!(set.cpus(), vec![0, 2]);
    assert_eq!(set.first(), Some(0));
    assert_eq!(set.remove(0), Ok(()));
    assert!(!set.contains(0));
    assert_eq!(set.first(), Some(2));
    assert_eq!(set.remove(9), Err("CPU ID out of range"));
    set.clear();
    assert!(set.is_empty());
    assert_eq!(set.first(), None);
    assert_eq!(set.num_cpus(), 4);
}

#[test]
fn cpu_set_all_and_single() {
    let all = CpuSet::all(3);
    assert_eq!(all.cpus(), vec![0, 1, 2]);
    assert_eq!(all.count(), 3);
    let one = CpuSet::single(4, 3).unwrap();
    assert_eq!(one.cpus(), vec![3]);
    assert_eq!(CpuSet::single(4, 4).err(), Some("CPU ID out of range"));
    assert!(CpuSet::new(0).is_empty());
}

#[test]
fn cpu_set_text() {
    let mut set = CpuSet::new(16);
    assert_eq!(set.to_string(), "{}");
    set.add(0).unwrap();
    set.add(1).unwrap();
    assert_eq!(set.to_string(), "{0, 1}");
    set.add(12).unwrap();
    assert_eq!(set.to_string(), "{0, 1, 12}");
}

#[test]
fn affinity_feature_example() {
    let mut cpu_set = CpuSet::new(4);
    cpu_set.add(0).unwrap();
    cpu_set.add(1).unwrap();
    let mut affinity = CpuAffinity::custom(cpu_set);
    assert_eq!(affinity.to_string(), "allowed={0, 1}, preferred=0");
    affinity.set_preferred_cpu(1).unwrap();
    assert_eq!(affinity.to_string(), "allowed={0, 1}, preferred=1");
    affinity.set_preferred_cpu(0).unwrap();
    assert_eq!(affinity.to_string(), "allowed={0, 1}, preferred=0");
    assert!(affinity.is_allowed(0));
    assert!(!affinity.is_allowed(2));
    assert_eq!(affinity.select_cpu(), Some(0));
}

#[test]
fn affinity_selection() {
    let any = CpuAffinity::any(4);
    assert_eq!(any.select_cpu(), Some(0));
    assert_eq!(any.preferred_cpu(), None);
    let single = CpuAffinity::single(4, 2).unwrap();
    assert_eq!(single.select_cpu(), Some(2));
    assert_eq!(single.preferred_cpu(), Some(2));
    assert_eq!(single.allowed_cpus().cpus(), vec![2]);
    assert_eq!(CpuAffinity::single(4, 4).err(), Some("CPU ID out of range"));
    let mut a = CpuAffinity::any(2);
    assert_eq!(a.set_preferred_cpu(5), Err("CPU not in allowed set"));
    assert_eq!(a.preferred_cpu(), None);
    let none = CpuAffinity::custom(CpuSet::new(4));
    assert_eq!(none.select_cpu(), None);
    assert_eq!(none.to_string(), "allowed={}");
}

#[test]
fn task_builders() {
    let task = Task::new(TaskId::new(1), 4).with_priority(Priority::High).with_affinity(CpuAffinity::any(4));
    assert_eq!(task.id, TaskId::new(1));
    assert_eq!(task.id.as_u64(), 1);
    assert_eq!(task.priority, Priority::High);
    assert_eq!(task.current_cpu, None);
    assert_eq!(Task::new(TaskId::new(2), 4).priority, Priority::Normal);
    assert!(Priority::Idle < Priority::Realtime);
}

#[test]
fn schedule_picks_the_least_loaded_allowed_cpu() {
    let mut sched = SmpScheduler::new(3);
    sched.schedule(Task::new(TaskId::new(1), 3)).unwrap();
    assert_eq!(sched.queue_length(0), 1);
    sched.schedule(Task::new(TaskId::new(2), 3)).unwrap();
    assert_eq!(sched.queue_length(1), 1);
    sched.schedule(Task::new(TaskId::new(3), 3)).unwrap();
    assert_eq!(sched.queue_length(2), 1);
    sched.schedule(Task::new(TaskId::new(4), 3)).unwrap();
    assert_eq!(sched.queue_length(0), 2);
    assert_eq!(sched.total_tasks(), 4);
    assert_eq!(sched.queue_length(7), 0);
}

#[test]
fn schedule_uses_the_preferred_cpu() {
    let mut sched = SmpScheduler::new(4);
    let task = Task::new(TaskId::new(9), 4).with_affinity(CpuAffinity::single(4, 3).unwrap());
    sched.schedule(task).unwrap();
    assert_eq!(sched.queue_length(3), 1);
    let t = sched.next_task(3).unwrap();
    assert_eq!(t.id, TaskId::new(9));
    assert_eq!(t.current_cpu, Some(3));
}

#[test]
fn schedule_without_allowed_cpus_fails() {
    let mut sched = SmpScheduler::new(2);
    let task = Task::new(TaskId::new(1), 2).with_affinity(CpuAffinity::custom(CpuSet::new(2)));
    assert_eq!(sched.schedule(task), Err("No allowed CPUs"));
    assert_eq!(sched.total_tasks(), 0);
}

#[test]
fn next_task_prefers_local_then_global() {
    let mut sched = SmpScheduler::new(2);
    sched.schedule_global(Task::new(TaskId::new(10), 2)).unwrap();
    sched.migrate_task(Task::new(TaskId::new(11), 2), 0).unwrap();
    assert_eq!(sched.next_task(0).unwrap().id, TaskId::new(11));
    assert_eq!(sched.next_task(0).unwrap().id, TaskId::new(10));
    assert!(sched.next_task(0).is_none());
    assert!(sched.next_task(5).is_none());
}

#[test]
fn global_task_not_allowed_goes_back() {
    let mut sched = SmpScheduler::new(2);
    let pinned = Task::new(TaskId::new(5), 2).with_affinity(CpuAffinity::single(2, 1).unwrap());
    sched.schedule_global(pinned).unwrap();
    assert!(sched.next_task(0).is_none());
    assert_eq!(sched.total_tasks(), 1);
    assert_eq!(sched.next_task(1).unwrap().id, TaskId::new(5));
}

#[test]
fn idle_cpu_steals_from_the_busiest() {
    let mut sched = SmpScheduler::new(3);
    sched.migrate_task(Task::new(TaskId::new(1), 3), 1).unwrap();
    sched.migrate_task(Task::new(TaskId::new(2), 3), 2).unwrap();
    sched.migrate_task(Task::new(TaskId::new(3), 3), 2).unwrap();
    let stolen = sched.next_task(0).unwrap();
    assert_eq!(stolen.id, TaskId::new(2));
    assert_eq!(sched.queue_length(2), 1);
    assert_eq!(sched.queue_length(1), 1);
}

#[test]
fn migrate_errors() {
    let mut sched = SmpScheduler::new(2);
    assert_eq!(sched.migrate_task(Task::new(TaskId::new(1), 2), 2), Err("Invalid target CPU"));
    let pinned = Task::new(TaskId::new(2), 2).with_affinity(CpuAffinity::single(2, 0).unwrap());
    assert_eq!(sched.migrate_task(pinned, 1), Err("Target CPU not allowed by affinity"));
    assert_eq!(sched.total_tasks(), 0);
}

#[test]
fn balance_load_keeps_every_task() {
    let mut sched = SmpScheduler::new(4);
    for i in 0..8 {
        sched.migrate_task(Task::new(TaskId::new(i), 4), 0).unwrap();
    }
    sched.schedule_global(Task::new(TaskId::new(100), 4)).unwrap();
    sched.balance_load();
    assert_eq!(sched.total_tasks(), 9);
    // the average is 9 / 4 = 2: CPU 0 hands tasks to the least loaded CPUs
    // until it holds 2
    let lengths: Vec<usize> = (0..4).map(|c| sched.queue_length(c)).collect();
    assert_eq!(lengths, vec![2, 2, 2, 2]);
    // the tasks kept their order on CPU 0 and the moved ones record their CPU
    assert_eq!(sched.next_task(0).unwrap().id, TaskId::new(6));
    let moved = sched.next_task(1).unwrap();
    assert_eq!(moved.id, TaskId::new(0));
    assert_eq!(moved.current_cpu, Some(1));
}

#[test]
fn ipc_is_first_in_first_out() {
    let mut ipc = IPCManager::new(2);
    assert!(!ipc.has_pending(1));
    ipc.send(1, IPCMessage::WakeUp).unwrap();
    ipc.send(1, IPCMessage::ScheduleTask { task_id: 7 }).unwrap();
    assert!(ipc.has_pending(1));
    assert_eq!(ipc.receive(1), Ok(Some(IPCMessage::WakeUp)));
    assert_eq!(ipc.receive(1), Ok(Some(IPCMessage::ScheduleTask { task_id: 7 })));
    assert_eq!(ipc.receive(1), Ok(None));
    assert_eq!(ipc.send(2, IPCMessage::TlbFlush), Err("Invalid CPU ID"));
    assert_eq!(ipc.receive(2), Err("Invalid CPU ID"));
    assert!(!ipc.has_pending(2));
}

#[test]
fn ipc_broadcast_skips_the_sender() {
    let mut ipc = IPCManager::new(3);
    assert_eq!(ipc.broadcast(1, IPCMessage::TlbFlush), Ok(()));
    assert!(ipc.has_pending(0));
    assert!(!ipc.has_pending(1));
    assert!(ipc.has_pending(2));
}

#[test]
fn ipc_channel_handle() {
    let mut ipc = IPCManager::new(2);
    let ch = ipc.channel(1).unwrap();
    assert_eq!(ch.cpu_id(), 1);
    assert!(!ch.has_messages(&ipc));
    ch.send(&mut ipc, IPCMessage::CacheInvalidate).unwrap();
    ch.send(&mut ipc, IPCMessage::Custom { message_type: 3, data: 42 }).unwrap();
    assert_eq!(ch.pending_count(&ipc), 2);
    assert_eq!(ch.peek(&ipc), Some(IPCMessage::CacheInvalidate));
    assert_eq!(ch.receive(&mut ipc), Some(IPCMessage::CacheInvalidate));
    assert_eq!(ch.receive(&mut ipc), Some(IPCMessage::Custom { message_type: 3, data: 42 }));
    assert_eq!(ch.receive(&mut ipc), None);
    assert!(ipc.channel(2).is_err());
}

#[test]
fn process_messages_drains_in_order() {
    let mut ipc = IPCManager::new(1);
    ipc.send(0, IPCMessage::TlbFlush).unwrap();
    ipc.send(0, IPCMessage::ScheduleTask { task_id: 4 }).unwrap();
    let seen = RefCell::new(Vec::new());
    let n = process_messages(&mut ipc, 0, |m| seen.borrow_mut().push(m)).unwrap();
    assert_eq!(n, 2);
    assert_eq!(seen.into_inner(), vec![IPCMessage::TlbFlush, IPCMessage::ScheduleTask { task_id: 4 }]);
    assert!(!ipc.has_pending(0));
    assert_eq!(process_messages(&mut ipc, 1, |_| {}), Err("Invalid CPU ID"));
}

#[test]
fn manager_sends_and_broadcasts() {
    let mut manager = SmpManager::new(4);
    assert_eq!(manager.num_cpus(), 4);
    assert_eq!(manager.send_ipi(1, IPCMessage::WakeUp), Ok(()));
    assert_eq!(manager.send_ipi(4, IPCMessage::WakeUp), Err("Invalid CPU ID"));
    assert_eq!(manager.broadcast_ipi(0, IPCMessage::TlbFlush), Ok(()));
    assert!(!manager.ipc().has_pending(0));
    assert!(manager.ipc().has_pending(3));
    assert_eq!(manager.ipc_mut().receive(1), Ok(Some(IPCMessage::WakeUp)));
    assert_eq!(manager.ipc_mut().receive(1), Ok(Some(IPCMessage::TlbFlush)));
    manager.scheduler_mut().schedule(Task::new(TaskId::new(1), 4)).unwrap();
    assert_eq!(manager.scheduler().total_tasks(), 1);
}

#[test]
fn smp_init_twice_fails() {
    let mut slot: Option<SmpManager> = None;
    assert_eq!(init(&mut slot, 2), Ok(()));
    assert_eq!(slot.as_ref().unwrap().num_cpus(), 2);
    assert_eq!(init(&mut slot, 4), Err("SMP already initialized"));
    assert_eq!(slot.as_ref().unwrap().num_cpus(), 2);
}

#[test]
fn processing_needs_an_initialized_manager() {
    let mut slot: Option<SmpManager> = None;
    assert_eq!(process_pending(&mut slot, 0, |_| {}), Err("SMP not initialized"));
    init(&mut slot, 2).unwrap();
    slot.as_mut().unwrap().send_ipi(1, IPCMessage::WakeUp).unwrap();
    let seen = RefCell::new(Vec::new());
    assert_eq!(process_pending(&mut slot, 1, |m| seen.borrow_mut().push(m)), Ok(1));
    assert_eq!(seen.into_inner(), vec![IPCMessage::WakeUp]);
    assert_eq!(process_pending(&mut slot, 2, |_| {}), Err("Invalid CPU ID"));
}

#[test]
fn balance_leaves_undrained_tasks_alone() {
    let mut sched = SmpScheduler::new(2);
    // allowed on CPUs the scheduler does not have: it could not be placed,
    // but CPU 0 is not drained
    sched.migrate_task(Task::new(TaskId::new(1), 8), 0).unwrap();
    sched.balance_load();
    assert_eq!(sched.queue_length(0), 1);
    assert_eq!(sched.total_tasks(), 1);
}

#[test]
fn affinity_clone_keeps_sets_and_preference() {
    let a = CpuAffinity::single(4, 2).unwrap();
    let b = a.clone();
    assert_eq!(b.preferred_cpu(), Some(2));
    assert_eq!(b.allowed_cpus().cpus(), vec![2]);
    assert_eq!(b.to_string(), a.to_string());
}
