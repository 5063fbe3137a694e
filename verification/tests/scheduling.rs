use tanix::sched::run::{Kill, RunQueue};
use tanix::sched::task::{Context, RegionKind, Scheduler, Task, IDLE_SLOT_BASE, MAX_TASKS};
use tanix::sched::{BootInfo, Message, TaskId, TaskState, PRIO_IDLE, PRIO_NORMAL};
use tanix::smp::{bring_up, cpu_index, idle_slot, mpidr_for, released, Cpus, MAX_CPUS};

/// A queue with `n` tasks in the slots behind the boot context.
fn queue(n: usize) -> RunQueue {
    let mut q = RunQueue::new();
    for i in 0..n {
        q.sched.spawn("task", 0x1000 + i as u64, 0x8000, 0x4000_0000).unwrap();
    }
    q
}

fn state(q: &RunQueue, slot: usize) -> TaskState {
    q.sched.task_at(slot).unwrap().state
}

#[test]
fn a_cpu_is_found_by_its_mpidr() {
    for cpu in 0..MAX_CPUS {
        assert_eq!(cpu_index(0x8000_0000 | mpidr_for(cpu)), cpu);
    }
    assert_eq!(idle_slot(0), 0);
    assert_eq!(idle_slot(1), IDLE_SLOT_BASE);
    assert_eq!(idle_slot(3), IDLE_SLOT_BASE + 2);
}

#[test]
fn only_cpus_that_power_on_are_online() {
    assert!(!Cpus::new().is_online(0));
    let mut q = RunQueue::new();
    let calls = bring_up(&mut q, 0x4008_0000);
    assert_eq!(calls.len(), 3);
    assert_eq!(calls[0], [0xC400_0003, 1, 0x4008_0000, 0]);
    assert_eq!(calls[2], [0xC400_0003, 3, 0x4008_0000, 0]);
    for cpu in 1..MAX_CPUS {
        let t = q.sched.task_at(idle_slot(cpu)).unwrap();
        assert_eq!(t.name_str(), format!("idle-cpu{}", cpu));
    }
    let mut c = q.cpus;
    assert!(c.is_online(0) && !c.is_online(1));
    assert_eq!(released(&mut c, 1, 0), 0);
    assert_eq!(released(&mut c, 2, 0xFFFF_FFFF_FFFF_FFFE), -2);
    assert_eq!(released(&mut c, 3, 0), 0);
    assert!(c.is_online(0) && c.is_online(1) && !c.is_online(2) && c.is_online(3));
    c.set_current(1, 7);
    assert_eq!(c.current_idx(1), 7);
    assert_eq!(c.current_cpu(1).current, 7);
    assert_eq!(c.current_idx(0), 0);
    c.set_online(2);
    assert!(c.is_online(2));
}

#[test]
fn a_context_starts_at_its_entry() {
    let k = Context::with_boot(0x1000, 0x8000, 0x4000_0000, 0x7000);
    assert_eq!((k.lr, k.sp, k.ttbr0, k.x19_to_x28[0], k.spsr), (0x1000, 0x8000, 0x4000_0000, 0x7000, 0x3C5));
    assert_eq!(Context::new(0x1000, 0x8000, 0x4000_0000).x19_to_x28, [0; 10]);
    let u = Context::new_user(0x1000, 0x6000, 0x5000, 0x8000, 0x7000);
    assert_eq!((u.lr, u.sp_el0, u.ttbr0, u.sp, u.x19_to_x28[0], u.spsr), (0x1000, 0x6000, 0x5000, 0x8000, 0x7000, 0));
    let z = Context::zeroed();
    assert_eq!((z.lr, z.sp, z.spsr, z.ttbr0), (0, 0, 0, 0));
}

#[test]
fn names_keep_sixteen_bytes() {
    let t = Task::new(TaskId(3), "a-rather-long-name", 0, 0, 0);
    assert_eq!(t.name_str(), "a-rather-long-na");
    assert_eq!(Task::idle().name_str(), "idle");
    let mut broken = Task::idle();
    broken.name[0] = 0xFF;
    assert_eq!(broken.name_str(), "?");
}

#[test]
fn ids_are_given_out_in_order() {
    let mut s = Scheduler::new();
    assert_eq!(s.spawn("a", 1, 2, 3), Some(TaskId(1)));
    assert_eq!(s.spawn("b", 1, 2, 3), Some(TaskId(2)));
    assert_eq!(s.task_idx(TaskId(2)), Some(2));
    assert_eq!(s.task_idx(TaskId(9)), None);
    assert_eq!(s.task_name(TaskId(2)), Some("b"));
    assert_eq!(s.task_name(TaskId(9)), None);
    assert!(s.task_by_id(TaskId(1)).is_some());
    assert_eq!(s.task_slots().len(), MAX_TASKS);
    let t = s.task_at(1).unwrap();
    assert!(t.state == TaskState::Ready);
    assert_eq!((t.priority, t.cpu_affinity, t.ttbr0), (PRIO_NORMAL, None, 0));
}

#[test]
fn idle_slots_are_reserved() {
    let mut s = Scheduler::new();
    let mut n = 0;
    while s.spawn("t", 1, 2, 3).is_some() {
        n += 1;
    }
    assert_eq!(n, MAX_TASKS - MAX_CPUS);
    for cpu in 1..MAX_CPUS {
        assert!(s.task_at(idle_slot(cpu)).is_none());
        assert_eq!(s.add_idle(cpu), idle_slot(cpu));
        let t = s.task_at(idle_slot(cpu)).unwrap();
        assert_eq!(t.name_str(), format!("idle-cpu{}", cpu));
        assert_eq!(t.id, TaskId(0x4000_0000 + cpu as u32));
        assert_eq!((t.priority, t.cpu_affinity), (PRIO_IDLE, Some(cpu)));
    }
    assert_eq!(s.spawn("t", 1, 2, 3), None);
}

#[test]
fn an_el0_task_is_recorded_as_woken() {
    let mut s = Scheduler::new();
    let boot = BootInfo { task_id: 99, machine: 1 };
    let id = s.spawn_user("pm", 0x100, 0x5000, 0x6000, 0x8000, 0x7000, boot).unwrap();
    let t = s.task_by_id(id).unwrap();
    assert_eq!((t.ttbr0, t.boot.task_id, t.boot.machine), (0x5000, id.0, 1));
    assert_eq!(s.take_woken(), Some(1));
    assert_eq!(s.take_woken(), None);
    s.set_woken(5);
    assert_eq!(s.take_woken(), Some(5));
    let id = s.spawn_with_boot("k", 0x100, 0x8000, 0x4000, boot, 0x7000).unwrap();
    assert_eq!(s.task_by_id(id).unwrap().boot.task_id, id.0);
    assert_eq!(s.current_ttbr0(1), 0x5000);
    assert_eq!(s.current_name(2), "k");
    assert_eq!(s.current_name(9), "?");
    assert_eq!(s.current_id(9), TaskId(0));
    assert_eq!(s.ctx_ptr(2).unwrap().x19_to_x28[0], 0x7000);
}

#[test]
fn the_highest_priority_is_picked() {
    let mut q = queue(3);
    q.sched.set_priority(TaskId(2), 32);
    q.sched.set_priority(TaskId(77), 1);
    assert_eq!(q.sched.pick_next(0, 0), 2);
    assert_eq!(q.sched.priority_and_name(2), Some((32, "task")));
    q.sched.set_state(2, TaskState::Blocked);
    assert_eq!(q.sched.pick_next(0, 0), 1);
    assert_eq!(q.sched.pick_next(0, 1), 3);
    assert_eq!(q.sched.pick_next(0, 3), 1);
}

#[test]
fn affinity_keeps_a_task_on_its_cpu() {
    let mut q = queue(1);
    q.sched.task_at_mut(1).unwrap().cpu_affinity = Some(2);
    assert_eq!(q.sched.pick_next(0, 0), 0);
    assert_eq!(q.sched.pick_next(2, 0), 1);
    assert_eq!(q.sched.pick_next(1, 0), idle_slot(1));
}

#[test]
fn the_idle_slot_is_the_last_resort() {
    let mut q = queue(2);
    q.sched.add_idle(1);
    q.sched.set_state(idle_slot(1), TaskState::Ready);
    q.sched.set_priority(TaskId(1), 255);
    q.sched.set_state(2, TaskState::Blocked);
    assert_eq!(q.sched.pick_next(1, idle_slot(1)), 1);
    assert_eq!(q.sched.pick_next(1, 15), 1);
    assert_eq!(q.sched.pick_next_rr(1, 15, 15), 1);
    assert_eq!(q.sched.pick_next_rr(1, 1, 1), idle_slot(1));
    q.cpus.set_current(1, 1);
    q.sched.set_state(1, TaskState::Running);
    assert!(q.tick_preempt(1, 0, true).0.is_none());
    assert!(state(&q, 1) == TaskState::Running);
}

#[test]
fn every_task_gets_its_turn() {
    let mut q = queue(3);
    q.sched.set_priority(TaskId(1), 0);
    assert!(q.enter(0).is_some());
    let mut seen = Vec::new();
    for _ in 0..6 {
        seen.push(q.cpus.current_idx(0));
        q.tick_preempt(0, 0, true);
    }
    assert_eq!(seen, vec![1, 2, 3, 1, 2, 3]);
}

#[test]
fn entering_with_nothing_to_run_returns() {
    let mut q = queue(0);
    assert!(q.enter(0).is_none());
    assert_eq!(q.cpus.current_idx(0), 0);
}

#[test]
fn a_tick_in_the_kernel_does_not_preempt() {
    let mut q = queue(2);
    q.enter(0);
    let (sw, poke) = q.tick_preempt(0, 0, false);
    assert!(sw.is_none());
    assert_eq!(poke, [false; 4]);
    assert_eq!(q.cpus.current_idx(0), 1);
}

#[test]
fn a_sleeper_wakes_at_its_deadline() {
    let mut q = queue(2);
    q.sched.set_state(1, TaskState::Blocked);
    q.sched.task_at_mut(1).unwrap().sleep_deadline = 10;
    assert!(!q.wake_sleepers(9));
    assert!(state(&q, 1) == TaskState::Blocked);
    assert!(q.wake_sleepers(10));
    assert!(state(&q, 1) == TaskState::Ready);
    assert_eq!(q.sched.task_at(1).unwrap().sleep_deadline, 0);
}

#[test]
fn a_zombie_never_wakes() {
    let mut q = queue(1);
    q.sched.set_state(1, TaskState::Zombie);
    q.sched.task_at_mut(1).unwrap().sleep_deadline = 10;
    assert!(!q.wake_sleepers(20));
    assert!(state(&q, 1) == TaskState::Zombie);
    assert_eq!(q.sched.pick_next(0, 0), 0);
}

#[test]
fn a_tick_hands_an_idle_cpu_to_a_woken_sleeper() {
    let mut q = queue(1);
    q.sched.add_idle(1);
    q.cpus.set_online(0);
    q.cpus.set_online(1);
    q.cpus.set_current(1, idle_slot(1));
    q.sched.set_state(1, TaskState::Blocked);
    q.sched.task_at_mut(1).unwrap().sleep_deadline = 5;
    assert!(q.tick_preempt(0, 4, false).0.is_none());
    let (sw, poke) = q.tick_preempt(0, 5, false);
    let sw = sw.unwrap();
    assert_eq!((sw.from, sw.to), (0, 1));
    assert_eq!(poke, [false, true, false, false]);
    assert!(state(&q, 1) == TaskState::Running);
}

#[test]
fn a_tick_leaves_a_zombie() {
    let mut q = queue(2);
    q.enter(0);
    q.sched.set_state(1, TaskState::Zombie);
    let sw = q.tick_preempt(0, 0, false).0.unwrap();
    assert_eq!((sw.from, sw.to), (1, 2));
    assert!(state(&q, 1) == TaskState::Zombie);
    q.sched.set_state(2, TaskState::Zombie);
    let sw = q.tick_preempt(0, 0, true).0.unwrap();
    assert_eq!((sw.from, sw.to), (2, 0));
    assert!(q.tick_preempt(0, 0, true).0.is_none());
}

#[test]
fn only_a_strictly_higher_priority_preempts_a_yield() {
    let mut q = queue(2);
    q.enter(0);
    assert!(q.yield_cpu(0).is_none());
    q.sched.set_priority(TaskId(2), 127);
    let sw = q.yield_cpu(0).unwrap();
    assert_eq!((sw.from, sw.to), (1, 2));
    assert!(state(&q, 1) == TaskState::Ready && state(&q, 2) == TaskState::Running);
    assert!(q.switch_best(0, true).is_none());
    assert!(q.switch_best(0, false).is_some());
}

#[test]
fn a_woken_task_of_higher_priority_runs_at_once() {
    let mut q = queue(2);
    q.enter(0);
    q.sched.set_woken(2);
    assert!(q.reschedule(0).is_none());
    q.sched.set_priority(TaskId(2), 1);
    assert!(q.reschedule(0).is_none());
    q.sched.set_woken(2);
    let sw = q.reschedule(0).unwrap();
    assert_eq!((sw.from, sw.to), (1, 2));
    assert_eq!(q.cpus.current_idx(0), 2);
}

#[test]
fn a_task_that_exits_never_runs_again() {
    let mut q = queue(2);
    q.enter(0);
    let sw = q.exit_current(0);
    assert_eq!((sw.from, sw.to), (1, 2));
    assert!(state(&q, 1) == TaskState::Zombie);
    let sw = q.kill_faulting_task(0);
    assert_eq!((sw.from, sw.to), (2, 0));
    assert!(state(&q, 2) == TaskState::Zombie);
    assert!(q.schedule(0).is_none());
}

#[test]
fn a_round_of_the_scheduler_hands_over() {
    let mut q = queue(2);
    q.enter(0);
    let sw = q.schedule(0).unwrap();
    assert_eq!((sw.from, sw.to), (1, 2));
    assert!(state(&q, 1) == TaskState::Ready);
    q.sched.set_state(1, TaskState::Blocked);
    q.sched.set_state(2, TaskState::Blocked);
    let sw = q.switch_away(0);
    assert_eq!((sw.from, sw.to), (2, 0));
}

#[test]
fn a_secondary_leaves_its_idle_slot_for_work() {
    let mut q = queue(1);
    q.sched.add_idle(2);
    q.cpus.set_current(2, idle_slot(2));
    let sw = q.secondary_enter(2).unwrap();
    assert_eq!((sw.from, sw.to), (idle_slot(2), 1));
    assert!(state(&q, idle_slot(2)) == TaskState::Ready);
    q.sched.set_state(1, TaskState::Blocked);
    q.switch_away(2);
    assert_eq!(q.cpus.current_idx(2), idle_slot(2));
    assert!(q.secondary_enter(2).is_none());
}

#[test]
fn a_kill_gives_up_the_tables_of_another() {
    let mut q = queue(2);
    q.enter(0);
    q.sched.task_at_mut(1).unwrap().ttbr0 = 0x5000;
    q.sched.task_at_mut(2).unwrap().ttbr0 = 0x6000;
    assert!(matches!(q.kill_task(0, TaskId(7)), Kill::NoSuchTask));
    assert!(matches!(q.kill_task(0, TaskId(2)), Kill::KilledFree(0x6000)));
    assert_eq!(q.sched.task_at(2).unwrap().ttbr0, 0);
    assert!(matches!(q.kill_task(0, TaskId(1)), Kill::Killed));
    assert_eq!(q.sched.task_at(1).unwrap().ttbr0, 0x5000);
    assert!(state(&q, 1) == TaskState::Zombie && state(&q, 2) == TaskState::Zombie);
}

#[test]
fn pokes_reach_the_parked_and_the_others() {
    let mut q = queue(0);
    bring_up(&mut q, 0);
    released(&mut q.cpus, 1, 0);
    released(&mut q.cpus, 2, 0);
    released(&mut q.cpus, 3, 0xFFFF_FFFE);
    q.sched.set_state(idle_slot(2), TaskState::Ready);
    assert_eq!(q.poke_idle_secondaries(), [false, true, false, false]);
    assert_eq!(q.poke_other_cpus(0), [false, true, true, false]);
    assert_eq!(q.poke_other_cpus(1), [true, false, true, false]);
}

#[test]
fn windows_are_registered_while_there_is_room() {
    let mut s = Scheduler::new();
    let id = s.spawn("t", 1, 2, 3).unwrap();
    for i in 0..4 {
        assert!(s.push_region_for(id, RegionKind::Demand, 0x1000 * i, 1));
    }
    assert!(!s.push_region_for(id, RegionKind::Stack, 0x9000, 1));
    assert!(!s.push_region_for(TaskId(9), RegionKind::Stack, 0x9000, 1));
    let t = s.task_by_id_mut(id).unwrap();
    assert_eq!(t.regions[3].unwrap().base, 0x3000);
}

#[test]
fn a_live_task_is_found_by_name() {
    let mut s = Scheduler::new();
    s.spawn("pm", 1, 2, 3);
    s.spawn("pm", 1, 2, 3);
    assert_eq!(s.live_by_name("pm"), Some((1, TaskId(1))));
    s.set_state(1, TaskState::Zombie);
    assert_eq!(s.live_by_name("pm"), Some((2, TaskId(2))));
    assert_eq!(s.live_by_name("p"), None);
}

#[test]
fn a_new_message_is_empty() {
    let m = Message::new(7);
    assert_eq!((m.src, m.mtype, m.data), (0, 7, [0; 8]));
}

/// No two CPUs run the same task, and each runs a live one.
fn assert_exclusive(q: &RunQueue) {
    for a in 0..MAX_CPUS {
        let slot = q.cpus.current_idx(a);
        assert!(state(q, slot) != TaskState::Blocked);
        for b in 0..a {
            assert_ne!(slot, q.cpus.current_idx(b));
        }
    }
}

#[test]
fn no_two_cpus_run_one_task() {
    let mut q = queue(6);
    bring_up(&mut q, 0x4008_0000);
    for cpu in 1..MAX_CPUS {
        released(&mut q.cpus, cpu, 0);
        q.secondary_enter(cpu);
    }
    assert!(q.enter(0).is_some());
    for now in 0..40 {
        let cpu = now % MAX_CPUS;
        q.tick_preempt(cpu, now as u64, now % 3 != 0);
        assert_exclusive(&q);
        if now == 11 {
            let victim = q.sched.current_id(q.cpus.current_idx(2));
            q.kill_task(1, victim);
        }
        if now == 17 {
            q.exit_current(3);
            assert_exclusive(&q);
        }
        if now == 23 {
            q.kill_faulting_task(1);
            assert_exclusive(&q);
        }
        q.yield_cpu(cpu);
        assert_exclusive(&q);
    }
    let alive = (1..7).filter(|&s| state(&q, s) != TaskState::Zombie).count();
    assert_eq!(alive, 3);
}
