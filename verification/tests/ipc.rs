use tanix::ipc::channel::{
    channel_create, channel_recv, channel_send, Channel, ChannelState, ChannelTable, MAX_CHANNELS,
};
use tanix::ipc::message::{sys_receive, sys_send, ReceiveOutcome, SendOutcome};
use tanix::ipc::{EndpointId, Message as ChannelMessage};
use tanix::sched::run::RunQueue;
use tanix::sched::{Message, TaskId, TaskState, M_ANY};

fn parcel(opcode: u32) -> ChannelMessage {
    ChannelMessage { sender: EndpointId(9), opcode, data: [opcode as u8; 64] }
}

#[test]
fn a_deposited_message_is_received() {
    let mut c = Channel::new(EndpointId(1));
    assert!(c.state == ChannelState::Idle);
    assert!(c.try_send(parcel(5)).is_ok());
    assert!(c.state == ChannelState::SendPending);
    let m = c.try_recv(EndpointId(2)).unwrap();
    assert_eq!((m.sender, m.opcode, m.data), (EndpointId(9), 5, [5; 64]));
    assert!(c.state == ChannelState::Idle);
}

#[test]
fn a_pending_message_is_not_overwritten() {
    let mut c = Channel::new(EndpointId(1));
    c.try_send(parcel(5)).unwrap();
    assert!(c.try_send(parcel(6)).is_err());
    assert_eq!(c.try_recv(EndpointId(2)).unwrap().opcode, 5);
}

#[test]
fn a_waiting_receiver_completes_the_rendezvous() {
    let mut c = Channel::new(EndpointId(1));
    assert!(c.try_recv(EndpointId(2)).is_none());
    assert!(c.state == ChannelState::RecvWaiting);
    assert_eq!(c.msg.sender, EndpointId(2));
    assert!(c.try_recv(EndpointId(3)).is_none());
    assert_eq!(c.msg.sender, EndpointId(2));
    assert!(c.try_send(parcel(7)).is_ok());
    assert!(c.state == ChannelState::SendPending);
    assert!(c.try_send(parcel(8)).is_err());
    let m = c.try_recv(EndpointId(2)).unwrap();
    assert_eq!((m.sender, m.opcode, m.data), (EndpointId(9), 7, [7; 64]));
    assert!(c.state == ChannelState::Idle);
    assert!(c.try_recv(EndpointId(2)).is_none());
}

#[test]
fn a_channel_serves_whoever_came_first() {
    let mut t = ChannelTable::new();
    let id = channel_create(&mut t).unwrap();
    assert!(channel_recv(&mut t, id, EndpointId(2)).is_none());
    let sent = ChannelMessage { sender: EndpointId(3), opcode: 7, data: [9; 64] };
    assert!(channel_send(&mut t, id, sent).is_ok());
    let m = channel_recv(&mut t, id, EndpointId(2)).unwrap();
    assert_eq!((m.sender, m.opcode, m.data), (EndpointId(3), 7, [9; 64]));
}

#[test]
fn channels_are_numbered_and_limited() {
    let mut t = ChannelTable::new();
    for i in 0..MAX_CHANNELS {
        assert_eq!(channel_create(&mut t), Some(EndpointId(1 + i as u32)));
    }
    assert_eq!(channel_create(&mut t), None);
    assert!(t.get_mut(EndpointId(16)).is_some());
    assert!(t.get_mut(EndpointId(17)).is_none());
}

#[test]
fn channels_do_not_mix_their_messages() {
    let mut t = ChannelTable::new();
    let a = channel_create(&mut t).unwrap();
    let b = channel_create(&mut t).unwrap();
    assert!(channel_send(&mut t, a, parcel(1)).is_ok());
    assert!(channel_recv(&mut t, b, EndpointId(5)).is_none());
    assert_eq!(channel_recv(&mut t, a, EndpointId(5)).unwrap().opcode, 1);
    assert!(channel_send(&mut t, EndpointId(77), parcel(1)).is_err());
    assert!(channel_recv(&mut t, EndpointId(77), EndpointId(5)).is_none());
}

/// Tasks 1 to `n`, the first of them on CPU 0.
fn queue(n: usize) -> RunQueue {
    let mut q = RunQueue::new();
    for _ in 0..n {
        q.sched.spawn("t", 1, 2, 3).unwrap();
    }
    q.enter(0).unwrap();
    q
}

/// Let the task in `slot` run on CPU 0 instead of the one that does.
fn run(q: &mut RunQueue, slot: usize) {
    let cur = q.cpus.current_idx(0);
    if q.sched.task_at(cur).unwrap().state == TaskState::Running {
        q.sched.set_state(cur, TaskState::Ready);
    }
    q.sched.set_state(slot, TaskState::Running);
    q.cpus.set_current(0, slot);
}

fn state(q: &RunQueue, slot: usize) -> TaskState {
    q.sched.task_at(slot).unwrap().state
}

fn letter(mtype: u32) -> Message {
    let mut m = Message::new(mtype);
    m.data[7] = mtype + 1;
    m
}

#[test]
fn a_send_to_nobody_or_oneself_is_refused() {
    let mut q = queue(2);
    assert!(matches!(sys_send(&mut q, 0, 1, letter(1)), SendOutcome::Refused(-2)));
    assert!(matches!(sys_send(&mut q, 0, 9, letter(1)), SendOutcome::Refused(-3)));
    assert!(state(&q, 1) == TaskState::Running);
}

#[test]
fn a_send_to_a_waiting_receiver_is_delivered() {
    let mut q = queue(2);
    run(&mut q, 2);
    q.sched.task_at_mut(2).unwrap().ttbr0 = 0x5000;
    match sys_receive(&mut q, 0, M_ANY, 0xCAFE0) {
        ReceiveOutcome::Blocked(sw) => assert_eq!((sw.from, sw.to), (2, 1)),
        _ => panic!("nothing was sent yet"),
    }
    match sys_send(&mut q, 0, 2, letter(3)) {
        SendOutcome::Delivered(d, poke) => {
            assert_eq!((d.ttbr0, d.buf), (0x5000, 0xCAFE0));
            assert_eq!((d.msg.src, d.msg.mtype, d.msg.data[7]), (1, 3, 4));
            assert_eq!(poke, [false; 4]);
        }
        _ => panic!("the receiver waits"),
    }
    assert!(state(&q, 2) == TaskState::Ready);
    assert!(!q.sched.task_at(2).unwrap().recv_blocked);
    assert_eq!(q.sched.take_woken(), Some(2));
}

#[test]
fn a_filter_leaves_other_senders_waiting() {
    let mut q = queue(3);
    run(&mut q, 3);
    assert!(matches!(sys_receive(&mut q, 0, 2, 0x100), ReceiveOutcome::Blocked(_)));
    run(&mut q, 1);
    assert!(matches!(sys_send(&mut q, 0, 3, letter(1)), SendOutcome::Blocked(_)));
    assert!(state(&q, 1) == TaskState::Blocked);
    assert!(state(&q, 3) == TaskState::Blocked);
    run(&mut q, 2);
    assert!(matches!(sys_send(&mut q, 0, 3, letter(2)), SendOutcome::Delivered(_, _)));
}

#[test]
fn what_was_sent_is_what_is_received() {
    let mut q = queue(2);
    match sys_send(&mut q, 0, 2, letter(40)) {
        SendOutcome::Blocked(sw) => assert_eq!((sw.from, sw.to), (1, 2)),
        _ => panic!("nobody waits"),
    }
    match sys_receive(&mut q, 0, 1, 0x100) {
        ReceiveOutcome::Received(m, _) => {
            assert_eq!((m.src, m.mtype, m.data[7], m.data[0]), (1, 40, 41, 0));
        }
        _ => panic!("a message is pending"),
    }
    assert!(state(&q, 1) == TaskState::Ready);
    assert_eq!(q.sched.take_woken(), Some(1));
    assert!(matches!(sys_receive(&mut q, 0, M_ANY, 0x100), ReceiveOutcome::Blocked(_)));
}

#[test]
fn a_full_queue_drops_no_message() {
    let mut q = queue(4);
    for slot in 1..4 {
        run(&mut q, slot);
        assert!(matches!(sys_send(&mut q, 0, 4, letter(slot as u32)), SendOutcome::Blocked(_)));
    }
    assert!(q.sched.task_at(3).unwrap().send_full_wait.is_some());
    run(&mut q, 4);
    let mut seen = Vec::new();
    for _ in 0..3 {
        match sys_receive(&mut q, 0, M_ANY, 0x100) {
            ReceiveOutcome::Received(m, _) => seen.push((m.src, m.mtype)),
            _ => panic!("a message is waiting"),
        }
    }
    assert_eq!(seen, vec![(1, 1), (2, 2), (3, 3)]);
    for slot in 1..4 {
        assert!(state(&q, slot) == TaskState::Ready);
    }
    assert!(q.sched.task_at(3).unwrap().send_full_wait.is_none());
}

#[test]
fn a_staged_message_is_found_by_its_sender() {
    let mut q = queue(4);
    for slot in 1..4 {
        run(&mut q, slot);
        sys_send(&mut q, 0, 4, letter(slot as u32));
    }
    run(&mut q, 4);
    match sys_receive(&mut q, 0, 3, 0x100) {
        ReceiveOutcome::Received(m, _) => assert_eq!((m.src, m.mtype), (3, 3)),
        _ => panic!("a message is staged"),
    }
    assert!(state(&q, 1) == TaskState::Blocked);
}

#[test]
fn a_zombie_is_not_revived_by_a_receive() {
    let mut q = queue(2);
    sys_send(&mut q, 0, 2, letter(1));
    q.kill_task(0, TaskId(1));
    match sys_receive(&mut q, 0, M_ANY, 0x100) {
        ReceiveOutcome::Received(m, _) => assert_eq!(m.src, 1),
        _ => panic!("a message is pending"),
    }
    assert!(state(&q, 1) == TaskState::Zombie);
    assert_eq!(q.sched.take_woken(), None);
}
