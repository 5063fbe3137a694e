//! The boot of the kernel: what is done in which order, and the choices on the way.

use vstd::prelude::*;
use crate::arch::aarch64::efi::EfiHandoff;
use crate::arch::aarch64::fdt::MemoryRegion;
use crate::arch::aarch64::machine::{Machine, MACHINE_SBSA_REF};
use crate::bytes::{le32, le32_bytes, le64, le64_bytes, put};
use crate::mem::ram::Ram;
use crate::mem::PhysAddr;

verus! {

/// The device tree to be used: that of the firmware, if it started the kernel.
pub fn boot_dtb(efi: &EfiHandoff, dtb: u64) -> (r: u64)
    ensures
        r == if efi.booted_from_efi {
            efi.dtb
        } else {
            dtb
        },
{
    if efi.booted_from_efi {
        efi.dtb
    } else {
        dtb
    }
}

/// The memory window, base and size: that of the device tree, else that of the machine.
pub fn ram_window(m: &Machine, dt: Option<MemoryRegion>) -> (r: (u64, u64))
    ensures
        r == match dt {
            Some(d) => (d.base, d.size),
            None => (m.dram_base, m.dram_size),
        },
{
    match dt {
        Some(d) => (d.base, d.size),
        None => (m.dram_base, m.dram_size),
    }
}

/// Servers that the kernel starts itself.
#[derive(Debug, Clone, Copy, PartialEq, Eq, Structural)]
pub enum Server {
    Init,
    Sec,
    Display,
    Wm,
    Ramfs,
    Shell,
    Net,
    Hog,
    Ping,
    Pong,
}

/// Name that a server is started by.
pub fn server_name(s: Server) -> (n: &'static str)
    ensures
        n@ == match s {
            Server::Init => "init"@,
            Server::Sec => "sec"@,
            Server::Display => "display"@,
            Server::Wm => "wm"@,
            Server::Ramfs => "ramfs"@,
            Server::Shell => "shell"@,
            Server::Net => "net"@,
            Server::Hog => "hog"@,
            Server::Ping => "ping"@,
            Server::Pong => "pong"@,
        },
{
    match s {
        Server::Init => "init",
        Server::Sec => "sec",
        Server::Display => "display",
        Server::Wm => "wm",
        Server::Ramfs => "ramfs",
        Server::Shell => "shell",
        Server::Net => "net",
        Server::Hog => "hog",
        Server::Ping => "ping",
        Server::Pong => "pong",
    }
}

/// A step of the boot.
#[derive(Debug, Clone, Copy, PartialEq, Eq, Structural)]
pub enum BootStep {
    /// Bring up the devices.
    Hardware,
    /// Set up the frame allocator.
    Frames,
    /// Build the identity map and switch the MMU on.
    Mmu,
    /// Take the regions of the servers out of the frame allocator.
    ReserveServers,
    /// Select the hypervisor backend.
    Backend,
    /// Allocate and share pages for the message queue.
    ShareMemory(u64),
    /// Register the doorbell with this interrupt and VM.
    Doorbell(u32, u32),
    /// Set up the transport.
    Transport,
    /// Create the guest, with so many pages.
    CreateGuest(u64),
    StartGuest,
    /// Send a message, run the guest, and look for its echo.
    Exchange(u32),
    /// Make a queue of this capacity and a doorbell with this interrupt, and publish them.
    PublishInfo(u32, u32),
    Unmask,
    /// Run the guest until it waits for a message.
    RunUntilWaiting,
    /// Queue a message and ring, without running the guest.
    Ping(u32),
    /// Until the doorbell has been delivered.
    AwaitDelivery,
    /// Run the guest to take the messages.
    Drain,
    /// Take a reply from the queue.
    Collect(u32),
    /// Tell the guest to finish, and take its answer.
    Finish,
    Spawn(Server),
    /// Start a server and, if that succeeds, schedule until everything is blocked.
    SpawnAndEnter(Server),
    /// Compare the monitor's measurement of the kernel with the kernel's own.
    Measure,
    /// Ask the monitor for its version, counter and banner.
    QueryMonitor,
    /// Run the secure world, iterations and round, and read its tick count.
    WorldSwitch(u64, u64),
    /// Arm the preemption tick.
    ArmTick,
    /// Start the other CPUs.
    BringUp,
    /// Schedule.
    Enter,
    Halt,
}

/// The steps up to the message exchange.
pub open spec fn first_steps(servers: bool) -> Seq<BootStep> {
    seq![BootStep::Hardware, BootStep::Frames] + (if servers {
        seq![BootStep::ReserveServers]
    } else {
        Seq::empty()
    }) + seq![
        BootStep::Mmu,
        BootStep::Backend,
        BootStep::ShareMemory(4),
        BootStep::Doorbell(1, 1),
        BootStep::Transport,
        BootStep::CreateGuest(256),
        BootStep::StartGuest,
    ]
}

/// The exchange with the guest: first message by message, then through a doorbell.
pub open spec fn guest_steps() -> Seq<BootStep> {
    seq![
        BootStep::Exchange(0),
        BootStep::Exchange(1),
        BootStep::Exchange(2),
        BootStep::PublishInfo(8, 2),
        BootStep::Unmask,
        BootStep::RunUntilWaiting,
        BootStep::Ping(0),
        BootStep::Ping(1),
        BootStep::Ping(2),
        BootStep::Unmask,
        BootStep::AwaitDelivery,
        BootStep::Drain,
        BootStep::Collect(0),
        BootStep::Collect(1),
        BootStep::Collect(2),
        BootStep::Finish,
    ]
}

/// The servers and the secure world; the monitor is there only on `sbsa-ref`, and not when
/// the firmware started the kernel.
pub open spec fn service_steps(sbsa: bool, from_efi: bool, servers: bool) -> Seq<BootStep> {
    (if servers {
        seq![BootStep::SpawnAndEnter(Server::Init)]
    } else {
        Seq::empty()
    }) + (if sbsa && !from_efi {
        seq![
            BootStep::Measure,
            BootStep::QueryMonitor,
            BootStep::WorldSwitch(2500, 1),
            BootStep::Spawn(Server::Sec),
        ]
    } else {
        Seq::empty()
    })
}

/// The desktop, which `sbsa-ref` does not have, the other servers, and scheduling.
pub open spec fn last_steps(sbsa: bool, servers: bool) -> Seq<BootStep> {
    (if servers {
        (if !sbsa {
            seq![
                BootStep::Spawn(Server::Display),
                BootStep::Spawn(Server::Wm),
                BootStep::Spawn(Server::Ramfs),
                BootStep::Spawn(Server::Shell),
            ]
        } else {
            Seq::empty()
        }) + seq![
            BootStep::Spawn(Server::Net),
            BootStep::Spawn(Server::Hog),
            BootStep::Spawn(Server::Ping),
            BootStep::Spawn(Server::Pong),
            BootStep::ArmTick,
            BootStep::BringUp,
            BootStep::Enter,
        ]
    } else {
        Seq::empty()
    }) + seq![BootStep::Halt]
}

/// The whole boot of a machine.
pub open spec fn boot_steps(m: Machine, from_efi: bool, servers: bool) -> Seq<BootStep> {
    let sbsa = m.id == MACHINE_SBSA_REF;
    first_steps(servers) + guest_steps() + service_steps(sbsa, from_efi, servers) + last_steps(
        sbsa,
        servers,
    )
}

fn push_first(r: &mut Vec<BootStep>, servers: bool)
    ensures
        final(r)@ == old(r)@ + first_steps(servers),
{
    let ghost pre = r@;
    r.push(BootStep::Hardware);
    r.push(BootStep::Frames);
    if servers {
        r.push(BootStep::ReserveServers);
    }
    r.push(BootStep::Mmu);
    r.push(BootStep::Backend);
    r.push(BootStep::ShareMemory(4));
    r.push(BootStep::Doorbell(1, 1));
    r.push(BootStep::Transport);
    r.push(BootStep::CreateGuest(256));
    r.push(BootStep::StartGuest);
    assert(r@ =~= pre + first_steps(servers));
}

fn push_guest(r: &mut Vec<BootStep>)
    ensures
        final(r)@ == old(r)@ + guest_steps(),
{
    let ghost pre = r@;
    r.push(BootStep::Exchange(0));
    r.push(BootStep::Exchange(1));
    r.push(BootStep::Exchange(2));
    r.push(BootStep::PublishInfo(8, 2));
    r.push(BootStep::Unmask);
    r.push(BootStep::RunUntilWaiting);
    r.push(BootStep::Ping(0));
    r.push(BootStep::Ping(1));
    r.push(BootStep::Ping(2));
    r.push(BootStep::Unmask);
    r.push(BootStep::AwaitDelivery);
    r.push(BootStep::Drain);
    r.push(BootStep::Collect(0));
    r.push(BootStep::Collect(1));
    r.push(BootStep::Collect(2));
    r.push(BootStep::Finish);
    assert(r@ =~= pre + guest_steps());
}

fn push_services(r: &mut Vec<BootStep>, sbsa: bool, from_efi: bool, servers: bool)
    ensures
        final(r)@ == old(r)@ + service_steps(sbsa, from_efi, servers),
{
    let ghost pre = r@;
    if servers {
        r.push(BootStep::SpawnAndEnter(Server::Init));
    }
    if sbsa && !from_efi {
        r.push(BootStep::Measure);
        r.push(BootStep::QueryMonitor);
        r.push(BootStep::WorldSwitch(2500, 1));
        r.push(BootStep::Spawn(Server::Sec));
    }
    assert(r@ =~= pre + service_steps(sbsa, from_efi, servers));
}

fn push_last(r: &mut Vec<BootStep>, sbsa: bool, servers: bool)
    ensures
        final(r)@ == old(r)@ + last_steps(sbsa, servers),
{
    let ghost pre = r@;
    if servers {
        if !sbsa {
            r.push(BootStep::Spawn(Server::Display));
            r.push(BootStep::Spawn(Server::Wm));
            r.push(BootStep::Spawn(Server::Ramfs));
            r.push(BootStep::Spawn(Server::Shell));
        }
        r.push(BootStep::Spawn(Server::Net));
        r.push(BootStep::Spawn(Server::Hog));
        r.push(BootStep::Spawn(Server::Ping));
        r.push(BootStep::Spawn(Server::Pong));
        r.push(BootStep::ArmTick);
        r.push(BootStep::BringUp);
        r.push(BootStep::Enter);
    }
    r.push(BootStep::Halt);
    assert(r@ =~= pre + last_steps(sbsa, servers));
}

/// The boot of a machine, step by step.  `servers` says whether there are server programs.
pub fn kmain(m: &Machine, from_efi: bool, servers: bool) -> (r: Vec<BootStep>)
    ensures
        r@ == boot_steps(*m, from_efi, servers),
{
    let sbsa: bool = m.id == MACHINE_SBSA_REF;
    let mut r: Vec<BootStep> = Vec::new();
    push_first(&mut r, servers);
    assert(r@ =~= first_steps(servers));
    push_guest(&mut r);
    push_services(&mut r, sbsa, from_efi, servers);
    push_last(&mut r, sbsa, servers);
    r
}

/// The regions of the servers are out of reach before anything is allocated: they are
/// reserved before page tables are built, before memory is shared and before the guest gets
/// its own.
pub proof fn law_reserved_before_allocated(m: Machine, from_efi: bool, i: int)
    requires
        0 <= i < boot_steps(m, from_efi, true).len(),
        ({
            let s = boot_steps(m, from_efi, true)[i];
            s is Mmu || s is ShareMemory || s is CreateGuest || s is Spawn || s is SpawnAndEnter
        }),
    ensures
        i > 2,
        boot_steps(m, from_efi, true)[2] == BootStep::ReserveServers,
{
    let b = boot_steps(m, from_efi, true);
    assert(b[0] == BootStep::Hardware);
    assert(b[1] == BootStep::Frames);
    assert(b[2] == BootStep::ReserveServers);
}

/// A step of the boot of another CPU.
#[derive(Debug, Clone, Copy, PartialEq, Eq, Structural)]
pub enum SecondaryStep {
    /// The exception vectors, so that a fault is reported.
    Vectors,
    /// TCR and MAIR, then the kernel's map and the MMU.
    Mmu,
    /// The CPU's part of the interrupt controller.
    Gic,
    /// The timer, disarmed.
    Timer,
    EnableTick,
    ArmTick,
    /// Idle on the run queue.
    Enter,
}

/// The boot of another CPU.
pub fn kmain_secondary_entry() -> (r: Vec<SecondaryStep>)
    ensures
        r@ == seq![
            SecondaryStep::Vectors,
            SecondaryStep::Mmu,
            SecondaryStep::Vectors,
            SecondaryStep::Gic,
            SecondaryStep::Timer,
            SecondaryStep::EnableTick,
            SecondaryStep::ArmTick,
            SecondaryStep::Enter,
        ],
{
    let mut r: Vec<SecondaryStep> = Vec::new();
    r.push(SecondaryStep::Vectors);
    r.push(SecondaryStep::Mmu);
    r.push(SecondaryStep::Vectors);
    r.push(SecondaryStep::Gic);
    r.push(SecondaryStep::Timer);
    r.push(SecondaryStep::EnableTick);
    r.push(SecondaryStep::ArmTick);
    r.push(SecondaryStep::Enter);
    assert(r@ =~= seq![
        SecondaryStep::Vectors,
        SecondaryStep::Mmu,
        SecondaryStep::Vectors,
        SecondaryStep::Gic,
        SecondaryStep::Timer,
        SecondaryStep::EnableTick,
        SecondaryStep::ArmTick,
        SecondaryStep::Enter,
    ]);
    r
}

/// Text of a message to the guest.
pub fn round_message(round: u32) -> (s: &'static str)
    requires
        round < 3,
    ensures
        s@ == if round == 0 {
            "Hello from Tanix kernel (round 0)!"@
        } else if round == 1 {
            "Hello from Tanix kernel (round 1)!"@
        } else {
            "Hello from Tanix kernel (round 2)!"@
        },
{
    match round {
        0 => "Hello from Tanix kernel (round 0)!",
        1 => "Hello from Tanix kernel (round 1)!",
        _ => "Hello from Tanix kernel (round 2)!",
    }
}

/// Text of a message that is queued for the guest.
pub fn ping_message(round: u32) -> (s: &'static str)
    ensures
        s@ == if round == 0 {
            "ping-0"@
        } else if round == 1 {
            "ping-1"@
        } else {
            "ping-2"@
        },
{
    match round {
        0 => "ping-0",
        1 => "ping-1",
        _ => "ping-2",
    }
}

/// Text of the message that ends the exchange.
pub fn finish_message() -> (s: &'static str)
    ensures
        s@ == "done"@,
{
    "done"
}

/// Offset of the info block in the shared memory.
pub const VMM_INFO_OFF: u64 = 0x2000;

/// Mark of the info block.
pub const VMM_INFO_MAGIC: u32 = 0x564D_4D49;

pub const GUEST_RUNNING: u32 = 0;

/// The guest waits for a message.
pub const GUEST_WAITING: u32 = 1;

/// There is a message.
pub const DOORBELL_FLAG_MSG: u32 = 1;

/// What the info block tells the guest.
#[derive(Debug, Clone, Copy, PartialEq, Eq, Structural)]
pub struct VmmInfo {
    pub msgq: u32,
    /// Address of the service entry.
    pub service: u64,
    pub doorbell: u32,
}

/// The info block lies in memory.
pub open spec fn has_info(ram: Ram, shmem: PhysAddr) -> bool {
    ram.has(shmem + VMM_INFO_OFF, 28)
}

/// Memory with the info block at `at`: mark, queue, service, doorbell, state and flags.
pub open spec fn with_info(mem: Seq<u8>, at: int, info: VmmInfo) -> Seq<u8> {
    let a = put(mem, at, le32_bytes(VMM_INFO_MAGIC));
    let b = put(a, at + 4, le32_bytes(info.msgq));
    let c = put(b, at + 8, le64_bytes(info.service));
    let d = put(c, at + 16, le32_bytes(info.doorbell));
    let e = put(d, at + 20, le32_bytes(GUEST_RUNNING));
    put(e, at + 24, le32_bytes(0))
}

/// Publish the info block.
pub fn publish_info(ram: &mut Ram, shmem: PhysAddr, info: VmmInfo)
    requires
        old(ram).wf(),
        has_info(*old(ram), shmem),
    ensures
        final(ram).wf(),
        final(ram).start() == old(ram).start(),
        final(ram)@ == with_info(old(ram)@, shmem + VMM_INFO_OFF - old(ram).start(), info),
{
    let at: u64 = shmem + VMM_INFO_OFF;
    ram.write32(at, VMM_INFO_MAGIC);
    ram.write32(at + 4, info.msgq);
    ram.write64(at + 8, info.service);
    ram.write32(at + 16, info.doorbell);
    ram.write32(at + 20, GUEST_RUNNING);
    ram.write32(at + 24, 0);
}

/// The guest's state in the info block.
pub fn guest_info_state(ram: &Ram, shmem: PhysAddr) -> (s: u32)
    requires
        ram.wf(),
        has_info(*ram, shmem),
    ensures
        s == le32(ram@, shmem + VMM_INFO_OFF + 20 - ram.start()),
{
    ram.read32(shmem + VMM_INFO_OFF + 20)
}

/// Tell the guest in the info block that there is a message.
pub fn flag_message(ram: &mut Ram, shmem: PhysAddr)
    requires
        old(ram).wf(),
        has_info(*old(ram), shmem),
    ensures
        final(ram).wf(),
        final(ram).start() == old(ram).start(),
        final(ram)@ == put(
            old(ram)@,
            shmem + VMM_INFO_OFF + 24 - old(ram).start(),
            le32_bytes(DOORBELL_FLAG_MSG),
        ),
{
    ram.write32(shmem + VMM_INFO_OFF + 24, DOORBELL_FLAG_MSG);
}

/// True if the doorbell with the given counts (rings, deliveries) has been delivered.
pub fn delivered(stats: Option<(u64, u64)>) -> (r: bool)
    ensures
        r == (stats matches Some((rings, deliveries)) && deliveries != 0),
{
    match stats {
        Some((_, d)) => d != 0,
        None => false,
    }
}

/// Verdict over the measurement of the kernel.
pub fn measurement_verdict(measured: u64, local: u64) -> (s: &'static str)
    ensures
        s@ == if measured == local {
            "match"@
        } else {
            "MISMATCH"@
        },
{
    if measured == local {
        "match"
    } else {
        "MISMATCH"
    }
}

/// The guest finds in the info block what was published, and itself running.
pub proof fn law_info_reads_back(mem: Seq<u8>, at: int, info: VmmInfo)
    requires
        0 <= at,
        at + 28 <= mem.len(),
    ensures
        ({
            let m = with_info(mem, at, info);
            &&& le32(m, at) == VMM_INFO_MAGIC
            &&& le32(m, at + 4) == info.msgq
            &&& le64(m, at + 8) == info.service
            &&& le32(m, at + 16) == info.doorbell
            &&& le32(m, at + 20) == GUEST_RUNNING
            &&& le32(m, at + 24) == 0
        }),
{
    crate::bytes::law_le32_round_trip(VMM_INFO_MAGIC);
    crate::bytes::law_le32_round_trip(info.msgq);
    crate::bytes::law_le32_round_trip(info.doorbell);
    crate::bytes::law_le32_round_trip(GUEST_RUNNING);
    crate::bytes::law_le64_round_trip(info.service);
    reveal(le64_bytes);
}

/// The boot in order: the machine and its frames first, the servers' memory set aside before the
/// MMU, then the hypervisor's side, the guest with 256 pages, its three exchanges and three
/// pings, and at last the kernel halts.
#[verifier::rlimit(50)]
pub proof fn law_boot_order(m: Machine, from_efi: bool, servers: bool, i: int)
    requires
        0 <= i < 3,
    ensures
        ({
            let s = boot_steps(m, from_efi, servers);
            let k = if servers {
                3int
            } else {
                2
            };
            &&& s.len() >= k + 23
            &&& s[0] == BootStep::Hardware && s[1] == BootStep::Frames
            &&& servers ==> s[2] == BootStep::ReserveServers
            &&& s[k] == BootStep::Mmu && s[k + 1] == BootStep::Backend
            &&& s[k + 2] matches BootStep::ShareMemory(n) && n == 4
            &&& s[k + 3] matches BootStep::Doorbell(a, b) && a == 1 && b == 1
            &&& s[k + 4] == BootStep::Transport
            &&& s[k + 5] matches BootStep::CreateGuest(n) && n == 256
            &&& s[k + 6] == BootStep::StartGuest
            &&& s[k + 7 + i] matches BootStep::Exchange(n) && n == i
            &&& s[k + 10] matches BootStep::PublishInfo(a, b) && a == 8 && b == 2
            &&& s[k + 11] == BootStep::Unmask && s[k + 12] == BootStep::RunUntilWaiting
            &&& s[k + 13 + i] matches BootStep::Ping(n) && n == i
            &&& s[k + 16] == BootStep::Unmask && s[k + 17] == BootStep::AwaitDelivery
            &&& s[k + 18] == BootStep::Drain
            &&& s[k + 19 + i] matches BootStep::Collect(n) && n == i
            &&& s[k + 22] == BootStep::Finish
            &&& s.last() == BootStep::Halt
            &&& !servers && !(m.id == 1 && !from_efi) ==> s.len() == 26
        }),
{
}

/// With servers the boot starts the first of them behind the guest, brings up the other CPUs and
/// enters the scheduler; a machine with a monitor is measured and switches worlds, unless firmware
/// booted it, and only one without has the desktop's servers.
#[verifier::rlimit(50)]
pub proof fn law_servers_are_started(m: Machine, from_efi: bool)
    ensures
        ({
            let s = boot_steps(m, from_efi, true);
            let n = s.len() as int;
            let sbsa = m.id == 1;
            &&& s[26] == BootStep::SpawnAndEnter(Server::Init)
            &&& sbsa && !from_efi ==> n == 39 && s[27] == BootStep::Measure && s[28]
                == BootStep::QueryMonitor && s[29] == BootStep::WorldSwitch(2500, 1) && s[30]
                == BootStep::Spawn(Server::Sec)
            &&& sbsa && from_efi ==> n == 35
            &&& !sbsa ==> n == 39 && s[27] == BootStep::Spawn(Server::Display) && s[28]
                == BootStep::Spawn(Server::Wm) && s[29] == BootStep::Spawn(Server::Ramfs) && s[30]
                == BootStep::Spawn(Server::Shell)
            &&& s[n - 8] == BootStep::Spawn(Server::Net)
            &&& s[n - 7] == BootStep::Spawn(Server::Hog)
            &&& s[n - 6] == BootStep::Spawn(Server::Ping)
            &&& s[n - 5] == BootStep::Spawn(Server::Pong)
            &&& s[n - 4] == BootStep::ArmTick
            &&& s[n - 3] == BootStep::BringUp
            &&& s[n - 2] == BootStep::Enter
            &&& s[n - 1] == BootStep::Halt
        }),
{
}

/// The block that a guest finds is 28 bytes, 8192 bytes into the shared memory; no byte outside
/// of it changes.
pub proof fn law_info_keeps_to_itself(
    ram: Ram,
    shmem: PhysAddr,
    mem: Seq<u8>,
    at: int,
    info: VmmInfo,
    k: int,
)
    requires
        ram.wf(),
        0 <= at,
        at + 28 <= mem.len(),
        0 <= k < mem.len(),
    ensures
        has_info(ram, shmem) <==> ram.start() <= shmem + 8192 && shmem + 8192 + 28 <= ram.start()
            + ram@.len(),
        with_info(mem, at, info).len() == mem.len(),
        k < at || k >= at + 28 ==> with_info(mem, at, info)[k] == mem[k],
        VMM_INFO_MAGIC == 0x564D_4D49,
        GUEST_RUNNING == 0,
{
    crate::bytes::law_bytes_are_digits(info.service, 0);
}

} // verus!
