//! Servers: where they live, what they may touch and how they are started.
//!
//! A server is a separate program that links at a fixed address.  Its private region of
//! memory holds the image, a page of boot information, the user stack and, at the top,
//! the kernel stack.  It runs at EL0 in an address space of its own: the kernel's map with
//! the pages of its region opened to it.

use vstd::prelude::*;
use crate::arch::aarch64::machine::{Machine, MACHINE_SBSA_REF};
use crate::bytes::{le32_bytes, put, zeros};
use crate::mem::address_space::{clone_kernel_table, cloned, kernel_table_count, tree_size};
use crate::mem::frame::FrameAllocator;
use crate::mem::page_table::{TableSpace, FLAGS_USER_DEVICE, FLAGS_USER_RWX, VA_LIMIT};
use crate::mem::ram::Ram;
use crate::mem::tables::Tables;
use crate::mem::windows::{open_result, open_windows, Window};
use crate::mem::{PhysAddr, PAGE_SIZE};
use crate::ipc::message::blocked;
use crate::sched::run::{awake, moved, tick_slots, tick_target, RunQueue, Switch};
use crate::sched::task::{
    exists_id, first_free, first_id, full, has_id, has_room, is_idle_task, is_user_context, pick,
    region_pushed, with_state, Region, RegionKind, Scheduler, Slots, Task, IDLE_ID, MAX_REGIONS,
    MAX_TASKS,
};
use crate::sched::{BootInfo, PendingSend, TaskId, TaskState, M_ANY, PRIO_NORMAL};
use crate::smp::{idle_slot_of, other_slot, MAX_CPUS};
use crate::text::str_eq;
use crate::vm::loader::{inspect, load_error, load_flat_full, loaded, loaded_image, LoadedImage};

pub mod laws;

verus! {

/// Bytes of a server's private region.
pub const SERVER_RAM_SIZE: u64 = 0x2_0000;

/// Bytes of a server's user stack.
pub const USER_STACK_SIZE: u64 = 0x4000;

/// Window of the virtio-mmio transports that the display server gets.
pub const DISPLAY_MMIO_BASE: u64 = 0x0A00_0000;

pub const DISPLAY_MMIO_SIZE: u64 = 0x4000;

/// Unknown server.
pub const E_UNKNOWN: i32 = -7;

/// The task table is full.
pub const E_NO_TASK: i32 = -8;

/// The image cannot be loaded.
pub const E_BAD_IMAGE: i32 = -9;

/// There are not enough free frames for the server's tables.
pub const E_NO_TABLES: i32 = -13;

/// What a capability names; the address depends on the machine.
#[derive(Debug, Clone, Copy, PartialEq, Eq, Structural)]
pub enum CapKind {
    /// The PL011 UART.
    Uart,
    /// The virtio-mmio transports.
    VirtioMmio,
    /// PCIe configuration space.
    Ecam,
    /// PCI memory BARs.
    PciMem,
}

/// A granted capability: a device family and a window size.
#[derive(Debug, Clone, Copy, PartialEq, Eq, Structural)]
pub struct MmioCap {
    pub kind: CapKind,
    pub size: u64,
}

/// The capabilities that a server is granted.
pub open spec fn caps_of(name: Seq<char>) -> Seq<MmioCap> {
    if name == "dev"@ {
        seq![MmioCap { kind: CapKind::Uart, size: 0x1000 }]
    } else if name == "net"@ || name == "fs"@ {
        seq![
            MmioCap { kind: CapKind::Ecam, size: 0x100_0000 },
            MmioCap { kind: CapKind::PciMem, size: 0x3000_0000 },
        ]
    } else if name == "display"@ {
        seq![MmioCap { kind: CapKind::VirtioMmio, size: 0x4000 }]
    } else {
        Seq::empty()
    }
}

/// Base of a device family on a machine; 0 is none.
pub open spec fn cap_base(m: Machine, kind: CapKind) -> u64 {
    match kind {
        CapKind::Uart => m.uart_base,
        CapKind::VirtioMmio => m.virtio_mmio_base,
        CapKind::Ecam => if m.id == MACHINE_SBSA_REF {
            0xF000_0000
        } else {
            0x3F00_0000
        },
        CapKind::PciMem => if m.id == MACHINE_SBSA_REF {
            0xC000_0000
        } else {
            0x1000_0000
        },
    }
}

/// Window of a server's capability `idx` on a machine, base and size.
pub open spec fn cap_window(m: Machine, name: Seq<char>, idx: int) -> Option<(u64, u64)> {
    if 0 <= idx < caps_of(name).len() && cap_base(m, caps_of(name)[idx].kind) != 0 {
        Some((cap_base(m, caps_of(name)[idx].kind), caps_of(name)[idx].size))
    } else {
        None
    }
}

fn cap_at(name: &str, idx: usize) -> (r: Option<MmioCap>)
    ensures
        match r {
            Some(c) => idx < caps_of(name@).len() && c == caps_of(name@)[idx as int],
            None => idx >= caps_of(name@).len(),
        },
{
    if str_eq(name, "dev") {
        if idx == 0 {
            Some(MmioCap { kind: CapKind::Uart, size: 0x1000 })
        } else {
            None
        }
    } else if str_eq(name, "net") || str_eq(name, "fs") {
        if idx == 0 {
            Some(MmioCap { kind: CapKind::Ecam, size: 0x100_0000 })
        } else if idx == 1 {
            Some(MmioCap { kind: CapKind::PciMem, size: 0x3000_0000 })
        } else {
            None
        }
    } else if str_eq(name, "display") {
        if idx == 0 {
            Some(MmioCap { kind: CapKind::VirtioMmio, size: 0x4000 })
        } else {
            None
        }
    } else {
        None
    }
}

/// Window of a server's capability `idx` on a machine.  `None` when the server has no such
/// capability, or the machine no such window.
pub fn cap_window_for(m: &Machine, name: &str, idx: usize) -> (r: Option<(u64, u64)>)
    ensures
        r == cap_window(*m, name@, idx as int),
{
    let cap: MmioCap = match cap_at(name, idx) {
        Some(c) => c,
        None => {
            return None;
        },
    };
    let base: u64 = match cap.kind {
        CapKind::Uart => m.uart_base,
        CapKind::VirtioMmio => m.virtio_mmio_base,
        CapKind::Ecam => if m.id == MACHINE_SBSA_REF {
            0xF000_0000
        } else {
            0x3F00_0000
        },
        CapKind::PciMem => if m.id == MACHINE_SBSA_REF {
            0xC000_0000
        } else {
            0x1000_0000
        },
    };
    if base == 0 {
        return None;
    }
    Some((base, cap.size))
}

/// The window of capability `i` covers `[base, base + size)`.
pub open spec fn cap_covers(m: Machine, name: Seq<char>, i: int, base: u64, size: u64) -> bool {
    cap_window(m, name, i) matches Some((b, s)) && b <= base && base + size <= b + s
}

/// Capability windows lie in the lower half of the address space, where those of the machine
/// do.
pub proof fn lemma_cap_window(m: Machine, name: Seq<char>)
    requires
        m.uart_base <= 0x8000_0000_0000,
        m.virtio_mmio_base <= 0x8000_0000_0000,
    ensures
        forall|i: int, base: u64, size: u64| #[trigger]
            cap_covers(m, name, i, base, size) ==> base + size <= VA_LIMIT,
{
}

/// True if a capability of the server covers `[base, base + size)`.
pub fn cap_permits(m: &Machine, name: &str, base: u64, size: u64) -> (r: bool)
    ensures
        r == exists|i: int| #[trigger] cap_covers(*m, name@, i, base, size),
{
    let mut i: usize = 0;
    while i < 16
        invariant
            i <= 16,
            forall|k: int| 0 <= k < i ==> !#[trigger] cap_covers(*m, name@, k, base, size),
        decreases 16 - i,
    {
        if let Some((b, s)) = cap_window_for(m, name, i) {
            if base >= b && size <= s && base - b <= s - size {
                assert(cap_covers(*m, name@, i as int, base, size));
                return true;
            }
        }
        i = i + 1;
    }
    assert(caps_of(name@).len() <= 2);
    assert forall|k: int| !#[trigger] cap_covers(*m, name@, k, base, size) by {}
    false
}

/// Where a server links on the `virt` machine.
#[verifier::opaque]
pub open spec fn virt_base(name: Seq<char>) -> Option<u64> {
    if name == "init"@ {
        Some(0x4100_0000)
    } else if name == "pm"@ {
        Some(0x4102_0000)
    } else if name == "mem"@ {
        Some(0x4104_0000)
    } else if name == "dev"@ {
        Some(0x4106_0000)
    } else if name == "worker"@ {
        Some(0x4108_0000)
    } else if name == "display"@ {
        Some(0x410A_0000)
    } else if name == "ui-demo"@ {
        Some(0x410C_0000)
    } else if name == "hog"@ {
        Some(0x410E_0000)
    } else if name == "wm"@ {
        Some(0x4110_0000)
    } else if name == "counter"@ {
        Some(0x4112_0000)
    } else if name == "clock"@ {
        Some(0x4114_0000)
    } else if name == "ramfs"@ {
        Some(0x4116_0000)
    } else if name == "shell"@ {
        Some(0x4118_0000)
    } else if name == "net"@ {
        Some(0x411A_0000)
    } else if name == "ping"@ {
        Some(0x411C_0000)
    } else if name == "pong"@ {
        Some(0x411E_0000)
    } else if name == "sec"@ {
        Some(0x4120_0000)
    } else if name == "fs"@ {
        Some(0x4122_0000)
    } else {
        None
    }
}

fn virt_base_of(name: &str) -> (r: Option<u64>)
    ensures
        r == virt_base(name@),
        r matches Some(b) ==> 0x4100_0000 <= b <= 0x4122_0000 && b % 0x2_0000 == 0,
{
    proof {
        reveal(virt_base);
    }
    if str_eq(name, "init") {
        Some(0x4100_0000)
    } else if str_eq(name, "pm") {
        Some(0x4102_0000)
    } else if str_eq(name, "mem") {
        Some(0x4104_0000)
    } else if str_eq(name, "dev") {
        Some(0x4106_0000)
    } else if str_eq(name, "worker") {
        Some(0x4108_0000)
    } else if str_eq(name, "display") {
        Some(0x410A_0000)
    } else if str_eq(name, "ui-demo") {
        Some(0x410C_0000)
    } else if str_eq(name, "hog") {
        Some(0x410E_0000)
    } else if str_eq(name, "wm") {
        Some(0x4110_0000)
    } else if str_eq(name, "counter") {
        Some(0x4112_0000)
    } else if str_eq(name, "clock") {
        Some(0x4114_0000)
    } else if str_eq(name, "ramfs") {
        Some(0x4116_0000)
    } else if str_eq(name, "shell") {
        Some(0x4118_0000)
    } else if str_eq(name, "net") {
        Some(0x411A_0000)
    } else if str_eq(name, "ping") {
        Some(0x411C_0000)
    } else if str_eq(name, "pong") {
        Some(0x411E_0000)
    } else if str_eq(name, "sec") {
        Some(0x4120_0000)
    } else if str_eq(name, "fs") {
        Some(0x4122_0000)
    } else {
        None
    }
}

/// How far the servers of a machine link above those of `virt`.
pub open spec fn base_shift(m: Machine) -> int {
    if m.id == MACHINE_SBSA_REF {
        (m.dram_base - 0x4000_0000) % 0x1_0000_0000_0000_0000 + 0x200_0000
    } else {
        0
    }
}

fn machine_base_shift(m: &Machine) -> (s: u64)
    requires
        m.dram_base <= 0x8000_0000_0000_0000,
        m.id == MACHINE_SBSA_REF ==> m.dram_base >= 0x4000_0000,
    ensures
        s == base_shift(*m),
        s <= 0x8000_0000_0200_0000,
{
    if m.id == MACHINE_SBSA_REF {
        m.dram_base - 0x4000_0000 + 0x200_0000
    } else {
        0
    }
}

/// Where a server links; 0 for an unknown one.
pub open spec fn link_base(m: Machine, name: Seq<char>) -> int {
    match virt_base(name) {
        Some(b) => b + base_shift(m),
        None => 0,
    }
}

/// Where a server links; 0 for an unknown one.
pub fn server_link_base(m: &Machine, name: &str) -> (b: u64)
    requires
        m.dram_base <= 0x8000_0000_0000_0000,
        m.id == MACHINE_SBSA_REF ==> m.dram_base >= 0x4000_0000,
    ensures
        b == link_base(*m, name@),
        b == 0 <==> virt_base(name@) is None,
        b == 0 || 0x4100_0000 <= b <= m.dram_base + 0x4400_0000,
        m.dram_base % 4096 == 0 ==> b % 4096 == 0,
{
    match virt_base_of(name) {
        Some(b) => b + machine_base_shift(m),
        None => 0,
    }
}

/// Scheduling priority of a server.
pub open spec fn priority_of(name: Seq<char>) -> u8 {
    if name == "init"@ {
        PRIO_NORMAL
    } else if name == "pm"@ {
        PRIO_NORMAL
    } else if name == "mem"@ {
        PRIO_NORMAL
    } else if name == "dev"@ {
        PRIO_NORMAL
    } else if name == "worker"@ {
        PRIO_NORMAL
    } else if name == "display"@ {
        32
    } else if name == "wm"@ {
        48
    } else if name == "ramfs"@ {
        64
    } else if name == "ui-demo"@ {
        96
    } else if name == "counter"@ {
        96
    } else if name == "clock"@ {
        96
    } else if name == "shell"@ {
        96
    } else if name == "net"@ {
        96
    } else if name == "ping"@ {
        96
    } else if name == "pong"@ {
        96
    } else if name == "sec"@ {
        96
    } else if name == "fs"@ {
        96
    } else if name == "hog"@ {
        192
    } else {
        PRIO_NORMAL
    }
}

/// Scheduling priority of a server.
pub fn server_priority(name: &str) -> (p: u8)
    ensures
        p == priority_of(name@),
{
    if str_eq(name, "init") {
        PRIO_NORMAL
    } else if str_eq(name, "pm") {
        PRIO_NORMAL
    } else if str_eq(name, "mem") {
        PRIO_NORMAL
    } else if str_eq(name, "dev") {
        PRIO_NORMAL
    } else if str_eq(name, "worker") {
        PRIO_NORMAL
    } else if str_eq(name, "display") {
        32
    } else if str_eq(name, "wm") {
        48
    } else if str_eq(name, "ramfs") {
        64
    } else if str_eq(name, "ui-demo") {
        96
    } else if str_eq(name, "counter") {
        96
    } else if str_eq(name, "clock") {
        96
    } else if str_eq(name, "shell") {
        96
    } else if str_eq(name, "net") {
        96
    } else if str_eq(name, "ping") {
        96
    } else if str_eq(name, "pong") {
        96
    } else if str_eq(name, "sec") {
        96
    } else if str_eq(name, "fs") {
        96
    } else if str_eq(name, "hog") {
        192
    } else {
        PRIO_NORMAL
    }
}

/// Private regions of two servers do not overlap.
pub proof fn law_regions_are_disjoint(m: Machine, a: Seq<char>, b: Seq<char>)
    requires
        virt_base(a) is Some,
        virt_base(b) is Some,
        a != b,
    ensures
        link_base(m, a) + SERVER_RAM_SIZE <= link_base(m, b) || link_base(m, b) + SERVER_RAM_SIZE
            <= link_base(m, a),
{
    reveal(virt_base);
    assert(virt_base(a)->0 % 0x2_0000 == 0);
    assert(virt_base(b)->0 % 0x2_0000 == 0);
    assert(virt_base(a) != virt_base(b));
}

/// A granted window lies inside the window of one of the server's capabilities, and a
/// server without capabilities gets none.
pub proof fn law_permitted_is_granted(m: Machine, name: Seq<char>, i: int, base: u64, size: u64)
    requires
        cap_covers(m, name, i, base, size),
    ensures
        0 <= i < caps_of(name).len(),
        cap_base(m, caps_of(name)[i].kind) <= base,
        base + size <= cap_base(m, caps_of(name)[i].kind) + caps_of(name)[i].size,
{
}

/// How a server's region is used.
#[derive(Debug, Clone, Copy, PartialEq, Eq, Structural)]
pub struct Layout {
    /// First byte of the region.
    pub base: u64,
    /// Page of boot information, behind the image.
    pub boot_page: u64,
    /// First byte of the user stack.
    pub stack_base: u64,
    /// End of the user stack.
    pub stack_top: u64,
    /// End of the region and top of the kernel stack.
    pub end: u64,
}

/// The layout of a region at `base` whose image ends at `image_end`.
pub open spec fn layout(base: int, image_end: int) -> Layout {
    Layout {
        base: base as u64,
        boot_page: image_end as u64,
        stack_base: (image_end + 0x1000) as u64,
        stack_top: (image_end + 0x1000 + USER_STACK_SIZE) as u64,
        end: (base + SERVER_RAM_SIZE) as u64,
    }
}

/// The image leaves room for boot information and user stack.
pub open spec fn image_fits(base: int, image_end: int) -> bool {
    base <= image_end && image_end + 0x1000 + USER_STACK_SIZE <= base + SERVER_RAM_SIZE
}

/// The windows that a server's address space opens: image, boot information, the top page
/// of the user stack, and the virtio-mmio transports for the display server of a machine
/// that has them.
pub open spec fn windows_of(m: Machine, name: Seq<char>, l: Layout) -> Seq<Window> {
    let own = seq![
        Window {
            va: l.base,
            size: (l.boot_page - l.base) as u64,
            flags: FLAGS_USER_RWX,
        },
        Window { va: l.boot_page, size: 0x1000, flags: FLAGS_USER_RWX },
        Window { va: (l.stack_top - 0x1000) as u64, size: 0x1000, flags: FLAGS_USER_RWX },
    ];
    if name == "display"@ && m.virtio_mmio_base != 0 {
        own.push(
            Window { va: DISPLAY_MMIO_BASE, size: DISPLAY_MMIO_SIZE, flags: FLAGS_USER_DEVICE },
        )
    } else {
        own
    }
}

fn server_windows(m: &Machine, name: &str, l: &Layout) -> (w: Vec<Window>)
    requires
        l.base <= l.boot_page,
        l.stack_top >= 0x1000,
    ensures
        w@ == windows_of(*m, name@, *l),
{
    let mut w: Vec<Window> = Vec::new();
    w.push(Window { va: l.base, size: l.boot_page - l.base, flags: FLAGS_USER_RWX });
    w.push(Window { va: l.boot_page, size: 0x1000, flags: FLAGS_USER_RWX });
    w.push(Window { va: l.stack_top - 0x1000, size: 0x1000, flags: FLAGS_USER_RWX });
    if str_eq(name, "display") && m.virtio_mmio_base != 0 {
        w.push(
            Window { va: DISPLAY_MMIO_BASE, size: DISPLAY_MMIO_SIZE, flags: FLAGS_USER_DEVICE },
        );
    }
    assert(w@ =~= windows_of(*m, name@, *l));
    w
}

/// A server program.
pub struct ServerImage<'a> {
    pub name: &'a str,
    pub image: &'a [u8],
}

/// First index from `i` on of the program with the name; past the end if there is none.
pub open spec fn image_index(bins: Seq<ServerImage>, name: Seq<char>, i: int) -> int
    decreases bins.len() - i,
{
    if i >= bins.len() {
        bins.len() as int
    } else if bins[i].name@ == name {
        i
    } else {
        image_index(bins, name, i + 1)
    }
}

fn find_image(bins: &[ServerImage], name: &str) -> (r: usize)
    ensures
        r == image_index(bins@, name@, 0),
        r <= bins@.len(),
{
    let mut i: usize = 0;
    while i < bins.len()
        invariant
            i <= bins@.len(),
            image_index(bins@, name@, 0) == image_index(bins@, name@, i as int),
        decreases bins.len() - i,
    {
        if str_eq(bins[i].name, name) {
            return i;
        }
        i = i + 1;
    }
    i
}

/// True if there are any server programs.
pub fn available(bins: &[ServerImage]) -> (r: bool)
    ensures
        r == (bins@.len() > 0),
{
    bins.len() > 0
}

/// Every task id that is in use was given out, or is that of an idle task.
pub open spec fn ids_below(s: Scheduler) -> bool {
    &&& s.next() <= IDLE_ID
    &&& forall|i: int|
        0 <= i < s.slots().len() && (#[trigger] s.slots()[i]) is Some ==> s.slots()[i]->0.id.0
            < s.next() || s.slots()[i]->0.id.0 > IDLE_ID
}

/// The tables of every task that has its own are a tree of their own.
pub open spec fn roots_ok(s: Slots, t: Tables, kernel: int) -> bool {
    &&& forall|i: int|
        0 <= i < s.len() && (#[trigger] s[i]) is Some && s[i]->0.ttbr0 != 0 ==> t.is_root(
            s[i]->0.ttbr0 as int,
        ) && s[i]->0.ttbr0 != kernel
    &&& forall|i: int, j: int|
        0 <= i < j < s.len() && (#[trigger] s[i]) is Some && (#[trigger] s[j]) is Some
            && s[i]->0.ttbr0 != 0 ==> s[i]->0.ttbr0 != s[j]->0.ttbr0
}

/// What loading a server's image into its cleared region does.
pub open spec fn image_loaded(
    ram: Ram,
    image: Seq<u8>,
    base: u64,
    after: Seq<u8>,
    r: Result<LoadedImage, i32>,
) -> bool {
    let clean = put(ram@, base - ram.start(), zeros(SERVER_RAM_SIZE as int));
    match load_error(image, ram, 0, base + SERVER_RAM_SIZE) {
        Some(_) => r == Err::<LoadedImage, i32>(E_BAD_IMAGE) && after == clean,
        None => r == Ok::<LoadedImage, i32>(loaded_image(image, 0)) && after == loaded(
            image,
            clean,
            0 - ram.start(),
            0,
        ),
    }
}

fn load_image(ram: &mut Ram, image: &[u8], base: u64) -> (r: Result<LoadedImage, i32>)
    requires
        old(ram).wf(),
        old(ram).has(base as int, SERVER_RAM_SIZE as int),
        base + 0x3_0000 <= u64::MAX,
    ensures
        final(ram).wf(),
        final(ram).start() == old(ram).start(),
        final(ram)@.len() == old(ram)@.len(),
        image_loaded(*old(ram), image@, base, final(ram)@, r),
        r matches Ok(i) ==> i.image_end % 4096 == 0,
{
    let ghost pre = *ram;
    ram.zero(base, SERVER_RAM_SIZE);
    proof {
        crate::vm::loader::lemma_same_error(image@, pre, *ram, 0, base + SERVER_RAM_SIZE);
    }
    match load_flat_full(image, ram, 0, base + SERVER_RAM_SIZE) {
        Ok(i) => Ok(i),
        Err(_) => Err(E_BAD_IMAGE),
    }
}

/// What making a server's address space does: the kernel's map is cloned, then the windows
/// are opened in the clone.
pub open spec fn space_made(
    t: Tables,
    a: FrameAllocator,
    kernel: int,
    ws: Seq<Window>,
    u: Tables,
    b: FrameAllocator,
    r: Result<PhysAddr, i32>,
) -> bool {
    if tree_size(t, t.frame(kernel), 0) > a.free_set().len() {
        r == Err::<PhysAddr, i32>(E_NO_TABLES) && u == t && b == a
    } else {
        exists|root: PhysAddr, mid: Tables, left: FrameAllocator, n: int|
            space_steps(t, a, kernel, ws, root, mid, left, n, u, b, r)
    }
}

/// The clone is `mid` with `left` frames and the root `root`; then `n` windows were opened.
pub open spec fn space_steps(
    t: Tables,
    a: FrameAllocator,
    kernel: int,
    ws: Seq<Window>,
    root: PhysAddr,
    mid: Tables,
    left: FrameAllocator,
    n: int,
    u: Tables,
    b: FrameAllocator,
    r: Result<PhysAddr, i32>,
) -> bool {
    &&& cloned(t, a, mid, left, t.frame(kernel), 0, t.frame(root as int))
    &&& mid.is_root(root as int)
    &&& open_result(mid, left, root as int, ws, n, u, b, r is Ok)
    &&& r == if n == ws.len() {
        Ok::<PhysAddr, i32>(root)
    } else {
        Err(E_NO_TABLES)
    }
}

fn make_space(space: &mut TableSpace, frames: &mut FrameAllocator, ws: &Vec<Window>) -> (r: Result<
    PhysAddr,
    i32,
>)
    requires
        old(space).wf(),
        old(space).backed(*old(frames)),
        forall|i: int| 0 <= i < ws@.len() ==> (#[trigger] ws@[i]).wf(),
    ensures
        final(space).wf(),
        final(space).backed(*final(frames)),
        final(space).kernel_root() == old(space).kernel_root(),
        space_made(
            old(space)@,
            *old(frames),
            old(space).kernel_root(),
            ws@,
            final(space)@,
            *final(frames),
            r,
        ),
{
    let ghost t = space@;
    let ghost a = *frames;
    let ghost kernel = space.kernel_root();
    if kernel_table_count(space) > frames.free_frames() as u64 {
        return Err(E_NO_TABLES);
    }
    let root: u64 = clone_kernel_table(space, frames);
    let ghost mid = space@;
    let ghost left = *frames;
    let all: bool = open_windows(space, frames, root, ws);
    let r = if all {
        Ok(root)
    } else {
        Err(E_NO_TABLES)
    };
    proof {
        let n = choose|n: int| #[trigger]
            open_result(mid, left, root as int, ws@, n, space@, *frames, all);
        assert(space_steps(t, a, kernel, ws@, root, mid, left, n, space@, *frames, r));
    }
    r
}

/// `t` is the task of a server that has just been started.
pub open spec fn is_server_task(
    t: Task,
    id: TaskId,
    name: Seq<char>,
    entry: u64,
    root: PhysAddr,
    l: Layout,
    machine: u32,
) -> bool {
    &&& t.id == id
    &&& t.state == TaskState::Ready
    &&& t.priority == priority_of(name)
    &&& t.cpu_affinity is None
    &&& t.name@ == crate::text::padded(vstd::utf8::encode_utf8(name), 16, 16)
    &&& t.ttbr0 == root
    &&& is_user_context(t.ctx, entry, l.stack_top, root, l.end, l.boot_page)
    &&& t.boot.task_id == id.0
    &&& t.boot.machine == machine
    &&& !t.recv_blocked
    &&& t.recv_filter == M_ANY
    &&& t.recv_buf == 0
    &&& t.pending_senders@ == seq![None::<PendingSend>, None::<PendingSend>]
    &&& t.send_full_wait is None
    &&& t.irq_wait is None
    &&& t.sleep_deadline == 0
    &&& t.regions@[0] == Some(
        Region { kind: RegionKind::Stack, base: l.stack_base, pages: USER_STACK_SIZE / 4096 },
    )
    &&& forall|i: int| 1 <= i < MAX_REGIONS ==> #[trigger] t.regions@[i] is None
}

/// What adding a server's task does: it takes the first free slot and is recorded as woken,
/// or there is none.
pub open spec fn task_added(
    pre: Scheduler,
    name: Seq<char>,
    entry: u64,
    root: PhysAddr,
    l: Layout,
    machine: u32,
    post: Scheduler,
    r: Result<TaskId, i32>,
) -> bool {
    if full(pre.slots()) {
        &&& r == Err::<TaskId, i32>(E_NO_TASK)
        &&& post.slots() == pre.slots()
        &&& post.next() == pre.next()
        &&& post.woken_slot() == pre.woken_slot()
    } else {
        &&& r == Ok::<TaskId, i32>(TaskId(pre.next() as u32))
        &&& post.next() == pre.next() + 1
        &&& post.woken_slot() matches Some(w) && first_free(pre.slots(), w as int)
        &&& exists|i: int| #[trigger]
            first_free(pre.slots(), i) && post.slots()[i] is Some && post.slots()
                == pre.slots().update(i, post.slots()[i]) && is_server_task(
                post.slots()[i]->0,
                TaskId(pre.next() as u32),
                name,
                entry,
                root,
                l,
                machine,
            )
    }
}

proof fn lemma_only_id(s: Slots, i: int, id: TaskId)
    requires
        has_id(s, i, id),
        forall|k: int| 0 <= k < s.len() && k != i ==> !#[trigger] has_id(s, k, id),
    ensures
        first_id(s, i, id),
        exists_id(s, id),
        forall|k: int| #[trigger] first_id(s, k, id) ==> k == i,
{
    assert forall|k: int| #[trigger] first_id(s, k, id) implies k == i by {
        assert(has_id(s, k, id));
    }
}

fn add_task(
    sched: &mut Scheduler,
    name: &str,
    entry: u64,
    root: PhysAddr,
    l: &Layout,
    machine: u32,
) -> (r: Result<TaskId, i32>)
    requires
        old(sched).next() < IDLE_ID,
        ids_below(*old(sched)),
    ensures
        ids_below(*final(sched)),
        task_added(*old(sched), name@, entry, root, *l, machine, *final(sched), r),
{
    let ghost s0 = *sched;
    let boot = BootInfo { task_id: 0, machine };
    let id: TaskId = match sched.spawn_user(
        name,
        entry,
        root,
        l.stack_top,
        l.end,
        l.boot_page,
        boot,
    ) {
        Some(id) => id,
        None => {
            return Err(E_NO_TASK);
        },
    };
    let ghost s1 = *sched;
    let ghost i = choose|i: int| #[trigger]
        first_free(s0.slots(), i) && s1.slots() == s0.slots().update(i, Some(s1.slots()[i]->0));
    proof {
        assert(s1.slots()[i] is Some);
        assert forall|k: int| 0 <= k < s1.slots().len() && k != i implies !#[trigger] has_id(
            s1.slots(),
            k,
            id,
        ) by {
            if has_id(s1.slots(), k, id) {
                assert(s0.slots()[k] is Some);
            }
        }
        lemma_only_id(s1.slots(), i, id);
        let t = s1.slots()[i]->0;
        assert(t.regions@[0] is None);
        assert(has_room(t.regions@));
    }
    let pushed: bool = sched.push_region_for(
        id,
        RegionKind::Stack,
        l.stack_base,
        USER_STACK_SIZE / PAGE_SIZE,
    );
    let ghost s2 = *sched;
    proof {
        assert(first_id(s1.slots(), i, id) && has_room(s1.slots()[i]->0.regions@));
        assert(pushed);
        let t = s2.slots()[i]->0;
        let region = Region {
            kind: RegionKind::Stack,
            base: l.stack_base,
            pages: USER_STACK_SIZE / 4096,
        };
        assert(region_pushed(s1.slots()[i]->0, t, region));
        let k = choose|k: int| #[trigger]
            crate::sched::task::first_room(s1.slots()[i]->0.regions@, k) && t.regions@
                == s1.slots()[i]->0.regions@.update(k, Some(region));
        assert(k == 0) by {
            if k > 0 {
                assert(s1.slots()[i]->0.regions@[0] is Some);
            }
        }
        assert forall|k: int| 0 <= k < s2.slots().len() && k != i implies !#[trigger] has_id(
            s2.slots(),
            k,
            id,
        ) by {
            assert(s2.slots()[k] == s1.slots()[k]);
            assert(!has_id(s1.slots(), k, id));
        }
        assert(has_id(s2.slots(), i, id));
        lemma_only_id(s2.slots(), i, id);
    }
    sched.set_priority(id, server_priority(name));
    proof {
        let s3 = *sched;
        assert(s3.slots()[i] is Some);
        assert(s3.slots() =~= s0.slots().update(i, s3.slots()[i]));
        assert(is_server_task(s3.slots()[i]->0, id, name@, entry, root, *l, machine));
        assert(first_free(s0.slots(), i));
    }
    Ok(id)
}

/// What a server is started with.
pub struct Host {
    pub machine: Machine,
    pub space: TableSpace,
    pub frames: FrameAllocator,
    pub ram: Ram,
    pub q: RunQueue,
}

impl Host {
    /// The parts are consistent and another task id can be given out.
    pub open spec fn wf(self) -> bool {
        &&& self.space.wf()
        &&& self.space.backed(self.frames)
        &&& self.ram.wf()
        &&& self.q.wf()
        &&& ids_below(self.q.sched)
        &&& self.q.sched.woken_slot() matches Some(w) ==> w < MAX_TASKS
        &&& roots_ok(self.q.sched.slots(), self.space@, self.space.kernel_root())
        &&& self.machine.uart_base <= 0x8000_0000_0000
        &&& self.machine.virtio_mmio_base <= 0x8000_0000_0000
        &&& self.machine.dram_base <= 0x8000_0000_0000
        &&& self.machine.dram_base % 4096 == 0
        &&& self.machine.id == MACHINE_SBSA_REF ==> self.machine.dram_base >= 0x4000_0000
    }

    /// What starting a server does with its program `image` and region `base`.
    pub open spec fn started(
        pre: Self,
        name: Seq<char>,
        image: Seq<u8>,
        base: u64,
        post: Self,
        r: Result<TaskId, i32>,
    ) -> bool {
        exists|mem: Seq<u8>, img: Result<LoadedImage, i32>|
            {
                &&& #[trigger] image_loaded(pre.ram, image, base, mem, img)
                &&& match img {
                    Err(e) => {
                        &&& r == Err::<TaskId, i32>(e)
                        &&& post.ram@ == mem
                        &&& post.space == pre.space
                        &&& post.frames == pre.frames
                        &&& post.q.sched == pre.q.sched
                    },
                    Ok(i) => Self::placed(pre, name, base, i, mem, post, r),
                }
            }
    }

    /// What starting a server does once its image is in memory.
    pub open spec fn placed(
        pre: Self,
        name: Seq<char>,
        base: u64,
        img: LoadedImage,
        mem: Seq<u8>,
        post: Self,
        r: Result<TaskId, i32>,
    ) -> bool {
        exists|root: Result<PhysAddr, i32>| #[trigger]
            Self::placed_in(pre, name, base, img, mem, root, post, r)
    }

    /// The same, where making the address space returned `root`.
    pub open spec fn placed_in(
        pre: Self,
        name: Seq<char>,
        base: u64,
        img: LoadedImage,
        mem: Seq<u8>,
        root: Result<PhysAddr, i32>,
        post: Self,
        r: Result<TaskId, i32>,
    ) -> bool {
        let l = layout(base as int, img.image_end as int);
        &&& space_made(
            pre.space@,
            pre.frames,
            pre.space.kernel_root(),
            windows_of(pre.machine, name, l),
            post.space@,
            post.frames,
            root,
        )
        &&& match root {
            Err(e) => {
                &&& r == Err::<TaskId, i32>(e)
                &&& post.ram@ == mem
                &&& post.q.sched == pre.q.sched
            },
            Ok(t) => {
                &&& task_added(pre.q.sched, name, img.entry, t, l, pre.machine.id, post.q.sched, r)
                &&& post.ram@ == match r {
                    Ok(id) => with_boot_info(
                        mem,
                        l.boot_page - pre.ram.start(),
                        id.0,
                        pre.machine.id,
                    ),
                    Err(_) => mem,
                }
            },
        }
    }

    fn place(&mut self, name: &str, base: u64, img: LoadedImage) -> (r: Result<TaskId, i32>)
        requires
            old(self).wf(),
            old(self).q.sched.next() < IDLE_ID,
            base % 4096 == 0,
            base + SERVER_RAM_SIZE <= VA_LIMIT,
            old(self).ram.has(base as int, SERVER_RAM_SIZE as int),
            img.image_end % 4096 == 0,
            image_fits(base as int, img.image_end as int),
        ensures
            final(self).wf(),
            final(self).machine == old(self).machine,
            final(self).ram.start() == old(self).ram.start(),
            final(self).space.kernel_root() == old(self).space.kernel_root(),
            final(self).q.cpus == old(self).q.cpus,
            Self::placed(*old(self), name@, base, img, old(self).ram@, *final(self), r),
    {
        let ghost pre = *self;
        let l = Layout {
            base,
            boot_page: img.image_end,
            stack_base: img.image_end + 0x1000,
            stack_top: img.image_end + 0x1000 + USER_STACK_SIZE,
            end: base + SERVER_RAM_SIZE,
        };
        assert(l == layout(base as int, img.image_end as int));
        let ws = server_windows(&self.machine, name, &l);
        assert forall|i: int| 0 <= i < ws@.len() implies (#[trigger] ws@[i]).wf() by {}
        let made = make_space(&mut self.space, &mut self.frames, &ws);
        assert(space_made(
            pre.space@,
            pre.frames,
            pre.space.kernel_root(),
            windows_of(pre.machine, name@, l),
            self.space@,
            self.frames,
            made,
        ));
        let root: u64 = match made {
            Ok(root) => root,
            Err(e) => {
                let r = Err(e);
                assert(Self::placed_in(pre, name@, base, img, pre.ram@, made, *self, r));
                return r;
            },
        };
        let added = add_task(&mut self.q.sched, name, img.entry, root, &l, self.machine.id);
        if let Ok(id) = added {
            self.ram.write32(l.boot_page, id.0);
            self.ram.write32(l.boot_page + 4, self.machine.id);
            assert(self.ram@ == with_boot_info(
                pre.ram@,
                l.boot_page - pre.ram.start(),
                id.0,
                pre.machine.id,
            ));
        }
        proof {
            pre.q.sched.lemma_len();
            assert(Self::placed_in(pre, name@, base, img, pre.ram@, made, *self, added));
        }
        added
    }

    fn start(&mut self, name: &str, image: &[u8], base: u64) -> (r: Result<TaskId, i32>)
        requires
            old(self).wf(),
            base % 4096 == 0,
            base + SERVER_RAM_SIZE <= VA_LIMIT,
            old(self).ram.has(base as int, SERVER_RAM_SIZE as int),
            load_error(image@, old(self).ram, 0, base + SERVER_RAM_SIZE) is None
                ==> old(self).q.sched.next() < IDLE_ID && image_fits(
                base as int,
                loaded_image(image@, 0).image_end as int,
            ),
        ensures
            final(self).wf(),
            final(self).machine == old(self).machine,
            final(self).ram.start() == old(self).ram.start(),
            final(self).space.kernel_root() == old(self).space.kernel_root(),
            final(self).q.cpus == old(self).q.cpus,
            Self::started(*old(self), name@, image@, base, *final(self), r),
    {
        let ghost pre = *self;
        let got = load_image(&mut self.ram, image, base);
        let ghost mem = self.ram@;
        assert(image_loaded(pre.ram, image@, base, mem, got));
        match got {
            Ok(img) => {
                let ghost mid = *self;
                let r = self.place(name, base, img);
                proof {
                    let root = choose|root: Result<PhysAddr, i32>| #[trigger]
                        Self::placed_in(mid, name@, base, img, mem, root, *self, r);
                    assert(Self::placed_in(pre, name@, base, img, mem, root, *self, r));
                }
                r
            },
            Err(e) => Err(e),
        }
    }

    /// The server `name` can be started, or is refused: where it has an image and a region,
    /// the region lies in memory, and if the image can be loaded, there is an id for the task
    /// and room for the stacks.
    pub open spec fn can_spawn(self, bins: Seq<ServerImage>, name: Seq<char>) -> bool {
        let k = image_index(bins, name, 0);
        let base = link_base(self.machine, name);
        k < bins.len() && base != 0 ==> {
            &&& self.ram.has(base, SERVER_RAM_SIZE as int)
            &&& load_error(bins[k].image@, self.ram, 0, base + SERVER_RAM_SIZE) is None ==> {
                &&& self.q.sched.next() < IDLE_ID
                &&& image_fits(base, loaded_image(bins[k].image@, 0).image_end as int)
            }
        }
    }

    /// True if the server `name` can be started.
    pub fn may_spawn(&self, bins: &[ServerImage], name: &str) -> (r: bool)
        requires
            self.wf(),
        ensures
            r == self.can_spawn(bins@, name@),
    {
        let base: u64 = server_link_base(&self.machine, name);
        let k: usize = find_image(bins, name);
        if k >= bins.len() || base == 0 {
            return true;
        }
        if !self.ram.contains(base, SERVER_RAM_SIZE) {
            return false;
        }
        match inspect(bins[k].image, &self.ram, 0, base + SERVER_RAM_SIZE) {
            Ok(i) => self.q.sched.has_id_left() && base <= i.image_end && i.image_end <= base
                + SERVER_RAM_SIZE - 0x1000 - USER_STACK_SIZE,
            Err(_) => true,
        }
    }

    /// What starting the server `name` does.
    pub open spec fn spawn_post(
        pre: Self,
        bins: Seq<ServerImage>,
        name: Seq<char>,
        post: Self,
        r: Result<TaskId, i32>,
    ) -> bool {
        let k = image_index(bins, name, 0);
        let base = link_base(pre.machine, name);
        &&& post.machine == pre.machine
        &&& post.ram.start() == pre.ram.start()
        &&& post.space.kernel_root() == pre.space.kernel_root()
        &&& post.q.cpus == pre.q.cpus
        &&& if k >= bins.len() || base == 0 {
            r == Err::<TaskId, i32>(E_UNKNOWN) && post == pre
        } else {
            Self::started(pre, name, bins[k].image@, base as u64, post, r)
        }
    }

    /// Start the server with the name: load its image, give it an address space, a task and
    /// its priority.
    pub fn spawn_by_name(&mut self, bins: &[ServerImage], name: &str) -> (r: Result<TaskId, i32>)
        requires
            old(self).wf(),
            old(self).can_spawn(bins@, name@),
        ensures
            final(self).wf(),
            Self::spawn_post(*old(self), bins@, name@, *final(self), r),
    {
        let k: usize = find_image(bins, name);
        if k >= bins.len() {
            return Err(E_UNKNOWN);
        }
        let base: u64 = server_link_base(&self.machine, name);
        if base == 0 {
            return Err(E_UNKNOWN);
        }
        self.start(name, bins[k].image, base)
    }
}

/// The same tasks, with the same ids and tables.
pub open spec fn same_tasks(s: Slots, t: Slots) -> bool {
    &&& t.len() == s.len()
    &&& forall|i: int|
        0 <= i < s.len() ==> {
            &&& (#[trigger] t[i]) is Some <==> s[i] is Some
            &&& s[i] is Some ==> t[i]->0.id == s[i]->0.id && t[i]->0.ttbr0 == s[i]->0.ttbr0
        }
}

/// Changes to the run queue that keep the tasks keep the host well-formed.
pub(crate) proof fn lemma_same_tasks(pre: Host, post: Host)
    requires
        pre.wf(),
        post == (Host { q: post.q, ..pre }),
        post.q.wf(),
        same_tasks(pre.q.sched.slots(), post.q.sched.slots()),
        post.q.sched.next() == pre.q.sched.next(),
        post.q.sched.woken_slot() matches Some(w) ==> w < MAX_TASKS,
    ensures
        post.wf(),
{
    let s = pre.q.sched.slots();
    let t = post.q.sched.slots();
    assert forall|i: int| 0 <= i < t.len() && (#[trigger] t[i]) is Some implies t[i]->0.id.0
        < post.q.sched.next() || t[i]->0.id.0 > IDLE_ID by {
        assert(s[i] is Some);
    }
    assert forall|i: int| 0 <= i < t.len() && (#[trigger] t[i]) is Some && t[i]->0.ttbr0
        != 0 implies post.space@.is_root(t[i]->0.ttbr0 as int) && t[i]->0.ttbr0
        != post.space.kernel_root() by {
        assert(s[i] is Some);
    }
    assert forall|i: int, j: int|
        0 <= i < j < t.len() && (#[trigger] t[i]) is Some && (#[trigger] t[j]) is Some
            && t[i]->0.ttbr0 != 0 implies t[i]->0.ttbr0 != t[j]->0.ttbr0 by {
        assert(s[i] is Some && s[j] is Some);
    }
}

pub(crate) proof fn lemma_with_state(s: Slots, i: int, state: TaskState)
    requires
        0 <= i < s.len(),
    ensures
        same_tasks(s, with_state(s, i, state)),
{
}

pub(crate) proof fn lemma_same_trans(s: Slots, t: Slots, u: Slots)
    requires
        same_tasks(s, t),
        same_tasks(t, u),
    ensures
        same_tasks(s, u),
{
    assert forall|i: int| 0 <= i < s.len() implies {
        &&& (#[trigger] u[i]) is Some <==> s[i] is Some
        &&& s[i] is Some ==> u[i]->0.id == s[i]->0.id && u[i]->0.ttbr0 == s[i]->0.ttbr0
    } by {
        assert(t[i] is Some <==> s[i] is Some);
    }
}

pub(crate) proof fn lemma_blocked(a: RunQueue, b: RunQueue, cpu: int, s: Slots, sw: Switch)
    requires
        b.wf(),
        0 <= cpu < MAX_CPUS,
        a.sched.slots().len() == MAX_TASKS,
        blocked(a, b, cpu, s, sw),
        same_tasks(a.sched.slots(), s),
    ensures
        same_tasks(a.sched.slots(), b.sched.slots()),
        b.sched.next() == a.sched.next(),
{
    let next = pick(s, cpu, a.cpus.current(cpu));
    assert(b.cpus.current(cpu) == next);
    lemma_with_state(s, next, TaskState::Running);
    lemma_same_trans(a.sched.slots(), s, b.sched.slots());
}

/// A timer tick keeps the host well-formed.
pub proof fn law_tick_keeps_host(
    pre: Host,
    post: Host,
    cpu: int,
    now: u64,
    from_el0: bool,
    woke: bool,
)
    requires
        pre.wf(),
        0 <= cpu < MAX_CPUS,
        post == (Host { q: post.q, ..pre }),
        post.q.wf(),
        post.q.sched.woken_slot() == pre.q.sched.woken_slot(),
        ({
            let s = awake(pre.q.sched.slots(), now);
            let cur = pre.q.cpus.current(cpu);
            moved(
                pre.q,
                post.q,
                cpu,
                tick_slots(s, cpu, cur, from_el0, woke),
                tick_target(s, cpu, cur, from_el0, woke),
            )
        }),
    ensures
        post.wf(),
{
    let s = awake(pre.q.sched.slots(), now);
    let cur = pre.q.cpus.current(cpu);
    pre.q.sched.lemma_len();
    assert(same_tasks(pre.q.sched.slots(), s));
    if let Some(next) = tick_target(s, cpu, cur, from_el0, woke) {
        assert(post.q.cpus.current(cpu) == next);
        let mid = with_state(s, cur, TaskState::Ready);
        lemma_with_state(s, cur, TaskState::Ready);
        lemma_with_state(mid, next, TaskState::Running);
        lemma_with_state(s, next, TaskState::Running);
        lemma_same_trans(s, mid, with_state(mid, next, TaskState::Running));
        lemma_same_trans(pre.q.sched.slots(), s, post.q.sched.slots());
    }
    lemma_same_tasks(pre, post);
}

/// Bringing up the secondaries keeps the host well-formed.
pub proof fn law_bring_up_keeps_host(pre: Host, post: Host)
    requires
        pre.wf(),
        post == (Host { q: post.q, ..pre }),
        post.q.wf(),
        post.q.sched.next() == pre.q.sched.next(),
        post.q.sched.woken_slot() == pre.q.sched.woken_slot(),
        forall|c: int|
            1 <= c < MAX_CPUS ==> (post.q.sched.slots()[#[trigger] idle_slot_of(c)] matches Some(t)
                && is_idle_task(t, c)),
        forall|i: int|
            0 <= i < MAX_TASKS && other_slot(i) ==> #[trigger] post.q.sched.slots()[i]
                == pre.q.sched.slots()[i],
    ensures
        post.wf(),
{
    let s = pre.q.sched.slots();
    let t = post.q.sched.slots();
    pre.q.sched.lemma_len();
    post.q.sched.lemma_len();
    assert forall|i: int| 0 <= i < t.len() && !other_slot(i) implies #[trigger] t[i] is Some
        && t[i]->0.ttbr0 == 0 && t[i]->0.id.0 > IDLE_ID by {
        let c = i - 15;
        assert(idle_slot_of(c) == i);
    }
    assert forall|i: int| 0 <= i < t.len() && (#[trigger] t[i]) is Some implies t[i]->0.id.0
        < post.q.sched.next() || t[i]->0.id.0 > IDLE_ID by {
        if other_slot(i) {
            assert(s[i] is Some);
        }
    }
    assert forall|i: int| 0 <= i < t.len() && (#[trigger] t[i]) is Some && t[i]->0.ttbr0
        != 0 implies post.space@.is_root(t[i]->0.ttbr0 as int) && t[i]->0.ttbr0
        != post.space.kernel_root() by {
        assert(other_slot(i) && s[i] is Some);
    }
    assert forall|i: int, j: int|
        0 <= i < j < t.len() && (#[trigger] t[i]) is Some && (#[trigger] t[j]) is Some
            && t[i]->0.ttbr0 != 0 implies t[i]->0.ttbr0 != t[j]->0.ttbr0 by {
        if other_slot(j) {
            assert(s[i] is Some && s[j] is Some);
        }
    }
}

/// Bytes from the first server's region to the end of the last one's.
pub const SERVER_SPAN: u64 = 0x24_0000;

/// Number of servers that have a region.
pub const SERVER_COUNT: u64 = 18;

/// Where the regions of a machine's servers begin.
pub open spec fn first_region(m: Machine) -> int {
    0x4100_0000 + base_shift(m)
}

/// Take the regions of all servers, which lie side by side, out of the frame allocator.
pub fn reserve_regions(m: &Machine, frames: &mut FrameAllocator)
    requires
        old(frames).wf(),
        m.dram_base <= 0x8000_0000_0000,
        m.dram_base % 4096 == 0,
        m.id == MACHINE_SBSA_REF ==> m.dram_base >= 0x4000_0000,
    ensures
        final(frames).wf(),
        final(frames).same_window(*old(frames)),
        forall|i: int|
            #[trigger] final(frames).free_set().contains(i) <==> old(frames).free_set().contains(i)
                && !(first_region(*m) <= old(frames).frame_addr(i) < first_region(*m)
                + SERVER_SPAN),
{
    let ghost a = *frames;
    proof {
        a.lemma_window();
    }
    let first: u64 = 0x4100_0000 + machine_base_shift(m);
    let mut k: u64 = 0;
    while k < SERVER_COUNT
        invariant
            k <= SERVER_COUNT,
            first == first_region(*m),
            first % 4096 == 0,
            first <= 0x1_0000_0000_0000,
            a == *old(frames),
            a.start() % 4096 == 0,
            frames.wf(),
            frames.same_window(a),
            forall|i: int|
                #[trigger] frames.free_set().contains(i) <==> a.free_set().contains(i) && !(first
                    <= a.frame_addr(i) < first + k * SERVER_RAM_SIZE),
        decreases SERVER_COUNT - k,
    {
        let ghost before = *frames;
        frames.reserve_region(first + k * SERVER_RAM_SIZE, SERVER_RAM_SIZE);
        proof {
            assert forall|i: int|
                #[trigger] frames.free_set().contains(i) <==> a.free_set().contains(i) && !(first
                    <= a.frame_addr(i) < first + (k + 1) * SERVER_RAM_SIZE) by {
                assert(before.frame_addr(i) == a.frame_addr(i));
                assert(before.free_set().contains(i) <==> a.free_set().contains(i) && !(first
                    <= a.frame_addr(i) < first + k * SERVER_RAM_SIZE));
                assert(a.frame_addr(i) % 4096 == 0);
            }
        }
        k = k + 1;
    }
}

/// No frame that is free once the regions are reserved lies in a server's region.
pub proof fn law_reserved_regions_are_safe(
    m: Machine,
    before: FrameAllocator,
    after: FrameAllocator,
    name: Seq<char>,
    i: int,
)
    requires
        forall|k: int|
            #[trigger] after.free_set().contains(k) <==> before.free_set().contains(k) && !(
            first_region(m) <= before.frame_addr(k) < first_region(m) + SERVER_SPAN),
        virt_base(name) is Some,
        after.free_set().contains(i),
    ensures
        !(link_base(m, name) <= before.frame_addr(i) < link_base(m, name) + SERVER_RAM_SIZE),
{
    reveal(virt_base);
    assert(0x4100_0000 <= virt_base(name)->0 <= 0x4122_0000);
}

/// Memory with boot information at `at`: task id and machine.
pub open spec fn with_boot_info(mem: Seq<u8>, at: int, id: u32, machine: u32) -> Seq<u8> {
    put(put(mem, at, le32_bytes(id)), at + 4, le32_bytes(machine))
}

} // verus!
