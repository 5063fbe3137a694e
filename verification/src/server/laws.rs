//! Where servers live, what they may touch and how they start, told in addresses and names.

use vstd::prelude::*;
use vstd::utf8::encode_utf8;
use crate::arch::aarch64::machine::Machine;
use crate::bytes::{law_le32_round_trip, le32, le32_bytes, put, zeros};
use crate::mem::frame::FrameAllocator;
use crate::mem::laws::law_descriptor_bits;
use crate::mem::ram::Ram;
use crate::mem::tables::Tables;
use crate::mem::windows::{opened_leaf, Window};
use crate::mem::PhysAddr;
use crate::sched::task::{first_free, full, Region, RegionKind, Scheduler, Task};
use crate::sched::{TaskId, TaskState};
use crate::server::{
    cap_base, cap_covers, caps_of, first_region, image_fits, image_index, image_loaded,
    is_server_task, layout, link_base, priority_of, space_made, space_steps, task_added, virt_base,
    windows_of, with_boot_info, CapKind, Host, Layout, MmioCap, ServerImage,
};
use crate::vm::loader::{load_error, loaded, loaded_image, LoadedImage};

verus! {

/// The names of the servers are all different.
proof fn lemma_names()
    ensures
        "dev"@ != "net"@,
        "dev"@ != "fs"@,
        "dev"@ != "display"@,
        "net"@ != "fs"@,
        "net"@ != "display"@,
        "fs"@ != "display"@,
{
    reveal_strlit("dev");
    reveal_strlit("net");
    reveal_strlit("fs");
    reveal_strlit("display");
    assert("dev"@[0] == 'd');
    assert("net"@[0] == 'n');
    assert("dev"@.len() == 3 && "net"@.len() == 3 && "fs"@.len() == 2 && "display"@.len() == 7);
}

/// The range `[base, base + size)` lies in `[from, from + len)`, a window that is there.
pub open spec fn within(from: int, len: int, base: u64, size: u64) -> bool {
    from != 0 && from <= base && base + size <= from + len
}

/// A server may map what lies in one of its windows and nothing else: the UART's page for
/// `dev`, PCIe configuration space and PCI memory for `net` and `fs`, the virtio transports for
/// `display`, nothing for any other.
pub proof fn law_device_grants(m: Machine, name: Seq<char>, base: u64, size: u64)
    ensures
        ({
            let permitted = exists|i: int| #[trigger] cap_covers(m, name, i, base, size);
            let sbsa = m.id == 1;
            let ecam = if sbsa {
                0xF000_0000int
            } else {
                0x3F00_0000
            };
            let pci = if sbsa {
                0xC000_0000int
            } else {
                0x1000_0000
            };
            &&& name == "dev"@ ==> (permitted <==> within(m.uart_base as int, 0x1000, base, size))
            &&& name == "display"@ ==> (permitted <==> within(
                m.virtio_mmio_base as int,
                0x4000,
                base,
                size,
            ))
            &&& name == "net"@ || name == "fs"@ ==> (permitted <==> within(
                ecam,
                0x100_0000,
                base,
                size,
            ) || within(pci, 0x3000_0000, base, size))
            &&& name != "dev"@ && name != "display"@ && name != "net"@ && name != "fs"@
                ==> !permitted
        }),
{
    lemma_names();
    if exists|i: int| #[trigger] cap_covers(m, name, i, base, size) {
        let i = choose|i: int| #[trigger] cap_covers(m, name, i, base, size);
        assert(0 <= i < caps_of(name).len());
        assert(caps_of(name).len() <= 2);
        assert(i == 0 || i == 1);
    }
    if name == "dev"@ && within(m.uart_base as int, 0x1000, base, size) {
        assert(cap_covers(m, name, 0, base, size));
    }
    if name == "display"@ && within(m.virtio_mmio_base as int, 0x4000, base, size) {
        assert(cap_covers(m, name, 0, base, size));
    }
    if name == "net"@ || name == "fs"@ {
        assert(caps_of(name)[0] == MmioCap { kind: CapKind::Ecam, size: 0x100_0000 });
        assert(caps_of(name)[1] == MmioCap { kind: CapKind::PciMem, size: 0x3000_0000 });
        if within(cap_base(m, CapKind::Ecam) as int, 0x100_0000, base, size) {
            assert(cap_covers(m, name, 0, base, size));
        }
        if within(cap_base(m, CapKind::PciMem) as int, 0x3000_0000, base, size) {
            assert(cap_covers(m, name, 1, base, size));
        }
    }
}

/// Servers link where they do on `virt`; on `sbsa-ref` they are 32 MiB above the place that
/// corresponds to it in the machine's memory.  An unknown server links nowhere.
pub proof fn law_servers_move_with_memory(m: Machine, name: Seq<char>)
    requires
        m.id == 1 ==> 0x4000_0000 <= m.dram_base,
    ensures
        virt_base(name) is None <==> link_base(m, name) == 0,
        virt_base(name) matches Some(b) ==> {
            &&& 0x4100_0000 <= b < 0x4124_0000
            &&& b % 0x2_0000 == 0
            &&& m.id != 1 ==> link_base(m, name) == b
            &&& m.id == 1 ==> link_base(m, name) == m.dram_base + (b - 0x4000_0000) + 0x200_0000
        },
        first_region(m) == 0x4100_0000 + if m.id == 1 {
            m.dram_base - 0x4000_0000 + 0x200_0000
        } else {
            0
        },
{
    reveal(virt_base);
}

/// A server's region: the image at its start, one page of boot information behind it, the user
/// stack of 16 KiB behind that, and 128 KiB in all.
pub proof fn law_region_layout(base: u64, image_end: u64)
    requires
        image_fits(base as int, image_end as int),
        base + 0x2_0000 <= u64::MAX,
    ensures
        ({
            let l = layout(base as int, image_end as int);
            &&& l.base == base
            &&& l.boot_page == image_end
            &&& l.stack_base == image_end + 0x1000
            &&& l.stack_top == l.stack_base + 0x4000
            &&& l.end == base + 0x2_0000
            &&& base <= l.boot_page
            &&& l.stack_top <= l.end
        }),
{
}

/// What a server can touch from the start: its image and boot information, the topmost page of
/// its stack, all open to it and writable, and for `display` the virtio transports as device
/// memory, where the machine has them.
pub proof fn law_server_windows(m: Machine, name: Seq<char>, l: Layout)
    requires
        l.base <= l.boot_page,
        l.stack_top >= 0x1000,
    ensures
        ({
            let w = windows_of(m, name, l);
            let mmio = name == "display"@ && m.virtio_mmio_base != 0;
            &&& w.len() == if mmio {
                4int
            } else {
                3
            }
            &&& w[0] == (Window {
                va: l.base,
                size: (l.boot_page - l.base) as u64,
                flags: 0x743,
            })
            &&& w[1] == (Window { va: l.boot_page, size: 0x1000, flags: 0x743 })
            &&& w[2] == (Window { va: (l.stack_top - 0x1000) as u64, size: 0x1000, flags: 0x743 })
            &&& mmio ==> w[3] == (Window {
                va: 0x0A00_0000,
                size: 0x4000,
                flags: 0x60_0000_0000_0447,
            })
        }),
{
    law_descriptor_bits();
}

/// The program of a server is the first one with its name.
pub proof fn law_first_program_is_taken(bins: Seq<ServerImage>, name: Seq<char>, i: int)
    requires
        0 <= i <= bins.len(),
        i < bins.len() ==> bins[i].name@ == name,
        forall|k: int| 0 <= k < i ==> (#[trigger] bins[k]).name@ != name,
    ensures
        image_index(bins, name, 0) == i,
{
    lemma_index(bins, name, 0, i);
}

proof fn lemma_index(bins: Seq<ServerImage>, name: Seq<char>, from: int, i: int)
    requires
        0 <= from <= i <= bins.len(),
        i < bins.len() ==> bins[i].name@ == name,
        forall|k: int| from <= k < i ==> (#[trigger] bins[k]).name@ != name,
    ensures
        image_index(bins, name, from) == i,
    decreases i - from,
{
    if from < i {
        assert(bins[from].name@ != name);
        lemma_index(bins, name, from + 1, i);
    }
}

/// Loading a server clears its whole region first.  An image that cannot be loaded is answered
/// with -9; the region is clear then.
pub proof fn law_region_is_cleared(
    ram: Ram,
    image: Seq<u8>,
    base: u64,
    after: Seq<u8>,
    r: Result<LoadedImage, i32>,
    p: int,
)
    requires
        image_loaded(ram, image, base, after, r),
        0 <= p < ram@.len(),
    ensures
        load_error(image, ram, 0, base + 0x2_0000) is Some <==> r == Err::<LoadedImage, i32>(
            (-9) as i32,
        ),
        r is Err ==> after.len() == ram@.len() && after[p] == if base - ram.start() <= p < base
            - ram.start() + 0x2_0000 {
            0
        } else {
            ram@[p]
        },
        r matches Ok(i) ==> i == loaded_image(image, 0) && exists|clear: Seq<u8>|
            {
                &&& clear.len() == ram@.len()
                &&& after == #[trigger] loaded(image, clear, 0 - ram.start(), 0)
                &&& clear[p] == if base - ram.start() <= p < base - ram.start() + 0x2_0000 {
                    0
                } else {
                    ram@[p]
                }
            },
{
    let clear = put(ram@, base - ram.start(), zeros(0x2_0000));
    assert(r is Ok ==> after == loaded(image, clear, 0 - ram.start(), 0));
}

/// A server's task as it starts: Ready on any CPU with its server's priority, entered at EL0
/// with interrupts unmasked, on its user stack, with the address of its boot information in
/// x19, waiting for nothing; its stack of four pages is the one region that faults fill.
pub proof fn law_server_task_fields(
    t: Task,
    id: TaskId,
    name: Seq<char>,
    entry: u64,
    root: PhysAddr,
    l: Layout,
    machine: u32,
)
    requires
        is_server_task(t, id, name, entry, root, l, machine),
    ensures
        t.id == id,
        t.state == TaskState::Ready,
        t.cpu_affinity is None,
        t.priority == priority_of(name),
        t.ttbr0 == root,
        t.ctx.ttbr0 == root,
        t.ctx.lr == entry,
        t.ctx.sp_el0 == l.stack_top,
        t.ctx.sp == l.end,
        t.ctx.spsr == 0,
        t.ctx.x19_to_x28@[0] == l.boot_page,
        t.boot.task_id == id.0,
        t.boot.machine == machine,
        t.regions@[0] == Some(
            Region { kind: RegionKind::Stack, base: l.stack_base, pages: 4 },
        ),
        t.regions@[1] is None && t.regions@[2] is None && t.regions@[3] is None,
        !t.recv_blocked && t.send_full_wait is None && t.irq_wait is None && t.sleep_deadline == 0,
        t.pending_senders@[0] is None && t.pending_senders@[1] is None,
        forall|k: int|
            0 <= k < 16 ==> #[trigger] t.name@[k] == if k < encode_utf8(name).len() {
                encode_utf8(name)[k]
            } else {
                0
            },
{
}

/// A new task takes the first slot that is free and no CPU's own (0 and 16 to 18 are), gets the
/// next id, and is recorded as woken; where there is no such slot, the answer is -8.
#[verifier::rlimit(50)]
pub proof fn law_new_task_takes_first_slot(
    pre: Scheduler,
    name: Seq<char>,
    entry: u64,
    root: PhysAddr,
    l: Layout,
    machine: u32,
    post: Scheduler,
    r: Result<TaskId, i32>,
    i: int,
    j: int,
)
    requires
        task_added(pre, name, entry, root, l, machine, post, r),
        pre.next() < u32::MAX,
        0 <= pre.next(),
        0 <= j < 32,
    ensures
        (r matches Err(e) && e == -8) <==> forall|k: int|
            1 <= k < 32 && !(16 <= k <= 18) ==> (#[trigger] pre.slots()[k]) is Some,
        r is Err ==> post.slots() == pre.slots() && post.next() == pre.next(),
        1 <= i < 32 && !(16 <= i <= 18) && pre.slots()[i] is None && (forall|k: int|
            1 <= k < i && !(16 <= k <= 18) ==> (#[trigger] pre.slots()[k]) is Some) ==> {
            &&& r matches Ok(id) && id.0 == pre.next()
            &&& post.next() == pre.next() + 1
            &&& post.woken_slot() == Some(i as usize)
            &&& post.slots()[i] matches Some(t) && is_server_task(
                t,
                TaskId(pre.next() as u32),
                name,
                entry,
                root,
                l,
                machine,
            )
            &&& j != i ==> post.slots()[j] == pre.slots()[j]
        },
{
    let s = pre.slots();
    pre.lemma_len();
    if full(s) {
        assert forall|k: int| 1 <= k < 32 && !(16 <= k <= 18) implies (#[trigger] s[k]) is Some by {
        }
    } else {
        let x = choose|x: int| #[trigger]
            first_free(s, x) && post.slots()[x] is Some && post.slots() == s.update(
                x,
                post.slots()[x],
            ) && is_server_task(
                post.slots()[x]->0,
                TaskId(pre.next() as u32),
                name,
                entry,
                root,
                l,
                machine,
            );
        assert(s[x] is None);
        let w = post.woken_slot()->0;
        if 1 <= i < 32 && !(16 <= i <= 18) && s[i] is None && (forall|k: int|
            1 <= k < i && !(16 <= k <= 18) ==> (#[trigger] s[k]) is Some) {
            assert(x == i) by {
                if i < x {
                    assert(s[i] is None);
                }
                if x < i {
                    assert(s[x] is None);
                }
            }
            assert(w == i) by {
                assert(s[w as int] is None);
            }
        }
    }
}

/// An unknown server, or one without a program, is answered with -7, and nothing changes.
pub proof fn law_unknown_server_is_refused(
    pre: Host,
    bins: Seq<ServerImage>,
    name: Seq<char>,
    post: Host,
    r: Result<TaskId, i32>,
)
    requires
        Host::spawn_post(pre, bins, name, post, r),
        pre.machine.id == 1 ==> 0x4000_0000 <= pre.machine.dram_base,
        virt_base(name) is None || forall|k: int|
            0 <= k < bins.len() ==> (#[trigger] bins[k]).name@ != name,
    ensures
        r matches Err(e) && e == -7,
        post == pre,
{
    law_servers_move_with_memory(pre.machine, name);
    if virt_base(name) is Some {
        lemma_index(bins, name, 0, bins.len() as int);
    }
}

/// A server that was started finds its id and the machine in its boot information, the first
/// two words behind its image.
pub proof fn law_boot_information_reads_back(mem: Seq<u8>, at: int, id: u32, machine: u32, p: int)
    requires
        0 <= at,
        at + 8 <= mem.len(),
        0 <= p < mem.len(),
    ensures
        ({
            let after = with_boot_info(mem, at, id, machine);
            &&& after.len() == mem.len()
            &&& le32(after, at) == id
            &&& le32(after, at + 4) == machine
            &&& p < at || p >= at + 8 ==> after[p] == mem[p]
        }),
{
    let after = with_boot_info(mem, at, id, machine);
    law_le32_round_trip(id);
    law_le32_round_trip(machine);
    let (x, y) = (le32_bytes(id), le32_bytes(machine));
    assert(after[at] == x[0] && after[at + 1] == x[1] && after[at + 2] == x[2] && after[at + 3]
        == x[3]);
    assert(after[at + 4] == y[0] && after[at + 5] == y[1] && after[at + 6] == y[2] && after[at + 7]
        == y[3]);
}

/// Priorities of the servers: the display before the window manager, that before the file
/// store, that before programs, and `hog` behind all; what is not named has the normal one.
#[verifier::rlimit(50)]
pub proof fn law_server_priorities(name: Seq<char>)
    ensures
        priority_of("display"@) == 32,
        priority_of("wm"@) == 48,
        priority_of("ramfs"@) == 64,
        priority_of("hog"@) == 192,
        name == "ui-demo"@ || name == "counter"@ || name == "clock"@ || name == "shell"@ || name
            == "net"@ || name == "ping"@ || name == "pong"@ || name == "sec"@ || name == "fs"@
            ==> priority_of(name) == 96,
        name == "init"@ || name == "pm"@ || name == "mem"@ || name == "dev"@ || name == "worker"@
            ==> priority_of(name) == 128,
        !(name == "display"@ || name == "wm"@ || name == "ramfs"@ || name == "hog"@ || name
            == "ui-demo"@ || name == "counter"@ || name == "clock"@ || name == "shell"@ || name
            == "net"@ || name == "ping"@ || name == "pong"@ || name == "sec"@ || name == "fs"@)
            ==> priority_of(name) == 128,
{
    lemma_all_names();
}

/// A letter tells each two of the names apart, or their lengths do.
proof fn lemma_all_names()
    ensures
        "init"@.len() == 4 && "init"@[0] == 'i',
        "pm"@.len() == 2 && "pm"@[0] == 'p',
        "mem"@.len() == 3 && "mem"@[0] == 'm',
        "dev"@.len() == 3 && "dev"@[0] == 'd',
        "worker"@.len() == 6,
        "display"@.len() == 7 && "display"@[0] == 'd',
        "ui-demo"@.len() == 7 && "ui-demo"@[0] == 'u',
        "hog"@.len() == 3 && "hog"@[0] == 'h',
        "wm"@.len() == 2 && "wm"@[0] == 'w',
        "counter"@.len() == 7 && "counter"@[0] == 'c',
        "clock"@.len() == 5 && "clock"@[0] == 'c',
        "ramfs"@.len() == 5 && "ramfs"@[0] == 'r',
        "shell"@.len() == 5 && "shell"@[0] == 's',
        "net"@.len() == 3 && "net"@[0] == 'n',
        "ping"@.len() == 4 && "ping"@[0] == 'p' && "ping"@[1] == 'i',
        "pong"@.len() == 4 && "pong"@[0] == 'p' && "pong"@[1] == 'o',
        "sec"@.len() == 3 && "sec"@[0] == 's',
        "fs"@.len() == 2 && "fs"@[0] == 'f',
{
    reveal_strlit("init");
    reveal_strlit("pm");
    reveal_strlit("mem");
    reveal_strlit("dev");
    reveal_strlit("worker");
    reveal_strlit("display");
    reveal_strlit("ui-demo");
    reveal_strlit("hog");
    reveal_strlit("wm");
    reveal_strlit("counter");
    reveal_strlit("clock");
    reveal_strlit("ramfs");
    reveal_strlit("shell");
    reveal_strlit("net");
    reveal_strlit("ping");
    reveal_strlit("pong");
    reveal_strlit("sec");
    reveal_strlit("fs");
}

/// The places of the servers on `virt`, 128 KiB apart; no other name has one.
#[verifier::rlimit(50)]
pub proof fn law_server_places(name: Seq<char>)
    ensures
        virt_base("init"@) == Some(0x4100_0000u64),
        virt_base("pm"@) == Some(0x4102_0000u64),
        virt_base("mem"@) == Some(0x4104_0000u64),
        virt_base("dev"@) == Some(0x4106_0000u64),
        virt_base("worker"@) == Some(0x4108_0000u64),
        virt_base("display"@) == Some(0x410A_0000u64),
        virt_base("ui-demo"@) == Some(0x410C_0000u64),
        virt_base("hog"@) == Some(0x410E_0000u64),
        virt_base("wm"@) == Some(0x4110_0000u64),
        virt_base("counter"@) == Some(0x4112_0000u64),
        virt_base("clock"@) == Some(0x4114_0000u64),
        virt_base("ramfs"@) == Some(0x4116_0000u64),
        virt_base("shell"@) == Some(0x4118_0000u64),
        virt_base("net"@) == Some(0x411A_0000u64),
        virt_base("ping"@) == Some(0x411C_0000u64),
        virt_base("pong"@) == Some(0x411E_0000u64),
        virt_base("sec"@) == Some(0x4120_0000u64),
        virt_base("fs"@) == Some(0x4122_0000u64),
        virt_base(name) is Some ==> name == "init"@ || name == "pm"@ || name == "mem"@ || name
            == "dev"@ || name == "worker"@ || name == "display"@ || name == "ui-demo"@ || name
            == "hog"@ || name == "wm"@ || name == "counter"@ || name == "clock"@ || name
            == "ramfs"@ || name == "shell"@ || name == "net"@ || name == "ping"@ || name
            == "pong"@ || name == "sec"@ || name == "fs"@,
{
    reveal(virt_base);
    lemma_all_names();
}

/// A server that is known is started from the first program of its name, in its region: an
/// image that does not load is answered with -9, want of frames for its tables with -13, want of
/// a slot with -8, and no task is there then.  Otherwise there is a task that enters the image,
/// with the page behind the image for its boot information and the stack behind that.
#[verifier::rlimit(50)]
pub proof fn law_server_is_started(
    pre: Host,
    bins: Seq<ServerImage>,
    name: Seq<char>,
    post: Host,
    r: Result<TaskId, i32>,
    base: u64,
    k: int,
)
    requires
        Host::spawn_post(pre, bins, name, post, r),
        pre.machine.id == 1 ==> 0x4000_0000 <= pre.machine.dram_base,
        link_base(pre.machine, name) == base,
        base != 0,
        0 <= k < bins.len(),
        bins[k].name@ == name,
        forall|x: int| 0 <= x < k ==> (#[trigger] bins[x]).name@ != name,
    ensures
        ({
            let image = bins[k].image@;
            let bad = load_error(image, pre.ram, 0, base + 0x2_0000) is Some;
            let img = loaded_image(image, 0);
            &&& bad ==> (r matches Err(e) && e == -9) && post.space == pre.space && post.frames
                == pre.frames && post.q.sched == pre.q.sched
            &&& r matches Err(e) ==> (e == -9 && bad) || e == -13 || e == -8
            &&& r matches Err(e) ==> e != -8 ==> post.q.sched == pre.q.sched
            &&& r is Ok ==> exists|root: PhysAddr, l: Layout, mem: Seq<u8>|
                {
                    &&& #[trigger] task_added(
                        pre.q.sched,
                        name,
                        img.entry,
                        root,
                        l,
                        pre.machine.id,
                        post.q.sched,
                        r,
                    )
                    &&& l.base == base
                    &&& l.boot_page == img.image_end
                    &&& img.image_end + 0x5000 <= u64::MAX ==> l.stack_base == img.image_end
                        + 0x1000 && l.stack_top == img.image_end + 0x5000
                    &&& base + 0x2_0000 <= u64::MAX ==> l.end == base + 0x2_0000
                    &&& #[trigger] image_loaded(
                        pre.ram,
                        image,
                        base,
                        mem,
                        Ok::<LoadedImage, i32>(img),
                    )
                    &&& post.ram@ == with_boot_info(
                        mem,
                        l.boot_page - pre.ram.start(),
                        r->Ok_0.0,
                        pre.machine.id,
                    )
                    &&& space_made(
                        pre.space@,
                        pre.frames,
                        pre.space.kernel_root(),
                        windows_of(pre.machine, name, l),
                        post.space@,
                        post.frames,
                        Ok::<PhysAddr, i32>(root),
                    )
                }
            &&& post.machine == pre.machine
            &&& post.q.cpus == pre.q.cpus
            &&& post.space.kernel_root() == pre.space.kernel_root()
        }),
{
    lemma_index(bins, name, 0, k);
    let image = bins[k].image@;
    assert(Host::started(pre, name, image, base, post, r));
    let (mem, got) = choose|mem: Seq<u8>, got: Result<LoadedImage, i32>|
        {
            &&& #[trigger] image_loaded(pre.ram, image, base, mem, got)
            &&& match got {
                Err(e) => {
                    &&& r == Err::<TaskId, i32>(e)
                    &&& post.ram@ == mem
                    &&& post.space == pre.space
                    &&& post.frames == pre.frames
                    &&& post.q.sched == pre.q.sched
                },
                Ok(i) => Host::placed(pre, name, base, i, mem, post, r),
            }
        };
    if let Ok(img) = got {
        let root = choose|root: Result<PhysAddr, i32>| #[trigger]
            Host::placed_in(pre, name, base, img, mem, root, post, r);
        let l = crate::server::layout(base as int, img.image_end as int);
        if r is Ok {
            assert(task_added(
                pre.q.sched,
                name,
                img.entry,
                root->Ok_0,
                l,
                pre.machine.id,
                post.q.sched,
                r,
            ));
        }
    }
}

/// The tables of a server are new; where a window is, they map its pages, and all else as the
/// kernel has it.
pub proof fn law_server_space(
    t: Tables,
    a: FrameAllocator,
    kernel: int,
    ws: Seq<Window>,
    u: Tables,
    b: FrameAllocator,
    root: PhysAddr,
    va: u64,
)
    requires
        space_made(t, a, kernel, ws, u, b, Ok::<PhysAddr, i32>(root)),
        t.live(t.frame(kernel)),
        t.levels[t.frame(kernel)] == 0,
        va < 0x1_0000_0000_0000,
    ensures
        u.leaf_from(t.frame(root as int), 0, va) == opened_leaf(
            t.leaf_from(t.frame(kernel), 0, va),
            ws,
            ws.len() as int,
            va,
        ),
        !t.live(t.frame(root as int)),
        u.is_root(root as int),
{
    let (r0, mid, left, n) = choose|r0: PhysAddr, mid: Tables, left: FrameAllocator, n: int|
        space_steps(t, a, kernel, ws, r0, mid, left, n, u, b, Ok::<PhysAddr, i32>(root));
    assert(r0 == root);
    let f = t.frame(root as int);
    assert(mid.leaf_from(f, 0, va) == t.leaf_from(t.frame(kernel), 0, va));
    assert(mid.live(f) && mid.levels[f] == 0);
    assert(mid.frame(root as int) == f);
    assert(u.leaf_from(f, 0, va) == opened_leaf(mid.leaf_from(f, 0, va), ws, n, va));
}

/// Making the tables of a server fails at once exactly where the kernel's tables cannot be
/// copied; otherwise its windows are opened in the copy, and want of frames there is the one
/// other reason.
pub proof fn law_space_where_tables_fit(
    t: Tables,
    a: FrameAllocator,
    kernel: int,
    ws: Seq<Window>,
    u: Tables,
    b: FrameAllocator,
    r: Result<PhysAddr, i32>,
)
    requires
        space_made(t, a, kernel, ws, u, b, r),
    ensures
        ({
            let n = crate::mem::address_space::tree_size(t, t.frame(kernel), 0);
            &&& n > a.free_set().len() ==> (r matches Err(e) && e == -13) && u == t && b == a
            &&& n <= a.free_set().len() ==> exists|
                root: PhysAddr,
                mid: Tables,
                left: FrameAllocator,
                k: int,
            |
                {
                    &&& #[trigger] space_steps(t, a, kernel, ws, root, mid, left, k, u, b, r)
                    &&& left.free_set().len() == a.free_set().len() - n
                    &&& k < ws.len() <==> (r matches Err(e) && e == -13)
                    &&& k < ws.len() ==> ws[k].need(u, root as int) > b.free_set().len()
                }
        }),
{
    let n = crate::mem::address_space::tree_size(t, t.frame(kernel), 0);
    if n <= a.free_set().len() {
        let (root, mid, left, k) = choose|
            root: PhysAddr,
            mid: Tables,
            left: FrameAllocator,
            k: int,
        | space_steps(t, a, kernel, ws, root, mid, left, k, u, b, r);
        assert(space_steps(t, a, kernel, ws, root, mid, left, k, u, b, r));
    }
}

} // verus!
