//! Guest VMs: loading, lifecycle, shared memory and time slicing.

use vstd::prelude::*;
use vstd::utf8::encode_utf8;
use crate::bytes::{put, zeros};
use crate::hypervisor::{GuestEnv, HvError, Hypervisor, VcpuEntry, VmConfig, VmHandle};
use crate::mem::frame::FrameAllocator;
use crate::mem::ram::Ram;
use crate::mem::PhysAddr;
use crate::text::{name_field, name_text, name_to_str, padded};
use crate::vm::loader::{lemma_same_error, load_error, load_flat, loaded, loaded_image};

pub mod laws;
pub mod loader;
pub mod sched;
pub mod shmem;

verus! {

/// Most VMs.
pub const MAX_VMS: usize = 4;

/// A VM.
#[derive(Clone, Copy)]
pub struct Vm {
    pub handle: VmHandle,
    pub name: [u8; 16],
    /// Base of the VM's RAM.
    pub ram_base: PhysAddr,
    pub ram_size: u64,
    /// Guest entry point.
    pub entry: PhysAddr,
    /// Boot arguments: x4 is the shared memory, x5 the yield function.
    pub boot: [u64; 2],
}

impl Vm {
    /// The name as text.
    pub fn name_str(&self) -> (s: &str)
        ensures
            s@ == name_text(self.name@),
    {
        name_to_str(self.name.as_slice())
    }
}

/// First index from `i` on of the VM with the handle; past the end if there is none.
pub open spec fn index_of(vms: Seq<Option<Vm>>, h: VmHandle, i: int) -> int
    decreases vms.len() - i,
{
    if i >= vms.len() {
        vms.len() as int
    } else if vms[i] is Some && vms[i]->0.handle == h {
        i
    } else {
        index_of(vms, h, i + 1)
    }
}

/// First free slot from `i` on; past the end if there is none.
pub open spec fn free_slot(vms: Seq<Option<Vm>>, i: int) -> int
    decreases vms.len() - i,
{
    if i >= vms.len() {
        vms.len() as int
    } else if vms[i] is None {
        i
    } else {
        free_slot(vms, i + 1)
    }
}

/// `v` is the record of a VM created so.
pub open spec fn is_record(
    v: Vm,
    handle: VmHandle,
    name: Seq<char>,
    config: VmConfig,
) -> bool {
    &&& v.handle == handle
    &&& v.name@ == padded(encode_utf8(name), 15, 16)
    &&& v.ram_base == config.ram_base
    &&& v.ram_size == config.ram_size
    &&& v.entry == config.entry
    &&& v.boot == config.boot
}

/// The memory that VMs are made from.
pub struct Memory {
    pub frames: FrameAllocator,
    pub ram: Ram,
}

impl Memory {
    /// The frames lie in the memory.
    pub open spec fn wf(self) -> bool {
        &&& self.frames.wf()
        &&& self.ram.wf()
        &&& self.ram.has(self.frames.start(), self.frames.size())
        &&& self.frames.start() + self.frames.size() + 0xFFF <= u64::MAX
    }
}

/// The VMs.
pub struct Manager {
    vms: [Option<Vm>; MAX_VMS],
}

impl Manager {
    /// The slots.
    pub closed spec fn slots(self) -> Seq<Option<Vm>> {
        self.vms@
    }

    /// The VM with the handle is recorded.
    pub open spec fn has(self, h: VmHandle) -> bool {
        index_of(self.slots(), h, 0) < self.slots().len()
    }

    /// The VM with the handle.
    pub open spec fn vm(self, h: VmHandle) -> Vm {
        self.slots()[index_of(self.slots(), h, 0)]->0
    }

    /// No VMs.
    pub fn new() -> (m: Self)
        ensures
            m.slots().len() == MAX_VMS,
            forall|i: int| 0 <= i < MAX_VMS ==> #[trigger] m.slots()[i] is None,
    {
        Manager { vms: [None, None, None, None] }
    }

    fn index(&self, h: VmHandle) -> (i: usize)
        ensures
            i == index_of(self.slots(), h, 0),
            i <= MAX_VMS,
            i < MAX_VMS ==> self.vms@[i as int] is Some && self.vms@[i as int]->0.handle == h,
    {
        let mut i: usize = 0;
        while i < MAX_VMS
            invariant
                i <= MAX_VMS,
                index_of(self.vms@, h, 0) == index_of(self.vms@, h, i as int),
            decreases MAX_VMS - i,
        {
            if let Some(v) = self.vms[i] {
                if v.handle.0 == h.0 {
                    return i;
                }
            }
            i = i + 1;
        }
        i
    }

    /// The VM's record, once the backend has created it.
    fn record(&mut self, v: Vm) -> (r: Result<VmHandle, HvError>)
        ensures
            ({
                let i = free_slot(old(self).slots(), 0);
                if i < MAX_VMS {
                    &&& 0 <= i < old(self).slots().len()
                    &&& r == Ok::<VmHandle, HvError>(v.handle)
                    &&& final(self).slots() == old(self).slots().update(i, Some(v))
                } else {
                    &&& r == Err::<VmHandle, HvError>(HvError::NoMemory)
                    &&& *final(self) == *old(self)
                }
            }),
    {
        let ghost pre = *self;
        let mut i: usize = 0;
        while i < MAX_VMS
            invariant
                i <= MAX_VMS,
                *self == pre,
                pre == *old(self),
                free_slot(pre.slots(), 0) == free_slot(pre.slots(), i as int),
            decreases MAX_VMS - i,
        {
            if self.vms[i].is_none() {
                self.vms[i] = Some(v);
                return Ok(v.handle);
            }
            i = i + 1;
        }
        Err(HvError::NoMemory)
    }

    /// The backend answered `made` to the creation of a VM, which is recorded in the first
    /// free slot.
    pub open spec fn made<H: Hypervisor>(
        pre: Self,
        hv: H,
        name: Seq<char>,
        config: VmConfig,
        made: Result<VmHandle, HvError>,
        post: Self,
        hv_after: H,
        r: Result<VmHandle, HvError>,
    ) -> bool {
        &&& H::vm_created(hv, config, hv_after, made)
        &&& match made {
            Err(e) => r == Err::<VmHandle, HvError>(e) && post == pre,
            Ok(h) => {
                let i = free_slot(pre.slots(), 0);
                if i < MAX_VMS {
                    &&& r == Ok::<VmHandle, HvError>(h)
                    &&& post.slots()[i] is Some
                    &&& is_record(post.slots()[i]->0, h, name, config)
                    &&& post.slots() == pre.slots().update(i, post.slots()[i])
                } else {
                    r == Err::<VmHandle, HvError>(HvError::NoMemory) && post == pre
                }
            },
        }
    }

    /// What [`Manager::create_and_load`] does once the RAM at `base` was allocated.
    pub open spec fn loaded_into<H: Hypervisor>(
        pre: Self,
        ram: Ram,
        hv: H,
        name: Seq<char>,
        image: Seq<u8>,
        base: PhysAddr,
        size: u64,
        boot: [u64; 2],
        post: Self,
        ram_after: Seq<u8>,
        hv_after: H,
        r: Result<VmHandle, HvError>,
    ) -> bool {
        let at = base - ram.start();
        let clean = put(ram@, at, zeros(size as int));
        match load_error(image, ram, base as int, size as int) {
            Some(e) => {
                &&& r == Err::<VmHandle, HvError>(e)
                &&& post == pre
                &&& ram_after == clean
                &&& hv_after == hv
            },
            None => {
                let config = VmConfig {
                    ram_base: base,
                    ram_size: size,
                    entry: loaded_image(image, base as int).entry,
                    boot,
                };
                &&& ram_after == loaded(image, clean, at, base as int)
                &&& exists|made: Result<VmHandle, HvError>| #[trigger]
                    Self::made(pre, hv, name, config, made, post, hv_after, r)
            },
        }
    }

    fn load_into<H: Hypervisor>(
        &mut self,
        ram: &mut Ram,
        name: &str,
        image: &[u8],
        base: PhysAddr,
        size: u64,
        boot: [u64; 2],
        hv: &mut H,
    ) -> (r: Result<VmHandle, HvError>)
        requires
            old(ram).wf(),
            old(ram).has(base as int, size as int),
            base + size + 0xFFF <= u64::MAX,
            old(hv).wf(),
            old(hv).can_name(),
        ensures
            final(ram).wf(),
            final(ram).start() == old(ram).start(),
            final(ram)@.len() == old(ram)@.len(),
            final(hv).wf(),
            Self::loaded_into(
                *old(self),
                *old(ram),
                *old(hv),
                name@,
                image@,
                base,
                size,
                boot,
                *final(self),
                final(ram)@,
                *final(hv),
                r,
            ),
    {
        let ghost pre = *ram;
        ram.zero(base, size);
        proof {
            lemma_same_error(image@, pre, *ram, base as int, size as int);
        }
        let entry: u64 = match load_flat(image, ram, base, size) {
            Ok(e) => e,
            Err(e) => {
                return Err(e);
            },
        };
        let config = VmConfig { ram_base: base, ram_size: size, entry, boot };
        let made = hv.vm_create(config);
        assert(H::vm_created(*old(hv), config, *hv, made));
        match made {
            Ok(handle) => {
                let v = Vm {
                    handle,
                    name: name_field(name, 15),
                    ram_base: base,
                    ram_size: size,
                    entry,
                    boot,
                };
                assert(is_record(v, handle, name@, config));
                let r = self.record(v);
                assert(Self::made(*old(self), *old(hv), name@, config, made, *self, *hv, r));
                r
            },
            Err(e) => {
                let r = Err(e);
                assert(Self::made(*old(self), *old(hv), name@, config, made, *self, *hv, r));
                r
            },
        }
    }

    /// Allocate `ram_pages` frames, zero them, load the image into them and create the VM
    /// through the backend.  `boot` goes into the guest's x4 and x5.
    pub fn create_and_load<H: Hypervisor>(
        &mut self,
        mem: &mut Memory,
        name: &str,
        image: &[u8],
        ram_pages: usize,
        boot: [u64; 2],
        hv: &mut H,
    ) -> (r: Result<VmHandle, HvError>)
        requires
            old(mem).wf(),
            old(hv).wf(),
            old(hv).can_name(),
        ensures
            final(mem).wf(),
            final(hv).wf(),
            final(mem).ram.start() == old(mem).ram.start(),
            exists|base: Option<PhysAddr>|
                {
                    &&& #[trigger] old(mem).frames.alloc_contiguous_post(
                        ram_pages as int,
                        final(mem).frames,
                        base,
                    )
                    &&& match base {
                        None => {
                            &&& r == Err::<VmHandle, HvError>(HvError::NoMemory)
                            &&& *final(self) == *old(self)
                            &&& *final(hv) == *old(hv)
                            &&& final(mem).ram@ == old(mem).ram@
                        },
                        Some(b) => Self::loaded_into(
                            *old(self),
                            old(mem).ram,
                            *old(hv),
                            name@,
                            image@,
                            b,
                            (ram_pages * 4096) as u64,
                            boot,
                            *final(self),
                            final(mem).ram@,
                            *final(hv),
                            r,
                        ),
                    }
                },
    {
        let ghost pre = *mem;
        proof {
            mem.frames.lemma_window();
        }
        let base: u64 = match mem.frames.alloc_contiguous(ram_pages) {
            Some(b) => b,
            None => {
                let ghost none: Option<PhysAddr> = None;
                assert(pre.frames.alloc_contiguous_post(ram_pages as int, mem.frames, none));
                return Err(HvError::NoMemory);
            },
        };
        let size: u64 = ram_pages as u64 * 4096;
        self.load_into(&mut mem.ram, name, image, base, size, boot, hv)
    }

    /// Run the VM's first vCPU: the caller switches to what is returned.
    pub fn start<H: Hypervisor>(&self, handle: VmHandle, hv: &mut H, env: GuestEnv) -> (r: Result<
        VcpuEntry,
        HvError,
    >)
        requires
            old(hv).wf(),
        ensures
            final(hv).wf(),
            if self.has(handle) {
                H::vcpu_entered(*old(hv), handle, 0, env, *final(hv), r)
            } else {
                r == Err::<VcpuEntry, HvError>(HvError::InvalidHandle) && *final(hv) == *old(hv)
            },
    {
        if self.find(handle).is_none() {
            return Err(HvError::InvalidHandle);
        }
        hv.vcpu_enter(handle, 0, env)
    }

    /// Run a VM again that has exited before.
    pub fn resume<H: Hypervisor>(&self, handle: VmHandle, hv: &mut H, env: GuestEnv) -> (r: Result<
        VcpuEntry,
        HvError,
    >)
        requires
            old(hv).wf(),
        ensures
            final(hv).wf(),
            if self.has(handle) {
                H::vcpu_entered(*old(hv), handle, 0, env, *final(hv), r)
            } else {
                r == Err::<VcpuEntry, HvError>(HvError::InvalidHandle) && *final(hv) == *old(hv)
            },
    {
        if self.find(handle).is_none() {
            return Err(HvError::InvalidHandle);
        }
        hv.vcpu_enter(handle, 0, env)
    }

    /// The VM with the handle, to be changed.
    pub fn find_mut(&mut self, handle: VmHandle) -> (r: Option<&mut Vm>)
        ensures
            match r {
                Some(v) => old(self).has(handle) && *v == old(self).vm(handle) && final(
                    self).slots() == old(self).slots().update(
                    index_of(old(self).slots(), handle, 0),
                    Some(*final(v)),
                ),
                None => !old(self).has(handle) && final(self).slots() == old(self).slots(),
            },
    {
        let i: usize = self.index(handle);
        if i < MAX_VMS {
            match &mut self.vms[i] {
                Some(v) => Some(v),
                None => None,
            }
        } else {
            None
        }
    }

    /// The VM with the handle.
    pub fn find(&self, handle: VmHandle) -> (r: Option<&Vm>)
        ensures
            match r {
                Some(v) => self.has(handle) && *v == self.vm(handle),
                None => !self.has(handle),
            },
    {
        let i: usize = self.index(handle);
        if i < MAX_VMS {
            self.vms[i].as_ref()
        } else {
            None
        }
    }
}

/// A handle leads to the first slot with a VM that has it.
pub proof fn law_vm_by_handle(vms: Seq<Option<Vm>>, h: VmHandle, from: int, i: int)
    requires
        0 <= from <= i <= vms.len(),
        i < vms.len() ==> vms[i] is Some && vms[i]->0.handle == h,
        forall|k: int| from <= k < i ==> !(#[trigger] vms[k] is Some && vms[k]->0.handle == h),
    ensures
        index_of(vms, h, from) == i,
    decreases i - from,
{
    if from < i {
        assert(!(vms[from] is Some && vms[from]->0.handle == h));
        law_vm_by_handle(vms, h, from + 1, i);
    }
}

proof fn lemma_free_slot(vms: Seq<Option<Vm>>, from: int, i: int)
    requires
        0 <= from <= i <= vms.len(),
        i < vms.len() ==> vms[i] is None,
        forall|k: int| from <= k < i ==> (#[trigger] vms[k]) is Some,
    ensures
        free_slot(vms, from) == i,
    decreases i - from,
{
    if from < i {
        assert(vms[from] is Some);
        lemma_free_slot(vms, from + 1, i);
    }
}

/// A VM that the hypervisor made takes the first free of four slots, with its name cut to 15
/// bytes and what it was made from; a refusal is passed on, and without a slot there is no
/// memory.
pub proof fn law_vm_is_recorded<H: Hypervisor>(
    pre: Manager,
    hv: H,
    name: Seq<char>,
    config: VmConfig,
    made: Result<VmHandle, HvError>,
    post: Manager,
    hv_after: H,
    r: Result<VmHandle, HvError>,
    i: int,
    j: int,
    k: int,
)
    requires
        pre.slots().len() == 4,
        Manager::made(pre, hv, name, config, made, post, hv_after, r),
        0 <= i <= 4,
        i < 4 ==> pre.slots()[i] is None,
        forall|x: int| 0 <= x < i ==> (#[trigger] pre.slots()[x]) is Some,
        0 <= j < 4,
        0 <= k < 16,
    ensures
        H::vm_created(hv, config, hv_after, made),
        made matches Err(e) ==> r == Err::<VmHandle, HvError>(e) && post == pre,
        made is Ok && i == 4 ==> r == Err::<VmHandle, HvError>(HvError::NoMemory) && post == pre,
        made is Ok && i < 4 ==> {
            let v = post.slots()[i]->0;
            let bytes = encode_utf8(name);
            &&& r == made
            &&& post.slots()[i] is Some
            &&& v.handle == made->Ok_0
            &&& v.ram_base == config.ram_base && v.ram_size == config.ram_size && v.entry
                == config.entry && v.boot == config.boot
            &&& v.name@[k] == if k < 15 && k < bytes.len() {
                bytes[k]
            } else {
                0
            }
            &&& j != i ==> post.slots()[j] == pre.slots()[j]
        },
{
    lemma_free_slot(pre.slots(), 0, i);
}

/// Loading a guest clears its memory first; what cannot be loaded is refused with the memory
/// cleared and nothing made; what can is laid out, and the VM made from where it begins.
pub proof fn law_guest_memory_is_cleared<H: Hypervisor>(
    pre: Manager,
    ram: Ram,
    hv: H,
    name: Seq<char>,
    image: Seq<u8>,
    base: PhysAddr,
    size: u64,
    boot: [u64; 2],
    post: Manager,
    ram_after: Seq<u8>,
    hv_after: H,
    r: Result<VmHandle, HvError>,
    k: int,
)
    requires
        ram.wf(),
        size > 0,
        ram.has(base as int, size as int),
        Manager::loaded_into(
            pre,
            ram,
            hv,
            name,
            image,
            base,
            size,
            boot,
            post,
            ram_after,
            hv_after,
            r,
        ),
        0 <= k < ram@.len(),
    ensures
        load_error(image, ram, base as int, size as int) matches Some(e) ==> {
            let at = base - ram.start();
            &&& r == Err::<VmHandle, HvError>(e)
            &&& post == pre
            &&& hv_after == hv
            &&& ram_after[k] == if at <= k < at + size {
                0
            } else {
                ram@[k]
            }
        },
        load_error(image, ram, base as int, size as int) is None ==> {
            let at = base - ram.start();
            exists|config: VmConfig, made: Result<VmHandle, HvError>|
                {
                    &&& #[trigger] Manager::made(pre, hv, name, config, made, post, hv_after, r)
                    &&& config.ram_base == base && config.ram_size == size && config.boot == boot
                    &&& config.entry == loaded_image(image, base as int).entry
                    &&& ram_after == loaded(
                        image,
                        put(ram@, at, zeros(size as int)),
                        at,
                        base as int,
                    )
                }
        },
{
}

/// A VM is there exactly when a slot has its handle, and is the one of the first such slot.
pub proof fn law_manager_finds_vm(m: Manager, h: VmHandle, i: int)
    requires
        m.slots().len() == 4,
        0 <= i <= 4,
        i < 4 ==> m.slots()[i] is Some && m.slots()[i]->0.handle == h,
        forall|k: int|
            0 <= k < i ==> !(#[trigger] m.slots()[k] is Some && m.slots()[k]->0.handle == h),
    ensures
        m.has(h) <==> i < 4,
        i < 4 ==> m.vm(h) == m.slots()[i]->0,
{
    law_vm_by_handle(m.slots(), h, 0, i);
}

} // verus!
