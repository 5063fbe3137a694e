//! The EL3 monitor: power calls and services of the secure world.
//!
//! The kernel calls the monitor with `smc`: the function in x0, arguments in x1 to x5, the
//! result in x0.  Pointers are physical addresses of the kernel's memory.

use vstd::prelude::*;
use crate::arch::aarch64::monitor::cipher::{
    fnv, fnv1a, fnv1a_extend, law_digest_extends, FNV_OFFSET,
};
use crate::arch::aarch64::monitor::keybox::Keybox;
use crate::arch::aarch64::monitor::store::{lookup, storable, stored, SecureStore, STORE_DATA_MAX};
use crate::bytes::{le64_bytes, put};
use crate::mem::ram::{span, Ram};

pub mod boot;
pub mod calls;
pub mod cipher;
pub mod keybox;
pub mod laws;
pub mod store;

verus! {

pub const SMCCC_VERSION: u64 = 0x8000_0000;

pub const PSCI_VERSION: u64 = 0xC400_0000;

pub const PSCI_CPU_OFF: u64 = 0xC400_0002;

pub const PSCI_CPU_ON: u64 = 0xC400_0003;

pub const PSCI_FEATURES: u64 = 0xC400_000A;

pub const PSCI_SYSTEM_OFF: u64 = 0x8400_0008;

pub const PSCI_SYSTEM_RESET: u64 = 0x8400_0009;

/// Measure a region: x1 base, x2 size; returns its digest.
pub const SEC_MEASURE: u64 = 0x8300_0001;

pub const SEC_TICK_GET: u64 = 0x8300_0002;

/// Arm the secure timer: x1 is the period in ms.
pub const SEC_TICK_ARM: u64 = 0x8300_0003;

/// Run the secure world: x1 iterations, x2 round; returns its tick count.
pub const SEC_WORLD_SWITCH: u64 = 0x8300_0004;

pub const SEC_TCB_PRINT: u64 = 0x8300_0005;

pub const SEC_COUNTER_INCR: u64 = 0x8300_0006;

/// Store a blob: x1 name, x2 data, x3 length; returns 0 or -1.
pub const SEC_STORAGE_PUT: u64 = 0x8300_0007;

/// Load a blob: x1 name, x2 buffer, x3 its size; returns the length, -1 (missing) or -2 (the
/// buffer is too small).
pub const SEC_STORAGE_GET: u64 = 0x8300_0008;

/// Make a key in slot x1; returns 0 or -1.
pub const SEC_KEYBOX_GEN: u64 = 0x8300_0009;

/// Seal in place: x1 key, x2 buffer, x3 length; returns 0 or -1.
pub const SEC_KEYBOX_SEAL: u64 = 0x8300_000A;

/// Unseal in place: the inverse of sealing.
pub const SEC_KEYBOX_UNSEAL: u64 = 0x8300_000B;

/// Quote a region: x1 base, x2 size, x3 nonce, x4 buffer, x5 its size; returns 0 or -1.
pub const SEC_ATTEST: u64 = 0x8300_000C;

pub const PSCI_SUCCESS: u64 = 0;

pub const PSCI_NOT_SUPPORTED: u64 = 0xFFFF_FFFF;

pub const PSCI_INVALID_PARAMS: u64 = 0xFFFF_FFFE;

/// -1.
pub const SEC_FAILED: u64 = 0xFFFF_FFFF_FFFF_FFFF;

/// -2.
pub const SEC_TOO_SMALL: u64 = 0xFFFF_FFFF_FFFF_FFFE;

/// Version 1.1, of the calling convention and of PSCI.
pub const VERSION_1_1: u64 = 0x0001_0001;

/// Mark of a command to a parked CPU.
pub const CMD_MAGIC: u64 = 0x434D_4454;

/// Interrupt that wakes a parked CPU.
pub const WAKE_SGI: u64 = 15;

/// CPUs that the monitor has room for.
pub const MONITOR_CPUS: usize = 8;

/// Bytes of a quote: digest and code.
pub const ATTEST_OUT: u64 = 16;

/// Largest region that is quoted.
pub const ATTEST_REGION_MAX: u64 = 0x100_0000;

/// Text that the monitor prints to show that it can.
pub fn banner() -> (s: &'static str)
    ensures
        s@ == "EL3 monitor: TCB secure console reachable\r\n"@,
{
    "EL3 monitor: TCB secure console reachable\r\n"
}

/// Memory of the secure world.
pub struct SecureData {
    /// What the payload is to do next.
    pub iters: u64,
    pub round: u64,
    /// The payload's console.
    pub uart: u64,
    /// Secure timer ticks.
    pub ticks: u64,
    /// Monotonic counter.
    pub counter: u64,
    /// Log of all measurements.
    pub measure: u64,
    /// Known to the monitor alone.
    pub secret: u64,
    pub store: SecureStore,
    pub keybox: Keybox,
}

/// The monitor.  Without a secure world its services fail or return 0.
pub struct Monitor {
    pub world: Option<SecureData>,
    pub cpu_count: u64,
    /// Commands to parked CPUs: mark and entry.
    pub cmd: [[u64; 2]; MONITOR_CPUS],
}

/// What the monitor reads of the machine.
#[derive(Debug, Clone, Copy)]
pub struct MonitorClock {
    /// The counter, as a source of entropy.
    pub counter: u64,
    /// Its frequency in Hz.
    pub freq: u64,
}

/// What is left to be done outside.
#[derive(Debug, Clone, Copy, PartialEq, Eq, Structural)]
pub enum SmcEffect {
    Nothing,
    /// Write ICC_SGI1R_EL3.
    Wake(u64),
    /// Arm the secure timer with so many counts.
    ArmTimer(u64),
    /// Print [`banner`].
    Banner,
}

/// Arguments x0 to x5 of a call.
#[derive(Debug, Clone, Copy, PartialEq, Eq, Structural)]
pub struct SmcCall {
    pub id: u64,
    pub a1: u64,
    pub a2: u64,
    pub a3: u64,
    pub a4: u64,
    pub a5: u64,
}

/// CPU_ON can start the CPU: it is one of the secondaries.
pub open spec fn can_start(m: Monitor, target: u64) -> bool {
    let cpu = target % 256;
    0 < cpu < MONITOR_CPUS && cpu < m.cpu_count
}

/// Code over the secret, the nonce and the digest.
pub open spec fn quote_code(secret: u64, nonce: u64, digest: u64) -> u64 {
    fnv(FNV_OFFSET, le64_bytes(secret) + le64_bytes(nonce) + le64_bytes(digest))
}

/// The secret of the world, 0 without one.
pub open spec fn secret_of(m: Monitor) -> u64 {
    match m.world {
        Some(w) => w.secret,
        None => 0,
    }
}

/// A quote is given: there is room for it, and the region is not too large.
pub open spec fn can_quote(size: u64, cap: u64) -> bool {
    cap >= ATTEST_OUT && size <= ATTEST_REGION_MAX
}

/// Memory with the quote at `out`.
pub open spec fn with_quote(mem: Seq<u8>, at: int, digest: u64, code: u64) -> Seq<u8> {
    put(put(mem, at, le64_bytes(digest)), at + 8, le64_bytes(code))
}

/// The pointers of the call lead to memory, as far as it follows them.
pub open spec fn smc_ok(m: Monitor, ns: Ram, c: SmcCall) -> bool {
    if c.id == SEC_MEASURE {
        ns.has(c.a1 as int, c.a2 as int)
    } else if c.id == SEC_STORAGE_PUT {
        m.world is Some && c.a3 <= STORE_DATA_MAX ==> ns.has(c.a1 as int, 8) && ns.has(
            c.a2 as int,
            c.a3 as int,
        )
    } else if c.id == SEC_STORAGE_GET {
        m.world is Some ==> {
            &&& ns.has(c.a1 as int, 8)
            &&& lookup(m.world->0.store.slots@, ns.word(c.a1 as int) as u64) matches Some(b)
                ==> b.len() <= c.a3 ==> ns.has(c.a2 as int, b.len() as int)
        }
    } else if c.id == SEC_KEYBOX_SEAL {
        m.world is Some && m.world->0.keybox.can_seal(c.a1, c.a3 as int) ==> ns.has(
            c.a2 as int,
            c.a3 as int,
        )
    } else if c.id == SEC_KEYBOX_UNSEAL {
        m.world is Some && m.world->0.keybox.can_unseal(c.a1, c.a3 as int) ==> ns.has(
            c.a2 as int,
            c.a3 as int,
        )
    } else if c.id == SEC_ATTEST {
        can_quote(c.a2, c.a5) ==> ns.has(c.a1 as int, c.a2 as int) && ns.has(
            c.a4 as int,
            ATTEST_OUT as int,
        )
    } else {
        true
    }
}

impl SecureData {
    pub open spec fn wf(self) -> bool {
        self.store.wf() && self.keybox.wf()
    }
}

/// What storing a blob does.
pub open spec fn put_post(pre: Monitor, post: Monitor, ns: Ram, c: SmcCall, x0: u64) -> bool {
    match pre.world {
        Some(w) => {
            let name = ns.word(c.a1 as int) as u64;
            if c.a3 <= STORE_DATA_MAX && storable(w.store.slots@, name, c.a3 as int) {
                &&& x0 == 0
                &&& post.world matches Some(u) && u == (SecureData { store: u.store, ..w })
                    && stored(
                    w.store.slots@,
                    name,
                    ns.range(c.a2 as int, c.a3 as int),
                    u.store.slots@,
                )
            } else {
                x0 == SEC_FAILED && post.world == pre.world
            }
        },
        None => x0 == SEC_FAILED && post.world == pre.world,
    }
}

/// What loading a blob returns, and what it leaves in the kernel's memory.
pub open spec fn get_post(m: Monitor, ns: Ram, c: SmcCall, mem: Seq<u8>, x0: u64) -> bool {
    match m.world {
        Some(w) => match lookup(w.store.slots@, ns.word(c.a1 as int) as u64) {
            Some(b) => if b.len() > c.a3 {
                x0 == SEC_TOO_SMALL && mem == ns@
            } else {
                x0 == b.len() && mem == ns.with(c.a2 as int, b)
            },
            None => x0 == SEC_FAILED && mem == ns@,
        },
        None => x0 == SEC_FAILED && mem == ns@,
    }
}

/// What sealing the kernel's bytes does.
pub open spec fn seal_post(
    pre: Monitor,
    post: Monitor,
    ns: Ram,
    c: SmcCall,
    mem: Seq<u8>,
    x0: u64,
) -> bool {
    if pre.world is Some && pre.world->0.keybox.can_seal(c.a1, c.a3 as int) {
        let w = pre.world->0;
        &&& x0 == 0
        &&& mem.len() == ns@.len()
        &&& post.world matches Some(u) && u == (SecureData { keybox: u.keybox, ..w }) && {
            let sealed = span(mem, c.a2 - ns.start(), c.a3 as int);
            &&& mem == ns.with(c.a2 as int, sealed)
            &&& Keybox::sealed(
                w.keybox,
                c.a1,
                ns.range(c.a2 as int, c.a3 as int),
                u.keybox,
                sealed,
            )
        }
    } else {
        x0 == SEC_FAILED && post.world == pre.world && mem == ns@
    }
}

/// What unsealing the kernel's bytes does.
pub open spec fn unseal_post(m: Monitor, ns: Ram, c: SmcCall, mem: Seq<u8>, x0: u64) -> bool {
    if m.world is Some && m.world->0.keybox.can_unseal(c.a1, c.a3 as int) {
        &&& x0 == 0
        &&& mem == ns.with(
            c.a2 as int,
            m.world->0.keybox.unsealed(c.a1, ns.range(c.a2 as int, c.a3 as int)),
        )
    } else {
        x0 == SEC_FAILED && mem == ns@
    }
}

/// What quoting a region returns, and what it leaves in the kernel's memory.
pub open spec fn quote_post(m: Monitor, ns: Ram, c: SmcCall, mem: Seq<u8>, x0: u64) -> bool {
    if can_quote(c.a2, c.a5) {
        let digest = fnv(FNV_OFFSET, ns.range(c.a1 as int, c.a2 as int));
        &&& x0 == 0
        &&& mem == with_quote(
            ns@,
            c.a4 - ns.start(),
            digest,
            quote_code(secret_of(m), c.a3, digest),
        )
    } else {
        x0 == SEC_FAILED && mem == ns@
    }
}

/// The world after a region with the digest was measured: the digest extends the log.
pub open spec fn measured(w: Option<SecureData>, digest: u64) -> Option<SecureData> {
    match w {
        Some(d) => Some(SecureData { measure: fnv(d.measure, le64_bytes(digest)), ..d }),
        None => None,
    }
}

/// What a call to the monitor does; `mem` is the kernel's memory afterwards.
pub open spec fn smc_post(
    pre: Monitor,
    post: Monitor,
    ns: Ram,
    mem: Seq<u8>,
    c: SmcCall,
    clock: MonitorClock,
    x0: u64,
    effect: SmcEffect,
) -> bool {
    &&& post.cpu_count == pre.cpu_count
    &&& c.id != PSCI_CPU_ON ==> post.cmd@ == pre.cmd@
    &&& c.id != PSCI_CPU_ON && c.id != SEC_TICK_ARM && c.id != SEC_TCB_PRINT ==> effect
        == SmcEffect::Nothing
    &&& if c.id == SEC_STORAGE_GET {
        get_post(pre, ns, c, mem, x0) && post.world == pre.world
    } else if c.id == SEC_KEYBOX_SEAL {
        seal_post(pre, post, ns, c, mem, x0)
    } else if c.id == SEC_KEYBOX_UNSEAL {
        unseal_post(pre, ns, c, mem, x0) && post.world == pre.world
    } else if c.id == SEC_ATTEST {
        quote_post(pre, ns, c, mem, x0) && post.world == pre.world
    } else {
        &&& mem == ns@
        &&& if c.id == SEC_STORAGE_PUT {
            put_post(pre, post, ns, c, x0)
        } else if c.id == SEC_MEASURE {
            let digest = fnv(FNV_OFFSET, ns.range(c.a1 as int, c.a2 as int));
            x0 == digest && post.world == measured(pre.world, digest)
        } else if c.id == SEC_COUNTER_INCR {
            match pre.world {
                Some(w) => {
                    &&& x0 == w.counter.wrapping_add(1)
                    &&& post.world == Some(SecureData { counter: x0, ..w })
                },
                None => x0 == 1 && post.world is None,
            }
        } else if c.id == SEC_KEYBOX_GEN {
            if pre.world is Some && c.a1 < crate::arch::aarch64::monitor::keybox::KEYBOX_KEYS {
                let w = pre.world->0;
                &&& x0 == 0
                &&& post.world matches Some(u) && u == (SecureData { keybox: u.keybox, ..w })
                    && u.keybox.slots@ == w.keybox.slots@.update(
                    c.a1 as int,
                    crate::arch::aarch64::monitor::keybox::made_key(clock.counter, w.secret),
                )
            } else {
                x0 == SEC_FAILED && post.world == pre.world
            }
        } else {
            &&& post.world == pre.world
            &&& if c.id == PSCI_CPU_ON {
                if can_start(pre, c.a1) {
                    let cpu = c.a1 as int % 256;
                    &&& x0 == PSCI_SUCCESS
                    &&& effect == SmcEffect::Wake(0xF00_0000u64 | (1u64 << (cpu as u64)))
                    &&& post.cmd@.len() == pre.cmd@.len()
                    &&& post.cmd@[cpu]@ == seq![CMD_MAGIC, c.a2]
                    &&& forall|i: int|
                        0 <= i < MONITOR_CPUS && i != cpu ==> #[trigger] post.cmd@[i]
                            == pre.cmd@[i]
                } else {
                    &&& x0 == PSCI_INVALID_PARAMS
                    &&& effect == SmcEffect::Nothing
                    &&& post.cmd@ == pre.cmd@
                }
            } else if c.id == SEC_TICK_ARM {
                x0 == 0 && effect == SmcEffect::ArmTimer(clock.freq.wrapping_mul(c.a1) / 1000)
            } else if c.id == SEC_TCB_PRINT {
                x0 == 0 && effect == SmcEffect::Banner
            } else if c.id == SEC_TICK_GET {
                x0 == match pre.world {
                    Some(w) => w.ticks,
                    None => 0,
                }
            } else if c.id == SMCCC_VERSION || c.id == PSCI_VERSION {
                x0 == VERSION_1_1
            } else if c.id == PSCI_FEATURES {
                x0 == 0
            } else {
                x0 == PSCI_NOT_SUPPORTED
            }
        }
    }
}

impl Monitor {
    pub open spec fn wf(self) -> bool {
        self.world matches Some(w) ==> w.wf()
    }

    /// CPUs of the machine, as the monitor found them.
    pub fn cpu_count(&self) -> (n: usize)
        requires
            self.cpu_count <= 0xFFFF_FFFF,
        ensures
            n == self.cpu_count,
    {
        self.cpu_count as usize
    }

    fn secret(&self) -> (s: u64)
        ensures
            s == secret_of(*self),
    {
        match &self.world {
            Some(w) => w.secret,
            None => 0,
        }
    }

    fn measure(&mut self, ns: &Ram, base: u64, size: u64) -> (x0: u64)
        requires
            old(self).wf(),
            ns.wf(),
            ns.has(base as int, size as int),
        ensures
            final(self).wf(),
            final(self).cpu_count == old(self).cpu_count,
            final(self).cmd == old(self).cmd,
            x0 == fnv(FNV_OFFSET, ns.range(base as int, size as int)),
            final(self).world == measured(old(self).world, x0),
    {
        let digest: u64 = fnv1a(ns.slice(base, size));
        match &mut self.world {
            Some(w) => {
                w.measure = fnv1a_extend(w.measure, digest);
            },
            None => {},
        }
        digest
    }

    fn storage_put(&mut self, ns: &Ram, c: SmcCall) -> (x0: u64)
        requires
            old(self).wf(),
            ns.wf(),
            old(self).world is Some && c.a3 <= STORE_DATA_MAX ==> ns.has(c.a1 as int, 8) && ns.has(
                c.a2 as int,
                c.a3 as int,
            ),
        ensures
            final(self).wf(),
            final(self).cpu_count == old(self).cpu_count,
            final(self).cmd == old(self).cmd,
            put_post(*old(self), *final(self), *ns, c, x0),
    {
        match &mut self.world {
            Some(w) => {
                if c.a3 > STORE_DATA_MAX as u64 {
                    return SEC_FAILED;
                }
                let name: u64 = ns.read64(c.a1);
                if w.store.store(name, ns.slice(c.a2, c.a3)) {
                    0
                } else {
                    SEC_FAILED
                }
            },
            None => SEC_FAILED,
        }
    }

    fn storage_get(&self, ns: &mut Ram, c: SmcCall) -> (x0: u64)
        requires
            self.wf(),
            old(ns).wf(),
            smc_ok(*self, *old(ns), c),
            c.id == SEC_STORAGE_GET,
        ensures
            final(ns).wf(),
            final(ns).start() == old(ns).start(),
            get_post(*self, *old(ns), c, final(ns)@, x0),
    {
        match &self.world {
            Some(w) => {
                let name: u64 = ns.read64(c.a1);
                let blob = match w.store.load(name) {
                    Some(b) => b,
                    None => {
                        return SEC_FAILED;
                    },
                };
                let len: usize = blob.len();
                if len as u64 > c.a3 {
                    return SEC_TOO_SMALL;
                }
                ns.write(c.a2, blob.as_slice());
                len as u64
            },
            None => SEC_FAILED,
        }
    }

    fn keybox_gen(&mut self, id: u64, entropy: u64) -> (x0: u64)
        requires
            old(self).wf(),
        ensures
            final(self).wf(),
            final(self).cpu_count == old(self).cpu_count,
            final(self).cmd == old(self).cmd,
            if old(self).world is Some && id
                < crate::arch::aarch64::monitor::keybox::KEYBOX_KEYS {
                let w = old(self).world->0;
                &&& x0 == 0
                &&& final(self).world matches Some(u) && u == (SecureData {
                    keybox: u.keybox,
                    ..w
                }) && u.keybox.slots@ == w.keybox.slots@.update(
                    id as int,
                    crate::arch::aarch64::monitor::keybox::made_key(entropy, w.secret),
                )
            } else {
                x0 == SEC_FAILED && final(self).world == old(self).world
            },
    {
        let secret: u64 = self.secret();
        match &mut self.world {
            Some(w) => {
                if w.keybox.generate(id, entropy, secret) {
                    0
                } else {
                    SEC_FAILED
                }
            },
            None => SEC_FAILED,
        }
    }

    fn keybox_seal(&mut self, ns: &mut Ram, c: SmcCall) -> (x0: u64)
        requires
            old(self).wf(),
            old(ns).wf(),
            smc_ok(*old(self), *old(ns), c),
            c.id == SEC_KEYBOX_SEAL,
        ensures
            final(self).wf(),
            final(ns).wf(),
            final(ns).start() == old(ns).start(),
            final(self).cpu_count == old(self).cpu_count,
            final(self).cmd == old(self).cmd,
            seal_post(*old(self), *final(self), *old(ns), c, final(ns)@, x0),
    {
        match &mut self.world {
            Some(w) => {
                if !w.keybox.would_seal(c.a1, c.a3) {
                    return SEC_FAILED;
                }
                let mut buf: Vec<u8> = vstd::slice::slice_to_vec(ns.slice(c.a2, c.a3));
                let ghost before = w.keybox;
                let done: bool = w.keybox.seal(c.a1, &mut buf);
                proof {
                    crate::arch::aarch64::monitor::cipher::law_decrypt_undoes_encrypt(
                        before.slots@[c.a1 as int].words(),
                        le64_bytes(before.slots@[c.a1 as int].ctr),
                        ns.range(c.a2 as int, c.a3 as int),
                    );
                }
                let ghost at = c.a2 - ns.start();
                let ghost mem = ns@;
                ns.write(c.a2, buf.as_slice());
                assert(span(ns@, at, c.a3 as int) =~= buf@);
                0
            },
            None => SEC_FAILED,
        }
    }

    fn keybox_unseal(&self, ns: &mut Ram, c: SmcCall) -> (x0: u64)
        requires
            self.wf(),
            old(ns).wf(),
            smc_ok(*self, *old(ns), c),
            c.id == SEC_KEYBOX_UNSEAL,
        ensures
            final(ns).wf(),
            final(ns).start() == old(ns).start(),
            unseal_post(*self, *old(ns), c, final(ns)@, x0),
    {
        match &self.world {
            Some(w) => {
                if !w.keybox.would_unseal(c.a1, c.a3) {
                    return SEC_FAILED;
                }
                let mut buf: Vec<u8> = vstd::slice::slice_to_vec(ns.slice(c.a2, c.a3));
                let ghost text = buf@;
                let done: bool = w.keybox.unseal(c.a1, &mut buf);
                proof {
                    let k = w.keybox.slots@[c.a1 as int];
                    crate::arch::aarch64::monitor::cipher::lemma_decrypted_len(
                        k.words(),
                        le64_bytes(k.last_iv()),
                        text,
                    );
                }
                ns.write(c.a2, buf.as_slice());
                0
            },
            None => SEC_FAILED,
        }
    }

    fn attest(&self, ns: &mut Ram, c: SmcCall) -> (x0: u64)
        requires
            old(ns).wf(),
            smc_ok(*self, *old(ns), c),
            c.id == SEC_ATTEST,
        ensures
            final(ns).wf(),
            final(ns).start() == old(ns).start(),
            quote_post(*self, *old(ns), c, final(ns)@, x0),
    {
        if c.a5 < ATTEST_OUT || c.a2 > ATTEST_REGION_MAX {
            return SEC_FAILED;
        }
        let digest: u64 = fnv1a(ns.slice(c.a1, c.a2));
        let secret: u64 = self.secret();
        let code: u64 = fnv1a_extend(
            fnv1a_extend(fnv1a_extend(FNV_OFFSET, secret), c.a3),
            digest,
        );
        proof {
            let (a, b, d) = (le64_bytes(secret), le64_bytes(c.a3), le64_bytes(digest));
            law_digest_extends(FNV_OFFSET, a + b, d);
            law_digest_extends(FNV_OFFSET, a, b);
        }
        ns.write64(c.a4, digest);
        ns.write64(c.a4 + 8, code);
        0
    }

    fn cpu_on(&mut self, target: u64, entry: u64) -> (r: (u64, SmcEffect))
        ensures
            final(self).world == old(self).world,
            final(self).cpu_count == old(self).cpu_count,
            if can_start(*old(self), target) {
                let cpu = target as int % 256;
                &&& r.0 == PSCI_SUCCESS
                &&& r.1 == SmcEffect::Wake(0xF00_0000u64 | (1u64 << (cpu as u64)))
                &&& final(self).cmd@.len() == old(self).cmd@.len()
                &&& final(self).cmd@[cpu]@ == seq![CMD_MAGIC, entry]
                &&& forall|i: int|
                    0 <= i < MONITOR_CPUS && i != cpu ==> #[trigger] final(self).cmd@[i] == old(
                        self).cmd@[i]
            } else {
                &&& r.0 == PSCI_INVALID_PARAMS
                &&& r.1 == SmcEffect::Nothing
                &&& final(self).cmd == old(self).cmd
            },
    {
        let cpu: u64 = target % 256;
        if cpu >= MONITOR_CPUS as u64 || cpu >= self.cpu_count || cpu == 0 {
            return (PSCI_INVALID_PARAMS, SmcEffect::Nothing);
        }
        let command: [u64; 2] = [CMD_MAGIC, entry];
        assert(command@ =~= seq![CMD_MAGIC, entry]);
        self.cmd[cpu as usize] = command;
        assert((15u64 & 0xF) << 24 == 0xF00_0000u64) by (bit_vector);
        (PSCI_SUCCESS, SmcEffect::Wake(((WAKE_SGI & 0xF) << 24) | (1u64 << cpu)))
    }

    /// Whether [`smc_ok`] holds: what the call reads and writes is memory of the kernel.
    pub fn may_serve(&self, ns: &Ram, c: SmcCall) -> (r: bool)
        requires
            self.wf(),
            ns.wf(),
        ensures
            r == smc_ok(*self, *ns, c),
    {
        match (&self.world, c.id) {
            (_, SEC_MEASURE) => ns.contains(c.a1, c.a2),
            (Some(_), SEC_STORAGE_PUT) => c.a3 > STORE_DATA_MAX as u64 || (ns.contains(c.a1, 8)
                && ns.contains(c.a2, c.a3)),
            (Some(w), SEC_STORAGE_GET) => ns.contains(c.a1, 8) && match w.store.len_of(
                ns.read64(c.a1),
            ) {
                Some(n) => n as u64 > c.a3 || ns.contains(c.a2, n as u64),
                None => true,
            },
            (Some(w), SEC_KEYBOX_SEAL) => !w.keybox.would_seal(c.a1, c.a3) || ns.contains(
                c.a2,
                c.a3,
            ),
            (Some(w), SEC_KEYBOX_UNSEAL) => !w.keybox.would_unseal(c.a1, c.a3) || ns.contains(
                c.a2,
                c.a3,
            ),
            (_, SEC_ATTEST) => c.a5 < ATTEST_OUT || c.a2 > ATTEST_REGION_MAX || (ns.contains(
                c.a1,
                c.a2,
            ) && ns.contains(c.a4, ATTEST_OUT)),
            _ => true,
        }
    }

    /// Serve a call of the kernel, whose memory is `ns`.  Returns the result and what is left
    /// to be done.
    pub fn monitor_smc_dispatch(&mut self, ns: &mut Ram, c: SmcCall, clock: MonitorClock) -> (r: (
        u64,
        SmcEffect,
    ))
        requires
            old(self).wf(),
            old(ns).wf(),
            smc_ok(*old(self), *old(ns), c),
        ensures
            final(self).wf(),
            final(ns).wf(),
            final(ns).start() == old(ns).start(),
            smc_post(*old(self), *final(self), *old(ns), final(ns)@, c, clock, r.0, r.1),
    {
        let x0: u64 = match c.id {
            SMCCC_VERSION => VERSION_1_1,
            PSCI_VERSION => VERSION_1_1,
            PSCI_CPU_OFF => PSCI_NOT_SUPPORTED,
            PSCI_CPU_ON => {
                return self.cpu_on(c.a1, c.a2);
            },
            PSCI_FEATURES => 0,
            PSCI_SYSTEM_OFF | PSCI_SYSTEM_RESET => PSCI_NOT_SUPPORTED,
            SEC_MEASURE => self.measure(ns, c.a1, c.a2),
            SEC_TICK_GET => match &self.world {
                Some(w) => w.ticks,
                None => 0,
            },
            SEC_TICK_ARM => {
                return (0, SmcEffect::ArmTimer(clock.freq.wrapping_mul(c.a1) / 1000));
            },
            SEC_TCB_PRINT => {
                return (0, SmcEffect::Banner);
            },
            SEC_COUNTER_INCR => match &mut self.world {
                Some(w) => {
                    w.counter = w.counter.wrapping_add(1);
                    w.counter
                },
                None => 1,
            },
            SEC_STORAGE_PUT => self.storage_put(ns, c),
            SEC_STORAGE_GET => self.storage_get(ns, c),
            SEC_KEYBOX_GEN => self.keybox_gen(c.a1, clock.counter),
            SEC_KEYBOX_SEAL => self.keybox_seal(ns, c),
            SEC_KEYBOX_UNSEAL => self.keybox_unseal(ns, c),
            SEC_ATTEST => self.attest(ns, c),
            _ => PSCI_NOT_SUPPORTED,
        };
        (x0, SmcEffect::Nothing)
    }

    /// Prepare a run of the secure world: how many iterations, and the number of the round.
    pub fn monitor_prepare_switch(&mut self, iters: u64, round: u64)
        ensures
            final(self).cpu_count == old(self).cpu_count,
            final(self).cmd == old(self).cmd,
            final(self).world == match old(self).world {
                Some(w) => Some(SecureData { iters, round, ..w }),
                None => None,
            },
    {
        match &mut self.world {
            Some(w) => {
                w.iters = iters;
                w.round = round;
            },
            None => {},
        }
    }
}

/// A blob that the kernel stored is read back into the kernel's memory as it was.
pub proof fn law_storage_round_trip(
    pre: Monitor,
    mid: Monitor,
    ns: Ram,
    put_call: SmcCall,
    ns2: Ram,
    get_call: SmcCall,
    mem: Seq<u8>,
    x0: u64,
)
    requires
        pre.wf(),
        ns.has(put_call.a2 as int, put_call.a3 as int),
        put_post(pre, mid, ns, put_call, 0),
        get_post(mid, ns2, get_call, mem, x0),
        ns2.word(get_call.a1 as int) == ns.word(put_call.a1 as int),
        put_call.a3 <= get_call.a3,
    ensures
        x0 == put_call.a3,
        mem == ns2.with(get_call.a2 as int, ns.range(put_call.a2 as int, put_call.a3 as int)),
{
    let name = ns.word(put_call.a1 as int) as u64;
    let data = ns.range(put_call.a2 as int, put_call.a3 as int);
    crate::arch::aarch64::monitor::store::law_load_returns_stored(
        pre.world->0.store.slots@,
        name,
        data,
        mid.world->0.store.slots@,
    );
}

/// What the kernel has sealed and unseals next is as it was.
pub proof fn law_seal_round_trip(
    pre: Monitor,
    mid: Monitor,
    ns: Ram,
    c: SmcCall,
    ns2: Ram,
    mem: Seq<u8>,
    x0: u64,
)
    requires
        pre.wf(),
        ns.has(c.a2 as int, c.a3 as int),
        seal_post(pre, mid, ns, c, ns2@, 0),
        ns2.start() == ns.start(),
        unseal_post(mid, ns2, c, mem, x0),
    ensures
        x0 == 0,
        mem == ns@,
{
    let w = pre.world->0;
    let at = c.a2 - ns.start();
    let s = ns.range(c.a2 as int, c.a3 as int);
    let sealed = span(ns2@, at, c.a3 as int);
    crate::arch::aarch64::monitor::keybox::law_unseal_undoes_seal(
        w.keybox,
        c.a1,
        s,
        mid.world->0.keybox,
        sealed,
    );
    assert(ns2.range(c.a2 as int, c.a3 as int) =~= sealed);
    assert(mem =~= ns@);
}

/// A quote shows a change of the region: if one byte differs, so does the digest.
pub proof fn law_quote_shows_change(region: Seq<u8>, i: int, b: u8)
    requires
        0 <= i < region.len(),
        b != region[i],
    ensures
        fnv(FNV_OFFSET, region.update(i, b)) != fnv(FNV_OFFSET, region),
{
    crate::arch::aarch64::monitor::cipher::law_digest_catches_one_byte(FNV_OFFSET, region, i, b);
}

} // verus!
