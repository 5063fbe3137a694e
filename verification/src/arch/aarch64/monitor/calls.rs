//! The kernel's calls to the monitor: what goes into the registers, and what the result means.

use vstd::prelude::*;
use crate::arch::aarch64::monitor::store::STORE_DATA_MAX;
use crate::arch::aarch64::monitor::{
    SmcCall, ATTEST_OUT, PSCI_CPU_ON, PSCI_VERSION, SEC_ATTEST, SEC_COUNTER_INCR, SEC_KEYBOX_GEN,
    SEC_KEYBOX_SEAL, SEC_KEYBOX_UNSEAL, SEC_MEASURE, SEC_STORAGE_GET, SEC_STORAGE_PUT,
    SEC_TCB_PRINT, SEC_TICK_ARM, SEC_TICK_GET, SEC_WORLD_SWITCH,
};

verus! {

/// A call with three arguments.
pub fn smc(id: u64, a1: u64, a2: u64, a3: u64) -> (c: SmcCall)
    ensures
        c == (SmcCall { id, a1, a2, a3, a4: 0, a5: 0 }),
{
    SmcCall { id, a1, a2, a3, a4: 0, a5: 0 }
}

/// A call with five arguments.
pub fn smc6(id: u64, a1: u64, a2: u64, a3: u64, a4: u64, a5: u64) -> (c: SmcCall)
    ensures
        c == (SmcCall { id, a1, a2, a3, a4, a5 }),
{
    SmcCall { id, a1, a2, a3, a4, a5 }
}

/// Start a CPU; the result is a status as of PSCI.
pub fn psci_cpu_on_smc(mpidr: u64, entry: u64, context_id: u64) -> (c: SmcCall)
    ensures
        c == (SmcCall { id: PSCI_CPU_ON, a1: mpidr, a2: entry, a3: context_id, a4: 0, a5: 0 }),
{
    smc(PSCI_CPU_ON, mpidr, entry, context_id)
}

/// Measure a region; the result is its digest.
pub fn secure_measure_smc(base: u64, size: u64) -> (c: SmcCall)
    ensures
        c == (SmcCall { id: SEC_MEASURE, a1: base, a2: size, a3: 0, a4: 0, a5: 0 }),
{
    smc(SEC_MEASURE, base, size, 0)
}

/// Run the secure world; the result is its tick count.
pub fn world_switch(iters: u64, round: u64) -> (c: SmcCall)
    ensures
        c == (SmcCall { id: SEC_WORLD_SWITCH, a1: iters, a2: round, a3: 0, a4: 0, a5: 0 }),
{
    smc(SEC_WORLD_SWITCH, iters, round, 0)
}

/// Read the secure tick count.
pub fn secure_tick_get() -> (c: SmcCall)
    ensures
        c == (SmcCall { id: SEC_TICK_GET, a1: 0, a2: 0, a3: 0, a4: 0, a5: 0 }),
{
    smc(SEC_TICK_GET, 0, 0, 0)
}

/// Arm the secure timer.
pub fn secure_tick_arm(ms: u64) -> (c: SmcCall)
    ensures
        c == (SmcCall { id: SEC_TICK_ARM, a1: ms, a2: 0, a3: 0, a4: 0, a5: 0 }),
{
    smc(SEC_TICK_ARM, ms, 0, 0)
}

/// Have the monitor print.
pub fn secure_banner() -> (c: SmcCall)
    ensures
        c == (SmcCall { id: SEC_TCB_PRINT, a1: 0, a2: 0, a3: 0, a4: 0, a5: 0 }),
{
    smc(SEC_TCB_PRINT, 0, 0, 0)
}

/// Advance the monotonic counter; the result is its new value.
pub fn secure_counter_incr() -> (c: SmcCall)
    ensures
        c == (SmcCall { id: SEC_COUNTER_INCR, a1: 0, a2: 0, a3: 0, a4: 0, a5: 0 }),
{
    smc(SEC_COUNTER_INCR, 0, 0, 0)
}

/// Ask for the PSCI version.
pub fn psci_version_smc() -> (c: SmcCall)
    ensures
        c == (SmcCall { id: PSCI_VERSION, a1: 0, a2: 0, a3: 0, a4: 0, a5: 0 }),
{
    smc(PSCI_VERSION, 0, 0, 0)
}

/// Store `len` bytes at `data` under the name at `name`; none if they are too many.
pub fn secure_storage_put(name: u64, data: u64, len: u64) -> (r: Option<SmcCall>)
    ensures
        r == if len > STORE_DATA_MAX {
            None::<SmcCall>
        } else {
            Some(SmcCall { id: SEC_STORAGE_PUT, a1: name, a2: data, a3: len, a4: 0, a5: 0 })
        },
{
    if len > STORE_DATA_MAX as u64 {
        return None;
    }
    Some(smc(SEC_STORAGE_PUT, name, data, len))
}

/// Load the blob with the name at `name` into `cap` bytes at `out`.
pub fn secure_storage_get(name: u64, out: u64, cap: u64) -> (c: SmcCall)
    ensures
        c == (SmcCall { id: SEC_STORAGE_GET, a1: name, a2: out, a3: cap, a4: 0, a5: 0 }),
{
    smc(SEC_STORAGE_GET, name, out, cap)
}

/// Make a key.
pub fn keybox_gen(key_id: u64) -> (c: SmcCall)
    ensures
        c == (SmcCall { id: SEC_KEYBOX_GEN, a1: key_id, a2: 0, a3: 0, a4: 0, a5: 0 }),
{
    smc(SEC_KEYBOX_GEN, key_id, 0, 0)
}

/// Seal `len` bytes at `buf` in place.
pub fn keybox_seal(key_id: u64, buf: u64, len: u64) -> (c: SmcCall)
    ensures
        c == (SmcCall { id: SEC_KEYBOX_SEAL, a1: key_id, a2: buf, a3: len, a4: 0, a5: 0 }),
{
    smc(SEC_KEYBOX_SEAL, key_id, buf, len)
}

/// Unseal `len` bytes at `buf` in place.
pub fn keybox_unseal(key_id: u64, buf: u64, len: u64) -> (c: SmcCall)
    ensures
        c == (SmcCall { id: SEC_KEYBOX_UNSEAL, a1: key_id, a2: buf, a3: len, a4: 0, a5: 0 }),
{
    smc(SEC_KEYBOX_UNSEAL, key_id, buf, len)
}

/// Quote the region for the nonce into the 16 bytes at `out`.
pub fn attest(base: u64, size: u64, nonce: u64, out: u64) -> (c: SmcCall)
    ensures
        c == (SmcCall {
            id: SEC_ATTEST,
            a1: base,
            a2: size,
            a3: nonce,
            a4: out,
            a5: ATTEST_OUT,
        }),
{
    smc6(SEC_ATTEST, base, size, nonce, out, ATTEST_OUT)
}

/// The signed number in a result register: -1 and -2 are errors.
pub fn smc_status(x0: u64) -> (r: i64)
    ensures
        r == if x0 < 0x8000_0000_0000_0000 {
            x0 as int
        } else {
            x0 - 0x1_0000_0000_0000_0000
        },
{
    if x0 < 0x8000_0000_0000_0000 {
        x0 as i64
    } else {
        -((u64::MAX - x0) as i64) - 1
    }
}

} // verus!
