//! PSCI calls over the SMC conduit.

use vstd::prelude::*;

verus! {

/// 64-bit CPU_ON.
pub const FN64_CPU_ON: u64 = 0xC400_0003;

/// Arguments x0 to x3 of the call that powers a CPU on.
pub fn cpu_on(mpidr: u64, entry: u64, context_id: u64) -> (args: [u64; 4])
    ensures
        args@ == seq![FN64_CPU_ON, mpidr, entry, context_id],
{
    let args: [u64; 4] = [FN64_CPU_ON, mpidr, entry, context_id];
    assert(args@ =~= seq![FN64_CPU_ON, mpidr, entry, context_id]);
    args
}

/// Status that the call returned in x0: 0 is success, errors are negative.
pub fn cpu_on_status(x0: u64) -> (r: i32)
    ensures
        r == x0 as i32,
        (r == 0) == (x0 % 0x1_0000_0000 == 0),
{
    assert((x0 as i32 == 0i32) == (x0 % 0x1_0000_0000 == 0)) by (bit_vector);
    x0 as i32
}

} // verus!
