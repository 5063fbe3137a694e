//! Generic timer arithmetic and the tick counter.

use vstd::prelude::*;

verus! {

/// Milliseconds per scheduler tick.
pub const TICK_PERIOD_MS: u64 = 1;

/// Counts in `ms` milliseconds of a counter that runs at `freq` Hz.
pub fn counts_for_ms(freq: u64, ms: u64) -> (n: u64)
    requires
        (freq / 1000) * ms <= u64::MAX,
    ensures
        n == (freq / 1000) * ms,
{
    freq / 1000 * ms
}

/// True while a wait of `ms` milliseconds that began at count `start` is not
/// over at count `now` (the counter wraps).
pub fn busy_wait_ms(freq: u64, ms: u64, start: u64, now: u64) -> (r: bool)
    requires
        (freq / 1000) * ms <= u64::MAX,
    ensures
        r == ((now - start) % 0x1_0000_0000_0000_0000 < (freq / 1000) * ms),
{
    let elapsed: u64 = now.wrapping_sub(start);
    assert(elapsed == (now - start) % 0x1_0000_0000_0000_0000);
    elapsed < counts_for_ms(freq, ms)
}

/// Counts until the next tick.
pub fn arm_next(freq: u64) -> (n: u64)
    ensures
        n == freq / 1000,
{
    freq / 1000 * TICK_PERIOD_MS
}

/// CNTP_CTL_EL0 value that enables the timer with its interrupt unmasked.
pub const CTL_ENABLE: u64 = 1;

/// CNTP_CTL_EL0 value that disables the timer and masks its interrupt.
pub const CTL_DISABLE: u64 = 2;

/// CNTKCTL_EL1 value that grants access to the counters and timers.
pub const CNTKCTL_ACCESS: u64 = 7;

/// True if a CNTP_CTL_EL0 value has the timer asserted (ISTATUS, bit 2).
pub fn asserted(ctl: u64) -> (r: bool)
    ensures
        r == (ctl & 4 != 0),
{
    ctl & 4 != 0
}

/// Control value that the timer starts with: disarmed.
pub fn init() -> (ctl: u64)
    ensures
        ctl == CTL_DISABLE,
{
    CTL_DISABLE
}

/// What starts the preemption tick.
#[derive(Debug, Clone, Copy, PartialEq, Eq, Structural)]
pub struct TickSetup {
    /// CNTKCTL_EL1 value.
    pub access: u64,
    /// Counts of the first tick, and of the tick armed after the self-test.
    pub tick_counts: u64,
    /// Counts that the self-test arms the timer for (10 ms).
    pub probe_counts: u64,
    /// Ticks per second, for the log.
    pub hz: u64,
}

/// How the self-test of the timer stands.
#[derive(Debug, Clone, Copy, PartialEq, Eq, Structural)]
pub enum SelfTest {
    /// The timer asserted: its interrupt line works.
    Asserted,
    /// The deadline passed without an assertion.
    NeverAsserted,
    /// Read the control register and the counter again.
    Poll,
}

/// One poll of the self-test: the counter reads `now`, then the control register
/// reads `ctl`.
pub fn self_test_poll(now: u64, deadline: u64, ctl: u64) -> (r: SelfTest)
    ensures
        r == if now >= deadline {
            SelfTest::NeverAsserted
        } else if ctl & 4 != 0 {
            SelfTest::Asserted
        } else {
            SelfTest::Poll
        },
{
    if now >= deadline {
        SelfTest::NeverAsserted
    } else if asserted(ctl) {
        SelfTest::Asserted
    } else {
        SelfTest::Poll
    }
}

/// Number of ticks delivered.
#[derive(Debug, Clone, Copy)]
pub struct TickCounter {
    count: u64,
}

impl TickCounter {
    /// Ticks so far.
    pub closed spec fn spec_ticks(self) -> u64 {
        self.count
    }

    /// No ticks yet.
    pub fn new() -> (t: Self)
        ensures
            t.spec_ticks() == 0,
    {
        TickCounter { count: 0 }
    }

    /// Total ticks delivered so far.
    pub fn ticks(&self) -> (n: u64)
        ensures
            n == self.spec_ticks(),
    {
        self.count
    }

    /// Start the preemption tick on a counter of `freq` Hz: the count restarts.
    pub fn init_tick(&mut self, freq: u64) -> (s: TickSetup)
        ensures
            final(self).spec_ticks() == 0,
            s.access == CNTKCTL_ACCESS,
            s.tick_counts == freq / 1000,
            s.probe_counts == freq / 100,
            s.hz == freq / 1000 * 1000,
    {
        self.count = 0;
        TickSetup {
            access: CNTKCTL_ACCESS,
            tick_counts: arm_next(freq),
            probe_counts: freq / 100,
            hz: freq / 1000 * 1000 / TICK_PERIOD_MS,
        }
    }

    /// Count one timer interrupt.  Returns the counts to arm the next tick for.
    pub fn tick(&mut self, freq: u64) -> (counts: u64)
        ensures
            final(self).spec_ticks() == (old(self).spec_ticks() + 1) % 0x1_0000_0000_0000_0000,
            counts == freq / 1000,
    {
        self.count = self.count.wrapping_add(1);
        arm_next(freq)
    }
}

} // verus!
