//! USB OTG FS PHY reset sequence.
//!
//! After a soft reset the USB OTG FS peripheral can keep stale PHY state that
//! prevents re-enumeration. The reset sequence brings it back to a clean
//! start:
//!
//! 1. disable the peripheral clock (RCC AHB2ENR.OTGFSEN = 0),
//! 2. enable it again (OTGFSEN = 1),
//! 3. assert the peripheral reset (RCC AHB2RSTR.OTGFSRST = 1),
//! 4. release it (OTGFSRST = 0),
//! 5. wait until the AHB master is idle (GRSTCTL.AHBIDL, bit 31),
//! 6. core soft reset (GRSTCTL.CSRST, bit 0, self-clearing),
//! 7. PHY power cycle (GCCFG = 0, then GCCFG.PWRDWN, bit 16).
//!
//! Every delay is `RESET_DELAY_CYCLES` cycles and every wait gives up after
//! `RESET_TIMEOUT_ITERATIONS` reads.
//!
//! The register accesses are the caller's: `PhyReset` decides, one step at a
//! time, which access or delay comes next, and is told the value of GRSTCTL
//! whenever it asked for a read.

use vstd::prelude::*;

verus! {

/// Base address of the USB OTG FS global registers (the same on F4 and F7).
pub const USB_OTG_FS_GLOBAL: usize = 0x5000_0000;

/// Offset of the GRSTCTL (reset control) register from `USB_OTG_FS_GLOBAL`.
pub const GRSTCTL_OFFSET: usize = 0x010;

/// Offset of the GCCFG (general core configuration) register from
/// `USB_OTG_FS_GLOBAL`.
pub const GCCFG_OFFSET: usize = 0x038;

/// GRSTCTL.AHBIDL: the AHB master is idle.
pub const GRSTCTL_AHBIDL: u32 = 0x8000_0000;

/// GRSTCTL.CSRST: core soft reset, cleared by the hardware when done.
pub const GRSTCTL_CSRST: u32 = 0x0000_0001;

/// GCCFG.PWRDWN: PHY powered up.
pub const GCCFG_PWRDWN: u32 = 0x0001_0000;

/// Length of each delay of the sequence, in CPU cycles.
pub const RESET_DELAY_CYCLES: u32 = 100;

/// Number of GRSTCTL reads after which a wait gives up.
pub const RESET_TIMEOUT_ITERATIONS: u32 = 100_000;

/// What the caller does next.
#[derive(Debug, Clone, Copy, PartialEq, Eq, Structural)]
pub enum PhyResetAction {
    /// Write RCC AHB2ENR.OTGFSEN (the peripheral clock enable) to the value.
    SetClockEnable(bool),
    /// Write RCC AHB2RSTR.OTGFSRST (the peripheral reset) to the value.
    SetPeripheralReset(bool),
    /// Busy-wait for the number of cycles.
    Delay(u32),
    /// Read GRSTCTL and pass its value to the next step.
    ReadGrstctl,
    /// Write the value to GRSTCTL.
    WriteGrstctl(u32),
    /// Write the value to GCCFG.
    WriteGccfg(u32),
    /// The sequence is complete; nothing is left to do.
    Done,
}

/// Where the sequence stands: each stage names what happens at the next step.
#[derive(Debug, Clone, Copy, PartialEq, Eq, Structural)]
pub enum ResetStage {
    DisableClock,
    ClockDelay,
    EnableClock,
    AssertReset,
    AssertDelay,
    ReleaseReset,
    ReleaseDelay,
    /// Issue the first GRSTCTL read of the wait for AHB idle.
    PollIdle,
    /// The step's value is a GRSTCTL read of the wait for AHB idle.
    CheckIdle,
    /// Issue the first GRSTCTL read of the wait for the soft reset to clear.
    PollSoftReset,
    /// The step's value is a GRSTCTL read of the wait for the soft reset.
    CheckSoftReset,
    PhyDelay,
    PowerUpPhy,
    Done,
}

/// Abstract state of the sequence: its stage, and the reads left in the
/// current wait.
pub struct PhyResetView {
    pub stage: ResetStage,
    pub remaining: nat,
}

/// Whether a GRSTCTL value reports the AHB master idle.
pub open spec fn ahb_idle(grstctl: u32) -> bool {
    grstctl & GRSTCTL_AHBIDL != 0
}

/// Whether a GRSTCTL value reports the core soft reset still in progress.
pub open spec fn soft_reset_pending(grstctl: u32) -> bool {
    grstctl & GRSTCTL_CSRST != 0
}

/// One step of the sequence: the state that follows and the action to take,
/// given the value of GRSTCTL (which only the two wait stages read).
pub open spec fn reset_step(v: PhyResetView, grstctl: u32) -> (PhyResetView, PhyResetAction) {
    let next = |stage: ResetStage| PhyResetView { stage, remaining: v.remaining };
    match v.stage {
        ResetStage::DisableClock => (next(ResetStage::ClockDelay), PhyResetAction::SetClockEnable(false)),
        ResetStage::ClockDelay => (next(ResetStage::EnableClock), PhyResetAction::Delay(RESET_DELAY_CYCLES)),
        ResetStage::EnableClock => (next(ResetStage::AssertReset), PhyResetAction::SetClockEnable(true)),
        ResetStage::AssertReset => (next(ResetStage::AssertDelay), PhyResetAction::SetPeripheralReset(true)),
        ResetStage::AssertDelay => (next(ResetStage::ReleaseReset), PhyResetAction::Delay(RESET_DELAY_CYCLES)),
        ResetStage::ReleaseReset => (next(ResetStage::ReleaseDelay), PhyResetAction::SetPeripheralReset(false)),
        ResetStage::ReleaseDelay => (next(ResetStage::PollIdle), PhyResetAction::Delay(RESET_DELAY_CYCLES)),
        ResetStage::PollIdle => (
            PhyResetView { stage: ResetStage::CheckIdle, remaining: RESET_TIMEOUT_ITERATIONS as nat },
            PhyResetAction::ReadGrstctl,
        ),
        ResetStage::CheckIdle => if ahb_idle(grstctl) || v.remaining <= 1 {
            (next(ResetStage::PollSoftReset), PhyResetAction::WriteGrstctl(GRSTCTL_CSRST))
        } else {
            (
                PhyResetView { stage: ResetStage::CheckIdle, remaining: (v.remaining - 1) as nat },
                PhyResetAction::ReadGrstctl,
            )
        },
        ResetStage::PollSoftReset => (
            PhyResetView { stage: ResetStage::CheckSoftReset, remaining: RESET_TIMEOUT_ITERATIONS as nat },
            PhyResetAction::ReadGrstctl,
        ),
        ResetStage::CheckSoftReset => if !soft_reset_pending(grstctl) || v.remaining <= 1 {
            (next(ResetStage::PhyDelay), PhyResetAction::WriteGccfg(0))
        } else {
            (
                PhyResetView { stage: ResetStage::CheckSoftReset, remaining: (v.remaining - 1) as nat },
                PhyResetAction::ReadGrstctl,
            )
        },
        ResetStage::PhyDelay => (next(ResetStage::PowerUpPhy), PhyResetAction::Delay(RESET_DELAY_CYCLES)),
        ResetStage::PowerUpPhy => (next(ResetStage::Done), PhyResetAction::WriteGccfg(GCCFG_PWRDWN)),
        ResetStage::Done => (next(ResetStage::Done), PhyResetAction::Done),
    }
}

/// The states the sequence can be in: inside a wait, between one and
/// `RESET_TIMEOUT_ITERATIONS` reads are left.
pub open spec fn reset_reachable(v: PhyResetView) -> bool {
    (v.stage == ResetStage::CheckIdle || v.stage == ResetStage::CheckSoftReset) ==> 1 <= v.remaining
        <= RESET_TIMEOUT_ITERATIONS
}

/// The state of a sequence that has not started.
pub open spec fn reset_start() -> PhyResetView {
    PhyResetView { stage: ResetStage::DisableClock, remaining: 0 }
}

/// The states and actions of a run of steps from `v`, one step per value of
/// `reads` (the GRSTCTL value handed to that step).
pub open spec fn reset_run(v: PhyResetView, reads: Seq<u32>) -> (PhyResetView, Seq<PhyResetAction>)
    decreases reads.len(),
{
    if reads.len() == 0 {
        (v, Seq::empty())
    } else {
        let before = reset_run(v, reads.drop_last());
        let after = reset_step(before.0, reads.last());
        (after.0, before.1.push(after.1))
    }
}

/// Whether an action writes a register.
pub open spec fn is_register_write(a: PhyResetAction) -> bool {
    ||| a is SetClockEnable
    ||| a is SetPeripheralReset
    ||| a is WriteGrstctl
    ||| a is WriteGccfg
}

/// The register writes among `actions`, in order.
pub open spec fn register_writes(actions: Seq<PhyResetAction>) -> Seq<PhyResetAction>
    decreases actions.len(),
{
    if actions.len() == 0 {
        Seq::empty()
    } else if is_register_write(actions.last()) {
        register_writes(actions.drop_last()).push(actions.last())
    } else {
        register_writes(actions.drop_last())
    }
}

/// The register writes of the reset sequence (steps 1 to 7 above), in order.
pub open spec fn reset_sequence_writes() -> Seq<PhyResetAction> {
    seq![
        PhyResetAction::SetClockEnable(false),
        PhyResetAction::SetClockEnable(true),
        PhyResetAction::SetPeripheralReset(true),
        PhyResetAction::SetPeripheralReset(false),
        PhyResetAction::WriteGrstctl(GRSTCTL_CSRST),
        PhyResetAction::WriteGccfg(0),
        PhyResetAction::WriteGccfg(GCCFG_PWRDWN),
    ]
}

/// How many of the writes of the sequence have been issued on reaching a stage.
pub open spec fn writes_issued(stage: ResetStage) -> nat {
    match stage {
        ResetStage::DisableClock => 0,
        ResetStage::ClockDelay | ResetStage::EnableClock => 1,
        ResetStage::AssertReset => 2,
        ResetStage::AssertDelay | ResetStage::ReleaseReset => 3,
        ResetStage::ReleaseDelay | ResetStage::PollIdle | ResetStage::CheckIdle => 4,
        ResetStage::PollSoftReset | ResetStage::CheckSoftReset => 5,
        ResetStage::PhyDelay | ResetStage::PowerUpPhy => 6,
        ResetStage::Done => 7,
    }
}

/// The most steps that a state can still take before the sequence is
/// complete, whatever GRSTCTL reads.
pub open spec fn steps_left(v: PhyResetView) -> nat {
    let t = RESET_TIMEOUT_ITERATIONS as nat;
    match v.stage {
        ResetStage::DisableClock => 2 * t + 11,
        ResetStage::ClockDelay => 2 * t + 10,
        ResetStage::EnableClock => 2 * t + 9,
        ResetStage::AssertReset => 2 * t + 8,
        ResetStage::AssertDelay => 2 * t + 7,
        ResetStage::ReleaseReset => 2 * t + 6,
        ResetStage::ReleaseDelay => 2 * t + 5,
        ResetStage::PollIdle => 2 * t + 4,
        ResetStage::CheckIdle => v.remaining + t + 3,
        ResetStage::PollSoftReset => t + 3,
        ResetStage::CheckSoftReset => v.remaining + 2,
        ResetStage::PhyDelay => 2,
        ResetStage::PowerUpPhy => 1,
        ResetStage::Done => 0,
    }
}

/// A step issues either no register write or the next one of the sequence.
proof fn lemma_step_writes(v: PhyResetView, grstctl: u32)
    ensures
        ({
            let (w, a) = reset_step(v, grstctl);
            &&& is_register_write(a) ==> writes_issued(v.stage) < 7 && a == reset_sequence_writes()[writes_issued(v.stage) as int]
                && writes_issued(w.stage) == writes_issued(v.stage) + 1
            &&& !is_register_write(a) ==> writes_issued(w.stage) == writes_issued(v.stage)
        }),
{
}

/// Whatever GRSTCTL reads, the register writes of a run from the start are
/// the reset sequence, in its order, up to the stage reached: no write
/// is skipped, repeated or reordered.
pub proof fn lemma_writes_follow_sequence_order(reads: Seq<u32>)
    ensures
        ({
            let (v, actions) = reset_run(reset_start(), reads);
            &&& writes_issued(v.stage) <= 7
            &&& register_writes(actions) == reset_sequence_writes().take(writes_issued(v.stage) as int)
        }),
    decreases reads.len(),
{
    if reads.len() > 0 {
        lemma_writes_follow_sequence_order(reads.drop_last());
        let before = reset_run(reset_start(), reads.drop_last());
        lemma_step_writes(before.0, reads.last());
        let after = reset_run(reset_start(), reads);
        assert(after.1.drop_last() == before.1);
        let n = writes_issued(before.0.stage) as int;
        if is_register_write(after.1.last()) {
            assert(reset_sequence_writes().take(n + 1) == reset_sequence_writes().take(n).push(
                reset_sequence_writes()[n],
            ));
        }
    }
}

/// A step from a reachable state that is not complete brings the sequence
/// strictly closer to completion, and stays reachable.
proof fn lemma_step_progress(v: PhyResetView, grstctl: u32)
    requires
        reset_reachable(v),
    ensures
        reset_reachable(reset_step(v, grstctl).0),
        v.stage != ResetStage::Done ==> steps_left(reset_step(v, grstctl).0) < steps_left(v),
        v.stage == ResetStage::Done ==> reset_step(v, grstctl).0.stage == ResetStage::Done,
{
}

/// A run of steps from a reachable state: every step that does not start
/// complete brings the sequence at least one step closer to completion.
proof fn lemma_run_progress(v: PhyResetView, reads: Seq<u32>)
    requires
        reset_reachable(v),
    ensures
        reset_reachable(reset_run(v, reads).0),
        steps_left(reset_run(v, reads).0) + reads.len() <= steps_left(v) || reset_run(v, reads).0.stage
            == ResetStage::Done,
    decreases reads.len(),
{
    if reads.len() > 0 {
        lemma_run_progress(v, reads.drop_last());
        let before = reset_run(v, reads.drop_last());
        lemma_step_progress(before.0, reads.last());
    }
}

/// The sequence always completes, whatever GRSTCTL reads: each wait gives up
/// after `RESET_TIMEOUT_ITERATIONS` reads, so after
/// `2 * RESET_TIMEOUT_ITERATIONS + 11` steps from the start it is done, and
/// by then it has issued every write of the sequence.
pub proof fn lemma_reset_completes(reads: Seq<u32>)
    requires
        reads.len() >= 2 * (RESET_TIMEOUT_ITERATIONS as nat) + 11,
    ensures
        reset_run(reset_start(), reads).0.stage == ResetStage::Done,
        register_writes(reset_run(reset_start(), reads).1) == reset_sequence_writes(),
{
    lemma_run_progress(reset_start(), reads);
    lemma_writes_follow_sequence_order(reads);
    assert(reset_sequence_writes().take(7) == reset_sequence_writes());
}

/// The number of GRSTCTL reads among `actions`.
pub open spec fn grstctl_reads(actions: Seq<PhyResetAction>) -> nat
    decreases actions.len(),
{
    if actions.len() == 0 {
        0
    } else if actions.last() is ReadGrstctl {
        grstctl_reads(actions.drop_last()) + 1
    } else {
        grstctl_reads(actions.drop_last())
    }
}

/// The most GRSTCTL reads that can have been issued on reaching a state:
/// none before the first wait, at most `RESET_TIMEOUT_ITERATIONS` per wait.
pub open spec fn read_budget(v: PhyResetView) -> int {
    let t = RESET_TIMEOUT_ITERATIONS as int;
    match v.stage {
        ResetStage::CheckIdle => t - v.remaining + 1,
        ResetStage::PollSoftReset => t,
        ResetStage::CheckSoftReset => 2 * t - v.remaining + 1,
        ResetStage::PhyDelay | ResetStage::PowerUpPhy | ResetStage::Done => 2 * t,
        _ => 0,
    }
}

/// Whatever GRSTCTL reads, each wait of a run from the start reads it at most
/// `RESET_TIMEOUT_ITERATIONS` times (so the whole run at most twice that), and
/// every delay of the run lasts `RESET_DELAY_CYCLES`.
pub proof fn lemma_bounded_waits_and_delays(reads: Seq<u32>)
    ensures
        ({
            let (v, actions) = reset_run(reset_start(), reads);
            &&& reset_reachable(v)
            &&& grstctl_reads(actions) <= read_budget(v)
            &&& read_budget(v) <= 2 * (RESET_TIMEOUT_ITERATIONS as int)
            &&& (v.stage == ResetStage::PollSoftReset ==> grstctl_reads(actions) <= RESET_TIMEOUT_ITERATIONS)
            &&& forall|i: int|
                0 <= i < actions.len() && #[trigger] actions[i] is Delay ==> actions[i]
                    == PhyResetAction::Delay(RESET_DELAY_CYCLES)
        }),
    decreases reads.len(),
{
    if reads.len() > 0 {
        lemma_bounded_waits_and_delays(reads.drop_last());
        let before = reset_run(reset_start(), reads.drop_last());
        let after = reset_run(reset_start(), reads);
        assert(after.1.drop_last() == before.1);
        assert forall|i: int|
            0 <= i < after.1.len() && #[trigger] after.1[i] is Delay implies after.1[i]
                == PhyResetAction::Delay(RESET_DELAY_CYCLES) by {
            if i < before.1.len() {
                assert(after.1[i] == before.1[i]);
            }
        }
    }
}

/// The actions with which every run from the start begins, GRSTCTL reads
/// aside: clock off, delay, clock on, reset asserted, delay, reset released,
/// delay, and the first read of the wait for AHB idle.
pub open spec fn reset_prefix() -> Seq<PhyResetAction> {
    seq![
        PhyResetAction::SetClockEnable(false),
        PhyResetAction::Delay(RESET_DELAY_CYCLES),
        PhyResetAction::SetClockEnable(true),
        PhyResetAction::SetPeripheralReset(true),
        PhyResetAction::Delay(RESET_DELAY_CYCLES),
        PhyResetAction::SetPeripheralReset(false),
        PhyResetAction::Delay(RESET_DELAY_CYCLES),
        PhyResetAction::ReadGrstctl,
    ]
}

/// The number of GRSTCTL reads at the end of `actions`, after its last other
/// action: the reads made so far by the wait in progress.
pub open spec fn trailing_reads(actions: Seq<PhyResetAction>) -> nat
    decreases actions.len(),
{
    if actions.len() == 0 {
        0
    } else if actions.last() is ReadGrstctl {
        trailing_reads(actions.drop_last()) + 1
    } else {
        0
    }
}

/// What the actions issued so far say of a state of the sequence.
spec fn trace_matches(v: PhyResetView, actions: Seq<PhyResetAction>) -> bool {
    let t = RESET_TIMEOUT_ITERATIONS as nat;
    let n = actions.len();
    match v.stage {
        ResetStage::DisableClock => actions == reset_prefix().take(0),
        ResetStage::ClockDelay => actions == reset_prefix().take(1),
        ResetStage::EnableClock => actions == reset_prefix().take(2),
        ResetStage::AssertReset => actions == reset_prefix().take(3),
        ResetStage::AssertDelay => actions == reset_prefix().take(4),
        ResetStage::ReleaseReset => actions == reset_prefix().take(5),
        ResetStage::ReleaseDelay => actions == reset_prefix().take(6),
        ResetStage::PollIdle => actions == reset_prefix().take(7),
        ResetStage::CheckIdle => n >= 8 && actions.last() == PhyResetAction::ReadGrstctl
            && trailing_reads(actions) + v.remaining == t + 1,
        ResetStage::PollSoftReset => n >= 8 && actions.last() == PhyResetAction::WriteGrstctl(
            GRSTCTL_CSRST,
        ),
        ResetStage::CheckSoftReset => n >= 8 && actions.last() == PhyResetAction::ReadGrstctl
            && trailing_reads(actions) + v.remaining == t + 1,
        ResetStage::PhyDelay => n >= 8 && actions.last() == PhyResetAction::WriteGccfg(0),
        ResetStage::PowerUpPhy => n >= 8 && actions.last() == PhyResetAction::Delay(
            RESET_DELAY_CYCLES,
        ) && actions[n - 2] == PhyResetAction::WriteGccfg(0),
        ResetStage::Done => n >= 8 && (actions.last() == PhyResetAction::WriteGccfg(GCCFG_PWRDWN)
            || actions.last() == PhyResetAction::Done),
    }
}

/// A run from the start has one action per step, and its state agrees with
/// the actions issued so far.
proof fn lemma_trace_matches(reads: Seq<u32>)
    ensures
        reset_run(reset_start(), reads).1.len() == reads.len(),
        reset_reachable(reset_run(reset_start(), reads).0),
        trace_matches(reset_run(reset_start(), reads).0, reset_run(reset_start(), reads).1),
    decreases reads.len(),
{
    if reads.len() > 0 {
        lemma_trace_matches(reads.drop_last());
        let before = reset_run(reset_start(), reads.drop_last());
        let after = reset_run(reset_start(), reads);
        let a = after.1.last();
        assert(after.1.drop_last() == before.1);
        assert(after.1.last() == reset_step(before.0, reads.last()).1);
        let t = RESET_TIMEOUT_ITERATIONS as nat;
        if a is ReadGrstctl {
            assert(trailing_reads(after.1) == trailing_reads(before.1) + 1);
        }
        match before.0.stage {
            ResetStage::DisableClock => {
                assert(after.1 == reset_prefix().take(1));
            },
            ResetStage::ClockDelay => {
                assert(after.1 == reset_prefix().take(2));
            },
            ResetStage::EnableClock => {
                assert(after.1 == reset_prefix().take(3));
            },
            ResetStage::AssertReset => {
                assert(after.1 == reset_prefix().take(4));
            },
            ResetStage::AssertDelay => {
                assert(after.1 == reset_prefix().take(5));
            },
            ResetStage::ReleaseReset => {
                assert(after.1 == reset_prefix().take(6));
            },
            ResetStage::ReleaseDelay => {
                assert(after.1 == reset_prefix().take(7));
            },
            ResetStage::PollIdle => {
                assert(before.1.last() == PhyResetAction::Delay(RESET_DELAY_CYCLES));
                assert(trailing_reads(before.1) == 0);
            },
            ResetStage::PollSoftReset => {
                assert(trailing_reads(before.1) == 0);
            },
            ResetStage::PhyDelay => {
                assert(after.1[after.1.len() - 2] == before.1.last());
            },
            _ => {},
        }
    } else {
        assert(reset_prefix().take(0) == Seq::<PhyResetAction>::empty());
    }
}

/// The actions of the first `j` steps of a run are the first `j` actions of
/// any longer run with the same reads.
proof fn lemma_run_take(v: PhyResetView, reads: Seq<u32>, j: int)
    requires
        0 <= j <= reads.len(),
    ensures
        reset_run(v, reads.take(j)).1 == reset_run(v, reads).1.take(j),
        reset_run(v, reads).1.len() == reads.len(),
    decreases reads.len(),
{
    if reads.len() > 0 {
        lemma_run_take(v, reads.drop_last(), 0);
        if j == reads.len() {
            assert(reads.take(j) == reads);
        } else {
            lemma_run_take(v, reads.drop_last(), j);
            assert(reads.drop_last().take(j) == reads.take(j));
        }
    } else {
        assert(reads.take(j) == reads);
    }
}

/// The state before step `j` of a run from the start: it agrees with the
/// actions issued so far, and step `j` issues action `j` from it.
proof fn lemma_state_before(reads: Seq<u32>, j: int)
    requires
        0 <= j < reads.len(),
    ensures
        ({
            let before = reset_run(reset_start(), reads.take(j));
            let actions = reset_run(reset_start(), reads).1;
            &&& actions.len() == reads.len()
            &&& before.1 == actions.take(j)
            &&& reset_reachable(before.0)
            &&& trace_matches(before.0, before.1)
            &&& register_writes(before.1).len() == writes_issued(before.0.stage)
            &&& actions[j] == reset_step(before.0, reads[j]).1
            &&& reset_run(reset_start(), reads.take(j + 1)).0 == reset_step(before.0, reads[j]).0
        }),
{
    lemma_run_take(reset_start(), reads, j);
    lemma_run_take(reset_start(), reads, j + 1);
    lemma_trace_matches(reads.take(j));
    lemma_writes_follow_sequence_order(reads.take(j));
    assert(reads.take(j + 1).drop_last() == reads.take(j));
    let actions = reset_run(reset_start(), reads).1;
    assert(actions.take(j + 1).last() == actions[j]);
}

/// Whatever GRSTCTL reads, every run from the start begins with clock off,
/// a delay, clock on, reset asserted, a delay, reset released, a delay and
/// the first read of the wait for AHB idle.
pub proof fn lemma_reset_begins_with_prefix(reads: Seq<u32>, j: int)
    requires
        0 <= j < reads.len(),
        j < 8,
    ensures
        reset_run(reset_start(), reads).1[j] == reset_prefix()[j],
{
    lemma_state_before(reads, j);
    let before = reset_run(reset_start(), reads.take(j));
    lemma_trace_matches(reads.take(j));
    assert(before.1.len() == j);
}

/// The wait for AHB idle (a read, before the core soft reset is written):
/// a GRSTCTL value with AHBIDL (bit 31) clear keeps the wait going with
/// another read, unless `RESET_TIMEOUT_ITERATIONS` reads have been made; the
/// core soft reset is written only for a value with AHBIDL set, or after the
/// last allowed read.
pub proof fn lemma_idle_wait(reads: Seq<u32>, j: int)
    requires
        1 <= j < reads.len(),
        reset_run(reset_start(), reads).1[j - 1] == PhyResetAction::ReadGrstctl,
        register_writes(reset_run(reset_start(), reads).1.take(j)).len() == 4,
    ensures
        ({
            let actions = reset_run(reset_start(), reads).1;
            let done_waiting = reads[j] & GRSTCTL_AHBIDL != 0 || trailing_reads(actions.take(j))
                >= RESET_TIMEOUT_ITERATIONS;
            &&& trailing_reads(actions.take(j)) <= RESET_TIMEOUT_ITERATIONS
            &&& done_waiting ==> actions[j] == PhyResetAction::WriteGrstctl(GRSTCTL_CSRST)
            &&& !done_waiting ==> actions[j] == PhyResetAction::ReadGrstctl
        }),
{
    lemma_state_before(reads, j);
    let actions = reset_run(reset_start(), reads).1;
    assert(actions.take(j).last() == actions[j - 1]);
}

/// Right after the core soft reset is written, GRSTCTL is read: the wait for
/// the soft reset to clear always takes place.
pub proof fn lemma_soft_reset_wait_starts(reads: Seq<u32>, j: int)
    requires
        1 <= j < reads.len(),
        reset_run(reset_start(), reads).1[j - 1] == PhyResetAction::WriteGrstctl(GRSTCTL_CSRST),
    ensures
        reset_run(reset_start(), reads).1[j] == PhyResetAction::ReadGrstctl,
{
    lemma_state_before(reads, j);
    let actions = reset_run(reset_start(), reads).1;
    assert(actions.take(j).last() == actions[j - 1]);
}

/// The wait for the core soft reset to clear (a read, after the soft reset
/// is written): a GRSTCTL value with CSRST (bit 0) set keeps the wait going
/// with another read, whatever its other bits, unless
/// `RESET_TIMEOUT_ITERATIONS` reads have been made; GCCFG is cleared only for
/// a value with CSRST clear, or after the last allowed read.
pub proof fn lemma_soft_reset_wait(reads: Seq<u32>, j: int)
    requires
        1 <= j < reads.len(),
        reset_run(reset_start(), reads).1[j - 1] == PhyResetAction::ReadGrstctl,
        register_writes(reset_run(reset_start(), reads).1.take(j)).len() == 5,
    ensures
        ({
            let actions = reset_run(reset_start(), reads).1;
            let done_waiting = reads[j] & GRSTCTL_CSRST == 0 || trailing_reads(actions.take(j))
                >= RESET_TIMEOUT_ITERATIONS;
            &&& trailing_reads(actions.take(j)) <= RESET_TIMEOUT_ITERATIONS
            &&& done_waiting ==> actions[j] == PhyResetAction::WriteGccfg(0)
            &&& !done_waiting ==> actions[j] == PhyResetAction::ReadGrstctl
        }),
{
    lemma_state_before(reads, j);
    let actions = reset_run(reset_start(), reads).1;
    assert(actions.take(j).last() == actions[j - 1]);
}

/// The PHY power cycle: GCCFG cleared, then a delay of `RESET_DELAY_CYCLES`,
/// then GCCFG.PWRDWN written, after which the sequence is done and stays done.
pub proof fn lemma_power_cycle(reads: Seq<u32>, j: int)
    requires
        1 <= j < reads.len(),
    ensures
        ({
            let actions = reset_run(reset_start(), reads).1;
            &&& actions[j - 1] == PhyResetAction::WriteGccfg(0) ==> actions[j] == PhyResetAction::Delay(
                RESET_DELAY_CYCLES,
            )
            &&& j >= 2 && actions[j - 2] == PhyResetAction::WriteGccfg(0) ==> actions[j]
                == PhyResetAction::WriteGccfg(GCCFG_PWRDWN)
            &&& (actions[j - 1] == PhyResetAction::WriteGccfg(GCCFG_PWRDWN) || actions[j - 1]
                == PhyResetAction::Done) ==> actions[j] == PhyResetAction::Done
        }),
{
    lemma_state_before(reads, j);
    let actions = reset_run(reset_start(), reads).1;
    assert(actions.take(j).last() == actions[j - 1]);
    if j >= 2 {
        lemma_state_before(reads, j - 1);
        assert(actions.take(j - 1).last() == actions[j - 2]);
        assert(reads.take(j - 1 + 1) == reads.take(j));
    }
}

/// The decision logic of the USB OTG FS PHY reset sequence.
#[derive(Debug, Clone, Copy, PartialEq, Eq, Structural)]
pub struct PhyReset {
    stage: ResetStage,
    remaining: u32,
}

impl View for PhyReset {
    type V = PhyResetView;

    closed spec fn view(&self) -> PhyResetView {
        PhyResetView { stage: self.stage, remaining: self.remaining as nat }
    }
}

impl PhyReset {
    /// Well-formedness: the state is one that the steps can produce.
    pub open spec fn wf(&self) -> bool {
        reset_reachable(self@)
    }

    /// A sequence that has not started: its first step disables the clock.
    pub fn new() -> (r: Self)
        ensures
            r@ == (PhyResetView { stage: ResetStage::DisableClock, remaining: 0 }),
            r.wf(),
    {
        PhyReset { stage: ResetStage::DisableClock, remaining: 0 }
    }

    /// Takes one step: returns the action to perform next. `grstctl` is the
    /// value read from GRSTCTL when the previous action was
    /// `PhyResetAction::ReadGrstctl`; at any other step it is ignored.
    pub fn step(&mut self, grstctl: u32) -> (action: PhyResetAction)
        ensures
            (final(self)@, action) == reset_step(old(self)@, grstctl),
            old(self).wf() ==> final(self).wf(),
    {
        let action = match self.stage {
            ResetStage::DisableClock => {
                self.stage = ResetStage::ClockDelay;
                PhyResetAction::SetClockEnable(false)
            },
            ResetStage::ClockDelay => {
                self.stage = ResetStage::EnableClock;
                PhyResetAction::Delay(RESET_DELAY_CYCLES)
            },
            ResetStage::EnableClock => {
                self.stage = ResetStage::AssertReset;
                PhyResetAction::SetClockEnable(true)
            },
            ResetStage::AssertReset => {
                self.stage = ResetStage::AssertDelay;
                PhyResetAction::SetPeripheralReset(true)
            },
            ResetStage::AssertDelay => {
                self.stage = ResetStage::ReleaseReset;
                PhyResetAction::Delay(RESET_DELAY_CYCLES)
            },
            ResetStage::ReleaseReset => {
                self.stage = ResetStage::ReleaseDelay;
                PhyResetAction::SetPeripheralReset(false)
            },
            ResetStage::ReleaseDelay => {
                self.stage = ResetStage::PollIdle;
                PhyResetAction::Delay(RESET_DELAY_CYCLES)
            },
            ResetStage::PollIdle => {
                self.stage = ResetStage::CheckIdle;
                self.remaining = RESET_TIMEOUT_ITERATIONS;
                PhyResetAction::ReadGrstctl
            },
            ResetStage::CheckIdle => {
                if grstctl & GRSTCTL_AHBIDL != 0 || self.remaining <= 1 {
                    self.stage = ResetStage::PollSoftReset;
                    PhyResetAction::WriteGrstctl(GRSTCTL_CSRST)
                } else {
                    self.remaining = self.remaining - 1;
                    PhyResetAction::ReadGrstctl
                }
            },
            ResetStage::PollSoftReset => {
                self.stage = ResetStage::CheckSoftReset;
                self.remaining = RESET_TIMEOUT_ITERATIONS;
                PhyResetAction::ReadGrstctl
            },
            ResetStage::CheckSoftReset => {
                if grstctl & GRSTCTL_CSRST == 0 || self.remaining <= 1 {
                    self.stage = ResetStage::PhyDelay;
                    PhyResetAction::WriteGccfg(0)
                } else {
                    self.remaining = self.remaining - 1;
                    PhyResetAction::ReadGrstctl
                }
            },
            ResetStage::PhyDelay => {
                self.stage = ResetStage::PowerUpPhy;
                PhyResetAction::Delay(RESET_DELAY_CYCLES)
            },
            ResetStage::PowerUpPhy => {
                self.stage = ResetStage::Done;
                PhyResetAction::WriteGccfg(GCCFG_PWRDWN)
            },
            ResetStage::Done => PhyResetAction::Done,
        };
        action
    }

    /// Whether the sequence is complete.
    pub fn is_done(&self) -> (done: bool)
        ensures
            done == (self@.stage == ResetStage::Done),
    {
        match self.stage {
            ResetStage::Done => true,
            _ => false,
        }
    }
}

} // verus!
