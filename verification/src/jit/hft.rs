//! Elastic determinism: a routine that runs much longer than expected was
//! preempted from outside, and the cycles it lost are accounted for.

use vstd::prelude::*;
use crate::text::push_str;

verus! {

/// Threshold in cycles beyond which a delay counts as external preemption.
pub const DEFAULT_ELASTIC_JITTER_THRESHOLD_CYCLES: u64 = 150_000;

/// Whether a run stayed within its cycle budget.
#[derive(Debug, Clone, Copy, PartialEq, Eq, Structural)]
pub enum JitterStatus {
    WithinBudget,
    ElasticJitterDetected { elapsed_cycles: u64, expected_cycles: u64, lost_to_void: u64 },
}

/// Running total of the cycles lost to external preemption.
pub struct LostCycles {
    pub total: u64,
}

impl LostCycles {
    pub fn new() -> (l: Self)
        ensures
            l.total == 0,
    {
        LostCycles { total: 0 }
    }
}

/// The verdict on a run: jitter when it overran its expected cycles by more
/// than `threshold`.
pub open spec fn jitter_of(elapsed: u64, expected: u64, threshold: u64) -> JitterStatus {
    if elapsed > expected && elapsed - expected > threshold {
        JitterStatus::ElasticJitterDetected {
            elapsed_cycles: elapsed,
            expected_cycles: expected,
            lost_to_void: (elapsed - expected) as u64,
        }
    } else {
        JitterStatus::WithinBudget
    }
}

/// The cycles lost so far.
pub fn get_total_lost_cycles(ledger: &LostCycles) -> (r: u64)
    ensures
        r == ledger.total,
{
    ledger.total
}

/// Forgets the cycles lost so far.
pub fn reset_total_lost_cycles(ledger: &mut LostCycles)
    ensures
        final(ledger).total == 0,
{
    ledger.total = 0;
}

/// Judges a run and adds the cycles lost to jitter to the running total
/// (which wraps around at 2^64).
pub fn evaluate_elastic_determinism(ledger: &mut LostCycles, elapsed_cycles: u64, expected_cycles: u64, threshold: u64) -> (r: JitterStatus)
    ensures
        r == jitter_of(elapsed_cycles, expected_cycles, threshold),
        final(ledger).total == match r {
            JitterStatus::ElasticJitterDetected { lost_to_void, .. } => old(ledger).total.wrapping_add(lost_to_void),
            JitterStatus::WithinBudget => old(ledger).total,
        },
{
    if elapsed_cycles > expected_cycles && (elapsed_cycles - expected_cycles) > threshold {
        let lost = elapsed_cycles - expected_cycles;
        ledger.total = ledger.total.wrapping_add(lost);
        JitterStatus::ElasticJitterDetected { elapsed_cycles, expected_cycles, lost_to_void: lost }
    } else {
        JitterStatus::WithinBudget
    }
}

/// A reset ledger reads zero, and a run within budget leaves the total as
/// it was.
pub proof fn law_within_budget_keeps_total(elapsed: u64, expected: u64, threshold: u64)
    ensures
        elapsed <= expected ==> jitter_of(elapsed, expected, threshold) == JitterStatus::WithinBudget,
        elapsed <= expected + threshold ==> jitter_of(elapsed, expected, threshold) == JitterStatus::WithinBudget,
{
}

/// The answer to a request to pin the calling thread to a core, from the
/// status that the system call returned and the text of the system's last
/// error: success on status 0, else an error that quotes that text.
pub fn affinity_outcome(status: i32, os_error: &str) -> (r: Result<(), String>)
    ensures
        status == 0 ==> r is Ok,
        status != 0 ==> (r matches Err(m) && m@ == "sched_setaffinity failed with errno: "@ + os_error@),
{
    if status == 0 {
        Ok(())
    } else {
        let mut m = String::new();
        push_str(&mut m, "sched_setaffinity failed with errno: ");
        push_str(&mut m, os_error);
        assert(m@ =~= "sched_setaffinity failed with errno: "@ + os_error@);
        Err(m)
    }
}

} // verus!
